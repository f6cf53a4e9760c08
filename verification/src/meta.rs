//! The metadata record: the header that every collection keeps under its
//! meta key.
//!
//! The record names the collection's type, counts its entries and carries the
//! version that all its data keys embed. A collection whose count has dropped
//! to zero is gone, but its record stays behind as a tombstone: when the user
//! key is used again the version moves on, so that data keys left over from
//! the earlier life of the key can never be taken for entries of the new one.

use vstd::prelude::*;
use crate::frame::Fault;
use crate::keys::TypeTag;
use crate::octets::{be64, be64_value, append_be64, read_be64};
use crate::octets::{lemma_be64_value_of_be64, lemma_be64_of_be64_value};

verus! {

/// Length of an encoded record without an expiry time.
pub const META_SHORT: usize = 17;

/// Length of an encoded record with an expiry time.
pub const META_LONG: usize = 25;

/// The header of one collection.
#[derive(Clone, Copy, Debug, PartialEq, Eq)]
pub struct Metadata {
    /// Which life of the user key this is; part of every data key.
    pub version: u64,
    /// The number of entries.
    pub size: u64,
    /// The collection's type.
    pub tag: TypeTag,
    /// When the collection expires, if it does.
    pub expire_at: Option<u64>,
}

/// The stored form of a record.
pub open spec fn meta_bytes(m: Metadata) -> Seq<u8> {
    seq![m.tag.byte()] + be64(m.version) + be64(m.size) + match m.expire_at {
        Some(t) => be64(t),
        None => Seq::empty(),
    }
}

/// `raw` has the shape of a stored record.
pub open spec fn is_meta_bytes(raw: Seq<u8>) -> bool {
    (raw.len() == META_SHORT || raw.len() == META_LONG) && TypeTag::of_byte(raw[0]) is Some
}

/// The record that stored bytes stand for.
pub open spec fn meta_of_bytes(raw: Seq<u8>) -> Metadata {
    Metadata {
        version: be64_value(raw.subrange(1, 9)) as u64,
        size: be64_value(raw.subrange(9, 17)) as u64,
        tag: TypeTag::of_byte(raw[0])->0,
        expire_at: if raw.len() == META_LONG {
            Some(be64_value(raw.subrange(17, 25)) as u64)
        } else {
            None
        },
    }
}

/// What the content of a meta key says: nothing stored, a record, or bytes
/// that are no record.
pub open spec fn spec_load(raw: Option<Seq<u8>>) -> Result<Option<Metadata>, Fault> {
    match raw {
        None => Ok(None),
        Some(b) => if is_meta_bytes(b) {
            Ok(Some(meta_of_bytes(b)))
        } else {
            Err(Fault::Internal)
        },
    }
}

/// The record under which a collection of type `tag` is written, given the
/// record found under its key: none yet, a tombstone, or that of a live
/// collection.
pub open spec fn spec_create_or_bump(prior: Option<Metadata>, tag: TypeTag) -> Result<
    Metadata,
    Fault,
> {
    match prior {
        None => Ok(Metadata { version: 0, size: 0, tag, expire_at: None }),
        Some(m) => if m.size > 0 {
            if m.tag == tag {
                Ok(m)
            } else {
                Err(Fault::WrongType)
            }
        } else if m.version == u64::MAX {
            Err(Fault::Internal)
        } else {
            Ok(Metadata { version: (m.version + 1) as u64, size: 0, tag, expire_at: None })
        },
    }
}

/// The record after the entry count has moved by `delta`.
pub open spec fn spec_touch_size(m: Metadata, delta: int) -> Result<Metadata, Fault> {
    if 0 <= m.size + delta <= u64::MAX {
        Ok(Metadata { size: (m.size + delta) as u64, ..m })
    } else {
        Err(Fault::Internal)
    }
}

/// Decoding a stored record gives back the record.
pub proof fn lemma_meta_roundtrip(m: Metadata)
    ensures
        is_meta_bytes(meta_bytes(m)),
        meta_of_bytes(meta_bytes(m)) == m,
{
    let raw = meta_bytes(m);
    lemma_be64_value_of_be64(m.version);
    lemma_be64_value_of_be64(m.size);
    assert(raw.subrange(1, 9) =~= be64(m.version));
    assert(raw.subrange(9, 17) =~= be64(m.size));
    match m.expire_at {
        Some(t) => {
            lemma_be64_value_of_be64(t);
            assert(raw.subrange(17, 25) =~= be64(t));
        },
        None => {},
    }
}

/// Bytes of record shape are the stored form of the record they decode to.
pub proof fn law_meta_bytes_of_parsed(raw: Seq<u8>)
    requires
        is_meta_bytes(raw),
    ensures
        meta_bytes(meta_of_bytes(raw)) == raw,
{
    lemma_be64_of_be64_value(raw.subrange(1, 9));
    lemma_be64_of_be64_value(raw.subrange(9, 17));
    if raw.len() == META_LONG {
        lemma_be64_of_be64_value(raw.subrange(17, 25));
    }
    assert(meta_bytes(meta_of_bytes(raw)) =~= raw);
}

impl Metadata {
    /// A collection with at least one entry. A record that counts none is a
    /// tombstone.
    pub open spec fn live(self) -> bool {
        self.size > 0
    }

    pub fn is_live(&self) -> (r: bool)
        ensures
            r == self.live(),
    {
        self.size > 0
    }

    /// The bytes to store for this record.
    pub fn encode(&self) -> (raw: Vec<u8>)
        ensures
            raw@ == meta_bytes(*self),
    {
        let mut raw: Vec<u8> = Vec::new();
        raw.push(self.tag.to_byte());
        append_be64(&mut raw, self.version);
        append_be64(&mut raw, self.size);
        match self.expire_at {
            Some(t) => {
                append_be64(&mut raw, t);
            },
            None => {},
        }
        assert(raw@ =~= meta_bytes(*self));
        raw
    }

    /// The record that `raw` holds; `None` if it holds none.
    pub fn decode(raw: &[u8]) -> (m: Option<Metadata>)
        ensures
            m is Some <==> is_meta_bytes(raw@),
            m is Some ==> m->0 == meta_of_bytes(raw@),
    {
        if raw.len() != META_SHORT && raw.len() != META_LONG {
            return None;
        }
        let tag = match TypeTag::from_byte(raw[0]) {
            Some(t) => t,
            None => {
                return None;
            },
        };
        let version = read_be64(raw, 1);
        let size = read_be64(raw, 9);
        let expire_at = if raw.len() == META_LONG {
            Some(read_be64(raw, 17))
        } else {
            None
        };
        Some(Metadata { version, size, tag, expire_at })
    }

    /// Reads what a meta key holds. Nothing stored is no error: it stands for
    /// a collection that does not exist. Bytes that are no record are.
    pub fn load(raw: &Option<Vec<u8>>) -> (r: Result<Option<Metadata>, Fault>)
        ensures
            r == spec_load(
                match *raw {
                    Some(b) => Some(b@),
                    None => None,
                },
            ),
    {
        match raw {
            None => Ok(None),
            Some(b) => match Metadata::decode(b.as_slice()) {
                Some(m) => Ok(Some(m)),
                None => Err(Fault::Internal),
            },
        }
    }

    /// The record to write a collection of type `tag` under. A live record of
    /// that type is kept as it is; one of another type is refused; on a
    /// tombstone the version moves on and the count starts from zero.
    pub fn create_or_bump(prior: Option<Metadata>, tag: TypeTag) -> (r: Result<Metadata, Fault>)
        ensures
            r == spec_create_or_bump(prior, tag),
    {
        match prior {
            None => Ok(Metadata { version: 0, size: 0, tag, expire_at: None }),
            Some(m) => {
                if m.size > 0 {
                    if m.tag == tag {
                        Ok(m)
                    } else {
                        Err(Fault::WrongType)
                    }
                } else if m.version == u64::MAX {
                    Err(Fault::Internal)
                } else {
                    Ok(Metadata { version: m.version + 1, size: 0, tag, expire_at: None })
                }
            },
        }
    }

    /// The record with its count moved by `delta`; refused where the count
    /// would leave its range.
    pub fn touch_size(&self, delta: i64) -> (r: Result<Metadata, Fault>)
        ensures
            r == spec_touch_size(*self, delta as int),
    {
        if delta >= 0 {
            let up: u64 = delta as u64;
            if up > u64::MAX - self.size {
                Err(Fault::Internal)
            } else {
                Ok(
                    Metadata {
                        version: self.version,
                        size: self.size + up,
                        tag: self.tag,
                        expire_at: self.expire_at,
                    },
                )
            }
        } else {
            let down: u64 = ((-(delta + 1)) as u64) + 1;
            if down > self.size {
                Err(Fault::Internal)
            } else {
                Ok(
                    Metadata {
                        version: self.version,
                        size: self.size - down,
                        tag: self.tag,
                        expire_at: self.expire_at,
                    },
                )
            }
        }
    }
}

} // verus!
