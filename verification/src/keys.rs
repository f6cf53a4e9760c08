//! The key encoder: how a collection and its entries are laid out in the flat
//! key space of the store.
//!
//! A collection named by a user key owns one *meta key*, which holds its
//! metadata record, and one *data key* per entry. A data key spells out the
//! collection's type, the user key with its length in front, the version of
//! the collection and then the entry's discriminator: a hash field, a set
//! member, or a list index in big-endian form.

use vstd::prelude::*;
use crate::octets::{be64, be64_value, has_prefix, lex_lt, append, append_be64, read_be64, copy_range, tail_from};
use crate::octets::{lemma_be64_value_of_be64, lemma_be64_of_be64_value, lemma_be64_monotonic, lemma_lex_lt_prepend};

verus! {

/// First byte of every meta key.
pub const META_PREFIX: u8 = 109;

/// First byte of every data key.
pub const DATA_PREFIX: u8 = 100;

/// Number of bytes a data key spends on everything but the user key and the
/// discriminator: two tag bytes, the key length and the version.
pub const DATA_OVERHEAD: usize = 18;

/// The type of a collection.
#[derive(Clone, Copy, Debug, PartialEq, Eq, Structural)]
pub enum TypeTag {
    Str,
    Hash,
    List,
    PlainSet,
    SortedSet,
}

impl TypeTag {
    /// The byte that stands for this type in keys and records.
    pub open spec fn byte(self) -> u8 {
        match self {
            TypeTag::Str => 115,
            TypeTag::Hash => 104,
            TypeTag::List => 108,
            TypeTag::PlainSet => 83,
            TypeTag::SortedSet => 122,
        }
    }

    /// The type that a byte stands for, if any.
    pub open spec fn of_byte(b: u8) -> Option<TypeTag> {
        if b == 115 {
            Some(TypeTag::Str)
        } else if b == 104 {
            Some(TypeTag::Hash)
        } else if b == 108 {
            Some(TypeTag::List)
        } else if b == 83 {
            Some(TypeTag::PlainSet)
        } else if b == 122 {
            Some(TypeTag::SortedSet)
        } else {
            None
        }
    }

    /// Whether entries of this type are found by name: hash fields and set
    /// members, as opposed to list positions.
    pub open spec fn keyed(self) -> bool {
        self == TypeTag::Hash || self == TypeTag::PlainSet
    }

    pub fn to_byte(self) -> (b: u8)
        ensures
            b == self.byte(),
            TypeTag::of_byte(b) == Some(self),
    {
        match self {
            TypeTag::Str => 115,
            TypeTag::Hash => 104,
            TypeTag::List => 108,
            TypeTag::PlainSet => 83,
            TypeTag::SortedSet => 122,
        }
    }

    pub fn from_byte(b: u8) -> (t: Option<TypeTag>)
        ensures
            t == TypeTag::of_byte(b),
            t is Some ==> t->0.byte() == b,
    {
        if b == 115 {
            Some(TypeTag::Str)
        } else if b == 104 {
            Some(TypeTag::Hash)
        } else if b == 108 {
            Some(TypeTag::List)
        } else if b == 83 {
            Some(TypeTag::PlainSet)
        } else if b == 122 {
            Some(TypeTag::SortedSet)
        } else {
            None
        }
    }

    pub fn is_keyed(self) -> (r: bool)
        ensures
            r == self.keyed(),
    {
        match self {
            TypeTag::Hash => true,
            TypeTag::PlainSet => true,
            _ => false,
        }
    }
}

/// The parts of a data key.
#[derive(Clone, Debug, PartialEq, Eq)]
pub struct DataKey {
    pub tag: TypeTag,
    pub key: Vec<u8>,
    pub version: u64,
    pub disc: Vec<u8>,
}

/// A data key's parts as mathematical values.
pub struct DataKeyView {
    pub tag: TypeTag,
    pub key: Seq<u8>,
    pub version: u64,
    pub disc: Seq<u8>,
}

impl View for DataKey {
    type V = DataKeyView;

    open spec fn view(&self) -> DataKeyView {
        DataKeyView { tag: self.tag, key: self.key@, version: self.version, disc: self.disc@ }
    }
}

/// A user key whose length can be written in eight bytes. Every key that
/// fits in memory is one.
pub open spec fn valid_user_key(key: Seq<u8>) -> bool {
    key.len() <= u64::MAX
}

/// The storage key of the metadata record of the collection `key`.
pub open spec fn meta_key(key: Seq<u8>) -> Seq<u8> {
    seq![META_PREFIX] + key
}

/// What all data keys of version `version` of the collection `key` start with.
pub open spec fn data_prefix(tag: TypeTag, key: Seq<u8>, version: u64) -> Seq<u8> {
    seq![DATA_PREFIX, tag.byte()] + be64(key.len() as u64) + key + be64(version)
}

/// The storage key of the entry `disc` of the collection `key`.
pub open spec fn data_key(tag: TypeTag, key: Seq<u8>, version: u64, disc: Seq<u8>) -> Seq<u8> {
    data_prefix(tag, key, version) + disc
}

/// The storage key of the element at position `index` of the list `key`.
pub open spec fn list_key(key: Seq<u8>, version: u64, index: u64) -> Seq<u8> {
    data_key(TypeTag::List, key, version, be64(index))
}

/// `sk` has the shape of a meta key.
pub open spec fn is_meta_key(sk: Seq<u8>) -> bool {
    sk.len() >= 1 && sk[0] == META_PREFIX
}

/// The user key that a meta key names.
pub open spec fn meta_key_owner(sk: Seq<u8>) -> Seq<u8> {
    sk.subrange(1, sk.len() as int)
}

/// `sk` has the shape of a data key.
pub open spec fn is_data_key(sk: Seq<u8>) -> bool {
    &&& sk.len() >= DATA_OVERHEAD
    &&& sk[0] == DATA_PREFIX
    &&& TypeTag::of_byte(sk[1]) is Some
    &&& be64_value(sk.subrange(2, 10)) + DATA_OVERHEAD <= sk.len()
}

/// The parts that a data key spells out.
pub open spec fn data_key_parts(sk: Seq<u8>) -> DataKeyView {
    let n = be64_value(sk.subrange(2, 10));
    DataKeyView {
        tag: TypeTag::of_byte(sk[1])->0,
        key: sk.subrange(10, 10 + n),
        version: be64_value(sk.subrange(10 + n, 18 + n)) as u64,
        disc: sk.subrange(18 + n, sk.len() as int),
    }
}

/// Reading a meta key gives back the user key it was made from.
pub proof fn lemma_meta_key_roundtrip(key: Seq<u8>)
    ensures
        is_meta_key(meta_key(key)),
        !is_data_key(meta_key(key)),
        meta_key_owner(meta_key(key)) == key,
{
    assert(meta_key_owner(meta_key(key)) =~= key);
}

/// Every storage key of meta shape is the meta key of its owner.
pub proof fn law_meta_key_of_owner(sk: Seq<u8>)
    requires
        is_meta_key(sk),
    ensures
        meta_key(meta_key_owner(sk)) == sk,
{
    assert(meta_key(meta_key_owner(sk)) =~= sk);
}

/// Reading a data key gives back the parts it was made from.
pub proof fn lemma_data_key_roundtrip(tag: TypeTag, key: Seq<u8>, version: u64, disc: Seq<u8>)
    requires
        valid_user_key(key),
    ensures
        is_data_key(data_key(tag, key, version, disc)),
        !is_meta_key(data_key(tag, key, version, disc)),
        data_key_parts(data_key(tag, key, version, disc)) == (DataKeyView {
            tag,
            key,
            version,
            disc,
        }),
        data_prefix(tag, key, version).len() == DATA_OVERHEAD + key.len(),
{
    let sk = data_key(tag, key, version, disc);
    let n = key.len() as int;
    lemma_be64_value_of_be64(n as u64);
    lemma_be64_value_of_be64(version);
    assert(sk.subrange(2, 10) =~= be64(n as u64));
    assert(sk.subrange(10, 10 + n) =~= key);
    assert(sk.subrange(10 + n, 18 + n) =~= be64(version));
    assert(sk.subrange(18 + n, sk.len() as int) =~= disc);
}

/// Every storage key of data shape is the data key of its parts.
pub proof fn lemma_data_key_of_parts(sk: Seq<u8>)
    requires
        is_data_key(sk),
    ensures
        valid_user_key(data_key_parts(sk).key),
        data_key(
            data_key_parts(sk).tag,
            data_key_parts(sk).key,
            data_key_parts(sk).version,
            data_key_parts(sk).disc,
        ) == sk,
{
    let p = data_key_parts(sk);
    let n = be64_value(sk.subrange(2, 10));
    lemma_be64_of_be64_value(sk.subrange(2, 10));
    lemma_be64_of_be64_value(sk.subrange(10 + n, 18 + n));
    assert(p.key.len() == n);
    assert(data_key(p.tag, p.key, p.version, p.disc) =~= sk);
}

/// Collision freedom: two data keys are equal only if all their parts are,
/// whatever the types; and no data key is a meta key.
pub proof fn law_data_keys_distinct(
    tag1: TypeTag,
    key1: Seq<u8>,
    version1: u64,
    disc1: Seq<u8>,
    tag2: TypeTag,
    key2: Seq<u8>,
    version2: u64,
    disc2: Seq<u8>,
)
    requires
        valid_user_key(key1),
        valid_user_key(key2),
    ensures
        data_key(tag1, key1, version1, disc1) == data_key(tag2, key2, version2, disc2) <==> (tag1
            == tag2 && key1 == key2 && version1 == version2 && disc1 == disc2),
        data_key(tag1, key1, version1, disc1) != meta_key(key2),
{
    lemma_data_key_roundtrip(tag1, key1, version1, disc1);
    lemma_data_key_roundtrip(tag2, key2, version2, disc2);
    lemma_meta_key_roundtrip(key2);
}

/// Collision freedom of meta keys: two user keys never share a meta key.
pub proof fn lemma_meta_keys_distinct(key1: Seq<u8>, key2: Seq<u8>)
    ensures
        meta_key(key1) == meta_key(key2) <==> key1 == key2,
{
    lemma_meta_key_roundtrip(key1);
    lemma_meta_key_roundtrip(key2);
}

/// Whatever starts with the data prefix of one version of one collection is
/// one of that version's data keys.
pub proof fn lemma_prefixed_is_data_key(sk: Seq<u8>, tag: TypeTag, key: Seq<u8>, version: u64)
    requires
        valid_user_key(key),
        has_prefix(sk, data_prefix(tag, key, version)),
    ensures
        is_data_key(sk),
        data_key_parts(sk).tag == tag,
        data_key_parts(sk).key == key,
        data_key_parts(sk).version == version,
        sk == data_key(tag, key, version, data_key_parts(sk).disc),
{
    let p = data_prefix(tag, key, version);
    let disc = sk.subrange(p.len() as int, sk.len() as int);
    assert(sk =~= p + disc);
    lemma_data_key_roundtrip(tag, key, version, disc);
}

/// Every data key starts with the data prefix of its collection and version.
pub proof fn lemma_data_key_is_prefixed(tag: TypeTag, key: Seq<u8>, version: u64, disc: Seq<u8>)
    ensures
        has_prefix(data_key(tag, key, version, disc), data_prefix(tag, key, version)),
{
    let p = data_prefix(tag, key, version);
    assert((p + disc).subrange(0, p.len() as int) =~= p);
}

/// Prefix scans are exact: the storage keys that start with the data prefix
/// of one version of one collection are that version's data keys, and no
/// others.
pub proof fn law_prefix_selects(sk: Seq<u8>, tag: TypeTag, key: Seq<u8>, version: u64)
    requires
        valid_user_key(key),
    ensures
        has_prefix(sk, data_prefix(tag, key, version)) <==> (is_data_key(sk) && data_key_parts(
            sk,
        ).tag == tag && data_key_parts(sk).key == key && data_key_parts(sk).version == version),
{
    if has_prefix(sk, data_prefix(tag, key, version)) {
        lemma_prefixed_is_data_key(sk, tag, key, version);
    }
    if is_data_key(sk) && data_key_parts(sk).tag == tag && data_key_parts(sk).key == key
        && data_key_parts(sk).version == version {
        lemma_data_key_of_parts(sk);
        lemma_data_key_is_prefixed(tag, key, version, data_key_parts(sk).disc);
    }
}

/// List entries are stored in the order of their positions.
pub proof fn law_list_keys_ordered(key: Seq<u8>, version: u64, i: u64, j: u64)
    requires
        i < j,
    ensures
        lex_lt(list_key(key, version, i), list_key(key, version, j)),
{
    lemma_be64_monotonic(i, j);
    lemma_lex_lt_prepend(data_prefix(TypeTag::List, key, version), be64(i), be64(j));
}

/// Builds the meta key of a collection.
pub fn encode_meta(key: &[u8]) -> (sk: Vec<u8>)
    ensures
        sk@ == meta_key(key@),
{
    let mut sk: Vec<u8> = Vec::new();
    sk.push(META_PREFIX);
    append(&mut sk, key);
    assert(sk@ =~= meta_key(key@));
    sk
}

/// Builds the prefix shared by the data keys of one version of a collection.
pub fn encode_prefix(tag: TypeTag, key: &[u8], version: u64) -> (p: Vec<u8>)
    ensures
        p@ == data_prefix(tag, key@, version),
        valid_user_key(key@),
{
    let mut p: Vec<u8> = Vec::new();
    p.push(DATA_PREFIX);
    p.push(tag.to_byte());
    append_be64(&mut p, key.len() as u64);
    append(&mut p, key);
    append_be64(&mut p, version);
    assert(p@ =~= data_prefix(tag, key@, version));
    p
}

/// Builds the data key of one entry.
pub fn encode_data(tag: TypeTag, key: &[u8], version: u64, disc: &[u8]) -> (sk: Vec<u8>)
    ensures
        sk@ == data_key(tag, key@, version, disc@),
        valid_user_key(key@),
{
    let mut sk = encode_prefix(tag, key, version);
    append(&mut sk, disc);
    sk
}

/// Builds the discriminator of a list position.
pub fn encode_index(index: u64) -> (disc: Vec<u8>)
    ensures
        disc@ == be64(index),
{
    let mut disc: Vec<u8> = Vec::new();
    append_be64(&mut disc, index);
    assert(disc@ =~= be64(index));
    disc
}

/// Reads a list position back from a discriminator; `None` unless it is
/// exactly eight bytes long.
pub fn decode_index(disc: &[u8]) -> (index: Option<u64>)
    ensures
        index is Some <==> disc@.len() == 8,
        index is Some ==> be64(index->0) == disc@,
{
    if disc.len() != 8 {
        return None;
    }
    let x = read_be64(disc, 0);
    assert(disc@.subrange(0, 8) =~= disc@);
    Some(x)
}

/// Reads the user key back from a meta key; `None` if `sk` is not one.
pub fn decode_meta(sk: &[u8]) -> (key: Option<Vec<u8>>)
    ensures
        key is Some <==> is_meta_key(sk@),
        key is Some ==> key->0@ == meta_key_owner(sk@),
{
    if sk.len() < 1 || sk[0] != META_PREFIX {
        return None;
    }
    Some(tail_from(sk, 1))
}

/// Reads the parts back from a data key; `None` if `sk` is not one.
pub fn decode_data(sk: &[u8]) -> (parts: Option<DataKey>)
    ensures
        parts is Some <==> is_data_key(sk@),
        parts is Some ==> parts->0@ == data_key_parts(sk@),
{
    if sk.len() < DATA_OVERHEAD || sk[0] != DATA_PREFIX {
        return None;
    }
    let tag = match TypeTag::from_byte(sk[1]) {
        Some(t) => t,
        None => {
            return None;
        },
    };
    let n = read_be64(sk, 2);
    if n > (sk.len() - DATA_OVERHEAD) as u64 {
        return None;
    }
    let n: usize = n as usize;
    let key = copy_range(sk, 10, 10 + n);
    let version = read_be64(sk, 10 + n);
    let disc = tail_from(sk, 18 + n);
    Some(DataKey { tag, key, version, disc })
}

} // verus!
