//! What a store means: the collections that its keys spell out, and the
//! invariant that ties every metadata record to the data keys beside it.

use vstd::prelude::*;
use vstd::set_lib::lemma_len_subset;
use crate::command::{belongs, resized};
use crate::keys::{TypeTag, valid_user_key, meta_key, data_key, list_key};
use crate::keys::{is_data_key, data_key_parts};
use crate::keys::{lemma_meta_key_roundtrip, lemma_data_key_roundtrip, lemma_data_key_of_parts, lemma_meta_keys_distinct};
use crate::meta::{Metadata, meta_bytes, is_meta_bytes, meta_of_bytes, spec_load};
use crate::meta::{lemma_meta_roundtrip};
use crate::octets::{be64, be64_value};
use crate::octets::{lemma_be64_value_of_be64};
use crate::store::{Kv, lookup};

verus! {

/// The record stored for the user key `key`, tombstone or not.
pub open spec fn stored_record(s: Kv, key: Seq<u8>) -> Option<Metadata> {
    match spec_load(lookup(s, meta_key(key))) {
        Ok(found) => found,
        Err(_) => None,
    }
}

/// The record of the collection that lives under `key`, if one does.
pub open spec fn live_record(s: Kv, key: Seq<u8>) -> Option<Metadata> {
    match stored_record(s, key) {
        Some(m) => if m.live() {
            Some(m)
        } else {
            None
        },
        None => None,
    }
}

/// The stored data keys of one version of one collection.
pub open spec fn version_keys(s: Kv, tag: TypeTag, key: Seq<u8>, version: u64) -> Set<Seq<u8>> {
    Set::new(|sk: Seq<u8>| s.dom().contains(sk) && belongs(sk, tag, key, version))
}

/// The entries of the hash or set of type `tag` that lives under `key`, by
/// name. Empty where no such collection lives there.
pub open spec fn entries(s: Kv, tag: TypeTag, key: Seq<u8>) -> Map<Seq<u8>, Seq<u8>> {
    match live_record(s, key) {
        Some(m) => if m.tag == tag {
            Map::new(
                |name: Seq<u8>| s.dom().contains(data_key(tag, key, m.version, name)),
                |name: Seq<u8>| s[data_key(tag, key, m.version, name)],
            )
        } else {
            Map::empty()
        },
        None => Map::empty(),
    }
}

/// The hash under `key`: its fields and their values.
pub open spec fn hash_fields(s: Kv, key: Seq<u8>) -> Map<Seq<u8>, Seq<u8>> {
    entries(s, TypeTag::Hash, key)
}

/// The set under `key`: its members.
pub open spec fn set_members(s: Kv, key: Seq<u8>) -> Set<Seq<u8>> {
    entries(s, TypeTag::PlainSet, key).dom()
}

/// The list under `key`: its elements in order. Empty where no list lives
/// there.
pub open spec fn list_elements(s: Kv, key: Seq<u8>) -> Seq<Seq<u8>> {
    match live_record(s, key) {
        Some(m) => if m.tag == TypeTag::List {
            Seq::new(m.size as nat, |i: int| s[list_key(key, m.version, i as u64)])
        } else {
            Seq::empty()
        },
        None => Seq::empty(),
    }
}

/// `disc` is the discriminator of a list position below `size`.
pub open spec fn is_position_below(disc: Seq<u8>, size: u64) -> bool {
    disc.len() == 8 && be64_value(disc) < size
}

/// The data keys of the live list with record `m` are those of the positions
/// `0..m.size`, all of them and no others.
pub open spec fn list_shaped(s: Kv, key: Seq<u8>, m: Metadata) -> bool {
    &&& forall|i: u64| i < m.size ==> s.dom().contains(#[trigger] list_key(key, m.version, i))
    &&& forall|sk: Seq<u8>|
        s.dom().contains(sk) && #[trigger] belongs(sk, TypeTag::List, key, m.version)
            ==> is_position_below(data_key_parts(sk).disc, m.size)
}

/// What holds of the user key `key`: what its meta key stores is a record,
/// and a live record counts exactly the data keys of its version.
pub open spec fn collection_ok(s: Kv, key: Seq<u8>) -> bool {
    match lookup(s, meta_key(key)) {
        None => true,
        Some(raw) => {
            &&& is_meta_bytes(raw)
            &&& meta_of_bytes(raw).live() ==> {
                &&& version_keys(s, meta_of_bytes(raw).tag, key, meta_of_bytes(raw).version).len()
                    == meta_of_bytes(raw).size
                &&& meta_of_bytes(raw).tag == TypeTag::List ==> list_shaped(
                    s,
                    key,
                    meta_of_bytes(raw),
                )
            }
        },
    }
}

/// What holds of a stored data key: its user key has a record, the key's
/// version is not ahead of the record's, and at the record's version it has
/// the record's type.
pub open spec fn data_ok(s: Kv, sk: Seq<u8>) -> bool {
    is_data_key(sk) ==> {
        &&& stored_record(s, data_key_parts(sk).key) is Some
        &&& data_key_parts(sk).version <= stored_record(s, data_key_parts(sk).key)->0.version
        &&& data_key_parts(sk).version == stored_record(s, data_key_parts(sk).key)->0.version
            ==> data_key_parts(sk).tag == stored_record(s, data_key_parts(sk).key)->0.tag
    }
}

/// The invariant of a store that only this library writes to.
pub open spec fn store_wf(s: Kv) -> bool {
    &&& s.dom().finite()
    &&& forall|key: Seq<u8>| valid_user_key(key) ==> #[trigger] collection_ok(s, key)
    &&& forall|sk: Seq<u8>| s.dom().contains(sk) ==> #[trigger] data_ok(s, sk)
}

/// `s2` differs from `s` only in storage keys that belong to the user key
/// `key`: its meta key and its data keys.
pub open spec fn touches_only(s: Kv, s2: Kv, key: Seq<u8>) -> bool {
    forall|sk: Seq<u8>| #[trigger]
        lookup(s, sk) != lookup(s2, sk) ==> sk == meta_key(key) || (is_data_key(sk)
            && data_key_parts(sk).key == key)
}

/// The data keys of one version form a finite set.
pub proof fn lemma_version_keys_finite(s: Kv, tag: TypeTag, key: Seq<u8>, version: u64)
    requires
        s.dom().finite(),
    ensures
        version_keys(s, tag, key, version).finite(),
{
    lemma_len_subset(version_keys(s, tag, key, version), s.dom());
}

/// A change that touches only `key` leaves what is stored for any other
/// user key as it is: its record, its data keys and their values.
pub proof fn lemma_untouched(s: Kv, s2: Kv, key: Seq<u8>, other: Seq<u8>)
    requires
        touches_only(s, s2, key),
        valid_user_key(other),
        other != key,
    ensures
        lookup(s2, meta_key(other)) == lookup(s, meta_key(other)),
        stored_record(s2, other) == stored_record(s, other),
        live_record(s2, other) == live_record(s, other),
        forall|tag: TypeTag, version: u64, disc: Seq<u8>|
            lookup(s2, #[trigger] data_key(tag, other, version, disc)) == lookup(
                s,
                data_key(tag, other, version, disc),
            ),
        forall|tag: TypeTag, version: u64| #[trigger]
            version_keys(s2, tag, other, version) == version_keys(s, tag, other, version),
{
    lemma_meta_keys_distinct(key, other);
    lemma_meta_key_roundtrip(other);
    assert(lookup(s, meta_key(other)) == lookup(s2, meta_key(other)));
    assert forall|tag: TypeTag, version: u64, disc: Seq<u8>|
        lookup(s2, #[trigger] data_key(tag, other, version, disc)) == lookup(
            s,
            data_key(tag, other, version, disc),
        ) by {
        lemma_data_key_roundtrip(tag, other, version, disc);
    }
    assert forall|tag: TypeTag, version: u64| #[trigger]
        version_keys(s2, tag, other, version) == version_keys(s, tag, other, version) by {
        assert forall|sk: Seq<u8>|
            version_keys(s2, tag, other, version).contains(sk) == version_keys(
                s,
                tag,
                other,
                version,
            ).contains(sk) by {
            if belongs(sk, tag, other, version) {
                assert(lookup(s, sk) == lookup(s2, sk));
            }
        }
        assert(version_keys(s2, tag, other, version) =~= version_keys(s, tag, other, version));
    }
}

/// A change that touches only `key` keeps what holds of any other user key.
pub proof fn lemma_untouched_ok(s: Kv, s2: Kv, key: Seq<u8>, other: Seq<u8>)
    requires
        touches_only(s, s2, key),
        valid_user_key(other),
        other != key,
        collection_ok(s, other),
    ensures
        collection_ok(s2, other),
{
    lemma_untouched(s, s2, key, other);
    match lookup(s, meta_key(other)) {
        None => {},
        Some(raw) => {
            let m = meta_of_bytes(raw);
            if m.live() {
                assert(version_keys(s2, m.tag, other, m.version) == version_keys(
                    s,
                    m.tag,
                    other,
                    m.version,
                ));
                if m.tag == TypeTag::List {
                    assert forall|i: u64| i < m.size implies s2.dom().contains(
                        #[trigger] list_key(other, m.version, i),
                    ) by {
                        assert(s.dom().contains(list_key(other, m.version, i)));
                        assert(lookup(s2, data_key(TypeTag::List, other, m.version, be64(i)))
                            == lookup(s, data_key(TypeTag::List, other, m.version, be64(i))));
                    }
                    assert forall|sk: Seq<u8>|
                        s2.dom().contains(sk) && #[trigger] belongs(
                            sk,
                            TypeTag::List,
                            other,
                            m.version,
                        ) implies is_position_below(data_key_parts(sk).disc, m.size) by {
                        assert(lookup(s, sk) == lookup(s2, sk));
                    }
                }
            }
        },
    }
}

/// After a change that touches only `key` and leaves it with the record
/// `now`, every stored data key is still in order, provided that the record
/// did not go back and that every data key that is new has the record's
/// version and type.
pub proof fn lemma_data_ok_after(s: Kv, s2: Kv, key: Seq<u8>, now: Metadata)
    requires
        store_wf(s),
        valid_user_key(key),
        touches_only(s, s2, key),
        stored_record(s2, key) == Some(now),
        stored_record(s, key) is Some ==> {
            &&& stored_record(s, key)->0.version <= now.version
            &&& stored_record(s, key)->0.version == now.version ==> stored_record(s, key)->0.tag
                == now.tag
        },
        forall|sk: Seq<u8>|
            #![trigger s2.dom().contains(sk)]
            s2.dom().contains(sk) && !s.dom().contains(sk) && is_data_key(sk) ==> data_key_parts(
                sk,
            ).version == now.version && data_key_parts(sk).tag == now.tag,
    ensures
        forall|sk: Seq<u8>| s2.dom().contains(sk) ==> #[trigger] data_ok(s2, sk),
{
    assert forall|sk: Seq<u8>| s2.dom().contains(sk) implies #[trigger] data_ok(s2, sk) by {
        if is_data_key(sk) {
            let p = data_key_parts(sk);
            lemma_data_key_of_parts(sk);
            if s.dom().contains(sk) {
                assert(data_ok(s, sk));
                if p.key != key {
                    lemma_untouched(s, s2, key, p.key);
                }
            } else {
                assert(lookup(s, sk) != lookup(s2, sk));
            }
        }
    }
}

/// What is stored for a record reads back as that record.
pub proof fn lemma_record_after_put(s: Kv, key: Seq<u8>, m: Metadata)
    ensures
        stored_record(s.insert(meta_key(key), meta_bytes(m)), key) == Some(m),
        lookup(s.insert(meta_key(key), meta_bytes(m)), meta_key(key)) == Some(meta_bytes(m)),
        is_meta_bytes(meta_bytes(m)),
        meta_of_bytes(meta_bytes(m)) == m,
{
    lemma_meta_roundtrip(m);
}

/// Writing to a data key of `key`, or deleting one, and then storing a
/// record for `key` touches only `key`.
pub proof fn lemma_touches_only(
    s: Kv,
    s2: Kv,
    tag: TypeTag,
    key: Seq<u8>,
    version: u64,
    disc: Seq<u8>,
)
    requires
        valid_user_key(key),
        forall|sk: Seq<u8>|
            sk != meta_key(key) && sk != data_key(tag, key, version, disc) ==> #[trigger] lookup(
                s,
                sk,
            ) == lookup(s2, sk),
    ensures
        touches_only(s, s2, key),
{
    lemma_data_key_roundtrip(tag, key, version, disc);
}

/// Giving an existing data key another value keeps the invariant.
pub proof fn lemma_overwrite_keeps_wf(s: Kv, dk: Seq<u8>, value: Seq<u8>)
    requires
        store_wf(s),
        s.dom().contains(dk),
        is_data_key(dk),
    ensures
        store_wf(s.insert(dk, value)),
        forall|key: Seq<u8>| #[trigger]
            stored_record(s.insert(dk, value), key) == stored_record(s, key),
{
    let s2 = s.insert(dk, value);
    assert(s2.dom() =~= s.dom());
    assert forall|key: Seq<u8>|
        lookup(s2, #[trigger] meta_key(key)) == lookup(s, meta_key(key)) by {
        lemma_meta_key_roundtrip(key);
    }
    assert forall|key: Seq<u8>| #[trigger]
        stored_record(s2, key) == stored_record(s, key) by {
        assert(lookup(s2, meta_key(key)) == lookup(s, meta_key(key)));
    }
    assert forall|key: Seq<u8>| valid_user_key(key) implies #[trigger] collection_ok(s2, key) by {
        assert(collection_ok(s, key));
        assert(lookup(s2, meta_key(key)) == lookup(s, meta_key(key)));
        match lookup(s, meta_key(key)) {
            None => {},
            Some(raw) => {
                let m = meta_of_bytes(raw);
                assert(version_keys(s2, m.tag, key, m.version) =~= version_keys(
                    s,
                    m.tag,
                    key,
                    m.version,
                ));
            },
        }
    }
    assert forall|sk: Seq<u8>| s2.dom().contains(sk) implies #[trigger] data_ok(s2, sk) by {
        assert(data_ok(s, sk));
        assert(stored_record(s2, data_key_parts(sk).key) == stored_record(
            s,
            data_key_parts(sk).key,
        ));
    }
}

/// Adding one entry to a live collection and counting it keeps the
/// invariant. A list grows at its end only.
pub proof fn lemma_add_keeps_wf(
    s: Kv,
    tag: TypeTag,
    key: Seq<u8>,
    disc: Seq<u8>,
    value: Seq<u8>,
    m: Metadata,
)
    requires
        store_wf(s),
        valid_user_key(key),
        live_record(s, key) == Some(m),
        m.tag == tag,
        m.size < u64::MAX,
        tag != TypeTag::List ==> !s.dom().contains(data_key(tag, key, m.version, disc)),
        tag == TypeTag::List ==> disc == be64(m.size),
    ensures
        !s.dom().contains(data_key(tag, key, m.version, disc)),
        store_wf(
            s.insert(data_key(tag, key, m.version, disc), value).insert(
                meta_key(key),
                meta_bytes(resized(m, (m.size + 1) as u64)),
            ),
        ),
{
    let dk = data_key(tag, key, m.version, disc);
    let mk = meta_key(key);
    let now = resized(m, (m.size + 1) as u64);
    let s2 = s.insert(dk, value).insert(mk, meta_bytes(now));
    lemma_data_key_roundtrip(tag, key, m.version, disc);
    lemma_meta_key_roundtrip(key);
    lemma_record_after_put(s.insert(dk, value), key, now);
    assert(collection_ok(s, key));
    if tag == TypeTag::List {
        lemma_be64_value_of_be64(m.size);
        if s.dom().contains(dk) {
            assert(belongs(dk, TypeTag::List, key, m.version));
            assert(false);
        }
    }
    lemma_touches_only(s, s2, tag, key, m.version, disc);
    assert forall|other: Seq<u8>| valid_user_key(other) implies #[trigger] collection_ok(
        s2,
        other,
    ) by {
        assert(collection_ok(s, other));
        if other != key {
            lemma_untouched_ok(s, s2, key, other);
        } else {
            let before = version_keys(s, tag, key, m.version);
            let after = version_keys(s2, tag, key, m.version);
            lemma_version_keys_finite(s, tag, key, m.version);
            assert(after =~= before.insert(dk));
            if tag == TypeTag::List {
                assert forall|i: u64| i < now.size implies s2.dom().contains(
                    #[trigger] list_key(key, now.version, i),
                ) by {
                    if i < m.size {
                        assert(s.dom().contains(list_key(key, m.version, i)));
                    }
                }
                assert forall|sk: Seq<u8>|
                    s2.dom().contains(sk) && #[trigger] belongs(
                        sk,
                        TypeTag::List,
                        key,
                        now.version,
                    ) implies is_position_below(data_key_parts(sk).disc, now.size) by {
                    if sk != dk {
                        assert(s.dom().contains(sk));
                    }
                }
            }
        }
    }
    lemma_data_ok_after(s, s2, key, now);
}

/// Starting a new life of a user key with its first entry keeps the
/// invariant: the key has no record or a tombstone, and the new record `m`
/// is what follows from that.
pub proof fn lemma_create_keeps_wf(
    s: Kv,
    tag: TypeTag,
    key: Seq<u8>,
    disc: Seq<u8>,
    value: Seq<u8>,
    m: Metadata,
)
    requires
        store_wf(s),
        valid_user_key(key),
        live_record(s, key) is None,
        begins_life(stored_record(s, key), tag, m),
        tag == TypeTag::List ==> disc == be64(0),
    ensures
        store_wf(
            s.insert(data_key(tag, key, m.version, disc), value).insert(
                meta_key(key),
                meta_bytes(resized(m, 1)),
            ),
        ),
{
    let dk = data_key(tag, key, m.version, disc);
    let mk = meta_key(key);
    let now = resized(m, 1);
    let s2 = s.insert(dk, value).insert(mk, meta_bytes(now));
    lemma_data_key_roundtrip(tag, key, m.version, disc);
    lemma_meta_key_roundtrip(key);
    lemma_record_after_put(s.insert(dk, value), key, now);
    assert(collection_ok(s, key));
    lemma_touches_only(s, s2, tag, key, m.version, disc);
    assert forall|sk: Seq<u8>| s.dom().contains(sk) implies !belongs(
        sk,
        tag,
        key,
        m.version,
    ) by {
        assert(data_ok(s, sk));
    }
    assert forall|other: Seq<u8>| valid_user_key(other) implies #[trigger] collection_ok(
        s2,
        other,
    ) by {
        assert(collection_ok(s, other));
        if other != key {
            lemma_untouched_ok(s, s2, key, other);
        } else {
            let after = version_keys(s2, tag, key, m.version);
            assert(after =~= Set::<Seq<u8>>::empty().insert(dk));
            if tag == TypeTag::List {
                lemma_be64_value_of_be64(0);
                assert forall|i: u64| i < now.size implies s2.dom().contains(
                    #[trigger] list_key(key, now.version, i),
                ) by {
                    assert(i == 0);
                }
                assert forall|sk: Seq<u8>|
                    s2.dom().contains(sk) && #[trigger] belongs(
                        sk,
                        TypeTag::List,
                        key,
                        now.version,
                    ) implies is_position_below(data_key_parts(sk).disc, now.size) by {
                    if sk != dk {
                        assert(s.dom().contains(sk));
                    }
                }
            }
        }
    }
    lemma_data_ok_after(s, s2, key, now);
}

/// Deleting one entry of a live hash or set and counting it off keeps the
/// invariant.
pub proof fn lemma_delete_keeps_wf(s: Kv, tag: TypeTag, key: Seq<u8>, disc: Seq<u8>, m: Metadata)
    requires
        store_wf(s),
        valid_user_key(key),
        live_record(s, key) == Some(m),
        m.tag == tag,
        tag != TypeTag::List,
        s.dom().contains(data_key(tag, key, m.version, disc)),
    ensures
        store_wf(
            s.remove(data_key(tag, key, m.version, disc)).insert(
                meta_key(key),
                meta_bytes(resized(m, (m.size - 1) as u64)),
            ),
        ),
{
    let dk = data_key(tag, key, m.version, disc);
    let mk = meta_key(key);
    let now = resized(m, (m.size - 1) as u64);
    let s2 = s.remove(dk).insert(mk, meta_bytes(now));
    lemma_data_key_roundtrip(tag, key, m.version, disc);
    lemma_meta_key_roundtrip(key);
    lemma_record_after_put(s.remove(dk), key, now);
    assert(collection_ok(s, key));
    lemma_touches_only(s, s2, tag, key, m.version, disc);
    assert forall|other: Seq<u8>| valid_user_key(other) implies #[trigger] collection_ok(
        s2,
        other,
    ) by {
        assert(collection_ok(s, other));
        if other != key {
            lemma_untouched_ok(s, s2, key, other);
        } else {
            let before = version_keys(s, tag, key, m.version);
            let after = version_keys(s2, tag, key, m.version);
            lemma_version_keys_finite(s, tag, key, m.version);
            assert(before.contains(dk));
            assert(after =~= before.remove(dk));
        }
    }
    lemma_data_ok_after(s, s2, key, now);
}

/// Turning the record of a live collection into a tombstone keeps the
/// invariant, whatever data keys stay behind.
pub proof fn lemma_tombstone_keeps_wf(s: Kv, key: Seq<u8>, m: Metadata)
    requires
        store_wf(s),
        valid_user_key(key),
        live_record(s, key) == Some(m),
    ensures
        store_wf(s.insert(meta_key(key), meta_bytes(resized(m, 0)))),
{
    let mk = meta_key(key);
    let now = resized(m, 0);
    let s2 = s.insert(mk, meta_bytes(now));
    lemma_meta_key_roundtrip(key);
    lemma_record_after_put(s, key, now);
    assert(touches_only(s, s2, key));
    assert forall|other: Seq<u8>| valid_user_key(other) implies #[trigger] collection_ok(
        s2,
        other,
    ) by {
        assert(collection_ok(s, other));
        if other != key {
            lemma_untouched_ok(s, s2, key, other);
        }
    }
    lemma_data_ok_after(s, s2, key, now);
}

/// `m` is the record that a collection of type `tag` starts its life with
/// where `prior` is what was found: nothing, or a tombstone whose version
/// `m` moves on from.
pub open spec fn begins_life(prior: Option<Metadata>, tag: TypeTag, m: Metadata) -> bool {
    &&& m.tag == tag
    &&& m.size == 0
    &&& m.expire_at is None
    &&& match prior {
        None => m.version == 0,
        Some(old) => !old.live() && m.version == old.version + 1,
    }
}

} // verus!
