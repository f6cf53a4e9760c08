//! What holds of every command on every store: the laws that the mapping of
//! collections onto storage keys obeys.

use vstd::prelude::*;
use vstd::set_lib::lemma_set_empty_equivalency_len;
use crate::command::{CommandView, OutcomeView, StepView};
use crate::command::{normalize_index, belongs, listing, resized};
use crate::command::{after_scan, completes};
use crate::frame::{Fault, FrameView, ok_frame};
use crate::keys::{TypeTag, valid_user_key, meta_key, data_key, data_prefix, list_key, data_key_parts};
use crate::keys::{lemma_meta_key_roundtrip, lemma_data_key_roundtrip, lemma_prefixed_is_data_key, lemma_data_key_is_prefixed};
use crate::meta::{Metadata, meta_bytes, spec_load, spec_create_or_bump, spec_touch_size};
use crate::model::{stored_record, live_record, version_keys, entries, list_elements, collection_ok, data_ok, store_wf};
use crate::model::{touches_only, lemma_untouched, lemma_touches_only, lemma_record_after_put, lemma_version_keys_finite};
use crate::model::{lemma_overwrite_keeps_wf, lemma_add_keeps_wf, lemma_create_keeps_wf, lemma_delete_keeps_wf, lemma_tombstone_keeps_wf};
use crate::octets::{be64, lemma_be64_injective};
use crate::store::{Kv, WriteView, lookup, is_scan, apply_writes};
use crate::store::{lemma_apply_none, lemma_apply_one, lemma_apply_two, lemma_apply_concat};

verus! {

impl CommandView {
    /// The type of collection that the command works on; `None` for the
    /// removal of a collection, which takes any.
    pub open spec fn tag(self) -> Option<TypeTag> {
        match self {
            CommandView::ReadAll { tag, .. } => Some(tag),
            CommandView::PutEntry { tag, .. } => Some(tag),
            CommandView::DeleteEntry { tag, .. } => Some(tag),
            CommandView::ListSet { .. } => Some(TypeTag::List),
            CommandView::ListPush { .. } => Some(TypeTag::List),
            CommandView::Remove { .. } => None,
        }
    }

    /// The command names a user key that a data key can spell out, and a
    /// command on named entries is for a hash or a set.
    pub open spec fn well_formed(self) -> bool {
        &&& valid_user_key(self.key())
        &&& match self {
            CommandView::ReadAll { tag, .. } => tag.keyed(),
            CommandView::PutEntry { tag, .. } => tag.keyed(),
            CommandView::DeleteEntry { tag, .. } => tag.keyed(),
            _ => true,
        }
    }
}

/// The store with nothing in it satisfies the invariant.
pub proof fn law_empty_store_wf()
    ensures
        store_wf(Map::<Seq<u8>, Seq<u8>>::empty()),
{
    let s = Map::<Seq<u8>, Seq<u8>>::empty();
    assert forall|key: Seq<u8>| valid_user_key(key) implies #[trigger] collection_ok(s, key) by {}
}

/// A command that only reads leaves the store as it is, whatever it answers.
pub proof fn law_reads_write_nothing(cmd: CommandView, s: Kv, o: OutcomeView)
    requires
        cmd.read_only(),
        completes(cmd, s, o),
    ensures
        o.writes == Seq::<WriteView>::empty(),
        apply_writes(s, o.writes) == s,
{
}

/// A refused command leaves the store as it is.
pub proof fn law_refusals_write_nothing(cmd: CommandView, s: Kv, o: OutcomeView)
    requires
        completes(cmd, s, o),
        o.reply is Error,
    ensures
        o.writes == Seq::<WriteView>::empty(),
        apply_writes(s, o.writes) == s,
{
}

/// Every command keeps the invariant of the store: whatever a command
/// writes, each live record still counts exactly the data keys of its
/// version, and no data key runs ahead of its record.
pub proof fn law_invariant_kept(cmd: CommandView, s: Kv, o: OutcomeView)
    requires
        store_wf(s),
        valid_user_key(cmd.key()),
        completes(cmd, s, o),
    ensures
        store_wf(apply_writes(s, o.writes)),
{
    let key = cmd.key();
    let mk = meta_key(key);
    assert(collection_ok(s, key));
    if o.writes.len() == 0 {
        lemma_apply_none(s);
        assert(o.writes =~= Seq::<WriteView>::empty());
    } else {
        let found = stored_record(s, key);
        assert(spec_load(lookup(s, mk)) == Ok::<Option<Metadata>, Fault>(found));
        match cmd {
            CommandView::ReadAll { .. } => {},
            CommandView::PutEntry { tag, key, field, value } => {
                let m = spec_create_or_bump(found, tag)->Ok_0;
                let dk = data_key(tag, key, m.version, field);
                lemma_data_key_roundtrip(tag, key, m.version, field);
                if m.live() {
                    if lookup(s, dk) is Some {
                        lemma_apply_one(s, WriteView::Put(dk, value));
                        lemma_overwrite_keeps_wf(s, dk, value);
                    } else {
                        lemma_apply_two(
                            s,
                            WriteView::Put(dk, value),
                            WriteView::Put(mk, meta_bytes(spec_touch_size(m, 1)->Ok_0)),
                        );
                        lemma_add_keeps_wf(s, tag, key, field, value, m);
                    }
                } else {
                    lemma_apply_two(
                        s,
                        WriteView::Put(dk, value),
                        WriteView::Put(mk, meta_bytes(resized(m, 1))),
                    );
                    lemma_create_keeps_wf(s, tag, key, field, value, m);
                }
            },
            CommandView::DeleteEntry { tag, key, field } => {
                let m = found->0;
                let dk = data_key(tag, key, m.version, field);
                lemma_apply_two(
                    s,
                    WriteView::Delete(dk),
                    WriteView::Put(mk, meta_bytes(spec_touch_size(m, -1)->Ok_0)),
                );
                lemma_delete_keeps_wf(s, tag, key, field, m);
            },
            CommandView::ListSet { key, index, element } => {
                let m = found->0;
                let at = normalize_index(index, m.size)->0;
                let dk = list_key(key, m.version, at);
                lemma_data_key_roundtrip(TypeTag::List, key, m.version, be64(at));
                lemma_apply_one(s, WriteView::Put(dk, element));
                lemma_overwrite_keeps_wf(s, dk, element);
            },
            CommandView::ListPush { key, element } => {
                let m = spec_create_or_bump(found, TypeTag::List)->Ok_0;
                let dk = list_key(key, m.version, m.size);
                lemma_apply_two(
                    s,
                    WriteView::Put(dk, element),
                    WriteView::Put(mk, meta_bytes(resized(m, (m.size + 1) as u64))),
                );
                if m.live() {
                    lemma_add_keeps_wf(s, TypeTag::List, key, be64(m.size), element, m);
                } else {
                    lemma_create_keeps_wf(s, TypeTag::List, key, be64(0), element, m);
                }
            },
            CommandView::Remove { key } => {
                let m = found->0;
                lemma_apply_one(s, WriteView::Put(mk, meta_bytes(resized(m, 0))));
                lemma_tombstone_keeps_wf(s, key, m);
            },
        }
    }
}

/// Empty versus absent: listing a hash or a set under a key that holds no
/// record, or only a tombstone, answers with the empty listing. It is never
/// an error, and nothing is written.
pub proof fn law_absent_reads_empty(cmd: CommandView, s: Kv, o: OutcomeView)
    requires
        cmd is ReadAll,
        cmd.tag()->0.keyed(),
        lookup(s, meta_key(cmd.key())) is None || (stored_record(s, cmd.key()) is Some
            && live_record(s, cmd.key()) is None),
        completes(cmd, s, o),
    ensures
        o.reply == FrameView::Array(Seq::<Seq<u8>>::empty()),
        o.writes == Seq::<WriteView>::empty(),
{
}

/// Type exclusivity: a command for one type of collection on a key that
/// holds a live collection of another type is refused as a wrong-type
/// error, and writes nothing.
pub proof fn law_wrong_type_refused(cmd: CommandView, s: Kv, o: OutcomeView)
    requires
        cmd.well_formed(),
        cmd.tag() is Some,
        live_record(s, cmd.key()) is Some,
        live_record(s, cmd.key())->0.tag != cmd.tag()->0,
        completes(cmd, s, o),
    ensures
        o.reply == FrameView::Error(Fault::WrongType),
        o.writes == Seq::<WriteView>::empty(),
        apply_writes(s, o.writes) == s,
{
}

/// Index normalization: on a live list, a negative position and the
/// position it names from the end are the same command. With `-1` and
/// `size - 1` this is the last element.
pub proof fn law_index_from_end(
    key: Seq<u8>,
    index: i64,
    element: Seq<u8>,
    s: Kv,
    o1: OutcomeView,
    o2: OutcomeView,
)
    requires
        live_record(s, key) is Some,
        live_record(s, key)->0.tag == TypeTag::List,
        index < 0,
        0 <= live_record(s, key)->0.size + index <= i64::MAX,
        completes(CommandView::ListSet { key, index, element }, s, o1),
        completes(
            CommandView::ListSet {
                key,
                index: (live_record(s, key)->0.size + index) as i64,
                element,
            },
            s,
            o2,
        ),
    ensures
        o1 == o2,
{
}

/// A position that names no element of a live list, before or after
/// normalization, is refused as out of range, and nothing is written.
pub proof fn law_index_out_of_range(
    key: Seq<u8>,
    index: i64,
    element: Seq<u8>,
    s: Kv,
    o: OutcomeView,
)
    requires
        live_record(s, key) is Some,
        live_record(s, key)->0.tag == TypeTag::List,
        normalize_index(index, live_record(s, key)->0.size) is None,
        completes(CommandView::ListSet { key, index, element }, s, o),
    ensures
        o.reply == FrameView::Error(Fault::IndexOutOfRange),
        o.writes == Seq::<WriteView>::empty(),
        apply_writes(s, o.writes) == s,
{
}

/// `normalize_index` names a position exactly when the position, counted
/// from the end where the index is negative, lies in the list.
pub proof fn law_normalize_index(index: i64, size: u64)
    ensures
        normalize_index(index, size) is Some <==> (-(size as int) <= index < size),
        normalize_index(index, size) is Some && index >= 0 ==> normalize_index(index, size)->0
            == index,
        normalize_index(index, size) is Some && index < 0 ==> normalize_index(index, size)->0
            == size + index,
{
}

/// Running a command again on the same store gives the same writes, and,
/// unless it is a listing, the same reply: an execution takes nothing from
/// earlier attempts.
pub proof fn law_rerun_same_outcome(cmd: CommandView, s: Kv, o1: OutcomeView, o2: OutcomeView)
    requires
        completes(cmd, s, o1),
        completes(cmd, s, o2),
    ensures
        o1.writes == o2.writes,
        apply_writes(s, o1.writes) == apply_writes(s, o2.writes),
        !cmd.read_only() ==> o1 == o2,
        o1.reply is Error <==> o2.reply is Error,
{
}

/// The store after `cmd` has finished with `o`.
pub open spec fn after(s: Kv, o: OutcomeView) -> Kv {
    apply_writes(s, o.writes)
}

/// The name and the value of the entry that a stored pair holds.
pub open spec fn entry_of(pair: (Seq<u8>, Seq<u8>)) -> (Seq<u8>, Seq<u8>) {
    (data_key_parts(pair.0).disc, pair.1)
}

/// `found` holds the entries of `m`, each of them once and nothing else.
pub open spec fn enumerates(found: Seq<(Seq<u8>, Seq<u8>)>, m: Map<Seq<u8>, Seq<u8>>) -> bool {
    &&& forall|i: int|
        0 <= i < found.len() ==> m.contains_pair(
            (#[trigger] entry_of(found[i])).0,
            entry_of(found[i]).1,
        )
    &&& forall|i: int, j: int|
        0 <= i < j < found.len() ==> (#[trigger] entry_of(found[i])).0 != (#[trigger] entry_of(
            found[j],
        )).0
    &&& forall|name: Seq<u8>|
        m.dom().contains(name) ==> exists|i: int|
            0 <= i < found.len() && (#[trigger] entry_of(found[i])).0 == name
}

/// A command changes only storage keys of its own user key.
pub proof fn law_touches_own_key(cmd: CommandView, s: Kv, o: OutcomeView)
    requires
        valid_user_key(cmd.key()),
        completes(cmd, s, o),
    ensures
        touches_only(s, after(s, o), cmd.key()),
{
    let key = cmd.key();
    let mk = meta_key(key);
    if o.writes.len() == 0 {
        lemma_apply_none(s);
        assert(o.writes =~= Seq::<WriteView>::empty());
    } else {
        match spec_load(lookup(s, mk)) {
            Err(_) => {},
            Ok(found) => {
                match cmd {
                    CommandView::ReadAll { .. } => {},
                    CommandView::PutEntry { tag, key, field, value } => {
                        let m = spec_create_or_bump(found, tag)->Ok_0;
                        let dk = data_key(tag, key, m.version, field);
                        if o.writes.len() == 1 {
                            lemma_apply_one(s, WriteView::Put(dk, value));
                        } else {
                            lemma_apply_two(s, WriteView::Put(dk, value), o.writes[1]);
                        }
                        lemma_touches_only(s, after(s, o), tag, key, m.version, field);
                    },
                    CommandView::DeleteEntry { tag, key, field } => {
                        let m = found->0;
                        let dk = data_key(tag, key, m.version, field);
                        lemma_apply_two(s, WriteView::Delete(dk), o.writes[1]);
                        lemma_touches_only(s, after(s, o), tag, key, m.version, field);
                    },
                    CommandView::ListSet { key, index, element } => {
                        let m = found->0;
                        let at = normalize_index(index, m.size)->0;
                        lemma_apply_one(s, o.writes[0]);
                        lemma_touches_only(s, after(s, o), TypeTag::List, key, m.version, be64(at));
                    },
                    CommandView::ListPush { key, element } => {
                        let m = spec_create_or_bump(found, TypeTag::List)->Ok_0;
                        lemma_apply_two(s, o.writes[0], o.writes[1]);
                        lemma_touches_only(
                            s,
                            after(s, o),
                            TypeTag::List,
                            key,
                            m.version,
                            be64(m.size),
                        );
                    },
                    CommandView::Remove { key } => {
                        lemma_apply_one(s, o.writes[0]);
                    },
                }
            },
        }
    }
}

/// Whatever a command does, the collections under other user keys stay as
/// they are: their records, their entries and their elements.
pub proof fn law_other_keys_untouched(cmd: CommandView, s: Kv, o: OutcomeView, other: Seq<u8>)
    requires
        store_wf(s),
        valid_user_key(cmd.key()),
        valid_user_key(other),
        other != cmd.key(),
        completes(cmd, s, o),
    ensures
        stored_record(after(s, o), other) == stored_record(s, other),
        forall|tag: TypeTag| #[trigger] entries(after(s, o), tag, other) == entries(s, tag, other),
        list_elements(after(s, o), other) == list_elements(s, other),
{
    let s2 = after(s, o);
    law_touches_own_key(cmd, s, o);
    lemma_untouched(s, s2, cmd.key(), other);
    assert forall|tag: TypeTag| #[trigger] entries(s2, tag, other) == entries(s, tag, other) by {
        match live_record(s, other) {
            Some(m) => {
                if m.tag == tag {
                    assert forall|name: Seq<u8>|
                        lookup(s2, data_key(tag, other, m.version, name)) == lookup(
                            s,
                            data_key(tag, other, m.version, name),
                        ) by {}
                    assert(entries(s2, tag, other) =~= entries(s, tag, other));
                }
            },
            None => {},
        }
    }
    match live_record(s, other) {
        Some(m) => {
            if m.tag == TypeTag::List {
                assert forall|i: u64| i < m.size implies s2[#[trigger] list_key(
                    other,
                    m.version,
                    i,
                )] == s[list_key(other, m.version, i)] by {
                    assert(lookup(s2, data_key(TypeTag::List, other, m.version, be64(i)))
                        == lookup(s, data_key(TypeTag::List, other, m.version, be64(i))));
                    assert(collection_ok(s, other));
                }
                assert(list_elements(s2, other) =~= list_elements(s, other));
            }
        },
        None => {},
    }
}

/// On a store in order, listing a hash or a set under a key that holds
/// nothing, or a collection of that type, is never refused.
pub proof fn law_listing_succeeds(cmd: CommandView, s: Kv, o: OutcomeView)
    requires
        store_wf(s),
        cmd is ReadAll,
        cmd.well_formed(),
        live_record(s, cmd.key()) is Some ==> live_record(s, cmd.key())->0.tag == cmd.tag()->0,
        completes(cmd, s, o),
    ensures
        o.reply is Array,
{
    let key = cmd.key();
    let tag = cmd.tag()->0;
    assert(collection_ok(s, key));
    match live_record(s, key) {
        Some(m) => {
            let p = data_prefix(tag, key, m.version);
            let found = choose|found: Seq<(Seq<u8>, Seq<u8>)>|
                is_scan(s, p, found) && #[trigger] after_scan(cmd, m, found) == StepView::Finish(
                    o,
                );
            assert forall|i: int| 0 <= i < found.len() implies belongs(
                #[trigger] found[i].0,
                tag,
                key,
                m.version,
            ) by {
                lemma_prefixed_is_data_key(found[i].0, tag, key, m.version);
            }
        },
        None => {},
    }
}

/// Round trip of a listing: what a listing of a hash or a set answers is
/// made of exactly the entries of the collection, each of them once, in
/// some order; for each entry its name, its value or both, as asked for.
pub proof fn law_listing_enumerates(cmd: CommandView, s: Kv, o: OutcomeView)
    requires
        store_wf(s),
        cmd is ReadAll,
        cmd.well_formed(),
        completes(cmd, s, o),
        !(o.reply is Error),
    ensures
        exists|found: Seq<(Seq<u8>, Seq<u8>)>|
            #![trigger enumerates(found, entries(s, cmd.tag()->0, cmd.key()))]
            enumerates(found, entries(s, cmd.tag()->0, cmd.key())) && o.reply == FrameView::Array(
                listing(found, cmd->ReadAll_want_fields, cmd->ReadAll_want_values),
            ),
{
    let key = cmd.key();
    let tag = cmd.tag()->0;
    let m_all = entries(s, tag, key);
    assert(collection_ok(s, key));
    match live_record(s, key) {
        Some(m) => {
            let p = data_prefix(tag, key, m.version);
            let found = choose|found: Seq<(Seq<u8>, Seq<u8>)>|
                is_scan(s, p, found) && #[trigger] after_scan(cmd, m, found) == StepView::Finish(
                    o,
                );
            assert forall|i: int| 0 <= i < found.len() implies m_all.contains_pair(
                (#[trigger] entry_of(found[i])).0,
                entry_of(found[i]).1,
            ) by {
                lemma_prefixed_is_data_key(found[i].0, tag, key, m.version);
            }
            assert forall|i: int, j: int| 0 <= i < j < found.len() implies (#[trigger] entry_of(
                found[i],
            )).0 != (#[trigger] entry_of(found[j])).0 by {
                lemma_prefixed_is_data_key(found[i].0, tag, key, m.version);
                lemma_prefixed_is_data_key(found[j].0, tag, key, m.version);
            }
            assert forall|name: Seq<u8>| m_all.dom().contains(name) implies exists|i: int|
                0 <= i < found.len() && (#[trigger] entry_of(found[i])).0 == name by {
                let dk = data_key(tag, key, m.version, name);
                lemma_data_key_is_prefixed(tag, key, m.version, name);
                lemma_data_key_roundtrip(tag, key, m.version, name);
                let i = choose|i: int| 0 <= i < found.len() && #[trigger] found[i].0 == dk;
                assert(entry_of(found[i]).0 == name);
            }
            assert(enumerates(found, m_all));
        },
        None => {
            let found = Seq::<(Seq<u8>, Seq<u8>)>::empty();
            assert(enumerates(found, m_all));
            assert(listing(found, cmd->ReadAll_want_fields, cmd->ReadAll_want_values)
                =~= Seq::<Seq<u8>>::empty());
        },
    }
}

/// With names and values both asked for, a listing is the names and values
/// of the pairs in turn.
pub proof fn law_listing_of_pairs(found: Seq<(Seq<u8>, Seq<u8>)>)
    ensures
        listing(found, true, true).len() == 2 * found.len(),
        forall|i: int|
            0 <= i < found.len() ==> #[trigger] listing(found, true, true)[2 * i] == entry_of(
                found[i],
            ).0 && listing(found, true, true)[2 * i + 1] == entry_of(found[i]).1,
    decreases found.len(),
{
    if found.len() > 0 {
        law_listing_of_pairs(found.drop_last());
        let head = listing(found.drop_last(), true, true);
        assert forall|i: int| 0 <= i < found.len() implies #[trigger] listing(found, true, true)[2
            * i] == entry_of(found[i]).0 && listing(found, true, true)[2 * i + 1] == entry_of(
            found[i],
        ).1 by {
            if i < found.len() - 1 {
                assert(head[2 * i] == entry_of(found.drop_last()[i]).0);
            }
        }
    }
}

/// With only the names asked for, a listing is the names of the pairs in
/// turn; with only the values, their values.
pub proof fn law_listing_of_singles(found: Seq<(Seq<u8>, Seq<u8>)>)
    ensures
        listing(found, true, false).len() == found.len(),
        listing(found, false, true).len() == found.len(),
        forall|i: int|
            0 <= i < found.len() ==> #[trigger] listing(found, true, false)[i] == entry_of(
                found[i],
            ).0,
        forall|i: int|
            0 <= i < found.len() ==> #[trigger] listing(found, false, true)[i] == entry_of(
                found[i],
            ).1,
    decreases found.len(),
{
    if found.len() > 0 {
        law_listing_of_singles(found.drop_last());
        assert forall|i: int| 0 <= i < found.len() implies #[trigger] listing(found, true, false)[i]
            == entry_of(found[i]).0 by {
            if i < found.len() - 1 {
                assert(listing(found.drop_last(), true, false)[i] == entry_of(
                    found.drop_last()[i],
                ).0);
            }
        }
        assert forall|i: int| 0 <= i < found.len() implies #[trigger] listing(found, false, true)[i]
            == entry_of(found[i]).1 by {
            if i < found.len() - 1 {
                assert(listing(found.drop_last(), false, true)[i] == entry_of(
                    found.drop_last()[i],
                ).1);
            }
        }
    }
}

/// Round trip of a write: after a field of a hash is set, or a member added
/// to a set, the collection holds what it held before and that entry; the
/// reply counts the entries that are new.
pub proof fn law_put_shows(
    tag: TypeTag,
    key: Seq<u8>,
    field: Seq<u8>,
    value: Seq<u8>,
    s: Kv,
    o: OutcomeView,
)
    requires
        store_wf(s),
        valid_user_key(key),
        tag.keyed(),
        completes(CommandView::PutEntry { tag, key, field, value }, s, o),
        !(o.reply is Error),
    ensures
        entries(after(s, o), tag, key) == entries(s, tag, key).insert(field, value),
        o.reply == FrameView::Integer(
            if entries(s, tag, key).dom().contains(field) {
                0i64
            } else {
                1i64
            },
        ),
{
    let mk = meta_key(key);
    let s2 = after(s, o);
    let found = stored_record(s, key);
    assert(collection_ok(s, key));
    let m = spec_create_or_bump(found, tag)->Ok_0;
    let dk = data_key(tag, key, m.version, field);
    assert forall|name: Seq<u8>|
        (#[trigger] data_key(tag, key, m.version, name) == dk <==> name == field) && data_key(
            tag,
            key,
            m.version,
            name,
        ) != mk by {
        lemma_data_key_roundtrip(tag, key, m.version, name);
        lemma_data_key_roundtrip(tag, key, m.version, field);
        lemma_meta_key_roundtrip(key);
    }
    if m.live() {
        if lookup(s, dk) is Some {
            lemma_apply_one(s, WriteView::Put(dk, value));
            lemma_data_key_roundtrip(tag, key, m.version, field);
            lemma_overwrite_keeps_wf(s, dk, value);
            assert(stored_record(s2, key) == stored_record(s, key));
        } else {
            let grown = spec_touch_size(m, 1)->Ok_0;
            lemma_apply_two(s, WriteView::Put(dk, value), WriteView::Put(mk, meta_bytes(grown)));
            lemma_record_after_put(s.insert(dk, value), key, grown);
        }
        assert(entries(s2, tag, key) =~= entries(s, tag, key).insert(field, value));
    } else {
        lemma_apply_two(
            s,
            WriteView::Put(dk, value),
            WriteView::Put(mk, meta_bytes(resized(m, 1))),
        );
        lemma_record_after_put(s.insert(dk, value), key, resized(m, 1));
        assert forall|name: Seq<u8>| !s.dom().contains(
            #[trigger] data_key(tag, key, m.version, name),
        ) by {
            lemma_data_key_roundtrip(tag, key, m.version, name);
            if s.dom().contains(data_key(tag, key, m.version, name)) {
                assert(data_ok(s, data_key(tag, key, m.version, name)));
            }
        }
        assert(entries(s2, tag, key) =~= entries(s, tag, key).insert(field, value));
    }
}

/// Round trip of a deletion: after a field of a hash or a member of a set
/// is deleted, the collection holds what it held before without that entry;
/// the reply counts the entries that went.
pub proof fn law_delete_hides(tag: TypeTag, key: Seq<u8>, field: Seq<u8>, s: Kv, o: OutcomeView)
    requires
        store_wf(s),
        valid_user_key(key),
        tag.keyed(),
        completes(CommandView::DeleteEntry { tag, key, field }, s, o),
        !(o.reply is Error),
    ensures
        entries(after(s, o), tag, key) == entries(s, tag, key).remove(field),
        o.reply == FrameView::Integer(
            if entries(s, tag, key).dom().contains(field) {
                1i64
            } else {
                0i64
            },
        ),
{
    let mk = meta_key(key);
    let s2 = after(s, o);
    assert(collection_ok(s, key));
    match live_record(s, key) {
        None => {
            lemma_apply_none(s);
            assert(o.writes =~= Seq::<WriteView>::empty());
            assert(entries(s2, tag, key) =~= entries(s, tag, key).remove(field));
        },
        Some(m) => {
            let dk = data_key(tag, key, m.version, field);
            assert forall|name: Seq<u8>|
                (#[trigger] data_key(tag, key, m.version, name) == dk <==> name == field)
                    && data_key(tag, key, m.version, name) != mk && belongs(
                    data_key(tag, key, m.version, name),
                    tag,
                    key,
                    m.version,
                ) by {
                lemma_data_key_roundtrip(tag, key, m.version, name);
                lemma_data_key_roundtrip(tag, key, m.version, field);
                lemma_meta_key_roundtrip(key);
            }
            if lookup(s, dk) is None {
                lemma_apply_none(s);
                assert(o.writes =~= Seq::<WriteView>::empty());
                assert(entries(s2, tag, key) =~= entries(s, tag, key).remove(field));
            } else {
                let shrunk = spec_touch_size(m, -1)->Ok_0;
                lemma_apply_two(s, WriteView::Delete(dk), WriteView::Put(mk, meta_bytes(shrunk)));
                lemma_record_after_put(s.remove(dk), key, shrunk);
                if shrunk.size == 0 {
                    let vk = version_keys(s, tag, key, m.version);
                    lemma_version_keys_finite(s, tag, key, m.version);
                    assert(vk.contains(dk));
                    lemma_set_empty_equivalency_len(vk.remove(dk));
                    assert forall|name: Seq<u8>|
                        s.dom().contains(#[trigger] data_key(tag, key, m.version, name))
                        implies name == field by {
                        if name != field {
                            assert(vk.remove(dk).contains(data_key(tag, key, m.version, name)));
                        }
                    }
                }
                assert(entries(s2, tag, key) =~= entries(s, tag, key).remove(field));
            }
        },
    }
}

/// Replacing a list element in place changes that element and nothing
/// else: the other elements, the length and the record stay as they are.
pub proof fn law_list_set_replaces_one(
    key: Seq<u8>,
    index: i64,
    element: Seq<u8>,
    s: Kv,
    o: OutcomeView,
)
    requires
        store_wf(s),
        valid_user_key(key),
        completes(CommandView::ListSet { key, index, element }, s, o),
        !(o.reply is Error),
    ensures
        o.reply == ok_frame(),
        live_record(s, key) is Some,
        normalize_index(index, live_record(s, key)->0.size) is Some,
        list_elements(after(s, o), key) == list_elements(s, key).update(
            normalize_index(index, live_record(s, key)->0.size)->0 as int,
            element,
        ),
        stored_record(after(s, o), key) == stored_record(s, key),
{
    let s2 = after(s, o);
    assert(collection_ok(s, key));
    let m = live_record(s, key)->0;
    let at = normalize_index(index, m.size)->0;
    let dk = list_key(key, m.version, at);
    lemma_apply_one(s, WriteView::Put(dk, element));
    lemma_data_key_roundtrip(TypeTag::List, key, m.version, be64(at));
    lemma_overwrite_keeps_wf(s, dk, element);
    assert(stored_record(s2, key) == stored_record(s, key));
    assert forall|i: u64| (#[trigger] list_key(key, m.version, i) == dk) <==> i == at by {
        lemma_data_key_roundtrip(TypeTag::List, key, m.version, be64(i));
        lemma_be64_injective(i, at);
    }
    assert(list_elements(s2, key) =~= list_elements(s, key).update(at as int, element));
}

/// Appending to a list puts the element after all the others; the reply is
/// the new length.
pub proof fn law_push_appends(key: Seq<u8>, element: Seq<u8>, s: Kv, o: OutcomeView)
    requires
        store_wf(s),
        valid_user_key(key),
        completes(CommandView::ListPush { key, element }, s, o),
        !(o.reply is Error),
    ensures
        list_elements(after(s, o), key) == list_elements(s, key).push(element),
        o.reply == FrameView::Integer((list_elements(s, key).len() + 1) as i64),
{
    let mk = meta_key(key);
    let s2 = after(s, o);
    assert(collection_ok(s, key));
    let found = stored_record(s, key);
    let m = spec_create_or_bump(found, TypeTag::List)->Ok_0;
    let dk = list_key(key, m.version, m.size);
    let grown = resized(m, (m.size + 1) as u64);
    lemma_apply_two(s, WriteView::Put(dk, element), WriteView::Put(mk, meta_bytes(grown)));
    lemma_record_after_put(s.insert(dk, element), key, grown);
    assert forall|i: u64|
        ((#[trigger] list_key(key, m.version, i) == dk) <==> i == m.size) && list_key(
            key,
            m.version,
            i,
        ) != mk by {
        lemma_data_key_roundtrip(TypeTag::List, key, m.version, be64(i));
        lemma_data_key_roundtrip(TypeTag::List, key, m.version, be64(m.size));
        lemma_be64_injective(i, m.size);
        lemma_meta_key_roundtrip(key);
    }
    assert(list_elements(s2, key) =~= list_elements(s, key).push(element));
}

/// Removing a collection leaves nothing under its key; the reply says
/// whether there was one.
pub proof fn law_remove_empties(key: Seq<u8>, s: Kv, o: OutcomeView)
    requires
        store_wf(s),
        valid_user_key(key),
        completes(CommandView::Remove { key }, s, o),
    ensures
        live_record(after(s, o), key) is None,
        forall|tag: TypeTag| #[trigger] entries(after(s, o), tag, key) == Map::<
            Seq<u8>,
            Seq<u8>,
        >::empty(),
        list_elements(after(s, o), key) == Seq::<Seq<u8>>::empty(),
        o.reply == FrameView::Integer(
            if live_record(s, key) is Some {
                1i64
            } else {
                0i64
            },
        ),
{
    let mk = meta_key(key);
    assert(collection_ok(s, key));
    match live_record(s, key) {
        None => {
            lemma_apply_none(s);
            assert(o.writes =~= Seq::<WriteView>::empty());
        },
        Some(m) => {
            lemma_apply_one(s, WriteView::Put(mk, meta_bytes(resized(m, 0))));
            lemma_record_after_put(s, key, resized(m, 0));
        },
    }
}

/// Version isolation: a collection that is written under a key after the
/// key's earlier collection was removed holds what was written to it and
/// nothing of what was there before, even though the earlier data keys may
/// still be stored.
pub proof fn law_recreated_starts_empty(
    tag: TypeTag,
    key: Seq<u8>,
    field: Seq<u8>,
    value: Seq<u8>,
    s: Kv,
    removed: OutcomeView,
    written: OutcomeView,
)
    requires
        store_wf(s),
        valid_user_key(key),
        tag.keyed(),
        completes(CommandView::Remove { key }, s, removed),
        completes(CommandView::PutEntry { tag, key, field, value }, after(s, removed), written),
        !(written.reply is Error),
    ensures
        entries(after(after(s, removed), written), tag, key) == Map::<
            Seq<u8>,
            Seq<u8>,
        >::empty().insert(field, value),
{
    law_remove_empties(key, s, removed);
    law_invariant_kept(CommandView::Remove { key }, s, removed);
    law_put_shows(tag, key, field, value, after(s, removed), written);
    assert(entries(after(s, removed), tag, key) == Map::<Seq<u8>, Seq<u8>>::empty());
}

/// A command that writes leaves under its key a record of the type it works
/// on; a command that was accepted and writes found the key free or holding
/// that type.
pub proof fn law_written_record_has_tag(cmd: CommandView, s: Kv, o: OutcomeView)
    requires
        store_wf(s),
        valid_user_key(cmd.key()),
        completes(cmd, s, o),
        cmd.tag() is Some,
        o.writes.len() > 0,
    ensures
        stored_record(after(s, o), cmd.key()) is Some,
        stored_record(after(s, o), cmd.key())->0.tag == cmd.tag()->0,
        live_record(s, cmd.key()) is Some ==> live_record(s, cmd.key())->0.tag == cmd.tag()->0,
{
    let key = cmd.key();
    let mk = meta_key(key);
    let found = stored_record(s, key);
    assert(collection_ok(s, key));
    match cmd {
        CommandView::ReadAll { .. } => {},
        CommandView::PutEntry { tag, key, field, value } => {
            let m = spec_create_or_bump(found, tag)->Ok_0;
            let dk = data_key(tag, key, m.version, field);
            lemma_data_key_roundtrip(tag, key, m.version, field);
            if m.live() {
                if lookup(s, dk) is Some {
                    lemma_apply_one(s, WriteView::Put(dk, value));
                    lemma_overwrite_keeps_wf(s, dk, value);
                    assert(stored_record(after(s, o), key) == stored_record(s, key));
                } else {
                    let grown = spec_touch_size(m, 1)->Ok_0;
                    lemma_apply_two(
                        s,
                        WriteView::Put(dk, value),
                        WriteView::Put(mk, meta_bytes(grown)),
                    );
                    lemma_record_after_put(s.insert(dk, value), key, grown);
                }
            } else {
                lemma_apply_two(
                    s,
                    WriteView::Put(dk, value),
                    WriteView::Put(mk, meta_bytes(resized(m, 1))),
                );
                lemma_record_after_put(s.insert(dk, value), key, resized(m, 1));
            }
        },
        CommandView::DeleteEntry { tag, key, field } => {
            let m = found->0;
            let dk = data_key(tag, key, m.version, field);
            let shrunk = spec_touch_size(m, -1)->Ok_0;
            lemma_apply_two(s, WriteView::Delete(dk), WriteView::Put(mk, meta_bytes(shrunk)));
            lemma_record_after_put(s.remove(dk), key, shrunk);
        },
        CommandView::ListSet { key, index, element } => {
            let m = found->0;
            let at = normalize_index(index, m.size)->0;
            let dk = list_key(key, m.version, at);
            lemma_data_key_roundtrip(TypeTag::List, key, m.version, be64(at));
            lemma_apply_one(s, WriteView::Put(dk, element));
            lemma_overwrite_keeps_wf(s, dk, element);
            assert(stored_record(after(s, o), key) == stored_record(s, key));
        },
        CommandView::ListPush { key, element } => {
            let m = spec_create_or_bump(found, TypeTag::List)->Ok_0;
            let dk = list_key(key, m.version, m.size);
            let grown = resized(m, (m.size + 1) as u64);
            lemma_apply_two(s, WriteView::Put(dk, element), WriteView::Put(mk, meta_bytes(grown)));
            lemma_record_after_put(s.insert(dk, element), key, grown);
        },
        CommandView::Remove { .. } => {},
    }
}

/// What one accepted command makes of the entries `m` of the hash or set of
/// type `tag` under `key`.
pub open spec fn step_entries(
    m: Map<Seq<u8>, Seq<u8>>,
    cmd: CommandView,
    tag: TypeTag,
    key: Seq<u8>,
) -> Map<Seq<u8>, Seq<u8>> {
    if cmd.key() != key {
        m
    } else {
        match cmd {
            CommandView::PutEntry { tag: t, field, value, .. } => if t == tag {
                m.insert(field, value)
            } else {
                m
            },
            CommandView::DeleteEntry { tag: t, field, .. } => if t == tag {
                m.remove(field)
            } else {
                m
            },
            CommandView::Remove { .. } => Map::empty(),
            _ => m,
        }
    }
}

/// What one accepted command makes of the elements `l` of the list under
/// `key`.
pub open spec fn step_elements(l: Seq<Seq<u8>>, cmd: CommandView, key: Seq<u8>) -> Seq<Seq<u8>> {
    if cmd.key() != key {
        l
    } else {
        match cmd {
            CommandView::ListPush { element, .. } => l.push(element),
            CommandView::ListSet { index, element, .. } => match normalize_index(
                index,
                l.len() as u64,
            ) {
                Some(at) => l.update(at as int, element),
                None => l,
            },
            CommandView::Remove { .. } => Seq::empty(),
            _ => l,
        }
    }
}

/// One accepted command changes the entries of a hash or set exactly as
/// `step_entries` says, whatever the command and whatever its key.
pub proof fn law_step_entries(cmd: CommandView, s: Kv, o: OutcomeView, tag: TypeTag, key: Seq<u8>)
    requires
        store_wf(s),
        cmd.well_formed(),
        valid_user_key(key),
        tag.keyed(),
        completes(cmd, s, o),
        !(o.reply is Error),
    ensures
        entries(after(s, o), tag, key) == step_entries(entries(s, tag, key), cmd, tag, key),
{
    if cmd.key() != key {
        law_other_keys_untouched(cmd, s, o, key);
    } else if o.writes.len() == 0 {
        lemma_apply_none(s);
        assert(o.writes =~= Seq::<WriteView>::empty());
        assert(collection_ok(s, key));
        match cmd {
            CommandView::PutEntry { .. } => {},
            CommandView::DeleteEntry { tag: t, field, .. } => {
                if t == tag {
                    law_delete_hides(tag, key, field, s, o);
                }
            },
            CommandView::Remove { .. } => {
                law_remove_empties(key, s, o);
            },
            _ => {},
        }
    } else {
        match cmd {
            CommandView::PutEntry { tag: t, field, value, .. } => {
                if t == tag {
                    law_put_shows(tag, key, field, value, s, o);
                } else {
                    law_written_record_has_tag(cmd, s, o);
                }
            },
            CommandView::DeleteEntry { tag: t, field, .. } => {
                if t == tag {
                    law_delete_hides(tag, key, field, s, o);
                } else {
                    law_written_record_has_tag(cmd, s, o);
                }
            },
            CommandView::Remove { .. } => {
                law_remove_empties(key, s, o);
            },
            _ => {
                law_written_record_has_tag(cmd, s, o);
            },
        }
    }
}

/// One accepted command changes the elements of a list exactly as
/// `step_elements` says, whatever the command and whatever its key.
pub proof fn law_step_elements(cmd: CommandView, s: Kv, o: OutcomeView, key: Seq<u8>)
    requires
        store_wf(s),
        cmd.well_formed(),
        valid_user_key(key),
        completes(cmd, s, o),
        !(o.reply is Error),
    ensures
        list_elements(after(s, o), key) == step_elements(list_elements(s, key), cmd, key),
{
    if cmd.key() != key {
        law_other_keys_untouched(cmd, s, o, key);
    } else if o.writes.len() == 0 {
        lemma_apply_none(s);
        assert(o.writes =~= Seq::<WriteView>::empty());
        assert(collection_ok(s, key));
        match cmd {
            CommandView::Remove { .. } => {
                law_remove_empties(key, s, o);
            },
            _ => {},
        }
    } else {
        match cmd {
            CommandView::ListPush { element, .. } => {
                law_push_appends(key, element, s, o);
            },
            CommandView::ListSet { index, element, .. } => {
                law_list_set_replaces_one(key, index, element, s, o);
            },
            CommandView::Remove { .. } => {
                law_remove_empties(key, s, o);
            },
            _ => {
                law_written_record_has_tag(cmd, s, o);
            },
        }
    }
}

/// The store after the outcomes `outs` took effect one after the other.
pub open spec fn state_after(s: Kv, outs: Seq<OutcomeView>) -> Kv
    decreases outs.len(),
{
    if outs.len() == 0 {
        s
    } else {
        after(state_after(s, outs.drop_last()), outs.last())
    }
}

/// `outs` are outcomes of running `cmds` one after the other from the store
/// `s`, each command on the store that the ones before it left, and none of
/// them was refused.
pub open spec fn is_accepted_run(s: Kv, cmds: Seq<CommandView>, outs: Seq<OutcomeView>) -> bool
    decreases cmds.len(),
{
    &&& cmds.len() == outs.len()
    &&& cmds.len() > 0 ==> {
        &&& is_accepted_run(s, cmds.drop_last(), outs.drop_last())
        &&& cmds.last().well_formed()
        &&& completes(cmds.last(), state_after(s, outs.drop_last()), outs.last())
        &&& !(outs.last().reply is Error)
    }
}

/// The entries that `cmds` make of `m`, command by command.
pub open spec fn replayed_entries(
    m: Map<Seq<u8>, Seq<u8>>,
    cmds: Seq<CommandView>,
    tag: TypeTag,
    key: Seq<u8>,
) -> Map<Seq<u8>, Seq<u8>>
    decreases cmds.len(),
{
    if cmds.len() == 0 {
        m
    } else {
        step_entries(replayed_entries(m, cmds.drop_last(), tag, key), cmds.last(), tag, key)
    }
}

/// The elements that `cmds` make of `l`, command by command.
pub open spec fn replayed_elements(l: Seq<Seq<u8>>, cmds: Seq<CommandView>, key: Seq<u8>) -> Seq<
    Seq<u8>,
>
    decreases cmds.len(),
{
    if cmds.len() == 0 {
        l
    } else {
        step_elements(replayed_elements(l, cmds.drop_last(), key), cmds.last(), key)
    }
}

/// Round trip: after any run of accepted commands, on this key and on
/// others, the hash or set under a key holds exactly the entries that were
/// written to it and not deleted since, and the list under a key exactly
/// the elements that were appended and replaced; and the store is in order.
pub proof fn law_round_trip(
    s: Kv,
    cmds: Seq<CommandView>,
    outs: Seq<OutcomeView>,
    tag: TypeTag,
    key: Seq<u8>,
)
    requires
        store_wf(s),
        valid_user_key(key),
        tag.keyed(),
        is_accepted_run(s, cmds, outs),
    ensures
        store_wf(state_after(s, outs)),
        entries(state_after(s, outs), tag, key) == replayed_entries(
            entries(s, tag, key),
            cmds,
            tag,
            key,
        ),
        list_elements(state_after(s, outs), key) == replayed_elements(
            list_elements(s, key),
            cmds,
            key,
        ),
    decreases cmds.len(),
{
    if cmds.len() > 0 {
        let before = state_after(s, outs.drop_last());
        law_round_trip(s, cmds.drop_last(), outs.drop_last(), tag, key);
        law_invariant_kept(cmds.last(), before, outs.last());
        law_step_entries(cmds.last(), before, outs.last(), tag, key);
        law_step_elements(cmds.last(), before, outs.last(), key);
    }
}

/// The writes of the outcomes `outs`, one after the other.
pub open spec fn all_writes(outs: Seq<OutcomeView>) -> Seq<WriteView>
    decreases outs.len(),
{
    if outs.len() == 0 {
        Seq::empty()
    } else {
        all_writes(outs.drop_last()) + outs.last().writes
    }
}

/// Atomicity under sharing: what several commands do one after the other in
/// one transaction is one batch of writes. The store after all of them is
/// the store after that batch, so the one commit of the transaction's owner
/// makes all of the commands visible, and without it none of them is.
pub proof fn law_shared_run_is_one_batch(s: Kv, outs: Seq<OutcomeView>)
    ensures
        state_after(s, outs) == apply_writes(s, all_writes(outs)),
    decreases outs.len(),
{
    if outs.len() > 0 {
        law_shared_run_is_one_batch(s, outs.drop_last());
        lemma_apply_concat(s, all_writes(outs.drop_last()), outs.last().writes);
    }
}

/// Round trip, read back: after any run of accepted commands, a listing of
/// the hash or set under a key is made of exactly the entries that the run
/// wrote to it and did not delete, each of them once.
pub proof fn law_round_trip_read(
    s: Kv,
    cmds: Seq<CommandView>,
    outs: Seq<OutcomeView>,
    read: CommandView,
    o: OutcomeView,
)
    requires
        store_wf(s),
        is_accepted_run(s, cmds, outs),
        read is ReadAll,
        read.well_formed(),
        completes(read, state_after(s, outs), o),
        !(o.reply is Error),
    ensures
        exists|found: Seq<(Seq<u8>, Seq<u8>)>|
            #![trigger enumerates(found, replayed_entries(entries(s, read.tag()->0, read.key()), cmds, read.tag()->0, read.key()))]
            enumerates(
                found,
                replayed_entries(
                    entries(s, read.tag()->0, read.key()),
                    cmds,
                    read.tag()->0,
                    read.key(),
                ),
            ) && o.reply == FrameView::Array(
                listing(found, read->ReadAll_want_fields, read->ReadAll_want_values),
            ),
{
    law_round_trip(s, cmds, outs, read.tag()->0, read.key());
    law_listing_enumerates(read, state_after(s, outs), o);
}

} // verus!
