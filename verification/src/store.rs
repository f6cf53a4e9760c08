//! The store as this library sees it: a finite map from storage keys to
//! values, read by point lookups and prefix scans and changed by puts and
//! deletes.
//!
//! `Kv` is the mathematical model that every contract is stated over.
//! `MemStore` is a small store in memory with exactly that behaviour, for
//! running commands where no remote store is at hand.

use vstd::prelude::*;
use crate::octets::{has_prefix, bytes_eq, starts_with, to_vec};

verus! {

/// The content of a store: which storage keys exist, and their values.
pub type Kv = Map<Seq<u8>, Seq<u8>>;

/// What a point read of `k` returns.
pub open spec fn lookup(s: Kv, k: Seq<u8>) -> Option<Seq<u8>> {
    if s.dom().contains(k) {
        Some(s[k])
    } else {
        None
    }
}

/// One stored pair, as a scan returns it.
#[derive(Clone, Debug, PartialEq, Eq)]
pub struct Entry {
    pub key: Vec<u8>,
    pub value: Vec<u8>,
}

impl View for Entry {
    type V = (Seq<u8>, Seq<u8>);

    open spec fn view(&self) -> (Seq<u8>, Seq<u8>) {
        (self.key@, self.value@)
    }
}

/// The pairs that a vector of entries holds.
pub open spec fn pairs(v: Seq<Entry>) -> Seq<(Seq<u8>, Seq<u8>)> {
    Seq::new(v.len(), |i: int| v[i]@)
}

/// `found` is what a scan of `prefix` may return from `s`: every stored pair
/// whose key starts with `prefix`, each once, and nothing else. The order is
/// left open.
pub open spec fn is_scan(s: Kv, prefix: Seq<u8>, found: Seq<(Seq<u8>, Seq<u8>)>) -> bool {
    &&& forall|i: int|
        0 <= i < found.len() ==> has_prefix(#[trigger] found[i].0, prefix) && s.dom().contains(
            found[i].0,
        ) && s[found[i].0] == found[i].1
    &&& forall|i: int, j: int|
        0 <= i < j < found.len() ==> #[trigger] found[i].0 != #[trigger] found[j].0
    &&& forall|k: Seq<u8>|
        s.dom().contains(k) && has_prefix(k, prefix) ==> exists|i: int|
            0 <= i < found.len() && #[trigger] found[i].0 == k
}

/// One change to the store.
#[derive(Clone, Debug, PartialEq, Eq)]
pub enum Write {
    Put(Vec<u8>, Vec<u8>),
    Delete(Vec<u8>),
}

/// A change as a mathematical value.
pub enum WriteView {
    Put(Seq<u8>, Seq<u8>),
    Delete(Seq<u8>),
}

impl View for Write {
    type V = WriteView;

    open spec fn view(&self) -> WriteView {
        match self {
            Write::Put(k, v) => WriteView::Put(k@, v@),
            Write::Delete(k) => WriteView::Delete(k@),
        }
    }
}

/// The changes that a vector of writes holds.
pub open spec fn changes(v: Seq<Write>) -> Seq<WriteView> {
    Seq::new(v.len(), |i: int| v[i]@)
}

/// The store after one change.
pub open spec fn apply_write(s: Kv, w: WriteView) -> Kv {
    match w {
        WriteView::Put(k, v) => s.insert(k, v),
        WriteView::Delete(k) => s.remove(k),
    }
}

/// The store after a sequence of changes, applied first to last.
pub open spec fn apply_writes(s: Kv, ws: Seq<WriteView>) -> Kv
    decreases ws.len(),
{
    if ws.len() == 0 {
        s
    } else {
        apply_write(apply_writes(s, ws.drop_last()), ws.last())
    }
}

/// No change leaves the store as it is.
pub proof fn lemma_apply_none(s: Kv)
    ensures
        apply_writes(s, Seq::empty()) == s,
{
}

/// A single change.
pub proof fn lemma_apply_one(s: Kv, w: WriteView)
    ensures
        apply_writes(s, seq![w]) == apply_write(s, w),
{
    reveal_with_fuel(apply_writes, 2);
    assert(seq![w].drop_last() =~= Seq::<WriteView>::empty());
}

/// Two changes in a row.
pub proof fn lemma_apply_two(s: Kv, w1: WriteView, w2: WriteView)
    ensures
        apply_writes(s, seq![w1, w2]) == apply_write(apply_write(s, w1), w2),
{
    assert(seq![w1, w2].drop_last() =~= seq![w1]);
    lemma_apply_one(s, w1);
}

/// Changes made one batch after another are the changes of the two batches
/// put together.
pub proof fn lemma_apply_concat(s: Kv, first: Seq<WriteView>, second: Seq<WriteView>)
    ensures
        apply_writes(s, first + second) == apply_writes(apply_writes(s, first), second),
    decreases second.len(),
{
    if second.len() == 0 {
        assert(first + second =~= first);
    } else {
        assert((first + second).drop_last() =~= first + second.drop_last());
        lemma_apply_concat(s, first, second.drop_last());
    }
}

/// A store in memory.
pub struct MemStore {
    entries: Vec<Entry>,
}

/// Entry `i` of `es` is stored under `k`.
spec fn holds(es: Seq<Entry>, k: Seq<u8>, i: int) -> bool {
    0 <= i < es.len() && es[i].key@ == k
}

/// No key occurs twice.
spec fn unique(es: Seq<Entry>) -> bool {
    forall|i: int, j: int| 0 <= i < j < es.len() ==> #[trigger] es[i].key@ != #[trigger] es[j].key@
}

/// The map that a list of entries with distinct keys stands for.
spec fn kv_of(es: Seq<Entry>) -> Kv {
    Map::new(
        |k: Seq<u8>| exists|i: int| holds(es, k, i),
        |k: Seq<u8>| es[choose|i: int| holds(es, k, i)].value@,
    )
}

proof fn lemma_kv_at(es: Seq<Entry>, i: int)
    requires
        unique(es),
        0 <= i < es.len(),
    ensures
        kv_of(es).dom().contains(es[i].key@),
        kv_of(es)[es[i].key@] == es[i].value@,
{
    assert(holds(es, es[i].key@, i));
    let j = choose|j: int| holds(es, es[i].key@, j);
    assert(j == i);
}

proof fn lemma_kv_missing(es: Seq<Entry>, k: Seq<u8>)
    requires
        forall|i: int| 0 <= i < es.len() ==> (#[trigger] es[i]).key@ != k,
    ensures
        !kv_of(es).dom().contains(k),
{
    assert forall|i: int| !holds(es, k, i) by {
        if 0 <= i < es.len() {
            assert(es[i].key@ != k);
        }
    }
}

proof fn lemma_kv_push(es: Seq<Entry>, e: Entry)
    requires
        unique(es),
        !kv_of(es).dom().contains(e.key@),
    ensures
        unique(es.push(e)),
        kv_of(es.push(e)) == kv_of(es).insert(e.key@, e.value@),
{
    let es2 = es.push(e);
    assert forall|i: int, j: int| 0 <= i < j < es2.len() implies #[trigger] es2[i].key@
        != #[trigger] es2[j].key@ by {
        if j == es.len() {
            assert(holds(es, es[i].key@, i));
        }
    }
    assert forall|k: Seq<u8>| #[trigger]
        kv_of(es2).dom().contains(k) <==> kv_of(es).insert(e.key@, e.value@).dom().contains(
            k,
        ) by {
        if kv_of(es2).dom().contains(k) {
            let i = choose|i: int| holds(es2, k, i);
            if i < es.len() {
                assert(holds(es, k, i));
            }
        }
        if kv_of(es).dom().contains(k) {
            let i = choose|i: int| holds(es, k, i);
            assert(holds(es2, k, i));
        }
        if k == e.key@ {
            assert(holds(es2, k, es.len() as int));
        }
    }
    assert forall|k: Seq<u8>| #[trigger] kv_of(es2).dom().contains(k) implies kv_of(es2)[k]
        == kv_of(es).insert(e.key@, e.value@)[k] by {
        let i = choose|i: int| holds(es2, k, i);
        lemma_kv_at(es2, i);
        if i < es.len() {
            lemma_kv_at(es, i);
        }
    }
    assert(kv_of(es2) =~= kv_of(es).insert(e.key@, e.value@));
}

proof fn lemma_kv_remove(es: Seq<Entry>, at: int)
    requires
        unique(es),
        0 <= at < es.len(),
    ensures
        unique(es.remove(at)),
        kv_of(es.remove(at)) == kv_of(es).remove(es[at].key@),
{
    let es2 = es.remove(at);
    let gone = es[at].key@;
    assert forall|i: int, j: int| 0 <= i < j < es2.len() implies #[trigger] es2[i].key@
        != #[trigger] es2[j].key@ by {
        let i0 = if i < at { i } else { i + 1 };
        let j0 = if j < at { j } else { j + 1 };
        assert(es2[i] == es[i0] && es2[j] == es[j0]);
    }
    assert forall|k: Seq<u8>| #[trigger]
        kv_of(es2).dom().contains(k) <==> kv_of(es).remove(gone).dom().contains(k) by {
        if kv_of(es2).dom().contains(k) {
            let i = choose|i: int| holds(es2, k, i);
            let i0 = if i < at { i } else { i + 1 };
            assert(es2[i] == es[i0]);
            assert(holds(es, k, i0));
            if k == gone {
                assert(es[i0].key@ == es[at].key@);
            }
        }
        if kv_of(es).dom().contains(k) && k != gone {
            let i0 = choose|i: int| holds(es, k, i);
            let i = if i0 < at { i0 } else { i0 - 1 };
            assert(es2[i] == es[i0]);
            assert(holds(es2, k, i));
        }
    }
    assert forall|k: Seq<u8>| #[trigger] kv_of(es2).dom().contains(k) implies kv_of(es2)[k]
        == kv_of(es).remove(gone)[k] by {
        let i = choose|i: int| holds(es2, k, i);
        let i0 = if i < at { i } else { i + 1 };
        assert(es2[i] == es[i0]);
        lemma_kv_at(es2, i);
        lemma_kv_at(es, i0);
    }
    assert(kv_of(es2) =~= kv_of(es).remove(gone));
}

impl View for MemStore {
    type V = Kv;

    closed spec fn view(&self) -> Kv {
        kv_of(self.entries@)
    }
}

impl MemStore {
    /// The representation is sound: no key is stored twice.
    pub closed spec fn wf(&self) -> bool {
        unique(self.entries@)
    }

    /// An empty store.
    pub fn new() -> (store: MemStore)
        ensures
            store.wf(),
            store@ == Map::<Seq<u8>, Seq<u8>>::empty(),
    {
        let store = MemStore { entries: Vec::new() };
        assert(store@ =~= Map::<Seq<u8>, Seq<u8>>::empty()) by {
            lemma_kv_missing_all(store.entries@);
        }
        store
    }

    /// The number of stored pairs.
    pub fn len(&self) -> (n: usize)
        requires
            self.wf(),
        ensures
            n == self@.dom().len(),
            self@.dom().finite(),
    {
        proof {
            lemma_kv_len(self.entries@);
        }
        self.entries.len()
    }

    /// Where `key` is stored, if it is.
    fn position(&self, key: &[u8]) -> (at: Option<usize>)
        requires
            self.wf(),
        ensures
            match at {
                Some(i) => i < self.entries@.len() && self.entries@[i as int].key@ == key@,
                None => !self@.dom().contains(key@),
            },
    {
        let mut i: usize = 0;
        while i < self.entries.len()
            invariant
                i <= self.entries@.len(),
                forall|j: int| 0 <= j < i ==> (#[trigger] self.entries@[j]).key@ != key@,
            decreases self.entries@.len() - i,
        {
            if bytes_eq(self.entries[i].key.as_slice(), key) {
                return Some(i);
            }
            i += 1;
        }
        proof {
            lemma_kv_missing(self.entries@, key@);
        }
        None
    }

    /// Point read.
    pub fn get(&self, key: &[u8]) -> (value: Option<Vec<u8>>)
        requires
            self.wf(),
        ensures
            match value {
                Some(v) => lookup(self@, key@) == Some(v@),
                None => lookup(self@, key@) is None,
            },
    {
        match self.position(key) {
            Some(i) => {
                proof {
                    lemma_kv_at(self.entries@, i as int);
                }
                Some(to_vec(self.entries[i].value.as_slice()))
            },
            None => None,
        }
    }

    /// Prefix scan: every stored pair whose key starts with `prefix`.
    pub fn scan(&self, prefix: &[u8]) -> (found: Vec<Entry>)
        requires
            self.wf(),
        ensures
            is_scan(self@, prefix@, pairs(found@)),
    {
        let mut found: Vec<Entry> = Vec::new();
        let ghost mut from: Seq<int> = Seq::empty();
        let mut i: usize = 0;
        while i < self.entries.len()
            invariant
                self.wf(),
                i <= self.entries@.len(),
                from.len() == found@.len(),
                forall|n: int|
                    0 <= n < found@.len() ==> 0 <= #[trigger] from[n] < i && found@[n]@
                        == self.entries@[from[n]]@ && has_prefix(found@[n].key@, prefix@),
                forall|n: int, m: int| 0 <= n < m < from.len() ==> from[n] < from[m],
                forall|j: int|
                    0 <= j < i && has_prefix((#[trigger] self.entries@[j]).key@, prefix@)
                        ==> exists|n: int| 0 <= n < from.len() && #[trigger] from[n] == j,
            decreases self.entries@.len() - i,
        {
            if starts_with(self.entries[i].key.as_slice(), prefix) {
                let e = Entry {
                    key: to_vec(self.entries[i].key.as_slice()),
                    value: to_vec(self.entries[i].value.as_slice()),
                };
                found.push(e);
                proof {
                    let ghost before = from;
                    from = from.push(i as int);
                    assert forall|j: int|
                        0 <= j < i + 1 && has_prefix(
                            (#[trigger] self.entries@[j]).key@,
                            prefix@,
                        ) implies exists|n: int| 0 <= n < from.len() && #[trigger] from[n] == j by {
                        if j < i {
                            let n = choose|n: int| 0 <= n < before.len() && #[trigger] before[n] == j;
                            assert(from[n] == j);
                        } else {
                            assert(from[before.len() as int] == j);
                        }
                    }
                }
            }
            i += 1;
        }
        proof {
            let ps = pairs(found@);
            let es = self.entries@;
            assert forall|n: int| 0 <= n < ps.len() implies has_prefix(#[trigger] ps[n].0, prefix@)
                && self@.dom().contains(ps[n].0) && self@[ps[n].0] == ps[n].1 by {
                lemma_kv_at(es, from[n]);
            }
            assert forall|n: int, m: int| 0 <= n < m < ps.len() implies #[trigger] ps[n].0
                != #[trigger] ps[m].0 by {
                assert(from[n] < from[m]);
                assert(es[from[n]].key@ != es[from[m]].key@);
            }
            assert forall|k: Seq<u8>| self@.dom().contains(k) && has_prefix(k, prefix@) implies exists|
                n: int,
            |
                0 <= n < ps.len() && #[trigger] ps[n].0 == k by {
                let j = choose|j: int| holds(es, k, j);
                assert(has_prefix(es[j].key@, prefix@));
                let n = choose|n: int| 0 <= n < from.len() && #[trigger] from[n] == j;
                assert(ps[n].0 == k);
            }
        }
        found
    }

    /// Stores `value` under `key`, in place of what was there.
    pub fn put(&mut self, key: Vec<u8>, value: Vec<u8>)
        requires
            old(self).wf(),
        ensures
            final(self).wf(),
            final(self)@ == old(self)@.insert(key@, value@),
    {
        match self.position(key.as_slice()) {
            Some(i) => {
                proof {
                    lemma_kv_remove(self.entries@, i as int);
                }
                self.entries.remove(i);
            },
            None => {},
        }
        let e = Entry { key, value };
        proof {
            lemma_kv_push(self.entries@, e);
        }
        self.entries.push(e);
        assert(old(self)@.remove(key@).insert(key@, value@) =~= old(self)@.insert(key@, value@));
    }

    /// Removes `key` and its value, if it is stored.
    pub fn delete(&mut self, key: &[u8])
        requires
            old(self).wf(),
        ensures
            final(self).wf(),
            final(self)@ == old(self)@.remove(key@),
    {
        match self.position(key) {
            Some(i) => {
                proof {
                    lemma_kv_remove(self.entries@, i as int);
                }
                self.entries.remove(i);
            },
            None => {
                assert(old(self)@.remove(key@) =~= old(self)@);
            },
        }
    }

    /// Carries out `writes`, first to last.
    pub fn apply(&mut self, writes: &Vec<Write>)
        requires
            old(self).wf(),
        ensures
            final(self).wf(),
            final(self)@ == apply_writes(old(self)@, changes(writes@)),
    {
        let mut i: usize = 0;
        while i < writes.len()
            invariant
                self.wf(),
                i <= writes@.len(),
                self@ == apply_writes(old(self)@, changes(writes@).take(i as int)),
            decreases writes@.len() - i,
        {
            proof {
                let ws = changes(writes@);
                assert(ws.take(i + 1).drop_last() =~= ws.take(i as int));
                assert(ws.take(i + 1).last() == writes@[i as int]@);
            }
            match &writes[i] {
                Write::Put(k, v) => {
                    self.put(to_vec(k.as_slice()), to_vec(v.as_slice()));
                },
                Write::Delete(k) => {
                    self.delete(k.as_slice());
                },
            }
            i += 1;
        }
        assert(changes(writes@).take(writes@.len() as int) =~= changes(writes@));
    }
}

proof fn lemma_kv_missing_all(es: Seq<Entry>)
    requires
        es.len() == 0,
    ensures
        kv_of(es) =~= Map::<Seq<u8>, Seq<u8>>::empty(),
{
    assert forall|k: Seq<u8>| !kv_of(es).dom().contains(k) by {
        lemma_kv_missing(es, k);
    }
}

proof fn lemma_kv_len(es: Seq<Entry>)
    requires
        unique(es),
    ensures
        kv_of(es).dom().finite(),
        kv_of(es).dom().len() == es.len(),
    decreases es.len(),
{
    if es.len() == 0 {
        lemma_kv_missing_all(es);
        assert(kv_of(es).dom() =~= Set::<Seq<u8>>::empty());
    } else {
        let at = es.len() - 1;
        lemma_kv_remove(es, at);
        lemma_kv_len(es.remove(at));
        lemma_kv_at(es, at);
        assert(kv_of(es).dom() =~= kv_of(es.remove(at)).dom().insert(es[at].key@));
    }
}

} // verus!
