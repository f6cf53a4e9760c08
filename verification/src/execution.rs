//! Running a command: the state machine that asks for reads and ends with the
//! writes and the reply, and a driver that runs it against a store in memory.

use vstd::prelude::*;
use crate::command::{Command, CommandView, Outcome, OutcomeView, Step, StepView, Input, Phase};
use crate::command::{LIST_CAPACITY, answer, refuse, normalize_index, belongs, all_belong, listed, listing};
use crate::command::{on_record, after_entry, after_scan, transition, completes};
use crate::frame::{Fault, Frame, FrameView, rows};
use crate::keys::{TypeTag, meta_key};
use crate::keys::{encode_meta, encode_data, encode_prefix, encode_index, decode_data};
use crate::meta::{Metadata, meta_bytes};
use crate::octets::{bytes_eq, to_vec};
use crate::store::{Entry, Write, WriteView, MemStore, pairs, changes, apply_writes};

verus! {

/// A command on its way: the command and how far it has come.
#[derive(Clone, Debug, PartialEq, Eq)]
pub struct Execution {
    pub command: Command,
    pub phase: Phase,
}

fn reply_with(reply: Frame) -> (step: Step)
    ensures
        step@ == answer(reply@),
{
    let writes: Vec<Write> = Vec::new();
    assert(changes(writes@) =~= Seq::<WriteView>::empty());
    Step::Finish(Outcome { writes, reply })
}

fn refused(fault: Fault) -> (step: Step)
    ensures
        step@ == refuse(fault),
{
    reply_with(Frame::Error(fault))
}

fn finish_one(w: Write, reply: Frame) -> (step: Step)
    ensures
        step@ == StepView::Finish(OutcomeView { writes: seq![w@], reply: reply@ }),
{
    let mut writes: Vec<Write> = Vec::new();
    writes.push(w);
    assert(changes(writes@) =~= seq![w@]);
    Step::Finish(Outcome { writes, reply })
}

fn finish_two(w1: Write, w2: Write, reply: Frame) -> (step: Step)
    ensures
        step@ == StepView::Finish(OutcomeView { writes: seq![w1@, w2@], reply: reply@ }),
{
    let mut writes: Vec<Write> = Vec::new();
    writes.push(w1);
    writes.push(w2);
    assert(changes(writes@) =~= seq![w1@, w2@]);
    Step::Finish(Outcome { writes, reply })
}

fn empty_listing() -> (reply: Frame)
    ensures
        reply@ == FrameView::Array(Seq::<Seq<u8>>::empty()),
{
    let none: Vec<Vec<u8>> = Vec::new();
    assert(rows(none@) =~= Seq::<Seq<u8>>::empty());
    Frame::Array(none)
}

/// The record of a live collection, if `found` is one.
fn live_record(found: Option<Metadata>) -> (live: Option<Metadata>)
    ensures
        live is Some <==> (found is Some && found->0.live()),
        live is Some ==> live == found,
{
    match found {
        Some(m) => if m.is_live() {
            Some(m)
        } else {
            None
        },
        None => None,
    }
}

/// The position in a list of `size` elements that `index` names.
pub fn normalize(index: i64, size: u64) -> (at: Option<u64>)
    ensures
        at == normalize_index(index, size),
{
    if index < 0 {
        let back: u64 = ((-(index + 1)) as u64) + 1;
        if back > size {
            None
        } else {
            Some(size - back)
        }
    } else {
        let at: u64 = index as u64;
        if at < size {
            Some(at)
        } else {
            None
        }
    }
}

fn put_meta(key: &[u8], m: Metadata) -> (w: Write)
    ensures
        w@ == WriteView::Put(meta_key(key@), meta_bytes(m)),
{
    Write::Put(encode_meta(key), m.encode())
}

fn read_all_on_record(
    tag: TypeTag,
    key: &[u8],
    want_fields: bool,
    want_values: bool,
    found: Option<Metadata>,
) -> (r: (Phase, Step))
    ensures
        (r.0, r.1@) == on_record(
            CommandView::ReadAll { tag, key: key@, want_fields, want_values },
            found,
        ),
{
    if !tag.is_keyed() {
        return (Phase::Done, refused(Fault::InvalidArguments));
    }
    match live_record(found) {
        None => (Phase::Done, reply_with(empty_listing())),
        Some(m) => {
            if m.tag != tag {
                (Phase::Done, refused(Fault::WrongType))
            } else {
                (Phase::Listing(m), Step::Scan(encode_prefix(tag, key, m.version)))
            }
        },
    }
}

fn put_entry_on_record(
    tag: TypeTag,
    key: &[u8],
    field: &[u8],
    value: &[u8],
    found: Option<Metadata>,
) -> (r: (Phase, Step))
    ensures
        (r.0, r.1@) == on_record(
            CommandView::PutEntry { tag, key: key@, field: field@, value: value@ },
            found,
        ),
{
    if !tag.is_keyed() {
        return (Phase::Done, refused(Fault::InvalidArguments));
    }
    match Metadata::create_or_bump(found, tag) {
        Err(fault) => (Phase::Done, refused(fault)),
        Ok(m) => {
            let dk = encode_data(tag, key, m.version, field);
            if m.is_live() {
                (Phase::Entry(m), Step::Get(dk))
            } else {
                let first = Metadata { version: m.version, size: 1, tag: m.tag, expire_at: m.expire_at };
                (
                    Phase::Done,
                    finish_two(Write::Put(dk, to_vec(value)), put_meta(key, first), Frame::Integer(1)),
                )
            }
        },
    }
}

fn delete_entry_on_record(tag: TypeTag, key: &[u8], field: &[u8], found: Option<Metadata>) -> (r: (
    Phase,
    Step,
))
    ensures
        (r.0, r.1@) == on_record(CommandView::DeleteEntry { tag, key: key@, field: field@ }, found),
{
    if !tag.is_keyed() {
        return (Phase::Done, refused(Fault::InvalidArguments));
    }
    match live_record(found) {
        None => (Phase::Done, reply_with(Frame::Integer(0))),
        Some(m) => {
            if m.tag != tag {
                (Phase::Done, refused(Fault::WrongType))
            } else {
                (Phase::Entry(m), Step::Get(encode_data(tag, key, m.version, field)))
            }
        },
    }
}

fn list_set_on_record(key: &[u8], index: i64, element: &[u8], found: Option<Metadata>) -> (r: (
    Phase,
    Step,
))
    ensures
        (r.0, r.1@) == on_record(
            CommandView::ListSet { key: key@, index, element: element@ },
            found,
        ),
{
    match live_record(found) {
        None => (Phase::Done, refused(Fault::NoSuchKey)),
        Some(m) => {
            if m.tag != TypeTag::List {
                (Phase::Done, refused(Fault::WrongType))
            } else {
                match normalize(index, m.size) {
                    None => (Phase::Done, refused(Fault::IndexOutOfRange)),
                    Some(at) => {
                        let disc = encode_index(at);
                        let dk = encode_data(TypeTag::List, key, m.version, disc.as_slice());
                        (Phase::Done, finish_one(Write::Put(dk, to_vec(element)), Frame::ok()))
                    },
                }
            }
        },
    }
}

fn list_push_on_record(key: &[u8], element: &[u8], found: Option<Metadata>) -> (r: (Phase, Step))
    ensures
        (r.0, r.1@) == on_record(CommandView::ListPush { key: key@, element: element@ }, found),
{
    match Metadata::create_or_bump(found, TypeTag::List) {
        Err(fault) => (Phase::Done, refused(fault)),
        Ok(m) => {
            if m.size >= LIST_CAPACITY {
                (Phase::Done, refused(Fault::IndexOutOfRange))
            } else {
                let disc = encode_index(m.size);
                let dk = encode_data(TypeTag::List, key, m.version, disc.as_slice());
                let grown = Metadata {
                    version: m.version,
                    size: m.size + 1,
                    tag: m.tag,
                    expire_at: m.expire_at,
                };
                (
                    Phase::Done,
                    finish_two(
                        Write::Put(dk, to_vec(element)),
                        put_meta(key, grown),
                        Frame::Integer((m.size + 1) as i64),
                    ),
                )
            }
        },
    }
}

fn remove_on_record(key: &[u8], found: Option<Metadata>) -> (r: (Phase, Step))
    ensures
        (r.0, r.1@) == on_record(CommandView::Remove { key: key@ }, found),
{
    match live_record(found) {
        None => (Phase::Done, reply_with(Frame::Integer(0))),
        Some(m) => {
            let tombstone = Metadata {
                version: m.version,
                size: 0,
                tag: m.tag,
                expire_at: m.expire_at,
            };
            (Phase::Done, finish_one(put_meta(key, tombstone), Frame::Integer(1)))
        },
    }
}

fn step_on_record(command: &Command, found: Option<Metadata>) -> (r: (Phase, Step))
    ensures
        (r.0, r.1@) == on_record(command@, found),
{
    match command {
        Command::ReadAll { tag, key, want_fields, want_values } => read_all_on_record(
            *tag,
            key.as_slice(),
            *want_fields,
            *want_values,
            found,
        ),
        Command::PutEntry { tag, key, field, value } => put_entry_on_record(
            *tag,
            key.as_slice(),
            field.as_slice(),
            value.as_slice(),
            found,
        ),
        Command::DeleteEntry { tag, key, field } => delete_entry_on_record(
            *tag,
            key.as_slice(),
            field.as_slice(),
            found,
        ),
        Command::ListSet { key, index, element } => list_set_on_record(
            key.as_slice(),
            *index,
            element.as_slice(),
            found,
        ),
        Command::ListPush { key, element } => list_push_on_record(
            key.as_slice(),
            element.as_slice(),
            found,
        ),
        Command::Remove { key } => remove_on_record(key.as_slice(), found),
    }
}

fn step_on_entry(command: &Command, m: Metadata, raw: &Option<Vec<u8>>) -> (step: Step)
    ensures
        step@ == after_entry(
            command@,
            m,
            match *raw {
                Some(b) => Some(b@),
                None => None,
            },
        ),
{
    match command {
        Command::PutEntry { tag, key, field, value } => {
            let dk = encode_data(*tag, key.as_slice(), m.version, field.as_slice());
            let put = Write::Put(dk, to_vec(value.as_slice()));
            if raw.is_some() {
                finish_one(put, Frame::Integer(0))
            } else {
                match m.touch_size(1) {
                    Err(fault) => refused(fault),
                    Ok(grown) => finish_two(put, put_meta(key.as_slice(), grown), Frame::Integer(1)),
                }
            }
        },
        Command::DeleteEntry { tag, key, field } => {
            if raw.is_none() {
                reply_with(Frame::Integer(0))
            } else {
                match m.touch_size(-1) {
                    Err(fault) => refused(fault),
                    Ok(shrunk) => {
                        let dk = encode_data(*tag, key.as_slice(), m.version, field.as_slice());
                        finish_two(
                            Write::Delete(dk),
                            put_meta(key.as_slice(), shrunk),
                            Frame::Integer(1),
                        )
                    },
                }
            }
        },
        _ => refused(Fault::Internal),
    }
}

/// Decodes what a scan returned into a listing; `None` if a pair is no entry
/// of the collection scanned.
fn list_entries(
    tag: TypeTag,
    key: &[u8],
    version: u64,
    found: &Vec<Entry>,
    want_fields: bool,
    want_values: bool,
) -> (listed_rows: Option<Vec<Vec<u8>>>)
    ensures
        listed_rows is Some <==> all_belong(pairs(found@), tag, key@, version),
        listed_rows is Some ==> rows(listed_rows->0@) == listing(
            pairs(found@),
            want_fields,
            want_values,
        ),
{
    let mut out: Vec<Vec<u8>> = Vec::new();
    let mut i: usize = 0;
    assert(rows(out@) =~= Seq::<Seq<u8>>::empty());
    assert(pairs(found@).take(0) =~= Seq::<(Seq<u8>, Seq<u8>)>::empty());
    while i < found.len()
        invariant
            i <= found@.len(),
            all_belong(pairs(found@).take(i as int), tag, key@, version),
            rows(out@) == listing(pairs(found@).take(i as int), want_fields, want_values),
        decreases found@.len() - i,
    {
        let ghost ps = pairs(found@);
        let ghost before = rows(out@);
        let entry = &found[i];
        let parts = match decode_data(entry.key.as_slice()) {
            Some(p) => p,
            None => {
                assert(!belongs(ps[i as int].0, tag, key@, version));
                return None;
            },
        };
        if parts.tag != tag || parts.version != version || !bytes_eq(parts.key.as_slice(), key) {
            assert(!belongs(ps[i as int].0, tag, key@, version));
            return None;
        }
        if want_fields {
            out.push(parts.disc);
        }
        if want_values {
            out.push(to_vec(entry.value.as_slice()));
        }
        proof {
            assert(ps.take(i + 1).drop_last() =~= ps.take(i as int));
            assert(ps.take(i + 1).last() == ps[i as int]);
            assert(rows(out@) =~= before + listed(ps[i as int], want_fields, want_values));
            assert forall|j: int| 0 <= j < ps.take(i + 1).len() implies belongs(
                #[trigger] ps.take(i + 1)[j].0,
                tag,
                key@,
                version,
            ) by {
                if j < i {
                    assert(ps.take(i as int)[j] == ps[j]);
                }
            }
        }
        i += 1;
    }
    assert(pairs(found@).take(found@.len() as int) =~= pairs(found@));
    Some(out)
}

fn step_on_scan(command: &Command, m: Metadata, found: &Vec<Entry>) -> (step: Step)
    ensures
        step@ == after_scan(command@, m, pairs(found@)),
{
    match command {
        Command::ReadAll { tag, key, want_fields, want_values } => {
            match list_entries(*tag, key.as_slice(), m.version, found, *want_fields, *want_values) {
                Some(listed_rows) => reply_with(Frame::Array(listed_rows)),
                None => refused(Fault::Internal),
            }
        },
        _ => refused(Fault::Internal),
    }
}

impl Execution {
    /// Begins to run `command`. The first step is always the read of the
    /// collection's metadata record.
    pub fn start(command: Command) -> (r: (Execution, Step))
        ensures
            r.0.command == command,
            r.0.phase == Phase::Meta,
            r.1@ == StepView::Get(meta_key(command@.key())),
    {
        let sk = match &command {
            Command::ReadAll { key, .. } => encode_meta(key.as_slice()),
            Command::PutEntry { key, .. } => encode_meta(key.as_slice()),
            Command::DeleteEntry { key, .. } => encode_meta(key.as_slice()),
            Command::ListSet { key, .. } => encode_meta(key.as_slice()),
            Command::ListPush { key, .. } => encode_meta(key.as_slice()),
            Command::Remove { key } => encode_meta(key.as_slice()),
        };
        (Execution { command, phase: Phase::Meta }, Step::Get(sk))
    }

    /// Whether the execution has finished.
    pub fn is_done(&self) -> (done: bool)
        ensures
            done == (self.phase == Phase::Done),
    {
        match self.phase {
            Phase::Done => true,
            _ => false,
        }
    }

    /// Takes what the caller read for the last step and gives the next step.
    pub fn resume(&mut self, input: Input) -> (step: Step)
        ensures
            final(self).command == old(self).command,
            (final(self).phase, step@) == transition(old(self).command@, old(self).phase, input@),
    {
        let (next, step) = match self.phase {
            Phase::Meta => match input {
                Input::Value(raw) => match Metadata::load(&raw) {
                    Err(fault) => (Phase::Done, refused(fault)),
                    Ok(found) => step_on_record(&self.command, found),
                },
                Input::Entries(_) => (Phase::Done, refused(Fault::Internal)),
            },
            Phase::Entry(m) => match input {
                Input::Value(raw) => (Phase::Done, step_on_entry(&self.command, m, &raw)),
                Input::Entries(_) => (Phase::Done, refused(Fault::Internal)),
            },
            Phase::Listing(m) => match input {
                Input::Entries(found) => (Phase::Done, step_on_scan(&self.command, m, &found)),
                Input::Value(_) => (Phase::Done, refused(Fault::Internal)),
            },
            Phase::Done => (Phase::Done, refused(Fault::Internal)),
        };
        self.phase = next;
        step
    }

    /// Runs `command` to its end against a store in memory and makes its
    /// writes there.
    pub fn run(command: Command, store: &mut MemStore) -> (outcome: Outcome)
        requires
            old(store).wf(),
        ensures
            final(store).wf(),
            completes(command@, old(store)@, outcome@),
            final(store)@ == apply_writes(old(store)@, outcome@.writes),
    {
        let ghost cmd = command@;
        let ghost s = store@;
        let (mut execution, first) = Execution::start(command);
        let raw = match first {
            Step::Get(sk) => store.get(sk.as_slice()),
            _ => None,
        };
        let second = execution.resume(Input::Value(raw));
        let last = match second {
            Step::Finish(outcome) => Step::Finish(outcome),
            Step::Get(sk) => {
                let raw = store.get(sk.as_slice());
                execution.resume(Input::Value(raw))
            },
            Step::Scan(prefix) => {
                let found = store.scan(prefix.as_slice());
                execution.resume(Input::Entries(found))
            },
        };
        match last {
            Step::Finish(outcome) => {
                store.apply(&outcome.writes);
                outcome
            },
            _ => {
                assert(false);
                Outcome { writes: Vec::new(), reply: Frame::Error(Fault::Internal) }
            },
        }
    }
}

} // verus!
