//! The type command contexts: what each command on a hash, a list or a set
//! reads from the store, what it writes and what it answers.
//!
//! A command never touches the store itself. It is run as an [`Execution`],
//! a small state machine: the machine names the next read, the caller
//! performs it and hands the result back, until the machine finishes with
//! the writes to make and the reply to send. Each execution starts by
//! reading the collection's metadata record afresh and takes nothing from
//! earlier runs, so running it again on the same store gives the same
//! outcome.

use vstd::prelude::*;
use crate::frame::{Fault, Frame, FrameView, ok_frame};
use crate::keys::{TypeTag};
use crate::keys::{meta_key, data_key, data_prefix, list_key, is_data_key, data_key_parts};

use crate::meta::{Metadata, meta_bytes, spec_load, spec_create_or_bump, spec_touch_size};
use crate::octets::{to_vec};
use crate::store::{Kv, Entry, Write, WriteView, pairs, changes, lookup, is_scan};

verus! {

/// The most elements a list holds: positions are signed 64-bit numbers.
pub const LIST_CAPACITY: u64 = 0x7fff_ffff_ffff_ffff;

/// One operation on one collection.
#[derive(Clone, Debug, PartialEq, Eq)]
pub enum Command {
    /// Lists a hash or a set: for each entry its name, its value, or both.
    ReadAll { tag: TypeTag, key: Vec<u8>, want_fields: bool, want_values: bool },
    /// Sets one hash field, or adds one set member (with an empty value).
    PutEntry { tag: TypeTag, key: Vec<u8>, field: Vec<u8>, value: Vec<u8> },
    /// Deletes one hash field or one set member.
    DeleteEntry { tag: TypeTag, key: Vec<u8>, field: Vec<u8> },
    /// Replaces the list element at a position; a negative position counts
    /// from the end.
    ListSet { key: Vec<u8>, index: i64, element: Vec<u8> },
    /// Appends one element to a list.
    ListPush { key: Vec<u8>, element: Vec<u8> },
    /// Removes a whole collection, whatever its type.
    Remove { key: Vec<u8> },
}

/// A command as a mathematical value.
pub enum CommandView {
    ReadAll { tag: TypeTag, key: Seq<u8>, want_fields: bool, want_values: bool },
    PutEntry { tag: TypeTag, key: Seq<u8>, field: Seq<u8>, value: Seq<u8> },
    DeleteEntry { tag: TypeTag, key: Seq<u8>, field: Seq<u8> },
    ListSet { key: Seq<u8>, index: i64, element: Seq<u8> },
    ListPush { key: Seq<u8>, element: Seq<u8> },
    Remove { key: Seq<u8> },
}

impl View for Command {
    type V = CommandView;

    open spec fn view(&self) -> CommandView {
        match self {
            Command::ReadAll { tag, key, want_fields, want_values } => CommandView::ReadAll {
                tag: *tag,
                key: key@,
                want_fields: *want_fields,
                want_values: *want_values,
            },
            Command::PutEntry { tag, key, field, value } => CommandView::PutEntry {
                tag: *tag,
                key: key@,
                field: field@,
                value: value@,
            },
            Command::DeleteEntry { tag, key, field } => CommandView::DeleteEntry {
                tag: *tag,
                key: key@,
                field: field@,
            },
            Command::ListSet { key, index, element } => CommandView::ListSet {
                key: key@,
                index: *index,
                element: element@,
            },
            Command::ListPush { key, element } => CommandView::ListPush {
                key: key@,
                element: element@,
            },
            Command::Remove { key } => CommandView::Remove { key: key@ },
        }
    }
}

impl CommandView {
    /// The user key of the collection that the command is about.
    pub open spec fn key(self) -> Seq<u8> {
        match self {
            CommandView::ReadAll { key, .. } => key,
            CommandView::PutEntry { key, .. } => key,
            CommandView::DeleteEntry { key, .. } => key,
            CommandView::ListSet { key, .. } => key,
            CommandView::ListPush { key, .. } => key,
            CommandView::Remove { key } => key,
        }
    }

    /// Whether the command only reads.
    pub open spec fn read_only(self) -> bool {
        self is ReadAll
    }
}

/// How a finished command leaves the store and what it answers.
#[derive(Clone, Debug, PartialEq, Eq)]
pub struct Outcome {
    /// The changes to make, first to last, all in one transaction.
    pub writes: Vec<Write>,
    /// The reply to the client.
    pub reply: Frame,
}

/// An outcome as a mathematical value.
pub struct OutcomeView {
    pub writes: Seq<WriteView>,
    pub reply: FrameView,
}

impl View for Outcome {
    type V = OutcomeView;

    open spec fn view(&self) -> OutcomeView {
        OutcomeView { writes: changes(self.writes@), reply: self.reply@ }
    }
}

/// What an execution asks of its caller next.
#[derive(Clone, Debug, PartialEq, Eq)]
pub enum Step {
    /// Read this storage key and hand back its value.
    Get(Vec<u8>),
    /// Read every pair whose key starts with this prefix and hand them back.
    Scan(Vec<u8>),
    /// Nothing more to read: make the writes and send the reply.
    Finish(Outcome),
}

/// A step as a mathematical value.
pub enum StepView {
    Get(Seq<u8>),
    Scan(Seq<u8>),
    Finish(OutcomeView),
}

impl View for Step {
    type V = StepView;

    open spec fn view(&self) -> StepView {
        match self {
            Step::Get(k) => StepView::Get(k@),
            Step::Scan(p) => StepView::Scan(p@),
            Step::Finish(o) => StepView::Finish(o@),
        }
    }
}

/// What the caller read for the execution.
#[derive(Clone, Debug, PartialEq, Eq)]
pub enum Input {
    /// The value of the key asked for, if the key is stored.
    Value(Option<Vec<u8>>),
    /// The pairs under the prefix asked for.
    Entries(Vec<Entry>),
}

/// An input as a mathematical value.
pub enum InputView {
    Value(Option<Seq<u8>>),
    Entries(Seq<(Seq<u8>, Seq<u8>)>),
}

impl View for Input {
    type V = InputView;

    open spec fn view(&self) -> InputView {
        match self {
            Input::Value(Some(v)) => InputView::Value(Some(v@)),
            Input::Value(None) => InputView::Value(None),
            Input::Entries(es) => InputView::Entries(pairs(es@)),
        }
    }
}

/// Where an execution stands.
#[derive(Clone, Copy, Debug, PartialEq, Eq)]
pub enum Phase {
    /// Waiting for the metadata record.
    Meta,
    /// Waiting for one entry of the live collection with this record.
    Entry(Metadata),
    /// Waiting for all entries of the live collection with this record.
    Listing(Metadata),
    /// Finished.
    Done,
}

/// A finished command that changes nothing and answers `reply`.
pub open spec fn answer(reply: FrameView) -> StepView {
    StepView::Finish(OutcomeView { writes: Seq::empty(), reply })
}

/// A refused command: nothing changes.
pub open spec fn refuse(fault: Fault) -> StepView {
    answer(FrameView::Error(fault))
}

/// The position in a list of `size` elements that `index` names, counting
/// from the end where it is negative; `None` where it names none.
pub open spec fn normalize_index(index: i64, size: u64) -> Option<u64> {
    let at: int = if index < 0 {
        size + index
    } else {
        index as int
    };
    if 0 <= at < size {
        Some(at as u64)
    } else {
        None
    }
}

/// The storage key `sk` is a data key of version `version` of the collection
/// `key` of type `tag`.
pub open spec fn belongs(sk: Seq<u8>, tag: TypeTag, key: Seq<u8>, version: u64) -> bool {
    &&& is_data_key(sk)
    &&& data_key_parts(sk).tag == tag
    &&& data_key_parts(sk).key == key
    &&& data_key_parts(sk).version == version
}

/// All of `found` are entries of one version of one collection.
pub open spec fn all_belong(
    found: Seq<(Seq<u8>, Seq<u8>)>,
    tag: TypeTag,
    key: Seq<u8>,
    version: u64,
) -> bool {
    forall|i: int| 0 <= i < found.len() ==> belongs(#[trigger] found[i].0, tag, key, version)
}

/// What one stored pair contributes to a listing: the entry's name, its
/// value, or the name followed by the value.
pub open spec fn listed(pair: (Seq<u8>, Seq<u8>), want_fields: bool, want_values: bool) -> Seq<
    Seq<u8>,
> {
    let name = if want_fields {
        seq![data_key_parts(pair.0).disc]
    } else {
        Seq::empty()
    };
    let value = if want_values {
        seq![pair.1]
    } else {
        Seq::empty()
    };
    name + value
}

/// The listing of `found`, pair by pair in the order given.
pub open spec fn listing(found: Seq<(Seq<u8>, Seq<u8>)>, want_fields: bool, want_values: bool) -> Seq<
    Seq<u8>,
>
    decreases found.len(),
{
    if found.len() == 0 {
        Seq::empty()
    } else {
        listing(found.drop_last(), want_fields, want_values) + listed(
            found.last(),
            want_fields,
            want_values,
        )
    }
}

/// A record with another entry count.
pub open spec fn resized(m: Metadata, size: u64) -> Metadata {
    Metadata { size, ..m }
}

/// The step that follows once the collection's record is known, and the
/// phase the execution is in after it. `found` is the record under the
/// collection's meta key, if there is one.
pub open spec fn on_record(cmd: CommandView, found: Option<Metadata>) -> (Phase, StepView) {
    match cmd {
        CommandView::ReadAll { tag, key, want_fields, want_values } => {
            if !tag.keyed() {
                (Phase::Done, refuse(Fault::InvalidArguments))
            } else if found is None || !found->0.live() {
                (Phase::Done, answer(FrameView::Array(Seq::empty())))
            } else if found->0.tag != tag {
                (Phase::Done, refuse(Fault::WrongType))
            } else {
                (
                    Phase::Listing(found->0),
                    StepView::Scan(data_prefix(tag, key, found->0.version)),
                )
            }
        },
        CommandView::PutEntry { tag, key, field, value } => {
            if !tag.keyed() {
                (Phase::Done, refuse(Fault::InvalidArguments))
            } else {
                match spec_create_or_bump(found, tag) {
                    Err(fault) => (Phase::Done, refuse(fault)),
                    Ok(m) => if m.live() {
                        (Phase::Entry(m), StepView::Get(data_key(tag, key, m.version, field)))
                    } else {
                        (
                            Phase::Done,
                            StepView::Finish(
                                OutcomeView {
                                    writes: seq![
                                        WriteView::Put(
                                            data_key(tag, key, m.version, field),
                                            value,
                                        ),
                                        WriteView::Put(meta_key(key), meta_bytes(resized(m, 1))),
                                    ],
                                    reply: FrameView::Integer(1),
                                },
                            ),
                        )
                    },
                }
            }
        },
        CommandView::DeleteEntry { tag, key, field } => {
            if !tag.keyed() {
                (Phase::Done, refuse(Fault::InvalidArguments))
            } else if found is None || !found->0.live() {
                (Phase::Done, answer(FrameView::Integer(0)))
            } else if found->0.tag != tag {
                (Phase::Done, refuse(Fault::WrongType))
            } else {
                (
                    Phase::Entry(found->0),
                    StepView::Get(data_key(tag, key, found->0.version, field)),
                )
            }
        },
        CommandView::ListSet { key, index, element } => {
            if found is None || !found->0.live() {
                (Phase::Done, refuse(Fault::NoSuchKey))
            } else if found->0.tag != TypeTag::List {
                (Phase::Done, refuse(Fault::WrongType))
            } else {
                match normalize_index(index, found->0.size) {
                    None => (Phase::Done, refuse(Fault::IndexOutOfRange)),
                    Some(at) => (
                        Phase::Done,
                        StepView::Finish(
                            OutcomeView {
                                writes: seq![
                                    WriteView::Put(
                                        list_key(key, found->0.version, at),
                                        element,
                                    ),
                                ],
                                reply: ok_frame(),
                            },
                        ),
                    ),
                }
            }
        },
        CommandView::ListPush { key, element } => {
            match spec_create_or_bump(found, TypeTag::List) {
                Err(fault) => (Phase::Done, refuse(fault)),
                Ok(m) => if m.size >= LIST_CAPACITY {
                    (Phase::Done, refuse(Fault::IndexOutOfRange))
                } else {
                    (
                        Phase::Done,
                        StepView::Finish(
                            OutcomeView {
                                writes: seq![
                                    WriteView::Put(list_key(key, m.version, m.size), element),
                                    WriteView::Put(
                                        meta_key(key),
                                        meta_bytes(resized(m, (m.size + 1) as u64)),
                                    ),
                                ],
                                reply: FrameView::Integer((m.size + 1) as i64),
                            },
                        ),
                    )
                },
            }
        },
        CommandView::Remove { key } => {
            if found is None || !found->0.live() {
                (Phase::Done, answer(FrameView::Integer(0)))
            } else {
                (
                    Phase::Done,
                    StepView::Finish(
                        OutcomeView {
                            writes: seq![
                                WriteView::Put(meta_key(key), meta_bytes(resized(found->0, 0))),
                            ],
                            reply: FrameView::Integer(1),
                        },
                    ),
                )
            }
        },
    }
}

/// The step that follows the metadata read, and the phase the execution is
/// in after it. `raw` is what the collection's meta key holds: nothing, a
/// record, or bytes that are none, which is a fault.
pub open spec fn after_meta(cmd: CommandView, raw: Option<Seq<u8>>) -> (Phase, StepView) {
    match spec_load(raw) {
        Err(fault) => (Phase::Done, refuse(fault)),
        Ok(found) => on_record(cmd, found),
    }
}

/// The step that follows the read of one entry of the live collection with
/// record `m`. `raw` is what the entry's data key holds.
pub open spec fn after_entry(cmd: CommandView, m: Metadata, raw: Option<Seq<u8>>) -> StepView {
    match cmd {
        CommandView::PutEntry { tag, key, field, value } => {
            let dk = data_key(tag, key, m.version, field);
            if raw is Some {
                StepView::Finish(
                    OutcomeView {
                        writes: seq![WriteView::Put(dk, value)],
                        reply: FrameView::Integer(0),
                    },
                )
            } else {
                match spec_touch_size(m, 1) {
                    Err(fault) => refuse(fault),
                    Ok(grown) => StepView::Finish(
                        OutcomeView {
                            writes: seq![
                                WriteView::Put(dk, value),
                                WriteView::Put(meta_key(key), meta_bytes(grown)),
                            ],
                            reply: FrameView::Integer(1),
                        },
                    ),
                }
            }
        },
        CommandView::DeleteEntry { tag, key, field } => {
            let dk = data_key(tag, key, m.version, field);
            if raw is None {
                answer(FrameView::Integer(0))
            } else {
                match spec_touch_size(m, -1) {
                    Err(fault) => refuse(fault),
                    Ok(shrunk) => StepView::Finish(
                        OutcomeView {
                            writes: seq![
                                WriteView::Delete(dk),
                                WriteView::Put(meta_key(key), meta_bytes(shrunk)),
                            ],
                            reply: FrameView::Integer(1),
                        },
                    ),
                }
            }
        },
        _ => refuse(Fault::Internal),
    }
}

/// The step that follows the scan of the live collection with record `m`.
/// `found` is what the scan returned. A pair that is no entry of the
/// collection is a fault, never skipped.
pub open spec fn after_scan(cmd: CommandView, m: Metadata, found: Seq<(Seq<u8>, Seq<u8>)>) -> StepView {
    match cmd {
        CommandView::ReadAll { tag, key, want_fields, want_values } => {
            if all_belong(found, tag, key, m.version) {
                answer(FrameView::Array(listing(found, want_fields, want_values)))
            } else {
                refuse(Fault::Internal)
            }
        },
        _ => refuse(Fault::Internal),
    }
}

/// One transition of an execution: from its phase and what the caller read
/// to the next phase and step. An input of the wrong sort for the phase is a
/// fault.
pub open spec fn transition(cmd: CommandView, phase: Phase, input: InputView) -> (Phase, StepView) {
    match (phase, input) {
        (Phase::Meta, InputView::Value(raw)) => after_meta(cmd, raw),
        (Phase::Entry(m), InputView::Value(raw)) => (Phase::Done, after_entry(cmd, m, raw)),
        (Phase::Listing(m), InputView::Entries(found)) => (Phase::Done, after_scan(cmd, m, found)),
        _ => (Phase::Done, refuse(Fault::Internal)),
    }
}

/// `outcome` is a way for `cmd` to finish when it runs against the store
/// `s`: each read of the execution is answered from `s`. For a command that
/// scans there is one such outcome for each order in which the scan may
/// return the pairs; for every other command there is exactly one.
pub open spec fn completes(cmd: CommandView, s: Kv, outcome: OutcomeView) -> bool {
    let first = after_meta(cmd, lookup(s, meta_key(cmd.key())));
    match first.1 {
        StepView::Finish(done) => outcome == done,
        StepView::Get(k) => first.0 matches Phase::Entry(m) && after_entry(cmd, m, lookup(s, k))
            == StepView::Finish(outcome),
        StepView::Scan(p) => first.0 matches Phase::Listing(m) && exists|
            found: Seq<(Seq<u8>, Seq<u8>)>,
        |
            is_scan(s, p, found) && #[trigger] after_scan(cmd, m, found) == StepView::Finish(
                outcome,
            ),
    }
}

impl Command {
    /// Lists the hash under `key`: field names, values, or each name
    /// followed by its value.
    pub fn hash_get_all(key: &[u8], want_fields: bool, want_values: bool) -> (c: Command)
        ensures
            c@ == (CommandView::ReadAll { tag: TypeTag::Hash, key: key@, want_fields, want_values }),
    {
        Command::ReadAll { tag: TypeTag::Hash, key: to_vec(key), want_fields, want_values }
    }

    /// Sets the field `field` of the hash under `key` to `value`.
    pub fn hash_set(key: &[u8], field: &[u8], value: &[u8]) -> (c: Command)
        ensures
            c@ == (CommandView::PutEntry {
                tag: TypeTag::Hash,
                key: key@,
                field: field@,
                value: value@,
            }),
    {
        Command::PutEntry {
            tag: TypeTag::Hash,
            key: to_vec(key),
            field: to_vec(field),
            value: to_vec(value),
        }
    }

    /// Deletes the field `field` of the hash under `key`.
    pub fn hash_del(key: &[u8], field: &[u8]) -> (c: Command)
        ensures
            c@ == (CommandView::DeleteEntry { tag: TypeTag::Hash, key: key@, field: field@ }),
    {
        Command::DeleteEntry { tag: TypeTag::Hash, key: to_vec(key), field: to_vec(field) }
    }

    /// Lists the members of the set under `key`.
    pub fn set_members(key: &[u8]) -> (c: Command)
        ensures
            c@ == (CommandView::ReadAll {
                tag: TypeTag::PlainSet,
                key: key@,
                want_fields: true,
                want_values: false,
            }),
    {
        Command::ReadAll {
            tag: TypeTag::PlainSet,
            key: to_vec(key),
            want_fields: true,
            want_values: false,
        }
    }

    /// Adds `member` to the set under `key`.
    pub fn set_add(key: &[u8], member: &[u8]) -> (c: Command)
        ensures
            c@ == (CommandView::PutEntry {
                tag: TypeTag::PlainSet,
                key: key@,
                field: member@,
                value: Seq::<u8>::empty(),
            }),
    {
        Command::PutEntry {
            tag: TypeTag::PlainSet,
            key: to_vec(key),
            field: to_vec(member),
            value: Vec::new(),
        }
    }

    /// Takes `member` out of the set under `key`.
    pub fn set_remove(key: &[u8], member: &[u8]) -> (c: Command)
        ensures
            c@ == (CommandView::DeleteEntry { tag: TypeTag::PlainSet, key: key@, field: member@ }),
    {
        Command::DeleteEntry { tag: TypeTag::PlainSet, key: to_vec(key), field: to_vec(member) }
    }

    /// Replaces the element at `index` of the list under `key`.
    pub fn list_set_by_index(key: &[u8], index: i64, element: &[u8]) -> (c: Command)
        ensures
            c@ == (CommandView::ListSet { key: key@, index, element: element@ }),
    {
        Command::ListSet { key: to_vec(key), index, element: to_vec(element) }
    }

    /// Appends `element` to the list under `key`.
    pub fn list_push(key: &[u8], element: &[u8]) -> (c: Command)
        ensures
            c@ == (CommandView::ListPush { key: key@, element: element@ }),
    {
        Command::ListPush { key: to_vec(key), element: to_vec(element) }
    }

    /// Removes the collection under `key`.
    pub fn remove(key: &[u8]) -> (c: Command)
        ensures
            c@ == (CommandView::Remove { key: key@ }),
    {
        Command::Remove { key: to_vec(key) }
    }
}

} // verus!
