//! The values a command answers with.

use vstd::prelude::*;

verus! {

/// Why a command was not carried out.
#[derive(Clone, Copy, Debug, PartialEq, Eq, Structural)]
pub enum Fault {
    /// The arguments did not have the number or the types the command takes.
    InvalidArguments,
    /// Transactional execution is switched off.
    NotSupported,
    /// The key holds a collection of another type.
    WrongType,
    /// A list position outside the list.
    IndexOutOfRange,
    /// The command needs an existing collection and there is none.
    NoSuchKey,
    /// The store kept reporting conflicting writers until the attempts ran out.
    Conflict,
    /// Stored bytes that no writer of this library produces, or a counter at
    /// the end of its range.
    Internal,
}

impl Fault {
    /// The text sent to the client.
    pub open spec fn text(self) -> Seq<char> {
        match self {
            Fault::InvalidArguments => "ERR Invalid arguments"@,
            Fault::NotSupported => "not supported yet"@,
            Fault::WrongType => "WRONGTYPE Operation against a key holding the wrong kind of value"@,
            Fault::IndexOutOfRange => "ERR index out of range"@,
            Fault::NoSuchKey => "ERR no such key"@,
            Fault::Conflict => "ERR transaction conflict, try again"@,
            Fault::Internal => "ERR internal error"@,
        }
    }

    /// Whether the same command may succeed when issued again unchanged.
    pub open spec fn transient(self) -> bool {
        self == Fault::Conflict
    }

    pub fn message(self) -> (text: &'static str)
        ensures
            text@ == self.text(),
    {
        match self {
            Fault::InvalidArguments => "ERR Invalid arguments",
            Fault::NotSupported => "not supported yet",
            Fault::WrongType => "WRONGTYPE Operation against a key holding the wrong kind of value",
            Fault::IndexOutOfRange => "ERR index out of range",
            Fault::NoSuchKey => "ERR no such key",
            Fault::Conflict => "ERR transaction conflict, try again",
            Fault::Internal => "ERR internal error",
        }
    }

    pub fn is_transient(self) -> (r: bool)
        ensures
            r == self.transient(),
    {
        match self {
            Fault::Conflict => true,
            _ => false,
        }
    }
}

/// A protocol-neutral value: what a client sends as an argument and what a
/// command answers.
#[derive(Clone, Debug, PartialEq, Eq)]
pub enum Frame {
    /// A short status line.
    Simple(String),
    /// A refusal.
    Error(Fault),
    /// A number.
    Integer(i64),
    /// One binary-safe value.
    Bulk(Vec<u8>),
    /// The absence of a value.
    Null,
    /// A sequence of binary-safe values.
    Array(Vec<Vec<u8>>),
}

/// A frame as a mathematical value.
pub enum FrameView {
    Simple(Seq<char>),
    Error(Fault),
    Integer(i64),
    Bulk(Seq<u8>),
    Null,
    Array(Seq<Seq<u8>>),
}

/// The byte strings that a vector of byte vectors holds.
pub open spec fn rows(v: Seq<Vec<u8>>) -> Seq<Seq<u8>> {
    Seq::new(v.len(), |i: int| v[i]@)
}

impl View for Frame {
    type V = FrameView;

    open spec fn view(&self) -> FrameView {
        match self {
            Frame::Simple(s) => FrameView::Simple(s@),
            Frame::Error(e) => FrameView::Error(*e),
            Frame::Integer(n) => FrameView::Integer(*n),
            Frame::Bulk(b) => FrameView::Bulk(b@),
            Frame::Null => FrameView::Null,
            Frame::Array(a) => FrameView::Array(rows(a@)),
        }
    }
}

/// The status that a write answers with when it went through.
pub open spec fn ok_frame() -> FrameView {
    FrameView::Simple("OK"@)
}

impl Frame {
    /// The status `OK`.
    pub fn ok() -> (f: Frame)
        ensures
            f@ == ok_frame(),
    {
        Frame::Simple("OK".to_owned())
    }

    /// Whether the frame is a refusal.
    pub fn is_error(&self) -> (r: bool)
        ensures
            r == (self@ is Error),
    {
        match self {
            Frame::Error(_) => true,
            _ => false,
        }
    }
}

} // verus!
