//! `SMEMBERS key`: all members of a set.

use vstd::prelude::*;
use vstd::utf8::encode_utf8;
use crate::cmd::{Dispatch, DispatchView};
use crate::command::{Command, CommandView};
use crate::frame::{Fault, Frame, FrameView};
use crate::keys::TypeTag;
use crate::parse::{Parse, ParseError, as_text};

verus! {

/// A request to list a set.
#[derive(Debug)]
pub struct Smembers {
    key: String,
    valid: bool,
}

/// A request as a mathematical value.
pub struct SmembersView {
    pub key: Seq<char>,
    /// Whether the arguments had the number and the types the verb takes.
    pub valid: bool,
}

/// The request that stands for arguments that did not fit.
pub open spec fn invalid_smembers() -> SmembersView {
    SmembersView { key: Seq::empty(), valid: false }
}

/// The request that a list of text arguments makes: valid where it is
/// exactly one argument, the key.
pub open spec fn smembers_of_argv(argv: Seq<String>) -> SmembersView {
    if argv.len() == 1 {
        SmembersView { key: argv[0]@, valid: true }
    } else {
        invalid_smembers()
    }
}

/// The request that a sequence of argument frames makes: valid where the
/// first frame is there and is text, the key.
pub open spec fn smembers_of_frames(args: Seq<FrameView>) -> SmembersView {
    if args.len() > 0 && as_text(args[0]) is Some {
        SmembersView { key: as_text(args[0])->0, valid: true }
    } else {
        invalid_smembers()
    }
}

/// What is done for a request: an invalid one is answered at once, so is any
/// while transactional execution is switched off; else the members of the
/// set are listed.
pub open spec fn smembers_dispatch(request: SmembersView, txn_api: bool) -> DispatchView {
    if !request.valid {
        DispatchView::Reply(FrameView::Error(Fault::InvalidArguments))
    } else if !txn_api {
        DispatchView::Reply(FrameView::Error(Fault::NotSupported))
    } else {
        DispatchView::Run(
            CommandView::ReadAll {
                tag: TypeTag::PlainSet,
                key: encode_utf8(request.key),
                want_fields: true,
                want_values: false,
            },
        )
    }
}

impl View for Smembers {
    type V = SmembersView;

    closed spec fn view(&self) -> SmembersView {
        SmembersView { key: self.key@, valid: self.valid }
    }
}

impl Smembers {
    pub fn new(key: &str) -> (request: Smembers)
        ensures
            request@ == (SmembersView { key: key@, valid: true }),
    {
        Smembers { key: key.to_owned(), valid: true }
    }

    /// Get the key
    pub fn key(&self) -> (key: &str)
        ensures
            key@ == self@.key,
    {
        self.key.as_str()
    }

    pub fn set_key(&mut self, key: &str)
        ensures
            final(self)@ == (SmembersView { key: key@, valid: old(self)@.valid }),
    {
        self.key = key.to_owned();
    }

    /// Whether the arguments fitted.
    pub fn is_valid(&self) -> (valid: bool)
        ensures
            valid == self@.valid,
    {
        self.valid
    }

    /// Builds the request from argument frames. Arguments that do not fit
    /// give an invalid request, never an error. One frame is consumed, if
    /// there is one.
    pub fn parse_frames(parse: &mut Parse) -> (r: Result<Smembers, ParseError>)
        ensures
            r is Ok,
            r->Ok_0@ == smembers_of_frames(old(parse).remaining()),
            final(parse).remaining() == if old(parse).remaining().len() > 0 {
                old(parse).remaining().skip(1)
            } else {
                old(parse).remaining()
            },
    {
        match parse.next_string() {
            Ok(key) => Ok(Smembers::new(key.as_str())),
            Err(_) => Ok(Smembers { key: String::new(), valid: false }),
        }
    }

    /// Builds the request from text arguments. Arguments that do not fit
    /// give an invalid request, never an error.
    pub fn parse_argv(argv: &Vec<String>) -> (r: Result<Smembers, ParseError>)
        ensures
            r is Ok,
            r->Ok_0@ == smembers_of_argv(argv@),
    {
        if argv.len() != 1 {
            return Ok(Smembers { key: String::new(), valid: false });
        }
        Ok(Smembers::new(argv[0].as_str()))
    }

    /// Decides what is done for the request. `txn_api` says whether
    /// transactional execution is switched on.
    pub fn smembers(&self, txn_api: bool) -> (dispatch: Dispatch)
        ensures
            dispatch@ == smembers_dispatch(self@, txn_api),
    {
        if !self.valid {
            return Dispatch::Reply(Frame::Error(Fault::InvalidArguments));
        }
        if txn_api {
            Dispatch::Run(Command::set_members(self.key.as_str().as_bytes()))
        } else {
            Dispatch::Reply(Frame::Error(Fault::NotSupported))
        }
    }
}

} // verus!
