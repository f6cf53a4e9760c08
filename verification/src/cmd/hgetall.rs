//! `HGETALL key`: all fields of a hash, each followed by its value.

use vstd::prelude::*;
use vstd::utf8::encode_utf8;
use crate::cmd::{Dispatch, DispatchView};
use crate::command::{Command, CommandView};
use crate::frame::{Fault, Frame, FrameView};
use crate::keys::TypeTag;
use crate::parse::{Parse, ParseError, as_text};

verus! {

/// A request to list a hash.
#[derive(Debug)]
pub struct Hgetall {
    key: String,
    valid: bool,
}

/// A request as a mathematical value.
pub struct HgetallView {
    pub key: Seq<char>,
    /// Whether the arguments had the number and the types the verb takes.
    pub valid: bool,
}

/// The request that stands for arguments that did not fit.
pub open spec fn invalid_hgetall() -> HgetallView {
    HgetallView { key: Seq::empty(), valid: false }
}

/// The request that a list of text arguments makes: valid where it is
/// exactly one argument, the key.
pub open spec fn hgetall_of_argv(argv: Seq<String>) -> HgetallView {
    if argv.len() == 1 {
        HgetallView { key: argv[0]@, valid: true }
    } else {
        invalid_hgetall()
    }
}

/// The request that a sequence of argument frames makes: valid where the
/// first frame is there and is text, the key.
pub open spec fn hgetall_of_frames(args: Seq<FrameView>) -> HgetallView {
    if args.len() > 0 && as_text(args[0]) is Some {
        HgetallView { key: as_text(args[0])->0, valid: true }
    } else {
        invalid_hgetall()
    }
}

/// What is done for a request: an invalid one is answered at once, so is any
/// while transactional execution is switched off; else the hash is listed
/// with names and values.
pub open spec fn hgetall_dispatch(request: HgetallView, txn_api: bool) -> DispatchView {
    if !request.valid {
        DispatchView::Reply(FrameView::Error(Fault::InvalidArguments))
    } else if !txn_api {
        DispatchView::Reply(FrameView::Error(Fault::NotSupported))
    } else {
        DispatchView::Run(
            CommandView::ReadAll {
                tag: TypeTag::Hash,
                key: encode_utf8(request.key),
                want_fields: true,
                want_values: true,
            },
        )
    }
}

impl View for Hgetall {
    type V = HgetallView;

    closed spec fn view(&self) -> HgetallView {
        HgetallView { key: self.key@, valid: self.valid }
    }
}

impl Hgetall {
    pub fn new(key: &str) -> (request: Hgetall)
        ensures
            request@ == (HgetallView { key: key@, valid: true }),
    {
        Hgetall { key: key.to_owned(), valid: true }
    }

    pub fn new_invalid() -> (request: Hgetall)
        ensures
            request@ == invalid_hgetall(),
    {
        Hgetall { key: String::new(), valid: false }
    }

    /// Get the key
    pub fn key(&self) -> (key: &str)
        ensures
            key@ == self@.key,
    {
        self.key.as_str()
    }

    pub fn set_key(&mut self, key: &str)
        ensures
            final(self)@ == (HgetallView { key: key@, valid: old(self)@.valid }),
    {
        self.key = key.to_owned();
    }

    /// Whether the arguments fitted.
    pub fn is_valid(&self) -> (valid: bool)
        ensures
            valid == self@.valid,
    {
        self.valid
    }

    /// Builds the request from argument frames. Arguments that do not fit
    /// give an invalid request, never an error. One frame is consumed, if
    /// there is one.
    pub fn parse_frames(parse: &mut Parse) -> (r: Result<Hgetall, ParseError>)
        ensures
            r is Ok,
            r->Ok_0@ == hgetall_of_frames(old(parse).remaining()),
            final(parse).remaining() == if old(parse).remaining().len() > 0 {
                old(parse).remaining().skip(1)
            } else {
                old(parse).remaining()
            },
    {
        match parse.next_string() {
            Ok(key) => Ok(Hgetall { key, valid: true }),
            Err(_) => Ok(Hgetall::new_invalid()),
        }
    }

    /// Builds the request from text arguments. Arguments that do not fit
    /// give an invalid request, never an error.
    pub fn parse_argv(argv: &Vec<String>) -> (r: Result<Hgetall, ParseError>)
        ensures
            r is Ok,
            r->Ok_0@ == hgetall_of_argv(argv@),
    {
        if argv.len() != 1 {
            return Ok(Hgetall::new_invalid());
        }
        let key = &argv[0];
        Ok(Hgetall::new(key.as_str()))
    }

    /// Decides what is done for the request. `txn_api` says whether
    /// transactional execution is switched on.
    pub fn hgetall(&self, txn_api: bool) -> (dispatch: Dispatch)
        ensures
            dispatch@ == hgetall_dispatch(self@, txn_api),
    {
        if !self.valid {
            return Dispatch::Reply(Frame::Error(Fault::InvalidArguments));
        }
        if txn_api {
            Dispatch::Run(Command::hash_get_all(self.key.as_str().as_bytes(), true, true))
        } else {
            Dispatch::Reply(Frame::Error(Fault::NotSupported))
        }
    }
}

} // verus!
