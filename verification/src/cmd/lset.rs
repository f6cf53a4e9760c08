//! `LSET key index element`: replaces one element of a list in place.

use vstd::prelude::*;
use vstd::utf8::encode_utf8;
use crate::buffer::{contents, empty_buffer, buffer_of_string, buffer_of_vec, buffer_to_vec};
use crate::cmd::{Dispatch, DispatchView};
use crate::command::{Command, CommandView};
use crate::frame::{Fault, Frame, FrameView};
use crate::parse::{Parse, ParseError, as_text, as_number, as_bytes};
use crate::text::{decimal_i64, parse_decimal};

verus! {

/// A request to replace a list element.
#[derive(Debug)]
pub struct Lset {
    key: String,
    idx: i64,
    element: bytes::Bytes,
    valid: bool,
}

/// A request as a mathematical value.
pub struct LsetView {
    pub key: Seq<char>,
    /// The position; a negative one counts from the end of the list.
    pub idx: i64,
    pub element: Seq<u8>,
    /// Whether the arguments had the number and the types the verb takes.
    pub valid: bool,
}

/// The request that stands for arguments that did not fit.
pub open spec fn invalid_lset() -> LsetView {
    LsetView { key: Seq::empty(), idx: 0, element: Seq::empty(), valid: false }
}

/// The request that a list of text arguments makes: valid where it is
/// exactly three arguments, the second of them a decimal number.
pub open spec fn lset_of_argv(argv: Seq<String>) -> LsetView {
    if argv.len() == 3 && decimal_i64(argv[1]@) is Some {
        LsetView {
            key: argv[0]@,
            idx: decimal_i64(argv[1]@)->0,
            element: encode_utf8(argv[2]@),
            valid: true,
        }
    } else {
        invalid_lset()
    }
}

/// Whether the first three argument frames are there and are a text, a
/// number and bytes.
pub open spec fn lset_frames_fit(args: Seq<FrameView>) -> bool {
    args.len() >= 3 && as_text(args[0]) is Some && as_number(args[1]) is Some && as_bytes(
        args[2],
    ) is Some
}

/// The request that a sequence of argument frames makes.
pub open spec fn lset_of_frames(args: Seq<FrameView>) -> LsetView {
    if lset_frames_fit(args) {
        LsetView {
            key: as_text(args[0])->0,
            idx: as_number(args[1])->0,
            element: as_bytes(args[2])->0,
            valid: true,
        }
    } else {
        invalid_lset()
    }
}

/// How many argument frames are consumed: reading stops behind the first
/// frame that does not fit.
pub open spec fn lset_frames_read(args: Seq<FrameView>) -> int {
    if args.len() == 0 {
        0
    } else if args.len() == 1 || as_text(args[0]) is None {
        1
    } else if args.len() == 2 || as_number(args[1]) is None {
        2
    } else {
        3
    }
}

/// What is done for a request: an invalid one is answered at once, so is any
/// while transactional execution is switched off; else the element is
/// replaced.
pub open spec fn lset_dispatch(request: LsetView, txn_api: bool) -> DispatchView {
    if !request.valid {
        DispatchView::Reply(FrameView::Error(Fault::InvalidArguments))
    } else if !txn_api {
        DispatchView::Reply(FrameView::Error(Fault::NotSupported))
    } else {
        DispatchView::Run(
            CommandView::ListSet {
                key: encode_utf8(request.key),
                index: request.idx,
                element: request.element,
            },
        )
    }
}

impl View for Lset {
    type V = LsetView;

    closed spec fn view(&self) -> LsetView {
        LsetView {
            key: self.key@,
            idx: self.idx,
            element: contents(self.element),
            valid: self.valid,
        }
    }
}

impl Lset {
    pub fn new(key: &str, idx: i64, ele: bytes::Bytes) -> (request: Lset)
        ensures
            request@ == (LsetView { key: key@, idx, element: contents(ele), valid: true }),
    {
        Lset { key: key.to_owned(), idx, element: ele, valid: true }
    }

    pub fn new_invalid() -> (request: Lset)
        ensures
            request@ == invalid_lset(),
    {
        Lset { key: String::new(), idx: 0, element: empty_buffer(), valid: false }
    }

    pub fn key(&self) -> (key: &str)
        ensures
            key@ == self@.key,
    {
        self.key.as_str()
    }

    /// The position asked for.
    pub fn index(&self) -> (idx: i64)
        ensures
            idx == self@.idx,
    {
        self.idx
    }

    /// The new element.
    pub fn element(&self) -> (element: Vec<u8>)
        ensures
            element@ == self@.element,
    {
        buffer_to_vec(&self.element)
    }

    /// Whether the arguments fitted.
    pub fn is_valid(&self) -> (valid: bool)
        ensures
            valid == self@.valid,
    {
        self.valid
    }

    /// Builds the request from a key, what the reading of the position gave,
    /// and the element: invalid where the position was no number.
    pub fn from_parts(key: &str, idx: Option<i64>, element: bytes::Bytes) -> (request: Lset)
        ensures
            request@ == match idx {
                Some(n) => LsetView { key: key@, idx: n, element: contents(element), valid: true },
                None => invalid_lset(),
            },
    {
        match idx {
            Some(n) => Lset::new(key, n, element),
            None => Lset::new_invalid(),
        }
    }

    /// Builds the request from argument frames. Arguments that do not fit
    /// give an invalid request, never an error.
    pub fn parse_frames(parse: &mut Parse) -> (r: Result<Lset, ParseError>)
        ensures
            r is Ok,
            r->Ok_0@ == lset_of_frames(old(parse).remaining()),
            final(parse).remaining() == old(parse).remaining().skip(
                lset_frames_read(old(parse).remaining()),
            ),
    {
        let ghost args = parse.remaining();
        assert(args.skip(0) =~= args);
        let key = match parse.next_string() {
            Ok(key) => key,
            Err(_) => {
                return Ok(Lset::new_invalid());
            },
        };
        proof {
            if args.len() > 1 {
                assert(args.skip(1).skip(1) =~= args.skip(2));
                assert(args.skip(1)[0] == args[1]);
            }
        }
        let idx = match parse.next_int() {
            Ok(idx) => idx,
            Err(_) => {
                return Ok(Lset::new_invalid());
            },
        };
        proof {
            if args.len() > 2 {
                assert(args.skip(2).skip(1) =~= args.skip(3));
                assert(args.skip(2)[0] == args[2]);
            }
        }
        let element = match parse.next_bytes() {
            Ok(element) => element,
            Err(_) => {
                return Ok(Lset::new_invalid());
            },
        };
        Ok(Lset { key, idx, element: buffer_of_vec(element), valid: true })
    }

    /// Builds the request from text arguments. Arguments that do not fit
    /// give an invalid request, never an error.
    pub fn parse_argv(argv: &Vec<String>) -> (r: Result<Lset, ParseError>)
        ensures
            r is Ok,
            r->Ok_0@ == lset_of_argv(argv@),
    {
        if argv.len() != 3 {
            return Ok(Lset::new_invalid());
        }
        let key = &argv[0];
        let idx = parse_decimal(argv[1].as_str());
        if idx.is_none() {
            return Ok(Lset::new_invalid());
        }
        let ele = buffer_of_string(argv[2].clone());
        Ok(Lset::from_parts(key.as_str(), idx, ele))
    }

    /// Decides what is done for the request. `txn_api` says whether
    /// transactional execution is switched on.
    pub fn lset(&self, txn_api: bool) -> (dispatch: Dispatch)
        ensures
            dispatch@ == lset_dispatch(self@, txn_api),
    {
        if !self.valid {
            return Dispatch::Reply(Frame::Error(Fault::InvalidArguments));
        }
        if txn_api {
            let element = buffer_to_vec(&self.element);
            Dispatch::Run(
                Command::list_set_by_index(
                    self.key.as_str().as_bytes(),
                    self.idx,
                    element.as_slice(),
                ),
            )
        } else {
            Dispatch::Reply(Frame::Error(Fault::NotSupported))
        }
    }
}

} // verus!
