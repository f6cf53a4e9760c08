//! The arguments of a command as the protocol layer hands them over: a
//! sequence of frames, read one by one.

use vstd::prelude::*;
use vstd::utf8::{encode_utf8, decode_utf8, valid_utf8, encode_utf8_decode_utf8};
use crate::frame::{Frame, FrameView};
use crate::octets::to_vec;
use crate::text::{decimal_i64, parse_decimal, text_of_utf8};

verus! {

/// Why an argument could not be read.
#[derive(Clone, Copy, Debug, PartialEq, Eq, Structural)]
pub enum ParseError {
    /// No argument is left.
    EndOfStream,
    /// The argument is not of the type asked for.
    Protocol,
}

/// The frames that a vector holds.
pub open spec fn frames(v: Seq<Frame>) -> Seq<FrameView> {
    Seq::new(v.len(), |i: int| v[i]@)
}

/// The text that a frame stands for: a status line as it is, a bulk value
/// where it is UTF-8.
pub open spec fn as_text(f: FrameView) -> Option<Seq<char>> {
    match f {
        FrameView::Simple(s) => Some(s),
        FrameView::Bulk(b) => if valid_utf8(b) {
            Some(decode_utf8(b))
        } else {
            None
        },
        _ => None,
    }
}

/// The number that a frame stands for: a number as it is, text where it
/// spells one in decimal.
pub open spec fn as_number(f: FrameView) -> Option<i64> {
    match f {
        FrameView::Integer(n) => Some(n),
        FrameView::Simple(s) => decimal_i64(s),
        FrameView::Bulk(b) => if valid_utf8(b) {
            decimal_i64(decode_utf8(b))
        } else {
            None
        },
        _ => None,
    }
}

/// The bytes that a frame stands for: a bulk value as it is, a status line
/// in UTF-8.
pub open spec fn as_bytes(f: FrameView) -> Option<Seq<u8>> {
    match f {
        FrameView::Simple(s) => Some(encode_utf8(s)),
        FrameView::Bulk(b) => Some(b),
        _ => None,
    }
}

/// A cursor over the arguments of one command.
#[derive(Debug)]
pub struct Parse {
    parts: Vec<Frame>,
    next: usize,
}

impl Parse {
    /// The arguments not read yet.
    pub closed spec fn remaining(&self) -> Seq<FrameView> {
        if self.next <= self.parts@.len() {
            frames(self.parts@).skip(self.next as int)
        } else {
            Seq::empty()
        }
    }

    /// A cursor in front of the first of `parts`.
    pub fn new(parts: Vec<Frame>) -> (parse: Parse)
        ensures
            parse.remaining() == frames(parts@),
    {
        let parse = Parse { parts, next: 0 };
        assert(parse.remaining() =~= frames(parts@));
        parse
    }

    /// How many arguments are left.
    pub fn len(&self) -> (n: usize)
        ensures
            n == self.remaining().len(),
    {
        if self.next <= self.parts.len() {
            self.parts.len() - self.next
        } else {
            0
        }
    }

    /// Steps over the next argument, if there is one, and says where it is.
    fn advance(&mut self) -> (at: Option<usize>)
        ensures
            final(self).parts == old(self).parts,
            match at {
                None => old(self).remaining().len() == 0 && final(self).remaining() == old(
                    self,
                ).remaining(),
                Some(i) => i < old(self).parts@.len() && old(self).remaining().len() > 0 && old(
                    self,
                ).parts@[i as int]@ == old(self).remaining()[0] && final(self).remaining() == old(
                    self,
                ).remaining().skip(1),
            },
    {
        if self.next < self.parts.len() {
            let i: usize = self.next;
            self.next = i + 1;
            assert(final(self).remaining() =~= old(self).remaining().skip(1));
            Some(i)
        } else {
            None
        }
    }

    /// Reads the next argument as text. The argument is consumed even where
    /// it is no text.
    pub fn next_string(&mut self) -> (r: Result<String, ParseError>)
        ensures
            old(self).remaining().len() == 0 ==> r == Err::<String, ParseError>(
                ParseError::EndOfStream,
            ) && final(self).remaining() == old(self).remaining(),
            old(self).remaining().len() > 0 ==> final(self).remaining() == old(
                self,
            ).remaining().skip(1) && match as_text(old(self).remaining()[0]) {
                Some(t) => r is Ok && r->Ok_0@ == t,
                None => r == Err::<String, ParseError>(ParseError::Protocol),
            },
    {
        let i = match self.advance() {
            Some(i) => i,
            None => {
                return Err(ParseError::EndOfStream);
            },
        };
        match &self.parts[i] {
            Frame::Simple(s) => Ok(s.clone()),
            Frame::Bulk(b) => match text_of_utf8(b.as_slice()) {
                Some(t) => {
                    proof {
                        encode_utf8_decode_utf8(t@);
                    }
                    Ok(t)
                },
                None => Err(ParseError::Protocol),
            },
            _ => Err(ParseError::Protocol),
        }
    }

    /// Reads the next argument as a number. The argument is consumed even
    /// where it is no number.
    pub fn next_int(&mut self) -> (r: Result<i64, ParseError>)
        ensures
            old(self).remaining().len() == 0 ==> r == Err::<i64, ParseError>(
                ParseError::EndOfStream,
            ) && final(self).remaining() == old(self).remaining(),
            old(self).remaining().len() > 0 ==> final(self).remaining() == old(
                self,
            ).remaining().skip(1) && match as_number(old(self).remaining()[0]) {
                Some(n) => r == Ok::<i64, ParseError>(n),
                None => r == Err::<i64, ParseError>(ParseError::Protocol),
            },
    {
        let i = match self.advance() {
            Some(i) => i,
            None => {
                return Err(ParseError::EndOfStream);
            },
        };
        let number = match &self.parts[i] {
            Frame::Integer(n) => Some(*n),
            Frame::Simple(s) => parse_decimal(s.as_str()),
            Frame::Bulk(b) => match text_of_utf8(b.as_slice()) {
                Some(t) => {
                    proof {
                        encode_utf8_decode_utf8(t@);
                    }
                    parse_decimal(t.as_str())
                },
                None => None,
            },
            _ => None,
        };
        match number {
            Some(n) => Ok(n),
            None => Err(ParseError::Protocol),
        }
    }

    /// Reads the next argument as bytes. The argument is consumed even where
    /// it holds none.
    pub fn next_bytes(&mut self) -> (r: Result<Vec<u8>, ParseError>)
        ensures
            old(self).remaining().len() == 0 ==> r == Err::<Vec<u8>, ParseError>(
                ParseError::EndOfStream,
            ) && final(self).remaining() == old(self).remaining(),
            old(self).remaining().len() > 0 ==> final(self).remaining() == old(
                self,
            ).remaining().skip(1) && match as_bytes(old(self).remaining()[0]) {
                Some(b) => r is Ok && r->Ok_0@ == b,
                None => r == Err::<Vec<u8>, ParseError>(ParseError::Protocol),
            },
    {
        let i = match self.advance() {
            Some(i) => i,
            None => {
                return Err(ParseError::EndOfStream);
            },
        };
        match &self.parts[i] {
            Frame::Simple(s) => Ok(to_vec(s.as_str().as_bytes())),
            Frame::Bulk(b) => Ok(to_vec(b.as_slice())),
            _ => Err(ParseError::Protocol),
        }
    }
}

} // verus!
