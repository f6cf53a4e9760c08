//! Text arguments: decimal numbers and UTF-8.

use vstd::prelude::*;
use vstd::string::is_ascii;
use vstd::utf8::{encode_utf8, valid_utf8, is_ascii_chars, is_ascii_chars_encode_utf8};

verus! {

/// The largest magnitude a signed 64-bit number has: that of its minimum.
pub const MAGNITUDE_LIMIT: u64 = 0x8000_0000_0000_0000;

/// An ASCII decimal digit.
pub open spec fn is_digit(c: char) -> bool {
    '0' <= c <= '9'
}

/// Every character is a decimal digit.
pub open spec fn all_digits(s: Seq<char>) -> bool {
    forall|i: int| 0 <= i < s.len() ==> is_digit(#[trigger] s[i])
}

/// The number that a string of decimal digits stands for.
pub open spec fn digits_value(s: Seq<char>) -> nat
    decreases s.len(),
{
    if s.len() == 0 {
        0
    } else {
        digits_value(s.drop_last()) * 10 + (s.last() as u32 - 48) as nat
    }
}

/// Whether a number's text starts with a minus sign.
pub open spec fn is_negative(text: Seq<char>) -> bool {
    text.len() > 0 && text[0] == '-'
}

/// A number's text without its sign.
pub open spec fn unsigned_part(text: Seq<char>) -> Seq<char> {
    if text.len() > 0 && (text[0] == '-' || text[0] == '+') {
        text.skip(1)
    } else {
        text
    }
}

/// The signed 64-bit number that `text` spells in decimal: an optional sign
/// and then one digit or more, nothing before, between or after them.
/// `None` where `text` is not of that form or the number does not fit.
pub open spec fn decimal_i64(text: Seq<char>) -> Option<i64> {
    let body = unsigned_part(text);
    let v: int = if is_negative(text) {
        -(digits_value(body) as int)
    } else {
        digits_value(body) as int
    };
    if body.len() > 0 && all_digits(body) && i64::MIN <= v <= i64::MAX {
        Some(v as i64)
    } else {
        None
    }
}

/// A string of digits stands for at least as much as any of its beginnings.
pub proof fn lemma_digits_value_grows(s: Seq<char>, k: int)
    requires
        all_digits(s),
        0 <= k <= s.len(),
    ensures
        digits_value(s.take(k)) <= digits_value(s),
    decreases s.len(),
{
    if k == s.len() {
        assert(s.take(k) =~= s);
    } else {
        assert(s.drop_last().take(k) =~= s.take(k));
        assert(is_digit(s.last()));
        lemma_digits_value_grows(s.drop_last(), k);
    }
}

/// Reads a signed decimal number.
pub fn parse_decimal(text: &str) -> (r: Option<i64>)
    ensures
        r == decimal_i64(text@),
{
    let ghost body = unsigned_part(text@);
    if !text.is_ascii() {
        proof {
            if body.len() > 0 && all_digits(body) {
                assert forall|j: int| 0 <= j < text@.len() implies '\0' <= #[trigger] text@[j]
                    <= '\u{7f}' by {
                    if body.len() == text@.len() {
                        assert(is_digit(body[j]));
                    } else if j > 0 {
                        assert(is_digit(body[j - 1]));
                    }
                }
                assert(is_ascii_chars(text@));
            }
        }
        return None;
    }
    let bytes = text.as_bytes();
    proof {
        is_ascii_chars_encode_utf8(text@);
    }
    let n: usize = bytes.len();
    if n == 0 {
        return None;
    }
    let negative: bool = bytes[0] == 45;
    assert(text@[0] as u8 == bytes@[0]);
    assert('\0' <= text@[0] <= '\u{7f}');
    let start: usize = if bytes[0] == 45 || bytes[0] == 43 {
        1
    } else {
        0
    };
    assert(body =~= text@.skip(start as int));
    if start == n {
        return None;
    }
    let mut magnitude: u64 = 0;
    let mut i: usize = start;
    assert(body.take(0) =~= Seq::<char>::empty());
    while i < n
        invariant
            start <= i <= n,
            n == text@.len(),
            n == bytes@.len(),
            body == text@.skip(start as int),
            body == unsigned_part(text@),
            negative == is_negative(text@),
            is_ascii_chars(text@),
            forall|j: int| 0 <= j < n ==> text@[j] as u8 == #[trigger] bytes@[j],
            all_digits(body.take(i - start)),
            magnitude == digits_value(body.take(i - start)),
            magnitude <= MAGNITUDE_LIMIT,
        decreases n - i,
    {
        let d: u8 = bytes[i];
        let ghost c = body[i - start];
        assert(c == text@[i as int]);
        assert('\0' <= c <= '\u{7f}');
        assert(c as u8 == d);
        if d < 48 || d > 57 {
            assert(!is_digit(c));
            return None;
        }
        proof {
            assert(body.take(i + 1 - start).drop_last() =~= body.take(i - start));
            assert(body.take(i + 1 - start).last() == c);
            assert(digits_value(body.take(i + 1 - start)) == magnitude * 10 + (d - 48));
            if all_digits(body) {
                lemma_digits_value_grows(body, i + 1 - start);
            }
        }
        if magnitude > 922337203685477580 {
            return None;
        }
        let next: u64 = magnitude * 10 + (d - 48) as u64;
        if next > MAGNITUDE_LIMIT {
            return None;
        }
        magnitude = next;
        proof {
            assert forall|j: int| 0 <= j < body.take(i + 1 - start).len() implies is_digit(
                #[trigger] body.take(i + 1 - start)[j],
            ) by {
                if j < i - start {
                    assert(body.take(i - start)[j] == body[j]);
                }
            }
        }
        i += 1;
    }
    assert(body.take(n - start) =~= body);
    if negative {
        if magnitude == MAGNITUDE_LIMIT {
            Some(i64::MIN)
        } else {
            Some(-(magnitude as i64))
        }
    } else if magnitude > 0x7fff_ffff_ffff_ffff {
        None
    } else {
        Some(magnitude as i64)
    }
}

/// The text that `bytes` encode in UTF-8, if they encode any.
///
/// Calls `std::str::from_utf8` and copies the string slice it returns. The
/// contract says what the standard library documents of that function: it
/// succeeds exactly on valid UTF-8, and the string is those very bytes.
#[verifier::external_body]
pub(crate) fn text_of_utf8(bytes: &[u8]) -> (text: Option<String>)
    ensures
        text is Some <==> valid_utf8(bytes@),
        text is Some ==> encode_utf8(text->0@) == bytes@,
{
    match std::str::from_utf8(bytes) {
        Ok(s) => Some(s.to_owned()),
        Err(_) => None,
    }
}

} // verus!
