//! Byte buffers of the `bytes` crate, which list elements arrive in.
//!
//! Nothing here is proved: the contracts say what the crate's source shows of
//! each function, and the rest of the library builds on them.

use vstd::prelude::*;
use vstd::utf8::encode_utf8;

verus! {

/// `bytes::Bytes`, a cheaply cloneable buffer of bytes. Only its contents
/// are spoken of, and only through the functions below.
#[verifier::external_type_specification]
#[verifier::external_body]
pub struct ExBytes(bytes::Bytes);

/// The bytes that a buffer holds, first to last.
pub uninterp spec fn contents(b: bytes::Bytes) -> Seq<u8>;

/// `Bytes::new`: a buffer that holds nothing.
#[verifier::external_body]
pub(crate) fn empty_buffer() -> (b: bytes::Bytes)
    ensures
        contents(b) == Seq::<u8>::empty(),
{
    bytes::Bytes::new()
}

/// `Bytes::from(String)`: a buffer that holds the string's bytes, which are
/// its UTF-8 encoding.
#[verifier::external_body]
pub(crate) fn buffer_of_string(s: String) -> (b: bytes::Bytes)
    ensures
        contents(b) == encode_utf8(s@),
{
    bytes::Bytes::from(s)
}

/// `Bytes::from(Vec<u8>)`: a buffer that holds the vector's bytes.
#[verifier::external_body]
pub(crate) fn buffer_of_vec(v: Vec<u8>) -> (b: bytes::Bytes)
    ensures
        contents(b) == v@,
{
    bytes::Bytes::from(v)
}

/// The slice that a `Bytes` dereferences to, copied into a vector: the
/// buffer's bytes.
#[verifier::external_body]
pub(crate) fn buffer_to_vec(b: &bytes::Bytes) -> (v: Vec<u8>)
    ensures
        v@ == contents(*b),
{
    b.as_ref().to_vec()
}

} // verus!
