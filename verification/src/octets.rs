//! Payload bytes and names.
//!
//! Payloads are `bytes::Bytes`: buffers that are shared when they are copied, so
//! that a packet is retained for rebroadcast without being copied.

use bytes::Bytes;
use vstd::prelude::*;
use vstd::utf8;

verus! {

/// A shared buffer of bytes.
#[verifier::external_type_specification]
#[verifier::external_body]
pub struct ExBytes(Bytes);

/// The bytes that a buffer holds.
pub uninterp spec fn octets(b: Bytes) -> Seq<u8>;

/// Calls `Bytes::clone`: the copy is the same value, and so holds the same bytes.
#[verifier::external_body]
pub(crate) fn share(b: &Bytes) -> (r: Bytes)
    ensures
        r == *b,
{
    b.clone()
}

/// Calls `Bytes::as_ref`, which lends the bytes that the buffer holds.
#[verifier::external_body]
pub(crate) fn as_slice(b: &Bytes) -> (r: &[u8])
    ensures
        r@ == octets(*b),
{
    b.as_ref()
}

/// Calls `Bytes::from` on a vector: the buffer holds the bytes of the vector.
#[verifier::external_body]
pub(crate) fn from_vec(v: Vec<u8>) -> (r: Bytes)
    ensures
        octets(r) == v@,
{
    Bytes::from(v)
}

/// How many bytes a name takes in UTF-8.
pub open spec fn name_len(name: Seq<char>) -> nat {
    utf8::encode_utf8(name).len()
}

/// Returns the number of bytes in a buffer.
pub fn bytes_len(b: &Bytes) -> (n: usize)
    ensures
        n == octets(*b).len(),
{
    as_slice(b).len()
}

/// Returns `true` if the two slices hold the same bytes.
pub fn slices_eq(x: &[u8], y: &[u8]) -> (r: bool)
    ensures
        r == (x@ == y@),
{
    if x.len() != y.len() {
        return false;
    }
    let mut i: usize = 0;
    while i < x.len()
        invariant
            i <= x@.len(),
            x@.len() == y@.len(),
            forall|j: int| 0 <= j < i ==> #[trigger] x@[j] == y@[j],
        decreases x@.len() - i,
    {
        if x[i] != y[i] {
            return false;
        }
        i += 1;
    }
    assert(x@ =~= y@);
    true
}

/// Returns `true` if the two buffers hold the same bytes.
pub fn bytes_eq(a: &Bytes, b: &Bytes) -> (r: bool)
    ensures
        r == (octets(*a) == octets(*b)),
{
    slices_eq(as_slice(a), as_slice(b))
}

/// Returns `true` if the two strings are the same.
pub fn str_eq(a: &str, b: &str) -> (r: bool)
    ensures
        r == (a@ == b@),
{
    proof {
        utf8::encode_utf8_decode_utf8(a@);
        utf8::encode_utf8_decode_utf8(b@);
    }
    slices_eq(a.as_bytes(), b.as_bytes())
}

/// Returns the number of bytes in a name.
pub fn string_len(s: &String) -> (n: usize)
    ensures
        n == name_len(s@),
{
    s.as_str().as_bytes().len()
}

/// A name takes one byte for each character of ASCII, and two, three or four for the others,
/// the more the further back the character stands.
pub proof fn names_are_counted_in_bytes(name: Seq<char>)
    ensures
        name.len() == 0 ==> name_len(name) == 0,
        name.len() > 0 ==> name_len(name) == name_len(name.drop_first()) + if (name[0] as u32)
            < 0x80 {
            1nat
        } else if (name[0] as u32) < 0x800 {
            2nat
        } else if (name[0] as u32) < 0x1_0000 {
            3nat
        } else {
            4nat
        },
{
    if name.len() > 0 {
        utf8::char_is_scalar(name[0]);
    }
}

} // verus!
