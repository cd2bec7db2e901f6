//! Node ids and addresses.
//!
//! The machine compares ids and addresses and hands copies of them out; an id
//! has a wire form besides, by which members are put in order.

use memberlist_proto::{Data, DecodeError};
use vstd::prelude::*;

verus! {

/// A value that can be compared and copied exactly.
pub trait Value: Sized {
    /// Returns `true` if the two values are one and the same.
    fn same(&self, other: &Self) -> (r: bool)
        ensures
            r == (*self == *other),
    ;

    /// Returns a copy.
    fn dup(&self) -> (r: Self)
        ensures
            r == *self,
    ;
}

impl Value for u16 {
    fn same(&self, other: &Self) -> (r: bool) {
        *self == *other
    }

    fn dup(&self) -> (r: Self) {
        *self
    }
}

impl Value for u32 {
    fn same(&self, other: &Self) -> (r: bool) {
        *self == *other
    }

    fn dup(&self) -> (r: Self) {
        *self
    }
}

impl Value for u64 {
    fn same(&self, other: &Self) -> (r: bool) {
        *self == *other
    }

    fn dup(&self) -> (r: Self) {
        *self
    }
}

/// An IP address and a port. An IPv4 address stands in the low 32 bits.
#[derive(Debug, Clone, Copy, PartialEq, Eq, Structural, Hash)]
pub struct SocketAddress {
    /// Whether `ip` is an IPv6 address.
    pub v6: bool,
    /// The address, as a number.
    pub ip: u128,
    /// The port.
    pub port: u16,
}

impl Value for SocketAddress {
    fn same(&self, other: &Self) -> (r: bool) {
        *self == *other
    }

    fn dup(&self) -> (r: Self) {
        *self
    }
}

/// Why bytes do not start with a value.
#[derive(Debug, Clone, Copy, PartialEq, Eq, Structural)]
pub enum ReadFault {
    /// The bytes end too soon.
    Underflow,
    /// The bytes say a number too large for the type.
    Overflow,
}

/// A node id.
pub trait Id: Value {
    /// The bytes that stand for the id on the wire.
    spec fn wire(&self) -> Seq<u8>;

    /// What the head of `src` says: how many bytes were read, and the id.
    spec fn unwire(src: Seq<u8>) -> Result<(nat, Self), ReadFault>;

    /// The number of the wire type, under which a field that holds the id is
    /// tagged.
    spec fn wire_type_number() -> u8;

    /// Bytes that begin with the wire form of an id read back as that id.
    proof fn wire_reads_back(a: Self, rest: Seq<u8>)
        ensures
            Self::unwire(a.wire() + rest) == Ok::<(nat, Self), ReadFault>((a.wire().len(), a)),
    ;

    /// What is read lies within the bytes.
    proof fn unwire_within(src: Seq<u8>)
        ensures
            Self::unwire(src) matches Ok(v) ==> 0 < v.0 <= src.len(),
    ;

    /// Returns the wire form.
    fn encode_to_vec(&self) -> (r: Vec<u8>)
        ensures
            r@ == self.wire(),
    ;

    /// Reads an id off the head of `src`.
    fn decode(src: &[u8]) -> (r: Result<(usize, Self), ReadFault>)
        ensures
            match Self::unwire(src@) {
                Ok(v) => r matches Ok(w) && w.0 == v.0 && w.1 == v.1,
                Err(e) => r == Err::<(usize, Self), ReadFault>(e),
            },
    ;

    /// Returns the number of the wire type.
    fn wire_type() -> (r: u8)
        ensures
            r == Self::wire_type_number(),
            r < 32,
    ;
}

/// The LEB128 form of a number: seven bits a byte, the lowest first, with the top
/// bit set on every byte but the last.
pub open spec fn varint(x: nat) -> Seq<u8>
    decreases x,
{
    if x < 128 {
        seq![x as u8]
    } else {
        seq![(x % 128 + 128) as u8] + varint(x / 128)
    }
}

/// Reads the LEB128 form of a 32-bit number from byte `i` of `src` on: where the
/// next byte stands, and the number. A fifth byte may hold the top four bits
/// only.
pub open spec fn varint_from(src: Seq<u8>, i: nat) -> Result<(nat, nat), ReadFault>
    decreases 5 - i,
{
    if i >= 5 {
        Err(ReadFault::Overflow)
    } else if i >= src.len() {
        Err(ReadFault::Underflow)
    } else if i == 4 && src[4] >= 16 {
        Err(ReadFault::Overflow)
    } else if src[i as int] < 128 {
        Ok((i + 1, src[i as int] as nat))
    } else {
        match varint_from(src, i + 1) {
            Ok(r) => Ok((r.0, (src[i as int] - 128) as nat + 128 * r.1)),
            Err(e) => Err(e),
        }
    }
}

/// Calls `u32::encode_to_vec` of `memberlist_proto::Data`, which writes the LEB128
/// form. The buffer it writes to is as long as that form, so it does not fail.
#[verifier::external_body]
fn encode_u32(x: u32) -> (r: Vec<u8>)
    ensures
        r@ == varint(x as nat),
{
    Data::encode_to_vec(&x).unwrap_or_default()
}

/// Calls `u32::decode` of `memberlist_proto::Data`, which reads the LEB128 form of
/// a 32-bit number off the head of `src` and leaves what follows.
#[verifier::external_body]
fn decode_u32(src: &[u8]) -> (r: Result<(usize, u32), ReadFault>)
    ensures
        match varint_from(src@, 0) {
            Ok(v) => r matches Ok(w) && w.0 == v.0 && w.1 == v.1,
            Err(e) => r == Err::<(usize, u32), ReadFault>(e),
        },
{
    match <u32 as Data>::decode(src) {
        Ok(v) => Ok(v),
        Err(DecodeError::BufferUnderflow) => Err(ReadFault::Underflow),
        Err(_) => Err(ReadFault::Overflow),
    }
}

/// The powers of 128 up to the range of a 32-bit number.
pub open spec fn room(i: nat) -> nat {
    if i == 0 {
        0x1_0000_0000
    } else if i == 1 {
        0x200_0000
    } else if i == 2 {
        0x4_0000
    } else if i == 3 {
        0x800
    } else if i == 4 {
        16
    } else {
        0
    }
}

proof fn varint_reads_back_from(pre: Seq<u8>, x: nat, rest: Seq<u8>)
    requires
        pre.len() < 5,
        x < room(pre.len()),
    ensures
        varint(x).len() > 0,
        varint_from(pre + varint(x) + rest, pre.len()) == Ok::<(nat, nat), ReadFault>(
            (pre.len() + varint(x).len(), x),
        ),
    decreases x,
{
    let src = pre + varint(x) + rest;
    let i = pre.len();
    if x < 128 {
        assert(src[i as int] == x as u8);
    } else {
        let b = (x % 128 + 128) as u8;
        let pre2 = pre.push(b);
        assert(src[i as int] == b);
        assert(pre2 + varint(x / 128) + rest =~= src);
        varint_reads_back_from(pre2, x / 128, rest);
        assert(x == x % 128 + 128 * (x / 128));
    }
}

proof fn varint_from_within(src: Seq<u8>, i: nat)
    ensures
        varint_from(src, i) matches Ok(v) ==> i < v.0 <= src.len() && v.0 <= 5 && v.1 < room(i),
    decreases 5 - i,
{
    if i < 5 && i < src.len() {
        varint_from_within(src, i + 1);
    }
}

/// What is read of a number lies within the bytes and within its range.
pub proof fn varint_within(src: Seq<u8>)
    ensures
        varint_from(src, 0) matches Ok(v) ==> 0 < v.0 <= src.len() && v.1 <= u32::MAX,
{
    varint_from_within(src, 0);
}

/// A number reads back from its LEB128 form, whatever follows.
pub proof fn varint_reads_back(x: u32, rest: Seq<u8>)
    ensures
        varint_from(varint(x as nat) + rest, 0) == Ok::<(nat, nat), ReadFault>(
            (varint(x as nat).len(), x as nat),
        ),
{
    varint_reads_back_from(Seq::empty(), x as nat, rest);
    assert(Seq::<u8>::empty() + varint(x as nat) + rest =~= varint(x as nat) + rest);
}

impl Id for u32 {
    open spec fn wire(&self) -> Seq<u8> {
        varint(*self as nat)
    }

    open spec fn unwire(src: Seq<u8>) -> Result<(nat, Self), ReadFault> {
        match varint_from(src, 0) {
            Ok(v) => Ok((v.0, v.1 as u32)),
            Err(e) => Err(e),
        }
    }

    open spec fn wire_type_number() -> u8 {
        1
    }

    proof fn wire_reads_back(a: Self, rest: Seq<u8>) {
        varint_reads_back(a, rest);
    }

    proof fn unwire_within(src: Seq<u8>) {
        varint_from_within(src, 0);
    }

    fn encode_to_vec(&self) -> (r: Vec<u8>) {
        encode_u32(*self)
    }

    fn decode(src: &[u8]) -> (r: Result<(usize, Self), ReadFault>) {
        decode_u32(src)
    }

    fn wire_type() -> (r: u8) {
        1
    }
}

/// Two ids with one wire form are one id.
pub proof fn wire_is_injective<I: Id>(a: I, b: I)
    requires
        a.wire() == b.wire(),
    ensures
        a == b,
{
    I::wire_reads_back(a, Seq::empty());
    I::wire_reads_back(b, Seq::empty());
}

/// The number that bytes of seven bits stand for, the lowest first.
pub open spec fn number_in(bytes: Seq<u8>) -> nat
    decreases bytes.len(),
{
    if bytes.len() == 0 {
        0
    } else {
        (bytes[0] as nat) % 128 + 128 * number_in(bytes.drop_first())
    }
}

/// The bytes of a number stand for it, seven bits each and the lowest first. All but the last
/// have the top bit set.
pub proof fn numbers_are_written_low_first(x: nat)
    ensures
        varint(x).len() > 0,
        number_in(varint(x)) == x,
        varint(x).last() < 128,
        forall|i: int| 0 <= i < varint(x).len() - 1 ==> #[trigger] varint(x)[i] >= 128,
    decreases x,
{
    let s = varint(x);
    if x < 128 {
        reveal_with_fuel(number_in, 2);
        assert(s.drop_first() =~= Seq::<u8>::empty());
    } else {
        numbers_are_written_low_first(x / 128);
        let rest = varint(x / 128);
        assert(s.drop_first() =~= rest);
        assert(s[0] == x % 128 + 128);
        assert(s.last() == rest.last());
        assert forall|i: int| 0 <= i < s.len() - 1 implies #[trigger] s[i] >= 128 by {
            if i > 0 {
                assert(s[i] == rest[i - 1]);
            }
        }
    }
}

/// Bytes that end within a number are too few, and a number that goes on after five bytes, or
/// takes more than four bits of the fifth, is too large.
pub proof fn broken_numbers_are_refused(src: Seq<u8>)
    ensures
        src.len() < 5 && (forall|i: int| 0 <= i < src.len() ==> #[trigger] src[i] >= 128)
            ==> varint_from(src, 0) == Err::<(nat, nat), ReadFault>(ReadFault::Underflow),
        src.len() >= 5 && src[0] >= 128 && src[1] >= 128 && src[2] >= 128 && src[3] >= 128 && src[4]
            >= 16 ==> varint_from(src, 0) == Err::<(nat, nat), ReadFault>(ReadFault::Overflow),
{
    reveal_with_fuel(varint_from, 6);
}

} // verus!
