//! Filters that say which nodes a query is for, and their wire form.
//!
//! On the wire a filter is a head byte and a body. The head byte names the wire
//! type of the body and the variant; the body is the ids one after the other, or
//! the length of the tag filter and its bytes.

use crate::id;
use crate::id::{Id, ReadFault};
use core::marker::PhantomData;
use vstd::prelude::*;

verus! {

/// The number of the wire type under which a body is preceded by its length.
pub const LENGTH_DELIMITED: u8 = 2;

/// The wire types have the numbers below this one.
pub const WIRE_TYPES: u8 = 5;

/// The tag of a filter by ids.
pub const FILTER_ID_TAG: u8 = 1;

/// The tag of a filter by tag.
pub const FILTER_TAG_TAG: u8 = 2;

/// The type of a filter.
#[derive(Debug, Copy, Clone, PartialEq, Eq, Structural, Hash)]
pub enum FilterType {
    /// By node ids.
    Id,
    /// By tag.
    Tag,
    /// Unknown.
    Unknown(u8),
}

/// The decimal digits of a number.
pub open spec fn decimal(n: nat) -> Seq<char>
    decreases n,
{
    if n < 10 {
        seq![digit(n)]
    } else {
        decimal(n / 10).push(digit(n % 10))
    }
}

/// The character that stands for a number below ten.
pub open spec fn digit(n: nat) -> char {
    ('0' as nat + n) as char
}

fn digit_str(n: u8) -> (r: &'static str)
    requires
        n < 10,
    ensures
        r@ == seq![digit(n as nat)],
{
    proof {
        reveal_strlit("0");
        reveal_strlit("1");
        reveal_strlit("2");
        reveal_strlit("3");
        reveal_strlit("4");
        reveal_strlit("5");
        reveal_strlit("6");
        reveal_strlit("7");
        reveal_strlit("8");
        reveal_strlit("9");
    }
    let r = match n {
        0 => "0",
        1 => "1",
        2 => "2",
        3 => "3",
        4 => "4",
        5 => "5",
        6 => "6",
        7 => "7",
        8 => "8",
        _ => "9",
    };
    assert(r@ =~= seq![digit(n as nat)]);
    r
}

fn decimal_string(n: u8) -> (r: String)
    ensures
        r@ == decimal(n as nat),
    decreases n,
{
    if n < 10 {
        digit_str(n).to_string()
    } else {
        let mut head = decimal_string(n / 10);
        head.append(digit_str(n % 10));
        assert(head@ =~= decimal(n as nat));
        head
    }
}

impl FilterType {
    /// The name of the type.
    pub open spec fn name(self) -> Seq<char> {
        match self {
            FilterType::Id => "id"@,
            FilterType::Tag => "tag"@,
            FilterType::Unknown(val) => "unknown("@ + decimal(val as nat) + ")"@,
        }
    }

    /// Returns the name of the type.
    pub fn as_str(&self) -> (r: String)
        ensures
            r@ == self.name(),
    {
        match self {
            FilterType::Id => "id".to_string(),
            FilterType::Tag => "tag".to_string(),
            FilterType::Unknown(val) => {
                let mut s = "unknown(".to_string();
                s.append(decimal_string(*val).as_str());
                s.append(")");
                s
            },
        }
    }

    /// Returns `true` for [`FilterType::Id`].
    pub fn is_id(&self) -> (r: bool)
        ensures
            r == (*self is Id),
    {
        matches!(self, FilterType::Id)
    }

    /// Returns `true` for [`FilterType::Tag`].
    pub fn is_tag(&self) -> (r: bool)
        ensures
            r == (*self is Tag),
    {
        matches!(self, FilterType::Tag)
    }

    /// Returns `true` for [`FilterType::Unknown`].
    pub fn is_unknown(&self) -> (r: bool)
        ensures
            r == (*self is Unknown),
    {
        matches!(self, FilterType::Unknown(_))
    }

    /// The type with the given number.
    pub open spec fn of_number(value: u8) -> Self {
        if value == 0 {
            FilterType::Id
        } else if value == 1 {
            FilterType::Tag
        } else {
            FilterType::Unknown(value)
        }
    }

    /// The number of the type.
    pub open spec fn number(self) -> u8 {
        match self {
            FilterType::Id => 0,
            FilterType::Tag => 1,
            FilterType::Unknown(value) => value,
        }
    }
}

impl vstd::std_specs::convert::FromSpecImpl<u8> for FilterType {
    open spec fn obeys_from_spec() -> bool {
        true
    }

    open spec fn from_spec(value: u8) -> FilterType {
        FilterType::of_number(value)
    }
}

impl From<u8> for FilterType {
    fn from(value: u8) -> (r: FilterType) {
        match value {
            0 => FilterType::Id,
            1 => FilterType::Tag,
            val => FilterType::Unknown(val),
        }
    }
}

impl vstd::std_specs::convert::FromSpecImpl<FilterType> for u8 {
    open spec fn obeys_from_spec() -> bool {
        true
    }

    open spec fn from_spec(val: FilterType) -> u8 {
        val.number()
    }
}

impl From<FilterType> for u8 {
    fn from(val: FilterType) -> (r: u8) {
        match val {
            FilterType::Id => 0,
            FilterType::Tag => 1,
            FilterType::Unknown(val) => val,
        }
    }
}

/// Every number is the number of the type that it stands for.
pub proof fn filter_type_numbers_round_trip(value: u8)
    ensures
        FilterType::of_number(value).number() == value,
{
}

/// A filter by tag: the key must be there and, where there is an expression, its
/// value must match.
#[derive(Debug)]
pub struct TagFilter {
    /// The key.
    pub tag: String,
    /// The expression.
    pub expr: Option<String>,
}

/// Which nodes a query is for.
#[derive(Debug)]
pub enum Filter<I> {
    /// The nodes with these ids.
    Id(Vec<I>),
    /// The nodes with this tag.
    Tag(TagFilter),
}

impl<I> Filter<I> {
    /// Returns the type of the filter.
    pub fn ty(&self) -> (r: FilterType)
        ensures
            r == (if self is Id {
                FilterType::Id
            } else {
                FilterType::Tag
            }),
    {
        match self {
            Filter::Id(_) => FilterType::Id,
            Filter::Tag(_) => FilterType::Tag,
        }
    }

    /// Returns `true` for [`Filter::Id`].
    pub fn is_id(&self) -> (r: bool)
        ensures
            r == (*self is Id),
    {
        matches!(self, Filter::Id(_))
    }

    /// Returns `true` for [`Filter::Tag`].
    pub fn is_tag(&self) -> (r: bool)
        ensures
            r == (*self is Tag),
    {
        matches!(self, Filter::Tag(_))
    }
}

/// The head byte for a wire type and a tag below eight.
pub open spec fn head_byte(wire_type: u8, tag: u8) -> u8 {
    (wire_type * 8 + tag) as u8
}

/// The bytes of a field: its body, preceded by its length under the
/// length-delimited wire type. The length is a 32-bit number.
pub open spec fn field_bytes(wire_type: u8, body: Seq<u8>) -> Seq<u8> {
    if wire_type == LENGTH_DELIMITED {
        id::varint(body.len() % 0x1_0000_0000) + body
    } else {
        body
    }
}

/// Whether a body has a length that its field can carry.
pub open spec fn carriable(wire_type: u8, body: Seq<u8>) -> bool {
    wire_type == LENGTH_DELIMITED ==> body.len() <= u32::MAX
}

/// The fields of ids, one after the other.
pub open spec fn ids_bytes<I: Id>(ids: Seq<I>) -> Seq<u8>
    decreases ids.len(),
{
    if ids.len() == 0 {
        Seq::empty()
    } else {
        field_bytes(I::wire_type_number(), ids[0].wire()) + ids_bytes(ids.drop_first())
    }
}

/// The body that the head of `src` holds under the length-delimited wire type: the
/// place behind the length, and the length.
pub open spec fn read_length(src: Seq<u8>) -> Result<(nat, nat), ReadFault> {
    match id::varint_from(src, 0) {
        Ok(v) => if v.0 + v.1 > src.len() {
            Err(ReadFault::Underflow)
        } else {
            Ok(v)
        },
        Err(e) => Err(e),
    }
}

/// What the field of an id at the head of `src` says: how many bytes were read,
/// and the id.
pub open spec fn read_field<I: Id>(src: Seq<u8>) -> Result<(nat, I), ReadFault> {
    if I::wire_type_number() == LENGTH_DELIMITED {
        match read_length(src) {
            Ok(v) => match I::unwire(src.subrange(v.0 as int, (v.0 + v.1) as int)) {
                Ok(w) => Ok((v.0 + w.0, w.1)),
                Err(e) => Err(e),
            },
            Err(e) => Err(e),
        }
    } else {
        I::unwire(src)
    }
}

/// The ids that the fields in `src` say, up to its end.
pub open spec fn read_ids<I: Id>(src: Seq<u8>) -> Result<Seq<I>, ReadFault>
    decreases src.len(),
{
    if src.len() == 0 {
        Ok(Seq::empty())
    } else {
        match read_field::<I>(src) {
            Ok(v) => if 0 < v.0 <= src.len() {
                match read_ids::<I>(src.skip(v.0 as int)) {
                    Ok(rest) => Ok(seq![v.1] + rest),
                    Err(e) => Err(e),
                }
            } else {
                Err(ReadFault::Underflow)
            },
            Err(e) => Err(e),
        }
    }
}

/// Why a filter could not be written.
#[derive(Debug, Clone, Copy, PartialEq, Eq, Structural)]
pub enum EncodeFault {
    /// The buffer is too short.
    InsufficientBuffer {
        /// The length that was asked for.
        required: usize,
        /// The length of the buffer.
        remaining: usize,
    },
    /// A body is too long for its length to be written.
    TooLarge,
}

/// Why bytes are not a filter.
#[derive(Debug, Clone, Copy, PartialEq, Eq, Structural)]
pub enum DecodeFault {
    /// The bytes end too soon.
    BufferUnderflow,
    /// A number is out of range.
    LengthDelimitedOverflow,
    /// The head byte names no wire type.
    UnknownWireType {
        /// The number of the wire type.
        value: u8,
    },
    /// The head byte names no variant.
    UnknownTag {
        /// The tag.
        tag: u8,
    },
    /// The body of a tag filter is not one, for a reason of its own.
    Tag,
}

/// What a fault in a field is of the filter.
pub open spec fn fault_of(e: ReadFault) -> DecodeFault {
    match e {
        ReadFault::Underflow => DecodeFault::BufferUnderflow,
        ReadFault::Overflow => DecodeFault::LengthDelimitedOverflow,
    }
}

fn to_decode_fault(e: ReadFault) -> (r: DecodeFault)
    ensures
        r == fault_of(e),
{
    match e {
        ReadFault::Underflow => DecodeFault::BufferUnderflow,
        ReadFault::Overflow => DecodeFault::LengthDelimitedOverflow,
    }
}

/// What a filter holds that is written: the ids, or the bytes of the tag filter.
#[verifier::ext_equal]
pub enum FilterBody<I> {
    /// Ids.
    Ids(Seq<I>),
    /// The bytes of a tag filter.
    Tag(Seq<u8>),
}

impl<I: Id> FilterBody<I> {
    /// The wire form.
    pub open spec fn wire(self) -> Seq<u8> {
        match self {
            FilterBody::Ids(ids) => seq![head_byte(I::wire_type_number(), FILTER_ID_TAG)]
                + ids_bytes(ids),
            FilterBody::Tag(tag) => seq![head_byte(LENGTH_DELIMITED, FILTER_TAG_TAG)]
                + field_bytes(LENGTH_DELIMITED, tag),
        }
    }

    /// The length that a filter announces: that of its wire form, and one more for
    /// a filter by tag.
    pub open spec fn announced_len(self) -> nat {
        match self {
            FilterBody::Ids(_) => self.wire().len(),
            FilterBody::Tag(_) => self.wire().len() + 1,
        }
    }

    /// What stops the ids from `i` on from being written to `room` bytes: the first
    /// id that cannot be carried or that does not fit.
    pub open spec fn ids_fault(ids: Seq<I>, room: int) -> Option<bool>
        decreases ids.len(),
    {
        if ids.len() == 0 {
            None
        } else if !carriable(I::wire_type_number(), ids[0].wire()) {
            Some(true)
        } else {
            let n = field_bytes(I::wire_type_number(), ids[0].wire()).len();
            if n > room {
                Some(false)
            } else {
                Self::ids_fault(ids.drop_first(), room - n)
            }
        }
    }

    /// What stops the filter from being written to a buffer of the given length:
    /// `Some(true)` for a body that is too long to be carried, `Some(false)` for a
    /// buffer that is too short.
    pub open spec fn write_fault(self, buf_len: nat) -> Option<bool> {
        if buf_len < 1 {
            Some(false)
        } else {
            match self {
                FilterBody::Ids(ids) => Self::ids_fault(ids, buf_len - 1),
                FilterBody::Tag(tag) => if tag.len() > u32::MAX {
                    Some(true)
                } else if self.wire().len() > buf_len {
                    Some(false)
                } else {
                    None
                },
            }
        }
    }
}

/// The body of a filter, where `tag` are the bytes of its tag filter.
pub open spec fn filter_body<I>(filter: Filter<I>, tag: Seq<u8>) -> FilterBody<I> {
    match filter {
        Filter::Id(ids) => FilterBody::Ids(ids@),
        Filter::Tag(_) => FilterBody::Tag(tag),
    }
}

/// How many bytes the LEB128 form of a number takes.
fn varint_len(x: u32) -> (n: usize)
    ensures
        n == id::varint(x as nat).len(),
        n <= 5,
{
    proof {
        reveal_with_fuel(id::varint, 6);
    }
    if x < 0x80 {
        1
    } else if x < 0x4000 {
        2
    } else if x < 0x20_0000 {
        3
    } else if x < 0x1000_0000 {
        4
    } else {
        5
    }
}

/// The length of a body as its field carries it.
fn length_number(body: &[u8]) -> (r: u32)
    ensures
        r == body@.len() % 0x1_0000_0000,
{
    (body.len() as u64 % 0x1_0000_0000) as u32
}

fn field_len(wire_type: u8, body: &[u8]) -> (n: usize)
    requires
        field_bytes(wire_type, body@).len() <= usize::MAX,
    ensures
        n == field_bytes(wire_type, body@).len(),
{
    if wire_type == LENGTH_DELIMITED {
        varint_len(length_number(body)) + body.len()
    } else {
        body.len()
    }
}

fn append_bytes(out: &mut Vec<u8>, bytes: &[u8])
    ensures
        final(out)@ == old(out)@ + bytes@,
{
    let mut i: usize = 0;
    while i < bytes.len()
        invariant
            i <= bytes@.len(),
            out@ == old(out)@ + bytes@.take(i as int),
        decreases bytes@.len() - i,
    {
        assert(bytes@.take(i + 1) =~= bytes@.take(i as int).push(bytes@[i as int]));
        out.push(bytes[i]);
        i += 1;
    }
    assert(bytes@.take(i as int) =~= bytes@);
}

fn field(wire_type: u8, body: &[u8]) -> (r: Vec<u8>)
    ensures
        r@ == field_bytes(wire_type, body@),
{
    let mut r: Vec<u8> = if wire_type == LENGTH_DELIMITED {
        length_number(body).encode_to_vec()
    } else {
        Vec::new()
    };
    append_bytes(&mut r, body);
    assert(Seq::<u8>::empty() + body@ =~= body@);
    r
}

/// Writes `bytes` over those of `buf` from `at` on.
fn put(buf: &mut Vec<u8>, at: usize, bytes: &[u8])
    requires
        at + bytes@.len() <= old(buf)@.len(),
    ensures
        final(buf)@ == old(buf)@.take(at as int) + bytes@ + old(buf)@.skip(at + bytes@.len()),
{
    let total: usize = buf.len();
    let mut i: usize = 0;
    while i < bytes.len()
        invariant
            i <= bytes@.len(),
            at + bytes@.len() <= old(buf)@.len(),
            buf@.len() == total,
            old(buf)@.len() == total,
            forall|j: int| 0 <= j < i ==> #[trigger] buf@[at + j] == bytes@[j],
            forall|j: int|
                0 <= j < buf@.len() && !(at <= j < at + i) ==> #[trigger] buf@[j] == old(buf)@[j],
        decreases bytes@.len() - i,
    {
        buf.set(at + i, bytes[i]);
        i += 1;
    }
    assert forall|k: int| at <= k < at + bytes@.len() implies #[trigger] buf@[k] == bytes@[k
        - at] by {
        assert(buf@[at + (k - at)] == bytes@[k - at]);
    }
    assert(buf@ =~= old(buf)@.take(at as int) + bytes@ + old(buf)@.skip(at + bytes@.len()));
}

/// Where a reader of ids stands.
pub struct IdDecoder<'a, I> {
    src: &'a [u8],
    offset: usize,
    has_err: bool,
    phantom: PhantomData<I>,
}

impl<'a, I> IdDecoder<'a, I> {
    #[verifier::type_invariant]
    spec fn within(self) -> bool {
        self.offset <= self.src@.len()
    }

    /// The bytes that are left to read.
    pub closed spec fn rest(self) -> Seq<u8> {
        self.src@.skip(self.offset as int)
    }

    /// Whether a read failed.
    pub closed spec fn failed(self) -> bool {
        self.has_err
    }

    /// Returns a reader of the ids in `src`.
    pub fn new(src: &'a [u8]) -> (r: Self)
        ensures
            r.rest() == src@,
            !r.failed(),
    {
        let r = IdDecoder { src, offset: 0, has_err: false, phantom: PhantomData };
        assert(r.rest() =~= src@);
        r
    }
}

/// Reads the field of an id off the bytes from `at` on.
fn read_id_field<I: Id>(src: &[u8], at: usize) -> (r: Result<(usize, I), ReadFault>)
    requires
        at <= src@.len(),
    ensures
        match read_field::<I>(src@.skip(at as int)) {
            Ok(v) => r matches Ok(w) && w.0 == v.0 && w.1 == v.1 && 0 < w.0 <= src@.len() - at,
            Err(e) => r == Err::<(usize, I), ReadFault>(e),
        },
{
    let rest = vstd::slice::slice_subrange(src, at, src.len());
    assert(rest@ =~= src@.skip(at as int));
    if I::wire_type() == LENGTH_DELIMITED {
        proof {
            id::varint_within(rest@);
        }
        match <u32 as Id>::decode(rest) {
            Ok(v) => {
                let n: usize = v.0;
                let len: u32 = v.1;
                if len as usize > rest.len() - n {
                    return Err(ReadFault::Underflow);
                }
                let body = vstd::slice::slice_subrange(rest, n, n + len as usize);
                proof {
                    I::unwire_within(body@);
                }
                match I::decode(body) {
                    Ok(w) => Ok((n + w.0, w.1)),
                    Err(e) => Err(e),
                }
            },
            Err(e) => Err(e),
        }
    } else {
        proof {
            I::unwire_within(rest@);
        }
        I::decode(rest)
    }
}

impl<'a, I: Id> IdDecoder<'a, I> {
    /// Reads the next id; nothing once a read failed or the bytes are at their end.
    pub fn next(&mut self) -> (r: Option<Result<I, ReadFault>>)
        ensures
            old(self).failed() || old(self).rest().len() == 0 ==> r is None && *final(self)
                == *old(self),
            !old(self).failed() && old(self).rest().len() > 0 ==> match read_field::<I>(
                old(self).rest(),
            ) {
                Ok(v) => {
                    &&& r == Some(Ok::<I, ReadFault>(v.1))
                    &&& 0 < v.0 <= old(self).rest().len()
                    &&& final(self).rest() == old(self).rest().skip(v.0 as int)
                    &&& !final(self).failed()
                },
                Err(e) => {
                    &&& r == Some(Err::<I, ReadFault>(e))
                    &&& final(self).rest() == old(self).rest()
                    &&& final(self).failed()
                },
            },
    {
        proof {
            use_type_invariant(&*self);
        }
        if self.has_err || self.offset >= self.src.len() {
            return None;
        }
        match read_id_field::<I>(self.src, self.offset) {
            Ok(v) => {
                let ghost before = self.rest();
                self.offset = self.offset + v.0;
                assert(self.rest() =~= before.skip(v.0 as int));
                Some(Ok(v.1))
            },
            Err(e) => {
                self.has_err = true;
                Some(Err(e))
            },
        }
    }
}

/// The ids that a reader has still to give; none once it failed.
pub open spec fn remaining_ids<'a, I: Id>(d: IdDecoder<'a, I>) -> Result<Seq<I>, ReadFault> {
    if d.failed() {
        Ok(Seq::empty())
    } else {
        read_ids::<I>(d.rest())
    }
}

fn collect_ids<'a, I: Id>(decoder: IdDecoder<'a, I>) -> (r: Result<Vec<I>, ReadFault>)
    ensures
        match remaining_ids(decoder) {
            Ok(all) => r matches Ok(v) && v@ == all,
            Err(e) => r matches Err(f) && f == e,
        },
{
    let mut d = decoder;
    let mut ids: Vec<I> = Vec::new();
    let ghost all = remaining_ids(decoder);
    assert(all matches Ok(rest) ==> ids@ + rest =~= rest);
    loop
        invariant
            remaining_ids(decoder) == all,
            match all {
                Ok(v) => remaining_ids(d) matches Ok(rest) && v == ids@ + rest,
                Err(e) => remaining_ids(d) == Err::<Seq<I>, ReadFault>(e),
            },
        decreases d.rest().len(),
    {
        let ghost sofar = ids@;
        match d.next() {
            None => {
                assert(ids@ + Seq::<I>::empty() =~= ids@);
                return Ok(ids);
            },
            Some(Ok(id)) => {
                ids.push(id);
                assert(match read_ids::<I>(d.rest()) {
                    Ok(rest) => sofar + (seq![id] + rest) =~= ids@ + rest,
                    Err(_) => true,
                });
            },
            Some(Err(e)) => {
                return Err(e);
            },
        }
    }
}

/// A filter in the bytes that it was read from.
pub enum FilterRef<'a, I> {
    /// A reader of ids.
    Id(IdDecoder<'a, I>),
    /// The bytes of a tag filter, which were found to be one.
    Tag(&'a [u8]),
}

/// What the head of `src` says: where the body begins, and its bytes.
pub open spec fn framed_filter(wire_type: u8, src: Seq<u8>) -> Result<
    (nat, FilterType, Seq<u8>),
    DecodeFault,
> {
    if src.len() == 0 {
        Err(DecodeFault::BufferUnderflow)
    } else if src[0] == head_byte(wire_type, FILTER_ID_TAG) {
        Ok((1, FilterType::Id, src.skip(1)))
    } else if src[0] == head_byte(LENGTH_DELIMITED, FILTER_TAG_TAG) {
        match read_length(src.skip(1)) {
            Ok(v) => Ok(
                (
                    1 + v.0,
                    FilterType::Tag,
                    src.subrange((1 + v.0) as int, (1 + v.0 + v.1) as int),
                ),
            ),
            Err(e) => Err(fault_of(e)),
        }
    } else if src[0] as int / 8 >= WIRE_TYPES {
        Err(DecodeFault::UnknownWireType { value: (src[0] as int / 8) as u8 })
    } else {
        Err(DecodeFault::UnknownTag { tag: (src[0] as int % 8) as u8 })
    }
}

/// The bytes that are to be a tag filter, where the head of `src` says that they follow.
pub open spec fn framed_tag(wire_type: u8, src: Seq<u8>) -> Option<Seq<u8>> {
    match framed_filter(wire_type, src) {
        Ok((_, FilterType::Tag, body)) => Some(body),
        _ => None,
    }
}

/// What the head of `src` says: how many bytes were read, and the bytes of the body,
/// where `tag` is how many of them were read as a tag filter, or why they are none. The
/// bytes of ids are not counted as read.
pub open spec fn read_filter(
    wire_type: u8,
    src: Seq<u8>,
    tag: Result<usize, DecodeFault>,
) -> Result<(nat, FilterType, Seq<u8>), DecodeFault> {
    match framed_filter(wire_type, src) {
        Ok((at, FilterType::Tag, body)) => match tag {
            Ok(n) => Ok((at + n as nat, FilterType::Tag, body)),
            Err(e) => Err(e),
        },
        Ok(ids) => Ok(ids),
        Err(e) => Err(e),
    }
}

impl<'a, I: Id> FilterRef<'a, I> {
    fn framed(src: &'a [u8]) -> (r: Result<(usize, FilterType, &'a [u8]), DecodeFault>)
        ensures
            match framed_filter(I::wire_type_number(), src@) {
                Ok(v) => {
                    &&& r matches Ok(w) && w.0 == v.0 && w.1 == v.1 && w.2@ == v.2
                    &&& v.0 + v.2.len() <= src@.len() <= usize::MAX
                    &&& v.1 is Id || v.1 is Tag
                },
                Err(e) => r matches Err(f) && f == e,
            },
    {
        if src.len() < 1 {
            return Err(DecodeFault::BufferUnderflow);
        }
        let head: u8 = src[0];
        let rest = vstd::slice::slice_subrange(src, 1, src.len());
        assert(rest@ =~= src@.skip(1));
        if head == Filter::<I>::id_byte() {
            Ok((1, FilterType::Id, rest))
        } else if head == Filter::<I>::tag_byte() {
            proof {
                id::varint_within(rest@);
            }
            match <u32 as Id>::decode(rest) {
                Ok(v) => {
                    let n: usize = v.0;
                    let len: u32 = v.1;
                    if len as usize > rest.len() - n {
                        return Err(DecodeFault::BufferUnderflow);
                    }
                    let body = vstd::slice::slice_subrange(rest, n, n + len as usize);
                    assert(body@ =~= src@.subrange(1 + n, 1 + n + len));
                    Ok((1 + n, FilterType::Tag, body))
                },
                Err(e) => Err(to_decode_fault(e)),
            }
        } else if head / 8 >= WIRE_TYPES {
            Err(DecodeFault::UnknownWireType { value: head / 8 })
        } else {
            Err(DecodeFault::UnknownTag { tag: head % 8 })
        }
    }

    /// Returns the bytes that are to be a tag filter, where the head of `src` says that
    /// they follow. What they are found to be goes to [`FilterRef::decode`].
    pub fn tag_bytes(src: &'a [u8]) -> (r: Option<&'a [u8]>)
        ensures
            match framed_tag(I::wire_type_number(), src@) {
                Some(body) => r matches Some(b) && b@ == body,
                None => r is None,
            },
    {
        match Self::framed(src) {
            Ok((_, FilterType::Tag, body)) => Some(body),
            _ => None,
        }
    }

    /// Reads a filter off the head of `src`, and leaves ids to be read. Where it is a tag
    /// filter, `tag` is how many of its bytes were read as one, or why they are none.
    pub fn decode(src: &'a [u8], tag: Result<usize, DecodeFault>) -> (r: Result<
        (usize, Self),
        DecodeFault,
    >)
        requires
            tag matches Ok(n) ==> (framed_tag(I::wire_type_number(), src@) matches Some(body)
                ==> n <= body.len()),
        ensures
            match read_filter(I::wire_type_number(), src@, tag) {
                Ok(v) => r matches Ok(w) && w.0 == v.0 && match w.1 {
                    FilterRef::Id(d) => v.1 is Id && d.rest() == v.2 && !d.failed(),
                    FilterRef::Tag(t) => v.1 is Tag && t@ == v.2,
                },
                Err(e) => r matches Err(f) && f == e,
            },
    {
        let (at, ty, body) = match Self::framed(src) {
            Ok(v) => v,
            Err(e) => return Err(e),
        };
        match ty {
            FilterType::Tag => match tag {
                Ok(n) => Ok((at + n, FilterRef::Tag(body))),
                Err(e) => Err(e),
            },
            _ => Ok((at, FilterRef::Id(IdDecoder::new(body)))),
        }
    }
}

impl<I: Id> Filter<I> {
    fn id_byte() -> (r: u8)
        ensures
            r == head_byte(I::wire_type_number(), FILTER_ID_TAG),
    {
        let w: u8 = I::wire_type();
        assert(w * 8 + 1 <= 249) by (nonlinear_arith)
            requires
                w < 32,
        ;
        w * 8 + FILTER_ID_TAG
    }

    fn tag_byte() -> (r: u8)
        ensures
            r == head_byte(LENGTH_DELIMITED, FILTER_TAG_TAG),
    {
        LENGTH_DELIMITED * 8 + FILTER_TAG_TAG
    }

    /// Returns the length that the filter announces, where `tag` are the bytes of its
    /// tag filter.
    pub fn encoded_len(&self, tag: &[u8]) -> (r: usize)
        requires
            filter_body(*self, tag@).announced_len() <= usize::MAX,
        ensures
            r == filter_body(*self, tag@).announced_len(),
    {
        match self {
            Filter::Id(ids) => {
                let mut n: usize = 1;
                let mut i: usize = 0;
                assert(ids@.skip(0) =~= ids@);
                while i < ids.len()
                    invariant
                        i <= ids@.len(),
                        n + ids_bytes(ids@.skip(i as int)).len() == 1 + ids_bytes(ids@).len(),
                        1 + ids_bytes(ids@).len() <= usize::MAX,
                    decreases ids@.len() - i,
                {
                    assert(ids@.skip(i as int).drop_first() =~= ids@.skip(i + 1));
                    n += field_len(I::wire_type(), &ids[i].encode_to_vec());
                    i += 1;
                }
                n
            },
            Filter::Tag(_) => 2 + field_len(LENGTH_DELIMITED, tag),
        }
    }

    /// Writes the filter to the head of `buf` and returns how many bytes it took,
    /// where `tag` are the bytes of its tag filter.
    pub fn encode(&self, tag: &[u8], buf: &mut Vec<u8>) -> (r: Result<usize, EncodeFault>)
        requires
            filter_body(*self, tag@).announced_len() <= usize::MAX,
        ensures
            final(buf)@.len() == old(buf)@.len(),
            match filter_body(*self, tag@).write_fault(old(buf)@.len()) {
                None => r matches Ok(n) && n == filter_body(*self, tag@).wire().len() && final(buf)@
                    == filter_body(*self, tag@).wire() + old(buf)@.skip(n as int),
                Some(true) => r == Err::<usize, EncodeFault>(EncodeFault::TooLarge),
                Some(false) => r == Err::<usize, EncodeFault>(
                    EncodeFault::InsufficientBuffer {
                        required: filter_body(*self, tag@).announced_len() as usize,
                        remaining: old(buf)@.len() as usize,
                    },
                ),
            },
    {
        let buf_len: usize = buf.len();
        if buf_len < 1 {
            return Err(
                EncodeFault::InsufficientBuffer {
                    required: self.encoded_len(tag),
                    remaining: buf_len,
                },
            );
        }
        let ghost body = filter_body(*self, tag@);
        let ghost before = buf@;
        match self {
            Filter::Id(ids) => {
                buf.set(0, Self::id_byte());
                let mut offset: usize = 1;
                let mut i: usize = 0;
                assert(ids@.skip(0) =~= ids@);
                assert(buf@.take(1) + ids_bytes(ids@) =~= body.wire());
                assert(buf@.skip(1) =~= before.skip(1));
                while i < ids.len()
                    invariant
                        i <= ids@.len(),
                        1 <= offset <= buf_len,
                        buf@.len() == buf_len,
                        before.len() == buf_len,
                        before == old(buf)@,
                        body == filter_body(*self, tag@),
                        body.announced_len() <= usize::MAX,
                        *self == Filter::Id(*ids),
                        body.wire() == buf@.take(offset as int) + ids_bytes(ids@.skip(i as int)),
                        buf@.skip(offset as int) == before.skip(offset as int),
                        body.write_fault(before.len()) == FilterBody::ids_fault(
                            ids@.skip(i as int),
                            buf_len - offset,
                        ),
                    decreases ids@.len() - i,
                {
                    let ghost left = ids@.skip(i as int);
                    assert(left.drop_first() =~= ids@.skip(i + 1));
                    let w = ids[i].encode_to_vec();
                    if I::wire_type() == LENGTH_DELIMITED && w.len() > u32::MAX as usize {
                        return Err(EncodeFault::TooLarge);
                    }
                    let f = field(I::wire_type(), &w);
                    if f.len() > buf_len - offset {
                        return Err(
                            EncodeFault::InsufficientBuffer {
                                required: self.encoded_len(tag),
                                remaining: buf_len,
                            },
                        );
                    }
                    let ghost held = buf@;
                    put(buf, offset, &f);
                    assert(buf@.take(offset + f@.len()) =~= held.take(offset as int) + f@);
                    assert(held.take(offset as int) + (f@ + ids_bytes(ids@.skip(i + 1)))
                        =~= buf@.take(offset + f@.len()) + ids_bytes(ids@.skip(i + 1)));
                    assert(buf@.skip(offset + f@.len()) =~= held.skip(offset as int).skip(
                        f@.len() as int,
                    ));
                    assert(before.skip(offset as int).skip(f@.len() as int) =~= before.skip(
                        offset + f@.len(),
                    ));
                    offset += f.len();
                    i += 1;
                }
                assert(buf@ =~= buf@.take(offset as int) + buf@.skip(offset as int));
                assert(body.wire() =~= buf@.take(offset as int));
                Ok(offset)
            },
            Filter::Tag(_) => {
                buf.set(0, Self::tag_byte());
                if tag.len() > u32::MAX as usize {
                    return Err(EncodeFault::TooLarge);
                }
                let f = field(LENGTH_DELIMITED, tag);
                if f.len() > buf_len - 1 {
                    return Err(
                        EncodeFault::InsufficientBuffer {
                            required: self.encoded_len(tag),
                            remaining: buf_len,
                        },
                    );
                }
                put(buf, 1, &f);
                assert(buf@ =~= body.wire() + before.skip((1 + f@.len()) as int));
                Ok(1 + f.len())
            },
        }
    }

    /// Reads the body of a filter, where `tag` is what the bytes of a tag filter
    /// stand for, or why they stand for nothing.
    pub fn from_ref(val: FilterRef<'_, I>, tag: Result<TagFilter, DecodeFault>) -> (r: Result<
        Self,
        DecodeFault,
    >)
        ensures
            match val {
                FilterRef::Id(d) => match remaining_ids(d) {
                    Ok(ids) => r matches Ok(Filter::Id(v)) && v@ == ids,
                    Err(e) => r == Err::<Self, DecodeFault>(fault_of(e)),
                },
                FilterRef::Tag(_) => match tag {
                    Ok(t) => r == Ok::<Self, DecodeFault>(Filter::Tag(t)),
                    Err(e) => r == Err::<Self, DecodeFault>(e),
                },
            },
    {
        match val {
            FilterRef::Id(decoder) => match collect_ids(decoder) {
                Ok(ids) => Ok(Filter::Id(ids)),
                Err(e) => Err(to_decode_fault(e)),
            },
            FilterRef::Tag(_) => match tag {
                Ok(t) => Ok(Filter::Tag(t)),
                Err(e) => Err(e),
            },
        }
    }
}

/// An id reads back from its field, whatever follows.
pub proof fn field_reads_back<I: Id>(a: I, rest: Seq<u8>)
    requires
        carriable(I::wire_type_number(), a.wire()),
    ensures
        read_field::<I>(field_bytes(I::wire_type_number(), a.wire()) + rest) == Ok::<
            (nat, I),
            ReadFault,
        >((field_bytes(I::wire_type_number(), a.wire()).len(), a)),
        field_bytes(I::wire_type_number(), a.wire()).len() > 0,
{
    let body = a.wire();
    I::wire_reads_back(a, rest);
    I::wire_reads_back(a, Seq::empty());
    I::unwire_within(body + Seq::empty());
    assert(body + Seq::empty() =~= body);
    if I::wire_type_number() == LENGTH_DELIMITED {
        length_reads_back(body, rest);
    }
}

proof fn length_reads_back(body: Seq<u8>, rest: Seq<u8>)
    requires
        body.len() <= u32::MAX,
    ensures
        ({
            let src = field_bytes(LENGTH_DELIMITED, body) + rest;
            let n = id::varint(body.len()).len();
            &&& read_length(src) == Ok::<(nat, nat), ReadFault>((n, body.len()))
            &&& src.subrange(n as int, (n + body.len()) as int) == body
            &&& field_bytes(LENGTH_DELIMITED, body).len() == n + body.len()
        }),
{
    let src = field_bytes(LENGTH_DELIMITED, body) + rest;
    let head = id::varint(body.len());
    assert(body.len() % 0x1_0000_0000 == body.len());
    id::varint_reads_back(body.len() as u32, body + rest);
    assert(head + (body + rest) =~= src);
    assert(src.subrange(head.len() as int, (head.len() + body.len()) as int) =~= body);
}

/// Ids read back from their fields, in the order in which they were written.
pub proof fn ids_read_back<I: Id>(ids: Seq<I>)
    requires
        forall|i: int|
            0 <= i < ids.len() ==> carriable(I::wire_type_number(), (#[trigger] ids[i]).wire()),
    ensures
        read_ids::<I>(ids_bytes(ids)) == Ok::<Seq<I>, ReadFault>(ids),
    decreases ids.len(),
{
    if ids.len() == 0 {
        assert(ids =~= Seq::empty());
    } else {
        let rest = ids.drop_first();
        let f = field_bytes(I::wire_type_number(), ids[0].wire());
        field_reads_back(ids[0], ids_bytes(rest));
        assert forall|i: int| 0 <= i < rest.len() implies carriable(
            I::wire_type_number(),
            (#[trigger] rest[i]).wire(),
        ) by {
            assert(rest[i] == ids[i + 1]);
        }
        ids_read_back(rest);
        assert((f + ids_bytes(rest)).skip(f.len() as int) =~= ids_bytes(rest));
        assert(seq![ids[0]] + rest =~= ids);
    }
}

/// A filter by ids reads back from its wire form.
pub proof fn id_filter_reads_back<I: Id>(ids: Seq<I>, tag: Result<usize, DecodeFault>)
    requires
        forall|i: int|
            0 <= i < ids.len() ==> carriable(I::wire_type_number(), (#[trigger] ids[i]).wire()),
    ensures
        read_filter(I::wire_type_number(), FilterBody::Ids(ids).wire(), tag) == Ok::<
            (nat, FilterType, Seq<u8>),
            DecodeFault,
        >((1, FilterType::Id, ids_bytes(ids))),
        read_ids::<I>(ids_bytes(ids)) == Ok::<Seq<I>, ReadFault>(ids),
{
    ids_read_back(ids);
    assert(FilterBody::Ids(ids).wire().skip(1) =~= ids_bytes(ids));
}

/// A filter by tag reads back from its wire form, whatever follows, where all of its bytes
/// are read as a tag filter. Where they are none, that is the fault.
pub proof fn tag_filter_reads_back<I: Id>(tag: Seq<u8>, rest: Seq<u8>, fault: DecodeFault)
    requires
        tag.len() <= u32::MAX,
        I::wire_type_number() < 32,
    ensures
        ({
            let wire = FilterBody::<I>::Tag(tag).wire();
            let src = wire + rest;
            &&& framed_tag(I::wire_type_number(), src) == Some(tag)
            &&& read_filter(I::wire_type_number(), src, Ok(tag.len() as usize)) == Ok::<
                (nat, FilterType, Seq<u8>),
                DecodeFault,
            >((wire.len(), FilterType::Tag, tag))
            &&& read_filter(I::wire_type_number(), src, Err(fault)) == Err::<
                (nat, FilterType, Seq<u8>),
                DecodeFault,
            >(fault)
        }),
{
    let wire = FilterBody::<I>::Tag(tag).wire();
    let src = wire + rest;
    length_reads_back(tag, rest);
    let n = id::varint(tag.len()).len();
    assert(src.skip(1) =~= field_bytes(LENGTH_DELIMITED, tag) + rest);
    assert(src.subrange((1 + n) as int, (1 + n + tag.len()) as int) =~= src.skip(1).subrange(
        n as int,
        (n + tag.len()) as int,
    ));
}

proof fn announced_room_is_enough<I: Id>(ids: Seq<I>, room: int)
    requires
        forall|i: int|
            0 <= i < ids.len() ==> carriable(I::wire_type_number(), (#[trigger] ids[i]).wire()),
        room >= ids_bytes(ids).len(),
    ensures
        FilterBody::ids_fault(ids, room) is None,
    decreases ids.len(),
{
    if ids.len() > 0 {
        let rest = ids.drop_first();
        let f = field_bytes(I::wire_type_number(), ids[0].wire());
        assert forall|i: int| 0 <= i < rest.len() implies carriable(
            I::wire_type_number(),
            (#[trigger] rest[i]).wire(),
        ) by {
            assert(rest[i] == ids[i + 1]);
        }
        announced_room_is_enough(rest, room - f.len());
    }
}

/// A buffer of the announced length is always long enough.
pub proof fn announced_length_is_enough<I: Id>(body: FilterBody<I>)
    requires
        match body {
            FilterBody::Ids(ids) => forall|i: int|
                0 <= i < ids.len() ==> carriable(I::wire_type_number(), (#[trigger] ids[i]).wire()),
            FilterBody::Tag(tag) => tag.len() <= u32::MAX,
        },
    ensures
        body.write_fault(body.announced_len()) is None,
{
    match body {
        FilterBody::Ids(ids) => {
            announced_room_is_enough(ids, body.announced_len() - 1);
        },
        FilterBody::Tag(_) => {},
    }
}

/// The number that decimal digits stand for.
pub open spec fn number_of(digits: Seq<char>) -> nat
    decreases digits.len(),
{
    if digits.len() == 0 {
        0
    } else {
        10 * number_of(digits.drop_last()) + (digits.last() as nat - '0' as nat) as nat
    }
}

/// The digits of a number stand for it, each is one of the ten, and no number but zero begins
/// with a zero.
pub proof fn digits_stand_for_the_number(n: nat)
    ensures
        number_of(decimal(n)) == n,
        decimal(n).len() > 0,
        forall|i: int|
            0 <= i < decimal(n).len() ==> '0' <= #[trigger] decimal(n)[i] && decimal(n)[i] <= '9',
        n > 0 ==> decimal(n)[0] != '0',
    decreases n,
{
    if n < 10 {
        reveal_with_fuel(number_of, 2);
        let s = decimal(n);
        assert(s.drop_last() =~= Seq::<char>::empty());
        assert(s.last() as nat == '0' as nat + n);
    } else {
        digits_stand_for_the_number(n / 10);
        let head = decimal(n / 10);
        let s = decimal(n);
        assert(s.drop_last() =~= head);
        assert(s.last() as nat == '0' as nat + n % 10);
        assert(s[0] == head[0]);
        assert forall|i: int| 0 <= i < s.len() implies '0' <= #[trigger] s[i] && s[i] <= '9' by {
            if i < head.len() {
                assert(s[i] == head[i]);
            }
        }
    }
}

/// The types of filters have the numbers zero and one, and every other number is an unknown
/// one, which is named with its number.
pub proof fn filter_types_are_numbered(n: u8)
    ensures
        FilterType::of_number(0) is Id,
        FilterType::of_number(1) is Tag,
        n > 1 ==> FilterType::of_number(n) == FilterType::Unknown(n),
        FilterType::Id.number() == 0,
        FilterType::Tag.number() == 1,
        FilterType::Unknown(n).number() == n,
        FilterType::Id.name() == "id"@,
        FilterType::Tag.name() == "tag"@,
        FilterType::Unknown(n).name() == "unknown("@ + decimal(n as nat) + ")"@,
{
}

/// A filter begins with one byte that says what it is: a filter by ids with eight times the
/// wire type of the ids and one, a filter by tag with 18. The fields of the ids follow, or
/// the length of the tag filter and its bytes. A filter by tag announces one byte too many.
pub proof fn filters_begin_with_their_kind<I: Id>(ids: Seq<I>, id: I, tag: Seq<u8>)
    requires
        I::wire_type_number() < 31,
        tag.len() <= u32::MAX,
    ensures
        FilterBody::Ids(ids).wire().len() > 0,
        FilterBody::Ids(ids).wire()[0] == 8 * I::wire_type_number() + 1,
        FilterBody::<I>::Ids(Seq::empty()).wire().len() == 1,
        FilterBody::Ids(ids.push(id)).wire() == FilterBody::Ids(ids).wire() + field_bytes(
            I::wire_type_number(),
            id.wire(),
        ),
        FilterBody::<I>::Tag(tag).wire() == seq![18u8] + id::varint(tag.len()) + tag,
        I::wire_type_number() == 2 && id.wire().len() <= u32::MAX ==> field_bytes(
            I::wire_type_number(),
            id.wire(),
        ) == id::varint(id.wire().len()) + id.wire(),
        I::wire_type_number() != 2 ==> field_bytes(I::wire_type_number(), id.wire()) == id.wire(),
        FilterBody::Ids(ids).announced_len() == FilterBody::Ids(ids).wire().len(),
        FilterBody::<I>::Tag(tag).announced_len() == FilterBody::<I>::Tag(tag).wire().len() + 1,
{
    ids_are_written_in_order(ids, id);
    let all = FilterBody::Ids(ids.push(id)).wire();
    assert(all =~= FilterBody::Ids(ids).wire() + field_bytes(I::wire_type_number(), id.wire()));
    assert(tag.len() % 0x1_0000_0000 == tag.len());
    assert(FilterBody::<I>::Tag(tag).wire() =~= seq![18u8] + id::varint(tag.len()) + tag);
    if I::wire_type_number() == 2 && id.wire().len() <= u32::MAX {
        assert(id.wire().len() % 0x1_0000_0000 == id.wire().len());
    }
}

proof fn ids_are_written_in_order<I: Id>(ids: Seq<I>, id: I)
    ensures
        ids_bytes(ids.push(id)) == ids_bytes(ids) + field_bytes(I::wire_type_number(), id.wire()),
    decreases ids.len(),
{
    let all = ids.push(id);
    let f = field_bytes(I::wire_type_number(), id.wire());
    if ids.len() == 0 {
        assert(all.drop_first() =~= Seq::<I>::empty());
        assert(ids_bytes(all.drop_first()) =~= Seq::<u8>::empty());
        assert(ids_bytes(all) =~= ids_bytes(ids) + f);
    } else {
        ids_are_written_in_order(ids.drop_first(), id);
        assert(all.drop_first() =~= ids.drop_first().push(id));
        assert(ids_bytes(all) =~= ids_bytes(ids) + f);
    }
}

proof fn room_runs_out<I: Id>(ids: Seq<I>, room: int)
    requires
        forall|i: int|
            0 <= i < ids.len() ==> carriable(I::wire_type_number(), (#[trigger] ids[i]).wire()),
        0 <= room < ids_bytes(ids).len(),
    ensures
        FilterBody::ids_fault(ids, room) == Some(false),
    decreases ids.len(),
{
    if ids.len() > 0 {
        let rest = ids.drop_first();
        let f = field_bytes(I::wire_type_number(), ids[0].wire());
        assert forall|i: int| 0 <= i < rest.len() implies carriable(
            I::wire_type_number(),
            (#[trigger] rest[i]).wire(),
        ) by {
            assert(rest[i] == ids[i + 1]);
        }
        if f.len() <= room {
            room_runs_out(rest, room - f.len());
        }
    }
}

/// A filter that can be carried is written exactly if the buffer is as long as its wire form,
/// and refused for the buffer otherwise. A tag filter that is too long to be carried is
/// refused for that in every buffer that has a byte.
pub proof fn filters_are_written_if_they_fit<I: Id>(body: FilterBody<I>, room: nat)
    ensures
        match body {
            FilterBody::Ids(ids) => {
                &&& (forall|i: int|
                    0 <= i < ids.len() ==> carriable(
                        I::wire_type_number(),
                        (#[trigger] ids[i]).wire(),
                    )) ==> {
                    &&& room >= body.wire().len() ==> body.write_fault(room) is None
                    &&& room < body.wire().len() ==> body.write_fault(room) == Some(false)
                }
                &&& ids.len() > 0 && I::wire_type_number() == 2 && ids[0].wire().len() > u32::MAX
                    && room > 0 ==> body.write_fault(room) == Some(true)
            },
            FilterBody::Tag(tag) => {
                &&& tag.len() <= u32::MAX && room >= body.wire().len() ==> body.write_fault(
                    room,
                ) is None
                &&& tag.len() <= u32::MAX && room < body.wire().len() ==> body.write_fault(room)
                    == Some(false)
                &&& tag.len() > u32::MAX && room > 0 ==> body.write_fault(room) == Some(true)
            },
        },
{
    if let FilterBody::Ids(ids) = body {
        if forall|i: int|
            0 <= i < ids.len() ==> carriable(I::wire_type_number(), (#[trigger] ids[i]).wire()) {
            if room >= body.wire().len() {
                announced_room_is_enough(ids, room - 1);
            } else if room >= 1 {
                room_runs_out(ids, room - 1);
            }
        }
    }
}

/// Bytes that begin with no head of a filter are refused with what is wrong: nothing at all, a
/// wire type beyond the five that there are, or a tag that names no filter. A tag filter that
/// is cut short is refused for that.
pub proof fn wrong_heads_are_refused(wire_type: u8, src: Seq<u8>, tag: Seq<u8>, cut: int)
    requires
        wire_type < 5,
        tag.len() <= u32::MAX,
        0 <= cut < tag.len(),
    ensures
        src.len() == 0 ==> framed_filter(wire_type, src) == Err::<
            (nat, FilterType, Seq<u8>),
            DecodeFault,
        >(DecodeFault::BufferUnderflow),
        src.len() > 0 && src[0] >= 40 ==> framed_filter(wire_type, src) == Err::<
            (nat, FilterType, Seq<u8>),
            DecodeFault,
        >(DecodeFault::UnknownWireType { value: (src[0] as int / 8) as u8 }),
        src.len() > 0 && src[0] < 40 && src[0] != 8 * wire_type + 1 && src[0] != 18
            ==> framed_filter(wire_type, src) == Err::<(nat, FilterType, Seq<u8>), DecodeFault>(
            DecodeFault::UnknownTag { tag: (src[0] as int % 8) as u8 },
        ),
        src.len() > 0 && src[0] == 8 * wire_type + 1 ==> framed_filter(wire_type, src) == Ok::<
            (nat, FilterType, Seq<u8>),
            DecodeFault,
        >((1, FilterType::Id, src.skip(1))),
        framed_filter(wire_type, seq![18u8] + id::varint(tag.len()) + tag.take(cut)) == Err::<
            (nat, FilterType, Seq<u8>),
            DecodeFault,
        >(DecodeFault::BufferUnderflow),
        fault_of(ReadFault::Overflow) == DecodeFault::LengthDelimitedOverflow,
{
    let short = seq![18u8] + id::varint(tag.len()) + tag.take(cut);
    id::varint_reads_back(tag.len() as u32, tag.take(cut));
    assert(short.skip(1) =~= id::varint(tag.len()) + tag.take(cut));
}

} // verus!
