//! The messages by which two peers keep their matches alike, and their form
//! on the wire.
//!
//! A message is a run of fields. A field is a tag, written as a varint,
//! and a value: each number of a message is a 32-bit float, carried here by
//! its bit pattern and written in four bytes, the lowest first. A number
//! that is zero is not written. An `Update` holds a `Paddle` or a `Ball` as
//! a field of its own, preceded by its length. Fields with other tags are
//! passed over, and of a field that comes twice the last one counts.

#![allow(non_snake_case)]
#![allow(non_camel_case_types)]

use vstd::prelude::*;
use vstd::slice::slice_subrange;
use quick_protobuf::{BytesReader, Writer};

verus! {

/// The error type of `quick_protobuf`.
#[verifier::external_type_specification]
#[verifier::external_body]
pub struct ExError(quick_protobuf::Error);

/// Why a message could not be read or written.
#[derive(Clone, Copy, Debug, PartialEq, Eq, Structural)]
pub enum WireError {
    Io,
    Utf8,
    Deprecated,
    UnknownWireType(u8),
    Varint,
    Message,
    MapTag(u8),
    UnexpectedEndOfBuffer,
    OutputBufferTooSmall,
}

/// The height of a paddle.
#[derive(Clone, Copy, Debug, Default, PartialEq, Eq, Structural)]
pub struct Paddle {
    pub y: u32,
}

/// Where the ball is and how it moves.
#[derive(Clone, Copy, Debug, Default, PartialEq, Eq, Structural)]
pub struct Ball {
    pub x: u32,
    pub y: u32,
    pub vx: u32,
    pub vy: u32,
}

/// What an `Update` holds.
#[derive(Clone, Copy, Debug, PartialEq, Eq, Structural)]
pub enum OneOfUpdateType {
    paddle(Paddle),
    ball(Ball),
    Unset,
}

/// One message between peers.
#[derive(Clone, Copy, Debug, Default, PartialEq, Eq, Structural)]
pub struct Update {
    pub UpdateType: OneOfUpdateType,
}

/// The port of the player on the left; the player on the right has the
/// next one.
pub const PORT: u16 = 34521;

/// The port at which a side listens for its peer.
pub open spec fn port_of(is_left: bool) -> u16 {
    if is_left {
        PORT
    } else {
        (PORT + 1) as u16
    }
}

/// The port at which a side listens for its peer.
pub fn local_port(is_left: bool) -> (port: u16)
    ensures
        port == port_of(is_left),
{
    if is_left {
        PORT
    } else {
        PORT + 1
    }
}

/// The port to which a side sends: the one at which the other side
/// listens.
pub fn peer_port(is_left: bool) -> (port: u16)
    ensures
        port == port_of(!is_left),
{
    local_port(!is_left)
}

/// Whether the bit pattern is that of a float equal to zero: of zero or of
/// minus zero.
pub open spec fn is_zero(bits: u32) -> bool {
    bits == 0 || bits == 0x8000_0000
}

/// The 32-bit number that the first four bytes write, the lowest first.
pub open spec fn le32(s: Seq<u8>) -> u32
    recommends
        s.len() >= 4,
{
    (s[0] + s[1] * 0x100 + s[2] * 0x1_0000 + s[3] * 0x100_0000) as u32
}

/// The four bytes of a 32-bit number, the lowest first.
pub open spec fn le_bytes(v: u32) -> Seq<u8> {
    seq![
        (v % 0x100) as u8,
        (v / 0x100 % 0x100) as u8,
        (v / 0x1_0000 % 0x100) as u8,
        (v / 0x100_0000) as u8,
    ]
}

/// The varint of a number: seven bits to a byte, the lowest first, and the
/// high bit set on every byte but the last.
pub open spec fn varint(v: u64) -> Seq<u8>
    decreases v,
{
    if v < 128 {
        seq![v as u8]
    } else {
        seq![(v % 128 + 128) as u8] + varint(v / 128)
    }
}

/// The number of bytes of the varint of `v`.
pub open spec fn varint_size(v: u64) -> int {
    if v <= 0x7F {
        1
    } else if v <= 0x3FFF {
        2
    } else if v <= 0x1F_FFFF {
        3
    } else if v <= 0xFFF_FFFF {
        4
    } else if v <= 0x7_FFFF_FFFF {
        5
    } else if v <= 0x3FF_FFFF_FFFF {
        6
    } else if v <= 0x1_FFFF_FFFF_FFFF {
        7
    } else if v <= 0xFF_FFFF_FFFF_FFFF {
        8
    } else if v <= 0x7FFF_FFFF_FFFF_FFFF {
        9
    } else {
        10
    }
}

/// A field of four bytes as it is written: nothing for a zero, and else the
/// tag and the bytes.
pub open spec fn field(tag: u8, bits: u32) -> Seq<u8> {
    if is_zero(bits) {
        Seq::<u8>::empty()
    } else {
        seq![tag] + le_bytes(bits)
    }
}

/// A message as a field of another: the tag, the length, the message.
pub open spec fn nested(tag: u8, body: Seq<u8>) -> Seq<u8> {
    seq![tag] + varint(body.len() as u64) + body
}

/// The place of the seven bits that byte `k` of a varint holds: `2^(7 k)`.
pub open spec fn place(k: int) -> int {
    if k <= 0 {
        1
    } else if k == 1 {
        0x80
    } else if k == 2 {
        0x4000
    } else if k == 3 {
        0x20_0000
    } else if k == 4 {
        0x1000_0000
    } else if k == 5 {
        0x8_0000_0000
    } else if k == 6 {
        0x400_0000_0000
    } else if k == 7 {
        0x2_0000_0000_0000
    } else {
        0x100_0000_0000_0000
    }
}

/// What byte `k` of a varint adds to a number of 32 bits: its low seven
/// bits in their place, of the fifth byte the four bits that 32 bits still
/// hold, and nothing of the bytes after it.
pub open spec fn part32(b: u8, k: int) -> int {
    if k < 4 {
        (b % 128) * place(k)
    } else if k == 4 {
        (b % 16) * place(4)
    } else {
        0
    }
}

/// What byte `k` of a varint adds to a number of 64 bits: its low seven
/// bits in their place, and of the tenth byte the one bit that 64 bits
/// still hold.
pub open spec fn part64(b: u8, k: int) -> int {
    if k < 9 {
        (b % 128) * place(k)
    } else {
        (b % 2) * 0x8000_0000_0000_0000
    }
}

/// The varint whose bytes from the one at `k` on are still to be read: what
/// they add to the number, and where the varint ends. A varint ends with
/// its first byte below 128 and has at most ten bytes; `None` where the
/// bytes end before it does, or ten bytes do not end it. `wide` chooses
/// between a number of 64 bits and one of 32, of which the bits beyond are
/// dropped.
pub open spec fn varint_from(bytes: Seq<u8>, k: int, wide: bool) -> Option<(int, int)>
    decreases 10 - k,
{
    let part = if wide {
        part64(bytes[k], k)
    } else {
        part32(bytes[k], k)
    };
    if k < 0 || k >= 10 || k >= bytes.len() {
        None
    } else if bytes[k] < 128 {
        Some((part, k + 1))
    } else {
        match varint_from(bytes, k + 1, wide) {
            Some((v, n)) => Some((part + v, n)),
            None => None,
        }
    }
}

/// The varint of 32 bits at the start of the bytes, and how many bytes it
/// takes.
pub open spec fn varint32_at(bytes: Seq<u8>) -> Option<(u32, int)> {
    match varint_from(bytes, 0, false) {
        Some((v, n)) => Some((v as u32, n)),
        None => None,
    }
}

/// How many bytes the value of a field takes whose tag is not one that the
/// reader knows, by the kind of value that the low three bits of the tag
/// name: a varint, eight bytes, a length and as many bytes, or four bytes.
/// `None` where the bytes end before the value does, and for the other
/// kinds.
pub open spec fn unknown_len(bytes: Seq<u8>, tag: u32) -> Option<int> {
    let kind = tag % 8;
    if kind == 0 {
        match varint_from(bytes, 0, true) {
            Some((v, n)) => Some(n),
            None => None,
        }
    } else if kind == 1 {
        if bytes.len() >= 8 {
            Some(8)
        } else {
            None
        }
    } else if kind == 2 {
        match varint_from(bytes, 0, true) {
            Some((v, n)) => if v <= bytes.len() - n {
                Some(n + v)
            } else {
                None
            },
            None => None,
        }
    } else if kind == 5 {
        if bytes.len() >= 4 {
            Some(4)
        } else {
            None
        }
    } else {
        None
    }
}

/// A varint takes at least one byte and no more than there are, and its
/// number fits the bits it is read for: what the bytes from the one at `k`
/// on add stays below the place of the first bit that is dropped.
pub proof fn lemma_varint_from(bytes: Seq<u8>, k: int, wide: bool)
    requires
        0 <= k,
    ensures
        varint_from(bytes, k, wide) matches Some((v, n)) ==> {
            &&& k < n <= bytes.len()
            &&& n <= 10
            &&& 0 <= v
            &&& wide && k <= 8 ==> v + place(k) <= 0x1_0000_0000_0000_0000
            &&& wide && k >= 9 ==> v <= 0x8000_0000_0000_0000
            &&& !wide && k <= 4 ==> v + place(k) <= 0x1_0000_0000
            &&& !wide && k >= 5 ==> v == 0
        },
    decreases 10 - k,
{
    if k < 10 && k < bytes.len() {
        lemma_part_fits(bytes[k], k);
        if bytes[k] >= 128 {
            lemma_varint_from(bytes, k + 1, wide);
        }
    }
}

/// What a byte adds fills the seven bits of its place and no more.
proof fn lemma_part_fits(b: u8, k: int)
    requires
        0 <= k < 10,
    ensures
        0 <= part32(b, k),
        0 <= part64(b, k),
        k <= 3 ==> part32(b, k) + place(k) <= place(k + 1),
        k == 4 ==> part32(b, k) + place(k) <= 0x1_0000_0000,
        k <= 7 ==> part64(b, k) + place(k) <= place(k + 1),
        k == 8 ==> part64(b, k) + place(k) <= 0x8000_0000_0000_0000,
        k == 9 ==> part64(b, k) <= 0x8000_0000_0000_0000,
{
    let low = (b % 128) as int;
    assert(0 <= low <= 127);
    assert(k < 9 ==> part64(b, k) == low * place(k));
    assert(k < 4 ==> part32(b, k) == low * place(k));
    if k == 0 {
        assert(low * place(k) == low * 1);
    } else if k == 1 {
        assert(low * place(k) == low * 0x80);
    } else if k == 2 {
        assert(low * place(k) == low * 0x4000);
    } else if k == 3 {
        assert(low * place(k) == low * 0x20_0000);
    } else if k == 4 {
        assert(low * place(k) == low * 0x1000_0000);
    } else if k == 5 {
        assert(low * place(k) == low * 0x8_0000_0000);
    } else if k == 6 {
        assert(low * place(k) == low * 0x400_0000_0000);
    } else if k == 7 {
        assert(low * place(k) == low * 0x2_0000_0000_0000);
    } else if k == 8 {
        assert(low * place(k) == low * 0x100_0000_0000_0000);
    }
}

/// Reads a varint of 32 bits from the start of `rest` with
/// `quick_protobuf::BytesReader::next_tag`, and returns it with the number
/// of bytes that are left after it. The call reads bytes up to the first
/// one below 128, ten at most, puts the low seven bits of the first four
/// and the low four bits of the fifth together, and fails where the bytes
/// end first or ten bytes do not end the varint.
#[verifier::external_body]
fn next_tag(rest: &[u8]) -> (r: Result<(u32, usize), quick_protobuf::Error>)
    ensures
        r is Ok <==> varint32_at(rest@) is Some,
        r matches Ok((tag, left)) ==> varint32_at(rest@) == Some((tag, rest@.len() - left)),
        r matches Ok((tag, left)) ==> left < rest@.len(),
{
    let mut reader = BytesReader::from_bytes(rest);
    let tag = reader.next_tag(rest)?;
    Ok((tag, reader.len()))
}

/// Reads four bytes, the lowest first, from the start of `rest` with
/// `quick_protobuf::BytesReader::read_fixed32`. The call fails exactly when
/// fewer than four bytes are there.
#[verifier::external_body]
fn read_fixed32(rest: &[u8]) -> (r: Result<u32, quick_protobuf::Error>)
    ensures
        r is Ok <==> rest@.len() >= 4,
        r matches Ok(v) ==> v == le32(rest@),
{
    BytesReader::from_bytes(rest).read_fixed32(rest)
}

/// Passes over the value of a field with an unknown tag at the start of
/// `rest` with `quick_protobuf::BytesReader::read_unknown`, and returns the
/// number of bytes that are left after it. By the low three bits of the
/// tag the call passes over a varint of 64 bits, over eight bytes, over a
/// varint of 64 bits and as many bytes as it says, or over four bytes; it
/// fails where fewer bytes are left, and for every other kind.
#[verifier::external_body]
fn skip_unknown(rest: &[u8], tag: u32) -> (r: Result<usize, quick_protobuf::Error>)
    ensures
        r is Ok <==> unknown_len(rest@, tag) is Some,
        r matches Ok(left) ==> unknown_len(rest@, tag) == Some(rest@.len() - left),
        r matches Ok(left) ==> left <= rest@.len(),
{
    let mut reader = BytesReader::from_bytes(rest);
    reader.read_unknown(rest, tag)?;
    Ok(reader.len())
}

/// Appends a tag with `quick_protobuf::Writer::write_tag`: the varint of
/// the tag is appended. The writer hands each byte to the `std::io::Write`
/// of the vector, which appends and never fails, so the call succeeds.
#[verifier::external_body]
fn write_tag(out: &mut Vec<u8>, tag: u32) -> (r: Result<(), quick_protobuf::Error>)
    ensures
        r is Ok,
        final(out)@ == old(out)@ + varint(tag as u64),
{
    Writer::new(&mut *out).write_tag(tag)
}

/// Appends a number with `quick_protobuf::Writer::write_varint`: the
/// varint of the number is appended. Writing to a vector never fails, so
/// the call succeeds.
#[verifier::external_body]
fn write_varint(out: &mut Vec<u8>, v: u64) -> (r: Result<(), quick_protobuf::Error>)
    ensures
        r is Ok,
        final(out)@ == old(out)@ + varint(v),
{
    Writer::new(&mut *out).write_varint(v)
}

/// Appends four bytes with `quick_protobuf::Writer::write_fixed32`: the
/// bytes of the number are appended, the lowest first. Writing to a vector
/// never fails, so the call succeeds.
#[verifier::external_body]
fn write_fixed32(out: &mut Vec<u8>, v: u32) -> (r: Result<(), quick_protobuf::Error>)
    ensures
        r is Ok,
        final(out)@ == old(out)@ + le_bytes(v),
{
    Writer::new(&mut *out).write_fixed32(v)
}

/// Tells the variants of `quick_protobuf::Error` apart.
#[verifier::external_body]
fn wire_error(e: quick_protobuf::Error) -> WireError {
    match e {
        quick_protobuf::Error::Io(_) => WireError::Io,
        quick_protobuf::Error::Utf8(_) => WireError::Utf8,
        quick_protobuf::Error::Deprecated(_) => WireError::Deprecated,
        quick_protobuf::Error::UnknownWireType(t) => WireError::UnknownWireType(t),
        quick_protobuf::Error::Varint => WireError::Varint,
        quick_protobuf::Error::Message(_) => WireError::Message,
        quick_protobuf::Error::Map(t) => WireError::MapTag(t),
        quick_protobuf::Error::UnexpectedEndOfBuffer => WireError::UnexpectedEndOfBuffer,
        quick_protobuf::Error::OutputBufferTooSmall => WireError::OutputBufferTooSmall,
    }
}

/// The size of a length-delimited value with its length, by
/// `quick_protobuf::sizeofs::sizeof_len`: the size of the varint of the
/// length, and the length. The call adds the two, so the length leaves
/// room for ten more.
pub assume_specification[ quick_protobuf::sizeofs::sizeof_len ](len: usize) -> (r: usize)
    requires
        len <= usize::MAX - 10,
    ensures
        r == varint_size(len as u64) + len,
;

/// Whether the bit pattern is that of a float equal to zero.
pub fn zero(bits: u32) -> (b: bool)
    ensures
        b == is_zero(bits),
{
    bits == 0 || bits == 0x8000_0000
}

/// The four bytes of a number, read back, give the number.
pub proof fn lemma_le32_of_le_bytes(v: u32, tail: Seq<u8>)
    ensures
        le_bytes(v).len() == 4,
        (le_bytes(v) + tail).len() == 4 + tail.len(),
        le32(le_bytes(v) + tail) == v,
        (le_bytes(v) + tail).skip(4) == tail,
{
    let s = le_bytes(v) + tail;
    assert(s[0] == (v % 0x100) as u8);
    assert(s[1] == (v / 0x100 % 0x100) as u8);
    assert(s[2] == (v / 0x1_0000 % 0x100) as u8);
    assert(s[3] == (v / 0x100_0000) as u8);
    assert(s.skip(4) =~= tail);
}

/// The varint of a number below 128 is the number as one byte.
pub proof fn lemma_short_varint(v: u64)
    requires
        v < 128,
    ensures
        varint(v) == seq![v as u8],
        varint_size(v) == 1,
{
}

/// Whether a field with this tag holds one of the first `count` numbers of
/// a message: the numbers have the tags 13, 21, 29 and 37.
pub open spec fn is_number_tag(tag: u32, count: int) -> bool {
    tag == 13 || (count == 4 && (tag == 21 || tag == 29 || tag == 37))
}

/// The 32-bit float that a pattern of bits stands for on the wire: minus
/// zero is written as zero is, by nothing.
pub open spec fn as_written(bits: u32) -> u32 {
    if is_zero(bits) {
        0
    } else {
        bits
    }
}

impl Ball {
    /// The message whose numbers are all zero.
    pub open spec fn zeroed() -> Ball {
        Ball { x: 0, y: 0, vx: 0, vy: 0 }
    }

    /// The message with the number of the given tag replaced.
    pub open spec fn with(self, tag: u32, bits: u32) -> Ball {
        if tag == 13 {
            Ball { x: bits, ..self }
        } else if tag == 21 {
            Ball { y: bits, ..self }
        } else if tag == 29 {
            Ball { vx: bits, ..self }
        } else if tag == 37 {
            Ball { vy: bits, ..self }
        } else {
            self
        }
    }

    /// The message on the wire.
    pub open spec fn encoding(self) -> Seq<u8> {
        field(13, self.x) + field(21, self.y) + field(29, self.vx) + field(37, self.vy)
    }

    /// The message as it comes back from the wire.
    pub open spec fn as_written(self) -> Ball {
        Ball {
            x: as_written(self.x),
            y: as_written(self.y),
            vx: as_written(self.vx),
            vy: as_written(self.vy),
        }
    }
}

impl Paddle {
    /// The message on the wire.
    pub open spec fn encoding(self) -> Seq<u8> {
        field(13, self.y)
    }
}

/// The numbers that a run of fields holds, over those of `acc`: of the
/// fields, those with one of the first `count` number tags are read, and
/// the others passed over. `None` where a tag or a value cannot be read. A
/// paddle's height travels in the place of a ball's `x`.
pub open spec fn numbers_decoded(bytes: Seq<u8>, count: int, acc: Ball) -> Option<Ball>
    decreases bytes.len(),
{
    if bytes.len() == 0 {
        Some(acc)
    } else {
        match varint32_at(bytes) {
            None => None,
            Some((tag, n)) => {
                let rest = bytes.skip(n);
                if !(0 < n <= bytes.len()) {
                    None
                } else if is_number_tag(tag, count) {
                    if rest.len() >= 4 {
                        numbers_decoded(rest.skip(4), count, acc.with(tag, le32(rest)))
                    } else {
                        None
                    }
                } else {
                    match unknown_len(rest, tag) {
                        None => None,
                        Some(k) => if 0 <= k <= rest.len() {
                            numbers_decoded(rest.skip(k), count, acc)
                        } else {
                            None
                        },
                    }
                }
            },
        }
    }
}

/// The message that a field of an `Update` holds, and how many bytes its
/// length and the message take: a field with the tag 10 holds a `Paddle`,
/// any other a `Ball`. `None` where the length or the message cannot be
/// read, or the length is more than what is left.
pub open spec fn held_at(value: Seq<u8>, tag: u32) -> Option<(OneOfUpdateType, int)> {
    match varint32_at(value) {
        None => None,
        Some((len, m)) => {
            let body = value.skip(m);
            if !(0 < m <= value.len()) || len > body.len() {
                None
            } else {
                match numbers_decoded(
                    body.take(len as int),
                    if tag == 10 {
                        1
                    } else {
                        4
                    },
                    Ball::zeroed(),
                ) {
                    None => None,
                    Some(b) => Some(
                        (
                            if tag == 10 {
                                OneOfUpdateType::paddle(Paddle { y: b.x })
                            } else {
                                OneOfUpdateType::ball(b)
                            },
                            m + len,
                        ),
                    ),
                }
            }
        },
    }
}

/// What an `Update` holds after a run of fields, over `acc`: a field with
/// the tag 10 is a `Paddle` and one with the tag 18 a `Ball`, each preceded
/// by its length; other fields are passed over. `None` where a tag, a
/// length or a value cannot be read, or a length is more than what is left.
pub open spec fn update_decoded(bytes: Seq<u8>, acc: OneOfUpdateType) -> Option<OneOfUpdateType>
    decreases bytes.len(),
{
    if bytes.len() == 0 {
        Some(acc)
    } else {
        match varint32_at(bytes) {
            None => None,
            Some((tag, n)) => {
                let rest = bytes.skip(n);
                if !(0 < n <= bytes.len()) {
                    None
                } else if tag == 10 || tag == 18 {
                    match held_at(rest, tag) {
                        None => None,
                        Some((held, k)) => if 0 <= k <= rest.len() {
                            update_decoded(rest.skip(k), held)
                        } else {
                            None
                        },
                    }
                } else {
                    match unknown_len(rest, tag) {
                        None => None,
                        Some(k) => if 0 <= k <= rest.len() {
                            update_decoded(rest.skip(k), acc)
                        } else {
                            None
                        },
                    }
                }
            },
        }
    }
}

/// Appends a number as a field, if it is not zero.
fn write_number(out: &mut Vec<u8>, tag: u8, bits: u32) -> (r: Result<(), WireError>)
    requires
        tag < 128,
    ensures
        r is Ok,
        final(out)@ == old(out)@ + field(tag, bits),
{
    if zero(bits) {
        assert(out@ + field(tag, bits) =~= out@);
        return Ok(());
    }
    proof {
        lemma_short_varint(tag as u64);
    }
    match write_tag(out, tag as u32) {
        Ok(()) => {},
        Err(e) => {
            return Err(wire_error(e));
        },
    }
    match write_fixed32(out, bits) {
        Ok(()) => {
            assert(out@ =~= old(out)@ + field(tag, bits));
            Ok(())
        },
        Err(e) => Err(wire_error(e)),
    }
}

/// Reads the numbers that a run of fields holds: see `numbers_decoded`.
fn read_numbers(bytes: &[u8], count: u8) -> (r: Result<Ball, WireError>)
    ensures
        r is Ok <==> numbers_decoded(bytes@, count as int, Ball::zeroed()) is Some,
        r matches Ok(b) ==> numbers_decoded(bytes@, count as int, Ball::zeroed()) == Some(b),
{
    let len: usize = bytes.len();
    let mut acc = Ball { x: 0, y: 0, vx: 0, vy: 0 };
    let mut at: usize = 0;
    assert(bytes@.skip(0) =~= bytes@);
    while at < len
        invariant
            at <= len == bytes@.len(),
            numbers_decoded(bytes@.skip(at as int), count as int, acc) == numbers_decoded(
                bytes@,
                count as int,
                Ball::zeroed(),
            ),
        decreases len - at,
    {
        let rest = slice_subrange(bytes, at, len);
        assert(rest@ =~= bytes@.skip(at as int));
        let (tag, left) = match next_tag(rest) {
            Ok(read) => read,
            Err(e) => {
                return Err(wire_error(e));
            },
        };
        let n: usize = len - at - left;
        let value = slice_subrange(bytes, at + n, len);
        assert(value@ =~= rest@.skip(n as int));
        if tag == 13 || (count == 4 && (tag == 21 || tag == 29 || tag == 37)) {
            let bits = match read_fixed32(value) {
                Ok(bits) => bits,
                Err(e) => {
                    return Err(wire_error(e));
                },
            };
            if tag == 13 {
                acc.x = bits;
            } else if tag == 21 {
                acc.y = bits;
            } else if tag == 29 {
                acc.vx = bits;
            } else {
                acc.vy = bits;
            }
            assert(bytes@.skip(at + n + 4) =~= value@.skip(4));
            at = at + n + 4;
        } else {
            let k: usize = match skip_unknown(value, tag) {
                Ok(left) => len - at - n - left,
                Err(e) => {
                    return Err(wire_error(e));
                },
            };
            assert(bytes@.skip(at + n + k) =~= value@.skip(k as int));
            at = at + n + k;
        }
    }
    assert(bytes@.skip(len as int) =~= Seq::<u8>::empty());
    Ok(acc)
}

impl Paddle {
    /// The number of bytes of the message on the wire.
    pub fn get_size(&self) -> (n: usize)
        ensures
            n == self.encoding().len(),
            n <= 5,
    {
        if zero(self.y) {
            0
        } else {
            1 + 4
        }
    }

    /// Appends the message as it is on the wire, that and nothing else.
    /// Writing to a vector always succeeds.
    pub fn write_message(&self, out: &mut Vec<u8>) -> (r: Result<(), WireError>)
        ensures
            r is Ok,
            final(out)@ == old(out)@ + self.encoding(),
    {
        write_number(out, 13, self.y)
    }

    /// Reads a message from the wire: see `numbers_decoded`.
    pub fn from_reader(bytes: &[u8]) -> (r: Result<Paddle, WireError>)
        ensures
            r is Ok <==> numbers_decoded(bytes@, 1, Ball::zeroed()) is Some,
            r matches Ok(m) ==> numbers_decoded(bytes@, 1, Ball::zeroed()) matches Some(b) && m.y
                == b.x,
    {
        match read_numbers(bytes, 1) {
            Ok(b) => Ok(Paddle { y: b.x }),
            Err(e) => Err(e),
        }
    }
}

impl Ball {
    /// The number of bytes of the message on the wire.
    pub fn get_size(&self) -> (n: usize)
        ensures
            n == self.encoding().len(),
            n <= 20,
    {
        let a: usize = if zero(self.x) {
            0
        } else {
            1 + 4
        };
        let b: usize = if zero(self.y) {
            0
        } else {
            1 + 4
        };
        let c: usize = if zero(self.vx) {
            0
        } else {
            1 + 4
        };
        let d: usize = if zero(self.vy) {
            0
        } else {
            1 + 4
        };
        a + b + c + d
    }

    /// Appends the message as it is on the wire, that and nothing else.
    /// Writing to a vector always succeeds.
    pub fn write_message(&self, out: &mut Vec<u8>) -> (r: Result<(), WireError>)
        ensures
            r is Ok,
            final(out)@ == old(out)@ + self.encoding(),
    {
        write_number(out, 13, self.x)?;
        write_number(out, 21, self.y)?;
        write_number(out, 29, self.vx)?;
        write_number(out, 37, self.vy)?;
        assert(out@ =~= old(out)@ + self.encoding());
        Ok(())
    }

    /// Reads a message from the wire: see `numbers_decoded`.
    pub fn from_reader(bytes: &[u8]) -> (r: Result<Ball, WireError>)
        ensures
            r is Ok <==> numbers_decoded(bytes@, 4, Ball::zeroed()) is Some,
            r matches Ok(m) ==> numbers_decoded(bytes@, 4, Ball::zeroed()) == Some(m),
    {
        read_numbers(bytes, 4)
    }
}

impl Default for OneOfUpdateType {
    /// What a new `Update` holds: nothing.
    fn default() -> (u: OneOfUpdateType)
        ensures
            u == OneOfUpdateType::Unset,
    {
        OneOfUpdateType::Unset
    }
}

impl Update {
    /// The message on the wire.
    pub open spec fn encoding(self) -> Seq<u8> {
        match self.UpdateType {
            OneOfUpdateType::paddle(m) => nested(10, m.encoding()),
            OneOfUpdateType::ball(m) => nested(18, m.encoding()),
            OneOfUpdateType::Unset => Seq::<u8>::empty(),
        }
    }

    /// The message as it comes back from the wire.
    pub open spec fn as_written(self) -> Update {
        Update {
            UpdateType: match self.UpdateType {
                OneOfUpdateType::paddle(m) => OneOfUpdateType::paddle(
                    Paddle { y: as_written(m.y) },
                ),
                OneOfUpdateType::ball(m) => OneOfUpdateType::ball(m.as_written()),
                OneOfUpdateType::Unset => OneOfUpdateType::Unset,
            },
        }
    }

    /// The number of bytes of the message on the wire.
    pub fn get_size(&self) -> (n: usize)
        ensures
            n == self.encoding().len(),
            n <= 22,
    {
        match self.UpdateType {
            OneOfUpdateType::paddle(ref m) => {
                proof {
                    lemma_short_varint(m.encoding().len() as u64);
                }
                1 + quick_protobuf::sizeofs::sizeof_len(m.get_size())
            },
            OneOfUpdateType::ball(ref m) => {
                proof {
                    lemma_short_varint(m.encoding().len() as u64);
                }
                1 + quick_protobuf::sizeofs::sizeof_len(m.get_size())
            },
            OneOfUpdateType::Unset => 0,
        }
    }

    /// Appends the message as it is on the wire, that and nothing else.
    /// Writing to a vector always succeeds.
    pub fn write_message(&self, out: &mut Vec<u8>) -> (r: Result<(), WireError>)
        ensures
            r is Ok,
            final(out)@ == old(out)@ + self.encoding(),
    {
        match self.UpdateType {
            OneOfUpdateType::paddle(ref m) => {
                proof {
                    lemma_short_varint(10);
                }
                match write_tag(out, 10) {
                    Ok(()) => {},
                    Err(e) => {
                        return Err(wire_error(e));
                    },
                }
                match write_varint(out, m.get_size() as u64) {
                    Ok(()) => {},
                    Err(e) => {
                        return Err(wire_error(e));
                    },
                }
                m.write_message(out)?;
                assert(out@ =~= old(out)@ + self.encoding());
                Ok(())
            },
            OneOfUpdateType::ball(ref m) => {
                proof {
                    lemma_short_varint(18);
                }
                match write_tag(out, 18) {
                    Ok(()) => {},
                    Err(e) => {
                        return Err(wire_error(e));
                    },
                }
                match write_varint(out, m.get_size() as u64) {
                    Ok(()) => {},
                    Err(e) => {
                        return Err(wire_error(e));
                    },
                }
                m.write_message(out)?;
                assert(out@ =~= old(out)@ + self.encoding());
                Ok(())
            },
            OneOfUpdateType::Unset => {
                assert(out@ =~= old(out)@ + self.encoding());
                Ok(())
            },
        }
    }

    /// Reads a message from the wire: see `update_decoded`.
    pub fn from_reader(bytes: &[u8]) -> (r: Result<Update, WireError>)
        ensures
            r is Ok <==> update_decoded(bytes@, OneOfUpdateType::Unset) is Some,
            r matches Ok(u) ==> update_decoded(bytes@, OneOfUpdateType::Unset) == Some(
                u.UpdateType,
            ),
    {
        let len: usize = bytes.len();
        let mut acc = OneOfUpdateType::Unset;
        let mut at: usize = 0;
        assert(bytes@.skip(0) =~= bytes@);
        while at < len
            invariant
                at <= len == bytes@.len(),
                update_decoded(bytes@.skip(at as int), acc) == update_decoded(
                    bytes@,
                    OneOfUpdateType::Unset,
                ),
            decreases len - at,
        {
            let rest = slice_subrange(bytes, at, len);
            assert(rest@ =~= bytes@.skip(at as int));
            let (tag, left) = match next_tag(rest) {
                Ok(read) => read,
                Err(e) => {
                    return Err(wire_error(e));
                },
            };
            let n: usize = len - at - left;
            let value = slice_subrange(bytes, at + n, len);
            assert(value@ =~= rest@.skip(n as int));
            if tag == 10 || tag == 18 {
                let (held, k) = read_held(value, tag)?;
                assert(bytes@.skip(at + n + k) =~= value@.skip(k as int));
                acc = held;
                at = at + n + k;
            } else {
                let k: usize = match skip_unknown(value, tag) {
                    Ok(left) => len - at - n - left,
                    Err(e) => {
                        return Err(wire_error(e));
                    },
                };
                assert(bytes@.skip(at + n + k) =~= value@.skip(k as int));
                at = at + n + k;
            }
        }
        assert(bytes@.skip(len as int) =~= Seq::<u8>::empty());
        Ok(Update { UpdateType: acc })
    }
}

/// Reads the message that a field of an `Update` holds, and returns it with
/// the number of bytes that its length and the message take: see `held_at`.
fn read_held(value: &[u8], tag: u32) -> (r: Result<(OneOfUpdateType, usize), WireError>)
    ensures
        r is Ok <==> held_at(value@, tag) is Some,
        r matches Ok((held, k)) ==> held_at(value@, tag) == Some((held, k as int)) && k
            <= value@.len(),
{
    let len: usize = value.len();
    let (size, left) = match next_tag(value) {
        Ok(read) => read,
        Err(e) => {
            return Err(wire_error(e));
        },
    };
    let m: usize = len - left;
    if size as usize > left {
        return Err(WireError::UnexpectedEndOfBuffer);
    }
    let end: usize = m + size as usize;
    let body = slice_subrange(value, m, end);
    assert(body@ =~= value@.skip(m as int).take(size as int));
    if tag == 10 {
        let b = read_numbers(body, 1)?;
        Ok((OneOfUpdateType::paddle(Paddle { y: b.x }), end))
    } else {
        let b = read_numbers(body, 4)?;
        Ok((OneOfUpdateType::ball(b), end))
    }
}

/// A number written as a field and read back replaces the number of its
/// tag, unless it is zero: then nothing was written and nothing changes.
pub proof fn lemma_number_read_back(tag: u8, bits: u32, tail: Seq<u8>, count: int, acc: Ball)
    requires
        is_number_tag(tag as u32, count),
    ensures
        numbers_decoded(field(tag, bits) + tail, count, acc) == numbers_decoded(
            tail,
            count,
            if is_zero(bits) {
                acc
            } else {
                acc.with(tag as u32, bits)
            },
        ),
{
    let s = field(tag, bits) + tail;
    if is_zero(bits) {
        assert(s =~= tail);
    } else {
        lemma_le32_of_le_bytes(bits, tail);
        assert(s[0] == tag);
        assert(s.skip(1) =~= le_bytes(bits) + tail);
        assert(varint32_at(s) == Some((tag as u32, 1int)));
    }
}

/// A `Ball` read back from its form on the wire is the `Ball` that was
/// written, with zero for minus zero.
#[verifier::rlimit(40)]
pub proof fn lemma_ball_read_back(m: Ball)
    ensures
        numbers_decoded(m.encoding(), 4, Ball::zeroed()) == Some(m.as_written()),
{
    let none = Seq::<u8>::empty();
    let t3 = field(37, m.vy) + none;
    let t2 = field(29, m.vx) + t3;
    let t1 = field(21, m.y) + t2;
    assert(m.encoding() =~= field(13, m.x) + t1);
    lemma_number_read_back(13, m.x, t1, 4, Ball::zeroed());
    let a1 = if is_zero(m.x) {
        Ball::zeroed()
    } else {
        Ball::zeroed().with(13, m.x)
    };
    lemma_number_read_back(21, m.y, t2, 4, a1);
    let a2 = if is_zero(m.y) {
        a1
    } else {
        a1.with(21, m.y)
    };
    lemma_number_read_back(29, m.vx, t3, 4, a2);
    let a3 = if is_zero(m.vx) {
        a2
    } else {
        a2.with(29, m.vx)
    };
    lemma_number_read_back(37, m.vy, none, 4, a3);
}

/// A `Paddle` read back from its form on the wire is the `Paddle` that was
/// written, with zero for minus zero.
pub proof fn lemma_paddle_read_back(m: Paddle)
    ensures
        numbers_decoded(m.encoding(), 1, Ball::zeroed()) matches Some(b) && b.x == as_written(
            m.y,
        ),
{
    let none = Seq::<u8>::empty();
    assert(m.encoding() =~= field(13, m.y) + none);
    lemma_number_read_back(13, m.y, none, 1, Ball::zeroed());
}

/// An `Update` read back from its form on the wire is the `Update` that was
/// written, with zero for minus zero.
pub proof fn lemma_update_read_back(u: Update)
    ensures
        update_decoded(u.encoding(), OneOfUpdateType::Unset) == Some(u.as_written().UpdateType),
{
    let none = Seq::<u8>::empty();
    match u.UpdateType {
        OneOfUpdateType::Unset => {
            assert(u.encoding().len() == 0);
        },
        OneOfUpdateType::paddle(m) => {
            assert(m.encoding().len() <= 5);
            lemma_paddle_read_back(m);
            lemma_nested_read_back(10, m.encoding());
            let held = OneOfUpdateType::paddle(Paddle { y: as_written(m.y) });
            let rest = u.encoding().skip(1);
            assert(held_at(rest, 10) == Some((held, 1 + m.encoding().len() as int)));
            assert(rest.skip(1 + m.encoding().len() as int) =~= none);
            assert(update_decoded(none, held) == Some(held));
        },
        OneOfUpdateType::ball(m) => {
            assert(m.encoding().len() <= 20);
            lemma_ball_read_back(m);
            lemma_nested_read_back(18, m.encoding());
            let held = OneOfUpdateType::ball(m.as_written());
            let rest = u.encoding().skip(1);
            assert(held_at(rest, 18) == Some((held, 1 + m.encoding().len() as int)));
            assert(rest.skip(1 + m.encoding().len() as int) =~= none);
            assert(update_decoded(none, held) == Some(held));
        },
    }
}

/// Of a message of fewer than 128 bytes that is written as the only field
/// of another, the tag, the length and the body are read back as they were
/// written.
pub proof fn lemma_nested_read_back(tag: u8, body: Seq<u8>)
    requires
        tag == 10 || tag == 18,
        body.len() < 128,
    ensures
        ({
            let s = nested(tag, body);
            let rest = s.skip(1);
            &&& varint32_at(s) == Some((tag as u32, 1int))
            &&& varint32_at(rest) == Some((body.len() as u32, 1int))
            &&& rest.skip(1).take(body.len() as int) == body
            &&& rest.skip(1).skip(body.len() as int) == Seq::<u8>::empty()
        }),
{
    let s = nested(tag, body);
    lemma_short_varint(body.len() as u64);
    assert(s[0] == tag);
    let rest = s.skip(1);
    assert(rest =~= seq![body.len() as u8] + body);
    assert(rest[0] == body.len() as u8);
    assert(rest.skip(1) =~= body);
    assert(rest.skip(1).take(body.len() as int) =~= body);
    assert(rest.skip(1).skip(body.len() as int) =~= Seq::<u8>::empty());
}

} // verus!
