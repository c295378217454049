//! Fixed-width big-endian integers: what the instruction stream stores its
//! operands as.

use crate::disassemble::{DataFault, DisassemblyError};
use byteorder::{BigEndian, ByteOrder};
use vstd::prelude::*;

verus! {

/// The number that `data` spells, most significant byte first.
pub open spec fn be_value(data: Seq<u8>) -> nat
    decreases data.len(),
{
    if data.len() == 0 {
        0
    } else {
        be_value(data.drop_last()) * 256 + data.last() as nat
    }
}

/// The `width` low bytes of `v`, most significant byte first.
pub open spec fn be_bytes(v: nat, width: nat) -> Seq<u8>
    decreases width,
{
    if width == 0 {
        Seq::empty()
    } else {
        be_bytes(v / 256, (width - 1) as nat).push((v % 256) as u8)
    }
}

/// 256 to the power `width`: how many numbers `width` bytes can spell.
pub open spec fn span(width: nat) -> nat
    decreases width,
{
    if width == 0 {
        1
    } else {
        256 * span((width - 1) as nat)
    }
}

/// The signed number that `data` spells in two's complement.
pub open spec fn be_signed(data: Seq<u8>) -> int {
    if 2 * be_value(data) >= span(data.len()) {
        be_value(data) - span(data.len())
    } else {
        be_value(data) as int
    }
}

/// The unsigned number with the same `width` bytes as `v` in two's complement.
pub open spec fn unsigned_of(v: int, width: nat) -> nat {
    if v < 0 {
        (v + span(width)) as nat
    } else {
        v as nat
    }
}

/// The spans of the widths that the stream uses.
pub proof fn lemma_span_values()
    ensures
        span(0) == 1,
        span(1) == 0x100,
        span(2) == 0x1_0000,
        span(3) == 0x100_0000,
        span(4) == 0x1_0000_0000,
{
    reveal_with_fuel(span, 5);
}

/// A number spelled in `width` bytes takes `width` bytes.
pub proof fn lemma_be_bytes_len(v: nat, width: nat)
    ensures
        be_bytes(v, width).len() == width,
    decreases width,
{
    if width > 0 {
        lemma_be_bytes_len(v / 256, (width - 1) as nat);
    }
}

/// A number of `data.len()` bytes is below `span(data.len())`.
pub proof fn lemma_be_value_bound(data: Seq<u8>)
    ensures
        be_value(data) < span(data.len()),
    decreases data.len(),
{
    if data.len() > 0 {
        lemma_be_value_bound(data.drop_last());
    }
}

/// Spelling a number and reading it again gives the number back.
pub proof fn law_bytes_spell_value(v: nat, width: nat)
    requires
        v < span(width),
    ensures
        be_bytes(v, width).len() == width,
        be_value(be_bytes(v, width)) == v,
    decreases width,
{
    if width > 0 {
        let rest = be_bytes(v / 256, (width - 1) as nat);
        law_bytes_spell_value(v / 256, (width - 1) as nat);
        assert(be_bytes(v, width).drop_last() =~= rest);
    }
}

/// Reading bytes as a number and spelling it again gives the bytes back.
pub proof fn lemma_be_bytes_of_value(data: Seq<u8>)
    ensures
        be_bytes(be_value(data), data.len()) == data,
    decreases data.len(),
{
    if data.len() > 0 {
        let head = data.drop_last();
        lemma_be_bytes_of_value(head);
        let v = be_value(data);
        assert(v / 256 == be_value(head));
        assert(v % 256 == data.last() as nat);
        assert(be_bytes(v, data.len()) =~= data);
    } else {
        assert(be_bytes(be_value(data), data.len()) =~= data);
    }
}

proof fn lemma_be_value_2(data: Seq<u8>)
    requires
        data.len() == 2,
    ensures
        be_value(data) == data[0] * 256 + data[1],
{
    reveal_with_fuel(be_value, 3);
    assert(data.drop_last().drop_last().len() == 0);
}

proof fn lemma_be_value_4(data: Seq<u8>)
    requires
        data.len() == 4,
    ensures
        be_value(data) == ((data[0] * 256 + data[1]) * 256 + data[2]) * 256 + data[3],
{
    reveal_with_fuel(be_value, 5);
    let d3 = data.drop_last();
    let d2 = d3.drop_last();
    let d1 = d2.drop_last();
    assert(d1.drop_last().len() == 0);
    assert(be_value(d1) == data[0] as nat);
    assert(be_value(d2) == be_value(d1) * 256 + data[1]);
    assert(be_value(d3) == be_value(d2) * 256 + data[2]);
}

proof fn lemma_be_bytes_1(v: nat)
    ensures
        be_bytes(v, 1) == seq![(v % 256) as u8],
{
    reveal_with_fuel(be_bytes, 2);
    assert(be_bytes(v, 1) =~= seq![(v % 256) as u8]);
}

proof fn lemma_be_bytes_2(v: nat)
    ensures
        be_bytes(v, 2) == seq![(v / 256 % 256) as u8, (v % 256) as u8],
{
    reveal_with_fuel(be_bytes, 3);
    assert(be_bytes(v, 2) =~= seq![(v / 256 % 256) as u8, (v % 256) as u8]);
}

proof fn lemma_be_bytes_4(v: nat)
    ensures
        be_bytes(v, 4) == seq![
            (v / 0x100_0000 % 256) as u8,
            (v / 0x1_0000 % 256) as u8,
            (v / 256 % 256) as u8,
            (v % 256) as u8,
        ],
{
    reveal_with_fuel(be_bytes, 5);
    assert(v / 256 / 256 == v / 0x1_0000);
    assert(v / 256 / 256 / 256 == v / 0x100_0000);
    assert(be_bytes(v, 4) =~= seq![
        (v / 0x100_0000 % 256) as u8,
        (v / 0x1_0000 % 256) as u8,
        (v / 256 % 256) as u8,
        (v % 256) as u8,
    ]);
}

/// `byteorder::BigEndian::read_u16`: the first two bytes of `data` as one
/// number, the first byte the more significant.
#[verifier::external_body]
fn read_u16_be(data: &[u8]) -> (r: u16)
    requires
        data@.len() >= 2,
    ensures
        r == data@[0] * 256 + data@[1],
{
    BigEndian::read_u16(data)
}

/// `byteorder::BigEndian::read_u32`: the first four bytes of `data` as one
/// number, the first byte the most significant.
#[verifier::external_body]
fn read_u32_be(data: &[u8]) -> (r: u32)
    requires
        data@.len() >= 4,
    ensures
        r == ((data@[0] * 256 + data@[1]) * 256 + data@[2]) * 256 + data@[3],
{
    BigEndian::read_u32(data)
}

/// `byteorder::BigEndian::read_i16`: the first two bytes of `data` as one
/// number in two's complement, the first byte the more significant.
#[verifier::external_body]
fn read_i16_be(data: &[u8]) -> (r: i16)
    requires
        data@.len() >= 2,
    ensures
        r == if data@[0] >= 0x80 {
            data@[0] * 256 + data@[1] - 0x1_0000
        } else {
            data@[0] * 256 + data@[1]
        },
{
    BigEndian::read_i16(data)
}

/// `byteorder::BigEndian::read_i32`: the first four bytes of `data` as one
/// number in two's complement, the first byte the most significant.
#[verifier::external_body]
fn read_i32_be(data: &[u8]) -> (r: i32)
    requires
        data@.len() >= 4,
    ensures
        r == if data@[0] >= 0x80 {
            ((data@[0] * 256 + data@[1]) * 256 + data@[2]) * 256 + data@[3] - 0x1_0000_0000
        } else {
            ((data@[0] * 256 + data@[1]) * 256 + data@[2]) * 256 + data@[3]
        },
{
    BigEndian::read_i32(data)
}

/// `byteorder::BigEndian::write_u16`: the two bytes of `n`, the more
/// significant first.
#[verifier::external_body]
fn write_u16_be(n: u16) -> (r: Vec<u8>)
    ensures
        r@ == seq![(n / 256) as u8, (n % 256) as u8],
{
    let mut buf = vec![0u8; 2];
    BigEndian::write_u16(&mut buf, n);
    buf
}

/// `byteorder::BigEndian::write_u32`: the four bytes of `n`, the most
/// significant first.
#[verifier::external_body]
fn write_u32_be(n: u32) -> (r: Vec<u8>)
    ensures
        r@ == seq![
            (n / 0x100_0000) as u8,
            (n / 0x1_0000 % 256) as u8,
            (n / 256 % 256) as u8,
            (n % 256) as u8,
        ],
{
    let mut buf = vec![0u8; 4];
    BigEndian::write_u32(&mut buf, n);
    buf
}

/// `byteorder::BigEndian::write_i16`: the two bytes of `n` in two's
/// complement, the more significant first.
#[verifier::external_body]
fn write_i16_be(n: i16) -> (r: Vec<u8>)
    ensures
        r@ == seq![
            ((if n < 0 { n + 0x1_0000 } else { n as int }) / 256) as u8,
            ((if n < 0 { n + 0x1_0000 } else { n as int }) % 256) as u8,
        ],
{
    let mut buf = vec![0u8; 2];
    BigEndian::write_i16(&mut buf, n);
    buf
}

/// `byteorder::BigEndian::write_i32`: the four bytes of `n` in two's
/// complement, the most significant first.
#[verifier::external_body]
fn write_i32_be(n: i32) -> (r: Vec<u8>)
    ensures
        r@ == seq![
            ((if n < 0 { n + 0x1_0000_0000 } else { n as int }) / 0x100_0000) as u8,
            ((if n < 0 { n + 0x1_0000_0000 } else { n as int }) / 0x1_0000 % 256) as u8,
            ((if n < 0 { n + 0x1_0000_0000 } else { n as int }) / 256 % 256) as u8,
            ((if n < 0 { n + 0x1_0000_0000 } else { n as int }) % 256) as u8,
        ],
{
    let mut buf = vec![0u8; 4];
    BigEndian::write_i32(&mut buf, n);
    buf
}

/// Reads an unsigned integer of one, two or four bytes. Any other width is a
/// fault of the operand tables, not of the stream.
pub fn bytes_to_uint(data: &[u8]) -> (r: Result<u32, DisassemblyError>)
    ensures
        match r {
            Ok(v) => (data@.len() == 1 || data@.len() == 2 || data@.len() == 4) && v
                == be_value(data@),
            Err(e) => !(data@.len() == 1 || data@.len() == 2 || data@.len() == 4) && e
                == DisassemblyError::DataError(DataFault::UnsignedSize(data@.len() as usize)),
        },
{
    let n = data.len();
    if n == 1 {
        proof {
            reveal_with_fuel(be_value, 2);
        }
        Ok(data[0] as u32)
    } else if n == 2 {
        proof {
            lemma_be_value_2(data@);
        }
        Ok(read_u16_be(data) as u32)
    } else if n == 4 {
        proof {
            lemma_be_value_4(data@);
        }
        Ok(read_u32_be(data))
    } else {
        Err(DisassemblyError::DataError(DataFault::UnsignedSize(n)))
    }
}

/// Reads a signed integer of two or four bytes, in two's complement. Any
/// other width is a fault of the operand tables, not of the stream.
pub fn bytes_to_int(data: &[u8]) -> (r: Result<i32, DisassemblyError>)
    ensures
        match r {
            Ok(v) => (data@.len() == 2 || data@.len() == 4) && v == be_signed(data@),
            Err(e) => !(data@.len() == 2 || data@.len() == 4) && e == DisassemblyError::DataError(
                DataFault::SignedSize(data@.len() as usize),
            ),
        },
{
    let n = data.len();
    proof {
        lemma_span_values();
    }
    if n == 2 {
        proof {
            lemma_be_value_2(data@);
        }
        Ok(read_i16_be(data) as i32)
    } else if n == 4 {
        proof {
            lemma_be_value_4(data@);
        }
        Ok(read_i32_be(data))
    } else {
        Err(DisassemblyError::DataError(DataFault::SignedSize(n)))
    }
}

/// The bit pattern of a four-byte float. Any other width is a fault of the
/// operand tables.
pub fn bytes_to_float_bits(data: &[u8]) -> (r: Result<u32, DisassemblyError>)
    ensures
        match r {
            Ok(v) => data@.len() == 4 && v == be_value(data@),
            Err(e) => data@.len() != 4 && e == DisassemblyError::DataError(
                DataFault::FloatSize(data@.len() as usize),
            ),
        },
{
    let n = data.len();
    if n == 4 {
        proof {
            lemma_be_value_4(data@);
        }
        Ok(read_u32_be(data))
    } else {
        Err(DisassemblyError::DataError(DataFault::FloatSize(n)))
    }
}

/// Whether `width` bytes can hold the unsigned number `v`, in a width that
/// the stream uses for unsigned integers.
pub open spec fn fits_unsigned(v: nat, width: nat) -> bool {
    (width == 1 || width == 2 || width == 4) && v < span(width)
}

/// Whether `width` bytes can hold the signed number `v`, in a width that the
/// stream uses for signed integers.
pub open spec fn fits_signed(v: int, width: nat) -> bool {
    (width == 2 || width == 4) && -(span(width) as int) <= 2 * v < span(width)
}

/// Spells `v` in `width` bytes, where `width` is one, two or four and `v` fits.
pub fn uint_to_bytes(v: u32, width: usize) -> (r: Option<Vec<u8>>)
    ensures
        r is Some <==> fits_unsigned(v as nat, width as nat),
        r is Some ==> r->0@ == be_bytes(v as nat, width as nat),
{
    proof {
        lemma_span_values();
    }
    if width == 1 && v < 0x100 {
        proof {
            lemma_be_bytes_1(v as nat);
        }
        let mut b: Vec<u8> = Vec::new();
        b.push(v as u8);
        Some(b)
    } else if width == 2 && v < 0x1_0000 {
        proof {
            lemma_be_bytes_2(v as nat);
        }
        Some(write_u16_be(v as u16))
    } else if width == 4 {
        proof {
            lemma_be_bytes_4(v as nat);
        }
        Some(write_u32_be(v))
    } else {
        None
    }
}

/// Spells `v` in `width` bytes of two's complement, where `width` is two or
/// four and `v` fits.
pub fn int_to_bytes(v: i32, width: usize) -> (r: Option<Vec<u8>>)
    ensures
        r is Some <==> fits_signed(v as int, width as nat),
        r is Some ==> r->0@ == be_bytes(unsigned_of(v as int, width as nat), width as nat),
{
    proof {
        lemma_span_values();
    }
    if width == 2 && -0x8000 <= v && v < 0x8000 {
        proof {
            lemma_be_bytes_2(unsigned_of(v as int, 2));
        }
        Some(write_i16_be(v as i16))
    } else if width == 4 {
        proof {
            lemma_be_bytes_4(unsigned_of(v as int, 4));
        }
        Some(write_i32_be(v))
    } else {
        None
    }
}

} // verus!
