//! From bytecode to assembly text.

use crate::decoder::{supplied, Decoder};
use crate::io_utils::{be_signed, be_value, bytes_to_float_bits, bytes_to_int, bytes_to_uint};
use crate::opcodes::{
    builtin_nwtypes, get_nwtypes, lemma_mnemonic_word, lemma_suffix_word, Instr, NWType, NWTypeE,
    OpPayload, Opcode, OpcodeE, Operand,
};
use crate::text::{
    decimal_text, dec_digits, hex_text, hex_text_fixed, push_bytes, push_dec_digits, push_decimal,
    push_hex, push_hex_padded, push_spaces, spaces, AT, HASH, NEWLINE, QUESTION, QUOTE, SEMICOLON,
};
use crate::{find_float_text, float_text_of, FloatText, Routine};
use std::collections::HashMap;
use vstd::prelude::*;
use vstd::slice::slice_subrange;

verus! {

broadcast use vstd::std_specs::hash::group_hash_axioms;

/// Length of the header that every program starts with.
pub const HEADER_BYTES: usize = 8;

/// A fault of the operand tables or of a value handed to a codec.
#[derive(Debug, PartialEq, Eq, Clone, Copy, Structural)]
pub enum DataFault {
    /// An unsigned integer of this many bytes was asked for.
    UnsignedSize(usize),
    /// A signed integer of this many bytes was asked for.
    SignedSize(usize),
    /// A float of this many bytes was asked for.
    FloatSize(usize),
    /// No text is known for the float with this bit pattern.
    FloatText(u32),
}

/// What is wrong with a stream of instructions.
#[derive(Debug, PartialEq, Eq, Clone, Copy, Structural)]
pub enum StreamFault {
    /// The stream is shorter than a header.
    MissingHeader,
    /// The stream ends where the `T` instruction should stand.
    MissingT,
    /// The stream ended inside an instruction.
    UnexpectedEof { got: usize, expected: usize },
    /// No instruction has this code byte.
    UnknownOpcode(u8),
    /// The type byte is not among the legal types of the instruction.
    IllegalType { type_byte: u8, opcode: OpcodeE },
    /// The operand list asks for a string where no size was read before it.
    StringWithoutSize,
    /// The first instruction is not `T`.
    UnexpectedOpcode(OpcodeE),
    /// The instructions run past the byte count that `T` declared.
    SizeMismatch { expected: usize, read: usize },
    /// The stack-type table has no entry for the type byte.
    UndocumentedType { type_byte: u8, opcode: OpcodeE },
}

/// Why a program could not be disassembled.
#[derive(Debug, PartialEq, Eq, Clone, Copy, Structural)]
pub enum DisassemblyError {
    DataError(DataFault),
    /// A fault of the stream, with a byte offset.
    OpStreamError(StreamFault, usize),
}

/// Whether the bytes of the operand are read as an unsigned integer when the
/// instruction is decoded, so that its width is held to one, two or four.
pub open spec fn reads_unsigned(o: Operand) -> bool {
    o is Routine || o is Object || o is Size
}

/// The operands of one instruction as they stand in `stream` from `pos` on:
/// `list[i..]` is still to be read, `size` is the value of the last `Size`
/// read so far in this instruction, and `acc` holds what was read.
///
/// Each operand takes its width in bytes; a `String` takes as many bytes as
/// `size` says, and is a fault without one. An operand that the stream is
/// too short for is a fault at the offset where it starts.
pub open spec fn read_operands(
    stream: Seq<u8>,
    list: Seq<Operand>,
    i: int,
    pos: int,
    size: Option<nat>,
    acc: Seq<(Operand, Seq<u8>)>,
) -> Result<(Seq<(Operand, Seq<u8>)>, int), DisassemblyError>
    decreases list.len() - i,
{
    if i < 0 || i >= list.len() {
        Ok((acc, pos))
    } else {
        let o = list[i];
        let width: Option<nat> = match o.width() {
            Some(w) => Some(w as nat),
            None => size,
        };
        match width {
            None => Err(DisassemblyError::OpStreamError(StreamFault::StringWithoutSize, 0)),
            Some(w) => if pos + w > stream.len() {
                Err(
                    DisassemblyError::OpStreamError(
                        StreamFault::UnexpectedEof {
                            got: available(stream, pos) as usize,
                            expected: w as usize,
                        },
                        pos as usize,
                    ),
                )
            } else {
                let bytes = stream.subrange(pos, pos + w);
                if reads_unsigned(o) && !(w == 1 || w == 2 || w == 4) {
                    Err(DisassemblyError::DataError(DataFault::UnsignedSize(w as usize)))
                } else {
                    read_operands(
                        stream,
                        list,
                        i + 1,
                        pos + w,
                        if o is Size {
                            Some(be_value(bytes))
                        } else {
                            size
                        },
                        acc.push((o, bytes)),
                    )
                }
            },
        }
    }
}

/// How many bytes `stream` holds from `pos` on.
pub open spec fn available(stream: Seq<u8>, pos: int) -> nat {
    if pos < stream.len() {
        (stream.len() - pos) as nat
    } else {
        0
    }
}

/// The fault of a stream that ends at `pos`, where one more byte was due.
pub open spec fn eof_at(pos: int) -> DisassemblyError {
    DisassemblyError::OpStreamError(
        StreamFault::UnexpectedEof { got: 0, expected: 1 },
        pos as usize,
    )
}

/// The instruction that stands in `stream` at `pos`, by the table `opcodes`.
///
/// The first byte selects the table entry. An entry with legal types is
/// followed by a type byte, which must be one of them; the operand list is
/// that of the type byte, or the one listed under 0 for an entry without
/// types. Faults of the code byte and of the type byte carry the offset
/// just behind the byte.
pub open spec fn decode_op(stream: Seq<u8>, opcodes: Seq<Option<Opcode>>, pos: int) -> Result<
    Instr,
    DisassemblyError,
> {
    if pos < 0 || pos >= stream.len() {
        Err(eof_at(pos))
    } else {
        let code = stream[pos];
        if code >= opcodes.len() || opcodes[code as int] is None {
            Err(
                DisassemblyError::OpStreamError(
                    StreamFault::UnknownOpcode(code),
                    (pos + 1) as usize,
                ),
            )
        } else {
            let op = opcodes[code as int]->0;
            if op.typed() {
                if pos + 1 >= stream.len() {
                    Err(eof_at(pos + 1))
                } else {
                    let t = stream[pos + 1];
                    if !op.legal(t) {
                        Err(
                            DisassemblyError::OpStreamError(
                                StreamFault::IllegalType { type_byte: t, opcode: op.code },
                                (pos + 2) as usize,
                            ),
                        )
                    } else {
                        match read_operands(stream, op.operands(t), 0, pos + 2, None, Seq::empty()) {
                            Ok((items, end)) => Ok(
                                Instr { op, type_byte: Some(t), items, len: (end - pos) as nat },
                            ),
                            Err(e) => Err(e),
                        }
                    }
                }
            } else {
                match read_operands(stream, op.operands(0), 0, pos + 1, None, Seq::empty()) {
                    Ok((items, end)) => Ok(
                        Instr { op, type_byte: None, items, len: (end - pos) as nat },
                    ),
                    Err(e) => Err(e),
                }
            }
        }
    }
}

/// Reading operands only moves forward, and never past the end of `stream`.
proof fn lemma_read_operands_end(
    stream: Seq<u8>,
    list: Seq<Operand>,
    i: int,
    pos: int,
    size: Option<nat>,
    acc: Seq<(Operand, Seq<u8>)>,
)
    requires
        0 <= i,
        0 <= pos <= stream.len(),
    ensures
        read_operands(stream, list, i, pos, size, acc) is Ok ==> pos <= read_operands(
            stream,
            list,
            i,
            pos,
            size,
            acc,
        )->Ok_0.1 <= stream.len(),
    decreases list.len() - i,
{
    if i < list.len() {
        let o = list[i];
        let width: Option<nat> = match o.width() {
            Some(w) => Some(w as nat),
            None => size,
        };
        if width is Some && pos + width->0 <= stream.len() {
            let w = width->0;
            let bytes = stream.subrange(pos, pos + w);
            lemma_read_operands_end(
                stream,
                list,
                i + 1,
                pos + w,
                if o is Size {
                    Some(be_value(bytes))
                } else {
                    size
                },
                acc.push((o, bytes)),
            );
        }
    }
}

/// Whether `b` occurs in `v`.
pub(crate) fn contains_byte(v: &Vec<u8>, b: u8) -> (r: bool)
    ensures
        r == v@.contains(b),
{
    let mut i: usize = 0;
    while i < v.len()
        invariant
            i <= v.len(),
            forall|j: int| 0 <= j < i ==> v@[j] != b,
        decreases v.len() - i,
    {
        if v[i] == b {
            return true;
        }
        i += 1;
    }
    false
}

/// A copy of `width` bytes of `stream` from `pos` on.
fn take(stream: &[u8], pos: usize, width: usize) -> (r: Vec<u8>)
    requires
        pos + width <= stream@.len(),
    ensures
        r@ == stream@.subrange(pos as int, pos + width),
{
    let n = stream.len();
    let mut r: Vec<u8> = Vec::new();
    let mut k: usize = 0;
    while k < width
        invariant
            k <= width,
            n == stream@.len(),
            pos + width <= n,
            r@ == stream@.subrange(pos as int, pos + k),
        decreases width - k,
    {
        r.push(stream[pos + k]);
        proof {
            assert(r@ =~= stream@.subrange(pos as int, pos + k + 1));
        }
        k += 1;
    }
    r
}

/// The operand list of `op` under type byte `t`.
pub fn operand_list_of<'a>(op: &'a Opcode, t: u8) -> (r: Option<&'a Vec<Operand>>)
    ensures
        match r {
            Some(list) => list@ == op.operands(t),
            None => op.operands(t) == Seq::<Operand>::empty(),
        },
{
    match &op.args {
        Some(m) => m.get(&t),
        None => None,
    }
}

/// Decodes the instruction that stands in `stream` at offset `byte_count`.
pub fn disassemble_op<'a>(stream: &[u8], opcodes: &'a [Option<Opcode>], byte_count: usize) -> (r:
    Result<OpPayload<'a>, DisassemblyError>)
    ensures
        match r {
            Ok(p) => decode_op(stream@, opcodes@, byte_count as int) == Ok::<Instr, DisassemblyError>(
                p@,
            ),
            Err(e) => decode_op(stream@, opcodes@, byte_count as int) == Err::<
                Instr,
                DisassemblyError,
            >(e),
        },
{
    let n = stream.len();
    if byte_count >= n {
        return Err(
            DisassemblyError::OpStreamError(
                StreamFault::UnexpectedEof { got: 0, expected: 1 },
                byte_count,
            ),
        );
    }
    let mut decoder = Decoder::new(byte_count);
    let mut pos: usize = byte_count;
    while !decoder.is_done()
        invariant
            n == stream@.len(),
            pos <= n,
            decoder.wf(),
            !(decoder is Emit) ==> decoder.position() == pos,
            decoder.outcome(stream@, opcodes@) == decode_op(stream@, opcodes@, byte_count as int),
        decreases decoder.rank(), decoder.left(),
    {
        let want = decoder.wants()?;
        let got = if want > n - pos {
            n - pos
        } else {
            want
        };
        let chunk = slice_subrange(stream, pos, pos + got);
        let ghost before = decoder;
        proof {
            assert(before.wanted()->Ok_0->0 == want as nat);
            assert(supplied(stream@, before.position(), chunk@, before.wanted()->Ok_0->0));
        }
        decoder = decoder.supply(opcodes, chunk)?;
        proof {
            assert(decoder.outcome(stream@, opcodes@) == before.outcome(stream@, opcodes@));
        }
        pos = pos + got;
    }
    Ok(decoder.finish())
}

/// Width of the gutter between the operands of a line.
pub const GUTTER: usize = 5;

/// The entry of the stack-type table for type byte `t`.
pub open spec fn type_entry(nwtypes: Seq<Option<NWType>>, t: u8) -> Option<NWType> {
    if t < nwtypes.len() {
        nwtypes[t as int]
    } else {
        None
    }
}

/// Whether the instruction has fewer than two legal types, so that its
/// mnemonic alone tells the type.
pub open spec fn single_typed(op: Opcode) -> bool {
    op.types is Some && op.types->0@.len() < 2
}

/// What is left of `width` columns behind `used` of them.
pub open spec fn pad_to(width: nat, used: nat) -> nat {
    if width >= used {
        (width - used) as nat
    } else {
        0
    }
}

/// The start of an instruction's line, and whether the first operand
/// follows it without a gutter.
///
/// An instruction without a type byte is its mnemonic, padded to `width`.
/// With a type that has a suffix: the mnemonic alone where the instruction
/// has a single type, else mnemonic and suffix; padded to `width` where
/// operands follow. With a type that has none: the mnemonic alone where the
/// instruction has a single type, else the padded mnemonic and the type
/// byte in hexadecimal.
pub open spec fn render_head(instr: Instr, nwtypes: Seq<Option<NWType>>, width: nat) -> Result<
    (Seq<u8>, bool),
    DisassemblyError,
> {
    let name = instr.op.code.mnemonic();
    let pad = pad_to(width, name.len());
    let more = instr.items.len() > 0;
    match instr.type_byte {
        None => Ok((name + spaces(pad), false)),
        Some(byte) => match type_entry(nwtypes, byte) {
            None => Err(
                DisassemblyError::OpStreamError(
                    StreamFault::UndocumentedType { type_byte: byte, opcode: instr.op.code },
                    0,
                ),
            ),
            Some(ty) => match ty.suffix() {
                Some(abbr) => if single_typed(instr.op) {
                    Ok((name + spaces(if more { pad } else { 0 }), false))
                } else {
                    Ok(
                        (
                            name + abbr + spaces(
                                if more && pad >= abbr.len() {
                                    (pad - abbr.len()) as nat
                                } else {
                                    0
                                },
                            ),
                            true,
                        ),
                    )
                },
                None => if single_typed(instr.op) {
                    Ok((name + spaces(if more { pad } else { 0 }), true))
                } else {
                    Ok((name + spaces(pad) + hex_text_fixed(byte as nat, 2), false))
                },
            },
        },
    }
}

/// Whether an unsigned integer can be this many bytes long.
pub open spec fn unsigned_width(n: nat) -> bool {
    n == 1 || n == 2 || n == 4
}

/// Whether a signed integer can be this many bytes long.
pub open spec fn signed_width(n: nat) -> bool {
    n == 2 || n == 4
}

/// The text of operand `i` of `instr`, behind a gutter where `gutter` is
/// set; `None` for a `Size` that stands before a `String`, which is not
/// written.
pub open spec fn render_operand(
    instr: Instr,
    i: int,
    routines: Map<u16, Routine>,
    floats: Seq<FloatText>,
    gutter: bool,
) -> Result<Option<Seq<u8>>, DisassemblyError> {
    let o = instr.items[i].0;
    let bytes = instr.items[i].1;
    let sep = if gutter {
        spaces(GUTTER as nat)
    } else {
        Seq::empty()
    };
    let unsigned_fault = DisassemblyError::DataError(
        DataFault::UnsignedSize(bytes.len() as usize),
    );
    let signed_fault = DisassemblyError::DataError(DataFault::SignedSize(bytes.len() as usize));
    match o {
        Operand::Size(_) => if !unsigned_width(bytes.len()) {
            Err(unsigned_fault)
        } else if i + 1 < instr.items.len() && instr.items[i + 1].0 is String {
            Ok(None)
        } else if !instr.op.typed() {
            Ok(Some(hex_text_fixed(be_value(bytes), 8)))
        } else {
            Ok(Some(sep + hex_text(be_value(bytes))))
        },
        Operand::Routine(_) => if !unsigned_width(bytes.len()) {
            Err(unsigned_fault)
        } else {
            let id = (be_value(bytes) % 0x1_0000) as u16;
            if routines.contains_key(id) {
                Ok(Some(sep + routines[id].name@ + seq![HASH] + hex_text(be_value(bytes))))
            } else {
                Ok(
                    Some(
                        sep + seq![QUESTION, QUESTION, QUESTION, HASH] + hex_text(
                            be_value(bytes),
                        ),
                    ),
                )
            }
        },
        Operand::Object(_) => if !unsigned_width(bytes.len()) {
            Err(unsigned_fault)
        } else {
            Ok(Some(sep + hex_text(be_value(bytes))))
        },
        Operand::ArgCount(_) => if !unsigned_width(bytes.len()) {
            Err(unsigned_fault)
        } else {
            Ok(Some(sep + dec_digits(be_value(bytes))))
        },
        Operand::Offset(_) => if !signed_width(bytes.len()) {
            Err(signed_fault)
        } else {
            Ok(Some(sep + seq![AT] + decimal_text(be_signed(bytes))))
        },
        Operand::Integer(_) => if !signed_width(bytes.len()) {
            Err(signed_fault)
        } else {
            Ok(Some(sep + decimal_text(be_signed(bytes))))
        },
        Operand::Float(_) => if bytes.len() != 4 {
            Err(DisassemblyError::DataError(DataFault::FloatSize(bytes.len() as usize)))
        } else {
            match float_text_of(floats, be_value(bytes) as u32) {
                Some(t) => Ok(Some(sep + t)),
                None => Err(
                    DisassemblyError::DataError(DataFault::FloatText(be_value(bytes) as u32)),
                ),
            }
        },
        Operand::String => Ok(Some(sep + seq![QUOTE] + bytes + seq![QUOTE])),
    }
}

/// The line `acc` with the operands of `instr` from `i` on behind it. The
/// first operand written stands behind a gutter where `gutter` is set, every
/// later one does.
pub open spec fn render_operands(
    instr: Instr,
    routines: Map<u16, Routine>,
    floats: Seq<FloatText>,
    i: int,
    gutter: bool,
    acc: Seq<u8>,
) -> Result<Seq<u8>, DisassemblyError>
    decreases instr.items.len() - i,
{
    if i < 0 || i >= instr.items.len() {
        Ok(acc)
    } else {
        match render_operand(instr, i, routines, floats, gutter) {
            Err(e) => Err(e),
            Ok(None) => render_operands(instr, routines, floats, i + 1, gutter, acc),
            Ok(Some(t)) => render_operands(instr, routines, floats, i + 1, true, acc + t),
        }
    }
}

/// The line of text of one instruction, with the line feed that ends it.
pub open spec fn render_line(
    instr: Instr,
    routines: Map<u16, Routine>,
    nwtypes: Seq<Option<NWType>>,
    floats: Seq<FloatText>,
    width: nat,
) -> Result<Seq<u8>, DisassemblyError> {
    match render_head(instr, nwtypes, width) {
        Err(e) => Err(e),
        Ok((head, tight)) => match render_operands(instr, routines, floats, 0, !tight, head) {
            Ok(line) => Ok(line.push(NEWLINE)),
            Err(e) => Err(e),
        },
    }
}

/// Appends the start of the line of `payload`; tells whether the first
/// operand follows without a gutter.
fn format_head(
    out: &mut Vec<u8>,
    payload: &OpPayload,
    nwtypes: &[Option<NWType>],
    width: usize,
) -> (r: Result<bool, DisassemblyError>)
    ensures
        match r {
            Ok(tight) => render_head(payload@, nwtypes@, width as nat) == Ok::<
                (Seq<u8>, bool),
                DisassemblyError,
            >((final(out)@.skip(old(out)@.len() as int), tight)) && final(out)@.take(
                old(out)@.len() as int,
            ) == old(out)@ && final(out)@.len() >= old(out)@.len(),
            Err(e) => render_head(payload@, nwtypes@, width as nat) == Err::<
                (Seq<u8>, bool),
                DisassemblyError,
            >(e),
        },
{
    let op = payload.op;
    let name = op.code.name().as_bytes();
    let pad: usize = if width >= name.len() {
        width - name.len()
    } else {
        0
    };
    let more = payload.args.len() > 0;
    let single = match &op.types {
        Some(types) => types.len() < 2,
        None => false,
    };
    let ghost before = out@;
    let tight = match payload._type {
        None => {
            push_bytes(out, name);
            push_spaces(out, pad);
            false
        },
        Some(byte) => {
            if byte as usize >= nwtypes.len() {
                return Err(
                    DisassemblyError::OpStreamError(
                        StreamFault::UndocumentedType { type_byte: byte, opcode: op.code },
                        0,
                    ),
                );
            }
            let ty = match &nwtypes[byte as usize] {
                Some(ty) => ty,
                None => {
                    return Err(
                        DisassemblyError::OpStreamError(
                            StreamFault::UndocumentedType { type_byte: byte, opcode: op.code },
                            0,
                        ),
                    );
                },
            };
            match ty.abbr {
                Some(abbr) => {
                    let abbr = abbr.as_bytes();
                    if single {
                        push_bytes(out, name);
                        push_spaces(
                            out,
                            if more {
                                pad
                            } else {
                                0
                            },
                        );
                        false
                    } else {
                        push_bytes(out, name);
                        push_bytes(out, abbr);
                        push_spaces(
                            out,
                            if more && pad >= abbr.len() {
                                pad - abbr.len()
                            } else {
                                0
                            },
                        );
                        true
                    }
                },
                None => {
                    if single {
                        push_bytes(out, name);
                        push_spaces(
                            out,
                            if more {
                                pad
                            } else {
                                0
                            },
                        );
                        true
                    } else {
                        push_bytes(out, name);
                        push_spaces(out, pad);
                        push_hex_padded(out, byte as u32, 2);
                        false
                    }
                },
            }
        },
    };
    proof {
        let head = render_head(payload@, nwtypes@, width as nat)->Ok_0.0;
        assert(out@ =~= before + head);
        assert(out@.skip(before.len() as int) =~= head);
        assert(out@.take(before.len() as int) =~= before);
    }
    Ok(tight)
}

/// The text of operand `i` of `payload`; `None` where it is not written.
fn format_operand(
    payload: &OpPayload,
    i: usize,
    routines: &HashMap<u16, Routine>,
    floats: &[FloatText],
    gutter: bool,
) -> (r: Result<Option<Vec<u8>>, DisassemblyError>)
    requires
        i < payload.args@.len(),
    ensures
        match r {
            Ok(Some(t)) => render_operand(payload@, i as int, routines@, floats@, gutter) == Ok::<
                Option<Seq<u8>>,
                DisassemblyError,
            >(Some(t@)),
            Ok(None) => render_operand(payload@, i as int, routines@, floats@, gutter) == Ok::<
                Option<Seq<u8>>,
                DisassemblyError,
            >(None),
            Err(e) => render_operand(payload@, i as int, routines@, floats@, gutter) == Err::<
                Option<Seq<u8>>,
                DisassemblyError,
            >(e),
        },
{
    let arg: &Operand = payload.args[i].0;
    let bytes: &Vec<u8> = &payload.args[i].1;
    let mut out: Vec<u8> = Vec::new();
    if gutter {
        push_spaces(&mut out, GUTTER);
    }
    match *arg {
        Operand::Size(_) => {
            let num = bytes_to_uint(bytes.as_slice())?;
            let n = payload.args.len();
            if i + 1 < n {
                match *payload.args[i + 1].0 {
                    Operand::String => {
                        return Ok(None);
                    },
                    _ => {},
                }
            }
            if payload.op.types.is_none() {
                let mut plain: Vec<u8> = Vec::new();
                push_hex_padded(&mut plain, num, 8);
                return Ok(Some(plain));
            }
            push_hex(&mut out, num);
        },
        Operand::Routine(_) => {
            let num = bytes_to_uint(bytes.as_slice())?;
            let id = (num % 0x1_0000) as u16;
            match routines.get(&id) {
                Some(f) => {
                    push_bytes(&mut out, f.name.as_slice());
                },
                None => {
                    out.push(QUESTION);
                    out.push(QUESTION);
                    out.push(QUESTION);
                },
            }
            out.push(HASH);
            push_hex(&mut out, num);
        },
        Operand::Object(_) => {
            let num = bytes_to_uint(bytes.as_slice())?;
            push_hex(&mut out, num);
        },
        Operand::ArgCount(_) => {
            let num = bytes_to_uint(bytes.as_slice())?;
            push_dec_digits(&mut out, num);
        },
        Operand::Offset(_) => {
            let num = bytes_to_int(bytes.as_slice())?;
            out.push(AT);
            push_decimal(&mut out, num);
        },
        Operand::Integer(_) => {
            let num = bytes_to_int(bytes.as_slice())?;
            push_decimal(&mut out, num);
        },
        Operand::Float(_) => {
            let bits = bytes_to_float_bits(bytes.as_slice())?;
            match find_float_text(floats, bits) {
                Some(t) => {
                    push_bytes(&mut out, t.as_slice());
                },
                None => {
                    return Err(DisassemblyError::DataError(DataFault::FloatText(bits)));
                },
            }
        },
        Operand::String => {
            out.push(QUOTE);
            push_bytes(&mut out, bytes.as_slice());
            out.push(QUOTE);
        },
    }
    proof {
        let t = render_operand(payload@, i as int, routines@, floats@, gutter)->Ok_0->0;
        assert(out@ =~= t);
    }
    Ok(Some(out))
}

/// The line of text of one decoded instruction, with the line feed that ends
/// it. The mnemonic column is `width` bytes wide.
pub fn format_output(
    payload: &OpPayload,
    routines: &HashMap<u16, Routine>,
    nwtypes: &[Option<NWType>],
    floats: &[FloatText],
    width: usize,
) -> (r: Result<Vec<u8>, DisassemblyError>)
    ensures
        match r {
            Ok(line) => render_line(payload@, routines@, nwtypes@, floats@, width as nat) == Ok::<
                Seq<u8>,
                DisassemblyError,
            >(line@),
            Err(e) => render_line(payload@, routines@, nwtypes@, floats@, width as nat) == Err::<
                Seq<u8>,
                DisassemblyError,
            >(e),
        },
{
    let mut out: Vec<u8> = Vec::new();
    let tight = format_head(&mut out, payload, nwtypes, width)?;
    proof {
        assert(out@.skip(0) =~= out@);
    }
    let ghost head = out@;
    let mut gutter = !tight;
    let n = payload.args.len();
    let mut i: usize = 0;
    while i < n
        invariant
            i <= n,
            n == payload.args@.len(),
            n == payload@.items.len(),
            render_operands(payload@, routines@, floats@, 0, !tight, head) == render_operands(
                payload@,
                routines@,
                floats@,
                i as int,
                gutter,
                out@,
            ),
            render_head(payload@, nwtypes@, width as nat) == Ok::<
                (Seq<u8>, bool),
                DisassemblyError,
            >((head, tight)),
        decreases n - i,
    {
        match format_operand(payload, i, routines, floats, gutter)? {
            Some(t) => {
                push_bytes(&mut out, t.as_slice());
                gutter = true;
            },
            None => {},
        }
        i += 1;
    }
    out.push(NEWLINE);
    Ok(out)
}

/// Length of the suffix of type byte `t`; 0 where it has none.
pub open spec fn suffix_len(nwtypes: Seq<Option<NWType>>, t: u8) -> nat {
    match type_entry(nwtypes, t) {
        Some(ty) => match ty.suffix() {
            Some(a) => a.len(),
            None => 0,
        },
        None => 0,
    }
}

/// The longest suffix among the first `n` of `types`.
pub open spec fn longest_suffix(types: Seq<u8>, nwtypes: Seq<Option<NWType>>, n: int) -> nat
    decreases n,
{
    if n <= 0 {
        0
    } else {
        let rest = longest_suffix(types, nwtypes, n - 1);
        let last = suffix_len(nwtypes, types[n - 1]);
        if last > rest {
            last
        } else {
            rest
        }
    }
}

/// The widest that the mnemonic of `op` gets with a suffix of one of its
/// legal types behind it.
pub open spec fn entry_width(op: Opcode, nwtypes: Seq<Option<NWType>>) -> nat {
    op.code.mnemonic().len() + longest_suffix(
        op.legal_types(),
        nwtypes,
        op.legal_types().len() as int,
    )
}

/// The width of the mnemonic column: the widest entry among the first `n`
/// slots of the opcode table.
pub open spec fn column_width(
    opcodes: Seq<Option<Opcode>>,
    nwtypes: Seq<Option<NWType>>,
    n: int,
) -> nat
    decreases n,
{
    if n <= 0 {
        0
    } else {
        let rest = column_width(opcodes, nwtypes, n - 1);
        match opcodes[n - 1] {
            Some(op) => if entry_width(op, nwtypes) > rest {
                entry_width(op, nwtypes)
            } else {
                rest
            },
            None => rest,
        }
    }
}

/// An instruction takes at least one byte, and none behind the end of the stream.
pub proof fn lemma_decode_len(stream: Seq<u8>, opcodes: Seq<Option<Opcode>>, pos: int)
    ensures
        decode_op(stream, opcodes, pos) is Ok ==> 0 <= pos && 1 <= decode_op(
            stream,
            opcodes,
            pos,
        )->Ok_0.len && pos + decode_op(stream, opcodes, pos)->Ok_0.len <= stream.len(),
{
    if decode_op(stream, opcodes, pos) is Ok {
        let op = opcodes[stream[pos] as int]->0;
        if op.typed() {
            lemma_read_operands_end(
                stream,
                op.operands(stream[pos + 1]),
                0,
                pos + 2,
                None,
                Seq::empty(),
            );
        } else {
            lemma_read_operands_end(stream, op.operands(0), 0, pos + 1, None, Seq::empty());
        }
    }
}

/// The text `acc` with the lines of the instructions of `stream` from `pos`
/// on behind it, up to the offset `total`. The instructions must end at
/// `total` exactly: one that runs past it is a fault.
pub open spec fn render_program(
    stream: Seq<u8>,
    opcodes: Seq<Option<Opcode>>,
    routines: Map<u16, Routine>,
    nwtypes: Seq<Option<NWType>>,
    floats: Seq<FloatText>,
    width: nat,
    pos: int,
    total: int,
    acc: Seq<u8>,
) -> Result<Seq<u8>, DisassemblyError>
    decreases stream.len() - pos,
{
    if pos == total {
        Ok(acc)
    } else if pos > total {
        Err(
            DisassemblyError::OpStreamError(
                StreamFault::SizeMismatch { expected: total as usize, read: pos as usize },
                pos as usize,
            ),
        )
    } else {
        match decode_op(stream, opcodes, pos) {
            Err(e) => Err(e),
            Ok(instr) => match render_line(instr, routines, nwtypes, floats, width) {
                Err(e) => Err(e),
                Ok(line) => {
                    proof {
                        lemma_decode_len(stream, opcodes, pos);
                    }
                    render_program(
                        stream,
                        opcodes,
                        routines,
                        nwtypes,
                        floats,
                        width,
                        pos + instr.len,
                        total,
                        acc + line,
                    )
                },
            },
        }
    }
}

/// The header of a program as a comment line.
pub open spec fn header_line(stream: Seq<u8>) -> Seq<u8> {
    seq![SEMICOLON, SEMICOLON] + stream.subrange(0, HEADER_BYTES as int) + seq![NEWLINE]
}

/// The byte count that a `T` instruction declares: the value of its first
/// operand.
pub open spec fn declared_total(t: Instr) -> Result<nat, DisassemblyError> {
    let bytes = if t.items.len() > 0 {
        t.items[0].1
    } else {
        Seq::empty()
    };
    if unsigned_width(bytes.len()) {
        Ok(be_value(bytes))
    } else {
        Err(DisassemblyError::DataError(DataFault::UnsignedSize(bytes.len() as usize)))
    }
}

/// The assembly text of the program `stream`.
///
/// The first eight bytes are the header, which becomes a comment line. The
/// first instruction must be `T`; its operand is the byte count of the whole
/// program, header included. The instructions follow, a line each, until
/// that byte count is reached. The mnemonic column is as wide as the widest
/// entry of `opcodes` under the built-in stack types.
pub open spec fn disassembly(
    stream: Seq<u8>,
    opcodes: Seq<Option<Opcode>>,
    routines: Map<u16, Routine>,
    floats: Seq<FloatText>,
) -> Result<Seq<u8>, DisassemblyError> {
    let nwtypes = builtin_nwtypes();
    let width = column_width(opcodes, nwtypes, opcodes.len() as int);
    let start = HEADER_BYTES as int;
    if stream.len() < HEADER_BYTES {
        Err(DisassemblyError::OpStreamError(StreamFault::MissingHeader, 0))
    } else {
        match decode_op(stream, opcodes, start) {
            Err(DisassemblyError::OpStreamError(StreamFault::UnexpectedEof { .. }, at)) => Err(
                DisassemblyError::OpStreamError(StreamFault::MissingT, at),
            ),
            Err(e) => Err(e),
            Ok(t) => if t.op.code != OpcodeE::T {
                Err(
                    DisassemblyError::OpStreamError(
                        StreamFault::UnexpectedOpcode(t.op.code),
                        (start + t.len) as usize,
                    ),
                )
            } else {
                match declared_total(t) {
                    Err(e) => Err(e),
                    Ok(total) => match render_line(t, routines, nwtypes, floats, width) {
                        Err(e) => Err(e),
                        Ok(line) => render_program(
                            stream,
                            opcodes,
                            routines,
                            nwtypes,
                            floats,
                            width,
                            start + t.len,
                            total as int,
                            header_line(stream) + line,
                        ),
                    },
                }
            },
        }
    }
}

/// The longest suffix among the legal types of an instruction.
fn widest_suffix(types: &Vec<u8>, nwtypes: &[Option<NWType>]) -> (r: usize)
    requires
        nwtypes@ == builtin_nwtypes(),
    ensures
        r == longest_suffix(types@, nwtypes@, types@.len() as int),
        r <= 2,
{
    let mut best: usize = 0;
    let mut j: usize = 0;
    while j < types.len()
        invariant
            j <= types.len(),
            nwtypes@ == builtin_nwtypes(),
            best == longest_suffix(types@, nwtypes@, j as int),
            best <= 2,
        decreases types.len() - j,
    {
        let t = types[j];
        let mut len: usize = 0;
        if (t as usize) < nwtypes.len() {
            match &nwtypes[t as usize] {
                Some(ty) => match ty.abbr {
                    Some(a) => {
                        proof {
                            lemma_suffix_word(NWTypeE::with_code(t)->0);
                        }
                        len = a.as_bytes().len();
                    },
                    None => {},
                },
                None => {},
            }
        }
        if len > best {
            best = len;
        }
        j += 1;
    }
    best
}

/// The width of the mnemonic column for the table `opcodes`.
fn widest(opcodes: &[Option<Opcode>], nwtypes: &[Option<NWType>]) -> (r: usize)
    requires
        nwtypes@ == builtin_nwtypes(),
    ensures
        r == column_width(opcodes@, nwtypes@, opcodes@.len() as int),
{
    let n = opcodes.len();
    let mut best: usize = 0;
    let mut i: usize = 0;
    while i < n
        invariant
            i <= n,
            n == opcodes@.len(),
            nwtypes@ == builtin_nwtypes(),
            best == column_width(opcodes@, nwtypes@, i as int),
        decreases n - i,
    {
        match &opcodes[i] {
            Some(op) => {
                proof {
                    lemma_mnemonic_word(op.code);
                }
                let name = op.code.name().as_bytes().len();
                let suffix = match &op.types {
                    Some(types) => widest_suffix(types, nwtypes),
                    None => 0,
                };
                if name + suffix > best {
                    best = name + suffix;
                }
            },
            None => {},
        }
        i += 1;
    }
    best
}

/// Turns the program `stream` into assembly text.
pub fn disassemble(
    stream: &[u8],
    opcodes: &[Option<Opcode>],
    routines: &HashMap<u16, Routine>,
    floats: &[FloatText],
) -> (r: Result<Vec<u8>, DisassemblyError>)
    ensures
        match r {
            Ok(text) => disassembly(stream@, opcodes@, routines@, floats@) == Ok::<
                Seq<u8>,
                DisassemblyError,
            >(text@),
            Err(e) => disassembly(stream@, opcodes@, routines@, floats@) == Err::<
                Seq<u8>,
                DisassemblyError,
            >(e),
        },
{
    let n = stream.len();
    if n < HEADER_BYTES {
        return Err(DisassemblyError::OpStreamError(StreamFault::MissingHeader, 0));
    }
    let nwtypes = get_nwtypes();
    let mut out: Vec<u8> = Vec::new();
    out.push(SEMICOLON);
    out.push(SEMICOLON);
    let header = take(stream, 0, HEADER_BYTES);
    push_bytes(&mut out, header.as_slice());
    out.push(NEWLINE);
    proof {
        assert(out@ =~= header_line(stream@));
    }
    let t = match disassemble_op(stream, opcodes, HEADER_BYTES) {
        Ok(t) => t,
        Err(DisassemblyError::OpStreamError(StreamFault::UnexpectedEof { .. }, at)) => {
            return Err(DisassemblyError::OpStreamError(StreamFault::MissingT, at));
        },
        Err(e) => {
            return Err(e);
        },
    };
    proof {
        lemma_decode_len(stream@, opcodes@, HEADER_BYTES as int);
    }
    let mut pos: usize = HEADER_BYTES + t.bytes_read;
    match t.op.code {
        OpcodeE::T => {},
        _ => {
            return Err(
                DisassemblyError::OpStreamError(StreamFault::UnexpectedOpcode(t.op.code), pos),
            );
        },
    }
    let total: usize = if t.args.len() > 0 {
        bytes_to_uint(t.args[0].1.as_slice())? as usize
    } else {
        return Err(DisassemblyError::DataError(DataFault::UnsignedSize(0)));
    };
    let width = widest(opcodes, nwtypes.as_slice());
    let line = format_output(&t, routines, nwtypes.as_slice(), floats, width)?;
    push_bytes(&mut out, line.as_slice());
    let ghost goal = disassembly(stream@, opcodes@, routines@, floats@);
    while pos != total
        invariant
            n == stream@.len(),
            pos <= n,
            nwtypes@ == builtin_nwtypes(),
            width == column_width(opcodes@, nwtypes@, opcodes@.len() as int),
            goal == disassembly(stream@, opcodes@, routines@, floats@),
            goal == render_program(
                stream@,
                opcodes@,
                routines@,
                nwtypes@,
                floats@,
                width as nat,
                pos as int,
                total as int,
                out@,
            ),
        decreases n - pos,
    {
        if pos > total {
            return Err(
                DisassemblyError::OpStreamError(
                    StreamFault::SizeMismatch { expected: total, read: pos },
                    pos,
                ),
            );
        }
        let c = disassemble_op(stream, opcodes, pos)?;
        proof {
            lemma_decode_len(stream@, opcodes@, pos as int);
        }
        let line = format_output(&c, routines, nwtypes.as_slice(), floats, width)?;
        push_bytes(&mut out, line.as_slice());
        pos = pos + c.bytes_read;
    }
    Ok(out)
}

/// Whether the instructions of `stream` from `pos` on end at the offset
/// `total` exactly: `pos` is `total`, or an instruction stands at `pos`, ends
/// at or before `total`, and the same holds behind it.
pub open spec fn reaches(stream: Seq<u8>, opcodes: Seq<Option<Opcode>>, pos: int, total: int) -> bool
    decreases stream.len() - pos,
{
    if pos == total {
        true
    } else if pos > total {
        false
    } else {
        match decode_op(stream, opcodes, pos) {
            Err(_) => false,
            Ok(instr) => {
                proof {
                    lemma_decode_len(stream, opcodes, pos);
                }
                reaches(stream, opcodes, pos + instr.len, total)
            },
        }
    }
}

/// Disassembly stops where the byte count that `T` declared is reached, and
/// succeeds only if it is reached: at `total` nothing more is read, and where
/// the lines from `pos` on come out, the instructions from `pos` on end at
/// `total` exactly.
pub proof fn law_ends_at_total(
    stream: Seq<u8>,
    opcodes: Seq<Option<Opcode>>,
    routines: Map<u16, Routine>,
    nwtypes: Seq<Option<NWType>>,
    floats: Seq<FloatText>,
    width: nat,
    pos: int,
    total: int,
    acc: Seq<u8>,
)
    ensures
        pos == total ==> render_program(
            stream,
            opcodes,
            routines,
            nwtypes,
            floats,
            width,
            pos,
            total,
            acc,
        ) == Ok::<Seq<u8>, DisassemblyError>(acc),
        render_program(stream, opcodes, routines, nwtypes, floats, width, pos, total, acc) is Ok
            ==> reaches(stream, opcodes, pos, total),
    decreases stream.len() - pos,
{
    if pos < total {
        match decode_op(stream, opcodes, pos) {
            Err(_) => {},
            Ok(instr) => {
                lemma_decode_len(stream, opcodes, pos);
                match render_line(instr, routines, nwtypes, floats, width) {
                    Err(_) => {},
                    Ok(line) => {
                        law_ends_at_total(
                            stream,
                            opcodes,
                            routines,
                            nwtypes,
                            floats,
                            width,
                            pos + instr.len,
                            total,
                            acc + line,
                        );
                    },
                }
            },
        }
    }
}

/// The bit patterns of the float operands among the first `n` operands of
/// an instruction, behind those of `acc`. A float operand that is not four
/// bytes long has none.
pub open spec fn item_floats(items: Seq<(Operand, Seq<u8>)>, n: int, acc: Seq<u32>) -> Seq<u32>
    decreases n,
{
    if n <= 0 {
        acc
    } else {
        let rest = item_floats(items, n - 1, acc);
        if items[n - 1].0 is Float && items[n - 1].1.len() == 4 {
            rest.push(be_value(items[n - 1].1) as u32)
        } else {
            rest
        }
    }
}

/// The bit patterns of the float operands of the instructions that stand in
/// `stream` from `pos` on, one behind the other, behind those of `acc`. The
/// walk ends where no instruction can be decoded.
pub open spec fn floats_from(
    stream: Seq<u8>,
    opcodes: Seq<Option<Opcode>>,
    pos: int,
    acc: Seq<u32>,
) -> Seq<u32>
    decreases stream.len() - pos,
{
    match decode_op(stream, opcodes, pos) {
        Err(_) => acc,
        Ok(instr) => {
            proof {
                lemma_decode_len(stream, opcodes, pos);
            }
            floats_from(
                stream,
                opcodes,
                pos + instr.len,
                item_floats(instr.items, instr.items.len() as int, acc),
            )
        },
    }
}

/// Lists the floats that a program holds, by their bit patterns: those of
/// the instructions behind the header, as far as they can be decoded. These
/// are the floats whose text `disassemble` looks up.
pub fn float_operands(stream: &[u8], opcodes: &[Option<Opcode>]) -> (r: Vec<u32>)
    ensures
        r@ == floats_from(stream@, opcodes@, HEADER_BYTES as int, Seq::empty()),
{
    let n = stream.len();
    let mut found: Vec<u32> = Vec::new();
    let mut pos: usize = HEADER_BYTES;
    loop
        invariant
            n == stream@.len(),
            floats_from(stream@, opcodes@, HEADER_BYTES as int, Seq::empty()) == floats_from(
                stream@,
                opcodes@,
                pos as int,
                found@,
            ),
        decreases n - pos,
    {
        let c = match disassemble_op(stream, opcodes, pos) {
            Ok(c) => c,
            Err(_) => {
                return found;
            },
        };
        proof {
            lemma_decode_len(stream@, opcodes@, pos as int);
        }
        let count = c.args.len();
        let ghost before = found@;
        let mut i: usize = 0;
        while i < count
            invariant
                i <= count,
                count == c.args@.len(),
                count == c@.items.len(),
                found@ == item_floats(c@.items, i as int, before),
            decreases count - i,
        {
            match *c.args[i].0 {
                Operand::Float(_) => {
                    match bytes_to_float_bits(c.args[i].1.as_slice()) {
                        Ok(bits) => {
                            found.push(bits);
                        },
                        Err(_) => {},
                    }
                },
                _ => {},
            }
            i += 1;
        }
        pos = pos + c.bytes_read;
    }
}

} // verus!
