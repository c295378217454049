//! Decoding one instruction step by step: the decoder says how many bytes
//! it needs next, and takes them from wherever they come.

use crate::disassemble::{
    contains_byte, decode_op, eof_at, operand_list_of, read_operands, DisassemblyError,
    StreamFault,
};
use crate::io_utils::bytes_to_uint;
use crate::opcodes::{Instr, OpPayload, Opcode, Operand};
use vstd::pervasive::unreached;
use vstd::prelude::*;

verus! {

/// Where the decoding of one instruction stands.
pub enum Decoder<'a> {
    /// The code byte is due. The instruction starts at `offset` of the stream.
    ExpectOpcode { offset: usize },
    /// The type byte is due.
    ExpectType { offset: usize, op: &'a Opcode },
    /// The next operand of `list` is due: the one behind those of `payload`.
    /// `size` is the last size read in this instruction.
    ExpectOperands {
        offset: usize,
        payload: OpPayload<'a>,
        list: &'a Vec<Operand>,
        size: Option<u32>,
    },
    /// The instruction is complete.
    Emit { payload: OpPayload<'a> },
}

/// A size as a number of specifications.
pub open spec fn size_of(size: Option<u32>) -> Option<nat> {
    match size {
        Some(n) => Some(n as nat),
        None => None,
    }
}

/// The instruction that starts at `start` with the entry `op`, from its
/// type byte on.
pub open spec fn decode_typed(stream: Seq<u8>, op: Opcode, start: int) -> Result<
    Instr,
    DisassemblyError,
> {
    if start + 1 >= stream.len() {
        Err(eof_at(start + 1))
    } else {
        let t = stream[start + 1];
        if !op.legal(t) {
            Err(
                DisassemblyError::OpStreamError(
                    StreamFault::IllegalType { type_byte: t, opcode: op.code },
                    (start + 2) as usize,
                ),
            )
        } else {
            match read_operands(stream, op.operands(t), 0, start + 2, None, Seq::empty()) {
                Ok((items, end)) => Ok(
                    Instr { op, type_byte: Some(t), items, len: (end - start) as nat },
                ),
                Err(e) => Err(e),
            }
        }
    }
}

/// Whether `bytes` are what the stream holds at `pos` for a reader that
/// asked for `wanted` bytes: all of them, or fewer where the stream ends.
pub open spec fn supplied(stream: Seq<u8>, pos: int, bytes: Seq<u8>, wanted: nat) -> bool {
    &&& 0 <= pos
    &&& pos + bytes.len() <= stream.len()
    &&& bytes == stream.subrange(pos, pos + bytes.len())
    &&& bytes.len() == wanted || (bytes.len() < wanted && pos + bytes.len() == stream.len())
}

impl<'a> Decoder<'a> {
    /// Whether the decoder is in order: an operand is due only where the
    /// list holds one more, and the offsets fit the machine.
    pub open spec fn wf(&self) -> bool {
        match self {
            Decoder::ExpectOpcode { offset } => true,
            Decoder::ExpectType { offset, op } => *offset + 1 <= usize::MAX && op.typed(),
            Decoder::ExpectOperands { offset, payload, list, size } => payload.args@.len()
                < list@.len() && *offset + payload.bytes_read <= usize::MAX,
            Decoder::Emit { payload } => true,
        }
    }

    /// The offset in the stream of the byte that is due next.
    pub open spec fn position(&self) -> int {
        match self {
            Decoder::ExpectOpcode { offset } => *offset as int,
            Decoder::ExpectType { offset, op } => *offset + 1,
            Decoder::ExpectOperands { offset, payload, list, size } => *offset + payload.bytes_read,
            Decoder::Emit { payload } => 0,
        }
    }

    /// How many steps are left at most.
    pub open spec fn rank(&self) -> nat {
        match self {
            Decoder::ExpectOpcode { offset } => 2,
            Decoder::ExpectType { offset, op } => 1,
            Decoder::ExpectOperands { offset, payload, list, size } => 0,
            Decoder::Emit { payload } => 0,
        }
    }

    /// How many operands are left.
    pub open spec fn left(&self) -> nat {
        match self {
            Decoder::ExpectOperands { offset, payload, list, size } => (list@.len()
                - payload.args@.len()) as nat,
            _ => 0,
        }
    }

    /// How many bytes are due next; `None` where the instruction is
    /// complete. A string where no size was read is a fault.
    pub open spec fn wanted(&self) -> Result<Option<nat>, DisassemblyError> {
        match self {
            Decoder::ExpectOpcode { offset } => Ok(Some(1)),
            Decoder::ExpectType { offset, op } => Ok(Some(1)),
            Decoder::ExpectOperands { offset, payload, list, size } => {
                let o = list@[payload.args@.len() as int];
                match o.width() {
                    Some(w) => Ok(Some(w as nat)),
                    None => match size {
                        Some(n) => Ok(Some(*n as nat)),
                        None => Err(
                            DisassemblyError::OpStreamError(StreamFault::StringWithoutSize, 0),
                        ),
                    },
                }
            },
            Decoder::Emit { payload } => Ok(None),
        }
    }

    /// What the decoder ends with, if it is fed from `stream`: the
    /// instruction, or the fault that it meets.
    pub open spec fn outcome(&self, stream: Seq<u8>, opcodes: Seq<Option<Opcode>>) -> Result<
        Instr,
        DisassemblyError,
    > {
        match self {
            Decoder::ExpectOpcode { offset } => decode_op(stream, opcodes, *offset as int),
            Decoder::ExpectType { offset, op } => decode_typed(stream, **op, *offset as int),
            Decoder::ExpectOperands { offset, payload, list, size } => match read_operands(
                stream,
                list@,
                payload.args@.len() as int,
                *offset + payload.bytes_read,
                size_of(*size),
                payload.items(),
            ) {
                Ok((items, end)) => Ok(
                    Instr {
                        op: *payload.op,
                        type_byte: payload._type,
                        items,
                        len: (end - *offset) as nat,
                    },
                ),
                Err(e) => Err(e),
            },
            Decoder::Emit { payload } => Ok(payload@),
        }
    }

    /// A decoder for the instruction that starts at offset `byte_count`.
    pub fn new(byte_count: usize) -> (d: Decoder<'a>)
        ensures
            d == (Decoder::ExpectOpcode { offset: byte_count }),
            d.wf(),
    {
        Decoder::ExpectOpcode { offset: byte_count }
    }

    /// Whether the instruction is complete.
    pub fn is_done(&self) -> (r: bool)
        ensures
            r == (self is Emit),
    {
        match self {
            Decoder::Emit { .. } => true,
            _ => false,
        }
    }

    /// How many bytes the decoder needs next.
    pub fn wants(&self) -> (r: Result<usize, DisassemblyError>)
        requires
            self.wf(),
            !(self is Emit),
        ensures
            match r {
                Ok(n) => self.wanted() == Ok::<Option<nat>, DisassemblyError>(Some(n as nat)),
                Err(e) => self.wanted() == Err::<Option<nat>, DisassemblyError>(e),
            },
    {
        match self {
            Decoder::ExpectOpcode { .. } => Ok(1),
            Decoder::ExpectType { .. } => Ok(1),
            Decoder::ExpectOperands { payload, list, size, .. } => {
                match list[payload.args.len()] {
                    Operand::Routine(w) => Ok(w),
                    Operand::Object(w) => Ok(w),
                    Operand::Size(w) => Ok(w),
                    Operand::Offset(w) => Ok(w),
                    Operand::Integer(w) => Ok(w),
                    Operand::ArgCount(w) => Ok(w),
                    Operand::Float(w) => Ok(w),
                    Operand::String => match size {
                        Some(n) => Ok(*n as usize),
                        None => Err(
                            DisassemblyError::OpStreamError(StreamFault::StringWithoutSize, 0),
                        ),
                    },
                }
            },
            Decoder::Emit { .. } => unreached(),
        }
    }

    /// The instruction, once it is complete.
    pub fn finish(self) -> (p: OpPayload<'a>)
        requires
            self is Emit,
        ensures
            self == (Decoder::Emit { payload: p }),
    {
        match self {
            Decoder::Emit { payload } => payload,
            _ => unreached(),
        }
    }

    /// Where the operands of `payload` start: the decoder that expects the
    /// first of them, or holds the instruction if it has none.
    fn operands(offset: usize, payload: OpPayload<'a>, key: u8) -> (d: Decoder<'a>)
        requires
            payload.args@.len() == 0,
            offset + payload.bytes_read <= usize::MAX,
        ensures
            d.wf(),
            d.rank() == 0,
            d is Emit || d.position() == offset + payload.bytes_read,
            forall|stream: Seq<u8>, opcodes: Seq<Option<Opcode>>|
                #[trigger] d.outcome(stream, opcodes) == match read_operands(
                    stream,
                    payload.op.operands(key),
                    0,
                    offset + payload.bytes_read,
                    None,
                    Seq::empty(),
                ) {
                    Ok((items, end)) => Ok::<Instr, DisassemblyError>(
                        Instr {
                            op: *payload.op,
                            type_byte: payload._type,
                            items,
                            len: (end - offset) as nat,
                        },
                    ),
                    Err(e) => Err(e),
                },
    {
        proof {
            assert(payload.items() =~= Seq::empty());
        }
        match operand_list_of(payload.op, key) {
            Some(list) => {
                if list.len() > 0 {
                    Decoder::ExpectOperands { offset, payload, list, size: None }
                } else {
                    Decoder::Emit { payload }
                }
            },
            None => Decoder::Emit { payload },
        }
    }

    /// Takes the code byte.
    fn take_opcode(offset: usize, opcodes: &'a [Option<Opcode>], bytes: &[u8]) -> (r: Result<
        Decoder<'a>,
        DisassemblyError,
    >)
        requires
            offset + bytes@.len() <= usize::MAX,
        ensures
            match r {
                Ok(next) => next.wf() && next.rank() < 2 && (next is Emit || next.position()
                    == offset + bytes@.len()),
                Err(_) => true,
            },
            forall|stream: Seq<u8>| #[trigger]
                supplied(stream, offset as int, bytes@, 1) ==> match r {
                    Ok(next) => next.outcome(stream, opcodes@) == decode_op(
                        stream,
                        opcodes@,
                        offset as int,
                    ),
                    Err(e) => decode_op(stream, opcodes@, offset as int) == Err::<
                        Instr,
                        DisassemblyError,
                    >(e),
                },
    {
        if bytes.len() != 1 {
            return Err(
                DisassemblyError::OpStreamError(
                    StreamFault::UnexpectedEof { got: bytes.len(), expected: 1 },
                    offset,
                ),
            );
        }
        let code = bytes[0];
        proof {
            assert forall|stream: Seq<u8>| #[trigger]
                supplied(stream, offset as int, bytes@, 1) implies stream[offset as int]
                == code by {
                assert(stream.subrange(offset as int, offset + 1)[0] == bytes@[0]);
            }
        }
        if code as usize >= opcodes.len() {
            return Err(
                DisassemblyError::OpStreamError(StreamFault::UnknownOpcode(code), offset + 1),
            );
        }
        let op: &'a Opcode = match &opcodes[code as usize] {
            Some(op) => op,
            None => {
                return Err(
                    DisassemblyError::OpStreamError(StreamFault::UnknownOpcode(code), offset + 1),
                );
            },
        };
        if op.types.is_some() {
            Ok(Decoder::ExpectType { offset, op })
        } else {
            let payload = OpPayload { bytes_read: 1, op, _type: None, args: Vec::new() };
            Ok(Decoder::operands(offset, payload, 0))
        }
    }

    /// Takes the type byte.
    fn take_type(offset: usize, op: &'a Opcode, bytes: &[u8]) -> (r: Result<
        Decoder<'a>,
        DisassemblyError,
    >)
        requires
            op.typed(),
            offset + 1 + bytes@.len() <= usize::MAX,
        ensures
            match r {
                Ok(next) => next.wf() && next.rank() < 1 && (next is Emit || next.position()
                    == offset + 1 + bytes@.len()),
                Err(_) => true,
            },
            forall|stream: Seq<u8>| #[trigger]
                supplied(stream, offset + 1, bytes@, 1) ==> match r {
                    Ok(next) => forall|opcodes: Seq<Option<Opcode>>| #[trigger]
                        next.outcome(stream, opcodes) == decode_typed(stream, *op, offset as int),
                    Err(e) => decode_typed(stream, *op, offset as int) == Err::<
                        Instr,
                        DisassemblyError,
                    >(e),
                },
    {
        if bytes.len() != 1 {
            return Err(
                DisassemblyError::OpStreamError(
                    StreamFault::UnexpectedEof { got: bytes.len(), expected: 1 },
                    offset + 1,
                ),
            );
        }
        let t = bytes[0];
        proof {
            assert forall|stream: Seq<u8>| #[trigger]
                supplied(stream, offset + 1, bytes@, 1) implies stream[offset + 1] == t by {
                assert(stream.subrange(offset + 1, offset + 2)[0] == bytes@[0]);
            }
        }
        let legal = match &op.types {
            Some(types) => contains_byte(types, t),
            None => false,
        };
        if !legal {
            return Err(
                DisassemblyError::OpStreamError(
                    StreamFault::IllegalType { type_byte: t, opcode: op.code },
                    offset + 2,
                ),
            );
        }
        let payload = OpPayload { bytes_read: 2, op, _type: Some(t), args: Vec::new() };
        Ok(Decoder::operands(offset, payload, t))
    }

    /// Takes the bytes of the next operand.
    fn take_operand(
        offset: usize,
        payload: OpPayload<'a>,
        list: &'a Vec<Operand>,
        size: Option<u32>,
        bytes: &[u8],
    ) -> (r: Result<Decoder<'a>, DisassemblyError>)
        requires
            payload.args@.len() < list@.len(),
            offset + payload.bytes_read + bytes@.len() <= usize::MAX,
        ensures
            ({
                let me = Decoder::ExpectOperands { offset, payload, list, size };
                &&& match r {
                    Ok(next) => next.wf() && next.rank() == 0 && next.left() < me.left() && (next
                        is Emit || next.position() == me.position() + bytes@.len()),
                    Err(_) => true,
                }
                &&& forall|stream: Seq<u8>|
                    me.wanted() is Ok && #[trigger] supplied(
                        stream,
                        me.position(),
                        bytes@,
                        me.wanted()->Ok_0->0,
                    ) ==> match r {
                        Ok(next) => forall|opcodes: Seq<Option<Opcode>>| #[trigger]
                            next.outcome(stream, opcodes) == me.outcome(stream, opcodes),
                        Err(e) => forall|opcodes: Seq<Option<Opcode>>| #[trigger]
                            me.outcome(stream, opcodes) == Err::<Instr, DisassemblyError>(e),
                    }
                &&& me.wanted() is Err ==> r == Err::<Decoder<'a>, DisassemblyError>(
                    me.wanted()->Err_0,
                )
            }),
    {
        let ghost me = Decoder::ExpectOperands { offset, payload, list, size };
        let mut payload = payload;
        let i = payload.args.len();
        let count = list.len();
        let arg: &'a Operand = &list[i];
        let width: usize = match *arg {
            Operand::Routine(w) => w,
            Operand::Object(w) => w,
            Operand::Size(w) => w,
            Operand::Offset(w) => w,
            Operand::Integer(w) => w,
            Operand::ArgCount(w) => w,
            Operand::Float(w) => w,
            Operand::String => match size {
                Some(n) => n as usize,
                None => {
                    return Err(DisassemblyError::OpStreamError(StreamFault::StringWithoutSize, 0));
                },
            },
        };
        let at = offset + payload.bytes_read;
        proof {
            assert forall|stream: Seq<u8>| #[trigger]
                supplied(stream, at as int, bytes@, width as nat) && bytes@.len()
                == width implies bytes@ == stream.subrange(at as int, at + width) by {}
        }
        if bytes.len() != width {
            return Err(
                DisassemblyError::OpStreamError(
                    StreamFault::UnexpectedEof { got: bytes.len(), expected: width },
                    at,
                ),
            );
        }
        let mut held: Vec<u8> = Vec::new();
        crate::text::push_bytes(&mut held, bytes);
        let ghost size_was = size;
        let mut size = size;
        match *arg {
            Operand::Routine(_) | Operand::Object(_) => {
                let _ = bytes_to_uint(bytes)?;
            },
            Operand::Size(_) => {
                let num = bytes_to_uint(bytes)?;
                size = Some(num);
            },
            _ => {},
        }
        let ghost before = payload.items();
        payload.args.push((arg, held));
        payload.bytes_read = payload.bytes_read + width;
        proof {
            assert(payload.items() =~= before.push((*arg, bytes@)));
        }
        let ghost after = payload.items();
        let ghost size_now = size;
        let next = if i + 1 < count {
            Decoder::ExpectOperands { offset, payload, list, size }
        } else {
            Decoder::Emit { payload }
        };
        proof {
            assert forall|stream: Seq<u8>|
                me.wanted() is Ok && #[trigger] supplied(
                    stream,
                    me.position(),
                    bytes@,
                    me.wanted()->Ok_0->0,
                ) implies (forall|opcodes: Seq<Option<Opcode>>| #[trigger]
                next.outcome(stream, opcodes) == me.outcome(stream, opcodes)) by {
                assert(bytes@ == stream.subrange(at as int, at + width));
                let now = read_operands(stream, list@, i as int, at as int, size_of(size_was), before);
                let then = read_operands(
                    stream,
                    list@,
                    i + 1,
                    at + width,
                    size_of(size_now),
                    after,
                );
                assert(now == then);
                if i + 1 >= count {
                    assert(then == Ok::<(Seq<(Operand, Seq<u8>)>, int), DisassemblyError>(
                        (after, at + width),
                    ));
                }
            }
        }
        Ok(next)
    }

    /// Takes the bytes that the decoder asked for last. Fewer bytes than
    /// that mean that the stream has ended.
    ///
    /// Whatever stream the bytes come from, the decoder ends with what it
    /// would have ended with before, one step nearer to it; a fault that is
    /// met at this step is the end.
    pub fn supply(self, opcodes: &'a [Option<Opcode>], bytes: &[u8]) -> (r: Result<
        Decoder<'a>,
        DisassemblyError,
    >)
        requires
            self.wf(),
            !(self is Emit),
            self.position() + bytes@.len() <= usize::MAX,
        ensures
            match r {
                Ok(next) => next.wf() && (next.rank() < self.rank() || (next.rank()
                    == self.rank() && next.left() < self.left())) && (next is Emit
                    || next.position() == self.position() + bytes@.len()),
                Err(_) => true,
            },
            forall|stream: Seq<u8>|
                self.wanted() is Ok && #[trigger] supplied(
                    stream,
                    self.position(),
                    bytes@,
                    self.wanted()->Ok_0->0,
                ) ==> match r {
                    Ok(next) => next.outcome(stream, opcodes@) == self.outcome(stream, opcodes@),
                    Err(e) => self.outcome(stream, opcodes@) == Err::<Instr, DisassemblyError>(e),
                },
            self.wanted() is Err ==> r == Err::<Decoder<'a>, DisassemblyError>(
                self.wanted()->Err_0,
            ),
    {
        match self {
            Decoder::ExpectOpcode { offset } => Decoder::take_opcode(offset, opcodes, bytes),
            Decoder::ExpectType { offset, op } => Decoder::take_type(offset, op, bytes),
            Decoder::ExpectOperands { offset, payload, list, size } => Decoder::take_operand(
                offset,
                payload,
                list,
                size,
                bytes,
            ),
            Decoder::Emit { payload } => Ok(Decoder::Emit { payload }),
        }
    }
}

} // verus!
