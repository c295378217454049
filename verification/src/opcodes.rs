//! The instruction model: every opcode of the virtual machine, the stack
//! types an instruction may carry, and the operand list of each
//! (opcode, type) pair.

use std::collections::HashMap;
use vstd::prelude::*;
use vstd::string::StringSliceAdditionalSpecFns;
use vstd::utf8::encode_utf8;

verus! {

broadcast use vstd::std_specs::hash::group_hash_axioms;

/// Number of slots in the opcode table: one per value of the code byte.
pub const MAX_OPCODES: usize = 256;

/// Number of slots in the stack-type table.
pub const MAX_STYPES: usize = 61;

/// The instructions of the virtual machine.
#[derive(Debug, PartialEq, Eq, Clone, Copy, Structural)]
#[allow(non_camel_case_types)]
pub enum OpcodeE {
    CPDOWNSP,
    RSADD,
    CPTOPSP,
    CONST,
    ACTION,
    LOGANDII,
    LOGORII,
    INCORII,
    EXCORII,
    BOOLANDII,
    EQUAL,
    NEQUAL,
    GEQ,
    GT,
    LT,
    LEQ,
    SHLEFTII,
    SHRIGHTII,
    USHRIGHTII,
    ADD,
    SUB,
    MUL,
    DIV,
    MODII,
    NEG,
    COMPI,
    MOVSP,
    STORE_STATEALL,
    JMP,
    JSR,
    JZ,
    RETN,
    DESTRUCT,
    NOTI,
    DECISP,
    INCISP,
    JNZ,
    CPDOWNBP,
    CPTOPBP,
    DECIBP,
    INCIBP,
    SAVEBP,
    RESTOREBP,
    STORE_STATE,
    NOP,
    /// Payload of this one is uncertain.
    CP_x37_DA2_QQ,
    /// The file prefix: carries the total byte count of the program.
    T,
}

impl OpcodeE {
    /// The code byte of the instruction.
    pub open spec fn code_of(self) -> u8 {
        match self {
            OpcodeE::CPDOWNSP => 0x01,
            OpcodeE::RSADD => 0x02,
            OpcodeE::CPTOPSP => 0x03,
            OpcodeE::CONST => 0x04,
            OpcodeE::ACTION => 0x05,
            OpcodeE::LOGANDII => 0x06,
            OpcodeE::LOGORII => 0x07,
            OpcodeE::INCORII => 0x08,
            OpcodeE::EXCORII => 0x09,
            OpcodeE::BOOLANDII => 0x0A,
            OpcodeE::EQUAL => 0x0B,
            OpcodeE::NEQUAL => 0x0C,
            OpcodeE::GEQ => 0x0D,
            OpcodeE::GT => 0x0E,
            OpcodeE::LT => 0x0F,
            OpcodeE::LEQ => 0x10,
            OpcodeE::SHLEFTII => 0x11,
            OpcodeE::SHRIGHTII => 0x12,
            OpcodeE::USHRIGHTII => 0x13,
            OpcodeE::ADD => 0x14,
            OpcodeE::SUB => 0x15,
            OpcodeE::MUL => 0x16,
            OpcodeE::DIV => 0x17,
            OpcodeE::MODII => 0x18,
            OpcodeE::NEG => 0x19,
            OpcodeE::COMPI => 0x1A,
            OpcodeE::MOVSP => 0x1B,
            OpcodeE::STORE_STATEALL => 0x1C,
            OpcodeE::JMP => 0x1D,
            OpcodeE::JSR => 0x1E,
            OpcodeE::JZ => 0x1F,
            OpcodeE::RETN => 0x20,
            OpcodeE::DESTRUCT => 0x21,
            OpcodeE::NOTI => 0x22,
            OpcodeE::DECISP => 0x23,
            OpcodeE::INCISP => 0x24,
            OpcodeE::JNZ => 0x25,
            OpcodeE::CPDOWNBP => 0x26,
            OpcodeE::CPTOPBP => 0x27,
            OpcodeE::DECIBP => 0x28,
            OpcodeE::INCIBP => 0x29,
            OpcodeE::SAVEBP => 0x2A,
            OpcodeE::RESTOREBP => 0x2B,
            OpcodeE::STORE_STATE => 0x2C,
            OpcodeE::NOP => 0x2D,
            OpcodeE::CP_x37_DA2_QQ => 0x37,
            OpcodeE::T => 0x42,
        }
    }

    /// The instruction with the given code byte, if there is one.
    pub open spec fn with_code(code: u8) -> Option<OpcodeE> {
        if code == 0x01 {
            Some(OpcodeE::CPDOWNSP)
        } else if code == 0x02 {
            Some(OpcodeE::RSADD)
        } else if code == 0x03 {
            Some(OpcodeE::CPTOPSP)
        } else if code == 0x04 {
            Some(OpcodeE::CONST)
        } else if code == 0x05 {
            Some(OpcodeE::ACTION)
        } else if code == 0x06 {
            Some(OpcodeE::LOGANDII)
        } else if code == 0x07 {
            Some(OpcodeE::LOGORII)
        } else if code == 0x08 {
            Some(OpcodeE::INCORII)
        } else if code == 0x09 {
            Some(OpcodeE::EXCORII)
        } else if code == 0x0A {
            Some(OpcodeE::BOOLANDII)
        } else if code == 0x0B {
            Some(OpcodeE::EQUAL)
        } else if code == 0x0C {
            Some(OpcodeE::NEQUAL)
        } else if code == 0x0D {
            Some(OpcodeE::GEQ)
        } else if code == 0x0E {
            Some(OpcodeE::GT)
        } else if code == 0x0F {
            Some(OpcodeE::LT)
        } else if code == 0x10 {
            Some(OpcodeE::LEQ)
        } else if code == 0x11 {
            Some(OpcodeE::SHLEFTII)
        } else if code == 0x12 {
            Some(OpcodeE::SHRIGHTII)
        } else if code == 0x13 {
            Some(OpcodeE::USHRIGHTII)
        } else if code == 0x14 {
            Some(OpcodeE::ADD)
        } else if code == 0x15 {
            Some(OpcodeE::SUB)
        } else if code == 0x16 {
            Some(OpcodeE::MUL)
        } else if code == 0x17 {
            Some(OpcodeE::DIV)
        } else if code == 0x18 {
            Some(OpcodeE::MODII)
        } else if code == 0x19 {
            Some(OpcodeE::NEG)
        } else if code == 0x1A {
            Some(OpcodeE::COMPI)
        } else if code == 0x1B {
            Some(OpcodeE::MOVSP)
        } else if code == 0x1C {
            Some(OpcodeE::STORE_STATEALL)
        } else if code == 0x1D {
            Some(OpcodeE::JMP)
        } else if code == 0x1E {
            Some(OpcodeE::JSR)
        } else if code == 0x1F {
            Some(OpcodeE::JZ)
        } else if code == 0x20 {
            Some(OpcodeE::RETN)
        } else if code == 0x21 {
            Some(OpcodeE::DESTRUCT)
        } else if code == 0x22 {
            Some(OpcodeE::NOTI)
        } else if code == 0x23 {
            Some(OpcodeE::DECISP)
        } else if code == 0x24 {
            Some(OpcodeE::INCISP)
        } else if code == 0x25 {
            Some(OpcodeE::JNZ)
        } else if code == 0x26 {
            Some(OpcodeE::CPDOWNBP)
        } else if code == 0x27 {
            Some(OpcodeE::CPTOPBP)
        } else if code == 0x28 {
            Some(OpcodeE::DECIBP)
        } else if code == 0x29 {
            Some(OpcodeE::INCIBP)
        } else if code == 0x2A {
            Some(OpcodeE::SAVEBP)
        } else if code == 0x2B {
            Some(OpcodeE::RESTOREBP)
        } else if code == 0x2C {
            Some(OpcodeE::STORE_STATE)
        } else if code == 0x2D {
            Some(OpcodeE::NOP)
        } else if code == 0x37 {
            Some(OpcodeE::CP_x37_DA2_QQ)
        } else if code == 0x42 {
            Some(OpcodeE::T)
        } else {
            None
        }
    }

    /// The mnemonic, as characters.
    pub open spec fn name_of(self) -> Seq<char> {
        match self {
            OpcodeE::CPDOWNSP => "CPDOWNSP"@,
            OpcodeE::RSADD => "RSADD"@,
            OpcodeE::CPTOPSP => "CPTOPSP"@,
            OpcodeE::CONST => "CONST"@,
            OpcodeE::ACTION => "ACTION"@,
            OpcodeE::LOGANDII => "LOGANDII"@,
            OpcodeE::LOGORII => "LOGORII"@,
            OpcodeE::INCORII => "INCORII"@,
            OpcodeE::EXCORII => "EXCORII"@,
            OpcodeE::BOOLANDII => "BOOLANDII"@,
            OpcodeE::EQUAL => "EQUAL"@,
            OpcodeE::NEQUAL => "NEQUAL"@,
            OpcodeE::GEQ => "GEQ"@,
            OpcodeE::GT => "GT"@,
            OpcodeE::LT => "LT"@,
            OpcodeE::LEQ => "LEQ"@,
            OpcodeE::SHLEFTII => "SHLEFTII"@,
            OpcodeE::SHRIGHTII => "SHRIGHTII"@,
            OpcodeE::USHRIGHTII => "USHRIGHTII"@,
            OpcodeE::ADD => "ADD"@,
            OpcodeE::SUB => "SUB"@,
            OpcodeE::MUL => "MUL"@,
            OpcodeE::DIV => "DIV"@,
            OpcodeE::MODII => "MODII"@,
            OpcodeE::NEG => "NEG"@,
            OpcodeE::COMPI => "COMPI"@,
            OpcodeE::MOVSP => "MOVSP"@,
            OpcodeE::STORE_STATEALL => "STORE_STATEALL"@,
            OpcodeE::JMP => "JMP"@,
            OpcodeE::JSR => "JSR"@,
            OpcodeE::JZ => "JZ"@,
            OpcodeE::RETN => "RETN"@,
            OpcodeE::DESTRUCT => "DESTRUCT"@,
            OpcodeE::NOTI => "NOTI"@,
            OpcodeE::DECISP => "DECISP"@,
            OpcodeE::INCISP => "INCISP"@,
            OpcodeE::JNZ => "JNZ"@,
            OpcodeE::CPDOWNBP => "CPDOWNBP"@,
            OpcodeE::CPTOPBP => "CPTOPBP"@,
            OpcodeE::DECIBP => "DECIBP"@,
            OpcodeE::INCIBP => "INCIBP"@,
            OpcodeE::SAVEBP => "SAVEBP"@,
            OpcodeE::RESTOREBP => "RESTOREBP"@,
            OpcodeE::STORE_STATE => "STORE_STATE"@,
            OpcodeE::NOP => "NOP"@,
            OpcodeE::CP_x37_DA2_QQ => "CP_x37_DA2_QQ"@,
            OpcodeE::T => "T"@,
        }
    }

    /// The mnemonic, as the bytes that stand in assembly text.
    pub open spec fn mnemonic(self) -> Seq<u8> {
        encode_utf8(self.name_of())
    }

    /// The code byte of the instruction.
    #[verifier::when_used_as_spec(code_of)]
    pub fn code(self) -> (c: u8)
        ensures
            c == self.code_of(),
    {
        match self {
            OpcodeE::CPDOWNSP => 0x01,
            OpcodeE::RSADD => 0x02,
            OpcodeE::CPTOPSP => 0x03,
            OpcodeE::CONST => 0x04,
            OpcodeE::ACTION => 0x05,
            OpcodeE::LOGANDII => 0x06,
            OpcodeE::LOGORII => 0x07,
            OpcodeE::INCORII => 0x08,
            OpcodeE::EXCORII => 0x09,
            OpcodeE::BOOLANDII => 0x0A,
            OpcodeE::EQUAL => 0x0B,
            OpcodeE::NEQUAL => 0x0C,
            OpcodeE::GEQ => 0x0D,
            OpcodeE::GT => 0x0E,
            OpcodeE::LT => 0x0F,
            OpcodeE::LEQ => 0x10,
            OpcodeE::SHLEFTII => 0x11,
            OpcodeE::SHRIGHTII => 0x12,
            OpcodeE::USHRIGHTII => 0x13,
            OpcodeE::ADD => 0x14,
            OpcodeE::SUB => 0x15,
            OpcodeE::MUL => 0x16,
            OpcodeE::DIV => 0x17,
            OpcodeE::MODII => 0x18,
            OpcodeE::NEG => 0x19,
            OpcodeE::COMPI => 0x1A,
            OpcodeE::MOVSP => 0x1B,
            OpcodeE::STORE_STATEALL => 0x1C,
            OpcodeE::JMP => 0x1D,
            OpcodeE::JSR => 0x1E,
            OpcodeE::JZ => 0x1F,
            OpcodeE::RETN => 0x20,
            OpcodeE::DESTRUCT => 0x21,
            OpcodeE::NOTI => 0x22,
            OpcodeE::DECISP => 0x23,
            OpcodeE::INCISP => 0x24,
            OpcodeE::JNZ => 0x25,
            OpcodeE::CPDOWNBP => 0x26,
            OpcodeE::CPTOPBP => 0x27,
            OpcodeE::DECIBP => 0x28,
            OpcodeE::INCIBP => 0x29,
            OpcodeE::SAVEBP => 0x2A,
            OpcodeE::RESTOREBP => 0x2B,
            OpcodeE::STORE_STATE => 0x2C,
            OpcodeE::NOP => 0x2D,
            OpcodeE::CP_x37_DA2_QQ => 0x37,
            OpcodeE::T => 0x42,
        }
    }

    /// The instruction with the given code byte, if there is one.
    pub fn from_code(code: u8) -> (r: Option<OpcodeE>)
        ensures
            r == OpcodeE::with_code(code),
    {
        match code {
            0x01 => Some(OpcodeE::CPDOWNSP),
            0x02 => Some(OpcodeE::RSADD),
            0x03 => Some(OpcodeE::CPTOPSP),
            0x04 => Some(OpcodeE::CONST),
            0x05 => Some(OpcodeE::ACTION),
            0x06 => Some(OpcodeE::LOGANDII),
            0x07 => Some(OpcodeE::LOGORII),
            0x08 => Some(OpcodeE::INCORII),
            0x09 => Some(OpcodeE::EXCORII),
            0x0A => Some(OpcodeE::BOOLANDII),
            0x0B => Some(OpcodeE::EQUAL),
            0x0C => Some(OpcodeE::NEQUAL),
            0x0D => Some(OpcodeE::GEQ),
            0x0E => Some(OpcodeE::GT),
            0x0F => Some(OpcodeE::LT),
            0x10 => Some(OpcodeE::LEQ),
            0x11 => Some(OpcodeE::SHLEFTII),
            0x12 => Some(OpcodeE::SHRIGHTII),
            0x13 => Some(OpcodeE::USHRIGHTII),
            0x14 => Some(OpcodeE::ADD),
            0x15 => Some(OpcodeE::SUB),
            0x16 => Some(OpcodeE::MUL),
            0x17 => Some(OpcodeE::DIV),
            0x18 => Some(OpcodeE::MODII),
            0x19 => Some(OpcodeE::NEG),
            0x1A => Some(OpcodeE::COMPI),
            0x1B => Some(OpcodeE::MOVSP),
            0x1C => Some(OpcodeE::STORE_STATEALL),
            0x1D => Some(OpcodeE::JMP),
            0x1E => Some(OpcodeE::JSR),
            0x1F => Some(OpcodeE::JZ),
            0x20 => Some(OpcodeE::RETN),
            0x21 => Some(OpcodeE::DESTRUCT),
            0x22 => Some(OpcodeE::NOTI),
            0x23 => Some(OpcodeE::DECISP),
            0x24 => Some(OpcodeE::INCISP),
            0x25 => Some(OpcodeE::JNZ),
            0x26 => Some(OpcodeE::CPDOWNBP),
            0x27 => Some(OpcodeE::CPTOPBP),
            0x28 => Some(OpcodeE::DECIBP),
            0x29 => Some(OpcodeE::INCIBP),
            0x2A => Some(OpcodeE::SAVEBP),
            0x2B => Some(OpcodeE::RESTOREBP),
            0x2C => Some(OpcodeE::STORE_STATE),
            0x2D => Some(OpcodeE::NOP),
            0x37 => Some(OpcodeE::CP_x37_DA2_QQ),
            0x42 => Some(OpcodeE::T),
            _ => None,
        }
    }

    /// The mnemonic.
    pub fn name(self) -> (s: &'static str)
        ensures
            s@ == self.name_of(),
            s.spec_bytes() == self.mnemonic(),
    {
        match self {
            OpcodeE::CPDOWNSP => "CPDOWNSP",
            OpcodeE::RSADD => "RSADD",
            OpcodeE::CPTOPSP => "CPTOPSP",
            OpcodeE::CONST => "CONST",
            OpcodeE::ACTION => "ACTION",
            OpcodeE::LOGANDII => "LOGANDII",
            OpcodeE::LOGORII => "LOGORII",
            OpcodeE::INCORII => "INCORII",
            OpcodeE::EXCORII => "EXCORII",
            OpcodeE::BOOLANDII => "BOOLANDII",
            OpcodeE::EQUAL => "EQUAL",
            OpcodeE::NEQUAL => "NEQUAL",
            OpcodeE::GEQ => "GEQ",
            OpcodeE::GT => "GT",
            OpcodeE::LT => "LT",
            OpcodeE::LEQ => "LEQ",
            OpcodeE::SHLEFTII => "SHLEFTII",
            OpcodeE::SHRIGHTII => "SHRIGHTII",
            OpcodeE::USHRIGHTII => "USHRIGHTII",
            OpcodeE::ADD => "ADD",
            OpcodeE::SUB => "SUB",
            OpcodeE::MUL => "MUL",
            OpcodeE::DIV => "DIV",
            OpcodeE::MODII => "MODII",
            OpcodeE::NEG => "NEG",
            OpcodeE::COMPI => "COMPI",
            OpcodeE::MOVSP => "MOVSP",
            OpcodeE::STORE_STATEALL => "STORE_STATEALL",
            OpcodeE::JMP => "JMP",
            OpcodeE::JSR => "JSR",
            OpcodeE::JZ => "JZ",
            OpcodeE::RETN => "RETN",
            OpcodeE::DESTRUCT => "DESTRUCT",
            OpcodeE::NOTI => "NOTI",
            OpcodeE::DECISP => "DECISP",
            OpcodeE::INCISP => "INCISP",
            OpcodeE::JNZ => "JNZ",
            OpcodeE::CPDOWNBP => "CPDOWNBP",
            OpcodeE::CPTOPBP => "CPTOPBP",
            OpcodeE::DECIBP => "DECIBP",
            OpcodeE::INCIBP => "INCIBP",
            OpcodeE::SAVEBP => "SAVEBP",
            OpcodeE::RESTOREBP => "RESTOREBP",
            OpcodeE::STORE_STATE => "STORE_STATE",
            OpcodeE::NOP => "NOP",
            OpcodeE::CP_x37_DA2_QQ => "CP_x37_DA2_QQ",
            OpcodeE::T => "T",
        }
    }
}

/// An operand descriptor. Every variant but `String` carries the operand's
/// width in bytes; a `String` is as long as the `Size` before it says.
#[derive(Debug, PartialEq, Eq, Clone, Copy, Structural)]
pub enum Operand {
    Routine(usize),
    Object(usize),
    Size(usize),
    Offset(usize),
    Integer(usize),
    Float(usize),
    String,
    ArgCount(usize),
}

impl Operand {
    /// The fixed width of the operand; `None` for a `String`.
    pub open spec fn width(self) -> Option<usize> {
        match self {
            Operand::Routine(w) => Some(w),
            Operand::Object(w) => Some(w),
            Operand::Size(w) => Some(w),
            Operand::Offset(w) => Some(w),
            Operand::Integer(w) => Some(w),
            Operand::Float(w) => Some(w),
            Operand::ArgCount(w) => Some(w),
            Operand::String => None,
        }
    }
}

/// One entry of the opcode table.
#[derive(Debug)]
pub struct Opcode {
    pub code: OpcodeE,
    /// The legal stack-type bytes; `None` where the instruction has no type byte.
    pub types: Option<Vec<u8>>,
    /// The operand list of each type byte that has one.
    pub args: Option<HashMap<u8, Vec<Operand>>>,
}

impl Opcode {
    /// Whether the instruction is followed by a type byte.
    pub open spec fn typed(&self) -> bool {
        self.types is Some
    }

    /// The legal stack-type bytes, in table order; empty for an untyped instruction.
    pub open spec fn legal_types(&self) -> Seq<u8> {
        match self.types {
            Some(t) => t@,
            None => Seq::empty(),
        }
    }

    /// Whether `t` is a legal type byte of this instruction.
    pub open spec fn legal(&self, t: u8) -> bool {
        self.legal_types().contains(t)
    }

    /// The operand list of the variant with type byte `t`. A variant without
    /// an entry has no operands. Untyped instructions are listed under 0.
    pub open spec fn operands(&self, t: u8) -> Seq<Operand> {
        match self.args {
            Some(m) => operand_list(m@, t),
            None => Seq::empty(),
        }
    }
}

/// The list that `m` holds under `t`; empty where it holds none.
pub open spec fn operand_list(m: Map<u8, Vec<Operand>>, t: u8) -> Seq<Operand> {
    if m.contains_key(t) {
        m[t]@
    } else {
        Seq::empty()
    }
}

/// The legal stack types of a built-in instruction.
pub open spec fn builtin_types(c: OpcodeE) -> Option<Seq<u8>> {
    match c {
        OpcodeE::CPDOWNSP => Some(seq![0x01u8]),
        OpcodeE::RSADD => Some(seq![0x03u8, 0x04, 0x05, 0x06, 0x13]),
        OpcodeE::CPTOPSP => Some(seq![0x01u8]),
        OpcodeE::CONST => Some(seq![0x03u8, 0x04, 0x05, 0x06]),
        OpcodeE::ACTION => Some(seq![0x00u8]),
        OpcodeE::LOGANDII => Some(seq![0x20u8]),
        OpcodeE::LOGORII => Some(seq![0x20u8]),
        OpcodeE::INCORII => Some(seq![0x20u8]),
        OpcodeE::EXCORII => Some(seq![0x20u8]),
        OpcodeE::BOOLANDII => Some(seq![0x20u8]),
        OpcodeE::EQUAL => Some(
            seq![
                0x20u8,
                0x21,
                0x22,
                0x23,
                0x24,
                0x30,
                0x31,
                0x32,
                0x33,
                0x34,
                0x35,
                0x36,
                0x37,
                0x38,
                0x39,
            ],
        ),
        OpcodeE::NEQUAL => Some(
            seq![
                0x20u8,
                0x21,
                0x22,
                0x23,
                0x30,
                0x31,
                0x32,
                0x33,
                0x34,
                0x35,
                0x36,
                0x37,
                0x38,
                0x39,
            ],
        ),
        OpcodeE::GEQ => Some(seq![0x20u8, 0x21]),
        OpcodeE::GT => Some(seq![0x20u8, 0x21]),
        OpcodeE::LT => Some(seq![0x20u8, 0x21]),
        OpcodeE::LEQ => Some(seq![0x20u8, 0x21]),
        OpcodeE::SHLEFTII => Some(seq![0x20u8]),
        OpcodeE::SHRIGHTII => Some(seq![0x20u8]),
        OpcodeE::USHRIGHTII => Some(seq![0x20u8]),
        OpcodeE::ADD => Some(seq![0x20u8, 0x25, 0x26, 0x21, 0x23, 0x3a]),
        OpcodeE::SUB => Some(seq![0x20u8, 0x25, 0x26, 0x21, 0x3a]),
        OpcodeE::MUL => Some(seq![0x20u8, 0x25, 0x26, 0x21, 0x3b, 0x3c]),
        OpcodeE::DIV => Some(seq![0x20u8, 0x25, 0x26, 0x21, 0x3b]),
        OpcodeE::MODII => Some(seq![0x20u8]),
        OpcodeE::NEG => Some(seq![0x03u8, 0x04]),
        OpcodeE::COMPI => Some(seq![0x03u8]),
        OpcodeE::MOVSP => Some(seq![0x00u8]),
        OpcodeE::STORE_STATEALL => Some(seq![0x08u8]),
        OpcodeE::JMP => Some(seq![0x00u8]),
        OpcodeE::JSR => Some(seq![0x00u8]),
        OpcodeE::JZ => Some(seq![0x00u8]),
        OpcodeE::RETN => Some(seq![0x00u8]),
        OpcodeE::DESTRUCT => Some(seq![0x01u8]),
        OpcodeE::NOTI => Some(seq![0x03u8]),
        OpcodeE::DECISP => Some(seq![0x03u8]),
        OpcodeE::INCISP => Some(seq![0x03u8]),
        OpcodeE::JNZ => Some(seq![0x00u8]),
        OpcodeE::CPDOWNBP => Some(seq![0x01u8]),
        OpcodeE::CPTOPBP => Some(seq![0x01u8]),
        OpcodeE::DECIBP => Some(seq![0x03u8]),
        OpcodeE::INCIBP => Some(seq![0x03u8]),
        OpcodeE::SAVEBP => Some(seq![0x00u8]),
        OpcodeE::RESTOREBP => Some(seq![0x00u8]),
        OpcodeE::STORE_STATE => Some(seq![0x10u8]),
        OpcodeE::NOP => Some(seq![0x00u8]),
        OpcodeE::CP_x37_DA2_QQ => Some(seq![0x01u8]),
        OpcodeE::T => None,
    }
}

/// The operand list of a built-in instruction under type byte `t`
/// (under 0 for `T`, which has no type byte).
pub open spec fn builtin_operands(c: OpcodeE, t: u8) -> Seq<Operand> {
    match c {
        OpcodeE::CPDOWNSP
        | OpcodeE::CPTOPSP
        | OpcodeE::CPDOWNBP
        | OpcodeE::CPTOPBP
        | OpcodeE::CP_x37_DA2_QQ => if t == 0x01 {
            seq![Operand::Offset(4), Operand::Size(2)]
        } else {
            Seq::empty()
        },
        OpcodeE::CONST => if t == 0x03 {
            seq![Operand::Integer(4)]
        } else if t == 0x04 {
            seq![Operand::Float(4)]
        } else if t == 0x05 {
            seq![Operand::Size(2), Operand::String]
        } else if t == 0x06 {
            seq![Operand::Object(4)]
        } else {
            Seq::empty()
        },
        OpcodeE::ACTION => if t == 0x00 {
            seq![Operand::Routine(2), Operand::ArgCount(1)]
        } else {
            Seq::empty()
        },
        OpcodeE::EQUAL | OpcodeE::NEQUAL => if t == 0x24 {
            seq![Operand::Size(2)]
        } else {
            Seq::empty()
        },
        OpcodeE::MOVSP | OpcodeE::JMP | OpcodeE::JSR | OpcodeE::JZ | OpcodeE::JNZ => if t
            == 0x00 {
            seq![Operand::Offset(4)]
        } else {
            Seq::empty()
        },
        OpcodeE::DESTRUCT => if t == 0x01 {
            seq![Operand::Size(2), Operand::Offset(2), Operand::Size(2)]
        } else {
            Seq::empty()
        },
        OpcodeE::DECISP | OpcodeE::INCISP | OpcodeE::DECIBP | OpcodeE::INCIBP => if t == 0x03 {
            seq![Operand::Offset(4)]
        } else {
            Seq::empty()
        },
        OpcodeE::STORE_STATE => if t == 0x10 {
            seq![Operand::Size(4), Operand::Size(4)]
        } else {
            Seq::empty()
        },
        OpcodeE::T => if t == 0x00 {
            seq![Operand::Size(4)]
        } else {
            Seq::empty()
        },
        _ => Seq::empty(),
    }
}

/// The type bytes that a built-in instruction has a list of operands under,
/// be it an empty one; `None` where it has no lists at all.
pub open spec fn builtin_listed(c: OpcodeE) -> Option<Set<u8>> {
    match c {
        OpcodeE::CPDOWNSP
        | OpcodeE::CPTOPSP
        | OpcodeE::CPDOWNBP
        | OpcodeE::CPTOPBP
        | OpcodeE::CP_x37_DA2_QQ
        | OpcodeE::DESTRUCT => Some(set![0x01u8]),
        OpcodeE::CONST => Some(set![0x03u8, 0x04u8, 0x05u8, 0x06u8]),
        OpcodeE::ACTION
        | OpcodeE::MOVSP
        | OpcodeE::JMP
        | OpcodeE::JSR
        | OpcodeE::JZ
        | OpcodeE::JNZ
        | OpcodeE::T => Some(set![0x00u8]),
        OpcodeE::EQUAL | OpcodeE::NEQUAL => Some(
            set![
                0x20u8,
                0x21u8,
                0x22u8,
                0x23u8,
                0x24u8,
                0x30u8,
                0x31u8,
                0x32u8,
                0x33u8,
                0x34u8,
                0x35u8,
                0x36u8,
                0x37u8,
                0x38u8,
                0x39u8,
            ],
        ),
        OpcodeE::DECISP | OpcodeE::INCISP | OpcodeE::DECIBP | OpcodeE::INCIBP => Some(
            set![0x03u8],
        ),
        OpcodeE::STORE_STATE => Some(set![0x10u8]),
        _ => None,
    }
}

/// Whether `op` is the built-in table entry of instruction `c`.
pub open spec fn is_builtin(op: Opcode, c: OpcodeE) -> bool {
    &&& op.code == c
    &&& match builtin_types(c) {
        Some(t) => op.types is Some && op.types->0@ =~= t,
        None => op.types is None,
    }
    &&& match builtin_listed(c) {
        Some(keys) => op.args is Some && op.args->0@.dom() =~= keys,
        None => op.args is None,
    }
    &&& forall|t: u8| #[trigger] op.operands(t) =~= builtin_operands(c, t)
}

/// Whether `table` is the built-in opcode table: 256 slots indexed by the
/// code byte, each empty or holding that instruction's entry.
pub open spec fn is_builtin_table(table: Seq<Option<Opcode>>) -> bool {
    &&& table.len() == MAX_OPCODES
    &&& forall|i: int|
        0 <= i < table.len() ==> match OpcodeE::with_code(i as u8) {
            Some(c) => (#[trigger] table[i]) is Some && is_builtin(table[i]->0, c),
            None => table[i] is None,
        }
}

/// An instruction without operands under any type.
fn bare(code: OpcodeE, types: Vec<u8>) -> (op: Opcode)
    ensures
        op.code == code,
        op.types == Some(types),
        op.args is None,
        forall|t: u8| #[trigger] op.operands(t) == Seq::<Operand>::empty(),
{
    Opcode { code, types: Some(types), args: None }
}

/// An instruction of one type `t`, with the operand list `list` under it.
fn single(code: OpcodeE, t: u8, list: Vec<Operand>) -> (op: Opcode)
    ensures
        op.code == code,
        op.types is Some,
        op.types->0@ == seq![t],
        op.args is Some,
        op.args->0@.dom() =~= set![t],
        forall|u: u8|
            #[trigger] op.operands(u) == if u == t {
                list@
            } else {
                Seq::empty()
            },
{
    let mut m: HashMap<u8, Vec<Operand>> = HashMap::new();
    m.insert(t, list);
    Opcode { code, types: Some(vec![t]), args: Some(m) }
}

/// The operand lists of the two comparisons: an explicitly empty list for
/// each type but 0x24, which carries the size of the structures compared.
fn comparison_args() -> (m: HashMap<u8, Vec<Operand>>)
    ensures
        m@.dom() =~= builtin_listed(OpcodeE::EQUAL)->0,
        forall|t: u8|
            #[trigger] operand_list(m@, t) == if t == 0x24 {
                seq![Operand::Size(2)]
            } else {
                Seq::empty()
            },
{
    let mut m: HashMap<u8, Vec<Operand>> = HashMap::new();
    m.insert(0x20, Vec::new());
    m.insert(0x21, Vec::new());
    m.insert(0x22, Vec::new());
    m.insert(0x23, Vec::new());
    m.insert(0x24, Vec::new());
    m.insert(0x30, Vec::new());
    m.insert(0x31, Vec::new());
    m.insert(0x32, Vec::new());
    m.insert(0x33, Vec::new());
    m.insert(0x34, Vec::new());
    m.insert(0x35, Vec::new());
    m.insert(0x36, Vec::new());
    m.insert(0x37, Vec::new());
    m.insert(0x38, Vec::new());
    m.insert(0x39, Vec::new());
    m.insert(0x24, vec![Operand::Size(2)]);
    m
}

/// The four kinds of constant, each with its own operand.
fn constant_args() -> (m: HashMap<u8, Vec<Operand>>)
    ensures
        m@.dom() =~= builtin_listed(OpcodeE::CONST)->0,
        forall|t: u8| #[trigger] operand_list(m@, t) == builtin_operands(OpcodeE::CONST, t),
{
    let mut m: HashMap<u8, Vec<Operand>> = HashMap::new();
    m.insert(0x03, vec![Operand::Integer(4)]);
    m.insert(0x04, vec![Operand::Float(4)]);
    m.insert(0x05, vec![Operand::Size(2), Operand::String]);
    m.insert(0x06, vec![Operand::Object(4)]);
    m
}

/// The built-in table entry of instruction `c`.
pub fn builtin_opcode(c: OpcodeE) -> (op: Opcode)
    ensures
        is_builtin(op, c),
{
    match c {
        OpcodeE::CPDOWNSP => single(c, 0x01, vec![Operand::Offset(4), Operand::Size(2)]),
        OpcodeE::RSADD => bare(c, vec![0x03, 0x04, 0x05, 0x06, 0x13]),
        OpcodeE::CPTOPSP => single(c, 0x01, vec![Operand::Offset(4), Operand::Size(2)]),
        OpcodeE::CONST => Opcode {
            code: c,
            types: Some(vec![0x03, 0x04, 0x05, 0x06]),
            args: Some(constant_args()),
        },
        OpcodeE::ACTION => single(c, 0x00, vec![Operand::Routine(2), Operand::ArgCount(1)]),
        OpcodeE::LOGANDII => bare(c, vec![0x20]),
        OpcodeE::LOGORII => bare(c, vec![0x20]),
        OpcodeE::INCORII => bare(c, vec![0x20]),
        OpcodeE::EXCORII => bare(c, vec![0x20]),
        OpcodeE::BOOLANDII => bare(c, vec![0x20]),
        OpcodeE::EQUAL => Opcode {
            code: c,
            types: Some(
                vec![
                    0x20,
                    0x21,
                    0x22,
                    0x23,
                    0x24,
                    0x30,
                    0x31,
                    0x32,
                    0x33,
                    0x34,
                    0x35,
                    0x36,
                    0x37,
                    0x38,
                    0x39,
                ],
            ),
            args: Some(comparison_args()),
        },
        OpcodeE::NEQUAL => Opcode {
            code: c,
            types: Some(
                vec![
                    0x20,
                    0x21,
                    0x22,
                    0x23,
                    0x30,
                    0x31,
                    0x32,
                    0x33,
                    0x34,
                    0x35,
                    0x36,
                    0x37,
                    0x38,
                    0x39,
                ],
            ),
            args: Some(comparison_args()),
        },
        OpcodeE::GEQ => bare(c, vec![0x20, 0x21]),
        OpcodeE::GT => bare(c, vec![0x20, 0x21]),
        OpcodeE::LT => bare(c, vec![0x20, 0x21]),
        OpcodeE::LEQ => bare(c, vec![0x20, 0x21]),
        OpcodeE::SHLEFTII => bare(c, vec![0x20]),
        OpcodeE::SHRIGHTII => bare(c, vec![0x20]),
        OpcodeE::USHRIGHTII => bare(c, vec![0x20]),
        OpcodeE::ADD => bare(c, vec![0x20, 0x25, 0x26, 0x21, 0x23, 0x3a]),
        OpcodeE::SUB => bare(c, vec![0x20, 0x25, 0x26, 0x21, 0x3a]),
        OpcodeE::MUL => bare(c, vec![0x20, 0x25, 0x26, 0x21, 0x3b, 0x3c]),
        OpcodeE::DIV => bare(c, vec![0x20, 0x25, 0x26, 0x21, 0x3b]),
        OpcodeE::MODII => bare(c, vec![0x20]),
        OpcodeE::NEG => bare(c, vec![0x03, 0x04]),
        OpcodeE::COMPI => bare(c, vec![0x03]),
        OpcodeE::MOVSP => single(c, 0x00, vec![Operand::Offset(4)]),
        OpcodeE::STORE_STATEALL => bare(c, vec![0x08]),
        OpcodeE::JMP => single(c, 0x00, vec![Operand::Offset(4)]),
        OpcodeE::JSR => single(c, 0x00, vec![Operand::Offset(4)]),
        OpcodeE::JZ => single(c, 0x00, vec![Operand::Offset(4)]),
        OpcodeE::RETN => bare(c, vec![0x00]),
        OpcodeE::DESTRUCT => single(
            c,
            0x01,
            vec![Operand::Size(2), Operand::Offset(2), Operand::Size(2)],
        ),
        OpcodeE::NOTI => bare(c, vec![0x03]),
        OpcodeE::DECISP => single(c, 0x03, vec![Operand::Offset(4)]),
        OpcodeE::INCISP => single(c, 0x03, vec![Operand::Offset(4)]),
        OpcodeE::JNZ => single(c, 0x00, vec![Operand::Offset(4)]),
        OpcodeE::CPDOWNBP => single(c, 0x01, vec![Operand::Offset(4), Operand::Size(2)]),
        OpcodeE::CPTOPBP => single(c, 0x01, vec![Operand::Offset(4), Operand::Size(2)]),
        OpcodeE::DECIBP => single(c, 0x03, vec![Operand::Offset(4)]),
        OpcodeE::INCIBP => single(c, 0x03, vec![Operand::Offset(4)]),
        OpcodeE::SAVEBP => bare(c, vec![0x00]),
        OpcodeE::RESTOREBP => bare(c, vec![0x00]),
        OpcodeE::STORE_STATE => single(c, 0x10, vec![Operand::Size(4), Operand::Size(4)]),
        OpcodeE::NOP => bare(c, vec![0x00]),
        OpcodeE::CP_x37_DA2_QQ => single(c, 0x01, vec![Operand::Offset(4), Operand::Size(2)]),
        OpcodeE::T => {
            let mut m: HashMap<u8, Vec<Operand>> = HashMap::new();
            m.insert(0x00, vec![Operand::Size(4)]);
            Opcode { code: c, types: None, args: Some(m) }
        },
    }
}

/// The opcode table, indexed by the code byte.
pub fn get_opcodes() -> (table: Vec<Option<Opcode>>)
    ensures
        is_builtin_table(table@),
{
    let mut table: Vec<Option<Opcode>> = Vec::new();
    let mut i: usize = 0;
    while i < MAX_OPCODES
        invariant
            i <= MAX_OPCODES,
            table@.len() == i,
            forall|j: int|
                0 <= j < i ==> match OpcodeE::with_code(j as u8) {
                    Some(c) => (#[trigger] table@[j]) is Some && is_builtin(table@[j]->0, c),
                    None => table@[j] is None,
                },
        decreases MAX_OPCODES - i,
    {
        let slot = match OpcodeE::from_code(i as u8) {
            Some(c) => Some(builtin_opcode(c)),
            None => None,
        };
        table.push(slot);
        i += 1;
    }
    table
}

/// One decoded instruction, as a value of specifications.
pub struct Instr {
    /// The table entry of the instruction.
    pub op: Opcode,
    /// The type byte, where the instruction carries one.
    pub type_byte: Option<u8>,
    /// Each operand's descriptor with the bytes read for it.
    pub items: Seq<(Operand, Seq<u8>)>,
    /// The number of bytes that the instruction takes in the stream.
    pub len: nat,
}

/// One decoded instruction: a reference to its table entry, the type byte
/// where it has one, and the bytes of each operand beside its descriptor.
pub struct OpPayload<'a> {
    pub bytes_read: usize,
    pub op: &'a Opcode,
    pub _type: Option<u8>,
    pub args: Vec<(&'a Operand, Vec<u8>)>,
}

impl<'a> OpPayload<'a> {
    /// The operands, each descriptor with its bytes.
    pub open spec fn items(&self) -> Seq<(Operand, Seq<u8>)> {
        Seq::new(self.args@.len(), |i: int| (*self.args@[i].0, self.args@[i].1@))
    }
}

impl<'a> View for OpPayload<'a> {
    type V = Instr;

    open spec fn view(&self) -> Instr {
        Instr {
            op: *self.op,
            type_byte: self._type,
            items: self.items(),
            len: self.bytes_read as nat,
        }
    }
}

/// The stack types: what an instruction finds on the evaluation stack.
#[derive(Debug, PartialEq, Eq, Clone, Copy, Structural)]
pub enum NWTypeE {
    NULLQ,
    COPYQ,
    I,
    F,
    S,
    O,
    Effect,
    Event,
    Location,
    Talent,
    II,
    FF,
    OO,
    SS,
    TT,
    IF,
    FI,
    EffectEffect,
    EventEvent,
    LocationLocation,
    TalentTalent,
    Unknownx34,
    Unknownx35,
    Unknownx36,
    Unknownx37,
    Unknownx38,
    Unknownx39,
    VV,
    VF,
    FV,
}

impl NWTypeE {
    /// The type byte.
    pub open spec fn code_of(self) -> u8 {
        match self {
            NWTypeE::NULLQ => 0x00,
            NWTypeE::COPYQ => 0x01,
            NWTypeE::I => 0x03,
            NWTypeE::F => 0x04,
            NWTypeE::S => 0x05,
            NWTypeE::O => 0x06,
            NWTypeE::Effect => 0x10,
            NWTypeE::Event => 0x11,
            NWTypeE::Location => 0x12,
            NWTypeE::Talent => 0x13,
            NWTypeE::II => 0x20,
            NWTypeE::FF => 0x21,
            NWTypeE::OO => 0x22,
            NWTypeE::SS => 0x23,
            NWTypeE::TT => 0x24,
            NWTypeE::IF => 0x25,
            NWTypeE::FI => 0x26,
            NWTypeE::EffectEffect => 0x30,
            NWTypeE::EventEvent => 0x31,
            NWTypeE::LocationLocation => 0x32,
            NWTypeE::TalentTalent => 0x33,
            NWTypeE::Unknownx34 => 0x34,
            NWTypeE::Unknownx35 => 0x35,
            NWTypeE::Unknownx36 => 0x36,
            NWTypeE::Unknownx37 => 0x37,
            NWTypeE::Unknownx38 => 0x38,
            NWTypeE::Unknownx39 => 0x39,
            NWTypeE::VV => 0x3A,
            NWTypeE::VF => 0x3B,
            NWTypeE::FV => 0x3C,
        }
    }

    /// The stack type with the given type byte, if there is one.
    pub open spec fn with_code(code: u8) -> Option<NWTypeE> {
        if code == 0x00 {
            Some(NWTypeE::NULLQ)
        } else if code == 0x01 {
            Some(NWTypeE::COPYQ)
        } else if code == 0x03 {
            Some(NWTypeE::I)
        } else if code == 0x04 {
            Some(NWTypeE::F)
        } else if code == 0x05 {
            Some(NWTypeE::S)
        } else if code == 0x06 {
            Some(NWTypeE::O)
        } else if code == 0x10 {
            Some(NWTypeE::Effect)
        } else if code == 0x11 {
            Some(NWTypeE::Event)
        } else if code == 0x12 {
            Some(NWTypeE::Location)
        } else if code == 0x13 {
            Some(NWTypeE::Talent)
        } else if code == 0x20 {
            Some(NWTypeE::II)
        } else if code == 0x21 {
            Some(NWTypeE::FF)
        } else if code == 0x22 {
            Some(NWTypeE::OO)
        } else if code == 0x23 {
            Some(NWTypeE::SS)
        } else if code == 0x24 {
            Some(NWTypeE::TT)
        } else if code == 0x25 {
            Some(NWTypeE::IF)
        } else if code == 0x26 {
            Some(NWTypeE::FI)
        } else if code == 0x30 {
            Some(NWTypeE::EffectEffect)
        } else if code == 0x31 {
            Some(NWTypeE::EventEvent)
        } else if code == 0x32 {
            Some(NWTypeE::LocationLocation)
        } else if code == 0x33 {
            Some(NWTypeE::TalentTalent)
        } else if code == 0x34 {
            Some(NWTypeE::Unknownx34)
        } else if code == 0x35 {
            Some(NWTypeE::Unknownx35)
        } else if code == 0x36 {
            Some(NWTypeE::Unknownx36)
        } else if code == 0x37 {
            Some(NWTypeE::Unknownx37)
        } else if code == 0x38 {
            Some(NWTypeE::Unknownx38)
        } else if code == 0x39 {
            Some(NWTypeE::Unknownx39)
        } else if code == 0x3A {
            Some(NWTypeE::VV)
        } else if code == 0x3B {
            Some(NWTypeE::VF)
        } else if code == 0x3C {
            Some(NWTypeE::FV)
        } else {
            None
        }
    }

    /// The suffix that stands for the type behind a mnemonic, where it has one.
    pub open spec fn abbr_of(self) -> Option<&'static str> {
        match self {
            NWTypeE::NULLQ => None,
            NWTypeE::COPYQ => None,
            NWTypeE::I => Some("I"),
            NWTypeE::F => Some("F"),
            NWTypeE::S => Some("S"),
            NWTypeE::O => Some("O"),
            NWTypeE::Effect => None,
            NWTypeE::Event => None,
            NWTypeE::Location => None,
            NWTypeE::Talent => None,
            NWTypeE::II => Some("II"),
            NWTypeE::FF => Some("FF"),
            NWTypeE::OO => Some("OO"),
            NWTypeE::SS => Some("SS"),
            NWTypeE::TT => Some("TT"),
            NWTypeE::IF => Some("IF"),
            NWTypeE::FI => Some("FI"),
            NWTypeE::EffectEffect => None,
            NWTypeE::EventEvent => None,
            NWTypeE::LocationLocation => None,
            NWTypeE::TalentTalent => None,
            NWTypeE::Unknownx34 => None,
            NWTypeE::Unknownx35 => None,
            NWTypeE::Unknownx36 => None,
            NWTypeE::Unknownx37 => None,
            NWTypeE::Unknownx38 => None,
            NWTypeE::Unknownx39 => None,
            NWTypeE::VV => Some("VV"),
            NWTypeE::VF => Some("VF"),
            NWTypeE::FV => Some("FV"),
        }
    }

    /// A description of the type for readers.
    pub open spec fn desc_of(self) -> &'static str {
        match self {
            NWTypeE::NULLQ => "Null?",
            NWTypeE::COPYQ => "Copy?",
            NWTypeE::I => "Integer",
            NWTypeE::F => "Float",
            NWTypeE::S => "String",
            NWTypeE::O => "Object",
            NWTypeE::Effect => "Effect",
            NWTypeE::Event => "Event",
            NWTypeE::Location => "Location",
            NWTypeE::Talent => "Talent",
            NWTypeE::II => "Integer, Integer",
            NWTypeE::FF => "Float, Float",
            NWTypeE::OO => "Object, Object",
            NWTypeE::SS => "String, String",
            NWTypeE::TT => "Structure, Structure",
            NWTypeE::IF => "Integer, Float",
            NWTypeE::FI => "Float, Integer",
            NWTypeE::EffectEffect => "Effect, Effect",
            NWTypeE::EventEvent => "Event, Event",
            NWTypeE::LocationLocation => "Location, Location",
            NWTypeE::TalentTalent => "Talent, Talent",
            NWTypeE::Unknownx34 => "???",
            NWTypeE::Unknownx35 => "???",
            NWTypeE::Unknownx36 => "???",
            NWTypeE::Unknownx37 => "???",
            NWTypeE::Unknownx38 => "???",
            NWTypeE::Unknownx39 => "???",
            NWTypeE::VV => "Vector, Vector",
            NWTypeE::VF => "Vector, Float",
            NWTypeE::FV => "Float, Vector",
        }
    }

    /// The type byte.
    #[verifier::when_used_as_spec(code_of)]
    pub fn code(self) -> (c: u8)
        ensures
            c == self.code_of(),
    {
        match self {
            NWTypeE::NULLQ => 0x00,
            NWTypeE::COPYQ => 0x01,
            NWTypeE::I => 0x03,
            NWTypeE::F => 0x04,
            NWTypeE::S => 0x05,
            NWTypeE::O => 0x06,
            NWTypeE::Effect => 0x10,
            NWTypeE::Event => 0x11,
            NWTypeE::Location => 0x12,
            NWTypeE::Talent => 0x13,
            NWTypeE::II => 0x20,
            NWTypeE::FF => 0x21,
            NWTypeE::OO => 0x22,
            NWTypeE::SS => 0x23,
            NWTypeE::TT => 0x24,
            NWTypeE::IF => 0x25,
            NWTypeE::FI => 0x26,
            NWTypeE::EffectEffect => 0x30,
            NWTypeE::EventEvent => 0x31,
            NWTypeE::LocationLocation => 0x32,
            NWTypeE::TalentTalent => 0x33,
            NWTypeE::Unknownx34 => 0x34,
            NWTypeE::Unknownx35 => 0x35,
            NWTypeE::Unknownx36 => 0x36,
            NWTypeE::Unknownx37 => 0x37,
            NWTypeE::Unknownx38 => 0x38,
            NWTypeE::Unknownx39 => 0x39,
            NWTypeE::VV => 0x3A,
            NWTypeE::VF => 0x3B,
            NWTypeE::FV => 0x3C,
        }
    }

    /// The stack type with the given type byte, if there is one.
    pub fn from_code(code: u8) -> (r: Option<NWTypeE>)
        ensures
            r == NWTypeE::with_code(code),
    {
        match code {
            0x00 => Some(NWTypeE::NULLQ),
            0x01 => Some(NWTypeE::COPYQ),
            0x03 => Some(NWTypeE::I),
            0x04 => Some(NWTypeE::F),
            0x05 => Some(NWTypeE::S),
            0x06 => Some(NWTypeE::O),
            0x10 => Some(NWTypeE::Effect),
            0x11 => Some(NWTypeE::Event),
            0x12 => Some(NWTypeE::Location),
            0x13 => Some(NWTypeE::Talent),
            0x20 => Some(NWTypeE::II),
            0x21 => Some(NWTypeE::FF),
            0x22 => Some(NWTypeE::OO),
            0x23 => Some(NWTypeE::SS),
            0x24 => Some(NWTypeE::TT),
            0x25 => Some(NWTypeE::IF),
            0x26 => Some(NWTypeE::FI),
            0x30 => Some(NWTypeE::EffectEffect),
            0x31 => Some(NWTypeE::EventEvent),
            0x32 => Some(NWTypeE::LocationLocation),
            0x33 => Some(NWTypeE::TalentTalent),
            0x34 => Some(NWTypeE::Unknownx34),
            0x35 => Some(NWTypeE::Unknownx35),
            0x36 => Some(NWTypeE::Unknownx36),
            0x37 => Some(NWTypeE::Unknownx37),
            0x38 => Some(NWTypeE::Unknownx38),
            0x39 => Some(NWTypeE::Unknownx39),
            0x3A => Some(NWTypeE::VV),
            0x3B => Some(NWTypeE::VF),
            0x3C => Some(NWTypeE::FV),
            _ => None,
        }
    }

    /// The suffix that stands for the type behind a mnemonic, where it has one.
    #[verifier::when_used_as_spec(abbr_of)]
    pub fn abbr(self) -> (r: Option<&'static str>)
        ensures
            r == self.abbr_of(),
    {
        match self {
            NWTypeE::NULLQ => None,
            NWTypeE::COPYQ => None,
            NWTypeE::I => Some("I"),
            NWTypeE::F => Some("F"),
            NWTypeE::S => Some("S"),
            NWTypeE::O => Some("O"),
            NWTypeE::Effect => None,
            NWTypeE::Event => None,
            NWTypeE::Location => None,
            NWTypeE::Talent => None,
            NWTypeE::II => Some("II"),
            NWTypeE::FF => Some("FF"),
            NWTypeE::OO => Some("OO"),
            NWTypeE::SS => Some("SS"),
            NWTypeE::TT => Some("TT"),
            NWTypeE::IF => Some("IF"),
            NWTypeE::FI => Some("FI"),
            NWTypeE::EffectEffect => None,
            NWTypeE::EventEvent => None,
            NWTypeE::LocationLocation => None,
            NWTypeE::TalentTalent => None,
            NWTypeE::Unknownx34 => None,
            NWTypeE::Unknownx35 => None,
            NWTypeE::Unknownx36 => None,
            NWTypeE::Unknownx37 => None,
            NWTypeE::Unknownx38 => None,
            NWTypeE::Unknownx39 => None,
            NWTypeE::VV => Some("VV"),
            NWTypeE::VF => Some("VF"),
            NWTypeE::FV => Some("FV"),
        }
    }

    /// A description of the type for readers.
    #[verifier::when_used_as_spec(desc_of)]
    pub fn desc(self) -> (r: &'static str)
        ensures
            r == self.desc_of(),
    {
        match self {
            NWTypeE::NULLQ => "Null?",
            NWTypeE::COPYQ => "Copy?",
            NWTypeE::I => "Integer",
            NWTypeE::F => "Float",
            NWTypeE::S => "String",
            NWTypeE::O => "Object",
            NWTypeE::Effect => "Effect",
            NWTypeE::Event => "Event",
            NWTypeE::Location => "Location",
            NWTypeE::Talent => "Talent",
            NWTypeE::II => "Integer, Integer",
            NWTypeE::FF => "Float, Float",
            NWTypeE::OO => "Object, Object",
            NWTypeE::SS => "String, String",
            NWTypeE::TT => "Structure, Structure",
            NWTypeE::IF => "Integer, Float",
            NWTypeE::FI => "Float, Integer",
            NWTypeE::EffectEffect => "Effect, Effect",
            NWTypeE::EventEvent => "Event, Event",
            NWTypeE::LocationLocation => "Location, Location",
            NWTypeE::TalentTalent => "Talent, Talent",
            NWTypeE::Unknownx34 => "???",
            NWTypeE::Unknownx35 => "???",
            NWTypeE::Unknownx36 => "???",
            NWTypeE::Unknownx37 => "???",
            NWTypeE::Unknownx38 => "???",
            NWTypeE::Unknownx39 => "???",
            NWTypeE::VV => "Vector, Vector",
            NWTypeE::VF => "Vector, Float",
            NWTypeE::FV => "Float, Vector",
        }
    }
}

/// One entry of the stack-type table.
pub struct NWType {
    pub code: NWTypeE,
    pub abbr: Option<&'static str>,
    pub desc: &'static str,
}

impl NWType {
    /// The suffix as the bytes that stand in assembly text.
    pub open spec fn suffix(&self) -> Option<Seq<u8>> {
        match self.abbr {
            Some(a) => Some(a.spec_bytes()),
            None => None,
        }
    }
}

/// The built-in table entry of stack type `e`.
pub open spec fn builtin_type(e: NWTypeE) -> NWType {
    NWType { code: e, abbr: e.abbr_of(), desc: e.desc_of() }
}

/// The built-in stack-type table: 61 slots indexed by the type byte, each
/// empty or holding that type's entry.
pub open spec fn builtin_nwtypes() -> Seq<Option<NWType>> {
    Seq::new(
        MAX_STYPES as nat,
        |i: int|
            match NWTypeE::with_code(i as u8) {
                Some(e) => Some(builtin_type(e)),
                None => None,
            },
    )
}

/// The stack-type table, indexed by the type byte.
pub fn get_nwtypes() -> (table: Vec<Option<NWType>>)
    ensures
        table@ == builtin_nwtypes(),
{
    let mut table: Vec<Option<NWType>> = Vec::new();
    let mut i: usize = 0;
    while i < MAX_STYPES
        invariant
            i <= MAX_STYPES,
            table@.len() == i,
            forall|j: int| 0 <= j < i ==> #[trigger] table@[j] == builtin_nwtypes()[j],
        decreases MAX_STYPES - i,
    {
        let slot = match NWTypeE::from_code(i as u8) {
            Some(e) => Some(NWType { code: e, abbr: e.abbr(), desc: e.desc() }),
            None => None,
        };
        table.push(slot);
        i += 1;
    }
    proof {
        assert(table@ =~= builtin_nwtypes());
    }
    table
}

/// Whether `b` is a letter, a digit or `_`.
pub open spec fn is_word_byte(b: u8) -> bool {
    (0x30 <= b <= 0x39) || (0x41 <= b <= 0x5A) || (0x61 <= b <= 0x7A) || b == 0x5F
}

/// Whether `s` is made of letters, digits and `_` alone.
pub open spec fn is_word(s: Seq<u8>) -> bool {
    forall|i: int| 0 <= i < s.len() ==> is_word_byte(#[trigger] s[i])
}

/// The bytes of a text of ASCII characters are its characters.
proof fn lemma_ascii_bytes(s: &str)
    requires
        vstd::string::is_ascii(s),
    ensures
        s.spec_bytes().len() == s@.len(),
        forall|i: int| 0 <= i < s@.len() ==> #[trigger] s.spec_bytes()[i] == s@[i] as u8,
{
    vstd::utf8::is_ascii_chars_encode_utf8(s@);
}

/// Every mnemonic is a word of one to fourteen bytes.
pub proof fn lemma_mnemonic_word(c: OpcodeE)
    ensures
        1 <= c.mnemonic().len() <= 14,
        is_word(c.mnemonic()),
{
    match c {
        OpcodeE::CPDOWNSP => {
            reveal_strlit("CPDOWNSP");
            lemma_ascii_bytes("CPDOWNSP");
        },
        OpcodeE::RSADD => {
            reveal_strlit("RSADD");
            lemma_ascii_bytes("RSADD");
        },
        OpcodeE::CPTOPSP => {
            reveal_strlit("CPTOPSP");
            lemma_ascii_bytes("CPTOPSP");
        },
        OpcodeE::CONST => {
            reveal_strlit("CONST");
            lemma_ascii_bytes("CONST");
        },
        OpcodeE::ACTION => {
            reveal_strlit("ACTION");
            lemma_ascii_bytes("ACTION");
        },
        OpcodeE::LOGANDII => {
            reveal_strlit("LOGANDII");
            lemma_ascii_bytes("LOGANDII");
        },
        OpcodeE::LOGORII => {
            reveal_strlit("LOGORII");
            lemma_ascii_bytes("LOGORII");
        },
        OpcodeE::INCORII => {
            reveal_strlit("INCORII");
            lemma_ascii_bytes("INCORII");
        },
        OpcodeE::EXCORII => {
            reveal_strlit("EXCORII");
            lemma_ascii_bytes("EXCORII");
        },
        OpcodeE::BOOLANDII => {
            reveal_strlit("BOOLANDII");
            lemma_ascii_bytes("BOOLANDII");
        },
        OpcodeE::EQUAL => {
            reveal_strlit("EQUAL");
            lemma_ascii_bytes("EQUAL");
        },
        OpcodeE::NEQUAL => {
            reveal_strlit("NEQUAL");
            lemma_ascii_bytes("NEQUAL");
        },
        OpcodeE::GEQ => {
            reveal_strlit("GEQ");
            lemma_ascii_bytes("GEQ");
        },
        OpcodeE::GT => {
            reveal_strlit("GT");
            lemma_ascii_bytes("GT");
        },
        OpcodeE::LT => {
            reveal_strlit("LT");
            lemma_ascii_bytes("LT");
        },
        OpcodeE::LEQ => {
            reveal_strlit("LEQ");
            lemma_ascii_bytes("LEQ");
        },
        OpcodeE::SHLEFTII => {
            reveal_strlit("SHLEFTII");
            lemma_ascii_bytes("SHLEFTII");
        },
        OpcodeE::SHRIGHTII => {
            reveal_strlit("SHRIGHTII");
            lemma_ascii_bytes("SHRIGHTII");
        },
        OpcodeE::USHRIGHTII => {
            reveal_strlit("USHRIGHTII");
            lemma_ascii_bytes("USHRIGHTII");
        },
        OpcodeE::ADD => {
            reveal_strlit("ADD");
            lemma_ascii_bytes("ADD");
        },
        OpcodeE::SUB => {
            reveal_strlit("SUB");
            lemma_ascii_bytes("SUB");
        },
        OpcodeE::MUL => {
            reveal_strlit("MUL");
            lemma_ascii_bytes("MUL");
        },
        OpcodeE::DIV => {
            reveal_strlit("DIV");
            lemma_ascii_bytes("DIV");
        },
        OpcodeE::MODII => {
            reveal_strlit("MODII");
            lemma_ascii_bytes("MODII");
        },
        OpcodeE::NEG => {
            reveal_strlit("NEG");
            lemma_ascii_bytes("NEG");
        },
        OpcodeE::COMPI => {
            reveal_strlit("COMPI");
            lemma_ascii_bytes("COMPI");
        },
        OpcodeE::MOVSP => {
            reveal_strlit("MOVSP");
            lemma_ascii_bytes("MOVSP");
        },
        OpcodeE::STORE_STATEALL => {
            reveal_strlit("STORE_STATEALL");
            lemma_ascii_bytes("STORE_STATEALL");
        },
        OpcodeE::JMP => {
            reveal_strlit("JMP");
            lemma_ascii_bytes("JMP");
        },
        OpcodeE::JSR => {
            reveal_strlit("JSR");
            lemma_ascii_bytes("JSR");
        },
        OpcodeE::JZ => {
            reveal_strlit("JZ");
            lemma_ascii_bytes("JZ");
        },
        OpcodeE::RETN => {
            reveal_strlit("RETN");
            lemma_ascii_bytes("RETN");
        },
        OpcodeE::DESTRUCT => {
            reveal_strlit("DESTRUCT");
            lemma_ascii_bytes("DESTRUCT");
        },
        OpcodeE::NOTI => {
            reveal_strlit("NOTI");
            lemma_ascii_bytes("NOTI");
        },
        OpcodeE::DECISP => {
            reveal_strlit("DECISP");
            lemma_ascii_bytes("DECISP");
        },
        OpcodeE::INCISP => {
            reveal_strlit("INCISP");
            lemma_ascii_bytes("INCISP");
        },
        OpcodeE::JNZ => {
            reveal_strlit("JNZ");
            lemma_ascii_bytes("JNZ");
        },
        OpcodeE::CPDOWNBP => {
            reveal_strlit("CPDOWNBP");
            lemma_ascii_bytes("CPDOWNBP");
        },
        OpcodeE::CPTOPBP => {
            reveal_strlit("CPTOPBP");
            lemma_ascii_bytes("CPTOPBP");
        },
        OpcodeE::DECIBP => {
            reveal_strlit("DECIBP");
            lemma_ascii_bytes("DECIBP");
        },
        OpcodeE::INCIBP => {
            reveal_strlit("INCIBP");
            lemma_ascii_bytes("INCIBP");
        },
        OpcodeE::SAVEBP => {
            reveal_strlit("SAVEBP");
            lemma_ascii_bytes("SAVEBP");
        },
        OpcodeE::RESTOREBP => {
            reveal_strlit("RESTOREBP");
            lemma_ascii_bytes("RESTOREBP");
        },
        OpcodeE::STORE_STATE => {
            reveal_strlit("STORE_STATE");
            lemma_ascii_bytes("STORE_STATE");
        },
        OpcodeE::NOP => {
            reveal_strlit("NOP");
            lemma_ascii_bytes("NOP");
        },
        OpcodeE::CP_x37_DA2_QQ => {
            reveal_strlit("CP_x37_DA2_QQ");
            lemma_ascii_bytes("CP_x37_DA2_QQ");
        },
        OpcodeE::T => {
            reveal_strlit("T");
            lemma_ascii_bytes("T");
        },
    }
}

/// The suffix of a stack type, where it has one, is a word of one or two bytes.
pub proof fn lemma_suffix_word(e: NWTypeE)
    ensures
        e.abbr_of() is Some ==> 1 <= e.abbr_of()->0.spec_bytes().len() <= 2 && is_word(
            e.abbr_of()->0.spec_bytes(),
        ),
{
    match e {
        NWTypeE::I => {
            reveal_strlit("I");
            lemma_ascii_bytes("I");
        },
        NWTypeE::F => {
            reveal_strlit("F");
            lemma_ascii_bytes("F");
        },
        NWTypeE::S => {
            reveal_strlit("S");
            lemma_ascii_bytes("S");
        },
        NWTypeE::O => {
            reveal_strlit("O");
            lemma_ascii_bytes("O");
        },
        NWTypeE::II => {
            reveal_strlit("II");
            lemma_ascii_bytes("II");
        },
        NWTypeE::FF => {
            reveal_strlit("FF");
            lemma_ascii_bytes("FF");
        },
        NWTypeE::OO => {
            reveal_strlit("OO");
            lemma_ascii_bytes("OO");
        },
        NWTypeE::SS => {
            reveal_strlit("SS");
            lemma_ascii_bytes("SS");
        },
        NWTypeE::TT => {
            reveal_strlit("TT");
            lemma_ascii_bytes("TT");
        },
        NWTypeE::IF => {
            reveal_strlit("IF");
            lemma_ascii_bytes("IF");
        },
        NWTypeE::FI => {
            reveal_strlit("FI");
            lemma_ascii_bytes("FI");
        },
        NWTypeE::VV => {
            reveal_strlit("VV");
            lemma_ascii_bytes("VV");
        },
        NWTypeE::VF => {
            reveal_strlit("VF");
            lemma_ascii_bytes("VF");
        },
        NWTypeE::FV => {
            reveal_strlit("FV");
            lemma_ascii_bytes("FV");
        },
        _ => {},
    }
}

/// Whether the operand is as wide as the stream can hold one: one, two or
/// four bytes, or as wide as a size says if it is a string.
pub open spec fn sound_width(o: Operand) -> bool {
    match o.width() {
        Some(w) => w == 1 || w == 2 || w == 4,
        None => o is String,
    }
}

/// Every operand of every built-in instruction, under every type byte, is
/// one, two or four bytes wide, unless it is a string.
pub proof fn law_operand_widths(table: Seq<Option<Opcode>>, code: u8, t: u8, i: int)
    requires
        is_builtin_table(table),
        table[code as int] is Some,
        0 <= i < table[code as int]->0.operands(t).len(),
    ensures
        sound_width(table[code as int]->0.operands(t)[i]),
{
    let op = table[code as int]->0;
    let c = OpcodeE::with_code(code)->0;
    assert(op.operands(t) == builtin_operands(c, t));
}

/// In every operand list of the built-in table, a string stands directly
/// behind a size.
pub proof fn law_string_follows_size(table: Seq<Option<Opcode>>, code: u8, t: u8, i: int)
    requires
        is_builtin_table(table),
        table[code as int] is Some,
        0 <= i < table[code as int]->0.operands(t).len(),
        table[code as int]->0.operands(t)[i] is String,
    ensures
        i > 0,
        table[code as int]->0.operands(t)[i - 1] is Size,
{
    let op = table[code as int]->0;
    let c = OpcodeE::with_code(code)->0;
    assert(op.operands(t) == builtin_operands(c, t));
}

/// The instruction `T` has the code 0x42, no type byte, and one operand: a
/// size of four bytes.
pub proof fn law_total_instruction(table: Seq<Option<Opcode>>)
    requires
        is_builtin_table(table),
    ensures
        OpcodeE::T.code_of() == 0x42,
        table[0x42] is Some,
        table[0x42]->0.code == OpcodeE::T,
        !table[0x42]->0.typed(),
        table[0x42]->0.operands(0) == seq![Operand::Size(4)],
        forall|code: u8|
            (#[trigger] table[code as int]) is Some && !table[code as int]->0.typed() ==> code
                == 0x42,
{
    let op = table[0x42]->0;
    assert(OpcodeE::with_code(0x42u8) == Some(OpcodeE::T));
    assert(op.operands(0) == builtin_operands(OpcodeE::T, 0));
    assert forall|code: u8|
        (#[trigger] table[code as int]) is Some && !table[code as int]->0.typed() implies code
        == 0x42 by {
        let c = OpcodeE::with_code(code)->0;
        assert(is_builtin(table[code as int]->0, c));
    }
}

/// Each instruction stands in the built-in table under its own code.
pub proof fn law_table_by_code(table: Seq<Option<Opcode>>, code: u8)
    requires
        is_builtin_table(table),
        table[code as int] is Some,
    ensures
        table[code as int]->0.code.code_of() == code,
{
    let c = OpcodeE::with_code(code)->0;
    assert(is_builtin(table[code as int]->0, c));
}

/// What tells one mnemonic from every other: its length, its first three
/// bytes and its last byte but one, as far as it has them.
pub struct Mark {
    pub len: nat,
    pub first: u8,
    pub second: u8,
    pub third: u8,
    pub late: u8,
}

/// The mark of a text.
pub open spec fn mark_of(s: Seq<u8>) -> Mark {
    Mark {
        len: s.len(),
        first: if s.len() > 0 {
            s[0]
        } else {
            0
        },
        second: if s.len() > 1 {
            s[1]
        } else {
            0
        },
        third: if s.len() > 2 {
            s[2]
        } else {
            0
        },
        late: if s.len() > 3 {
            s[s.len() - 2]
        } else {
            0
        },
    }
}

/// The mark of the mnemonic of an instruction.
pub open spec fn mark(c: OpcodeE) -> Mark {
    match c {
        OpcodeE::CPDOWNSP => Mark { len: 8, first: 0x43, second: 0x50, third: 0x44, late: 0x53 },
        OpcodeE::RSADD => Mark { len: 5, first: 0x52, second: 0x53, third: 0x41, late: 0x44 },
        OpcodeE::CPTOPSP => Mark { len: 7, first: 0x43, second: 0x50, third: 0x54, late: 0x53 },
        OpcodeE::CONST => Mark { len: 5, first: 0x43, second: 0x4F, third: 0x4E, late: 0x53 },
        OpcodeE::ACTION => Mark { len: 6, first: 0x41, second: 0x43, third: 0x54, late: 0x4F },
        OpcodeE::LOGANDII => Mark { len: 8, first: 0x4C, second: 0x4F, third: 0x47, late: 0x49 },
        OpcodeE::LOGORII => Mark { len: 7, first: 0x4C, second: 0x4F, third: 0x47, late: 0x49 },
        OpcodeE::INCORII => Mark { len: 7, first: 0x49, second: 0x4E, third: 0x43, late: 0x49 },
        OpcodeE::EXCORII => Mark { len: 7, first: 0x45, second: 0x58, third: 0x43, late: 0x49 },
        OpcodeE::BOOLANDII => Mark { len: 9, first: 0x42, second: 0x4F, third: 0x4F, late: 0x49 },
        OpcodeE::EQUAL => Mark { len: 5, first: 0x45, second: 0x51, third: 0x55, late: 0x41 },
        OpcodeE::NEQUAL => Mark { len: 6, first: 0x4E, second: 0x45, third: 0x51, late: 0x41 },
        OpcodeE::GEQ => Mark { len: 3, first: 0x47, second: 0x45, third: 0x51, late: 0x00 },
        OpcodeE::GT => Mark { len: 2, first: 0x47, second: 0x54, third: 0x00, late: 0x00 },
        OpcodeE::LT => Mark { len: 2, first: 0x4C, second: 0x54, third: 0x00, late: 0x00 },
        OpcodeE::LEQ => Mark { len: 3, first: 0x4C, second: 0x45, third: 0x51, late: 0x00 },
        OpcodeE::SHLEFTII => Mark { len: 8, first: 0x53, second: 0x48, third: 0x4C, late: 0x49 },
        OpcodeE::SHRIGHTII => Mark { len: 9, first: 0x53, second: 0x48, third: 0x52, late: 0x49 },
        OpcodeE::USHRIGHTII => Mark { len: 10, first: 0x55, second: 0x53, third: 0x48, late: 0x49 },
        OpcodeE::ADD => Mark { len: 3, first: 0x41, second: 0x44, third: 0x44, late: 0x00 },
        OpcodeE::SUB => Mark { len: 3, first: 0x53, second: 0x55, third: 0x42, late: 0x00 },
        OpcodeE::MUL => Mark { len: 3, first: 0x4D, second: 0x55, third: 0x4C, late: 0x00 },
        OpcodeE::DIV => Mark { len: 3, first: 0x44, second: 0x49, third: 0x56, late: 0x00 },
        OpcodeE::MODII => Mark { len: 5, first: 0x4D, second: 0x4F, third: 0x44, late: 0x49 },
        OpcodeE::NEG => Mark { len: 3, first: 0x4E, second: 0x45, third: 0x47, late: 0x00 },
        OpcodeE::COMPI => Mark { len: 5, first: 0x43, second: 0x4F, third: 0x4D, late: 0x50 },
        OpcodeE::MOVSP => Mark { len: 5, first: 0x4D, second: 0x4F, third: 0x56, late: 0x53 },
        OpcodeE::STORE_STATEALL => Mark { len: 14, first: 0x53, second: 0x54, third: 0x4F, late: 0x4C },
        OpcodeE::JMP => Mark { len: 3, first: 0x4A, second: 0x4D, third: 0x50, late: 0x00 },
        OpcodeE::JSR => Mark { len: 3, first: 0x4A, second: 0x53, third: 0x52, late: 0x00 },
        OpcodeE::JZ => Mark { len: 2, first: 0x4A, second: 0x5A, third: 0x00, late: 0x00 },
        OpcodeE::RETN => Mark { len: 4, first: 0x52, second: 0x45, third: 0x54, late: 0x54 },
        OpcodeE::DESTRUCT => Mark { len: 8, first: 0x44, second: 0x45, third: 0x53, late: 0x43 },
        OpcodeE::NOTI => Mark { len: 4, first: 0x4E, second: 0x4F, third: 0x54, late: 0x54 },
        OpcodeE::DECISP => Mark { len: 6, first: 0x44, second: 0x45, third: 0x43, late: 0x53 },
        OpcodeE::INCISP => Mark { len: 6, first: 0x49, second: 0x4E, third: 0x43, late: 0x53 },
        OpcodeE::JNZ => Mark { len: 3, first: 0x4A, second: 0x4E, third: 0x5A, late: 0x00 },
        OpcodeE::CPDOWNBP => Mark { len: 8, first: 0x43, second: 0x50, third: 0x44, late: 0x42 },
        OpcodeE::CPTOPBP => Mark { len: 7, first: 0x43, second: 0x50, third: 0x54, late: 0x42 },
        OpcodeE::DECIBP => Mark { len: 6, first: 0x44, second: 0x45, third: 0x43, late: 0x42 },
        OpcodeE::INCIBP => Mark { len: 6, first: 0x49, second: 0x4E, third: 0x43, late: 0x42 },
        OpcodeE::SAVEBP => Mark { len: 6, first: 0x53, second: 0x41, third: 0x56, late: 0x42 },
        OpcodeE::RESTOREBP => Mark { len: 9, first: 0x52, second: 0x45, third: 0x53, late: 0x42 },
        OpcodeE::STORE_STATE => Mark { len: 11, first: 0x53, second: 0x54, third: 0x4F, late: 0x54 },
        OpcodeE::NOP => Mark { len: 3, first: 0x4E, second: 0x4F, third: 0x50, late: 0x00 },
        OpcodeE::CP_x37_DA2_QQ => Mark { len: 13, first: 0x43, second: 0x50, third: 0x5F, late: 0x51 },
        OpcodeE::T => Mark { len: 1, first: 0x54, second: 0x00, third: 0x00, late: 0x00 },
    }
}

/// The mnemonic of an instruction has the mark of the instruction.
pub proof fn lemma_mark(c: OpcodeE)
    ensures
        mark_of(c.mnemonic()) == mark(c),
{
    match c {
        OpcodeE::CPDOWNSP => {
            reveal_strlit("CPDOWNSP");
            lemma_ascii_bytes("CPDOWNSP");
        },
        OpcodeE::RSADD => {
            reveal_strlit("RSADD");
            lemma_ascii_bytes("RSADD");
        },
        OpcodeE::CPTOPSP => {
            reveal_strlit("CPTOPSP");
            lemma_ascii_bytes("CPTOPSP");
        },
        OpcodeE::CONST => {
            reveal_strlit("CONST");
            lemma_ascii_bytes("CONST");
        },
        OpcodeE::ACTION => {
            reveal_strlit("ACTION");
            lemma_ascii_bytes("ACTION");
        },
        OpcodeE::LOGANDII => {
            reveal_strlit("LOGANDII");
            lemma_ascii_bytes("LOGANDII");
        },
        OpcodeE::LOGORII => {
            reveal_strlit("LOGORII");
            lemma_ascii_bytes("LOGORII");
        },
        OpcodeE::INCORII => {
            reveal_strlit("INCORII");
            lemma_ascii_bytes("INCORII");
        },
        OpcodeE::EXCORII => {
            reveal_strlit("EXCORII");
            lemma_ascii_bytes("EXCORII");
        },
        OpcodeE::BOOLANDII => {
            reveal_strlit("BOOLANDII");
            lemma_ascii_bytes("BOOLANDII");
        },
        OpcodeE::EQUAL => {
            reveal_strlit("EQUAL");
            lemma_ascii_bytes("EQUAL");
        },
        OpcodeE::NEQUAL => {
            reveal_strlit("NEQUAL");
            lemma_ascii_bytes("NEQUAL");
        },
        OpcodeE::GEQ => {
            reveal_strlit("GEQ");
            lemma_ascii_bytes("GEQ");
        },
        OpcodeE::GT => {
            reveal_strlit("GT");
            lemma_ascii_bytes("GT");
        },
        OpcodeE::LT => {
            reveal_strlit("LT");
            lemma_ascii_bytes("LT");
        },
        OpcodeE::LEQ => {
            reveal_strlit("LEQ");
            lemma_ascii_bytes("LEQ");
        },
        OpcodeE::SHLEFTII => {
            reveal_strlit("SHLEFTII");
            lemma_ascii_bytes("SHLEFTII");
        },
        OpcodeE::SHRIGHTII => {
            reveal_strlit("SHRIGHTII");
            lemma_ascii_bytes("SHRIGHTII");
        },
        OpcodeE::USHRIGHTII => {
            reveal_strlit("USHRIGHTII");
            lemma_ascii_bytes("USHRIGHTII");
        },
        OpcodeE::ADD => {
            reveal_strlit("ADD");
            lemma_ascii_bytes("ADD");
        },
        OpcodeE::SUB => {
            reveal_strlit("SUB");
            lemma_ascii_bytes("SUB");
        },
        OpcodeE::MUL => {
            reveal_strlit("MUL");
            lemma_ascii_bytes("MUL");
        },
        OpcodeE::DIV => {
            reveal_strlit("DIV");
            lemma_ascii_bytes("DIV");
        },
        OpcodeE::MODII => {
            reveal_strlit("MODII");
            lemma_ascii_bytes("MODII");
        },
        OpcodeE::NEG => {
            reveal_strlit("NEG");
            lemma_ascii_bytes("NEG");
        },
        OpcodeE::COMPI => {
            reveal_strlit("COMPI");
            lemma_ascii_bytes("COMPI");
        },
        OpcodeE::MOVSP => {
            reveal_strlit("MOVSP");
            lemma_ascii_bytes("MOVSP");
        },
        OpcodeE::STORE_STATEALL => {
            reveal_strlit("STORE_STATEALL");
            lemma_ascii_bytes("STORE_STATEALL");
        },
        OpcodeE::JMP => {
            reveal_strlit("JMP");
            lemma_ascii_bytes("JMP");
        },
        OpcodeE::JSR => {
            reveal_strlit("JSR");
            lemma_ascii_bytes("JSR");
        },
        OpcodeE::JZ => {
            reveal_strlit("JZ");
            lemma_ascii_bytes("JZ");
        },
        OpcodeE::RETN => {
            reveal_strlit("RETN");
            lemma_ascii_bytes("RETN");
        },
        OpcodeE::DESTRUCT => {
            reveal_strlit("DESTRUCT");
            lemma_ascii_bytes("DESTRUCT");
        },
        OpcodeE::NOTI => {
            reveal_strlit("NOTI");
            lemma_ascii_bytes("NOTI");
        },
        OpcodeE::DECISP => {
            reveal_strlit("DECISP");
            lemma_ascii_bytes("DECISP");
        },
        OpcodeE::INCISP => {
            reveal_strlit("INCISP");
            lemma_ascii_bytes("INCISP");
        },
        OpcodeE::JNZ => {
            reveal_strlit("JNZ");
            lemma_ascii_bytes("JNZ");
        },
        OpcodeE::CPDOWNBP => {
            reveal_strlit("CPDOWNBP");
            lemma_ascii_bytes("CPDOWNBP");
        },
        OpcodeE::CPTOPBP => {
            reveal_strlit("CPTOPBP");
            lemma_ascii_bytes("CPTOPBP");
        },
        OpcodeE::DECIBP => {
            reveal_strlit("DECIBP");
            lemma_ascii_bytes("DECIBP");
        },
        OpcodeE::INCIBP => {
            reveal_strlit("INCIBP");
            lemma_ascii_bytes("INCIBP");
        },
        OpcodeE::SAVEBP => {
            reveal_strlit("SAVEBP");
            lemma_ascii_bytes("SAVEBP");
        },
        OpcodeE::RESTOREBP => {
            reveal_strlit("RESTOREBP");
            lemma_ascii_bytes("RESTOREBP");
        },
        OpcodeE::STORE_STATE => {
            reveal_strlit("STORE_STATE");
            lemma_ascii_bytes("STORE_STATE");
        },
        OpcodeE::NOP => {
            reveal_strlit("NOP");
            lemma_ascii_bytes("NOP");
        },
        OpcodeE::CP_x37_DA2_QQ => {
            reveal_strlit("CP_x37_DA2_QQ");
            lemma_ascii_bytes("CP_x37_DA2_QQ");
        },
        OpcodeE::T => {
            reveal_strlit("T");
            lemma_ascii_bytes("T");
        },
    }
}

/// No two instructions have the same mnemonic.
pub proof fn law_mnemonics_differ(a: OpcodeE, b: OpcodeE)
    requires
        a.mnemonic() == b.mnemonic(),
    ensures
        a == b,
{
    lemma_mark(a);
    lemma_mark(b);
    assert(mark(a) == mark(b));
}

/// The mark of the suffix of a stack type; that of an empty text where it
/// has none.
pub open spec fn suffix_mark(e: NWTypeE) -> Mark {
    match e {
        NWTypeE::I => Mark { len: 1, first: 0x49, second: 0x00, third: 0, late: 0 },
        NWTypeE::F => Mark { len: 1, first: 0x46, second: 0x00, third: 0, late: 0 },
        NWTypeE::S => Mark { len: 1, first: 0x53, second: 0x00, third: 0, late: 0 },
        NWTypeE::O => Mark { len: 1, first: 0x4F, second: 0x00, third: 0, late: 0 },
        NWTypeE::II => Mark { len: 2, first: 0x49, second: 0x49, third: 0, late: 0 },
        NWTypeE::FF => Mark { len: 2, first: 0x46, second: 0x46, third: 0, late: 0 },
        NWTypeE::OO => Mark { len: 2, first: 0x4F, second: 0x4F, third: 0, late: 0 },
        NWTypeE::SS => Mark { len: 2, first: 0x53, second: 0x53, third: 0, late: 0 },
        NWTypeE::TT => Mark { len: 2, first: 0x54, second: 0x54, third: 0, late: 0 },
        NWTypeE::IF => Mark { len: 2, first: 0x49, second: 0x46, third: 0, late: 0 },
        NWTypeE::FI => Mark { len: 2, first: 0x46, second: 0x49, third: 0, late: 0 },
        NWTypeE::VV => Mark { len: 2, first: 0x56, second: 0x56, third: 0, late: 0 },
        NWTypeE::VF => Mark { len: 2, first: 0x56, second: 0x46, third: 0, late: 0 },
        NWTypeE::FV => Mark { len: 2, first: 0x46, second: 0x56, third: 0, late: 0 },
        _ => Mark { len: 0, first: 0, second: 0, third: 0, late: 0 },
    }
}

/// The suffix of a stack type has the mark of the type.
pub proof fn lemma_suffix_mark(e: NWTypeE)
    ensures
        e.abbr_of() is Some ==> mark_of(e.abbr_of()->0.spec_bytes()) == suffix_mark(e),
        e.abbr_of() is Some <==> suffix_mark(e).len > 0,
{
    match e {
        NWTypeE::I => {
            reveal_strlit("I");
            lemma_ascii_bytes("I");
        },
        NWTypeE::F => {
            reveal_strlit("F");
            lemma_ascii_bytes("F");
        },
        NWTypeE::S => {
            reveal_strlit("S");
            lemma_ascii_bytes("S");
        },
        NWTypeE::O => {
            reveal_strlit("O");
            lemma_ascii_bytes("O");
        },
        NWTypeE::II => {
            reveal_strlit("II");
            lemma_ascii_bytes("II");
        },
        NWTypeE::FF => {
            reveal_strlit("FF");
            lemma_ascii_bytes("FF");
        },
        NWTypeE::OO => {
            reveal_strlit("OO");
            lemma_ascii_bytes("OO");
        },
        NWTypeE::SS => {
            reveal_strlit("SS");
            lemma_ascii_bytes("SS");
        },
        NWTypeE::TT => {
            reveal_strlit("TT");
            lemma_ascii_bytes("TT");
        },
        NWTypeE::IF => {
            reveal_strlit("IF");
            lemma_ascii_bytes("IF");
        },
        NWTypeE::FI => {
            reveal_strlit("FI");
            lemma_ascii_bytes("FI");
        },
        NWTypeE::VV => {
            reveal_strlit("VV");
            lemma_ascii_bytes("VV");
        },
        NWTypeE::VF => {
            reveal_strlit("VF");
            lemma_ascii_bytes("VF");
        },
        NWTypeE::FV => {
            reveal_strlit("FV");
            lemma_ascii_bytes("FV");
        },
        _ => {},
    }
}

/// No two stack types have the same suffix.
pub proof fn law_suffixes_differ(a: NWTypeE, b: NWTypeE)
    requires
        a.abbr_of() is Some,
        b.abbr_of() is Some,
        a.abbr_of()->0.spec_bytes() == b.abbr_of()->0.spec_bytes(),
    ensures
        a == b,
{
    lemma_suffix_mark(a);
    lemma_suffix_mark(b);
    assert(suffix_mark(a) == suffix_mark(b));
}

/// Each stack type stands in the built-in table under its own type byte, and
/// the table holds nothing else.
pub proof fn law_types_by_code(t: u8)
    ensures
        crate::disassemble::type_entry(builtin_nwtypes(), t) == match NWTypeE::with_code(t) {
            Some(e) => Some(builtin_type(e)),
            None => None,
        },
        NWTypeE::with_code(t) is Some ==> NWTypeE::with_code(t)->0.code_of() == t,
{
}

} // verus!
