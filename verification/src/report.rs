//! Faults in words.

use crate::assemble::{AssemblyError, ParseFault, TableFault};
use crate::disassemble::{DataFault, DisassemblyError, StreamFault};
use crate::nwscript::{DefinitionError, Expected};
use crate::text::{dec_digits, hex_text_fixed, push_bytes, push_hex_padded};
use vstd::prelude::*;
use vstd::string::StringSliceAdditionalSpecFns;

verus! {

/// Appends the bytes of `s`.
pub fn push_str(out: &mut Vec<u8>, s: &str)
    ensures
        final(out)@ == old(out)@ + s.spec_bytes(),
{
    push_bytes(out, s.as_bytes());
}

/// Appends `n` in decimal.
pub fn push_count(out: &mut Vec<u8>, n: usize)
    ensures
        final(out)@ == old(out)@ + dec_digits(n as nat),
    decreases n,
{
    if n >= 10 {
        push_count(out, n / 10);
    }
    out.push(crate::text::DIGIT_0 + (n % 10) as u8);
    proof {
        assert(final(out)@ =~= old(out)@ + dec_digits(n as nat));
    }
}

/// `s` where one byte is meant, nothing else.
pub open spec fn plural(n: usize) -> Seq<u8> {
    if n == 1 {
        "".spec_bytes()
    } else {
        "s".spec_bytes()
    }
}

/// The fault in words.
pub open spec fn data_text(f: DataFault) -> Seq<u8> {
    match f {
        DataFault::UnsignedSize(n) => "Unsigned integer size (".spec_bytes() + dec_digits(
            n as nat,
        ) + " byte".spec_bytes() + plural(n) + ") not supported".spec_bytes(),
        DataFault::SignedSize(n) => "Signed integer size (".spec_bytes() + dec_digits(n as nat)
            + " byte".spec_bytes() + plural(n) + ") not supported".spec_bytes(),
        DataFault::FloatSize(n) => "Float size (".spec_bytes() + dec_digits(n as nat)
            + " byte".spec_bytes() + plural(n) + ") not supported".spec_bytes(),
        DataFault::FloatText(bits) => "No text for the float ".spec_bytes() + hex_text_fixed(
            bits as nat,
            8,
        ),
    }
}

/// The fault in words.
pub open spec fn stream_text(f: StreamFault) -> Seq<u8> {
    match f {
        StreamFault::MissingHeader => "missing header".spec_bytes(),
        StreamFault::MissingT => "missing T".spec_bytes(),
        StreamFault::UnexpectedEof { got, expected } => "Unexpected EOF: got ".spec_bytes()
            + dec_digits(got as nat) + " bytes but expected ".spec_bytes() + dec_digits(
            expected as nat,
        ),
        StreamFault::UnknownOpcode(code) => "Unknown opcode ".spec_bytes() + hex_text_fixed(
            code as nat,
            2,
        ),
        StreamFault::IllegalType { type_byte, opcode } => "Type ".spec_bytes() + hex_text_fixed(
            type_byte as nat,
            2,
        ) + " not in list of legal types for opcode ".spec_bytes() + opcode.mnemonic(),
        StreamFault::StringWithoutSize => "String argument without preceding length argument!".spec_bytes(),
        StreamFault::UnexpectedOpcode(opcode) => "Unexpected opcode ".spec_bytes()
            + hex_text_fixed(opcode.code_of() as nat, 2) + ", expected T (0x42)".spec_bytes(),
        StreamFault::SizeMismatch { expected, read } => "size mismatch: T ".spec_bytes()
            + dec_digits(expected as nat) + " does not match file size (read ".spec_bytes()
            + dec_digits(read as nat) + " bytes)".spec_bytes(),
        StreamFault::UndocumentedType { type_byte, opcode } => "Undocumented type ".spec_bytes()
            + dec_digits(type_byte as nat) + " for opcode ".spec_bytes() + opcode.mnemonic(),
    }
}

/// The fault in words, with the byte offset behind it where it has one.
pub open spec fn disassembly_text(e: DisassemblyError) -> Seq<u8> {
    match e {
        DisassemblyError::DataError(f) => data_text(f),
        DisassemblyError::OpStreamError(f, at) => stream_text(f) + " (byte ".spec_bytes()
            + dec_digits(at as nat) + ")".spec_bytes(),
    }
}

/// The fault in words.
pub open spec fn parse_text(f: ParseFault) -> Seq<u8> {
    match f {
        ParseFault::UnclosedDelimiter => "Line with unclosed delimiter".spec_bytes(),
        ParseFault::UnknownMnemonic => "Expected valid opcode string".spec_bytes(),
        ParseFault::MissingTypeSpecifier(opcode) => "Opcode with no type specifier: ".spec_bytes()
            + opcode.mnemonic(),
        ParseFault::BadTypeSpecifier(opcode) => "Opcode ".spec_bytes() + opcode.mnemonic()
            + " with illegal or unknown type specifier".spec_bytes(),
        ParseFault::ArgumentCount { opcode, expected, got } => "Opcode ".spec_bytes()
            + opcode.mnemonic() + " expects ".spec_bytes() + dec_digits(expected as nat)
            + " args, got ".spec_bytes() + dec_digits(got as nat),
        ParseFault::Number => "Number that cannot be read, or out of range".spec_bytes(),
        ParseFault::UnsupportedSize(n) => "Unsupported size ".spec_bytes() + dec_digits(n as nat)
            + " bytes".spec_bytes(),
        ParseFault::UnknownRoutine => "Unknown routine".spec_bytes(),
        ParseFault::BadString => "String that is not quoted, or too long".spec_bytes(),
        ParseFault::FirstNotT => "The first instruction must be T".spec_bytes(),
        ParseFault::TooLarge => "Program too large for T to declare".spec_bytes(),
    }
}

/// The fault in words.
pub open spec fn table_text(f: TableFault) -> Seq<u8> {
    match f {
        TableFault::MultipleTypes(opcode) => "Opcode definition error: ".spec_bytes()
            + opcode.mnemonic() + " has more than one type".spec_bytes(),
        TableFault::VariantTypeNotFound { type_byte, opcode } => "Variant type ".spec_bytes()
            + dec_digits(type_byte as nat) + " not found for opcode ".spec_bytes()
            + opcode.mnemonic(),
        TableFault::TotalWithoutSize => "Opcode definition error: T has no size".spec_bytes(),
    }
}

/// The fault in words, with the number of the line behind it where it has one.
pub open spec fn assembly_text(e: AssemblyError) -> Seq<u8> {
    match e {
        AssemblyError::ParseError(f, line) => parse_text(f) + " (line ".spec_bytes() + dec_digits(
            line as nat,
        ) + ")".spec_bytes(),
        AssemblyError::TableError(f) => table_text(f),
    }
}

/// What the parser of definitions looked for, in words.
pub open spec fn expected_text(x: Expected) -> Seq<u8> {
    match x {
        Expected::Word => "a name".spec_bytes(),
        Expected::Open => "`(` or `=`".spec_bytes(),
        Expected::Close => "`,` or `)`".spec_bytes(),
        Expected::Equals => "`=`".spec_bytes(),
        Expected::Number => "a routine code".spec_bytes(),
        Expected::Value => "a value".spec_bytes(),
        Expected::Semicolon => "`;`".spec_bytes(),
        Expected::Routine => "a routine".spec_bytes(),
        Expected::Comment => "`//`".spec_bytes(),
        Expected::End => "the end of the text".spec_bytes(),
    }
}

/// The fault in words.
pub open spec fn definition_text(e: DefinitionError) -> Seq<u8> {
    "error at byte ".spec_bytes() + dec_digits(e.offset as nat) + ": expected ".spec_bytes()
        + expected_text(e.expected)
}

/// Appends `s` where more or fewer than one byte are meant.
fn push_plural(out: &mut Vec<u8>, n: usize)
    ensures
        final(out)@ == old(out)@ + plural(n),
{
    if n == 1 {
        push_str(out, "");
    } else {
        push_str(out, "s");
    }
}

/// Appends the words for a size that is not supported.
fn push_size_fault(out: &mut Vec<u8>, kind: &str, n: usize)
    ensures
        final(out)@ == old(out)@ + kind.spec_bytes() + dec_digits(n as nat)
            + " byte".spec_bytes() + plural(n) + ") not supported".spec_bytes(),
{
    push_str(out, kind);
    push_count(out, n);
    push_str(out, " byte");
    push_plural(out, n);
    push_str(out, ") not supported");
}

impl DataFault {
    /// The fault in words.
    pub fn message(&self) -> (r: Vec<u8>)
        ensures
            r@ == data_text(*self),
    {
        let mut out: Vec<u8> = Vec::new();
        match *self {
            DataFault::UnsignedSize(n) => push_size_fault(&mut out, "Unsigned integer size (", n),
            DataFault::SignedSize(n) => push_size_fault(&mut out, "Signed integer size (", n),
            DataFault::FloatSize(n) => push_size_fault(&mut out, "Float size (", n),
            DataFault::FloatText(bits) => {
                push_str(&mut out, "No text for the float ");
                push_hex_padded(&mut out, bits, 8);
            },
        }
        proof {
            assert(out@ =~= data_text(*self));
        }
        out
    }
}

impl StreamFault {
    /// The fault in words.
    pub fn message(&self) -> (r: Vec<u8>)
        ensures
            r@ == stream_text(*self),
    {
        let mut out: Vec<u8> = Vec::new();
        match *self {
            StreamFault::MissingHeader => push_str(&mut out, "missing header"),
            StreamFault::MissingT => push_str(&mut out, "missing T"),
            StreamFault::UnexpectedEof { got, expected } => {
                push_str(&mut out, "Unexpected EOF: got ");
                push_count(&mut out, got);
                push_str(&mut out, " bytes but expected ");
                push_count(&mut out, expected);
            },
            StreamFault::UnknownOpcode(code) => {
                push_str(&mut out, "Unknown opcode ");
                push_hex_padded(&mut out, code as u32, 2);
            },
            StreamFault::IllegalType { type_byte, opcode } => {
                push_str(&mut out, "Type ");
                push_hex_padded(&mut out, type_byte as u32, 2);
                push_str(&mut out, " not in list of legal types for opcode ");
                push_str(&mut out, opcode.name());
            },
            StreamFault::StringWithoutSize => push_str(
                &mut out,
                "String argument without preceding length argument!",
            ),
            StreamFault::UnexpectedOpcode(opcode) => {
                push_str(&mut out, "Unexpected opcode ");
                push_hex_padded(&mut out, opcode.code() as u32, 2);
                push_str(&mut out, ", expected T (0x42)");
            },
            StreamFault::SizeMismatch { expected, read } => {
                push_str(&mut out, "size mismatch: T ");
                push_count(&mut out, expected);
                push_str(&mut out, " does not match file size (read ");
                push_count(&mut out, read);
                push_str(&mut out, " bytes)");
            },
            StreamFault::UndocumentedType { type_byte, opcode } => {
                push_str(&mut out, "Undocumented type ");
                push_count(&mut out, type_byte as usize);
                push_str(&mut out, " for opcode ");
                push_str(&mut out, opcode.name());
            },
        }
        proof {
            assert(out@ =~= stream_text(*self));
        }
        out
    }
}

impl DisassemblyError {
    /// The fault in words, with the byte offset behind it where it has one.
    pub fn message(&self) -> (r: Vec<u8>)
        ensures
            r@ == disassembly_text(*self),
    {
        match *self {
            DisassemblyError::DataError(f) => f.message(),
            DisassemblyError::OpStreamError(f, at) => {
                let mut out = f.message();
                push_str(&mut out, " (byte ");
                push_count(&mut out, at);
                push_str(&mut out, ")");
                out
            },
        }
    }
}

impl ParseFault {
    /// The fault in words.
    pub fn message(&self) -> (r: Vec<u8>)
        ensures
            r@ == parse_text(*self),
    {
        let mut out: Vec<u8> = Vec::new();
        match *self {
            ParseFault::UnclosedDelimiter => push_str(&mut out, "Line with unclosed delimiter"),
            ParseFault::UnknownMnemonic => push_str(&mut out, "Expected valid opcode string"),
            ParseFault::MissingTypeSpecifier(opcode) => {
                push_str(&mut out, "Opcode with no type specifier: ");
                push_str(&mut out, opcode.name());
            },
            ParseFault::BadTypeSpecifier(opcode) => {
                push_str(&mut out, "Opcode ");
                push_str(&mut out, opcode.name());
                push_str(&mut out, " with illegal or unknown type specifier");
            },
            ParseFault::ArgumentCount { opcode, expected, got } => {
                push_str(&mut out, "Opcode ");
                push_str(&mut out, opcode.name());
                push_str(&mut out, " expects ");
                push_count(&mut out, expected);
                push_str(&mut out, " args, got ");
                push_count(&mut out, got);
            },
            ParseFault::Number => push_str(
                &mut out,
                "Number that cannot be read, or out of range",
            ),
            ParseFault::UnsupportedSize(n) => {
                push_str(&mut out, "Unsupported size ");
                push_count(&mut out, n);
                push_str(&mut out, " bytes");
            },
            ParseFault::UnknownRoutine => push_str(&mut out, "Unknown routine"),
            ParseFault::BadString => push_str(&mut out, "String that is not quoted, or too long"),
            ParseFault::FirstNotT => push_str(&mut out, "The first instruction must be T"),
            ParseFault::TooLarge => push_str(&mut out, "Program too large for T to declare"),
        }
        proof {
            assert(out@ =~= parse_text(*self));
        }
        out
    }
}

impl TableFault {
    /// The fault in words.
    pub fn message(&self) -> (r: Vec<u8>)
        ensures
            r@ == table_text(*self),
    {
        let mut out: Vec<u8> = Vec::new();
        match *self {
            TableFault::MultipleTypes(opcode) => {
                push_str(&mut out, "Opcode definition error: ");
                push_str(&mut out, opcode.name());
                push_str(&mut out, " has more than one type");
            },
            TableFault::VariantTypeNotFound { type_byte, opcode } => {
                push_str(&mut out, "Variant type ");
                push_count(&mut out, type_byte as usize);
                push_str(&mut out, " not found for opcode ");
                push_str(&mut out, opcode.name());
            },
            TableFault::TotalWithoutSize => push_str(
                &mut out,
                "Opcode definition error: T has no size",
            ),
        }
        proof {
            assert(out@ =~= table_text(*self));
        }
        out
    }
}

impl AssemblyError {
    /// The fault in words, with the number of the line behind it where it has one.
    pub fn message(&self) -> (r: Vec<u8>)
        ensures
            r@ == assembly_text(*self),
    {
        match *self {
            AssemblyError::ParseError(f, line) => {
                let mut out = f.message();
                push_str(&mut out, " (line ");
                push_count(&mut out, line);
                push_str(&mut out, ")");
                out
            },
            AssemblyError::TableError(f) => f.message(),
        }
    }
}

impl DefinitionError {
    /// The fault in words.
    pub fn message(&self) -> (r: Vec<u8>)
        ensures
            r@ == definition_text(*self),
    {
        let mut out: Vec<u8> = Vec::new();
        push_str(&mut out, "error at byte ");
        push_count(&mut out, self.offset);
        push_str(&mut out, ": expected ");
        match self.expected {
            Expected::Word => push_str(&mut out, "a name"),
            Expected::Open => push_str(&mut out, "`(` or `=`"),
            Expected::Close => push_str(&mut out, "`,` or `)`"),
            Expected::Equals => push_str(&mut out, "`=`"),
            Expected::Number => push_str(&mut out, "a routine code"),
            Expected::Value => push_str(&mut out, "a value"),
            Expected::Semicolon => push_str(&mut out, "`;`"),
            Expected::Routine => push_str(&mut out, "a routine"),
            Expected::Comment => push_str(&mut out, "`//`"),
            Expected::End => push_str(&mut out, "the end of the text"),
        }
        proof {
            assert(out@ =~= definition_text(*self));
        }
        out
    }
}

} // verus!
