//! From assembly text to bytecode.

use crate::io_utils::{
    be_bytes, int_to_bytes, lemma_be_bytes_len, lemma_span_values, span, uint_to_bytes,
    unsigned_of,
};
use crate::disassemble::{operand_list_of, type_entry};
use crate::opcodes::{builtin_nwtypes, get_nwtypes, NWType, Opcode, OpcodeE, Operand};
use crate::text::{
    parse_in_range, parse_integer, push_bytes, starts_with, strip_prefix, AT, BACKSLASH, DIGIT_0,
    HASH, LOWER_X, NEWLINE, QUOTE, RETURN, SEMICOLON, SPACE,
};
use crate::{find_float_bits, float_bits_of, same_bytes, FloatText, Routine};
use std::collections::HashMap;
use vstd::prelude::*;
use vstd::slice::slice_subrange;

verus! {

broadcast use vstd::std_specs::hash::group_hash_axioms;

/// What is wrong with a line of assembly text.
#[derive(Debug, PartialEq, Eq, Clone, Copy, Structural)]
pub enum ParseFault {
    /// A `"` is never closed.
    UnclosedDelimiter,
    /// The first token names no instruction.
    UnknownMnemonic,
    /// The instruction needs a type, and the line ends behind its mnemonic.
    MissingTypeSpecifier(OpcodeE),
    /// The type given is no index into the legal types of the instruction.
    BadTypeSpecifier(OpcodeE),
    /// The line has more or fewer operands than the instruction takes.
    ArgumentCount { opcode: OpcodeE, expected: usize, got: usize },
    /// A token is no number, or a number too large for its operand.
    Number,
    /// The operand tables ask for an integer or a float of this many bytes.
    UnsupportedSize(usize),
    /// A routine is given by a name that the routine table does not hold.
    UnknownRoutine,
    /// A string operand is not written between `"`, or is too long.
    BadString,
    /// The first instruction of the program is not `T`.
    FirstNotT,
    /// The program is longer than `T` can declare.
    TooLarge,
}

/// What is wrong with the tables that a program is assembled by.
#[derive(Debug, PartialEq, Eq, Clone, Copy, Structural)]
pub enum TableFault {
    /// The mnemonic alone stands for an instruction of several types.
    MultipleTypes(OpcodeE),
    /// An instruction of several types has a legal type that the stack-type
    /// table does not hold.
    VariantTypeNotFound { type_byte: u8, opcode: OpcodeE },
    /// The `T` instruction does not start with a size.
    TotalWithoutSize,
}

/// Why a program could not be assembled.
#[derive(Debug, PartialEq, Eq, Clone, Copy, Structural)]
pub enum AssemblyError {
    /// A fault of the text, with the number of the line, counted from 1.
    ParseError(ParseFault, usize),
    TableError(TableFault),
}

/// Whether `b` separates tokens: a space, a tab, a line feed, a vertical
/// tab, a form feed or a carriage return.
pub open spec fn is_space(b: u8) -> bool {
    b == SPACE || (0x09 <= b <= 0x0D)
}

/// Where the tokenizer stands in a line.
pub struct Lexer {
    /// The byte before was a `\`, so the next one is taken as it stands.
    pub escape: bool,
    /// A `"` is open.
    pub quoted: bool,
    /// Where the token being read starts.
    pub start: int,
    /// The tokens read so far.
    pub tokens: Seq<Seq<u8>>,
}

/// The tokenizer behind byte `n` of `line`, from `st` before it.
///
/// A byte behind a `\` changes nothing. Of the others, a `\` escapes the
/// next byte, a `"` opens or closes a string, and a separator outside a
/// string ends the token before it, if there is one.
pub open spec fn lex_step(line: Seq<u8>, st: Lexer, n: int) -> Lexer {
    let c = line[n];
    if st.escape {
        Lexer { escape: false, ..st }
    } else if c == BACKSLASH {
        Lexer { escape: true, ..st }
    } else if c == QUOTE {
        Lexer { quoted: !st.quoted, ..st }
    } else if st.quoted || !is_space(c) {
        st
    } else if n > st.start {
        Lexer { start: n + 1, tokens: st.tokens.push(line.subrange(st.start, n)), ..st }
    } else {
        Lexer { start: n + 1, ..st }
    }
}

/// The tokenizer behind the first `n` bytes of `line`.
pub open spec fn lex(line: Seq<u8>, n: int) -> Lexer
    decreases n,
{
    if n <= 0 {
        Lexer { escape: false, quoted: false, start: 0, tokens: Seq::empty() }
    } else {
        lex_step(line, lex(line, n - 1), n - 1)
    }
}

/// Whether the line is a comment: it starts with `;;`.
pub open spec fn is_comment(line: Seq<u8>) -> bool {
    line.len() >= 2 && line[0] == SEMICOLON && line[1] == SEMICOLON
}

/// The tokens of a line: what stands between separators, where a string in
/// `"` is part of one token with all that it holds. A comment has none.
pub open spec fn tokens_of(line: Seq<u8>) -> Result<Seq<Seq<u8>>, ParseFault> {
    let end = lex(line, line.len() as int);
    if is_comment(line) {
        Ok(Seq::empty())
    } else if end.quoted {
        Err(ParseFault::UnclosedDelimiter)
    } else if end.start < line.len() {
        Ok(end.tokens.push(line.subrange(end.start, line.len() as int)))
    } else {
        Ok(end.tokens)
    }
}

/// The tokens as sequences of bytes.
pub open spec fn token_views(tokens: Seq<Vec<u8>>) -> Seq<Seq<u8>> {
    Seq::new(tokens.len(), |i: int| tokens[i]@)
}

/// The tokenizer keeps the start of its token inside the line.
pub proof fn lemma_lex_start(line: Seq<u8>, n: int)
    requires
        0 <= n <= line.len(),
    ensures
        0 <= lex(line, n).start <= n,
    decreases n,
{
    if n > 0 {
        lemma_lex_start(line, n - 1);
    }
}

/// A copy of the bytes of `line` from `from` up to `to`.
fn slice_of(line: &[u8], from: usize, to: usize) -> (r: Vec<u8>)
    requires
        from <= to <= line@.len(),
    ensures
        r@ == line@.subrange(from as int, to as int),
{
    let mut r: Vec<u8> = Vec::new();
    let mut k: usize = from;
    while k < to
        invariant
            from <= k <= to,
            to <= line@.len(),
            r@ == line@.subrange(from as int, k as int),
        decreases to - k,
    {
        r.push(line[k]);
        k += 1;
        proof {
            assert(r@ =~= line@.subrange(from as int, k as int));
        }
    }
    r
}

/// Whether `b` separates tokens.
pub fn is_separator(b: u8) -> (r: bool)
    ensures
        r == is_space(b),
{
    b == SPACE || (0x09 <= b && b <= 0x0D)
}

/// Splits a line into its tokens.
pub fn split_line(line: &[u8]) -> (r: Result<Vec<Vec<u8>>, ParseFault>)
    ensures
        match r {
            Ok(tokens) => tokens_of(line@) == Ok::<Seq<Seq<u8>>, ParseFault>(
                token_views(tokens@),
            ),
            Err(e) => tokens_of(line@) == Err::<Seq<Seq<u8>>, ParseFault>(e),
        },
{
    let mut result: Vec<Vec<u8>> = Vec::new();
    let len = line.len();
    if len >= 2 && line[0] == SEMICOLON && line[1] == SEMICOLON {
        proof {
            assert(token_views(result@) =~= Seq::<Seq<u8>>::empty());
        }
        return Ok(result);
    }
    let mut escape = false;
    let mut quoted = false;
    let mut start: usize = 0;
    let mut n: usize = 0;
    proof {
        assert(token_views(result@) =~= Seq::<Seq<u8>>::empty());
    }
    while n < len
        invariant
            n <= len,
            len == line@.len(),
            start <= n,
            lex(line@, n as int) == (Lexer {
                escape,
                quoted,
                start: start as int,
                tokens: token_views(result@),
            }),
        decreases len - n,
    {
        let c = line[n];
        let ghost before = token_views(result@);
        if escape {
            escape = false;
        } else if c == BACKSLASH {
            escape = true;
        } else if c == QUOTE {
            quoted = !quoted;
        } else if quoted || !is_separator(c) {
        } else if n > start {
            let token = slice_of(line, start, n);
            result.push(token);
            proof {
                assert(token_views(result@) =~= before.push(line@.subrange(start as int, n as int)));
            }
            start = n + 1;
        } else {
            start = n + 1;
        }
        n += 1;
    }
    if quoted {
        return Err(ParseFault::UnclosedDelimiter);
    }
    if start < len {
        let ghost before = token_views(result@);
        let token = slice_of(line, start, len);
        result.push(token);
        proof {
            assert(token_views(result@) =~= before.push(line@.subrange(start as int, len as int)));
        }
    }
    Ok(result)
}

/// The prefix that may stand before a hexadecimal number.
pub open spec fn hex_prefix() -> Seq<u8> {
    seq![DIGIT_0, LOWER_X]
}

/// The prefix that may stand before an offset.
pub open spec fn offset_prefix() -> Seq<u8> {
    seq![AT]
}

/// `s` without the prefix, where one is given and `s` starts with it.
pub open spec fn without_prefix(prefix: Option<Seq<u8>>, s: Seq<u8>) -> Seq<u8> {
    match prefix {
        Some(p) => strip_prefix(p, s),
        None => s,
    }
}

/// The `size` bytes of the unsigned number that `s` spells in the given
/// base behind an optional prefix. The size must be one, two or four, and
/// the number must fit.
pub open spec fn unsigned_bytes(size: usize, prefix: Option<Seq<u8>>, base: nat, s: Seq<u8>) -> Result<
    Seq<u8>,
    ParseFault,
> {
    if !(size == 1 || size == 2 || size == 4) {
        Err(ParseFault::UnsupportedSize(size))
    } else {
        match parse_in_range(without_prefix(prefix, s), base, 0, span(size as nat) - 1) {
            Some(v) => Ok(be_bytes(v as nat, size as nat)),
            None => Err(ParseFault::Number),
        }
    }
}

/// The `size` bytes, in two's complement, of the signed number that `s`
/// spells in the given base behind an optional prefix. The size must be two
/// or four, and the number must fit.
pub open spec fn signed_bytes(size: usize, prefix: Option<Seq<u8>>, base: nat, s: Seq<u8>) -> Result<
    Seq<u8>,
    ParseFault,
> {
    if !(size == 2 || size == 4) {
        Err(ParseFault::UnsupportedSize(size))
    } else {
        match parse_in_range(
            without_prefix(prefix, s),
            base,
            -(span(size as nat) / 2),
            span(size as nat) / 2 - 1,
        ) {
            Some(v) => Ok(be_bytes(unsigned_of(v, size as nat), size as nat)),
            None => Err(ParseFault::Number),
        }
    }
}

/// `s` without `prefix`, where one is given and `s` starts with it.
fn skip_prefix<'a>(prefix: Option<&[u8]>, s: &'a [u8]) -> (r: &'a [u8])
    ensures
        r@ == without_prefix(
            match prefix {
                Some(p) => Some(p@),
                None => None,
            },
            s@,
        ),
{
    match prefix {
        Some(p) => if starts_with(s, p) {
            slice_subrange(s, p.len(), s.len())
        } else {
            s
        },
        None => s,
    }
}

/// Turns the text of an unsigned number into its `size` bytes.
pub fn uint_str_to_bytes(size: usize, pfx: Option<&[u8]>, base: u32, s: &[u8]) -> (r: Result<
    Vec<u8>,
    ParseFault,
>)
    requires
        2 <= base <= 36,
    ensures
        match r {
            Ok(b) => unsigned_bytes(
                size,
                match pfx {
                    Some(p) => Some(p@),
                    None => None,
                },
                base as nat,
                s@,
            ) == Ok::<Seq<u8>, ParseFault>(b@),
            Err(e) => unsigned_bytes(
                size,
                match pfx {
                    Some(p) => Some(p@),
                    None => None,
                },
                base as nat,
                s@,
            ) == Err::<Seq<u8>, ParseFault>(e),
        },
{
    let digits = skip_prefix(pfx, s);
    proof {
        lemma_span_values();
    }
    let max: i64 = if size == 1 {
        0xFF
    } else if size == 2 {
        0xFFFF
    } else if size == 4 {
        0xFFFF_FFFF
    } else {
        return Err(ParseFault::UnsupportedSize(size));
    };
    match parse_integer(digits, base, 0, max) {
        Some(v) => match uint_to_bytes(v as u32, size) {
            Some(b) => Ok(b),
            None => Err(ParseFault::Number),
        },
        None => Err(ParseFault::Number),
    }
}

/// Turns the text of a signed number into its `size` bytes.
pub fn int_str_to_bytes(size: usize, pfx: Option<&[u8]>, base: u32, s: &[u8]) -> (r: Result<
    Vec<u8>,
    ParseFault,
>)
    requires
        2 <= base <= 36,
    ensures
        match r {
            Ok(b) => signed_bytes(
                size,
                match pfx {
                    Some(p) => Some(p@),
                    None => None,
                },
                base as nat,
                s@,
            ) == Ok::<Seq<u8>, ParseFault>(b@),
            Err(e) => signed_bytes(
                size,
                match pfx {
                    Some(p) => Some(p@),
                    None => None,
                },
                base as nat,
                s@,
            ) == Err::<Seq<u8>, ParseFault>(e),
        },
{
    let digits = skip_prefix(pfx, s);
    proof {
        lemma_span_values();
    }
    let (min, max): (i64, i64) = if size == 2 {
        (-0x8000, 0x7FFF)
    } else if size == 4 {
        (-0x8000_0000, 0x7FFF_FFFF)
    } else {
        return Err(ParseFault::UnsupportedSize(size));
    };
    match parse_integer(digits, base, min, max) {
        Some(v) => match int_to_bytes(v as i32, size) {
            Some(b) => Ok(b),
            None => Err(ParseFault::Number),
        },
        None => Err(ParseFault::Number),
    }
}

/// The text between the quotes of a string, with each `\` taken out and the
/// byte behind it kept as it stands. A `\` at the very end stays.
pub open spec fn unescape(s: Seq<u8>) -> Seq<u8>
    decreases s.len(),
{
    if s.len() == 0 {
        Seq::empty()
    } else if s[0] == BACKSLASH && s.len() >= 2 {
        seq![s[1]] + unescape(s.subrange(2, s.len() as int))
    } else {
        seq![s[0]] + unescape(s.drop_first())
    }
}

/// Where `b` first stands in `s` from `i` on.
pub open spec fn position(s: Seq<u8>, b: u8, i: int) -> Option<int>
    decreases s.len() - i,
{
    if i < 0 || i >= s.len() {
        None
    } else if s[i] == b {
        Some(i)
    } else {
        position(s, b, i + 1)
    }
}

/// The least code from `c` on of a routine of the given name.
pub open spec fn routine_named(routines: Map<u16, Routine>, name: Seq<u8>, c: int) -> Option<u16>
    decreases 0x1_0000 - c,
{
    if c < 0 || c >= 0x1_0000 {
        None
    } else if routines.contains_key(c as u16) && routines[c as u16].name@ == name {
        Some(c as u16)
    } else {
        routine_named(routines, name, c + 1)
    }
}

/// The bytes of a string operand: its length in two bytes, then its text.
/// The token must stand between `"`, and the text must be shorter than 65536 bytes.
pub open spec fn string_bytes(token: Seq<u8>) -> Result<Seq<u8>, ParseFault> {
    if token.len() >= 2 && token[0] == QUOTE && token[token.len() - 1] == QUOTE {
        let text = unescape(token.subrange(1, token.len() - 1));
        if text.len() < 0x1_0000 {
            Ok(be_bytes(text.len(), 2) + text)
        } else {
            Err(ParseFault::BadString)
        }
    } else {
        Err(ParseFault::BadString)
    }
}

/// The bytes of a routine operand. With a `#` in the token, what stands
/// behind the first one is the code in hexadecimal; without, the token is
/// the name of a routine, and the least code of that name is taken.
pub open spec fn routine_bytes(size: usize, token: Seq<u8>, routines: Map<u16, Routine>) -> Result<
    Seq<u8>,
    ParseFault,
> {
    match position(token, HASH, 0) {
        Some(k) => unsigned_bytes(
            size,
            Some(hex_prefix()),
            16,
            token.subrange(k + 1, token.len() as int),
        ),
        None => match routine_named(routines, token, 0) {
            None => Err(ParseFault::UnknownRoutine),
            Some(code) => if !(size == 1 || size == 2 || size == 4) {
                Err(ParseFault::UnsupportedSize(size))
            } else if code < span(size as nat) {
                Ok(be_bytes(code as nat, size as nat))
            } else {
                Err(ParseFault::Number)
            },
        },
    }
}

/// The bytes that the token `token` gives for an operand of kind `o`.
pub open spec fn operand_bytes(
    o: Operand,
    token: Seq<u8>,
    routines: Map<u16, Routine>,
    floats: Seq<FloatText>,
) -> Result<Seq<u8>, ParseFault> {
    match o {
        Operand::Object(size) => unsigned_bytes(size, Some(hex_prefix()), 16, token),
        Operand::Size(size) => unsigned_bytes(size, Some(hex_prefix()), 16, token),
        Operand::Routine(size) => routine_bytes(size, token, routines),
        Operand::ArgCount(size) => unsigned_bytes(size, None, 10, token),
        Operand::Offset(size) => signed_bytes(size, Some(offset_prefix()), 10, token),
        Operand::Integer(size) => signed_bytes(size, None, 10, token),
        Operand::Float(size) => if size != 4 {
            Err(ParseFault::UnsupportedSize(size))
        } else {
            match float_bits_of(floats, token) {
                Some(bits) => Ok(be_bytes(bits as nat, 4)),
                None => Err(ParseFault::Number),
            }
        },
        Operand::String => string_bytes(token),
    }
}

/// The text `s` with its escapes taken out.
fn unescaped(s: &[u8]) -> (r: Vec<u8>)
    ensures
        r@ == unescape(s@),
{
    let n = s.len();
    let mut out: Vec<u8> = Vec::new();
    let mut i: usize = 0;
    proof {
        assert(s@.subrange(0, n as int) =~= s@);
    }
    while i < n
        invariant
            i <= n,
            n == s@.len(),
            unescape(s@) == out@ + unescape(s@.subrange(i as int, n as int)),
        decreases n - i,
    {
        let ghost rest = s@.subrange(i as int, n as int);
        if s[i] == BACKSLASH && i + 1 < n {
            out.push(s[i + 1]);
            proof {
                assert(rest.subrange(2, rest.len() as int) =~= s@.subrange(i + 2, n as int));
                assert(out@ + unescape(s@.subrange(i + 2, n as int)) =~= out@.drop_last() + (seq![
                    rest[1],
                ] + unescape(s@.subrange(i + 2, n as int))));
            }
            i += 2;
        } else {
            out.push(s[i]);
            proof {
                assert(rest.drop_first() =~= s@.subrange(i + 1, n as int));
                assert(out@ + unescape(s@.subrange(i + 1, n as int)) =~= out@.drop_last() + (seq![
                    rest[0],
                ] + unescape(s@.subrange(i + 1, n as int))));
            }
            i += 1;
        }
    }
    proof {
        assert(out@ + unescape(s@.subrange(n as int, n as int)) =~= out@);
    }
    out
}

/// Where `b` first stands in `s`.
fn find_byte(s: &[u8], b: u8) -> (r: Option<usize>)
    ensures
        match r {
            Some(k) => position(s@, b, 0) == Some(k as int) && k < s@.len(),
            None => position(s@, b, 0) is None,
        },
{
    let n = s.len();
    let mut i: usize = 0;
    while i < n
        invariant
            i <= n,
            n == s@.len(),
            position(s@, b, 0) == position(s@, b, i as int),
        decreases n - i,
    {
        if s[i] == b {
            return Some(i);
        }
        i += 1;
    }
    None
}

/// The least code of a routine of the given name.
fn find_routine(routines: &HashMap<u16, Routine>, name: &[u8]) -> (r: Option<u16>)
    ensures
        r == routine_named(routines@, name@, 0),
{
    let mut c: u32 = 0;
    while c < 0x1_0000
        invariant
            c <= 0x1_0000,
            routine_named(routines@, name@, 0) == routine_named(routines@, name@, c as int),
        decreases 0x1_0000 - c,
    {
        let code = c as u16;
        match routines.get(&code) {
            Some(rtn) => {
                if same_bytes(rtn.name.as_slice(), name) {
                    return Some(code);
                }
            },
            None => {},
        }
        c += 1;
    }
    None
}

/// Turns the token of one operand into the operand's bytes.
pub fn parse_arg(o: &Operand, s: &[u8], routines: &HashMap<u16, Routine>, floats: &[FloatText]) -> (r:
    Result<Vec<u8>, ParseFault>)
    ensures
        match r {
            Ok(b) => operand_bytes(*o, s@, routines@, floats@) == Ok::<Seq<u8>, ParseFault>(b@),
            Err(e) => operand_bytes(*o, s@, routines@, floats@) == Err::<Seq<u8>, ParseFault>(e),
        },
{
    let hex: [u8; 2] = [DIGIT_0, LOWER_X];
    let at: [u8; 1] = [AT];
    proof {
        assert(hex@ =~= hex_prefix());
        assert(at@ =~= offset_prefix());
        lemma_span_values();
    }
    match *o {
        Operand::Object(sz) => uint_str_to_bytes(sz, Some(hex.as_slice()), 16, s),
        Operand::Size(sz) => uint_str_to_bytes(sz, Some(hex.as_slice()), 16, s),
        Operand::Routine(sz) => match find_byte(s, HASH) {
            Some(k) => {
                let n = s.len();
                let explicit = slice_subrange(s, k + 1, n);
                uint_str_to_bytes(sz, Some(hex.as_slice()), 16, explicit)
            },
            None => match find_routine(routines, s) {
                None => Err(ParseFault::UnknownRoutine),
                Some(code) => if !(sz == 1 || sz == 2 || sz == 4) {
                    Err(ParseFault::UnsupportedSize(sz))
                } else {
                    match uint_to_bytes(code as u32, sz) {
                        Some(b) => Ok(b),
                        None => Err(ParseFault::Number),
                    }
                },
            },
        },
        Operand::ArgCount(sz) => uint_str_to_bytes(sz, None, 10, s),
        Operand::Offset(sz) => int_str_to_bytes(sz, Some(at.as_slice()), 10, s),
        Operand::Integer(sz) => int_str_to_bytes(sz, None, 10, s),
        Operand::Float(sz) => if sz != 4 {
            Err(ParseFault::UnsupportedSize(sz))
        } else {
            match find_float_bits(floats, s) {
                Some(bits) => match uint_to_bytes(bits, 4) {
                    Some(b) => Ok(b),
                    None => Err(ParseFault::Number),
                },
                None => Err(ParseFault::Number),
            }
        },
        Operand::String => {
            let n = s.len();
            if n >= 2 && s[0] == QUOTE && s[n - 1] == QUOTE {
                let text = unescaped(slice_subrange(s, 1, n - 1));
                if text.len() < 0x1_0000 {
                    match uint_to_bytes(text.len() as u32, 2) {
                        Some(mut b) => {
                            push_bytes(&mut b, text.as_slice());
                            Ok(b)
                        },
                        None => Err(ParseFault::BadString),
                    }
                } else {
                    Err(ParseFault::BadString)
                }
            } else {
                Err(ParseFault::BadString)
            }
        },
    }
}

/// The name and the type byte of variant `j` of the table entry `op`: a
/// variant is a legal type of an instruction that has more than one. With a
/// suffix its name is mnemonic and suffix, and its type byte that of the
/// stack-type entry; without one, its name is the mnemonic and the type is
/// left to the line.
pub open spec fn variant_of(op: Opcode, nwtypes: Seq<Option<NWType>>, j: int) -> Option<
    (Seq<u8>, Option<u8>),
> {
    if op.legal_types().len() > 1 && 0 <= j < op.legal_types().len() {
        match type_entry(nwtypes, op.legal_types()[j]) {
            Some(ty) => match ty.suffix() {
                Some(a) => Some((op.code.mnemonic() + a, Some(ty.code.code_of()))),
                None => Some((op.code.mnemonic(), None)),
            },
            None => None,
        }
    } else {
        None
    }
}

/// The type of the last of the first `n` variants of `op` that has the given name.
pub open spec fn variant_in(op: Opcode, nwtypes: Seq<Option<NWType>>, name: Seq<u8>, n: int) -> Option<
    Option<u8>,
>
    decreases n,
{
    if n <= 0 {
        None
    } else {
        match variant_of(op, nwtypes, n - 1) {
            Some(v) => if v.0 == name {
                Some(v.1)
            } else {
                variant_in(op, nwtypes, name, n - 1)
            },
            None => variant_in(op, nwtypes, name, n - 1),
        }
    }
}

/// The last variant of the given name among the first `n` slots of the
/// opcode table: its slot and its type.
pub open spec fn find_variant(
    opcodes: Seq<Option<Opcode>>,
    nwtypes: Seq<Option<NWType>>,
    name: Seq<u8>,
    n: int,
) -> Option<(int, Option<u8>)>
    decreases n,
{
    if n <= 0 {
        None
    } else {
        let here = match opcodes[n - 1] {
            Some(op) => variant_in(op, nwtypes, name, op.legal_types().len() as int),
            None => None,
        };
        match here {
            Some(t) => Some((n - 1, t)),
            None => find_variant(opcodes, nwtypes, name, n - 1),
        }
    }
}

/// The last of the first `n` slots of the opcode table that holds an
/// instruction of the given mnemonic.
pub open spec fn find_opcode(opcodes: Seq<Option<Opcode>>, name: Seq<u8>, n: int) -> Option<int>
    decreases n,
{
    if n <= 0 {
        None
    } else if opcodes[n - 1] is Some && opcodes[n - 1]->0.code.mnemonic() == name {
        Some(n - 1)
    } else {
        find_opcode(opcodes, name, n - 1)
    }
}

/// What the start of a line selects: a slot of the opcode table, the type
/// byte if the instruction has one, and the token that the operands start at.
pub struct Resolved {
    pub index: int,
    pub type_byte: Option<u8>,
    pub first: int,
}

/// The instruction that the tokens of a line select, and its type.
///
/// The first token is looked up among the variants. A variant with a suffix
/// gives the type. One without takes the next token as a decimal index into
/// the legal types of the instruction. Where no variant has the name, it is
/// looked up among the mnemonics: an instruction of one legal type has that
/// type, one without types has none, and one of several is a fault of the
/// table.
pub open spec fn resolve(
    tokens: Seq<Seq<u8>>,
    opcodes: Seq<Option<Opcode>>,
    nwtypes: Seq<Option<NWType>>,
    number: usize,
) -> Result<Resolved, AssemblyError> {
    match find_variant(opcodes, nwtypes, tokens[0], opcodes.len() as int) {
        Some((i, Some(t))) => Ok(Resolved { index: i, type_byte: Some(t), first: 1 }),
        Some((i, None)) => {
            let op = opcodes[i]->0;
            if tokens.len() > 1 {
                match parse_in_range(tokens[1], 10, 0, 0xFF) {
                    None => Err(AssemblyError::ParseError(ParseFault::Number, number)),
                    Some(k) => if k < op.legal_types().len() {
                        Ok(Resolved { index: i, type_byte: Some(op.legal_types()[k]), first: 2 })
                    } else {
                        Err(
                            AssemblyError::ParseError(
                                ParseFault::BadTypeSpecifier(op.code),
                                number,
                            ),
                        )
                    },
                }
            } else {
                Err(AssemblyError::ParseError(ParseFault::MissingTypeSpecifier(op.code), number))
            }
        },
        None => match find_opcode(opcodes, tokens[0], opcodes.len() as int) {
            None => Err(AssemblyError::ParseError(ParseFault::UnknownMnemonic, number)),
            Some(i) => {
                let op = opcodes[i]->0;
                if op.legal_types().len() == 0 {
                    Ok(Resolved { index: i, type_byte: None, first: 1 })
                } else if op.legal_types().len() == 1 {
                    Ok(Resolved { index: i, type_byte: Some(op.legal_types()[0]), first: 1 })
                } else {
                    Err(AssemblyError::TableError(TableFault::MultipleTypes(op.code)))
                }
            },
        },
    }
}

/// Whether operand `i` of `list` has a token of its own: all have but a
/// `Size` that stands before a `String`, which the string's length gives.
pub open spec fn visible(list: Seq<Operand>, i: int) -> bool {
    !(list[i] is Size && i + 1 < list.len() && list[i + 1] is String)
}

/// How many of the first `n` operands of `list` have a token of their own.
pub open spec fn visible_count(list: Seq<Operand>, n: int) -> nat
    decreases n,
{
    if n <= 0 {
        0
    } else if visible(list, n - 1) {
        visible_count(list, n - 1) + 1
    } else {
        visible_count(list, n - 1)
    }
}

/// The bytes `acc` with those of the operands of `list` from `i` on behind
/// them, each from its token; the tokens are taken from `k` on.
#[verifier::opaque]
pub open spec fn encode_operands(
    list: Seq<Operand>,
    tokens: Seq<Seq<u8>>,
    routines: Map<u16, Routine>,
    floats: Seq<FloatText>,
    i: int,
    k: int,
    acc: Seq<u8>,
) -> Result<Seq<u8>, ParseFault>
    decreases list.len() - i,
{
    if i < 0 || i >= list.len() {
        Ok(acc)
    } else if !visible(list, i) {
        encode_operands(list, tokens, routines, floats, i + 1, k, acc)
    } else {
        match operand_bytes(list[i], tokens[k], routines, floats) {
            Err(e) => Err(e),
            Ok(b) => encode_operands(list, tokens, routines, floats, i + 1, k + 1, acc + b),
        }
    }
}

/// The type byte that the operand lists are kept under.
pub open spec fn list_key(type_byte: Option<u8>) -> u8 {
    match type_byte {
        Some(t) => t,
        None => 0,
    }
}

/// The code byte and the type byte, if any, that an instruction starts with.
pub open spec fn head_bytes(op: Opcode, type_byte: Option<u8>) -> Seq<u8> {
    match type_byte {
        Some(t) => seq![op.code.code_of(), t],
        None => seq![op.code.code_of()],
    }
}

/// The bytes of the instruction that the tokens of a line spell.
///
/// The code byte comes first, then the type byte if the instruction has
/// one, then the operands. The line must hold as many operands as the
/// instruction takes.
pub open spec fn tokens_bytes(
    tokens: Seq<Seq<u8>>,
    number: usize,
    opcodes: Seq<Option<Opcode>>,
    nwtypes: Seq<Option<NWType>>,
    routines: Map<u16, Routine>,
    floats: Seq<FloatText>,
) -> Result<Seq<u8>, AssemblyError> {
    match resolve(tokens, opcodes, nwtypes, number) {
        Err(e) => Err(e),
        Ok(r) => {
            let op = opcodes[r.index]->0;
            let list = op.operands(list_key(r.type_byte));
            let expected = visible_count(list, list.len() as int);
            if expected + r.first != tokens.len() {
                Err(
                    AssemblyError::ParseError(
                        ParseFault::ArgumentCount {
                            opcode: op.code,
                            expected: expected as usize,
                            got: (tokens.len() - r.first) as usize,
                        },
                        number,
                    ),
                )
            } else {
                match encode_operands(
                    list,
                    tokens,
                    routines,
                    floats,
                    0,
                    r.first,
                    head_bytes(op, r.type_byte),
                ) {
                    Ok(b) => Ok(b),
                    Err(f) => Err(AssemblyError::ParseError(f, number)),
                }
            }
        },
    }
}

/// The bytes of one line of assembly text; none for a blank line or a comment.
pub open spec fn line_bytes(
    line: Seq<u8>,
    number: usize,
    opcodes: Seq<Option<Opcode>>,
    nwtypes: Seq<Option<NWType>>,
    routines: Map<u16, Routine>,
    floats: Seq<FloatText>,
) -> Result<Seq<u8>, AssemblyError> {
    match tokens_of(line) {
        Err(f) => Err(AssemblyError::ParseError(f, number)),
        Ok(tokens) => if tokens.len() == 0 {
            Ok(Seq::empty())
        } else {
            tokens_bytes(tokens, number, opcodes, nwtypes, routines, floats)
        },
    }
}

/// The type of the last variant of `op` that has the given name.
fn lookup_variant_in(op: &Opcode, nwtypes: &[Option<NWType>], name: &[u8]) -> (r: Option<
    Option<u8>,
>)
    ensures
        r == variant_in(*op, nwtypes@, name@, op.legal_types().len() as int),
{
    let types = match &op.types {
        Some(types) => types,
        None => {
            return None;
        },
    };
    let n = types.len();
    let mnemonic = op.code.name().as_bytes();
    let mut j: usize = n;
    while j > 0
        invariant
            j <= n,
            n == types@.len(),
            op.types == Some(*types),
            mnemonic@ == op.code.mnemonic(),
            variant_in(*op, nwtypes@, name@, n as int) == variant_in(
                *op,
                nwtypes@,
                name@,
                j as int,
            ),
        decreases j,
    {
        j -= 1;
        if n > 1 {
            let t = types[j];
            if (t as usize) < nwtypes.len() {
                match &nwtypes[t as usize] {
                    Some(ty) => {
                        let mut candidate: Vec<u8> = Vec::new();
                        push_bytes(&mut candidate, mnemonic);
                        let found = match ty.abbr {
                            Some(a) => {
                                push_bytes(&mut candidate, a.as_bytes());
                                Some(ty.code.code())
                            },
                            None => None,
                        };
                        proof {
                            let v = variant_of(*op, nwtypes@, j as int)->0;
                            assert(candidate@ =~= v.0);
                        }
                        if same_bytes(candidate.as_slice(), name) {
                            return Some(found);
                        }
                    },
                    None => {},
                }
            }
        }
    }
    None
}

/// The last variant of the opcode table that has the given name.
fn lookup_variant(opcodes: &[Option<Opcode>], nwtypes: &[Option<NWType>], name: &[u8]) -> (r:
    Option<(usize, Option<u8>)>)
    ensures
        match r {
            Some((i, t)) => find_variant(opcodes@, nwtypes@, name@, opcodes@.len() as int) == Some(
                (i as int, t),
            ) && i < opcodes@.len() && opcodes@[i as int] is Some,
            None => find_variant(opcodes@, nwtypes@, name@, opcodes@.len() as int) is None,
        },
{
    let n = opcodes.len();
    let mut i: usize = n;
    while i > 0
        invariant
            i <= n,
            n == opcodes@.len(),
            find_variant(opcodes@, nwtypes@, name@, n as int) == find_variant(
                opcodes@,
                nwtypes@,
                name@,
                i as int,
            ),
        decreases i,
    {
        i -= 1;
        match &opcodes[i] {
            Some(op) => match lookup_variant_in(op, nwtypes, name) {
                Some(t) => {
                    return Some((i, t));
                },
                None => {},
            },
            None => {},
        }
    }
    None
}

/// The last slot of the opcode table that holds an instruction of the given mnemonic.
fn lookup_opcode(opcodes: &[Option<Opcode>], name: &[u8]) -> (r: Option<usize>)
    ensures
        match r {
            Some(i) => find_opcode(opcodes@, name@, opcodes@.len() as int) == Some(i as int) && i
                < opcodes@.len() && opcodes@[i as int] is Some,
            None => find_opcode(opcodes@, name@, opcodes@.len() as int) is None,
        },
{
    let n = opcodes.len();
    let mut i: usize = n;
    while i > 0
        invariant
            i <= n,
            n == opcodes@.len(),
            find_opcode(opcodes@, name@, n as int) == find_opcode(opcodes@, name@, i as int),
        decreases i,
    {
        i -= 1;
        match &opcodes[i] {
            Some(op) => {
                if same_bytes(op.code.name().as_bytes(), name) {
                    return Some(i);
                }
            },
            None => {},
        }
    }
    None
}

/// The instruction that the tokens of a line select: its slot in the opcode
/// table, its type byte if it has one, and where its operands start.
fn resolve_tokens(
    tokens: &Vec<Vec<u8>>,
    number: usize,
    opcodes: &[Option<Opcode>],
    nwtypes: &[Option<NWType>],
) -> (r: Result<(usize, Option<u8>, usize), AssemblyError>)
    requires
        tokens@.len() > 0,
    ensures
        match r {
            Ok((i, t, first)) => resolve(token_views(tokens@), opcodes@, nwtypes@, number) == Ok::<
                Resolved,
                AssemblyError,
            >(Resolved { index: i as int, type_byte: t, first: first as int }) && i
                < opcodes@.len() && opcodes@[i as int] is Some && 1 <= first <= 2,
            Err(e) => resolve(token_views(tokens@), opcodes@, nwtypes@, number) == Err::<
                Resolved,
                AssemblyError,
            >(e),
        },
{
    let name = tokens[0].as_slice();
    match lookup_variant(opcodes, nwtypes, name) {
        Some((i, Some(t))) => Ok((i, Some(t), 1)),
        Some((i, None)) => {
            let op = match &opcodes[i] {
                Some(op) => op,
                None => {
                    return Err(AssemblyError::ParseError(ParseFault::UnknownMnemonic, number));
                },
            };
            if tokens.len() > 1 {
                match parse_integer(tokens[1].as_slice(), 10, 0, 0xFF) {
                    None => Err(AssemblyError::ParseError(ParseFault::Number, number)),
                    Some(k) => match &op.types {
                        Some(types) => if (k as usize) < types.len() {
                            Ok((i, Some(types[k as usize]), 2))
                        } else {
                            Err(
                                AssemblyError::ParseError(
                                    ParseFault::BadTypeSpecifier(op.code),
                                    number,
                                ),
                            )
                        },
                        None => Err(
                            AssemblyError::ParseError(
                                ParseFault::BadTypeSpecifier(op.code),
                                number,
                            ),
                        ),
                    },
                }
            } else {
                Err(AssemblyError::ParseError(ParseFault::MissingTypeSpecifier(op.code), number))
            }
        },
        None => match lookup_opcode(opcodes, name) {
            None => Err(AssemblyError::ParseError(ParseFault::UnknownMnemonic, number)),
            Some(i) => {
                let op = match &opcodes[i] {
                    Some(op) => op,
                    None => {
                        return Err(
                            AssemblyError::ParseError(ParseFault::UnknownMnemonic, number),
                        );
                    },
                };
                match &op.types {
                    Some(types) => {
                        if types.len() == 0 {
                            Ok((i, None, 1))
                        } else if types.len() == 1 {
                            Ok((i, Some(types[0]), 1))
                        } else {
                            Err(AssemblyError::TableError(TableFault::MultipleTypes(op.code)))
                        }
                    },
                    None => Ok((i, None, 1)),
                }
            },
        },
    }
}

/// Whether operand `i` of `list` has a token of its own.
fn is_visible(list: &Vec<Operand>, i: usize) -> (r: bool)
    requires
        i < list@.len(),
    ensures
        r == visible(list@, i as int),
{
    let n = list.len();
    match list[i] {
        Operand::Size(_) => {
            if i + 1 < n {
                match list[i + 1] {
                    Operand::String => false,
                    _ => true,
                }
            } else {
                true
            }
        },
        _ => true,
    }
}

/// How many operands of `list` have a token of their own.
fn count_visible(list: &Vec<Operand>) -> (r: usize)
    ensures
        r == visible_count(list@, list@.len() as int),
{
    let n = list.len();
    let mut count: usize = 0;
    let mut i: usize = 0;
    while i < n
        invariant
            i <= n,
            n == list@.len(),
            count == visible_count(list@, i as int),
            count <= i,
        decreases n - i,
    {
        if is_visible(list, i) {
            count += 1;
        }
        i += 1;
    }
    count
}

/// The bytes of the instruction that the tokens of a line spell, with the
/// slot of the instruction in the opcode table and its type byte.
fn assemble_tokens(
    tokens: &Vec<Vec<u8>>,
    number: usize,
    opcodes: &[Option<Opcode>],
    nwtypes: &[Option<NWType>],
    routines: &HashMap<u16, Routine>,
    floats: &[FloatText],
) -> (r: Result<(Vec<u8>, usize, Option<u8>), AssemblyError>)
    requires
        tokens@.len() > 0,
    ensures
        match r {
            Ok((b, i, t)) => tokens_bytes(
                token_views(tokens@),
                number,
                opcodes@,
                nwtypes@,
                routines@,
                floats@,
            ) == Ok::<Seq<u8>, AssemblyError>(b@) && resolve(
                token_views(tokens@),
                opcodes@,
                nwtypes@,
                number,
            ) is Ok && resolve(token_views(tokens@), opcodes@, nwtypes@, number)->Ok_0.index == i
                && resolve(token_views(tokens@), opcodes@, nwtypes@, number)->Ok_0.type_byte == t
                && i < opcodes@.len() && opcodes@[i as int] is Some,
            Err(e) => tokens_bytes(
                token_views(tokens@),
                number,
                opcodes@,
                nwtypes@,
                routines@,
                floats@,
            ) == Err::<Seq<u8>, AssemblyError>(e),
        },
{
    let (index, type_byte, first) = resolve_tokens(tokens, number, opcodes, nwtypes)?;
    let op = match &opcodes[index] {
        Some(op) => op,
        None => {
            return Err(AssemblyError::ParseError(ParseFault::UnknownMnemonic, number));
        },
    };
    let mut buf: Vec<u8> = Vec::new();
    buf.push(op.code.code());
    let key: u8 = match type_byte {
        Some(t) => {
            buf.push(t);
            t
        },
        None => 0,
    };
    proof {
        assert(buf@ =~= head_bytes(*op, type_byte));
    }
    let ghost spec_list = op.operands(key);
    let count = tokens.len();
    let list: &Vec<Operand> = match operand_list_of(op, key) {
        Some(list) => list,
        None => {
            if first != count {
                return Err(
                    AssemblyError::ParseError(
                        ParseFault::ArgumentCount {
                            opcode: op.code,
                            expected: 0,
                            got: count - first,
                        },
                        number,
                    ),
                );
            }
            proof {
                lemma_encode_done(
                    spec_list,
                    token_views(tokens@),
                    routines@,
                    floats@,
                    0,
                    first as int,
                    buf@,
                );
            }
            return Ok((buf, index, type_byte));
        },
    };
    let expected = count_visible(list);
    if expected != count - first {
        return Err(
            AssemblyError::ParseError(
                ParseFault::ArgumentCount { opcode: op.code, expected, got: count - first },
                number,
            ),
        );
    }
    let ghost views = token_views(tokens@);
    let ghost head = buf@;
    let ghost goal = tokens_bytes(views, number, opcodes@, nwtypes@, routines@, floats@);
    let n = list.len();
    let mut k: usize = first;
    let mut i: usize = 0;
    while i < n
        invariant
            i <= n,
            n == list@.len(),
            count == tokens@.len(),
            views == token_views(tokens@),
            first <= k <= count,
            k - first == visible_count(list@, i as int),
            count - first == visible_count(list@, n as int),
            goal == tokens_bytes(views, number, opcodes@, nwtypes@, routines@, floats@),
            goal == match encode_operands(list@, views, routines@, floats@, 0, first as int, head) {
                Ok(b) => Ok::<Seq<u8>, AssemblyError>(b),
                Err(f) => Err(AssemblyError::ParseError(f, number)),
            },
            encode_operands(list@, views, routines@, floats@, 0, first as int, head)
                == encode_operands(list@, views, routines@, floats@, i as int, k as int, buf@),
        decreases n - i,
    {
        let ghost before = buf@;
        proof {
            lemma_encode_step(list@, views, routines@, floats@, i as int, k as int, before);
        }
        if is_visible(list, i) {
            proof {
                lemma_visible_count_step(list@, i as int, n as int);
            }
            assert(k < count);
            assert(views[k as int] == tokens@[k as int]@);
            let bytes = match parse_arg(&list[i], tokens[k].as_slice(), routines, floats) {
                Ok(bytes) => bytes,
                Err(f) => {
                    return Err(AssemblyError::ParseError(f, number));
                },
            };
            push_bytes(&mut buf, bytes.as_slice());
            k += 1;
        }
        i += 1;
    }
    proof {
        lemma_encode_done(list@, views, routines@, floats@, i as int, k as int, buf@);
    }
    Ok((buf, index, type_byte))
}

/// One step of `encode_operands`.
pub proof fn lemma_encode_step(
    list: Seq<Operand>,
    tokens: Seq<Seq<u8>>,
    routines: Map<u16, Routine>,
    floats: Seq<FloatText>,
    i: int,
    k: int,
    acc: Seq<u8>,
)
    requires
        0 <= i < list.len(),
    ensures
        encode_operands(list, tokens, routines, floats, i, k, acc) == (if !visible(list, i) {
            encode_operands(list, tokens, routines, floats, i + 1, k, acc)
        } else {
            match operand_bytes(list[i], tokens[k], routines, floats) {
                Err(e) => Err(e),
                Ok(b) => encode_operands(list, tokens, routines, floats, i + 1, k + 1, acc + b),
            }
        }),
{
    reveal(encode_operands);
}

/// Behind the last operand `encode_operands` gives what it has.
pub proof fn lemma_encode_done(
    list: Seq<Operand>,
    tokens: Seq<Seq<u8>>,
    routines: Map<u16, Routine>,
    floats: Seq<FloatText>,
    i: int,
    k: int,
    acc: Seq<u8>,
)
    requires
        i >= list.len(),
    ensures
        encode_operands(list, tokens, routines, floats, i, k, acc) == Ok::<Seq<u8>, ParseFault>(
            acc,
        ),
{
    reveal(encode_operands);
}

/// The operands with a token among the first `n` are no more than among all.
proof fn lemma_visible_count_step(list: Seq<Operand>, i: int, n: int)
    requires
        0 <= i < n <= list.len(),
    ensures
        visible_count(list, i) + (if visible(list, i) {
            1nat
        } else {
            0nat
        }) <= visible_count(list, n),
    decreases n - i,
{
    if n > i + 1 {
        lemma_visible_count_step(list, i, n - 1);
    }
}

/// Turns one line of assembly text into bytes. `number` is the number of
/// the line, which a fault of the text is reported with.
pub fn assemble_line(
    line: &[u8],
    number: usize,
    opcodes: &[Option<Opcode>],
    nwtypes: &[Option<NWType>],
    routines: &HashMap<u16, Routine>,
    floats: &[FloatText],
) -> (r: Result<Vec<u8>, AssemblyError>)
    ensures
        match r {
            Ok(b) => line_bytes(line@, number, opcodes@, nwtypes@, routines@, floats@) == Ok::<
                Seq<u8>,
                AssemblyError,
            >(b@),
            Err(e) => line_bytes(line@, number, opcodes@, nwtypes@, routines@, floats@) == Err::<
                Seq<u8>,
                AssemblyError,
            >(e),
        },
{
    let parts = match split_line(line) {
        Ok(parts) => parts,
        Err(f) => {
            return Err(AssemblyError::ParseError(f, number));
        },
    };
    if parts.len() == 0 {
        return Ok(Vec::new());
    }
    let (bytes, _, _) = assemble_tokens(&parts, number, opcodes, nwtypes, routines, floats)?;
    Ok(bytes)
}

/// The header that every assembled program starts with: `NCS V1.0`.
pub open spec fn header() -> Seq<u8> {
    seq![0x4Eu8, 0x43u8, 0x53u8, 0x20u8, 0x56u8, 0x31u8, 0x2Eu8, 0x30u8]
}

/// A line without the carriage return at its end, if it has one.
pub open spec fn chomp(line: Seq<u8>) -> Seq<u8> {
    if line.len() > 0 && line.last() == RETURN {
        line.drop_last()
    } else {
        line
    }
}

/// The lines of a text. A line ends at a line feed, which is not part of
/// it, nor is a carriage return before the line feed. What stands behind the
/// last line feed is a line if it is not empty.
pub open spec fn lines_of(text: Seq<u8>) -> Seq<Seq<u8>>
    decreases text.len(),
{
    if text.len() == 0 {
        Seq::empty()
    } else {
        match position(text, NEWLINE, 0) {
            None => seq![text],
            Some(k) => if 0 <= k < text.len() {
                seq![chomp(text.subrange(0, k))] + lines_of(
                    text.subrange(k + 1, text.len() as int),
                )
            } else {
                seq![text]
            },
        }
    }
}

/// The first legal type from `j` on of an instruction of several types that
/// the stack-type table has no entry for.
pub open spec fn missing_type_in(op: Opcode, nwtypes: Seq<Option<NWType>>, j: int) -> Option<u8>
    decreases op.legal_types().len() - j,
{
    if j < 0 || j >= op.legal_types().len() || op.legal_types().len() <= 1 {
        None
    } else if type_entry(nwtypes, op.legal_types()[j]) is None {
        Some(op.legal_types()[j])
    } else {
        missing_type_in(op, nwtypes, j + 1)
    }
}

/// The first fault of that kind from slot `i` of the opcode table on.
pub open spec fn missing_variant_type(
    opcodes: Seq<Option<Opcode>>,
    nwtypes: Seq<Option<NWType>>,
    i: int,
) -> Option<TableFault>
    decreases opcodes.len() - i,
{
    if i < 0 || i >= opcodes.len() {
        None
    } else {
        let here = match opcodes[i] {
            Some(op) => match missing_type_in(op, nwtypes, 0) {
                Some(t) => Some(
                    TableFault::VariantTypeNotFound { type_byte: t, opcode: op.code },
                ),
                None => None,
            },
            None => None,
        };
        match here {
            Some(f) => Some(f),
            None => missing_variant_type(opcodes, nwtypes, i + 1),
        }
    }
}

/// Where the byte count stands in the bytes of the program's `T` line.
pub struct Slot {
    /// Offset of the size operand in the bytes of the instruction.
    pub at: int,
    /// Width of the size operand.
    pub width: nat,
    /// Number of the line.
    pub line: usize,
}

/// Where the byte count stands in the instruction that `tokens` spell. The
/// instruction must be `T`, and its first operand a size with a token of
/// its own.
pub open spec fn total_slot(
    tokens: Seq<Seq<u8>>,
    number: usize,
    opcodes: Seq<Option<Opcode>>,
    nwtypes: Seq<Option<NWType>>,
) -> Result<Slot, AssemblyError> {
    let r = resolve(tokens, opcodes, nwtypes, number)->Ok_0;
    let op = opcodes[r.index]->0;
    let list = op.operands(list_key(r.type_byte));
    if op.code != OpcodeE::T {
        Err(AssemblyError::ParseError(ParseFault::FirstNotT, number))
    } else if list.len() > 0 && visible(list, 0) && list[0] is Size && (list[0]->Size_0 == 1
        || list[0]->Size_0 == 2 || list[0]->Size_0 == 4) {
        Ok(
            Slot {
                at: head_bytes(op, r.type_byte).len() as int,
                width: list[0]->Size_0 as nat,
                line: number,
            },
        )
    } else {
        Err(AssemblyError::TableError(TableFault::TotalWithoutSize))
    }
}

/// The bytes `acc` with those of the lines from `i` on behind them, and
/// where the byte count of the program stands in them. `slot` is where it
/// stands if an instruction was met before line `i`. The first instruction
/// met must be `T`.
pub open spec fn assemble_lines(
    lines: Seq<Seq<u8>>,
    opcodes: Seq<Option<Opcode>>,
    nwtypes: Seq<Option<NWType>>,
    routines: Map<u16, Routine>,
    floats: Seq<FloatText>,
    i: int,
    slot: Option<Slot>,
    acc: Seq<u8>,
) -> Result<(Seq<u8>, Option<Slot>), AssemblyError>
    decreases lines.len() - i,
{
    if i < 0 || i >= lines.len() {
        Ok((acc, slot))
    } else {
        let number = (i + 1) as usize;
        match tokens_of(lines[i]) {
            Err(f) => Err(AssemblyError::ParseError(f, number)),
            Ok(tokens) => if tokens.len() == 0 {
                assemble_lines(lines, opcodes, nwtypes, routines, floats, i + 1, slot, acc)
            } else {
                match tokens_bytes(tokens, number, opcodes, nwtypes, routines, floats) {
                    Err(e) => Err(e),
                    Ok(b) => match slot {
                        Some(_) => assemble_lines(
                            lines,
                            opcodes,
                            nwtypes,
                            routines,
                            floats,
                            i + 1,
                            slot,
                            acc + b,
                        ),
                        None => match total_slot(tokens, number, opcodes, nwtypes) {
                            Err(e) => Err(e),
                            Ok(found) => assemble_lines(
                                lines,
                                opcodes,
                                nwtypes,
                                routines,
                                floats,
                                i + 1,
                                Some(found),
                                acc + b,
                            ),
                        },
                    },
                }
            },
        }
    }
}

/// The routine table that a program is assembled by; empty where none is given.
pub open spec fn routines_of(routines: Option<&HashMap<u16, Routine>>) -> Map<u16, Routine> {
    match routines {
        Some(m) => m@,
        None => Map::empty(),
    }
}

/// The bytecode of a program of assembly text.
///
/// The header comes first, then the bytes of each line in turn. The first
/// instruction must be `T`; whatever byte count the text gives it, the one
/// written is the length of the whole program, header included.
pub open spec fn assembly(
    text: Seq<u8>,
    opcodes: Seq<Option<Opcode>>,
    routines: Map<u16, Routine>,
    floats: Seq<FloatText>,
) -> Result<Seq<u8>, AssemblyError> {
    let nwtypes = builtin_nwtypes();
    match missing_variant_type(opcodes, nwtypes, 0) {
        Some(f) => Err(AssemblyError::TableError(f)),
        None => match assemble_lines(
            lines_of(text),
            opcodes,
            nwtypes,
            routines,
            floats,
            0,
            None,
            Seq::empty(),
        ) {
            Err(e) => Err(e),
            Ok((body, None)) => Err(AssemblyError::ParseError(ParseFault::FirstNotT, 0)),
            Ok((body, Some(slot))) => {
                let total = header().len() + body.len();
                if total >= span(slot.width) {
                    Err(AssemblyError::ParseError(ParseFault::TooLarge, slot.line))
                } else {
                    Ok(
                        header() + body.subrange(0, slot.at) + be_bytes(total, slot.width)
                            + body.subrange(slot.at + slot.width, body.len() as int),
                    )
                }
            },
        },
    }
}

/// Splits a text into its lines.
pub fn split_lines(text: &[u8]) -> (r: Vec<Vec<u8>>)
    ensures
        token_views(r@) == lines_of(text@),
{
    let n = text.len();
    let mut out: Vec<Vec<u8>> = Vec::new();
    let mut i: usize = 0;
    proof {
        assert(text@.subrange(0, n as int) =~= text@);
        assert(token_views(out@) =~= Seq::<Seq<u8>>::empty());
    }
    while i < n
        invariant
            i <= n,
            n == text@.len(),
            lines_of(text@) == token_views(out@) + lines_of(text@.subrange(i as int, n as int)),
        decreases n - i,
    {
        let rest = slice_subrange(text, i, n);
        let ghost before = token_views(out@);
        match find_byte(rest, NEWLINE) {
            None => {
                let line = slice_of(text, i, n);
                out.push(line);
                proof {
                    assert(token_views(out@) =~= before + seq![rest@]);
                    assert(text@.subrange(n as int, n as int) =~= Seq::<u8>::empty());
                    assert(token_views(out@) + lines_of(text@.subrange(n as int, n as int))
                        =~= before + seq![rest@]);
                }
                i = n;
            },
            Some(k) => {
                let end: usize = if k > 0 && rest[k - 1] == RETURN {
                    k - 1
                } else {
                    k
                };
                let line = slice_of(text, i, i + end);
                out.push(line);
                proof {
                    assert(rest@.subrange(0, k as int).len() == k);
                    assert(line@ =~= chomp(rest@.subrange(0, k as int)));
                    assert(rest@.subrange(k + 1, rest@.len() as int) =~= text@.subrange(
                        i + k + 1,
                        n as int,
                    ));
                    assert(token_views(out@) =~= before + seq![line@]);
                    assert(token_views(out@) + lines_of(text@.subrange(i + k + 1, n as int))
                        =~= before + (seq![line@] + lines_of(text@.subrange(i + k + 1, n as int))));
                }
                i = i + k + 1;
            },
        }
    }
    proof {
        assert(text@.subrange(n as int, n as int) =~= Seq::<u8>::empty());
        assert(token_views(out@) + Seq::<Seq<u8>>::empty() =~= token_views(out@));
    }
    out
}

/// The first legal type of an instruction of several types that the
/// stack-type table has no entry for.
fn find_missing_type(op: &Opcode, nwtypes: &[Option<NWType>]) -> (r: Option<u8>)
    ensures
        r == missing_type_in(*op, nwtypes@, 0),
{
    let types = match &op.types {
        Some(types) => types,
        None => {
            return None;
        },
    };
    let n = types.len();
    if n <= 1 {
        return None;
    }
    let mut j: usize = 0;
    while j < n
        invariant
            j <= n,
            n == types@.len(),
            n > 1,
            op.types == Some(*types),
            missing_type_in(*op, nwtypes@, 0) == missing_type_in(*op, nwtypes@, j as int),
        decreases n - j,
    {
        let t = types[j];
        let known = if (t as usize) < nwtypes.len() {
            nwtypes[t as usize].is_some()
        } else {
            false
        };
        if !known {
            return Some(t);
        }
        j += 1;
    }
    None
}

/// Looks for an instruction of several types with a legal type that the
/// stack-type table has no entry for.
pub fn check_variant_types(opcodes: &[Option<Opcode>], nwtypes: &[Option<NWType>]) -> (r: Result<
    (),
    TableFault,
>)
    ensures
        match r {
            Ok(_) => missing_variant_type(opcodes@, nwtypes@, 0) is None,
            Err(f) => missing_variant_type(opcodes@, nwtypes@, 0) == Some(f),
        },
{
    let n = opcodes.len();
    let mut i: usize = 0;
    while i < n
        invariant
            i <= n,
            n == opcodes@.len(),
            missing_variant_type(opcodes@, nwtypes@, 0) == missing_variant_type(
                opcodes@,
                nwtypes@,
                i as int,
            ),
        decreases n - i,
    {
        match &opcodes[i] {
            Some(op) => match find_missing_type(op, nwtypes) {
                Some(t) => {
                    return Err(TableFault::VariantTypeNotFound { type_byte: t, opcode: op.code });
                },
                None => {},
            },
            None => {},
        }
        i += 1;
    }
    Ok(())
}

/// Where the byte count stands in the instruction in slot `index` of the
/// opcode table, under the given type.
fn find_total_slot(
    opcodes: &[Option<Opcode>],
    index: usize,
    type_byte: Option<u8>,
    number: usize,
) -> (r: Result<(usize, usize), AssemblyError>)
    requires
        index < opcodes@.len(),
        opcodes@[index as int] is Some,
    ensures
        ({
            let op = opcodes@[index as int]->0;
            let list = op.operands(list_key(type_byte));
            match r {
                Ok((at, width)) => op.code == OpcodeE::T && list.len() > 0 && visible(list, 0)
                    && list[0] == Operand::Size(width) && (width == 1 || width == 2 || width == 4)
                    && at == head_bytes(op, type_byte).len(),
                Err(e) => if op.code != OpcodeE::T {
                    e == AssemblyError::ParseError(ParseFault::FirstNotT, number)
                } else {
                    e == AssemblyError::TableError(TableFault::TotalWithoutSize) && !(list.len() > 0
                        && visible(list, 0) && list[0] is Size && (list[0]->Size_0 == 1
                        || list[0]->Size_0 == 2 || list[0]->Size_0 == 4))
                },
            }
        }),
{
    let op = match &opcodes[index] {
        Some(op) => op,
        None => {
            return Err(AssemblyError::ParseError(ParseFault::FirstNotT, number));
        },
    };
    match op.code {
        OpcodeE::T => {},
        _ => {
            return Err(AssemblyError::ParseError(ParseFault::FirstNotT, number));
        },
    }
    let (key, at): (u8, usize) = match type_byte {
        Some(t) => (t, 2),
        None => (0, 1),
    };
    match operand_list_of(op, key) {
        Some(list) => {
            if list.len() > 0 && is_visible(list, 0) {
                match list[0] {
                    Operand::Size(w) => if w == 1 || w == 2 || w == 4 {
                        return Ok((at, w));
                    },
                    _ => {},
                }
            }
            Err(AssemblyError::TableError(TableFault::TotalWithoutSize))
        },
        None => Err(AssemblyError::TableError(TableFault::TotalWithoutSize)),
    }
}

/// The bytes of an operand that is an unsigned number are as many as its size.
proof fn lemma_unsigned_bytes_len(size: usize, prefix: Option<Seq<u8>>, base: nat, s: Seq<u8>)
    ensures
        unsigned_bytes(size, prefix, base, s) is Ok ==> unsigned_bytes(
            size,
            prefix,
            base,
            s,
        )->Ok_0.len() == size,
{
    if unsigned_bytes(size, prefix, base, s) is Ok {
        let v = parse_in_range(without_prefix(prefix, s), base, 0, span(size as nat) - 1)->0;
        lemma_be_bytes_len(v as nat, size as nat);
    }
}

/// What `encode_operands` gives starts with what it was given.
proof fn lemma_encode_prefix(
    list: Seq<Operand>,
    tokens: Seq<Seq<u8>>,
    routines: Map<u16, Routine>,
    floats: Seq<FloatText>,
    i: int,
    k: int,
    acc: Seq<u8>,
)
    requires
        0 <= i,
    ensures
        encode_operands(list, tokens, routines, floats, i, k, acc) is Ok ==> ({
            let b = encode_operands(list, tokens, routines, floats, i, k, acc)->Ok_0;
            acc.len() <= b.len() && b.subrange(0, acc.len() as int) == acc
        }),
    decreases list.len() - i,
{
    reveal(encode_operands);
    if i < list.len() {
        if !visible(list, i) {
            lemma_encode_prefix(list, tokens, routines, floats, i + 1, k, acc);
        } else {
            match operand_bytes(list[i], tokens[k], routines, floats) {
                Err(e) => {},
                Ok(b) => {
                    lemma_encode_prefix(list, tokens, routines, floats, i + 1, k + 1, acc + b);
                    if encode_operands(list, tokens, routines, floats, i, k, acc) is Ok {
                        let r = encode_operands(list, tokens, routines, floats, i, k, acc)->Ok_0;
                        assert(r.subrange(0, acc.len() as int) =~= r.subrange(
                            0,
                            (acc + b).len() as int,
                        ).subrange(0, acc.len() as int));
                        assert((acc + b).subrange(0, acc.len() as int) =~= acc);
                    }
                },
            }
        }
    } else {
        assert(acc.subrange(0, acc.len() as int) =~= acc);
    }
}

/// The bytes of the `T` line reach behind its size operand.
pub proof fn lemma_total_slot_inside(
    tokens: Seq<Seq<u8>>,
    number: usize,
    opcodes: Seq<Option<Opcode>>,
    nwtypes: Seq<Option<NWType>>,
    routines: Map<u16, Routine>,
    floats: Seq<FloatText>,
)
    requires
        tokens_bytes(tokens, number, opcodes, nwtypes, routines, floats) is Ok,
        total_slot(tokens, number, opcodes, nwtypes) is Ok,
    ensures
        total_slot(tokens, number, opcodes, nwtypes)->Ok_0.at + total_slot(
            tokens,
            number,
            opcodes,
            nwtypes,
        )->Ok_0.width <= tokens_bytes(
            tokens,
            number,
            opcodes,
            nwtypes,
            routines,
            floats,
        )->Ok_0.len(),
        total_slot(tokens, number, opcodes, nwtypes)->Ok_0.at >= 1,
{
    let r = resolve(tokens, opcodes, nwtypes, number)->Ok_0;
    let op = opcodes[r.index]->0;
    let list = op.operands(list_key(r.type_byte));
    let head = head_bytes(op, r.type_byte);
    lemma_encode_step(list, tokens, routines, floats, 0, r.first, head);
    let size = list[0]->Size_0;
    lemma_unsigned_bytes_len(size, Some(hex_prefix()), 16, tokens[r.first]);
    let b = operand_bytes(list[0], tokens[r.first], routines, floats)->Ok_0;
    lemma_encode_prefix(list, tokens, routines, floats, 1, r.first + 1, head + b);
}

/// Turns a program of assembly text into bytecode.
pub fn assemble(
    text: &[u8],
    opcodes: &[Option<Opcode>],
    routines: Option<&HashMap<u16, Routine>>,
    floats: &[FloatText],
) -> (r: Result<Vec<u8>, AssemblyError>)
    ensures
        match r {
            Ok(b) => assembly(text@, opcodes@, routines_of(routines), floats@) == Ok::<
                Seq<u8>,
                AssemblyError,
            >(b@),
            Err(e) => assembly(text@, opcodes@, routines_of(routines), floats@) == Err::<
                Seq<u8>,
                AssemblyError,
            >(e),
        },
{
    let none: HashMap<u16, Routine> = HashMap::new();
    let table: &HashMap<u16, Routine> = match routines {
        Some(m) => m,
        None => &none,
    };
    let ghost target = assembly(text@, opcodes@, table@, floats@);
    let nwtypes = get_nwtypes();
    match check_variant_types(opcodes, nwtypes.as_slice()) {
        Ok(_) => {},
        Err(f) => {
            return Err(AssemblyError::TableError(f));
        },
    }
    let lines = split_lines(text);
    let ghost views = token_views(lines@);
    let ghost goal = assemble_lines(
        views,
        opcodes@,
        nwtypes@,
        table@,
        floats@,
        0,
        None,
        Seq::empty(),
    );
    let mut body: Vec<u8> = Vec::new();
    let mut slot: Option<(usize, usize, usize)> = None;
    let n = lines.len();
    let mut i: usize = 0;
    while i < n
        invariant
            i <= n,
            n == lines@.len(),
            views == token_views(lines@),
            target == assembly(text@, opcodes@, routines_of(routines), floats@),
            target == match goal {
                Err(e) => Err::<Seq<u8>, AssemblyError>(e),
                Ok((body, None)) => Err(AssemblyError::ParseError(ParseFault::FirstNotT, 0)),
                Ok((body, Some(slot))) => {
                    let total = header().len() + body.len();
                    if total >= span(slot.width) {
                        Err(AssemblyError::ParseError(ParseFault::TooLarge, slot.line))
                    } else {
                        Ok(
                            header() + body.subrange(0, slot.at) + be_bytes(total, slot.width)
                                + body.subrange(slot.at + slot.width, body.len() as int),
                        )
                    }
                },
            },
            match slot {
                Some((at, width, line)) => 1 <= at && at + width <= body@.len() && (width == 1
                    || width == 2 || width == 4),
                None => true,
            },
            goal == assemble_lines(
                views,
                opcodes@,
                nwtypes@,
                table@,
                floats@,
                i as int,
                match slot {
                    Some((at, width, line)) => Some(
                        Slot { at: at as int, width: width as nat, line },
                    ),
                    None => None,
                },
                body@,
            ),
        decreases n - i,
    {
        let number = i + 1;
        proof {
            assert(views[i as int] == lines@[i as int]@);
        }
        let tokens = match split_line(lines[i].as_slice()) {
            Ok(tokens) => tokens,
            Err(f) => {
                return Err(AssemblyError::ParseError(f, number));
            },
        };
        if tokens.len() > 0 {
            let (bytes, index, type_byte) = assemble_tokens(
                &tokens,
                number,
                opcodes,
                nwtypes.as_slice(),
                table,
                floats,
            )?;
            if slot.is_none() {
                let (at, width) = find_total_slot(opcodes, index, type_byte, number)?;
                proof {
                    lemma_total_slot_inside(
                        token_views(tokens@),
                        number,
                        opcodes@,
                        nwtypes@,
                        table@,
                        floats@,
                    );
                }
                slot = Some((at, width, number));
            }
            push_bytes(&mut body, bytes.as_slice());
        }
        i += 1;
    }
    let (at, width, line) = match slot {
        Some(found) => found,
        None => {
            return Err(AssemblyError::ParseError(ParseFault::FirstNotT, 0));
        },
    };
    proof {
        lemma_span_values();
    }
    let size = body.len();
    if size > 0xFFFF_FFFF - 8 {
        return Err(AssemblyError::ParseError(ParseFault::TooLarge, line));
    }
    let total = match uint_to_bytes((size + 8) as u32, width) {
        Some(total) => total,
        None => {
            return Err(AssemblyError::ParseError(ParseFault::TooLarge, line));
        },
    };
    let mut out: Vec<u8> = Vec::new();
    out.push(0x4E);
    out.push(0x43);
    out.push(0x53);
    out.push(0x20);
    out.push(0x56);
    out.push(0x31);
    out.push(0x2E);
    out.push(0x30);
    proof {
        assert(out@ =~= header());
    }
    push_bytes(&mut out, slice_subrange(body.as_slice(), 0, at));
    push_bytes(&mut out, total.as_slice());
    push_bytes(&mut out, slice_subrange(body.as_slice(), at + width, size));
    Ok(out)
}

} // verus!
