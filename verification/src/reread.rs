//! Text that is read again: what the assembler makes of the lines that the
//! disassembler wrote.

use crate::assemble::{
    assemble_lines, assembly, encode_operands, find_opcode, find_variant, head_bytes, header,
    hex_prefix, is_comment, lemma_encode_done, lemma_encode_step, lemma_lex_start, lex, lex_step,
    line_bytes, lines_of, list_key, missing_variant_type, offset_prefix, operand_bytes, position,
    resolve, signed_bytes, tokens_bytes, tokens_of, total_slot, unescape, unsigned_bytes, visible,
    visible_count, AssemblyError, Lexer, ParseFault, Resolved, Slot,
};
use crate::disassemble::{
    column_width, declared_total, decode_op, disassembly, header_line, lemma_decode_len, pad_to,
    render_head, render_line, render_operand, render_operands, render_program, signed_width,
    single_typed, type_entry, unsigned_width, DisassemblyError, GUTTER, HEADER_BYTES,
};
use crate::io_utils::{
    be_bytes, be_signed, be_value, lemma_be_bytes_of_value, lemma_be_value_bound,
    lemma_span_values, span, unsigned_of,
};
use crate::opcodes::{builtin_nwtypes, is_word, lemma_mnemonic_word, Instr, NWType, Opcode, Operand};
use crate::roundtrip::{
    by_code, encode_instr, items_bytes, law_encode_decode, legal_instr, legal_item, size_before,
};
use crate::text::{
    dec_digits, decimal_text, hex_digits, hex_fixed, hex_span, hex_text, hex_text_fixed, is_plain,
    lemma_dec_digits, lemma_hex_digits, lemma_hex_fixed, lemma_parse_decimal, lemma_parse_digits,
    lemma_strip_prefix, spaces, AT, BACKSLASH, HASH, NEWLINE, QUESTION, QUOTE, SEMICOLON,
};
use crate::{float_bits_of, float_text_of, FloatText, Routine};
use vstd::prelude::*;

verus! {

/// Whether `s` holds no `"`, no `\` and no line feed: what a string can
/// hold and be read again as it stands.
pub open spec fn is_quotable(s: Seq<u8>) -> bool {
    forall|i: int|
        0 <= i < s.len() ==> #[trigger] s[i] != QUOTE && s[i] != BACKSLASH && s[i] != NEWLINE
}

/// Whether `s` holds no `#`.
pub open spec fn is_hashless(s: Seq<u8>) -> bool {
    forall|i: int| 0 <= i < s.len() ==> #[trigger] s[i] != HASH
}

/// Whether `tok` is read as one token: it is not empty, and either plain or
/// a string between `"` without `"` or `\` in it.
pub open spec fn is_token(tok: Seq<u8>) -> bool {
    tok.len() >= 1 && (is_plain(tok) || (tok.len() >= 2 && tok[0] == QUOTE && tok[tok.len() - 1]
        == QUOTE && is_quotable(tok.subrange(1, tok.len() - 1))))
}

/// Whether operand `i` of `instr` is written so that it can be read again:
/// a string holds neither `"` nor `\`, and stands behind a size of two
/// bytes; the name of a routine is plain and without `#`; the text of a
/// float is a plain token that the float table leads back to the float.
pub open spec fn readable_operand(
    instr: Instr,
    i: int,
    routines: Map<u16, Routine>,
    floats: Seq<FloatText>,
) -> bool {
    let o = instr.items[i].0;
    let bytes = instr.items[i].1;
    match o {
        Operand::String => is_quotable(bytes) && i > 0 && instr.items[i - 1].0 == Operand::Size(
            2,
        ),
        Operand::Routine(_) => {
            let id = (be_value(bytes) % 0x1_0000) as u16;
            routines.contains_key(id) ==> is_plain(routines[id].name@) && is_hashless(
                routines[id].name@,
            )
        },
        Operand::Float(_) => {
            let bits = be_value(bytes) as u32;
            match float_text_of(floats, bits) {
                Some(t) => t.len() >= 1 && is_plain(t) && float_bits_of(floats, t) == Some(bits),
                None => true,
            }
        },
        _ => true,
    }
}

/// The bytes that operand `i` must be read back as: its own, and before
/// them those of the size that a string stands behind.
pub open spec fn reread_bytes(instr: Instr, i: int) -> Seq<u8> {
    if instr.items[i].0 is String && i > 0 {
        instr.items[i - 1].1 + instr.items[i].1
    } else {
        instr.items[i].1
    }
}

/// Text without `\` is its own unescaped form.
proof fn lemma_unescape_plain(s: Seq<u8>)
    requires
        is_quotable(s),
    ensures
        unescape(s) == s,
    decreases s.len(),
{
    if s.len() > 0 {
        let rest = s.drop_first();
        assert forall|i: int| 0 <= i < rest.len() implies #[trigger] rest[i] != QUOTE && rest[i]
            != BACKSLASH && rest[i] != NEWLINE by {
            assert(rest[i] == s[i + 1]);
        }
        lemma_unescape_plain(rest);
        assert(s[0] != BACKSLASH);
        assert(seq![s[0]] + rest =~= s);
    } else {
        assert(unescape(s) =~= s);
    }
}

/// The first `b` of a text stands behind what holds none.
proof fn lemma_position(a: Seq<u8>, b: u8, c: Seq<u8>, i: int)
    requires
        0 <= i <= a.len(),
        forall|k: int| 0 <= k < a.len() ==> a[k] != b,
    ensures
        position(a + seq![b] + c, b, i) == Some(a.len() as int),
    decreases a.len() - i,
{
    let s = a + seq![b] + c;
    if i < a.len() {
        assert(s[i] == a[i]);
        lemma_position(a, b, c, i + 1);
    } else {
        assert(s[i] == b);
    }
}

/// 16 to the power 8 is 256 to the power 4.
proof fn lemma_hex_span_8()
    ensures
        hex_span(8) == 0x1_0000_0000,
{
    reveal_with_fuel(hex_span, 9);
}

/// A number below the span of its width, written in hexadecimal behind `0x`
/// in either form, is read back as the bytes that spell it.
proof fn lemma_reread_hex(bytes: Seq<u8>, fixed: bool)
    requires
        unsigned_width(bytes.len()),
    ensures
        ({
            let tok = if fixed {
                hex_text_fixed(be_value(bytes), 8)
            } else {
                hex_text(be_value(bytes))
            };
            &&& unsigned_bytes(bytes.len() as usize, Some(hex_prefix()), 16, tok) == Ok::<
                Seq<u8>,
                crate::assemble::ParseFault,
            >(bytes)
            &&& is_plain(tok)
            &&& is_hashless(tok)
            &&& tok.len() >= 1
        }),
{
    let v = be_value(bytes);
    let w = bytes.len();
    lemma_be_value_bound(bytes);
    lemma_span_values();
    lemma_be_bytes_of_value(bytes);
    let digits = if fixed {
        hex_fixed(v, 8)
    } else {
        hex_digits(v)
    };
    let tok = hex_prefix() + digits;
    lemma_strip_prefix(hex_prefix(), digits);
    if fixed {
        lemma_hex_fixed(v, 8);
        lemma_hex_span_8();
        assert(v % hex_span(8) == v) by (nonlinear_arith)
            requires
                v < 0x1_0000_0000,
                hex_span(8) == 0x1_0000_0000,
        ;
        lemma_fixed_hashless(v, 8);
    } else {
        lemma_hex_digits(v);
    }
    lemma_parse_digits(digits, 16, 0, span(w) - 1);
    assert(is_plain(tok)) by {
        assert forall|i: int| 0 <= i < tok.len() implies !(#[trigger] tok[i] == crate::text::SPACE
            || (0x09 <= tok[i] <= 0x0D) || tok[i] == QUOTE || tok[i] == BACKSLASH) by {
            if i >= 2 {
                assert(tok[i] == digits[i - 2]);
            }
        }
    }
    assert(is_hashless(tok)) by {
        assert forall|i: int| 0 <= i < tok.len() implies #[trigger] tok[i] != HASH by {
            if i >= 2 {
                assert(tok[i] == digits[i - 2]);
            }
        }
    }
}

/// Hexadecimal digits hold no `#`.
proof fn lemma_fixed_hashless(v: nat, width: nat)
    ensures
        is_hashless(hex_fixed(v, width)),
    decreases width,
{
    if width > 0 {
        lemma_fixed_hashless(v / 16, (width - 1) as nat);
        crate::text::lemma_digit_char(v % 16);
        let rest = hex_fixed(v / 16, (width - 1) as nat);
        assert forall|i: int| 0 <= i < hex_fixed(v, width).len() implies #[trigger] hex_fixed(
            v,
            width,
        )[i] != HASH by {
            if i < rest.len() {
                assert(hex_fixed(v, width)[i] == rest[i]);
            }
        }
    }
}

/// A signed number written in decimal, behind `@` or not, is read back as
/// the bytes that spell it.
proof fn lemma_reread_decimal(bytes: Seq<u8>, prefixed: bool)
    requires
        signed_width(bytes.len()),
    ensures
        ({
            let tok = if prefixed {
                seq![AT] + decimal_text(be_signed(bytes))
            } else {
                decimal_text(be_signed(bytes))
            };
            &&& signed_bytes(
                bytes.len() as usize,
                if prefixed {
                    Some(offset_prefix())
                } else {
                    None
                },
                10,
                tok,
            ) == Ok::<Seq<u8>, crate::assemble::ParseFault>(bytes)
            &&& is_plain(tok)
            &&& tok.len() >= 1
        }),
{
    let w = bytes.len();
    lemma_be_value_bound(bytes);
    lemma_span_values();
    lemma_be_bytes_of_value(bytes);
    let v = be_signed(bytes);
    let text = decimal_text(v);
    lemma_parse_decimal(v, -(span(w) / 2), span(w) / 2 - 1);
    assert(unsigned_of(v, w) == be_value(bytes));
    if prefixed {
        lemma_strip_prefix(offset_prefix(), text);
        let tok = seq![AT] + text;
        assert(tok =~= offset_prefix() + text);
        assert(is_plain(tok)) by {
            assert forall|i: int| 0 <= i < tok.len() implies !(#[trigger] tok[i]
                == crate::text::SPACE || (0x09 <= tok[i] <= 0x0D) || tok[i] == QUOTE || tok[i]
                == BACKSLASH) by {
                if i >= 1 {
                    assert(tok[i] == text[i - 1]);
                }
            }
        }
    }
}

/// An unsigned number written in decimal is read back as the bytes that
/// spell it.
proof fn lemma_reread_count(bytes: Seq<u8>)
    requires
        unsigned_width(bytes.len()),
    ensures
        unsigned_bytes(bytes.len() as usize, None, 10, dec_digits(be_value(bytes))) == Ok::<
            Seq<u8>,
            crate::assemble::ParseFault,
        >(bytes),
        is_plain(dec_digits(be_value(bytes))),
        dec_digits(be_value(bytes)).len() >= 1,
{
    let v = be_value(bytes);
    lemma_be_value_bound(bytes);
    lemma_span_values();
    lemma_be_bytes_of_value(bytes);
    lemma_dec_digits(v);
    lemma_parse_digits(dec_digits(v), 10, 0, span(bytes.len()) - 1);
}

/// A size is read back.
proof fn lemma_reread_size(instr: Instr, i: int, routines: Map<u16, Routine>, floats: Seq<FloatText>)
    requires
        0 <= i < instr.items.len(),
        legal_item(instr.items, i),
        i > 0 ==> legal_item(instr.items, i - 1),
        readable_operand(instr, i, routines, floats),
        render_operand(instr, i, routines, floats, false) is Ok,
        render_operand(instr, i, routines, floats, false)->Ok_0 is Some,
        instr.items[i].0 is Size,
    ensures
        ({
            let tok = render_operand(instr, i, routines, floats, false)->Ok_0->0;
            &&& is_token(tok)
            &&& operand_bytes(instr.items[i].0, tok, routines, floats) == Ok::<
                Seq<u8>,
                crate::assemble::ParseFault,
            >(reread_bytes(instr, i))
        }),
{
    let o = instr.items[i].0;
    let bytes = instr.items[i].1;
    let tok = render_operand(instr, i, routines, floats, false)->Ok_0->0;
    let empty = Seq::<u8>::empty();
    lemma_span_values();
    lemma_reread_hex(bytes, !instr.op.typed());
    assert(empty + hex_text(be_value(bytes)) =~= hex_text(be_value(bytes)));
}

/// An object is read back.
proof fn lemma_reread_object(instr: Instr, i: int, routines: Map<u16, Routine>, floats: Seq<FloatText>)
    requires
        0 <= i < instr.items.len(),
        legal_item(instr.items, i),
        i > 0 ==> legal_item(instr.items, i - 1),
        readable_operand(instr, i, routines, floats),
        render_operand(instr, i, routines, floats, false) is Ok,
        render_operand(instr, i, routines, floats, false)->Ok_0 is Some,
        instr.items[i].0 is Object,
    ensures
        ({
            let tok = render_operand(instr, i, routines, floats, false)->Ok_0->0;
            &&& is_token(tok)
            &&& operand_bytes(instr.items[i].0, tok, routines, floats) == Ok::<
                Seq<u8>,
                crate::assemble::ParseFault,
            >(reread_bytes(instr, i))
        }),
{
    let o = instr.items[i].0;
    let bytes = instr.items[i].1;
    let tok = render_operand(instr, i, routines, floats, false)->Ok_0->0;
    let empty = Seq::<u8>::empty();
    lemma_span_values();
    lemma_reread_hex(bytes, false);
    assert(empty + hex_text(be_value(bytes)) =~= hex_text(be_value(bytes)));
}

/// A routine is read back by the code behind its name.
proof fn lemma_reread_routine(instr: Instr, i: int, routines: Map<u16, Routine>, floats: Seq<FloatText>)
    requires
        0 <= i < instr.items.len(),
        legal_item(instr.items, i),
        i > 0 ==> legal_item(instr.items, i - 1),
        readable_operand(instr, i, routines, floats),
        render_operand(instr, i, routines, floats, false) is Ok,
        render_operand(instr, i, routines, floats, false)->Ok_0 is Some,
        instr.items[i].0 is Routine,
    ensures
        ({
            let tok = render_operand(instr, i, routines, floats, false)->Ok_0->0;
            &&& is_token(tok)
            &&& operand_bytes(instr.items[i].0, tok, routines, floats) == Ok::<
                Seq<u8>,
                crate::assemble::ParseFault,
            >(reread_bytes(instr, i))
        }),
{
    let o = instr.items[i].0;
    let bytes = instr.items[i].1;
    let tok = render_operand(instr, i, routines, floats, false)->Ok_0->0;
    let empty = Seq::<u8>::empty();
    lemma_span_values();
    let v = be_value(bytes);
    let id = (v % 0x1_0000) as u16;
    lemma_reread_hex(bytes, false);
    let hex = hex_text(v);
    let name = if routines.contains_key(id) {
        routines[id].name@
    } else {
        seq![QUESTION, QUESTION, QUESTION]
    };
    assert(tok =~= name + seq![HASH] + hex);
    lemma_position(name, HASH, hex, 0);
    assert(tok.subrange(name.len() as int + 1, tok.len() as int) =~= hex);
    assert(is_plain(tok)) by {
        assert forall|k: int| 0 <= k < tok.len() implies !(#[trigger] tok[k] == crate::text::SPACE
            || (0x09 <= tok[k] <= 0x0D) || tok[k] == QUOTE || tok[k] == BACKSLASH) by {
            if k < name.len() {
                assert(tok[k] == name[k]);
            } else if k > name.len() {
                assert(tok[k] == hex[k - name.len() - 1]);
            }
        }
    }
}

/// A count of arguments is read back.
proof fn lemma_reread_arg_count(instr: Instr, i: int, routines: Map<u16, Routine>, floats: Seq<FloatText>)
    requires
        0 <= i < instr.items.len(),
        legal_item(instr.items, i),
        i > 0 ==> legal_item(instr.items, i - 1),
        readable_operand(instr, i, routines, floats),
        render_operand(instr, i, routines, floats, false) is Ok,
        render_operand(instr, i, routines, floats, false)->Ok_0 is Some,
        instr.items[i].0 is ArgCount,
    ensures
        ({
            let tok = render_operand(instr, i, routines, floats, false)->Ok_0->0;
            &&& is_token(tok)
            &&& operand_bytes(instr.items[i].0, tok, routines, floats) == Ok::<
                Seq<u8>,
                crate::assemble::ParseFault,
            >(reread_bytes(instr, i))
        }),
{
    let o = instr.items[i].0;
    let bytes = instr.items[i].1;
    let tok = render_operand(instr, i, routines, floats, false)->Ok_0->0;
    let empty = Seq::<u8>::empty();
    lemma_span_values();
    lemma_reread_count(bytes);
    assert(empty + dec_digits(be_value(bytes)) =~= dec_digits(be_value(bytes)));
}

/// An offset is read back.
proof fn lemma_reread_offset(instr: Instr, i: int, routines: Map<u16, Routine>, floats: Seq<FloatText>)
    requires
        0 <= i < instr.items.len(),
        legal_item(instr.items, i),
        i > 0 ==> legal_item(instr.items, i - 1),
        readable_operand(instr, i, routines, floats),
        render_operand(instr, i, routines, floats, false) is Ok,
        render_operand(instr, i, routines, floats, false)->Ok_0 is Some,
        instr.items[i].0 is Offset,
    ensures
        ({
            let tok = render_operand(instr, i, routines, floats, false)->Ok_0->0;
            &&& is_token(tok)
            &&& operand_bytes(instr.items[i].0, tok, routines, floats) == Ok::<
                Seq<u8>,
                crate::assemble::ParseFault,
            >(reread_bytes(instr, i))
        }),
{
    let o = instr.items[i].0;
    let bytes = instr.items[i].1;
    let tok = render_operand(instr, i, routines, floats, false)->Ok_0->0;
    let empty = Seq::<u8>::empty();
    lemma_span_values();
    lemma_reread_decimal(bytes, true);
    assert(empty + seq![AT] + decimal_text(be_signed(bytes)) =~= seq![AT] + decimal_text(
        be_signed(bytes),
    ));
}

/// An integer is read back.
proof fn lemma_reread_integer(instr: Instr, i: int, routines: Map<u16, Routine>, floats: Seq<FloatText>)
    requires
        0 <= i < instr.items.len(),
        legal_item(instr.items, i),
        i > 0 ==> legal_item(instr.items, i - 1),
        readable_operand(instr, i, routines, floats),
        render_operand(instr, i, routines, floats, false) is Ok,
        render_operand(instr, i, routines, floats, false)->Ok_0 is Some,
        instr.items[i].0 is Integer,
    ensures
        ({
            let tok = render_operand(instr, i, routines, floats, false)->Ok_0->0;
            &&& is_token(tok)
            &&& operand_bytes(instr.items[i].0, tok, routines, floats) == Ok::<
                Seq<u8>,
                crate::assemble::ParseFault,
            >(reread_bytes(instr, i))
        }),
{
    let o = instr.items[i].0;
    let bytes = instr.items[i].1;
    let tok = render_operand(instr, i, routines, floats, false)->Ok_0->0;
    let empty = Seq::<u8>::empty();
    lemma_span_values();
    lemma_reread_decimal(bytes, false);
    assert(empty + decimal_text(be_signed(bytes)) =~= decimal_text(be_signed(bytes)));
}

/// A float is read back by the float table.
proof fn lemma_reread_float(instr: Instr, i: int, routines: Map<u16, Routine>, floats: Seq<FloatText>)
    requires
        0 <= i < instr.items.len(),
        legal_item(instr.items, i),
        i > 0 ==> legal_item(instr.items, i - 1),
        readable_operand(instr, i, routines, floats),
        render_operand(instr, i, routines, floats, false) is Ok,
        render_operand(instr, i, routines, floats, false)->Ok_0 is Some,
        instr.items[i].0 is Float,
    ensures
        ({
            let tok = render_operand(instr, i, routines, floats, false)->Ok_0->0;
            &&& is_token(tok)
            &&& operand_bytes(instr.items[i].0, tok, routines, floats) == Ok::<
                Seq<u8>,
                crate::assemble::ParseFault,
            >(reread_bytes(instr, i))
        }),
{
    let o = instr.items[i].0;
    let bytes = instr.items[i].1;
    let tok = render_operand(instr, i, routines, floats, false)->Ok_0->0;
    let empty = Seq::<u8>::empty();
    lemma_span_values();
    let bits = be_value(bytes) as u32;
    let t = float_text_of(floats, bits)->0;
    assert(empty + t =~= t);
    lemma_be_value_bound(bytes);
    lemma_be_bytes_of_value(bytes);
}

/// A string is read back with its length before it.
proof fn lemma_reread_string(instr: Instr, i: int, routines: Map<u16, Routine>, floats: Seq<FloatText>)
    requires
        0 <= i < instr.items.len(),
        legal_item(instr.items, i),
        i > 0 ==> legal_item(instr.items, i - 1),
        readable_operand(instr, i, routines, floats),
        render_operand(instr, i, routines, floats, false) is Ok,
        render_operand(instr, i, routines, floats, false)->Ok_0 is Some,
        instr.items[i].0 is String,
    ensures
        ({
            let tok = render_operand(instr, i, routines, floats, false)->Ok_0->0;
            &&& is_token(tok)
            &&& operand_bytes(instr.items[i].0, tok, routines, floats) == Ok::<
                Seq<u8>,
                crate::assemble::ParseFault,
            >(reread_bytes(instr, i))
        }),
{
    let o = instr.items[i].0;
    let bytes = instr.items[i].1;
    let tok = render_operand(instr, i, routines, floats, false)->Ok_0->0;
    let empty = Seq::<u8>::empty();
    lemma_span_values();
    let size = instr.items[i - 1].1;
    assert(tok =~= seq![QUOTE] + bytes + seq![QUOTE]);
    assert(tok.subrange(1, tok.len() - 1) =~= bytes);
    lemma_unescape_plain(bytes);
    assert(size_before(instr.items, i) == Some(be_value(size)));
    lemma_be_value_bound(size);
    lemma_be_bytes_of_value(size);
}

/// The text of an operand, as `render_operand` writes it without a gutter,
/// is one token, and `operand_bytes` reads it back as the operand's bytes.
pub proof fn law_operand_reread(
    instr: Instr,
    i: int,
    routines: Map<u16, Routine>,
    floats: Seq<FloatText>,
)
    requires
        0 <= i < instr.items.len(),
        legal_item(instr.items, i),
        i > 0 ==> legal_item(instr.items, i - 1),
        readable_operand(instr, i, routines, floats),
        render_operand(instr, i, routines, floats, false) is Ok,
        render_operand(instr, i, routines, floats, false)->Ok_0 is Some,
    ensures
        ({
            let tok = render_operand(instr, i, routines, floats, false)->Ok_0->0;
            &&& is_token(tok)
            &&& operand_bytes(instr.items[i].0, tok, routines, floats) == Ok::<
                Seq<u8>,
                crate::assemble::ParseFault,
            >(reread_bytes(instr, i))
        }),
{
    match instr.items[i].0 {
        Operand::Size(_) => lemma_reread_size(instr, i, routines, floats),
        Operand::Object(_) => lemma_reread_object(instr, i, routines, floats),
        Operand::Routine(_) => lemma_reread_routine(instr, i, routines, floats),
        Operand::ArgCount(_) => lemma_reread_arg_count(instr, i, routines, floats),
        Operand::Offset(_) => lemma_reread_offset(instr, i, routines, floats),
        Operand::Integer(_) => lemma_reread_integer(instr, i, routines, floats),
        Operand::Float(_) => lemma_reread_float(instr, i, routines, floats),
        Operand::String => lemma_reread_string(instr, i, routines, floats),
    }
}

/// The tokenizer behind the whole of `line`.
pub open spec fn scan(line: Seq<u8>) -> Lexer {
    lex(line, line.len() as int)
}

/// Whether the tokenizer ends `line` outside a string and not behind a `\`.
pub open spec fn settled(line: Seq<u8>) -> bool {
    !scan(line).escape && !scan(line).quoted
}

/// Whether `line` ends between tokens: it is empty, or ends with a separator.
pub open spec fn at_gap(line: Seq<u8>) -> bool {
    scan(line).start == line.len()
}

/// The tokens of `line`, the one that it ends in among them.
pub open spec fn pending(line: Seq<u8>) -> Seq<Seq<u8>> {
    if scan(line).start < line.len() {
        scan(line).tokens.push(line.subrange(scan(line).start, line.len() as int))
    } else {
        scan(line).tokens
    }
}

/// What the tokenizer makes of the start of a line does not depend on what
/// follows.
proof fn lemma_lex_prefix(a: Seq<u8>, b: Seq<u8>, n: int)
    requires
        0 <= n <= a.len(),
    ensures
        lex(a + b, n) == lex(a, n),
    decreases n,
{
    if n > 0 {
        lemma_lex_prefix(a, b, n - 1);
        lemma_lex_start(a, n - 1);
        let st = lex(a, n - 1);
        assert((a + b)[n - 1] == a[n - 1]);
        assert((a + b).subrange(st.start, n - 1) =~= a.subrange(st.start, n - 1));
    }
}

/// One more byte takes the tokenizer one step on.
proof fn lemma_scan_push(line: Seq<u8>, c: u8)
    ensures
        scan(line.push(c)) == lex_step(line.push(c), scan(line), line.len() as int),
{
    assert(line.push(c) =~= line + seq![c]);
    lemma_lex_prefix(line, seq![c], line.len() as int);
}

/// Plain text behind a settled line leaves the tokenizer where it was.
proof fn lemma_scan_plain(line: Seq<u8>, tok: Seq<u8>)
    requires
        settled(line),
        is_plain(tok),
    ensures
        scan(line + tok) == scan(line),
    decreases tok.len(),
{
    if tok.len() == 0 {
        assert(line + tok =~= line);
    } else {
        let head = tok.drop_last();
        let c = tok.last();
        assert(is_plain(head)) by {
            assert forall|i: int| 0 <= i < head.len() implies !(#[trigger] head[i]
                == crate::text::SPACE || (0x09 <= head[i] <= 0x0D) || head[i] == QUOTE || head[i]
                == BACKSLASH) by {
                assert(head[i] == tok[i]);
            }
        }
        lemma_scan_plain(line, head);
        assert(line + tok =~= (line + head).push(c));
        lemma_scan_push(line + head, c);
        assert(c == tok[tok.len() - 1]);
    }
}

/// Text without `"` and `\` inside a string leaves the tokenizer where it was.
proof fn lemma_scan_inside(line: Seq<u8>, inner: Seq<u8>)
    requires
        !scan(line).escape,
        scan(line).quoted,
        is_quotable(inner),
    ensures
        scan(line + inner) == scan(line),
    decreases inner.len(),
{
    if inner.len() == 0 {
        assert(line + inner =~= line);
    } else {
        let head = inner.drop_last();
        let c = inner.last();
        assert(is_quotable(head)) by {
            assert forall|i: int| 0 <= i < head.len() implies #[trigger] head[i] != QUOTE
                && head[i] != BACKSLASH && head[i] != NEWLINE by {
                assert(head[i] == inner[i]);
            }
        }
        lemma_scan_inside(line, head);
        assert(line + inner =~= (line + head).push(c));
        lemma_scan_push(line + head, c);
        assert(c == inner[inner.len() - 1]);
    }
}

/// A token behind a settled line leaves the tokenizer where it was.
proof fn lemma_scan_token(line: Seq<u8>, tok: Seq<u8>)
    requires
        settled(line),
        is_token(tok),
    ensures
        scan(line + tok) == scan(line),
{
    if is_plain(tok) {
        lemma_scan_plain(line, tok);
    } else {
        let inner = tok.subrange(1, tok.len() - 1);
        let opened = line.push(QUOTE);
        lemma_scan_push(line, QUOTE);
        lemma_scan_inside(opened, inner);
        lemma_scan_push(opened + inner, QUOTE);
        assert(line + tok =~= (opened + inner).push(QUOTE));
        let st = scan(line);
        assert(scan(opened) == Lexer { quoted: true, ..st });
        assert(scan((opened + inner).push(QUOTE)) == Lexer { quoted: false, ..scan(opened) });
    }
}

/// Spaces behind a settled line end the token that it ends in.
proof fn lemma_scan_spaces(line: Seq<u8>, g: nat)
    requires
        settled(line),
        g >= 1,
    ensures
        scan(line + spaces(g)) == (Lexer {
            escape: false,
            quoted: false,
            start: (line.len() + g) as int,
            tokens: pending(line),
        }),
    decreases g,
{
    lemma_lex_start(line, line.len() as int);
    if g == 1 {
        assert(line + spaces(1) =~= line.push(crate::text::SPACE));
        lemma_scan_push(line, crate::text::SPACE);
        let whole = line.push(crate::text::SPACE);
        assert(whole.subrange(scan(line).start, line.len() as int) =~= line.subrange(
            scan(line).start,
            line.len() as int,
        ));
    } else {
        lemma_scan_spaces(line, (g - 1) as nat);
        let before = line + spaces((g - 1) as nat);
        assert(line + spaces(g) =~= before.push(crate::text::SPACE));
        lemma_scan_push(before, crate::text::SPACE);
    }
}

/// Behind spaces, a line is settled, has the tokens that it had, and ends
/// between tokens if there is a space at all.
proof fn lemma_append_spaces(line: Seq<u8>, g: nat)
    requires
        settled(line),
    ensures
        settled(line + spaces(g)),
        pending(line + spaces(g)) == pending(line),
        g >= 1 || at_gap(line) ==> at_gap(line + spaces(g)),
{
    if g == 0 {
        assert(line + spaces(0) =~= line);
    } else {
        lemma_scan_spaces(line, g);
    }
}

/// Behind a token that follows a separator, a line is settled and has one
/// token more.
proof fn lemma_append_token(line: Seq<u8>, tok: Seq<u8>)
    requires
        settled(line),
        at_gap(line),
        is_token(tok),
    ensures
        settled(line + tok),
        pending(line + tok) == pending(line).push(tok),
        !at_gap(line + tok),
{
    lemma_scan_token(line, tok);
    let whole = line + tok;
    assert(whole.subrange(line.len() as int, whole.len() as int) =~= tok);
}

/// The tokens of a settled line that is no comment are those that the
/// tokenizer has found.
proof fn lemma_tokens_of_settled(line: Seq<u8>)
    requires
        settled(line),
        !is_comment(line),
    ensures
        tokens_of(line) == Ok::<Seq<Seq<u8>>, ParseFault>(pending(line)),
{
}

/// The first token of the line of `instr`: its mnemonic, with the suffix of
/// its type behind it where the instruction has several types.
pub open spec fn head_word(instr: Instr, nwtypes: Seq<Option<NWType>>) -> Seq<u8> {
    let name = instr.op.code.mnemonic();
    match instr.type_byte {
        Some(t) => match type_entry(nwtypes, t) {
            Some(ty) => match ty.suffix() {
                Some(a) => if single_typed(instr.op) {
                    name
                } else {
                    name + a
                },
                None => name,
            },
            None => name,
        },
        None => name,
    }
}

/// Whether the start of the line of `instr` can be read again: the type is
/// told by the mnemonic alone or by a plain suffix, the first token is
/// narrower than the mnemonic column where operands follow, and an
/// instruction without type byte has one operand at most.
pub open spec fn readable_head(instr: Instr, nwtypes: Seq<Option<NWType>>, width: nat) -> bool {
    &&& match instr.type_byte {
        Some(t) => type_entry(nwtypes, t) is Some && (single_typed(instr.op) || (type_entry(
            nwtypes,
            t,
        )->0.suffix() is Some && is_plain(type_entry(nwtypes, t)->0.suffix()->0))),
        None => true,
    }
    &&& instr.items.len() > 0 ==> head_word(instr, nwtypes).len() < width
    &&& !instr.op.typed() ==> instr.items.len() <= 1
}

/// Whether the first token of the line of `instr` selects the instruction
/// and its type in the tables: among the variants, where the instruction
/// has several types, else among the mnemonics.
pub open spec fn names_itself(
    instr: Instr,
    opcodes: Seq<Option<Opcode>>,
    nwtypes: Seq<Option<NWType>>,
) -> bool {
    let word = head_word(instr, nwtypes);
    let index = instr.op.code.code_of() as int;
    if instr.op.legal_types().len() > 1 {
        find_variant(opcodes, nwtypes, word, opcodes.len() as int) == Some(
            (index, instr.type_byte),
        )
    } else {
        find_variant(opcodes, nwtypes, word, opcodes.len() as int) is None && find_opcode(
            opcodes,
            word,
            opcodes.len() as int,
        ) == Some(index)
    }
}

/// Whether the line of `instr` can be read again.
pub open spec fn readable(
    instr: Instr,
    opcodes: Seq<Option<Opcode>>,
    nwtypes: Seq<Option<NWType>>,
    routines: Map<u16, Routine>,
    floats: Seq<FloatText>,
    width: nat,
) -> bool {
    &&& readable_head(instr, nwtypes, width)
    &&& names_itself(instr, opcodes, nwtypes)
    &&& forall|i: int|
        0 <= i < instr.items.len() ==> #[trigger] readable_operand(instr, i, routines, floats)
}

/// The tokens of the operands of `instr` from `i` on.
pub open spec fn tokens_from(
    instr: Instr,
    routines: Map<u16, Routine>,
    floats: Seq<FloatText>,
    i: int,
) -> Seq<Seq<u8>>
    decreases instr.items.len() - i,
{
    if i < 0 || i >= instr.items.len() {
        Seq::empty()
    } else {
        match render_operand(instr, i, routines, floats, false) {
            Ok(Some(t)) => seq![t] + tokens_from(instr, routines, floats, i + 1),
            _ => tokens_from(instr, routines, floats, i + 1),
        }
    }
}

/// What stands before an operand that is written behind a gutter.
pub open spec fn gutter_of(instr: Instr, i: int) -> Seq<u8> {
    if instr.items[i].0 is Size && !instr.op.typed() {
        Seq::empty()
    } else {
        spaces(GUTTER as nat)
    }
}

/// An operand behind a gutter is the gutter and the operand.
proof fn lemma_gutter(
    instr: Instr,
    i: int,
    routines: Map<u16, Routine>,
    floats: Seq<FloatText>,
)
    requires
        0 <= i < instr.items.len(),
    ensures
        match render_operand(instr, i, routines, floats, false) {
            Err(e) => render_operand(instr, i, routines, floats, true) == Err::<
                Option<Seq<u8>>,
                DisassemblyError,
            >(e),
            Ok(None) => render_operand(instr, i, routines, floats, true) == Ok::<
                Option<Seq<u8>>,
                DisassemblyError,
            >(None),
            Ok(Some(t)) => render_operand(instr, i, routines, floats, true) == Ok::<
                Option<Seq<u8>>,
                DisassemblyError,
            >(Some(gutter_of(instr, i) + t)),
        },
{
    let empty = Seq::<u8>::empty();
    let sep = spaces(GUTTER as nat);
    match render_operand(instr, i, routines, floats, false) {
        Ok(Some(t)) => {
            let with = render_operand(instr, i, routines, floats, true)->Ok_0->0;
            if instr.items[i].0 is Size && !instr.op.typed() {
                assert(empty + t =~= t);
            } else {
                assert(with =~= sep + t);
            }
        },
        _ => {},
    }
}

/// An operand is written if and only if it has a token of its own.
proof fn lemma_written_is_visible(
    instr: Instr,
    i: int,
    routines: Map<u16, Routine>,
    floats: Seq<FloatText>,
    list: Seq<Operand>,
)
    requires
        0 <= i < instr.items.len(),
        instr.items.len() == list.len(),
        forall|k: int| 0 <= k < instr.items.len() ==> (#[trigger] instr.items[k]).0 == list[k],
        render_operand(instr, i, routines, floats, false) is Ok,
    ensures
        render_operand(instr, i, routines, floats, false)->Ok_0 is Some <==> visible(list, i),
{
    assert(instr.items[i].0 == list[i]);
    if i + 1 < instr.items.len() {
        assert(instr.items[i + 1].0 == list[i + 1]);
    }
}

/// How many spaces stand before operand `i` where it is written behind a
/// gutter.
pub open spec fn gap_before(instr: Instr, i: int, gutter: bool) -> nat {
    if gutter && !(instr.items[i].0 is Size && !instr.op.typed()) {
        GUTTER as nat
    } else {
        0
    }
}

/// One step of `render_operands`, by the text of the operand without gutter.
proof fn lemma_render_step(
    instr: Instr,
    routines: Map<u16, Routine>,
    floats: Seq<FloatText>,
    i: int,
    gutter: bool,
    text: Seq<u8>,
)
    requires
        0 <= i < instr.items.len(),
    ensures
        render_operands(instr, routines, floats, i, gutter, text) == (match render_operand(
            instr,
            i,
            routines,
            floats,
            false,
        ) {
            Err(e) => Err(e),
            Ok(None) => render_operands(instr, routines, floats, i + 1, gutter, text),
            Ok(Some(t)) => render_operands(
                instr,
                routines,
                floats,
                i + 1,
                true,
                text + spaces(gap_before(instr, i, gutter)) + t,
            ),
        }),
{
    lemma_gutter(instr, i, routines, floats);
    match render_operand(instr, i, routines, floats, false) {
        Ok(Some(t)) => {
            let g = gap_before(instr, i, gutter);
            let written = render_operand(instr, i, routines, floats, gutter)->Ok_0->0;
            if gutter {
                assert(gutter_of(instr, i) =~= spaces(g));
            } else {
                assert(spaces(0) =~= Seq::<u8>::empty());
                assert(spaces(0) + t =~= t);
            }
            assert(written == spaces(g) + t);
            assert(text + written =~= text + spaces(g) + t);
        },
        _ => {},
    }
}

/// The lines of text that `render_operands` writes behind a settled line
/// are settled, and have the tokens of the operands behind those that the
/// line had.
proof fn lemma_render_tokens(
    instr: Instr,
    routines: Map<u16, Routine>,
    floats: Seq<FloatText>,
    i: int,
    gutter: bool,
    text: Seq<u8>,
)
    requires
        0 <= i <= instr.items.len(),
        settled(text),
        i >= instr.items.len() || (gutter && instr.op.typed()) || at_gap(text),
        !instr.op.typed() ==> instr.items.len() <= 1,
        forall|k: int| 0 <= k < instr.items.len() ==> legal_item(instr.items, k),
        forall|k: int|
            0 <= k < instr.items.len() ==> #[trigger] readable_operand(instr, k, routines, floats),
        render_operands(instr, routines, floats, i, gutter, text) is Ok,
    ensures
        settled(render_operands(instr, routines, floats, i, gutter, text)->Ok_0),
        pending(render_operands(instr, routines, floats, i, gutter, text)->Ok_0) == pending(text)
            + tokens_from(instr, routines, floats, i),
    decreases instr.items.len() - i,
{
    if i >= instr.items.len() {
        assert(pending(text) + Seq::<Seq<u8>>::empty() =~= pending(text));
    } else {
        lemma_render_step(instr, routines, floats, i, gutter, text);
        assert(readable_operand(instr, i, routines, floats));
        let step = render_operand(instr, i, routines, floats, false);
        if step is Ok && step->Ok_0 is None {
            lemma_render_tokens(instr, routines, floats, i + 1, gutter, text);
        } else if step is Ok {
            let tok = step->Ok_0->0;
            law_operand_reread(instr, i, routines, floats);
            let g = gap_before(instr, i, gutter);
            let spaced = text + spaces(g);
            lemma_append_spaces(text, g);
            lemma_append_token(spaced, tok);
            let next = spaced + tok;
            lemma_render_tokens(instr, routines, floats, i + 1, true, next);
            assert(pending(text).push(tok) + tokens_from(instr, routines, floats, i + 1)
                =~= pending(text) + (seq![tok] + tokens_from(instr, routines, floats, i + 1)));
        }
    }
}

/// How many spaces stand behind the first token of the line of `instr`.
pub open spec fn head_gap(instr: Instr, nwtypes: Seq<Option<NWType>>, width: nat) -> nat {
    let pad = pad_to(width, instr.op.code.mnemonic().len());
    let more = instr.items.len() > 0;
    match instr.type_byte {
        None => pad,
        Some(t) => if single_typed(instr.op) {
            if more {
                pad
            } else {
                0
            }
        } else {
            let a = type_entry(nwtypes, t)->0.suffix()->0;
            if more && pad >= a.len() {
                (pad - a.len()) as nat
            } else {
                0
            }
        },
    }
}

/// Plain text behind plain text is plain.
proof fn lemma_plain_concat(a: Seq<u8>, b: Seq<u8>)
    requires
        is_plain(a),
        is_plain(b),
    ensures
        is_plain(a + b),
{
    let s = a + b;
    assert forall|i: int| 0 <= i < s.len() implies !(#[trigger] s[i] == crate::text::SPACE || (0x09
        <= s[i] <= 0x0D) || s[i] == QUOTE || s[i] == BACKSLASH) by {
        if i < a.len() {
            assert(s[i] == a[i]);
        } else {
            assert(s[i] == b[i - a.len()]);
        }
    }
}

/// A word is plain.
pub proof fn lemma_word_plain(s: Seq<u8>)
    requires
        is_word(s),
    ensures
        is_plain(s),
{
    assert forall|i: int| 0 <= i < s.len() implies !(#[trigger] s[i] == crate::text::SPACE || (0x09
        <= s[i] <= 0x0D) || s[i] == QUOTE || s[i] == BACKSLASH) by {
        assert(crate::opcodes::is_word_byte(s[i]));
    }
}

/// The start of a readable line is its first token and spaces behind it: one
/// at least where operands follow.
proof fn lemma_head(instr: Instr, nwtypes: Seq<Option<NWType>>, width: nat)
    requires
        readable_head(instr, nwtypes, width),
        render_head(instr, nwtypes, width) is Ok,
    ensures
        render_head(instr, nwtypes, width)->Ok_0.0 == head_word(instr, nwtypes) + spaces(
            head_gap(instr, nwtypes, width),
        ),
        instr.items.len() > 0 ==> head_gap(instr, nwtypes, width) >= 1,
        is_plain(head_word(instr, nwtypes)),
        head_word(instr, nwtypes).len() >= 1,
        head_word(instr, nwtypes)[0] != SEMICOLON,
{
    let name = instr.op.code.mnemonic();
    lemma_mnemonic_word(instr.op.code);
    lemma_word_plain(name);
    assert(crate::opcodes::is_word_byte(name[0]));
    let word = head_word(instr, nwtypes);
    match instr.type_byte {
        Some(t) => {
            if !single_typed(instr.op) {
                let a = type_entry(nwtypes, t)->0.suffix()->0;
                lemma_plain_concat(name, a);
                assert(word[0] == name[0]);
            }
        },
        None => {},
    }
}

/// How many tokens the operands from `i` on have.
proof fn lemma_tokens_count(
    instr: Instr,
    routines: Map<u16, Routine>,
    floats: Seq<FloatText>,
    list: Seq<Operand>,
    i: int,
    gutter: bool,
    text: Seq<u8>,
)
    requires
        0 <= i <= instr.items.len(),
        instr.items.len() == list.len(),
        forall|k: int| 0 <= k < instr.items.len() ==> (#[trigger] instr.items[k]).0 == list[k],
        render_operands(instr, routines, floats, i, gutter, text) is Ok,
    ensures
        visible_count(list, i) + tokens_from(instr, routines, floats, i).len() == visible_count(
            list,
            list.len() as int,
        ),
    decreases instr.items.len() - i,
{
    if i < instr.items.len() {
        lemma_render_step(instr, routines, floats, i, gutter, text);
        lemma_written_is_visible(instr, i, routines, floats, list);
        let step = render_operand(instr, i, routines, floats, false);
        if step->Ok_0 is None {
            lemma_tokens_count(instr, routines, floats, list, i + 1, gutter, text);
        } else {
            lemma_tokens_count(
                instr,
                routines,
                floats,
                list,
                i + 1,
                true,
                text + spaces(gap_before(instr, i, gutter)) + step->Ok_0->0,
            );
        }
    }
}

/// The bytes that the operands before `i` have given when the assembler
/// comes to operand `i`: those of the operands before it, but for a size
/// that the string at `i` brings with it.
pub open spec fn given_before(instr: Instr, list: Seq<Operand>, i: int) -> Seq<u8> {
    if i > 0 && !visible(list, i - 1) {
        items_bytes(instr.items, i - 1)
    } else {
        items_bytes(instr.items, i)
    }
}

/// What operand `i` gives the assembler leads from the bytes given before
/// it to those given before the next.
proof fn lemma_given_step(
    instr: Instr,
    list: Seq<Operand>,
    routines: Map<u16, Routine>,
    floats: Seq<FloatText>,
    i: int,
)
    requires
        0 <= i < instr.items.len(),
        instr.items.len() == list.len(),
        forall|j: int| 0 <= j < instr.items.len() ==> (#[trigger] instr.items[j]).0 == list[j],
        readable_operand(instr, i, routines, floats),
    ensures
        given_before(instr, list, i + 1) == if visible(list, i) {
            given_before(instr, list, i) + reread_bytes(instr, i)
        } else {
            given_before(instr, list, i)
        },
{
    assert(instr.items[i].0 == list[i]);
    if i > 0 {
        assert(instr.items[i - 1].0 == list[i - 1]);
    }
    if visible(list, i) {
        assert(items_bytes(instr.items, i + 1) == items_bytes(instr.items, i) + instr.items[i].1);
        if list[i] is String {
            assert(!visible(list, i - 1));
            assert(items_bytes(instr.items, i) == items_bytes(instr.items, i - 1) + instr.items[i
                - 1].1);
            assert(given_before(instr, list, i) == items_bytes(instr.items, i - 1));
            assert(reread_bytes(instr, i) == instr.items[i - 1].1 + instr.items[i].1);
            assert(items_bytes(instr.items, i - 1) + (instr.items[i - 1].1 + instr.items[i].1)
                =~= items_bytes(instr.items, i - 1) + instr.items[i - 1].1 + instr.items[i].1);
        } else {
            assert(given_before(instr, list, i) == items_bytes(instr.items, i));
            assert(reread_bytes(instr, i) == instr.items[i].1);
        }
        assert(given_before(instr, list, i + 1) == items_bytes(instr.items, i + 1));
    } else {
        assert(list[i] is Size);
        assert(i == 0 || visible(list, i - 1));
    }
}

/// The tokens from `k` on, where they are those of the operands from `i` on,
/// start with the token of operand `i` if it has one.
proof fn lemma_tokens_step(
    instr: Instr,
    tokens: Seq<Seq<u8>>,
    routines: Map<u16, Routine>,
    floats: Seq<FloatText>,
    i: int,
    k: int,
)
    requires
        0 <= i < instr.items.len(),
        0 <= k <= tokens.len(),
        tokens.subrange(k, tokens.len() as int) == tokens_from(instr, routines, floats, i),
    ensures
        match render_operand(instr, i, routines, floats, false) {
            Ok(Some(t)) => k < tokens.len() && tokens[k] == t && tokens.subrange(
                k + 1,
                tokens.len() as int,
            ) == tokens_from(instr, routines, floats, i + 1),
            _ => tokens.subrange(k, tokens.len() as int) == tokens_from(
                instr,
                routines,
                floats,
                i + 1,
            ),
        },
{
    let rest = tokens.subrange(k, tokens.len() as int);
    match render_operand(instr, i, routines, floats, false) {
        Ok(Some(t)) => {
            assert(rest[0] == t);
            assert(tokens.subrange(k + 1, tokens.len() as int) =~= rest.subrange(
                1,
                rest.len() as int,
            ));
            assert(rest.subrange(1, rest.len() as int) =~= tokens_from(
                instr,
                routines,
                floats,
                i + 1,
            ));
        },
        _ => {},
    }
}

/// From the tokens of its operands the assembler makes the bytes of the
/// operands again.
proof fn lemma_encode_tokens(
    instr: Instr,
    list: Seq<Operand>,
    tokens: Seq<Seq<u8>>,
    routines: Map<u16, Routine>,
    floats: Seq<FloatText>,
    i: int,
    k: int,
    head: Seq<u8>,
    gutter: bool,
    text: Seq<u8>,
)
    requires
        0 <= i <= instr.items.len(),
        instr.items.len() == list.len(),
        forall|j: int| 0 <= j < instr.items.len() ==> (#[trigger] instr.items[j]).0 == list[j],
        forall|j: int| 0 <= j < instr.items.len() ==> legal_item(instr.items, j),
        forall|j: int|
            0 <= j < instr.items.len() ==> #[trigger] readable_operand(instr, j, routines, floats),
        render_operands(instr, routines, floats, i, gutter, text) is Ok,
        0 <= k <= tokens.len(),
        tokens.subrange(k, tokens.len() as int) == tokens_from(instr, routines, floats, i),
    ensures
        encode_operands(
            list,
            tokens,
            routines,
            floats,
            i,
            k,
            head + given_before(instr, list, i),
        ) == Ok::<Seq<u8>, ParseFault>(head + items_bytes(instr.items, instr.items.len() as int)),
    decreases instr.items.len() - i,
{
    let n = instr.items.len() as int;
    let acc = head + given_before(instr, list, i);
    if i >= n {
        lemma_encode_done(list, tokens, routines, floats, i, k, acc);
    } else {
        lemma_encode_step(list, tokens, routines, floats, i, k, acc);
        lemma_render_step(instr, routines, floats, i, gutter, text);
        lemma_written_is_visible(instr, i, routines, floats, list);
        lemma_tokens_step(instr, tokens, routines, floats, i, k);
        assert(readable_operand(instr, i, routines, floats));
        lemma_given_step(instr, list, routines, floats, i);
        assert(instr.items[i].0 == list[i]);
        let step = render_operand(instr, i, routines, floats, false);
        if !visible(list, i) {
            lemma_encode_tokens(
                instr,
                list,
                tokens,
                routines,
                floats,
                i + 1,
                k,
                head,
                gutter,
                text,
            );
        } else {
            let tok = step->Ok_0->0;
            law_operand_reread(instr, i, routines, floats);
            let b = reread_bytes(instr, i);
            assert(operand_bytes(list[i], tokens[k], routines, floats) == Ok::<
                Seq<u8>,
                ParseFault,
            >(b));
            assert(acc + b =~= head + given_before(instr, list, i + 1));
            lemma_encode_tokens(
                instr,
                list,
                tokens,
                routines,
                floats,
                i + 1,
                k + 1,
                head,
                true,
                text + spaces(gap_before(instr, i, gutter)) + tok,
            );
        }
    }
}

/// What `render_operands` writes starts with what it was given.
proof fn lemma_render_prefix(
    instr: Instr,
    routines: Map<u16, Routine>,
    floats: Seq<FloatText>,
    i: int,
    gutter: bool,
    text: Seq<u8>,
)
    requires
        0 <= i,
        render_operands(instr, routines, floats, i, gutter, text) is Ok,
    ensures
        text.len() <= render_operands(instr, routines, floats, i, gutter, text)->Ok_0.len(),
        render_operands(instr, routines, floats, i, gutter, text)->Ok_0.subrange(
            0,
            text.len() as int,
        ) == text,
    decreases instr.items.len() - i,
{
    if i < instr.items.len() {
        lemma_render_step(instr, routines, floats, i, gutter, text);
        let step = render_operand(instr, i, routines, floats, false);
        if step->Ok_0 is None {
            lemma_render_prefix(instr, routines, floats, i + 1, gutter, text);
        } else {
            let next = text + spaces(gap_before(instr, i, gutter)) + step->Ok_0->0;
            lemma_render_prefix(instr, routines, floats, i + 1, true, next);
            let r = render_operands(instr, routines, floats, i, gutter, text)->Ok_0;
            assert(r.subrange(0, text.len() as int) =~= r.subrange(0, next.len() as int).subrange(
                0,
                text.len() as int,
            ));
            assert(next.subrange(0, text.len() as int) =~= text);
        }
    } else {
        assert(text.subrange(0, text.len() as int) =~= text);
    }
}

/// Whether `s` can stand as one line of a text: it holds no line feed and
/// does not end with a carriage return.
pub open spec fn is_one_line(s: Seq<u8>) -> bool {
    &&& forall|i: int| 0 <= i < s.len() ==> #[trigger] s[i] != NEWLINE
    &&& s.len() > 0 ==> s[s.len() - 1] != crate::text::RETURN
}

/// Plain text, spaces and tokens can stand behind one line and give one line.
proof fn lemma_one_line_concat(a: Seq<u8>, b: Seq<u8>)
    requires
        is_one_line(a),
        is_token(b) || is_plain(b) || (exists|g: nat| b == spaces(g)),
    ensures
        is_one_line(a + b),
{
    let s = a + b;
    assert forall|i: int| 0 <= i < s.len() implies #[trigger] s[i] != NEWLINE by {
        if i < a.len() {
            assert(s[i] == a[i]);
        } else {
            let j = i - a.len();
            assert(s[i] == b[j]);
            if !is_plain(b) && is_token(b) {
                if 0 < j < b.len() - 1 {
                    assert(b.subrange(1, b.len() - 1)[j - 1] == b[j]);
                }
            }
        }
    }
    if b.len() > 0 {
        assert(s[s.len() - 1] == b[b.len() - 1]);
    } else {
        assert(s =~= a);
    }
}

/// The text that `render_operands` writes behind one line is one line.
proof fn lemma_render_one_line(
    instr: Instr,
    routines: Map<u16, Routine>,
    floats: Seq<FloatText>,
    i: int,
    gutter: bool,
    text: Seq<u8>,
)
    requires
        0 <= i <= instr.items.len(),
        is_one_line(text),
        forall|k: int| 0 <= k < instr.items.len() ==> legal_item(instr.items, k),
        forall|k: int|
            0 <= k < instr.items.len() ==> #[trigger] readable_operand(instr, k, routines, floats),
        render_operands(instr, routines, floats, i, gutter, text) is Ok,
    ensures
        is_one_line(render_operands(instr, routines, floats, i, gutter, text)->Ok_0),
    decreases instr.items.len() - i,
{
    if i < instr.items.len() {
        lemma_render_step(instr, routines, floats, i, gutter, text);
        assert(readable_operand(instr, i, routines, floats));
        let step = render_operand(instr, i, routines, floats, false);
        if step is Ok && step->Ok_0 is None {
            lemma_render_one_line(instr, routines, floats, i + 1, gutter, text);
        } else if step is Ok {
            let tok = step->Ok_0->0;
            law_operand_reread(instr, i, routines, floats);
            let g = gap_before(instr, i, gutter);
            lemma_one_line_concat(text, spaces(g));
            lemma_one_line_concat(text + spaces(g), tok);
            lemma_render_one_line(instr, routines, floats, i + 1, true, text + spaces(g) + tok);
        }
    }
}

/// The line that the disassembler writes for a legal instruction is read by
/// the assembler as the bytes of the instruction, where the line is
/// readable: what stands in `readable` holds of it.
pub proof fn law_line_reread(
    instr: Instr,
    opcodes: Seq<Option<Opcode>>,
    nwtypes: Seq<Option<NWType>>,
    routines: Map<u16, Routine>,
    floats: Seq<FloatText>,
    width: nat,
    number: usize,
)
    requires
        legal_instr(instr, opcodes),
        readable(instr, opcodes, nwtypes, routines, floats, width),
        render_line(instr, routines, nwtypes, floats, width) is Ok,
    ensures
        render_line(instr, routines, nwtypes, floats, width)->Ok_0.len() >= 1,
        render_line(instr, routines, nwtypes, floats, width)->Ok_0.last() == NEWLINE,
        line_bytes(
            render_line(instr, routines, nwtypes, floats, width)->Ok_0.drop_last(),
            number,
            opcodes,
            nwtypes,
            routines,
            floats,
        ) == Ok::<Seq<u8>, AssemblyError>(encode_instr(instr)),
        tokens_of(render_line(instr, routines, nwtypes, floats, width)->Ok_0.drop_last()) is Ok,
        tokens_of(
            render_line(instr, routines, nwtypes, floats, width)->Ok_0.drop_last(),
        )->Ok_0.len() >= 1,
        resolve(
            tokens_of(render_line(instr, routines, nwtypes, floats, width)->Ok_0.drop_last())->Ok_0,
            opcodes,
            nwtypes,
            number,
        ) == Ok::<Resolved, AssemblyError>(
            Resolved {
                index: instr.op.code.code_of() as int,
                type_byte: instr.type_byte,
                first: 1,
            },
        ),
        is_one_line(render_line(instr, routines, nwtypes, floats, width)->Ok_0.drop_last()),
{
    let line = render_line(instr, routines, nwtypes, floats, width)->Ok_0;
    let head = render_head(instr, nwtypes, width)->Ok_0.0;
    let tight = render_head(instr, nwtypes, width)->Ok_0.1;
    let text = render_operands(instr, routines, floats, 0, !tight, head)->Ok_0;
    assert(line.drop_last() =~= text);
    let word = head_word(instr, nwtypes);
    let gap = head_gap(instr, nwtypes, width);
    let list = instr.op.operands(list_key(instr.type_byte));
    let n = instr.items.len() as int;
    lemma_head(instr, nwtypes, width);
    // The start of the line is one token.
    let none = Seq::<u8>::empty();
    assert(none + word =~= word);
    assert(scan(none) == Lexer { escape: false, quoted: false, start: 0, tokens: Seq::empty() });
    lemma_append_token(none, word);
    lemma_append_spaces(word, gap);
    assert(pending(none) =~= Seq::<Seq<u8>>::empty());
    assert(pending(head) =~= seq![word]);
    assert(is_one_line(head)) by {
        lemma_one_line_concat(word, spaces(gap));
    }
    // The operands are a token each.
    lemma_render_one_line(instr, routines, floats, 0, !tight, head);
    lemma_render_tokens(instr, routines, floats, 0, !tight, head);
    lemma_render_prefix(instr, routines, floats, 0, !tight, head);
    assert(text[0] == head[0]) by {
        assert(text.subrange(0, head.len() as int)[0] == head[0]);
    }
    assert(head[0] == word[0]);
    lemma_tokens_of_settled(text);
    let tokens = seq![word] + tokens_from(instr, routines, floats, 0);
    assert(pending(text) == tokens);
    assert(tokens[0] == word);
    // The first token selects the instruction.
    let index = instr.op.code.code_of() as int;
    let r = Resolved { index, type_byte: instr.type_byte, first: 1 };
    assert(resolve(tokens, opcodes, nwtypes, number) == Ok::<Resolved, AssemblyError>(r)) by {
        if instr.op.legal_types().len() == 1 {
            assert(instr.op.legal_types()[0] == instr.type_byte->0);
        }
    }
    // The operands are read back.
    lemma_tokens_count(instr, routines, floats, list, 0, !tight, head);
    assert(tokens.subrange(1, tokens.len() as int) =~= tokens_from(instr, routines, floats, 0));
    let code = head_bytes(instr.op, instr.type_byte);
    assert(code + given_before(instr, list, 0) =~= code);
    lemma_encode_tokens(instr, list, tokens, routines, floats, 0, 1, code, !tight, head);
}

/// Whether every instruction of `stream` from `pos` up to `total` stands in
/// the table under its own code and has a readable line.
pub open spec fn all_readable(
    stream: Seq<u8>,
    opcodes: Seq<Option<Opcode>>,
    nwtypes: Seq<Option<NWType>>,
    routines: Map<u16, Routine>,
    floats: Seq<FloatText>,
    width: nat,
    pos: int,
    total: int,
) -> bool
    decreases stream.len() - pos,
{
    if pos >= total {
        true
    } else {
        match decode_op(stream, opcodes, pos) {
            Err(_) => true,
            Ok(instr) => {
                proof {
                    lemma_decode_len(stream, opcodes, pos);
                }
                by_code(opcodes, stream[pos]) && readable(
                    instr,
                    opcodes,
                    nwtypes,
                    routines,
                    floats,
                    width,
                ) && all_readable(
                    stream,
                    opcodes,
                    nwtypes,
                    routines,
                    floats,
                    width,
                    pos + instr.len,
                    total,
                )
            },
        }
    }
}

/// Whether the text of the program `stream` can be read again as the
/// program: its header is the one that the assembler writes, `T` has no type
/// byte, declares the length of the program and holds it in a size, the
/// tables hold a stack type for each variant, and every line is readable.
pub open spec fn readable_program(
    stream: Seq<u8>,
    opcodes: Seq<Option<Opcode>>,
    routines: Map<u16, Routine>,
    floats: Seq<FloatText>,
) -> bool {
    let nwtypes = builtin_nwtypes();
    let width = column_width(opcodes, nwtypes, opcodes.len() as int);
    let start = HEADER_BYTES as int;
    &&& stream.len() >= HEADER_BYTES
    &&& stream.subrange(0, start) == header()
    &&& missing_variant_type(opcodes, nwtypes, 0) is None
    &&& all_readable(
        stream,
        opcodes,
        nwtypes,
        routines,
        floats,
        width,
        start,
        stream.len() as int,
    )
    &&& match decode_op(stream, opcodes, start) {
        Ok(t) => declared_total(t) == Ok::<nat, DisassemblyError>(stream.len()) && !t.op.typed()
            && (t.items.len() > 0 ==> t.items[0].0 is Size),
        Err(_) => true,
    }
}

/// What `render_program` writes does not depend on what it writes behind.
proof fn lemma_render_program_acc(
    stream: Seq<u8>,
    opcodes: Seq<Option<Opcode>>,
    routines: Map<u16, Routine>,
    nwtypes: Seq<Option<NWType>>,
    floats: Seq<FloatText>,
    width: nat,
    pos: int,
    total: int,
    acc: Seq<u8>,
)
    ensures
        render_program(stream, opcodes, routines, nwtypes, floats, width, pos, total, acc) == (
        match render_program(
            stream,
            opcodes,
            routines,
            nwtypes,
            floats,
            width,
            pos,
            total,
            Seq::empty(),
        ) {
            Ok(t) => Ok(acc + t),
            Err(e) => Err(e),
        }),
    decreases stream.len() - pos,
{
    let none = Seq::<u8>::empty();
    if pos == total {
        assert(acc + none =~= acc);
    } else if pos < total {
        match decode_op(stream, opcodes, pos) {
            Err(_) => {},
            Ok(instr) => {
                lemma_decode_len(stream, opcodes, pos);
                match render_line(instr, routines, nwtypes, floats, width) {
                    Err(_) => {},
                    Ok(line) => {
                        let next = pos + instr.len;
                        lemma_render_program_acc(
                            stream,
                            opcodes,
                            routines,
                            nwtypes,
                            floats,
                            width,
                            next,
                            total,
                            acc + line,
                        );
                        lemma_render_program_acc(
                            stream,
                            opcodes,
                            routines,
                            nwtypes,
                            floats,
                            width,
                            next,
                            total,
                            none + line,
                        );
                        let rest = render_program(
                            stream,
                            opcodes,
                            routines,
                            nwtypes,
                            floats,
                            width,
                            next,
                            total,
                            none,
                        );
                        if rest is Ok {
                            assert(acc + line + rest->Ok_0 =~= acc + (none + line + rest->Ok_0));
                        }
                    },
                }
            },
        }
    }
}

/// A line with its line feed, before the rest of a text, is the first line
/// of the text.
proof fn lemma_lines_cons(a: Seq<u8>, rest: Seq<u8>)
    requires
        is_one_line(a),
    ensures
        lines_of(a.push(NEWLINE) + rest) == seq![a] + lines_of(rest),
{
    let text = a.push(NEWLINE) + rest;
    assert(text =~= a + seq![NEWLINE] + rest);
    lemma_position(a, NEWLINE, rest, 0);
    assert(text.subrange(0, a.len() as int) =~= a);
    assert(text.subrange(a.len() as int + 1, text.len() as int) =~= rest);
}

/// The lines that the disassembler writes for the instructions from `pos`
/// on are read by the assembler as the bytes of those instructions.
proof fn lemma_lines_reread(
    stream: Seq<u8>,
    opcodes: Seq<Option<Opcode>>,
    nwtypes: Seq<Option<NWType>>,
    routines: Map<u16, Routine>,
    floats: Seq<FloatText>,
    width: nat,
    pos: int,
    total: int,
    lines: Seq<Seq<u8>>,
    i: int,
    slot: Slot,
    acc: Seq<u8>,
)
    requires
        0 <= pos <= total <= stream.len(),
        0 <= i <= lines.len(),
        render_program(
            stream,
            opcodes,
            routines,
            nwtypes,
            floats,
            width,
            pos,
            total,
            Seq::empty(),
        ) is Ok,
        lines.subrange(i, lines.len() as int) == lines_of(
            render_program(
                stream,
                opcodes,
                routines,
                nwtypes,
                floats,
                width,
                pos,
                total,
                Seq::empty(),
            )->Ok_0,
        ),
        all_readable(stream, opcodes, nwtypes, routines, floats, width, pos, total),
    ensures
        assemble_lines(lines, opcodes, nwtypes, routines, floats, i, Some(slot), acc) == Ok::<
            (Seq<u8>, Option<Slot>),
            AssemblyError,
        >((acc + stream.subrange(pos, total), Some(slot))),
    decreases stream.len() - pos,
{
    let none = Seq::<u8>::empty();
    let tail = render_program(
        stream,
        opcodes,
        routines,
        nwtypes,
        floats,
        width,
        pos,
        total,
        none,
    )->Ok_0;
    if pos == total {
        assert(tail =~= none);
        assert(lines.subrange(i, lines.len() as int).len() == 0);
        assert(acc + stream.subrange(pos, total) =~= acc);
    } else {
        let instr = decode_op(stream, opcodes, pos)->Ok_0;
        lemma_decode_len(stream, opcodes, pos);
        law_encode_decode(stream, opcodes, pos);
        let line = render_line(instr, routines, nwtypes, floats, width)->Ok_0;
        let next = pos + instr.len;
        let number = (i + 1) as usize;
        law_line_reread(instr, opcodes, nwtypes, routines, floats, width, number);
        let text = line.drop_last();
        assert(line =~= text.push(NEWLINE));
        lemma_render_program_acc(
            stream,
            opcodes,
            routines,
            nwtypes,
            floats,
            width,
            next,
            total,
            none + line,
        );
        let rest = render_program(
            stream,
            opcodes,
            routines,
            nwtypes,
            floats,
            width,
            next,
            total,
            none,
        )->Ok_0;
        assert(tail =~= text.push(NEWLINE) + rest);
        lemma_lines_cons(text, rest);
        let here = lines.subrange(i, lines.len() as int);
        assert(here == seq![text] + lines_of(rest));
        assert(here.len() >= 1);
        assert(here[0] == text);
        assert(here[0] == lines[i + 0]);
        assert(lines[i] == text);
        assert(lines.subrange(i + 1, lines.len() as int) =~= here.subrange(1, here.len() as int));
        assert(here.subrange(1, here.len() as int) =~= lines_of(rest));
        let bytes = encode_instr(instr);
        assert(bytes.len() >= 1);
        lemma_lines_reread(
            stream,
            opcodes,
            nwtypes,
            routines,
            floats,
            width,
            next,
            total,
            lines,
            i + 1,
            slot,
            acc + bytes,
        );
        assert(acc + bytes + stream.subrange(next, total) =~= acc + stream.subrange(pos, total));
    }
}

/// The header as the comment that the disassembler writes it as.
pub open spec fn header_comment() -> Seq<u8> {
    seq![SEMICOLON, SEMICOLON] + header()
}

/// The `T` instruction of a program.
pub open spec fn total_instr(stream: Seq<u8>, opcodes: Seq<Option<Opcode>>) -> Instr {
    decode_op(stream, opcodes, HEADER_BYTES as int)->Ok_0
}

/// The line of the `T` instruction of a program, without its line feed.
pub open spec fn total_line(
    stream: Seq<u8>,
    opcodes: Seq<Option<Opcode>>,
    routines: Map<u16, Routine>,
    floats: Seq<FloatText>,
) -> Seq<u8> {
    render_line(
        total_instr(stream, opcodes),
        routines,
        builtin_nwtypes(),
        floats,
        column_width(opcodes, builtin_nwtypes(), opcodes.len() as int),
    )->Ok_0.drop_last()
}

/// The lines that the disassembler writes behind that of `T`.
pub open spec fn tail_text(
    stream: Seq<u8>,
    opcodes: Seq<Option<Opcode>>,
    routines: Map<u16, Routine>,
    floats: Seq<FloatText>,
) -> Seq<u8> {
    render_program(
        stream,
        opcodes,
        routines,
        builtin_nwtypes(),
        floats,
        column_width(opcodes, builtin_nwtypes(), opcodes.len() as int),
        HEADER_BYTES + total_instr(stream, opcodes).len,
        stream.len() as int,
        Seq::empty(),
    )->Ok_0
}

/// The lines of the text of a readable program: the header as a comment,
/// the line of `T`, and the lines of the instructions behind it.
proof fn lemma_program_lines(
    stream: Seq<u8>,
    opcodes: Seq<Option<Opcode>>,
    routines: Map<u16, Routine>,
    floats: Seq<FloatText>,
)
    requires
        readable_program(stream, opcodes, routines, floats),
        disassembly(stream, opcodes, routines, floats) is Ok,
    ensures
        lines_of(disassembly(stream, opcodes, routines, floats)->Ok_0) == seq![
            header_comment(),
            total_line(stream, opcodes, routines, floats),
        ] + lines_of(tail_text(stream, opcodes, routines, floats)),
        render_program(
            stream,
            opcodes,
            routines,
            builtin_nwtypes(),
            floats,
            column_width(opcodes, builtin_nwtypes(), opcodes.len() as int),
            HEADER_BYTES + total_instr(stream, opcodes).len,
            stream.len() as int,
            Seq::empty(),
        ) is Ok,
{
    let nwtypes = builtin_nwtypes();
    let width = column_width(opcodes, nwtypes, opcodes.len() as int);
    let start = HEADER_BYTES as int;
    let total = stream.len() as int;
    let none = Seq::<u8>::empty();
    let text = disassembly(stream, opcodes, routines, floats)->Ok_0;
    let t = total_instr(stream, opcodes);
    lemma_decode_len(stream, opcodes, start);
    law_encode_decode(stream, opcodes, start);
    let line = render_line(t, routines, nwtypes, floats, width)->Ok_0;
    let next = start + t.len;
    law_line_reread(t, opcodes, nwtypes, routines, floats, width, 2);
    let first = total_line(stream, opcodes, routines, floats);
    assert(line =~= first.push(NEWLINE));
    let top = header_line(stream) + line;
    lemma_render_program_acc(
        stream,
        opcodes,
        routines,
        nwtypes,
        floats,
        width,
        next,
        total,
        top,
    );
    let tail = tail_text(stream, opcodes, routines, floats);
    assert(text == top + tail);
    let comment = header_comment();
    assert(header_line(stream) =~= comment.push(NEWLINE));
    assert(is_one_line(comment));
    assert(text =~= comment.push(NEWLINE) + (first.push(NEWLINE) + tail));
    lemma_lines_cons(comment, first.push(NEWLINE) + tail);
    lemma_lines_cons(first, tail);
    assert(seq![comment] + (seq![first] + lines_of(tail)) =~= seq![comment, first] + lines_of(
        tail,
    ));
}

/// Where the byte count stands in the line of `T`.
pub open spec fn total_place(stream: Seq<u8>, opcodes: Seq<Option<Opcode>>) -> Slot {
    Slot { at: 1, width: total_instr(stream, opcodes).items[0].1.len(), line: 2 }
}

/// The assembler reads the line of `T` as the instruction, and finds the
/// place of the byte count in it.
proof fn lemma_total_line(
    stream: Seq<u8>,
    opcodes: Seq<Option<Opcode>>,
    routines: Map<u16, Routine>,
    floats: Seq<FloatText>,
)
    requires
        readable_program(stream, opcodes, routines, floats),
        disassembly(stream, opcodes, routines, floats) is Ok,
    ensures
        ({
            let first = total_line(stream, opcodes, routines, floats);
            let t = total_instr(stream, opcodes);
            let nwtypes = builtin_nwtypes();
            &&& tokens_of(first) is Ok
            &&& tokens_of(first)->Ok_0.len() >= 1
            &&& tokens_bytes(tokens_of(first)->Ok_0, 2, opcodes, nwtypes, routines, floats) == Ok::<
                Seq<u8>,
                AssemblyError,
            >(encode_instr(t))
            &&& total_slot(tokens_of(first)->Ok_0, 2, opcodes, nwtypes) == Ok::<
                Slot,
                AssemblyError,
            >(total_place(stream, opcodes))
            &&& t.items.len() == 1
            &&& unsigned_width(t.items[0].1.len())
            &&& be_value(t.items[0].1) == stream.len()
            &&& encode_instr(t) == seq![t.op.code.code_of()] + t.items[0].1
            &&& HEADER_BYTES + t.len <= stream.len()
            &&& encode_instr(t) == stream.subrange(HEADER_BYTES as int, HEADER_BYTES + t.len)
        }),
{
    let nwtypes = builtin_nwtypes();
    let width = column_width(opcodes, nwtypes, opcodes.len() as int);
    let start = HEADER_BYTES as int;
    let t = total_instr(stream, opcodes);
    lemma_decode_len(stream, opcodes, start);
    law_encode_decode(stream, opcodes, start);
    assert(decode_op(stream, opcodes, start) is Ok);
    assert(start < stream.len());
    assert(readable(t, opcodes, nwtypes, routines, floats, width));
    assert(t.type_byte is None);
    assert(declared_total(t) is Ok);
    assert(t.items.len() == 1);
    law_line_reread(t, opcodes, nwtypes, routines, floats, width, 2);
    let first = total_line(stream, opcodes, routines, floats);
    let list = t.op.operands(0);
    assert(t.items[0].0 == list[0]);
    assert(legal_item(t.items, 0));
    assert(items_bytes(t.items, 1) == items_bytes(t.items, 0) + t.items[0].1);
    assert(items_bytes(t.items, 0) =~= Seq::<u8>::empty());
    assert(encode_instr(t) =~= seq![t.op.code.code_of()] + t.items[0].1);
}

/// The assembler makes of the lines of a readable program the bytes behind
/// its header.
proof fn lemma_program_body(
    stream: Seq<u8>,
    opcodes: Seq<Option<Opcode>>,
    routines: Map<u16, Routine>,
    floats: Seq<FloatText>,
)
    requires
        readable_program(stream, opcodes, routines, floats),
        disassembly(stream, opcodes, routines, floats) is Ok,
    ensures
        assemble_lines(
            lines_of(disassembly(stream, opcodes, routines, floats)->Ok_0),
            opcodes,
            builtin_nwtypes(),
            routines,
            floats,
            0,
            None,
            Seq::empty(),
        ) == Ok::<(Seq<u8>, Option<Slot>), AssemblyError>(
            (
                stream.subrange(HEADER_BYTES as int, stream.len() as int),
                Some(total_place(stream, opcodes)),
            ),
        ),
{
    let nwtypes = builtin_nwtypes();
    let width = column_width(opcodes, nwtypes, opcodes.len() as int);
    let start = HEADER_BYTES as int;
    let total = stream.len() as int;
    let none = Seq::<u8>::empty();
    let t = total_instr(stream, opcodes);
    let next = start + t.len;
    let first = total_line(stream, opcodes, routines, floats);
    let tail = tail_text(stream, opcodes, routines, floats);
    let lines = lines_of(disassembly(stream, opcodes, routines, floats)->Ok_0);
    let slot = total_place(stream, opcodes);
    let code = encode_instr(t);
    lemma_program_lines(stream, opcodes, routines, floats);
    lemma_total_line(stream, opcodes, routines, floats);
    assert(lines[0] == header_comment());
    assert(lines[1] == first);
    assert(lines.subrange(2, lines.len() as int) =~= lines_of(tail));
    assert(is_comment(header_comment()));
    lemma_lines_reread(
        stream,
        opcodes,
        nwtypes,
        routines,
        floats,
        width,
        next,
        total,
        lines,
        2,
        slot,
        none + code,
    );
    assert(none + code + stream.subrange(next, total) =~= stream.subrange(start, total));
    let after_t = assemble_lines(
        lines,
        opcodes,
        nwtypes,
        routines,
        floats,
        2,
        Some(slot),
        none + code,
    );
    let after_header = assemble_lines(lines, opcodes, nwtypes, routines, floats, 1, None, none);
    assert(after_header == after_t);
    let whole = assemble_lines(lines, opcodes, nwtypes, routines, floats, 0, None, none);
    assert(whole == after_header);
}

/// Assembling the text that the disassembler wrote for a program gives the
/// program back, where the text is readable: what stands in
/// `readable_program` holds of the program.
pub proof fn law_program_reread(
    stream: Seq<u8>,
    opcodes: Seq<Option<Opcode>>,
    routines: Map<u16, Routine>,
    floats: Seq<FloatText>,
)
    requires
        readable_program(stream, opcodes, routines, floats),
        disassembly(stream, opcodes, routines, floats) is Ok,
    ensures
        assembly(disassembly(stream, opcodes, routines, floats)->Ok_0, opcodes, routines, floats)
            == Ok::<Seq<u8>, AssemblyError>(stream),
{
    let start = HEADER_BYTES as int;
    let total = stream.len() as int;
    let t = total_instr(stream, opcodes);
    lemma_program_body(stream, opcodes, routines, floats);
    lemma_total_line(stream, opcodes, routines, floats);
    let size = t.items[0].1;
    let w = size.len();
    let body = stream.subrange(start, total);
    let code = encode_instr(t);
    lemma_be_value_bound(size);
    lemma_be_bytes_of_value(size);
    assert(body.subrange(0, code.len() as int) =~= code);
    assert(body.subrange(1, 1 + w as int) =~= size);
    assert(stream.subrange(0, start) =~= header());
    assert(header() + body.subrange(0, 1) + be_bytes(stream.len(), w) + body.subrange(
        1 + w as int,
        body.len() as int,
    ) =~= stream);
}

/// Text that was assembled, disassembled and assembled again gives the
/// bytes that it gave at first, where the text of those bytes is readable.
/// The text in between is the text in its standard form: one line for each
/// instruction, the mnemonic column padded, each number in the notation of
/// its kind.
pub proof fn law_text_reread(
    text: Seq<u8>,
    opcodes: Seq<Option<Opcode>>,
    routines: Map<u16, Routine>,
    floats: Seq<FloatText>,
)
    requires
        assembly(text, opcodes, routines, floats) is Ok,
        readable_program(assembly(text, opcodes, routines, floats)->Ok_0, opcodes, routines, floats),
        disassembly(assembly(text, opcodes, routines, floats)->Ok_0, opcodes, routines, floats)
            is Ok,
    ensures
        assembly(
            disassembly(
                assembly(text, opcodes, routines, floats)->Ok_0,
                opcodes,
                routines,
                floats,
            )->Ok_0,
            opcodes,
            routines,
            floats,
        ) == assembly(text, opcodes, routines, floats),
{
    law_program_reread(
        assembly(text, opcodes, routines, floats)->Ok_0,
        opcodes,
        routines,
        floats,
    );
}

} // verus!
