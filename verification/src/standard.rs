//! The built-in tables: what makes the lines written by them readable.

use crate::assemble::{
    assemble_lines, assembly, find_opcode, find_variant, header, lines_of, list_key,
    missing_type_in, missing_variant_type, resolve, tokens_bytes, tokens_of, total_slot,
    variant_in, variant_of, AssemblyError, Slot,
};
use crate::disassemble::{
    column_width, declared_total, decode_op, disassembly, entry_width, lemma_decode_len,
    render_line, render_program, single_typed, type_entry, DisassemblyError, HEADER_BYTES,
};
use crate::io_utils::{be_bytes, law_bytes_spell_value, span};
use crate::opcodes::{
    builtin_nwtypes, builtin_operands, builtin_type, builtin_types, is_builtin, is_builtin_table,
    law_mnemonics_differ, law_suffixes_differ, law_table_by_code, law_types_by_code, lemma_mark,
    lemma_suffix_mark, lemma_suffix_word, mark, Instr, NWType, NWTypeE, Opcode, OpcodeE,
};
use crate::reread::{
    all_readable, head_word, law_program_reread, lemma_word_plain, names_itself, readable,
    readable_head, readable_operand, readable_program,
};
use crate::roundtrip::{encode_instr, items_bytes, law_encode_decode, legal_instr, legal_item};
use crate::{FloatText, Routine};
use vstd::prelude::*;
use vstd::string::StringSliceAdditionalSpecFns;

verus! {

/// Whether a built-in instruction has several legal types.
pub open spec fn several(c: OpcodeE) -> bool {
    builtin_types(c) is Some && builtin_types(c)->0.len() > 1
}

/// The mnemonic of an instruction of several types differs from every other
/// mnemonic within their first three bytes, as far as both have them.
proof fn lemma_heads_differ(a: OpcodeE, b: OpcodeE)
    requires
        several(a),
        a != b,
    ensures
        mark(a).first != mark(b).first || (mark(a).len > 1 && mark(b).len > 1 && mark(a).second
            != mark(b).second) || (mark(a).len > 2 && mark(b).len > 2 && mark(a).third != mark(
            b,
        ).third),
{
}

/// A name is the mnemonic of one instruction of several types at most,
/// with one text at most behind it.
pub proof fn lemma_names_differ(a: OpcodeE, sa: Seq<u8>, b: OpcodeE, sb: Seq<u8>)
    requires
        several(a),
        a.mnemonic() + sa == b.mnemonic() + sb,
    ensures
        a == b,
        sa == sb,
{
    lemma_mark(a);
    lemma_mark(b);
    let x = a.mnemonic() + sa;
    let y = b.mnemonic() + sb;
    if a != b {
        lemma_heads_differ(a, b);
        assert(x[0] == a.mnemonic()[0]);
        assert(y[0] == b.mnemonic()[0]);
        if mark(a).len > 1 && mark(b).len > 1 {
            assert(x[1] == a.mnemonic()[1]);
            assert(y[1] == b.mnemonic()[1]);
        }
        if mark(a).len > 2 && mark(b).len > 2 {
            assert(x[2] == a.mnemonic()[2]);
            assert(y[2] == b.mnemonic()[2]);
        }
    }
    let n = a.mnemonic().len() as int;
    assert(sa =~= x.subrange(n, x.len() as int));
    assert(sb =~= y.subrange(n, y.len() as int));
}

/// The name of a variant; empty where there is none.
pub open spec fn variant_name(v: Option<(Seq<u8>, Option<u8>)>) -> Seq<u8> {
    match v {
        Some(pair) => pair.0,
        None => Seq::empty(),
    }
}

/// Where none of the first `n` variants of an entry has the name, none is found.
proof fn lemma_variant_in_none(op: Opcode, nwtypes: Seq<Option<NWType>>, name: Seq<u8>, n: int)
    requires
        forall|j: int|
            0 <= j < n ==> !((#[trigger] variant_of(op, nwtypes, j)) is Some && variant_name(variant_of(op, nwtypes, j)) == name),
    ensures
        variant_in(op, nwtypes, name, n) is None,
    decreases n,
{
    if n > 0 {
        lemma_variant_in_none(op, nwtypes, name, n - 1);
        assert(!(variant_of(op, nwtypes, n - 1) is Some && variant_name(variant_of(op, nwtypes, n - 1))
            == name));
    }
}

/// Where no variant of the first `n` slots has the name, none is found.
proof fn lemma_find_variant_none(
    opcodes: Seq<Option<Opcode>>,
    nwtypes: Seq<Option<NWType>>,
    name: Seq<u8>,
    n: int,
)
    requires
        n <= opcodes.len(),
        forall|i: int|
            0 <= i < n && (#[trigger] opcodes[i]) is Some ==> variant_in(
                opcodes[i]->0,
                nwtypes,
                name,
                opcodes[i]->0.legal_types().len() as int,
            ) is None,
    ensures
        find_variant(opcodes, nwtypes, name, n) is None,
    decreases n,
{
    if n > 0 {
        lemma_find_variant_none(opcodes, nwtypes, name, n - 1);
        assert(opcodes[n - 1] is Some ==> variant_in(
            opcodes[n - 1]->0,
            nwtypes,
            name,
            opcodes[n - 1]->0.legal_types().len() as int,
        ) is None);
    }
}

/// The variant found is that of the last slot that has one of the name.
proof fn lemma_find_variant_at(
    opcodes: Seq<Option<Opcode>>,
    nwtypes: Seq<Option<NWType>>,
    name: Seq<u8>,
    n: int,
    k: int,
    v: Option<u8>,
)
    requires
        0 <= k < n <= opcodes.len(),
        opcodes[k] is Some,
        variant_in(opcodes[k]->0, nwtypes, name, opcodes[k]->0.legal_types().len() as int)
            == Some(v),
        forall|i: int|
            k < i < n && (#[trigger] opcodes[i]) is Some ==> variant_in(
                opcodes[i]->0,
                nwtypes,
                name,
                opcodes[i]->0.legal_types().len() as int,
            ) is None,
    ensures
        find_variant(opcodes, nwtypes, name, n) == Some((k, v)),
    decreases n,
{
    if n - 1 > k {
        lemma_find_variant_at(opcodes, nwtypes, name, n - 1, k, v);
        assert(opcodes[n - 1] is Some ==> variant_in(
            opcodes[n - 1]->0,
            nwtypes,
            name,
            opcodes[n - 1]->0.legal_types().len() as int,
        ) is None);
    }
}

/// The slot found is the last that holds an instruction of the mnemonic.
proof fn lemma_find_opcode_at(opcodes: Seq<Option<Opcode>>, name: Seq<u8>, n: int, k: int)
    requires
        0 <= k < n <= opcodes.len(),
        opcodes[k] is Some,
        opcodes[k]->0.code.mnemonic() == name,
        forall|i: int|
            k < i < n && (#[trigger] opcodes[i]) is Some ==> opcodes[i]->0.code.mnemonic() != name,
    ensures
        find_opcode(opcodes, name, n) == Some(k),
    decreases n,
{
    if n - 1 > k {
        lemma_find_opcode_at(opcodes, name, n - 1, k);
        assert(opcodes[n - 1] is Some ==> opcodes[n - 1]->0.code.mnemonic() != name);
    }
}

/// The suffix of a type byte in the built-in table of stack types.
pub open spec fn builtin_suffix(t: u8) -> Option<Seq<u8>> {
    match type_entry(builtin_nwtypes(), t) {
        Some(ty) => ty.suffix(),
        None => None,
    }
}

/// An entry of the built-in table has no variant of the name of another
/// instruction, whatever suffix stands behind that.
proof fn lemma_other_variants(op: Opcode, c: OpcodeE, d: OpcodeE, s: Seq<u8>, n: int)
    requires
        is_builtin(op, c),
        c != d,
    ensures
        variant_in(op, builtin_nwtypes(), d.mnemonic() + s, n) is None,
{
    let nw = builtin_nwtypes();
    let word = d.mnemonic() + s;
    assert forall|j: int| 0 <= j < n implies !((#[trigger] variant_of(op, nw, j)) is Some
        && variant_name(variant_of(op, nw, j)) == word) by {
        if variant_of(op, nw, j) is Some && variant_name(variant_of(op, nw, j)) == word {
            let none = Seq::<u8>::empty();
            let ty = type_entry(nw, op.legal_types()[j])->0;
            let tail = match ty.suffix() {
                Some(a) => a,
                None => none,
            };
            assert(c.mnemonic() + none =~= c.mnemonic());
            assert(variant_name(variant_of(op, nw, j)) == c.mnemonic() + tail);
            lemma_names_differ(c, tail, d, s);
        }
    }
    lemma_variant_in_none(op, nw, word, n);
}

/// Among the variants of its own entry, mnemonic and suffix find the type
/// of the suffix, if it is among the legal types.
proof fn lemma_own_variant(op: Opcode, c: OpcodeE, t: u8, n: int)
    requires
        is_builtin(op, c),
        several(c),
        builtin_suffix(t) is Some,
        0 <= n <= op.legal_types().len(),
    ensures
        variant_in(op, builtin_nwtypes(), c.mnemonic() + builtin_suffix(t)->0, n) == if op.legal_types().subrange(
            0,
            n,
        ).contains(t) {
            Some(Some(t))
        } else {
            None
        },
    decreases n,
{
    let nw = builtin_nwtypes();
    let a = builtin_suffix(t)->0;
    let word = c.mnemonic() + a;
    let types = op.legal_types();
    if n > 0 {
        lemma_own_variant(op, c, t, n - 1);
        let u = types[n - 1];
        let before = types.subrange(0, n - 1);
        let upto = types.subrange(0, n);
        assert(upto =~= before.push(u));
        assert(upto.contains(t) <==> (before.contains(t) || u == t)) by {
            if before.contains(t) {
                let k = choose|k: int| 0 <= k < before.len() && before[k] == t;
                assert(upto[k] == t);
            }
            if u == t {
                assert(upto[n - 1] == t);
            }
            if upto.contains(t) {
                let k = choose|k: int| 0 <= k < upto.len() && upto[k] == t;
                if k < n - 1 {
                    assert(before[k] == t);
                }
            }
        }
        law_types_by_code(u);
        law_types_by_code(t);
        let none = Seq::<u8>::empty();
        match variant_of(op, nw, n - 1) {
            Some(v) => {
                let e = NWTypeE::with_code(u)->0;
                let f = NWTypeE::with_code(t)->0;
                lemma_suffix_mark(e);
                lemma_suffix_mark(f);
                match builtin_type(e).suffix() {
                    Some(b) => {
                        if v.0 == word {
                            lemma_names_differ(c, b, c, a);
                            law_suffixes_differ(e, f);
                        }
                        if u == t {
                            assert(v.0 == word);
                        }
                    },
                    None => {
                        assert(v.0 == c.mnemonic());
                        assert(c.mnemonic() + none =~= c.mnemonic());
                        if v.0 == word {
                            lemma_names_differ(c, none, c, a);
                            assert(a.len() == 0);
                        }
                    },
                }
            },
            None => {
                assert(u != t);
            },
        }
    } else {
        assert(types.subrange(0, 0) =~= Seq::<u8>::empty());
    }
}

/// In the built-in tables, mnemonic and suffix of a variant find the variant.
proof fn lemma_builtin_find_variant(table: Seq<Option<Opcode>>, c: OpcodeE, t: u8)
    requires
        is_builtin_table(table),
        several(c),
        builtin_suffix(t) is Some,
        builtin_types(c)->0.contains(t),
    ensures
        find_variant(
            table,
            builtin_nwtypes(),
            c.mnemonic() + builtin_suffix(t)->0,
            table.len() as int,
        ) == Some((c.code_of() as int, Some(t))),
{
    let nw = builtin_nwtypes();
    let a = builtin_suffix(t)->0;
    let word = c.mnemonic() + a;
    let k = c.code_of() as int;
    assert(OpcodeE::with_code(c.code_of()) == Some(c));
    let op = table[k]->0;
    assert(is_builtin(op, c));
    let types = op.legal_types();
    lemma_own_variant(op, c, t, types.len() as int);
    assert(types.subrange(0, types.len() as int) =~= types);
    assert forall|i: int| k < i < table.len() && (#[trigger] table[i]) is Some implies variant_in(
        table[i]->0,
        nw,
        word,
        table[i]->0.legal_types().len() as int,
    ) is None by {
        let d = OpcodeE::with_code(i as u8)->0;
        assert(is_builtin(table[i]->0, d));
        lemma_other_variants(table[i]->0, d, c, a, table[i]->0.legal_types().len() as int);
    }
    lemma_find_variant_at(table, nw, word, table.len() as int, k, Some(t));
}

/// In the built-in tables, the mnemonic of an instruction that has not
/// several types is the name of no variant.
proof fn lemma_builtin_no_variant(table: Seq<Option<Opcode>>, c: OpcodeE)
    requires
        is_builtin_table(table),
        !several(c),
    ensures
        find_variant(table, builtin_nwtypes(), c.mnemonic(), table.len() as int) is None,
{
    let nw = builtin_nwtypes();
    let none = Seq::<u8>::empty();
    assert(c.mnemonic() + none =~= c.mnemonic());
    assert forall|i: int| 0 <= i < table.len() && (#[trigger] table[i]) is Some implies variant_in(
        table[i]->0,
        nw,
        c.mnemonic(),
        table[i]->0.legal_types().len() as int,
    ) is None by {
        let d = OpcodeE::with_code(i as u8)->0;
        let op = table[i]->0;
        assert(is_builtin(op, d));
        if d == c {
            assert forall|j: int| 0 <= j < op.legal_types().len() implies !((
            #[trigger] variant_of(op, nw, j)) is Some && variant_name(variant_of(op, nw, j))
                == c.mnemonic()) by {}
            lemma_variant_in_none(op, nw, c.mnemonic(), op.legal_types().len() as int);
        } else {
            lemma_other_variants(op, d, c, none, op.legal_types().len() as int);
        }
    }
    lemma_find_variant_none(table, nw, c.mnemonic(), table.len() as int);
}

/// In the built-in table, a mnemonic finds its instruction.
proof fn lemma_builtin_find_opcode(table: Seq<Option<Opcode>>, c: OpcodeE)
    requires
        is_builtin_table(table),
    ensures
        find_opcode(table, c.mnemonic(), table.len() as int) == Some(c.code_of() as int),
{
    let k = c.code_of() as int;
    assert(OpcodeE::with_code(c.code_of()) == Some(c));
    assert(is_builtin(table[k]->0, c));
    assert forall|i: int| k < i < table.len() && (#[trigger] table[i]) is Some implies table[i]->0.code.mnemonic()
        != c.mnemonic() by {
        let d = OpcodeE::with_code(i as u8)->0;
        assert(is_builtin(table[i]->0, d));
        if d.mnemonic() == c.mnemonic() {
            law_mnemonics_differ(d, c);
        }
    }
    lemma_find_opcode_at(table, c.mnemonic(), table.len() as int, k);
}

/// In the built-in tables, the first token of the line of a legal
/// instruction selects the instruction, where its type has a suffix or the
/// instruction a single type.
proof fn lemma_builtin_names(table: Seq<Option<Opcode>>, instr: Instr)
    requires
        is_builtin_table(table),
        legal_instr(instr, table),
        instr.type_byte is Some && !single_typed(instr.op) ==> builtin_suffix(instr.type_byte->0)
            is Some,
    ensures
        names_itself(instr, table, builtin_nwtypes()),
{
    let c = instr.op.code;
    let k = c.code_of() as int;
    let d = OpcodeE::with_code(c.code_of())->0;
    assert(is_builtin(instr.op, d));
    if several(c) {
        lemma_builtin_find_variant(table, c, instr.type_byte->0);
    } else {
        lemma_builtin_no_variant(table, c);
        lemma_builtin_find_opcode(table, c);
    }
}

/// The column of the mnemonics is as wide as the widest entry at least.
proof fn lemma_column_width(
    opcodes: Seq<Option<Opcode>>,
    nwtypes: Seq<Option<NWType>>,
    n: int,
    i: int,
)
    requires
        0 <= i < n <= opcodes.len(),
        opcodes[i] is Some,
    ensures
        column_width(opcodes, nwtypes, n) >= entry_width(opcodes[i]->0, nwtypes),
    decreases n,
{
    if i < n - 1 {
        lemma_column_width(opcodes, nwtypes, n - 1, i);
    }
}

/// In the built-in tables, the first token of the line of an instruction
/// with operands is narrower than the column of the mnemonics.
proof fn lemma_builtin_room(table: Seq<Option<Opcode>>, instr: Instr)
    requires
        is_builtin_table(table),
        legal_instr(instr, table),
        instr.items.len() > 0,
    ensures
        head_word(instr, builtin_nwtypes()).len() < column_width(
            table,
            builtin_nwtypes(),
            table.len() as int,
        ),
{
    let nw = builtin_nwtypes();
    let c = instr.op.code;
    let longest = table[0x1C]->0;
    assert(OpcodeE::with_code(0x1Cu8) == Some(OpcodeE::STORE_STATEALL));
    assert(is_builtin(longest, OpcodeE::STORE_STATEALL));
    lemma_column_width(table, nw, table.len() as int, 0x1C);
    lemma_mark(OpcodeE::STORE_STATEALL);
    lemma_mark(c);
    let d = OpcodeE::with_code(c.code_of())->0;
    assert(is_builtin(instr.op, d));
    let key = list_key(instr.type_byte);
    assert(instr.op.operands(key) == builtin_operands(c, key));
    assert(builtin_operands(c, key).len() > 0);
    match instr.type_byte {
        Some(t) => {
            law_types_by_code(t);
            if NWTypeE::with_code(t) is Some {
                lemma_suffix_word(NWTypeE::with_code(t)->0);
            }
        },
        None => {},
    }
}

/// In the built-in tables, each legal type of an instruction of several
/// types has its stack type.
proof fn lemma_builtin_types_known(op: Opcode, c: OpcodeE, j: int)
    requires
        is_builtin(op, c),
    ensures
        missing_type_in(op, builtin_nwtypes(), j) is None,
    decreases op.legal_types().len() - j,
{
    let types = op.legal_types();
    if 0 <= j < types.len() && types.len() > 1 {
        law_types_by_code(types[j]);
        assert(NWTypeE::with_code(types[j]) is Some);
        lemma_builtin_types_known(op, c, j + 1);
    }
}

/// The built-in tables lack no stack type.
proof fn lemma_builtin_complete(table: Seq<Option<Opcode>>, i: int)
    requires
        is_builtin_table(table),
        0 <= i,
    ensures
        missing_variant_type(table, builtin_nwtypes(), i) is None,
    decreases table.len() - i,
{
    if i < table.len() {
        if table[i] is Some {
            let d = OpcodeE::with_code(i as u8)->0;
            assert(is_builtin(table[i]->0, d));
            lemma_builtin_types_known(table[i]->0, d, 0);
        }
        lemma_builtin_complete(table, i + 1);
    }
}

/// Whether the line of `instr` holds nothing that the assembler cannot
/// read: the type has a suffix unless the mnemonic alone tells it, and every
/// operand is written readably.
pub open spec fn plain_instr(
    instr: Instr,
    routines: Map<u16, Routine>,
    floats: Seq<FloatText>,
) -> bool {
    &&& instr.type_byte is Some && !single_typed(instr.op) ==> builtin_suffix(instr.type_byte->0)
        is Some
    &&& forall|i: int|
        0 <= i < instr.items.len() ==> #[trigger] readable_operand(instr, i, routines, floats)
}

/// Whether that holds of every instruction of `stream` from `pos` up to `total`.
pub open spec fn plain_program(
    stream: Seq<u8>,
    table: Seq<Option<Opcode>>,
    routines: Map<u16, Routine>,
    floats: Seq<FloatText>,
    pos: int,
    total: int,
) -> bool
    decreases stream.len() - pos,
{
    if pos >= total {
        true
    } else {
        match decode_op(stream, table, pos) {
            Err(_) => true,
            Ok(instr) => {
                proof {
                    lemma_decode_len(stream, table, pos);
                }
                plain_instr(instr, routines, floats) && plain_program(
                    stream,
                    table,
                    routines,
                    floats,
                    pos + instr.len,
                    total,
                )
            },
        }
    }
}

/// The width of the column of mnemonics of a table under the built-in stack types.
pub open spec fn builtin_width(table: Seq<Option<Opcode>>) -> nat {
    column_width(table, builtin_nwtypes(), table.len() as int)
}

/// By the built-in tables, the line of a legal instruction is readable if
/// it holds nothing that the assembler cannot read.
proof fn lemma_builtin_readable(
    table: Seq<Option<Opcode>>,
    instr: Instr,
    routines: Map<u16, Routine>,
    floats: Seq<FloatText>,
)
    requires
        is_builtin_table(table),
        legal_instr(instr, table),
        plain_instr(instr, routines, floats),
        render_line(instr, routines, builtin_nwtypes(), floats, builtin_width(table)) is Ok,
    ensures
        readable(instr, table, builtin_nwtypes(), routines, floats, builtin_width(table)),
{
    let nw = builtin_nwtypes();
    let c = instr.op.code;
    let d = OpcodeE::with_code(c.code_of())->0;
    assert(is_builtin(instr.op, d));
    lemma_builtin_names(table, instr);
    if instr.items.len() > 0 {
        lemma_builtin_room(table, instr);
    }
    match instr.type_byte {
        Some(t) => {
            law_types_by_code(t);
            if NWTypeE::with_code(t) is Some {
                let e = NWTypeE::with_code(t)->0;
                lemma_suffix_word(e);
                if e.abbr_of() is Some {
                    lemma_word_plain(e.abbr_of()->0.spec_bytes());
                }
            }
        },
        None => {
            assert(instr.op.operands(0) == builtin_operands(c, 0));
        },
    }
    assert(readable_head(instr, nw, builtin_width(table)));
}

/// By the built-in tables, the lines of a program are readable if they hold
/// nothing that the assembler cannot read.
proof fn lemma_builtin_all_readable(
    stream: Seq<u8>,
    table: Seq<Option<Opcode>>,
    routines: Map<u16, Routine>,
    floats: Seq<FloatText>,
    pos: int,
    total: int,
    acc: Seq<u8>,
)
    requires
        is_builtin_table(table),
        0 <= pos,
        plain_program(stream, table, routines, floats, pos, total),
        render_program(
            stream,
            table,
            routines,
            builtin_nwtypes(),
            floats,
            builtin_width(table),
            pos,
            total,
            acc,
        ) is Ok,
    ensures
        all_readable(
            stream,
            table,
            builtin_nwtypes(),
            routines,
            floats,
            builtin_width(table),
            pos,
            total,
        ),
    decreases stream.len() - pos,
{
    if pos < total {
        let instr = decode_op(stream, table, pos)->Ok_0;
        lemma_decode_len(stream, table, pos);
        if stream[pos] < table.len() && table[stream[pos] as int] is Some {
            law_table_by_code(table, stream[pos]);
        }
        law_encode_decode(stream, table, pos);
        lemma_builtin_readable(table, instr, routines, floats);
        let line = render_line(instr, routines, builtin_nwtypes(), floats, builtin_width(table))->Ok_0;
        lemma_builtin_all_readable(
            stream,
            table,
            routines,
            floats,
            pos + instr.len,
            total,
            acc + line,
        );
    }
}

/// By the built-in tables, assembling the text that the disassembler wrote
/// for a program gives the program back, where the program starts with the
/// header `NCS V1.0`, `T` declares its length, every type has a suffix
/// unless the mnemonic alone tells it, and every operand is written
/// readably: a string holds no `"`, `\` or line feed, the name of a routine
/// is plain and without `#`, and the float table leads from the text of each
/// float back to the float.
pub proof fn law_builtin_reread(
    stream: Seq<u8>,
    table: Seq<Option<Opcode>>,
    routines: Map<u16, Routine>,
    floats: Seq<FloatText>,
)
    requires
        is_builtin_table(table),
        stream.len() >= HEADER_BYTES,
        stream.subrange(0, HEADER_BYTES as int) == header(),
        disassembly(stream, table, routines, floats) is Ok,
        declared_total(decode_op(stream, table, HEADER_BYTES as int)->Ok_0) == Ok::<
            nat,
            DisassemblyError,
        >(stream.len()),
        plain_program(stream, table, routines, floats, HEADER_BYTES as int, stream.len() as int),
    ensures
        assembly(disassembly(stream, table, routines, floats)->Ok_0, table, routines, floats)
            == Ok::<Seq<u8>, AssemblyError>(stream),
{
    let nw = builtin_nwtypes();
    let width = builtin_width(table);
    let start = HEADER_BYTES as int;
    let total = stream.len() as int;
    let t = decode_op(stream, table, start)->Ok_0;
    lemma_decode_len(stream, table, start);
    if stream[start] < table.len() && table[stream[start] as int] is Some {
        law_table_by_code(table, stream[start]);
    }
    law_encode_decode(stream, table, start);
    lemma_builtin_readable(table, t, routines, floats);
    let line = render_line(t, routines, nw, floats, width)->Ok_0;
    lemma_builtin_all_readable(
        stream,
        table,
        routines,
        floats,
        start + t.len,
        total,
        crate::disassemble::header_line(stream) + line,
    );
    lemma_builtin_complete(table, 0);
    let d = OpcodeE::with_code(t.op.code.code_of())->0;
    assert(is_builtin(t.op, d));
    assert(t.op.operands(0) == builtin_operands(OpcodeE::T, 0));
    assert(all_readable(stream, table, nw, routines, floats, width, start, total));
    assert(readable_program(stream, table, routines, floats));
    law_program_reread(stream, table, routines, floats);
}

/// The slot that `find_opcode` finds holds an instruction.
proof fn lemma_find_opcode_holds(opcodes: Seq<Option<Opcode>>, name: Seq<u8>, n: int)
    requires
        n <= opcodes.len(),
    ensures
        find_opcode(opcodes, name, n) is Some ==> 0 <= find_opcode(opcodes, name, n)->0 < n
            && opcodes[find_opcode(opcodes, name, n)->0] is Some,
    decreases n,
{
    if n > 0 {
        lemma_find_opcode_holds(opcodes, name, n - 1);
    }
}

/// An entry that has a variant has several types.
proof fn lemma_variant_in_several(
    op: Opcode,
    nwtypes: Seq<Option<NWType>>,
    name: Seq<u8>,
    n: int,
)
    ensures
        variant_in(op, nwtypes, name, n) is Some ==> op.legal_types().len() > 1,
    decreases n,
{
    if n > 0 {
        lemma_variant_in_several(op, nwtypes, name, n - 1);
    }
}

/// The slot that `find_variant` finds holds an instruction of several types.
proof fn lemma_find_variant_holds(
    opcodes: Seq<Option<Opcode>>,
    nwtypes: Seq<Option<NWType>>,
    name: Seq<u8>,
    n: int,
)
    requires
        n <= opcodes.len(),
    ensures
        find_variant(opcodes, nwtypes, name, n) is Some ==> ({
            let found = find_variant(opcodes, nwtypes, name, n)->0;
            let i = found.0;
            0 <= i < n && opcodes[i] is Some && opcodes[i]->0.legal_types().len() > 1
        }),
    decreases n,
{
    if n > 0 {
        lemma_find_variant_holds(opcodes, nwtypes, name, n - 1);
        if opcodes[n - 1] is Some {
            lemma_variant_in_several(
                opcodes[n - 1]->0,
                nwtypes,
                name,
                opcodes[n - 1]->0.legal_types().len() as int,
            );
        }
    }
}

/// By the built-in tables, the byte count of a program stands in four bytes
/// behind the code byte of `T`.
proof fn lemma_builtin_slot(table: Seq<Option<Opcode>>, tokens: Seq<Seq<u8>>, number: usize)
    requires
        is_builtin_table(table),
        resolve(tokens, table, builtin_nwtypes(), number) is Ok,
        total_slot(tokens, number, table, builtin_nwtypes()) is Ok,
    ensures
        total_slot(tokens, number, table, builtin_nwtypes())->Ok_0.at == 1,
        total_slot(tokens, number, table, builtin_nwtypes())->Ok_0.width == 4,
{
    let nw = builtin_nwtypes();
    let n = table.len() as int;
    let r = resolve(tokens, table, nw, number)->Ok_0;
    lemma_find_variant_holds(table, nw, tokens[0], n);
    lemma_find_opcode_holds(table, tokens[0], n);
    let op = table[r.index]->0;
    let d = OpcodeE::with_code(r.index as u8)->0;
    assert(is_builtin(op, d));
    assert(op.operands(0) == builtin_operands(OpcodeE::T, 0));
}

/// By the built-in tables, where the assembler has found the place of the
/// byte count, it is the four bytes behind the code byte of `T`.
proof fn lemma_builtin_lines_slot(
    lines: Seq<Seq<u8>>,
    table: Seq<Option<Opcode>>,
    routines: Map<u16, Routine>,
    floats: Seq<FloatText>,
    i: int,
    slot: Option<Slot>,
    acc: Seq<u8>,
)
    requires
        is_builtin_table(table),
        0 <= i,
        slot is Some ==> slot->0.at == 1 && slot->0.width == 4,
        assemble_lines(lines, table, builtin_nwtypes(), routines, floats, i, slot, acc) is Ok,
    ensures
        ({
            let found = assemble_lines(
                lines,
                table,
                builtin_nwtypes(),
                routines,
                floats,
                i,
                slot,
                acc,
            )->Ok_0.1;
            found is Some ==> found->0.at == 1 && found->0.width == 4
        }),
    decreases lines.len() - i,
{
    let nw = builtin_nwtypes();
    if i < lines.len() {
        let number = (i + 1) as usize;
        let tokens = tokens_of(lines[i])->Ok_0;
        if tokens.len() == 0 {
            lemma_builtin_lines_slot(lines, table, routines, floats, i + 1, slot, acc);
        } else {
            let b = tokens_bytes(tokens, number, table, nw, routines, floats)->Ok_0;
            match slot {
                Some(_) => {
                    lemma_builtin_lines_slot(lines, table, routines, floats, i + 1, slot, acc + b);
                },
                None => {
                    lemma_builtin_slot(table, tokens, number);
                    let found = total_slot(tokens, number, table, nw)->Ok_0;
                    lemma_builtin_lines_slot(
                        lines,
                        table,
                        routines,
                        floats,
                        i + 1,
                        Some(found),
                        acc + b,
                    );
                },
            }
        }
    }
}

/// By the built-in tables, a program that was assembled starts with the
/// header and holds its own length in the four bytes behind the code byte
/// of `T`.
pub proof fn law_assembled_total(
    text: Seq<u8>,
    table: Seq<Option<Opcode>>,
    routines: Map<u16, Routine>,
    floats: Seq<FloatText>,
)
    requires
        is_builtin_table(table),
        assembly(text, table, routines, floats) is Ok,
    ensures
        ({
            let stream = assembly(text, table, routines, floats)->Ok_0;
            &&& stream.len() >= HEADER_BYTES + 5
            &&& stream.len() < span(4)
            &&& stream.subrange(0, HEADER_BYTES as int) == header()
            &&& stream.subrange(HEADER_BYTES + 1, HEADER_BYTES + 5) == be_bytes(stream.len(), 4)
        }),
{
    let nw = builtin_nwtypes();
    let stream = assembly(text, table, routines, floats)->Ok_0;
    let none = Seq::<u8>::empty();
    let out = assemble_lines(lines_of(text), table, nw, routines, floats, 0, None, none)->Ok_0;
    let body = out.0;
    lemma_builtin_lines_slot(lines_of(text), table, routines, floats, 0, None, none);
    lemma_slot_inside(lines_of(text), table, nw, routines, floats, 0, None, none);
    crate::io_utils::lemma_be_bytes_len((HEADER_BYTES + body.len()) as nat, 4);
    let total = (HEADER_BYTES + body.len()) as nat;
    let patched = header() + body.subrange(0, 1) + be_bytes(total, 4) + body.subrange(
        5,
        body.len() as int,
    );
    assert(stream == patched);
    assert(stream.len() == total);
    assert(stream.subrange(0, HEADER_BYTES as int) =~= header());
    assert(stream.subrange(HEADER_BYTES + 1, HEADER_BYTES + 5) =~= be_bytes(total, 4));
}

/// The place of the byte count that the assembler has found lies inside
/// the bytes that it has made.
proof fn lemma_slot_inside(
    lines: Seq<Seq<u8>>,
    opcodes: Seq<Option<Opcode>>,
    nwtypes: Seq<Option<NWType>>,
    routines: Map<u16, Routine>,
    floats: Seq<FloatText>,
    i: int,
    slot: Option<Slot>,
    acc: Seq<u8>,
)
    requires
        0 <= i,
        slot is Some ==> 0 <= slot->0.at && slot->0.at + slot->0.width <= acc.len(),
        slot is None ==> acc.len() == 0,
        assemble_lines(lines, opcodes, nwtypes, routines, floats, i, slot, acc) is Ok,
    ensures
        ({
            let out = assemble_lines(lines, opcodes, nwtypes, routines, floats, i, slot, acc)->Ok_0;
            out.1 is Some ==> 0 <= out.1->0.at && out.1->0.at + out.1->0.width <= out.0.len()
        }),
    decreases lines.len() - i,
{
    if i < lines.len() {
        let number = (i + 1) as usize;
        let tokens = tokens_of(lines[i])->Ok_0;
        if tokens.len() == 0 {
            lemma_slot_inside(lines, opcodes, nwtypes, routines, floats, i + 1, slot, acc);
        } else {
            let b = tokens_bytes(tokens, number, opcodes, nwtypes, routines, floats)->Ok_0;
            match slot {
                Some(_) => {
                    lemma_slot_inside(
                        lines,
                        opcodes,
                        nwtypes,
                        routines,
                        floats,
                        i + 1,
                        slot,
                        acc + b,
                    );
                },
                None => {
                    crate::assemble::lemma_total_slot_inside(
                        tokens,
                        number,
                        opcodes,
                        nwtypes,
                        routines,
                        floats,
                    );
                    let found = total_slot(tokens, number, opcodes, nwtypes)->Ok_0;
                    lemma_slot_inside(
                        lines,
                        opcodes,
                        nwtypes,
                        routines,
                        floats,
                        i + 1,
                        Some(found),
                        acc + b,
                    );
                },
            }
        }
    }
}

/// By the built-in tables, a text that was assembled and disassembled is
/// assembled again as the same program, where the program is disassembled
/// at all, every type has a suffix unless the mnemonic alone tells it, and
/// every operand is written readably. The text in between is the text in
/// its standard form: a line for each instruction, the column of the
/// mnemonics padded, every number in the notation of its kind.
pub proof fn law_builtin_text_reread(
    text: Seq<u8>,
    table: Seq<Option<Opcode>>,
    routines: Map<u16, Routine>,
    floats: Seq<FloatText>,
)
    requires
        is_builtin_table(table),
        assembly(text, table, routines, floats) is Ok,
        disassembly(assembly(text, table, routines, floats)->Ok_0, table, routines, floats) is Ok,
        plain_program(
            assembly(text, table, routines, floats)->Ok_0,
            table,
            routines,
            floats,
            HEADER_BYTES as int,
            assembly(text, table, routines, floats)->Ok_0.len() as int,
        ),
    ensures
        assembly(
            disassembly(
                assembly(text, table, routines, floats)->Ok_0,
                table,
                routines,
                floats,
            )->Ok_0,
            table,
            routines,
            floats,
        ) == assembly(text, table, routines, floats),
{
    let stream = assembly(text, table, routines, floats)->Ok_0;
    let start = HEADER_BYTES as int;
    law_assembled_total(text, table, routines, floats);
    let t = decode_op(stream, table, start)->Ok_0;
    lemma_decode_len(stream, table, start);
    if stream[start] < table.len() && table[stream[start] as int] is Some {
        law_table_by_code(table, stream[start]);
    }
    law_encode_decode(stream, table, start);
    let d = OpcodeE::with_code(t.op.code.code_of())->0;
    assert(is_builtin(t.op, d));
    assert(t.op.operands(0) == builtin_operands(OpcodeE::T, 0));
    assert(t.items[0].0 == t.op.operands(0)[0]);
    assert(legal_item(t.items, 0));
    let size = t.items[0].1;
    assert(items_bytes(t.items, 1) == items_bytes(t.items, 0) + size);
    assert(items_bytes(t.items, 0) =~= Seq::<u8>::empty());
    assert(encode_instr(t) =~= seq![t.op.code.code_of()] + size);
    assert(size =~= stream.subrange(start + 1, start + 5)) by {
        assert(encode_instr(t).subrange(1, 5) =~= size);
        assert(stream.subrange(start, start + 5).subrange(1, 5) =~= stream.subrange(
            start + 1,
            start + 5,
        ));
    }
    law_bytes_spell_value(stream.len(), 4);
    law_builtin_reread(stream, table, routines, floats);
}

} // verus!
