//! Instructions as bytes again, and what holds between the two directions.

use crate::assemble::{head_bytes, list_key};
use crate::disassemble::{
    decode_op, read_operands, reads_unsigned, unsigned_width, DisassemblyError,
};
use crate::io_utils::be_value;
use crate::opcodes::{Instr, OpPayload, Opcode, Operand};
use crate::text::push_bytes;
use vstd::prelude::*;

verus! {

/// The bytes of the first `n` operands, one behind the other.
pub open spec fn items_bytes(items: Seq<(Operand, Seq<u8>)>, n: int) -> Seq<u8>
    decreases n,
{
    if n <= 0 {
        Seq::empty()
    } else {
        items_bytes(items, n - 1) + items[n - 1].1
    }
}

/// The bytes of an instruction: the code byte, the type byte if it has
/// one, and the bytes of its operands.
pub open spec fn encode_instr(instr: Instr) -> Seq<u8> {
    head_bytes(instr.op, instr.type_byte) + items_bytes(instr.items, instr.items.len() as int)
}

/// The value of the last size among the first `i` operands.
pub open spec fn size_before(items: Seq<(Operand, Seq<u8>)>, i: int) -> Option<nat>
    decreases i,
{
    if i <= 0 {
        None
    } else if items[i - 1].0 is Size {
        Some(be_value(items[i - 1].1))
    } else {
        size_before(items, i - 1)
    }
}

/// Whether operand `i` holds as many bytes as it must: its width, which is
/// one, two or four if it is read as an unsigned number, or what the last
/// size before it says if it is a string.
pub open spec fn legal_item(items: Seq<(Operand, Seq<u8>)>, i: int) -> bool {
    let o = items[i].0;
    let b = items[i].1;
    match o.width() {
        Some(w) => b.len() == w && (reads_unsigned(o) ==> unsigned_width(w as nat)),
        None => size_before(items, i) == Some(b.len()),
    }
}

/// Whether `instr` is an instruction of the table `opcodes`: its entry
/// stands in the table under its own code, its type byte is a legal one, or
/// absent where the entry has no types, and its operands are those of the
/// entry under that type, each with as many bytes as it must have.
pub open spec fn legal_instr(instr: Instr, opcodes: Seq<Option<Opcode>>) -> bool {
    let list = instr.op.operands(list_key(instr.type_byte));
    &&& instr.op.code.code_of() < opcodes.len()
    &&& opcodes[instr.op.code.code_of() as int] == Some(instr.op)
    &&& match instr.type_byte {
        Some(t) => instr.op.typed() && instr.op.legal(t),
        None => !instr.op.typed(),
    }
    &&& instr.items.len() == list.len()
    &&& forall|i: int| 0 <= i < instr.items.len() ==> (#[trigger] instr.items[i]).0 == list[i]
    &&& forall|i: int| 0 <= i < instr.items.len() ==> legal_item(instr.items, i)
    &&& instr.len == encode_instr(instr).len()
}

/// The bytes of the first operands are the start of the bytes of all.
proof fn lemma_items_bytes_prefix(items: Seq<(Operand, Seq<u8>)>, i: int, n: int)
    requires
        0 <= i <= n <= items.len(),
    ensures
        items_bytes(items, i).len() <= items_bytes(items, n).len(),
        items_bytes(items, n).subrange(0, items_bytes(items, i).len() as int) == items_bytes(
            items,
            i,
        ),
    decreases n - i,
{
    if i == n {
        assert(items_bytes(items, n).subrange(0, items_bytes(items, n).len() as int)
            =~= items_bytes(items, n));
    } else {
        lemma_items_bytes_prefix(items, i, n - 1);
        let short = items_bytes(items, n - 1);
        let k = items_bytes(items, i).len() as int;
        assert(items_bytes(items, n).subrange(0, k) =~= short.subrange(0, k));
    }
}

/// The bytes of operand `i` stand in the bytes of all behind those before it.
proof fn lemma_items_bytes_at(items: Seq<(Operand, Seq<u8>)>, i: int)
    requires
        0 <= i < items.len(),
    ensures
        items_bytes(items, i).len() + items[i].1.len() <= items_bytes(
            items,
            items.len() as int,
        ).len(),
        items_bytes(items, items.len() as int).subrange(
            items_bytes(items, i).len() as int,
            (items_bytes(items, i).len() + items[i].1.len()) as int,
        ) == items[i].1,
{
    let n = items.len() as int;
    lemma_items_bytes_prefix(items, i + 1, n);
    let all = items_bytes(items, n);
    let upto = items_bytes(items, i + 1);
    let from = items_bytes(items, i).len() as int;
    assert(upto.subrange(from, upto.len() as int) =~= items[i].1);
    assert(all.subrange(from, from + items[i].1.len()) =~= all.subrange(
        0,
        upto.len() as int,
    ).subrange(from, upto.len() as int));
}

/// Reading the operands of a legal instruction from its own bytes gives
/// the operands back.
proof fn lemma_read_items(
    stream: Seq<u8>,
    list: Seq<Operand>,
    items: Seq<(Operand, Seq<u8>)>,
    i: int,
    start: int,
)
    requires
        0 <= i <= items.len(),
        items.len() == list.len(),
        forall|k: int| 0 <= k < items.len() ==> (#[trigger] items[k]).0 == list[k],
        forall|k: int| 0 <= k < items.len() ==> legal_item(items, k),
        0 <= start,
        start + items_bytes(items, items.len() as int).len() <= stream.len(),
        stream.subrange(start, start + items_bytes(items, items.len() as int).len())
            == items_bytes(items, items.len() as int),
    ensures
        read_operands(
            stream,
            list,
            i,
            start + items_bytes(items, i).len(),
            size_before(items, i),
            items.subrange(0, i),
        ) == Ok::<(Seq<(Operand, Seq<u8>)>, int), DisassemblyError>(
            (items, start + items_bytes(items, items.len() as int).len()),
        ),
    decreases items.len() - i,
{
    let n = items.len() as int;
    let all = items_bytes(items, n);
    if i == n {
        assert(items.subrange(0, i) =~= items);
    } else {
        let o = list[i];
        let b = items[i].1;
        let pos = start + items_bytes(items, i).len();
        assert(items[i].0 == o);
        assert(legal_item(items, i));
        lemma_items_bytes_at(items, i);
        let w = b.len() as int;
        assert(stream.subrange(pos, pos + w) =~= stream.subrange(
            start,
            start + all.len(),
        ).subrange(pos - start, pos - start + w));
        assert(stream.subrange(pos, pos + w) == b);
        assert(items.subrange(0, i).push((o, b)) =~= items.subrange(0, i + 1));
        lemma_read_items(stream, list, items, i + 1, start);
    }
}

/// Decoding the bytes of a legal instruction gives the instruction back,
/// whatever stands before and behind them.
pub proof fn law_decode_encode(
    instr: Instr,
    opcodes: Seq<Option<Opcode>>,
    before: Seq<u8>,
    after: Seq<u8>,
)
    requires
        legal_instr(instr, opcodes),
    ensures
        decode_op(before + encode_instr(instr) + after, opcodes, before.len() as int) == Ok::<
            Instr,
            DisassemblyError,
        >(instr),
{
    let stream = before + encode_instr(instr) + after;
    let pos = before.len() as int;
    let head = head_bytes(instr.op, instr.type_byte);
    let list = instr.op.operands(list_key(instr.type_byte));
    let n = instr.items.len() as int;
    let body = items_bytes(instr.items, n);
    let start = pos + head.len();
    assert(stream[pos] == instr.op.code.code_of());
    if instr.type_byte is Some {
        assert(stream[pos + 1] == instr.type_byte->0);
    }
    assert(stream.subrange(start, start + body.len()) =~= body);
    lemma_read_items(stream, list, instr.items, 0, start);
    assert(instr.items.subrange(0, 0) =~= Seq::<(Operand, Seq<u8>)>::empty());
}

/// The bytes of a decoded instruction.
pub fn encode_op(payload: &OpPayload) -> (r: Vec<u8>)
    ensures
        r@ == encode_instr(payload@),
{
    let mut out: Vec<u8> = Vec::new();
    out.push(payload.op.code.code());
    match payload._type {
        Some(t) => {
            out.push(t);
        },
        None => {},
    }
    proof {
        assert(out@ =~= head_bytes(*payload.op, payload._type));
    }
    let ghost head = out@;
    let n = payload.args.len();
    let mut i: usize = 0;
    while i < n
        invariant
            i <= n,
            n == payload.args@.len(),
            n == payload@.items.len(),
            out@ == head + items_bytes(payload@.items, i as int),
        decreases n - i,
    {
        push_bytes(&mut out, payload.args[i].1.as_slice());
        i += 1;
        proof {
            assert(out@ =~= head + items_bytes(payload@.items, i as int));
        }
    }
    out
}

/// The size before operand `k` depends on the operands before `k` alone.
proof fn lemma_size_before_same(
    a: Seq<(Operand, Seq<u8>)>,
    b: Seq<(Operand, Seq<u8>)>,
    k: int,
)
    requires
        0 <= k <= a.len(),
        k <= b.len(),
        forall|j: int| 0 <= j < k ==> a[j] == b[j],
    ensures
        size_before(a, k) == size_before(b, k),
    decreases k,
{
    if k > 0 {
        lemma_size_before_same(a, b, k - 1);
    }
}

/// The bytes of the first `k` operands depend on those operands alone.
proof fn lemma_items_bytes_same(
    a: Seq<(Operand, Seq<u8>)>,
    b: Seq<(Operand, Seq<u8>)>,
    k: int,
)
    requires
        0 <= k <= a.len(),
        k <= b.len(),
        forall|j: int| 0 <= j < k ==> a[j] == b[j],
    ensures
        items_bytes(a, k) == items_bytes(b, k),
    decreases k,
{
    if k > 0 {
        lemma_items_bytes_same(a, b, k - 1);
    }
}

/// What `read_operands` reads are the operands of the list, each with as
/// many bytes as it must have, and their bytes are those of the stream.
proof fn lemma_read_operands_sound(
    stream: Seq<u8>,
    list: Seq<Operand>,
    i: int,
    pos: int,
    size: Option<nat>,
    acc: Seq<(Operand, Seq<u8>)>,
    start: int,
)
    requires
        0 <= i <= list.len(),
        acc.len() == i,
        0 <= start <= pos <= stream.len(),
        forall|k: int| 0 <= k < i ==> (#[trigger] acc[k]).0 == list[k],
        forall|k: int| 0 <= k < i ==> legal_item(acc, k),
        size == size_before(acc, i),
        pos == start + items_bytes(acc, i).len(),
        stream.subrange(start, pos) == items_bytes(acc, i),
        read_operands(stream, list, i, pos, size, acc) is Ok,
    ensures
        ({
            let items = read_operands(stream, list, i, pos, size, acc)->Ok_0.0;
            let end = read_operands(stream, list, i, pos, size, acc)->Ok_0.1;
            &&& items.len() == list.len()
            &&& forall|k: int| 0 <= k < items.len() ==> (#[trigger] items[k]).0 == list[k]
            &&& forall|k: int| 0 <= k < items.len() ==> legal_item(items, k)
            &&& end == start + items_bytes(items, items.len() as int).len()
            &&& end <= stream.len()
            &&& stream.subrange(start, end) == items_bytes(items, items.len() as int)
        }),
    decreases list.len() - i,
{
    if i < list.len() {
        let o = list[i];
        let width: Option<nat> = match o.width() {
            Some(w) => Some(w as nat),
            None => size,
        };
        let w = width->0;
        let bytes = stream.subrange(pos, pos + w);
        let next = acc.push((o, bytes));
        let size2 = if o is Size {
            Some(be_value(bytes))
        } else {
            size
        };
        assert forall|k: int| 0 <= k < i + 1 implies legal_item(next, k) by {
            lemma_size_before_same(acc, next, k);
            if k < i {
                assert(legal_item(acc, k));
                assert(next[k] == acc[k]);
            }
        }
        lemma_size_before_same(acc, next, i);
        lemma_items_bytes_same(acc, next, i);
        assert(items_bytes(next, i + 1) == items_bytes(next, i) + bytes);
        assert(stream.subrange(start, pos + w) =~= stream.subrange(start, pos) + bytes);
        lemma_read_operands_sound(stream, list, i + 1, pos + w, size2, next, start);
    }
}

/// Whether the table holds each instruction under its own code, as far as
/// slot `code` goes.
pub open spec fn by_code(opcodes: Seq<Option<Opcode>>, code: u8) -> bool {
    code < opcodes.len() && opcodes[code as int] is Some ==> opcodes[code as int]->0.code.code_of()
        == code
}

/// What is decoded is a legal instruction, and its bytes are those that it
/// was decoded from, where the table holds the instruction under its own
/// code.
pub proof fn law_encode_decode(stream: Seq<u8>, opcodes: Seq<Option<Opcode>>, pos: int)
    requires
        decode_op(stream, opcodes, pos) is Ok,
        by_code(opcodes, stream[pos]),
    ensures
        legal_instr(decode_op(stream, opcodes, pos)->Ok_0, opcodes),
        pos + decode_op(stream, opcodes, pos)->Ok_0.len <= stream.len(),
        encode_instr(decode_op(stream, opcodes, pos)->Ok_0) == stream.subrange(
            pos,
            pos + decode_op(stream, opcodes, pos)->Ok_0.len,
        ),
{
    let instr = decode_op(stream, opcodes, pos)->Ok_0;
    let op = instr.op;
    let head = head_bytes(op, instr.type_byte);
    let start = pos + head.len();
    let list = op.operands(list_key(instr.type_byte));
    let none = Seq::<(Operand, Seq<u8>)>::empty();
    assert(stream.subrange(start, start) =~= items_bytes(none, 0));
    lemma_read_operands_sound(stream, list, 0, start, None, none, start);
    let n = instr.items.len() as int;
    let end = start + items_bytes(instr.items, n).len();
    assert(stream.subrange(pos, end) =~= head + items_bytes(instr.items, n));
}

} // verus!
