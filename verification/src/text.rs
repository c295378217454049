//! Numbers as text: the digits that assembly text spells them with.

use vstd::prelude::*;

verus! {

/// `0`
pub const DIGIT_0: u8 = 0x30;

/// `A`
pub const UPPER_A: u8 = 0x41;

/// `a`
pub const LOWER_A: u8 = 0x61;

/// `x`
pub const LOWER_X: u8 = 0x78;

/// `-`
pub const MINUS: u8 = 0x2D;

/// `+`
pub const PLUS: u8 = 0x2B;

/// A space.
pub const SPACE: u8 = 0x20;

/// `"`
pub const QUOTE: u8 = 0x22;

/// `\`
pub const BACKSLASH: u8 = 0x5C;

/// `#`
pub const HASH: u8 = 0x23;

/// `@`
pub const AT: u8 = 0x40;

/// `;`
pub const SEMICOLON: u8 = 0x3B;

/// `?`
pub const QUESTION: u8 = 0x3F;

/// `/`
pub const SLASH: u8 = 0x2F;

/// `(`
pub const OPEN: u8 = 0x28;

/// `)`
pub const CLOSE: u8 = 0x29;

/// `,`
pub const COMMA: u8 = 0x2C;

/// `=`
pub const EQUALS: u8 = 0x3D;

/// `[`
pub const BRACKET_OPEN: u8 = 0x5B;

/// `]`
pub const BRACKET_CLOSE: u8 = 0x5D;

/// The line feed.
pub const NEWLINE: u8 = 0x0A;

/// The carriage return.
pub const RETURN: u8 = 0x0D;

/// The digit that stands for `d` in text: `0` to `9`, then `A` to `Z`.
pub open spec fn digit_char(d: nat) -> u8 {
    if d < 10 {
        (DIGIT_0 + d) as u8
    } else {
        (UPPER_A + d - 10) as u8
    }
}

/// The shortest spelling of `v` in hexadecimal, with upper-case digits.
pub open spec fn hex_digits(v: nat) -> Seq<u8>
    decreases v,
{
    if v < 16 {
        seq![digit_char(v)]
    } else {
        hex_digits(v / 16).push(digit_char(v % 16))
    }
}

/// The shortest spelling of `v` in decimal.
pub open spec fn dec_digits(v: nat) -> Seq<u8>
    decreases v,
{
    if v < 10 {
        seq![digit_char(v)]
    } else {
        dec_digits(v / 10).push(digit_char(v % 10))
    }
}

/// The `width` low hexadecimal digits of `v`, upper case.
pub open spec fn hex_fixed(v: nat, width: nat) -> Seq<u8>
    decreases width,
{
    if width == 0 {
        Seq::empty()
    } else {
        hex_fixed(v / 16, (width - 1) as nat).push(digit_char(v % 16))
    }
}

/// `v` in hexadecimal behind `0x`, as short as it can be.
pub open spec fn hex_text(v: nat) -> Seq<u8> {
    seq![DIGIT_0, LOWER_X] + hex_digits(v)
}

/// `v` in hexadecimal behind `0x`, in exactly `width` digits.
pub open spec fn hex_text_fixed(v: nat, width: nat) -> Seq<u8> {
    seq![DIGIT_0, LOWER_X] + hex_fixed(v, width)
}

/// `v` in decimal, with `-` before a negative number.
pub open spec fn decimal_text(v: int) -> Seq<u8> {
    if v < 0 {
        seq![MINUS] + dec_digits((-v) as nat)
    } else {
        dec_digits(v as nat)
    }
}

/// `n` spaces.
pub open spec fn spaces(n: nat) -> Seq<u8> {
    Seq::new(n, |i: int| SPACE)
}

/// The digit that stands for `d`.
fn digit_byte(d: u8) -> (c: u8)
    requires
        d < 36,
    ensures
        c == digit_char(d as nat),
{
    if d < 10 {
        DIGIT_0 + d
    } else {
        UPPER_A + (d - 10)
    }
}

/// Appends the shortest spelling of `v` in hexadecimal.
pub fn push_hex_digits(out: &mut Vec<u8>, v: u32)
    ensures
        final(out)@ == old(out)@ + hex_digits(v as nat),
    decreases v,
{
    if v >= 16 {
        push_hex_digits(out, v / 16);
    }
    out.push(digit_byte((v % 16) as u8));
    proof {
        assert(final(out)@ =~= old(out)@ + hex_digits(v as nat));
    }
}

/// Appends the shortest spelling of `v` in decimal.
pub fn push_dec_digits(out: &mut Vec<u8>, v: u32)
    ensures
        final(out)@ == old(out)@ + dec_digits(v as nat),
    decreases v,
{
    if v >= 10 {
        push_dec_digits(out, v / 10);
    }
    out.push(digit_byte((v % 10) as u8));
    proof {
        assert(final(out)@ =~= old(out)@ + dec_digits(v as nat));
    }
}

/// Appends `v` in hexadecimal behind `0x`, as short as it can be.
pub fn push_hex(out: &mut Vec<u8>, v: u32)
    ensures
        final(out)@ == old(out)@ + hex_text(v as nat),
{
    out.push(DIGIT_0);
    out.push(LOWER_X);
    push_hex_digits(out, v);
    proof {
        assert(final(out)@ =~= old(out)@ + hex_text(v as nat));
    }
}

/// Appends `v` in hexadecimal behind `0x`, in exactly `width` digits.
pub fn push_hex_padded(out: &mut Vec<u8>, v: u32, width: u8)
    ensures
        final(out)@ == old(out)@ + hex_text_fixed(v as nat, width as nat),
{
    out.push(DIGIT_0);
    out.push(LOWER_X);
    push_hex_fixed(out, v, width);
    proof {
        assert(final(out)@ =~= old(out)@ + hex_text_fixed(v as nat, width as nat));
    }
}

/// Appends the `width` low hexadecimal digits of `v`.
pub fn push_hex_fixed(out: &mut Vec<u8>, v: u32, width: u8)
    ensures
        final(out)@ == old(out)@ + hex_fixed(v as nat, width as nat),
    decreases width,
{
    if width > 0 {
        push_hex_fixed(out, v / 16, width - 1);
        out.push(digit_byte((v % 16) as u8));
    }
    proof {
        assert(final(out)@ =~= old(out)@ + hex_fixed(v as nat, width as nat));
    }
}

/// Appends `v` in decimal, with `-` before a negative number.
pub fn push_decimal(out: &mut Vec<u8>, v: i32)
    ensures
        final(out)@ == old(out)@ + decimal_text(v as int),
{
    if v < 0 {
        out.push(MINUS);
        let m: u32 = if v == i32::MIN {
            0x8000_0000
        } else {
            (-v) as u32
        };
        push_dec_digits(out, m);
    } else {
        push_dec_digits(out, v as u32);
    }
    proof {
        assert(final(out)@ =~= old(out)@ + decimal_text(v as int));
    }
}

/// Appends `n` spaces.
pub fn push_spaces(out: &mut Vec<u8>, n: usize)
    ensures
        final(out)@ == old(out)@ + spaces(n as nat),
{
    let mut i: usize = 0;
    while i < n
        invariant
            i <= n,
            out@ == old(out)@ + spaces(i as nat),
        decreases n - i,
    {
        out.push(SPACE);
        i += 1;
        proof {
            assert(out@ =~= old(out)@ + spaces(i as nat));
        }
    }
}

/// Appends the bytes of `s`.
pub fn push_bytes(out: &mut Vec<u8>, s: &[u8])
    ensures
        final(out)@ == old(out)@ + s@,
{
    let n = s.len();
    let mut i: usize = 0;
    while i < n
        invariant
            i <= n,
            n == s@.len(),
            out@ == old(out)@ + s@.subrange(0, i as int),
        decreases n - i,
    {
        out.push(s[i]);
        i += 1;
        proof {
            assert(out@ =~= old(out)@ + s@.subrange(0, i as int));
        }
    }
    proof {
        assert(s@.subrange(0, n as int) =~= s@);
    }
}

/// The value of the digit `b`: `0` to `9`, then the letters in either case
/// from ten on.
pub open spec fn digit_value(b: u8) -> Option<nat> {
    if DIGIT_0 <= b <= DIGIT_0 + 9 {
        Some((b - DIGIT_0) as nat)
    } else if LOWER_A <= b <= LOWER_A + 25 {
        Some((b - LOWER_A + 10) as nat)
    } else if UPPER_A <= b <= UPPER_A + 25 {
        Some((b - UPPER_A + 10) as nat)
    } else {
        None
    }
}

/// Whether `b` is a digit of the given radix.
pub open spec fn is_digit(b: u8, radix: nat) -> bool {
    digit_value(b) is Some && digit_value(b)->0 < radix
}

/// Whether `s` is made of digits of the given radix alone.
pub open spec fn all_digits(s: Seq<u8>, radix: nat) -> bool {
    forall|i: int| 0 <= i < s.len() ==> is_digit(#[trigger] s[i], radix)
}

/// The number that the digits `s` spell in the given radix.
pub open spec fn digits_value(s: Seq<u8>, radix: nat) -> nat
    decreases s.len(),
{
    if s.len() == 0 {
        0
    } else {
        digits_value(s.drop_last(), radix) * radix + digit_value(s.last())->0
    }
}

/// Whether `s` starts with a sign: `+`, or `-` where `signed` allows it.
pub open spec fn has_sign(s: Seq<u8>, signed: bool) -> bool {
    s.len() > 0 && (s[0] == PLUS || (signed && s[0] == MINUS))
}

/// The number that `s` spells: one sign at most, then one digit at least, and
/// nothing else. `-` is a sign only where `signed` is set.
pub open spec fn parse_number(s: Seq<u8>, radix: nat, signed: bool) -> Option<int> {
    let body = if has_sign(s, signed) {
        s.drop_first()
    } else {
        s
    };
    if body.len() == 0 || !all_digits(body, radix) {
        None
    } else if has_sign(s, signed) && s[0] == MINUS {
        Some(-(digits_value(body, radix) as int))
    } else {
        Some(digits_value(body, radix) as int)
    }
}

/// The number that `s` spells, where it lies between `min` and `max`.
pub open spec fn parse_in_range(s: Seq<u8>, radix: nat, min: int, max: int) -> Option<int> {
    match parse_number(s, radix, min < 0) {
        Some(v) => if min <= v <= max {
            Some(v)
        } else {
            None
        },
        None => None,
    }
}

/// `s` without the prefix `prefix`, where it starts with it.
pub open spec fn strip_prefix(prefix: Seq<u8>, s: Seq<u8>) -> Seq<u8> {
    if prefix.len() <= s.len() && s.subrange(0, prefix.len() as int) == prefix {
        s.subrange(prefix.len() as int, s.len() as int)
    } else {
        s
    }
}

/// The digits before the last one spell the number without its last digit.
proof fn lemma_digits_value_prefix(s: Seq<u8>, radix: nat, k: int)
    requires
        0 <= k <= s.len(),
        1 <= radix,
    ensures
        digits_value(s.subrange(0, k), radix) <= digits_value(s, radix),
    decreases s.len() - k,
{
    if k == s.len() {
        assert(s.subrange(0, k) =~= s);
    } else {
        let head = s.drop_last();
        lemma_digits_value_prefix(head, radix, k);
        assert(head.subrange(0, k) =~= s.subrange(0, k));
        assert(digits_value(head, radix) * radix >= digits_value(head, radix))
            by (nonlinear_arith)
            requires
                radix >= 1,
        ;
    }
}

/// The value of the digit `b`, where it is a digit of the given radix.
fn digit_of(b: u8, radix: u32) -> (r: Option<u32>)
    requires
        radix <= 36,
    ensures
        match r {
            Some(d) => is_digit(b, radix as nat) && d == digit_value(b)->0,
            None => !is_digit(b, radix as nat),
        },
{
    let d: u32 = if DIGIT_0 <= b && b <= DIGIT_0 + 9 {
        (b - DIGIT_0) as u32
    } else if LOWER_A <= b && b <= LOWER_A + 25 {
        (b - LOWER_A) as u32 + 10
    } else if UPPER_A <= b && b <= UPPER_A + 25 {
        (b - UPPER_A) as u32 + 10
    } else {
        return None;
    };
    if d < radix {
        Some(d)
    } else {
        None
    }
}

/// Reads the number that `s` spells in the given radix, where it lies
/// between `min` and `max`.
pub fn parse_integer(s: &[u8], radix: u32, min: i64, max: i64) -> (r: Option<i64>)
    requires
        2 <= radix <= 36,
        -0x1_0000_0000 <= min <= 0 <= max <= 0x1_0000_0000,
    ensures
        match r {
            Some(v) => parse_in_range(s@, radix as nat, min as int, max as int) == Some(v as int),
            None => parse_in_range(s@, radix as nat, min as int, max as int) is None,
        },
{
    let n = s.len();
    let signed = min < 0;
    let negative = n > 0 && signed && s[0] == MINUS;
    let start: usize = if n > 0 && (s[0] == PLUS || negative) {
        1
    } else {
        0
    };
    let ghost body = if has_sign(s@, signed) {
        s@.drop_first()
    } else {
        s@
    };
    proof {
        assert(body =~= s@.subrange(start as int, n as int));
    }
    if start == n {
        return None;
    }
    let limit: u64 = if negative {
        (-min) as u64
    } else {
        max as u64
    };
    let ghost goal = parse_in_range(s@, radix as nat, min as int, max as int);
    let mut acc: u64 = 0;
    let mut i: usize = start;
    proof {
        assert(body.subrange(0, 0) =~= Seq::<u8>::empty());
    }
    while i < n
        invariant
            start <= i <= n,
            n == s@.len(),
            2 <= radix <= 36,
            limit <= 0x1_0000_0000,
            body == s@.subrange(start as int, n as int),
            goal == parse_in_range(s@, radix as nat, min as int, max as int),
            !all_digits(body, radix as nat) ==> goal is None,
            all_digits(body, radix as nat) && digits_value(body, radix as nat) > limit
                ==> goal is None,
            all_digits(body, radix as nat) && digits_value(body, radix as nat) <= limit ==> goal
                == Some(
                if negative {
                    -(digits_value(body, radix as nat) as int)
                } else {
                    digits_value(body, radix as nat) as int
                },
            ),
            all_digits(body.subrange(0, i - start), radix as nat),
            acc == digits_value(body.subrange(0, i - start), radix as nat),
            acc <= limit,
        decreases n - i,
    {
        let d = match digit_of(s[i], radix) {
            Some(d) => d,
            None => {
                proof {
                    assert(body[i - start] == s@[i as int]);
                }
                return None;
            },
        };
        assert(acc * radix <= 0x1_0000_0000 * 36) by (nonlinear_arith)
            requires
                acc <= 0x1_0000_0000,
                radix <= 36,
        ;
        let next: u64 = acc * (radix as u64) + d as u64;
        proof {
            let prefix = body.subrange(0, i + 1 - start);
            assert(prefix.drop_last() =~= body.subrange(0, i - start));
            assert(prefix.last() == s@[i as int]);
            assert(next == digits_value(prefix, radix as nat));
            assert(all_digits(prefix, radix as nat)) by {
                assert forall|j: int| 0 <= j < prefix.len() implies is_digit(
                    #[trigger] prefix[j],
                    radix as nat,
                ) by {
                    if j < i - start {
                        assert(prefix[j] == body.subrange(0, i - start)[j]);
                    }
                }
            }
        }
        if next > limit {
            proof {
                lemma_digits_value_prefix(body, radix as nat, i + 1 - start);
                if all_digits(body, radix as nat) {
                    assert(digits_value(body, radix as nat) > limit);
                }
            }
            return None;
        }
        acc = next;
        i += 1;
    }
    proof {
        assert(body.subrange(0, n - start) =~= body);
    }
    if negative {
        Some(-(acc as i64))
    } else {
        Some(acc as i64)
    }
}

/// Whether `s` starts with `prefix`.
pub fn starts_with(s: &[u8], prefix: &[u8]) -> (r: bool)
    ensures
        r == (prefix@.len() <= s@.len() && s@.subrange(0, prefix@.len() as int) == prefix@),
{
    let m = prefix.len();
    if m > s.len() {
        return false;
    }
    let mut i: usize = 0;
    while i < m
        invariant
            i <= m,
            m == prefix@.len(),
            m <= s@.len(),
            forall|j: int| 0 <= j < i ==> s@[j] == prefix@[j],
        decreases m - i,
    {
        if s[i] != prefix[i] {
            proof {
                assert(s@.subrange(0, m as int)[i as int] != prefix@[i as int]);
            }
            return false;
        }
        i += 1;
    }
    proof {
        assert(s@.subrange(0, m as int) =~= prefix@);
    }
    true
}

/// Whether `s` holds no separator, no `"` and no `\`: the bytes that a
/// token can hold outside a string.
pub open spec fn is_plain(s: Seq<u8>) -> bool {
    forall|i: int|
        0 <= i < s.len() ==> !(#[trigger] s[i] == SPACE || (0x09 <= s[i] <= 0x0D) || s[i] == QUOTE
            || s[i] == BACKSLASH)
}

/// The digit that stands for a value below 36 has that value, and is plain.
pub proof fn lemma_digit_char(d: nat)
    requires
        d < 36,
    ensures
        digit_value(digit_char(d)) == Some(d),
        is_plain(seq![digit_char(d)]),
        digit_char(d) != PLUS,
        digit_char(d) != MINUS,
        digit_char(d) != HASH,
{
}

/// A number's hexadecimal digits spell the number.
pub proof fn lemma_hex_digits(v: nat)
    ensures
        hex_digits(v).len() >= 1,
        all_digits(hex_digits(v), 16),
        digits_value(hex_digits(v), 16) == v,
        is_plain(hex_digits(v)),
        forall|i: int| 0 <= i < hex_digits(v).len() ==> #[trigger] hex_digits(v)[i] != HASH,
        hex_digits(v)[0] != PLUS,
        hex_digits(v)[0] != MINUS,
    decreases v,
{
    if v < 16 {
        lemma_digit_char(v);
        assert(hex_digits(v).drop_last() =~= Seq::<u8>::empty());
        assert(digits_value(hex_digits(v).drop_last(), 16) == 0);
    } else {
        lemma_hex_digits(v / 16);
        lemma_digit_char(v % 16);
        assert(hex_digits(v).drop_last() =~= hex_digits(v / 16));
        assert(hex_digits(v)[0] == hex_digits(v / 16)[0]);
    }
}

/// A number's decimal digits spell the number.
pub proof fn lemma_dec_digits(v: nat)
    ensures
        dec_digits(v).len() >= 1,
        all_digits(dec_digits(v), 10),
        digits_value(dec_digits(v), 10) == v,
        is_plain(dec_digits(v)),
        dec_digits(v)[0] != PLUS,
        dec_digits(v)[0] != MINUS,
    decreases v,
{
    if v < 10 {
        lemma_digit_char(v);
        assert(dec_digits(v).drop_last() =~= Seq::<u8>::empty());
        assert(digits_value(dec_digits(v).drop_last(), 10) == 0);
    } else {
        lemma_dec_digits(v / 10);
        lemma_digit_char(v % 10);
        assert(dec_digits(v).drop_last() =~= dec_digits(v / 10));
        assert(dec_digits(v)[0] == dec_digits(v / 10)[0]);
    }
}

/// 16 to the power `width`.
pub open spec fn hex_span(width: nat) -> nat
    decreases width,
{
    if width == 0 {
        1
    } else {
        16 * hex_span((width - 1) as nat)
    }
}

/// A fixed number of hexadecimal digits spell the number, as far as they
/// reach.
pub proof fn lemma_hex_fixed(v: nat, width: nat)
    ensures
        hex_fixed(v, width).len() == width,
        all_digits(hex_fixed(v, width), 16),
        digits_value(hex_fixed(v, width), 16) == v % hex_span(width),
        is_plain(hex_fixed(v, width)),
        width > 0 ==> hex_fixed(v, width)[0] != PLUS && hex_fixed(v, width)[0] != MINUS,
    decreases width,
{
    if width > 0 {
        let rest = hex_fixed(v / 16, (width - 1) as nat);
        lemma_hex_fixed(v / 16, (width - 1) as nat);
        lemma_digit_char(v % 16);
        assert(hex_fixed(v, width).drop_last() =~= rest);
        let h = hex_span((width - 1) as nat);
        lemma_hex_span_positive((width - 1) as nat);
        assert((v / 16 % h) * 16 + v % 16 == v % (16 * h)) by (nonlinear_arith)
            requires
                h > 0,
        ;
        if width > 1 {
            assert(hex_fixed(v, width)[0] == rest[0]);
        }
    }
}

/// A power of 16 is positive.
proof fn lemma_hex_span_positive(width: nat)
    ensures
        hex_span(width) > 0,
    decreases width,
{
    if width > 0 {
        lemma_hex_span_positive((width - 1) as nat);
    }
}

/// Text that is all digits and does not start with a sign is read as the
/// number that the digits spell.
pub proof fn lemma_parse_digits(s: Seq<u8>, radix: nat, min: int, max: int)
    requires
        s.len() >= 1,
        all_digits(s, radix),
        s[0] != PLUS,
        s[0] != MINUS,
        min <= digits_value(s, radix) <= max,
    ensures
        parse_in_range(s, radix, min, max) == Some(digits_value(s, radix) as int),
{
}

/// The decimal text of a number is read as the number.
pub proof fn lemma_parse_decimal(v: int, min: int, max: int)
    requires
        min <= v <= max,
        min < 0,
    ensures
        parse_in_range(decimal_text(v), 10, min, max) == Some(v),
        is_plain(decimal_text(v)),
        decimal_text(v).len() >= 1,
{
    if v < 0 {
        let d = dec_digits((-v) as nat);
        lemma_dec_digits((-v) as nat);
        let t = decimal_text(v);
        assert(t.drop_first() =~= d);
        assert(t[0] == MINUS);
    } else {
        lemma_dec_digits(v as nat);
    }
}

/// Text behind a prefix is what is left when the prefix is taken off.
pub proof fn lemma_strip_prefix(prefix: Seq<u8>, s: Seq<u8>)
    ensures
        strip_prefix(prefix, prefix + s) == s,
{
    let whole = prefix + s;
    assert(whole.subrange(0, prefix.len() as int) =~= prefix);
    assert(whole.subrange(prefix.len() as int, whole.len() as int) =~= s);
}

} // verus!
