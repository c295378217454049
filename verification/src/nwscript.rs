//! The definitions file: the routines and constants of the engine, in a
//! notation like that of C declarations.
//!
//! ```text
//! document  := skip (statement skip)*
//! statement := word skip word skip '(' skip params ')' skip '=' skip number skip ';'
//!            | word skip word skip '=' skip value skip ';'
//! params    := (param skip (',' skip param skip)*)?
//! param     := word skip word (skip '=' skip value)?
//! value     := '"' ... '"' | '[' ... ']' | bytes up to a blank, ',', ')' or ';'
//! skip      := (blank | '//' ... end of line)*
//! ```

use crate::assemble::{is_separator, is_space};
use crate::opcodes::is_word_byte;
use crate::text::{
    parse_in_range, parse_integer, BACKSLASH, BRACKET_CLOSE, BRACKET_OPEN, CLOSE, COMMA, EQUALS,
    NEWLINE, OPEN, QUOTE, SEMICOLON, SLASH,
};
use crate::{
    arg_views, statement_views, Constant, ConstantView, Routine, RoutineArg, RoutineArgView,
    RoutineView, Statement, StatementView,
};
use vstd::prelude::*;
use vstd::slice::slice_subrange;

verus! {

/// What the parser looked for where it stopped.
#[derive(Debug, PartialEq, Eq, Clone, Copy, Structural)]
pub enum Expected {
    /// A name: letters, digits and `_`.
    Word,
    /// `(` behind the name of a routine, or `=` behind that of a constant.
    Open,
    /// `,` or `)` behind a parameter.
    Close,
    /// `=` before the code of a routine.
    Equals,
    /// The code of a routine: a decimal number below 65536.
    Number,
    /// A value.
    Value,
    /// `;` at the end of a statement.
    Semicolon,
    /// A routine, where a constant stands.
    Routine,
    /// `//`.
    Comment,
    /// The end of the text.
    End,
}

/// Why a text of definitions could not be read.
#[derive(Debug, PartialEq, Eq, Clone, Copy, Structural)]
pub struct DefinitionError {
    /// Where in the text the parser stopped.
    pub offset: usize,
    /// What it looked for there.
    pub expected: Expected,
}

/// The fault of a text that lacks `expected` at `offset`.
pub open spec fn fault(offset: int, expected: Expected) -> DefinitionError {
    DefinitionError { offset: offset as usize, expected }
}

/// Whether `b` stands at `pos` in `s`.
pub open spec fn at(s: Seq<u8>, pos: int, b: u8) -> bool {
    0 <= pos < s.len() && s[pos] == b
}

/// Where the line that holds `pos` ends: behind its line feed, or at the
/// end of the text.
pub open spec fn line_end(s: Seq<u8>, pos: int) -> int
    decreases s.len() - pos,
{
    if pos < 0 || pos >= s.len() {
        pos
    } else if s[pos] == NEWLINE {
        pos + 1
    } else {
        line_end(s, pos + 1)
    }
}

/// Whether a comment starts at `pos`.
pub open spec fn starts_comment(s: Seq<u8>, pos: int) -> bool {
    at(s, pos, SLASH) && at(s, pos + 1, SLASH)
}

/// The end of a line lies at or behind every place in the line.
pub proof fn lemma_line_end(s: Seq<u8>, pos: int)
    requires
        0 <= pos <= s.len(),
    ensures
        pos <= line_end(s, pos) <= s.len(),
    decreases s.len() - pos,
{
    if pos < s.len() && s[pos] != NEWLINE {
        lemma_line_end(s, pos + 1);
    }
}

/// The first place from `pos` on that is neither blank nor inside a comment.
pub open spec fn skip(s: Seq<u8>, pos: int) -> int
    decreases s.len() - pos,
{
    if pos < 0 || pos >= s.len() {
        pos
    } else if is_space(s[pos]) {
        skip(s, pos + 1)
    } else if starts_comment(s, pos) {
        proof {
            lemma_line_end(s, pos + 2);
        }
        skip(s, line_end(s, pos + 2))
    } else {
        pos
    }
}

/// Skipping only moves forward, and not behind the end of the text.
pub proof fn lemma_skip(s: Seq<u8>, pos: int)
    requires
        0 <= pos <= s.len(),
    ensures
        pos <= skip(s, pos) <= s.len(),
    decreases s.len() - pos,
{
    if pos < s.len() {
        if is_space(s[pos]) {
            lemma_skip(s, pos + 1);
        } else if starts_comment(s, pos) {
            lemma_line_end(s, pos + 2);
            lemma_skip(s, line_end(s, pos + 2));
        }
    }
}

/// Where the word that starts at `pos` ends.
pub open spec fn word_end(s: Seq<u8>, pos: int) -> int
    decreases s.len() - pos,
{
    if 0 <= pos < s.len() && is_word_byte(s[pos]) {
        word_end(s, pos + 1)
    } else {
        pos
    }
}

/// A word ends at or behind its start, inside the text.
proof fn lemma_word_end(s: Seq<u8>, pos: int)
    requires
        0 <= pos <= s.len(),
    ensures
        pos <= word_end(s, pos) <= s.len(),
    decreases s.len() - pos,
{
    if pos < s.len() && is_word_byte(s[pos]) {
        lemma_word_end(s, pos + 1);
    }
}

/// Behind the `"` that closes the string whose text starts at `pos`.
/// A byte behind a `\` does not close it.
pub open spec fn string_end(s: Seq<u8>, pos: int) -> Option<int>
    decreases s.len() - pos,
{
    if pos < 0 || pos >= s.len() {
        None
    } else if s[pos] == QUOTE {
        Some(pos + 1)
    } else if s[pos] == BACKSLASH && pos + 1 < s.len() {
        string_end(s, pos + 2)
    } else {
        string_end(s, pos + 1)
    }
}

/// Behind the first `]` from `pos` on.
pub open spec fn bracket_end(s: Seq<u8>, pos: int) -> Option<int>
    decreases s.len() - pos,
{
    if pos < 0 || pos >= s.len() {
        None
    } else if s[pos] == BRACKET_CLOSE {
        Some(pos + 1)
    } else {
        bracket_end(s, pos + 1)
    }
}

/// Whether `b` ends a value that is written without quotes or brackets.
pub open spec fn ends_value(b: u8) -> bool {
    is_space(b) || b == COMMA || b == CLOSE || b == SEMICOLON
}

/// Where the value without quotes or brackets that starts at `pos` ends.
pub open spec fn bare_end(s: Seq<u8>, pos: int) -> int
    decreases s.len() - pos,
{
    if 0 <= pos < s.len() && !ends_value(s[pos]) {
        bare_end(s, pos + 1)
    } else {
        pos
    }
}

/// Where the value that starts at `pos` ends, if one starts there.
pub open spec fn value_end(s: Seq<u8>, pos: int) -> Option<int> {
    if at(s, pos, QUOTE) {
        string_end(s, pos + 1)
    } else if at(s, pos, BRACKET_OPEN) {
        bracket_end(s, pos + 1)
    } else if bare_end(s, pos) > pos {
        Some(bare_end(s, pos))
    } else {
        None
    }
}

/// A value that starts at `pos` ends behind `pos`, inside the text.
proof fn lemma_value_end(s: Seq<u8>, pos: int)
    requires
        0 <= pos <= s.len(),
    ensures
        value_end(s, pos) is Some ==> pos < value_end(s, pos)->0 <= s.len(),
{
    lemma_string_end(s, pos + 1);
    lemma_bracket_end(s, pos + 1);
    lemma_bare_end(s, pos);
}

/// A string ends behind where its text starts.
proof fn lemma_string_end(s: Seq<u8>, pos: int)
    requires
        0 <= pos,
    ensures
        string_end(s, pos) is Some ==> pos < string_end(s, pos)->0 <= s.len(),
    decreases s.len() - pos,
{
    if pos < s.len() && s[pos] != QUOTE {
        if s[pos] == BACKSLASH && pos + 1 < s.len() {
            lemma_string_end(s, pos + 2);
        } else {
            lemma_string_end(s, pos + 1);
        }
    }
}

/// A bracket ends behind where its text starts.
proof fn lemma_bracket_end(s: Seq<u8>, pos: int)
    requires
        0 <= pos,
    ensures
        bracket_end(s, pos) is Some ==> pos < bracket_end(s, pos)->0 <= s.len(),
    decreases s.len() - pos,
{
    if pos < s.len() && s[pos] != BRACKET_CLOSE {
        lemma_bracket_end(s, pos + 1);
    }
}

/// A bare value ends at or behind its start, inside the text.
proof fn lemma_bare_end(s: Seq<u8>, pos: int)
    requires
        0 <= pos <= s.len(),
    ensures
        pos <= bare_end(s, pos) <= s.len(),
    decreases s.len() - pos,
{
    if pos < s.len() && !ends_value(s[pos]) {
        lemma_bare_end(s, pos + 1);
    }
}

/// The parameter that starts at `pos`, and where it ends: a type, a name,
/// and a default value behind `=` if there is one.
pub open spec fn parse_param(s: Seq<u8>, pos: int) -> Result<(RoutineArgView, int), DefinitionError> {
    let a = word_end(s, pos);
    let name_start = skip(s, a);
    let b = word_end(s, name_start);
    let mark = skip(s, b);
    let inner_start = skip(s, mark + 1);
    if a == pos {
        Err(fault(pos, Expected::Word))
    } else if b == name_start {
        Err(fault(name_start, Expected::Word))
    } else if at(s, mark, EQUALS) {
        match value_end(s, inner_start) {
            None => Err(fault(inner_start, Expected::Value)),
            Some(e) => Ok(
                (
                    RoutineArgView {
                        typename: s.subrange(pos, a),
                        name: s.subrange(name_start, b),
                        default_value: Some(s.subrange(inner_start, e)),
                    },
                    e,
                ),
            ),
        }
    } else {
        Ok(
            (
                RoutineArgView {
                    typename: s.subrange(pos, a),
                    name: s.subrange(name_start, b),
                    default_value: None,
                },
                b,
            ),
        )
    }
}

/// A parameter ends behind its start, inside the text.
pub proof fn lemma_parse_param(s: Seq<u8>, pos: int)
    requires
        0 <= pos <= s.len(),
    ensures
        parse_param(s, pos) is Ok ==> pos < parse_param(s, pos)->Ok_0.1 <= s.len(),
{
    lemma_word_end(s, pos);
    let a = word_end(s, pos);
    lemma_skip(s, a);
    let name_start = skip(s, a);
    lemma_word_end(s, name_start);
    let b = word_end(s, name_start);
    lemma_skip(s, b);
    let mark = skip(s, b);
    if at(s, mark, EQUALS) {
        lemma_skip(s, mark + 1);
        lemma_value_end(s, skip(s, mark + 1));
    }
}

/// The parameters from `pos` on behind those of `acc`, up to the `)` that
/// ends them, and the place behind it. A parameter starts at `pos`.
pub open spec fn parse_params(s: Seq<u8>, pos: int, acc: Seq<RoutineArgView>) -> Result<
    (Seq<RoutineArgView>, int),
    DefinitionError,
>
    decreases s.len() - pos,
{
    if pos < 0 || pos > s.len() {
        Err(fault(pos, Expected::Word))
    } else {
        match parse_param(s, pos) {
            Err(e) => Err(e),
            Ok((arg, e)) => {
                let p = skip(s, e);
                if at(s, p, COMMA) {
                    proof {
                        lemma_parse_param(s, pos);
                        lemma_skip(s, e);
                        lemma_skip(s, p + 1);
                    }
                    parse_params(s, skip(s, p + 1), acc.push(arg))
                } else if at(s, p, CLOSE) {
                    Ok((acc.push(arg), p + 1))
                } else {
                    Err(fault(p, Expected::Close))
                }
            },
        }
    }
}

/// The parameter list ends behind its start, inside the text.
proof fn lemma_parse_params(s: Seq<u8>, pos: int, acc: Seq<RoutineArgView>)
    requires
        0 <= pos <= s.len(),
    ensures
        parse_params(s, pos, acc) is Ok ==> pos < parse_params(s, pos, acc)->Ok_0.1 <= s.len(),
    decreases s.len() - pos,
{
    if parse_param(s, pos) is Ok {
        let arg = parse_param(s, pos)->Ok_0.0;
        let e = parse_param(s, pos)->Ok_0.1;
        lemma_parse_param(s, pos);
        lemma_skip(s, e);
        let p = skip(s, e);
        if at(s, p, COMMA) {
            lemma_skip(s, p + 1);
            lemma_parse_params(s, skip(s, p + 1), acc.push(arg));
        }
    }
}

/// The statement that starts at `pos`, and where it ends.
///
/// Both kinds start with a type and a name. A routine goes on with its
/// parameters in `(` and `)`, `=` and its code; a constant with `=` and its
/// value. `;` ends both.
pub open spec fn parse_statement(s: Seq<u8>, pos: int) -> Result<
    (StatementView, int),
    DefinitionError,
> {
    let a = word_end(s, pos);
    let name_start = skip(s, a);
    let b = word_end(s, name_start);
    let mark = skip(s, b);
    let inner_start = skip(s, mark + 1);
    if a == pos {
        Err(fault(pos, Expected::Word))
    } else if b == name_start {
        Err(fault(name_start, Expected::Word))
    } else if at(s, mark, OPEN) {
        let params = if at(s, inner_start, CLOSE) {
            Ok((Seq::empty(), inner_start + 1))
        } else {
            parse_params(s, inner_start, Seq::empty())
        };
        match params {
            Err(e) => Err(e),
            Ok((args, inner_end)) => {
                let equals_at = skip(s, inner_end);
                let code_start = skip(s, equals_at + 1);
                let c = word_end(s, code_start);
                let semi_at = skip(s, c);
                if !at(s, equals_at, EQUALS) {
                    Err(fault(equals_at, Expected::Equals))
                } else {
                    match parse_in_range(s.subrange(code_start, c), 10, 0, 0xFFFF) {
                        None => Err(fault(code_start, Expected::Number)),
                        Some(code) => if at(s, semi_at, SEMICOLON) {
                            Ok(
                                (
                                    StatementView::Routine(
                                        RoutineView {
                                            return_type: s.subrange(pos, a),
                                            name: s.subrange(name_start, b),
                                            code: code as u16,
                                            args,
                                        },
                                    ),
                                    semi_at + 1,
                                ),
                            )
                        } else {
                            Err(fault(semi_at, Expected::Semicolon))
                        },
                    }
                }
            },
        }
    } else if at(s, mark, EQUALS) {
        match value_end(s, inner_start) {
            None => Err(fault(inner_start, Expected::Value)),
            Some(e) => {
                let inner_end = skip(s, e);
                if at(s, inner_end, SEMICOLON) {
                    Ok(
                        (
                            StatementView::Constant(
                                ConstantView {
                                    typename: s.subrange(pos, a),
                                    name: s.subrange(name_start, b),
                                    value: s.subrange(inner_start, e),
                                },
                            ),
                            inner_end + 1,
                        ),
                    )
                } else {
                    Err(fault(inner_end, Expected::Semicolon))
                }
            },
        }
    } else {
        Err(fault(mark, Expected::Open))
    }
}

/// A statement ends behind its start, inside the text.
pub proof fn lemma_parse_statement(s: Seq<u8>, pos: int)
    requires
        0 <= pos <= s.len(),
    ensures
        parse_statement(s, pos) is Ok ==> pos < parse_statement(s, pos)->Ok_0.1 <= s.len(),
{
    lemma_word_end(s, pos);
    let a = word_end(s, pos);
    lemma_skip(s, a);
    let name_start = skip(s, a);
    lemma_word_end(s, name_start);
    let b = word_end(s, name_start);
    lemma_skip(s, b);
    let mark = skip(s, b);
    if mark < s.len() {
        lemma_skip(s, mark + 1);
        let inner_start = skip(s, mark + 1);
        if at(s, mark, OPEN) {
            lemma_parse_params(s, inner_start, Seq::empty());
            let params = if at(s, inner_start, CLOSE) {
                Ok((Seq::empty(), inner_start + 1))
            } else {
                parse_params(s, inner_start, Seq::empty())
            };
            if params is Ok {
                let inner_end = params->Ok_0.1;
                lemma_skip(s, inner_end);
                let equals_at = skip(s, inner_end);
                if at(s, equals_at, EQUALS) {
                    lemma_skip(s, equals_at + 1);
                    let code_start = skip(s, equals_at + 1);
                    lemma_word_end(s, code_start);
                    lemma_skip(s, word_end(s, code_start));
                }
            }
        } else if at(s, mark, EQUALS) {
            lemma_value_end(s, inner_start);
            if value_end(s, inner_start) is Some {
                lemma_skip(s, value_end(s, inner_start)->0);
            }
        }
    }
}

/// The statements from `pos` on behind those of `acc`, up to the end of the text.
pub open spec fn parse_document(s: Seq<u8>, pos: int, acc: Seq<StatementView>) -> Result<
    Seq<StatementView>,
    DefinitionError,
>
    decreases s.len() - pos,
{
    let p = skip(s, pos);
    if pos < 0 || pos > s.len() || p >= s.len() {
        Ok(acc)
    } else {
        match parse_statement(s, p) {
            Err(e) => Err(e),
            Ok((st, e)) => {
                proof {
                    lemma_skip(s, pos);
                    lemma_parse_statement(s, p);
                }
                parse_document(s, e, acc.push(st))
            },
        }
    }
}

/// The routine that a text declares, and nothing else.
pub open spec fn parse_function(s: Seq<u8>) -> Result<RoutineView, DefinitionError> {
    let start = skip(s, 0);
    match parse_statement(s, start) {
        Err(e) => Err(e),
        Ok((StatementView::Constant(_), _)) => Err(fault(start, Expected::Routine)),
        Ok((StatementView::Routine(r), e)) => if skip(s, e) >= s.len() {
            Ok(r)
        } else {
            Err(fault(skip(s, e), Expected::End))
        },
    }
}

/// Whether the text is one comment: `//` and what follows up to the end of
/// its line, with nothing behind it.
pub open spec fn parse_line_comment(s: Seq<u8>) -> Result<(), DefinitionError> {
    if !starts_comment(s, 0) {
        Err(fault(0, Expected::Comment))
    } else if line_end(s, 2) < s.len() {
        Err(fault(line_end(s, 2), Expected::End))
    } else {
        Ok(())
    }
}

/// Whether `b` is a letter, a digit or `_`.
fn word_byte(b: u8) -> (r: bool)
    ensures
        r == is_word_byte(b),
{
    (0x30 <= b && b <= 0x39) || (0x41 <= b && b <= 0x5A) || (0x61 <= b && b <= 0x7A) || b == 0x5F
}

/// Where the line that holds `pos` ends.
fn scan_line(s: &[u8], pos: usize) -> (r: usize)
    requires
        pos <= s@.len(),
    ensures
        r == line_end(s@, pos as int),
        pos <= r <= s@.len(),
{
    let n = s.len();
    let mut i: usize = pos;
    while i < n
        invariant
            pos <= i <= n,
            n == s@.len(),
            line_end(s@, pos as int) == line_end(s@, i as int),
        decreases n - i,
    {
        if s[i] == NEWLINE {
            return i + 1;
        }
        i += 1;
    }
    i
}

/// The first place from `pos` on that is neither blank nor inside a comment.
fn skip_blank(s: &[u8], pos: usize) -> (r: usize)
    requires
        pos <= s@.len(),
    ensures
        r == skip(s@, pos as int),
        pos <= r <= s@.len(),
{
    let n = s.len();
    let mut i: usize = pos;
    while i < n
        invariant
            pos <= i <= n,
            n == s@.len(),
            skip(s@, pos as int) == skip(s@, i as int),
        decreases n - i,
    {
        if is_separator(s[i]) {
            i += 1;
        } else if s[i] == SLASH && i + 1 < n && s[i + 1] == SLASH {
            proof {
                lemma_line_end(s@, i + 2);
            }
            i = scan_line(s, i + 2);
        } else {
            return i;
        }
    }
    i
}

/// Where the word that starts at `pos` ends.
fn scan_word(s: &[u8], pos: usize) -> (r: usize)
    requires
        pos <= s@.len(),
    ensures
        r == word_end(s@, pos as int),
        pos <= r <= s@.len(),
{
    let n = s.len();
    let mut i: usize = pos;
    while i < n
        invariant
            pos <= i <= n,
            n == s@.len(),
            word_end(s@, pos as int) == word_end(s@, i as int),
        decreases n - i,
    {
        if !word_byte(s[i]) {
            return i;
        }
        i += 1;
    }
    i
}

/// Where the value that starts at `pos` ends, if one starts there.
fn scan_value(s: &[u8], pos: usize) -> (r: Option<usize>)
    requires
        pos <= s@.len(),
    ensures
        match r {
            Some(e) => value_end(s@, pos as int) == Some(e as int) && pos < e <= s@.len(),
            None => value_end(s@, pos as int) is None,
        },
{
    let n = s.len();
    proof {
        lemma_value_end(s@, pos as int);
    }
    if pos < n && s[pos] == QUOTE {
        let mut i: usize = pos + 1;
        while i < n
            invariant
                pos < i <= n + 1,
                n == s@.len(),
                value_end(s@, pos as int) == string_end(s@, pos + 1),
                string_end(s@, pos + 1) == string_end(s@, i as int),
            decreases n + 1 - i,
        {
            if s[i] == QUOTE {
                return Some(i + 1);
            } else if s[i] == BACKSLASH && i + 1 < n {
                i += 2;
            } else {
                i += 1;
            }
        }
        None
    } else if pos < n && s[pos] == BRACKET_OPEN {
        let mut i: usize = pos + 1;
        while i < n
            invariant
                pos < i <= n,
                n == s@.len(),
                value_end(s@, pos as int) == bracket_end(s@, pos + 1),
                bracket_end(s@, pos + 1) == bracket_end(s@, i as int),
            decreases n - i,
        {
            if s[i] == BRACKET_CLOSE {
                return Some(i + 1);
            }
            i += 1;
        }
        None
    } else {
        let mut i: usize = pos;
        while i < n
            invariant
                pos <= i <= n,
                n == s@.len(),
                bare_end(s@, pos as int) == bare_end(s@, i as int),
            ensures
                i == bare_end(s@, pos as int),
                pos <= i <= n,
            decreases n - i,
        {
            let b = s[i];
            if is_separator(b) || b == COMMA || b == CLOSE || b == SEMICOLON {
                break ;
            }
            i += 1;
        }
        if i > pos {
            Some(i)
        } else {
            None
        }
    }
}

/// A copy of the bytes of `s` from `from` up to `to`.
fn copy_of(s: &[u8], from: usize, to: usize) -> (r: Vec<u8>)
    requires
        from <= to <= s@.len(),
    ensures
        r@ == s@.subrange(from as int, to as int),
{
    let mut r: Vec<u8> = Vec::new();
    let mut k: usize = from;
    while k < to
        invariant
            from <= k <= to,
            to <= s@.len(),
            r@ == s@.subrange(from as int, k as int),
        decreases to - k,
    {
        r.push(s[k]);
        k += 1;
        proof {
            assert(r@ =~= s@.subrange(from as int, k as int));
        }
    }
    r
}

/// Reads the parameter that starts at `pos`.
fn read_param(s: &[u8], pos: usize) -> (r: Result<(RoutineArg, usize), DefinitionError>)
    requires
        pos <= s@.len(),
    ensures
        match r {
            Ok((arg, e)) => parse_param(s@, pos as int) == Ok::<
                (RoutineArgView, int),
                DefinitionError,
            >((arg@, e as int)) && pos < e <= s@.len(),
            Err(e) => parse_param(s@, pos as int) == Err::<(RoutineArgView, int), DefinitionError>(
                e,
            ),
        },
{
    let n = s.len();
    let a = scan_word(s, pos);
    if a == pos {
        return Err(DefinitionError { offset: pos, expected: Expected::Word });
    }
    let name_start = skip_blank(s, a);
    let b = scan_word(s, name_start);
    if b == name_start {
        return Err(DefinitionError { offset: name_start, expected: Expected::Word });
    }
    let mark = skip_blank(s, b);
    if mark < n && s[mark] == EQUALS {
        let inner_start = skip_blank(s, mark + 1);
        match scan_value(s, inner_start) {
            None => Err(DefinitionError { offset: inner_start, expected: Expected::Value }),
            Some(e) => Ok(
                (
                    RoutineArg {
                        typename: copy_of(s, pos, a),
                        name: copy_of(s, name_start, b),
                        default_value: Some(copy_of(s, inner_start, e)),
                    },
                    e,
                ),
            ),
        }
    } else {
        Ok(
            (
                RoutineArg {
                    typename: copy_of(s, pos, a),
                    name: copy_of(s, name_start, b),
                    default_value: None,
                },
                b,
            ),
        )
    }
}

/// Reads the parameters from `pos` on, up to the `)` that ends them.
fn read_params(s: &[u8], pos: usize) -> (r: Result<(Vec<RoutineArg>, usize), DefinitionError>)
    requires
        pos <= s@.len(),
    ensures
        match r {
            Ok((args, e)) => parse_params(s@, pos as int, Seq::empty()) == Ok::<
                (Seq<RoutineArgView>, int),
                DefinitionError,
            >((arg_views(args@), e as int)) && pos < e <= s@.len(),
            Err(e) => parse_params(s@, pos as int, Seq::empty()) == Err::<
                (Seq<RoutineArgView>, int),
                DefinitionError,
            >(e),
        },
{
    let n = s.len();
    let mut args: Vec<RoutineArg> = Vec::new();
    let mut at_param: usize = pos;
    proof {
        assert(arg_views(args@) =~= Seq::<RoutineArgView>::empty());
    }
    loop
        invariant
            pos <= at_param <= n,
            n == s@.len(),
            parse_params(s@, pos as int, Seq::empty()) == parse_params(
                s@,
                at_param as int,
                arg_views(args@),
            ),
        decreases n - at_param,
    {
        let (arg, e) = read_param(s, at_param)?;
        let ghost before = arg_views(args@);
        args.push(arg);
        proof {
            assert(arg_views(args@) =~= before.push(arg@));
        }
        let p = skip_blank(s, e);
        if p < n && s[p] == COMMA {
            at_param = skip_blank(s, p + 1);
        } else if p < n && s[p] == CLOSE {
            return Ok((args, p + 1));
        } else {
            return Err(DefinitionError { offset: p, expected: Expected::Close });
        }
    }
}

/// Reads the statement that starts at `pos`.
fn read_statement(s: &[u8], pos: usize) -> (r: Result<(Statement, usize), DefinitionError>)
    requires
        pos <= s@.len(),
    ensures
        match r {
            Ok((st, e)) => parse_statement(s@, pos as int) == Ok::<
                (StatementView, int),
                DefinitionError,
            >((st@, e as int)) && pos < e <= s@.len(),
            Err(e) => parse_statement(s@, pos as int) == Err::<
                (StatementView, int),
                DefinitionError,
            >(e),
        },
{
    let n = s.len();
    let a = scan_word(s, pos);
    if a == pos {
        return Err(DefinitionError { offset: pos, expected: Expected::Word });
    }
    let name_start = skip_blank(s, a);
    let b = scan_word(s, name_start);
    if b == name_start {
        return Err(DefinitionError { offset: name_start, expected: Expected::Word });
    }
    let mark = skip_blank(s, b);
    if mark < n && s[mark] == OPEN {
        let inner_start = skip_blank(s, mark + 1);
        let (args, inner_end) = if inner_start < n && s[inner_start] == CLOSE {
            let none: Vec<RoutineArg> = Vec::new();
            proof {
                assert(arg_views(none@) =~= Seq::<RoutineArgView>::empty());
            }
            (none, inner_start + 1)
        } else {
            read_params(s, inner_start)?
        };
        let equals_at = skip_blank(s, inner_end);
        if !(equals_at < n && s[equals_at] == EQUALS) {
            return Err(DefinitionError { offset: equals_at, expected: Expected::Equals });
        }
        let code_start = skip_blank(s, equals_at + 1);
        let c = scan_word(s, code_start);
        let semi_at = skip_blank(s, c);
        let code = match parse_integer(slice_subrange(s, code_start, c), 10, 0, 0xFFFF) {
            Some(code) => code as u16,
            None => {
                return Err(DefinitionError { offset: code_start, expected: Expected::Number });
            },
        };
        if semi_at < n && s[semi_at] == SEMICOLON {
            Ok(
                (
                    Statement::Routine(
                        Routine {
                            return_type: copy_of(s, pos, a),
                            name: copy_of(s, name_start, b),
                            code,
                            args,
                        },
                    ),
                    semi_at + 1,
                ),
            )
        } else {
            Err(DefinitionError { offset: semi_at, expected: Expected::Semicolon })
        }
    } else if mark < n && s[mark] == EQUALS {
        let inner_start = skip_blank(s, mark + 1);
        match scan_value(s, inner_start) {
            None => Err(DefinitionError { offset: inner_start, expected: Expected::Value }),
            Some(e) => {
                let inner_end = skip_blank(s, e);
                if inner_end < n && s[inner_end] == SEMICOLON {
                    Ok(
                        (
                            Statement::Constant(
                                Constant {
                                    typename: copy_of(s, pos, a),
                                    name: copy_of(s, name_start, b),
                                    value: copy_of(s, inner_start, e),
                                },
                            ),
                            inner_end + 1,
                        ),
                    )
                } else {
                    Err(DefinitionError { offset: inner_end, expected: Expected::Semicolon })
                }
            },
        }
    } else {
        Err(DefinitionError { offset: mark, expected: Expected::Open })
    }
}

/// Reads a text of definitions: its statements in their order.
pub fn document(input: &[u8]) -> (r: Result<Vec<Statement>, DefinitionError>)
    ensures
        match r {
            Ok(list) => parse_document(input@, 0, Seq::empty()) == Ok::<
                Seq<StatementView>,
                DefinitionError,
            >(statement_views(list@)),
            Err(e) => parse_document(input@, 0, Seq::empty()) == Err::<
                Seq<StatementView>,
                DefinitionError,
            >(e),
        },
{
    let n = input.len();
    let mut list: Vec<Statement> = Vec::new();
    let mut pos: usize = 0;
    proof {
        assert(statement_views(list@) =~= Seq::<StatementView>::empty());
    }
    loop
        invariant
            pos <= n,
            n == input@.len(),
            parse_document(input@, 0, Seq::empty()) == parse_document(
                input@,
                pos as int,
                statement_views(list@),
            ),
        decreases n - pos,
    {
        let p = skip_blank(input, pos);
        if p >= n {
            return Ok(list);
        }
        let (st, e) = read_statement(input, p)?;
        let ghost before = statement_views(list@);
        list.push(st);
        proof {
            assert(statement_views(list@) =~= before.push(st@));
        }
        pos = e;
    }
}

/// Reads the declaration of one routine.
pub fn function(input: &[u8]) -> (r: Result<Routine, DefinitionError>)
    ensures
        match r {
            Ok(routine) => parse_function(input@) == Ok::<RoutineView, DefinitionError>(routine@),
            Err(e) => parse_function(input@) == Err::<RoutineView, DefinitionError>(e),
        },
{
    let n = input.len();
    let start = skip_blank(input, 0);
    let (st, e) = read_statement(input, start)?;
    match st {
        Statement::Constant(_) => Err(
            DefinitionError { offset: start, expected: Expected::Routine },
        ),
        Statement::Routine(routine) => {
            let end = skip_blank(input, e);
            if end >= n {
                Ok(routine)
            } else {
                Err(DefinitionError { offset: end, expected: Expected::End })
            }
        },
    }
}

/// Reads one comment: `//` and the rest of its line.
pub fn line_comment(input: &[u8]) -> (r: Result<(), DefinitionError>)
    ensures
        r == parse_line_comment(input@),
{
    let n = input.len();
    if !(n >= 2 && input[0] == SLASH && input[1] == SLASH) {
        return Err(DefinitionError { offset: 0, expected: Expected::Comment });
    }
    let end = scan_line(input, 2);
    if end < n {
        Err(DefinitionError { offset: end, expected: Expected::End })
    } else {
        Ok(())
    }
}

} // verus!
