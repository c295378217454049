//! Reads the bytecode of a stack-based virtual machine as assembly text, and
//! assembly text as bytecode.
//!
//! Text is handled as bytes throughout: a line, a token, a name is a
//! sequence of `u8`, and what a string operand holds is copied as it stands.

use std::collections::HashMap;
use vstd::prelude::*;

pub mod assemble;
pub mod decoder;
pub mod disassemble;
pub mod io_utils;
pub mod nwscript;
pub mod opcodes;
pub mod report;
pub mod reread;
pub mod roundtrip;
pub mod standard;
pub mod text;

verus! {

broadcast use vstd::std_specs::hash::group_hash_axioms;

/// A named constant of the engine's definitions.
#[derive(Debug)]
pub struct Constant {
    pub typename: Vec<u8>,
    pub name: Vec<u8>,
    pub value: Vec<u8>,
}

/// A routine that the engine offers to scripts, called by its code.
#[derive(Debug)]
pub struct Routine {
    pub return_type: Vec<u8>,
    pub name: Vec<u8>,
    pub code: u16,
    pub args: Vec<RoutineArg>,
}

/// One parameter of a routine.
#[derive(Debug)]
pub struct RoutineArg {
    pub typename: Vec<u8>,
    pub name: Vec<u8>,
    pub default_value: Option<Vec<u8>>,
}

/// One statement of a definitions file.
#[derive(Debug)]
pub enum Statement {
    Routine(Routine),
    Constant(Constant),
}

/// A constant as a value of specifications.
pub struct ConstantView {
    pub typename: Seq<u8>,
    pub name: Seq<u8>,
    pub value: Seq<u8>,
}

/// A parameter as a value of specifications.
pub struct RoutineArgView {
    pub typename: Seq<u8>,
    pub name: Seq<u8>,
    pub default_value: Option<Seq<u8>>,
}

/// A routine as a value of specifications.
pub struct RoutineView {
    pub return_type: Seq<u8>,
    pub name: Seq<u8>,
    pub code: u16,
    pub args: Seq<RoutineArgView>,
}

/// A statement as a value of specifications.
pub enum StatementView {
    Routine(RoutineView),
    Constant(ConstantView),
}

impl View for Constant {
    type V = ConstantView;

    open spec fn view(&self) -> ConstantView {
        ConstantView { typename: self.typename@, name: self.name@, value: self.value@ }
    }
}

impl View for RoutineArg {
    type V = RoutineArgView;

    open spec fn view(&self) -> RoutineArgView {
        RoutineArgView {
            typename: self.typename@,
            name: self.name@,
            default_value: match self.default_value {
                Some(v) => Some(v@),
                None => None,
            },
        }
    }
}

impl View for Routine {
    type V = RoutineView;

    open spec fn view(&self) -> RoutineView {
        RoutineView {
            return_type: self.return_type@,
            name: self.name@,
            code: self.code,
            args: arg_views(self.args@),
        }
    }
}

/// The parameters as values of specifications.
pub open spec fn arg_views(args: Seq<RoutineArg>) -> Seq<RoutineArgView> {
    Seq::new(args.len(), |i: int| args[i]@)
}

/// The statements as values of specifications.
pub open spec fn statement_views(list: Seq<Statement>) -> Seq<StatementView> {
    Seq::new(list.len(), |i: int| list[i]@)
}

impl View for Statement {
    type V = StatementView;

    open spec fn view(&self) -> StatementView {
        match self {
            Statement::Routine(r) => StatementView::Routine(r@),
            Statement::Constant(c) => StatementView::Constant(c@),
        }
    }
}

/// The text of one float beside its bit pattern. The library does no
/// floating-point arithmetic: it takes the two forms of each float that a
/// program holds from its caller, and looks one up by the other.
#[derive(Debug)]
pub struct FloatText {
    /// The IEEE-754 bit pattern, 32 bits.
    pub bits: u32,
    /// The decimal text.
    pub text: Vec<u8>,
}

/// The first entry of `floats` with the given bit pattern.
pub open spec fn float_text_of(floats: Seq<FloatText>, bits: u32) -> Option<Seq<u8>>
    decreases floats.len(),
{
    if floats.len() == 0 {
        None
    } else if floats[0].bits == bits {
        Some(floats[0].text@)
    } else {
        float_text_of(floats.drop_first(), bits)
    }
}

/// The first entry of `floats` with the given text.
pub open spec fn float_bits_of(floats: Seq<FloatText>, text: Seq<u8>) -> Option<u32>
    decreases floats.len(),
{
    if floats.len() == 0 {
        None
    } else if floats[0].text@ == text {
        Some(floats[0].bits)
    } else {
        float_bits_of(floats.drop_first(), text)
    }
}

/// Whether two byte strings are equal.
pub fn same_bytes(a: &[u8], b: &[u8]) -> (r: bool)
    ensures
        r == (a@ == b@),
{
    let n = a.len();
    if n != b.len() {
        return false;
    }
    let mut i: usize = 0;
    while i < n
        invariant
            i <= n,
            n == a@.len(),
            n == b@.len(),
            forall|j: int| 0 <= j < i ==> a@[j] == b@[j],
        decreases n - i,
    {
        if a[i] != b[i] {
            return false;
        }
        i += 1;
    }
    proof {
        assert(a@ =~= b@);
    }
    true
}

/// The text of the float with the given bit pattern, by the first entry that has it.
pub fn find_float_text<'a>(floats: &'a [FloatText], bits: u32) -> (r: Option<&'a Vec<u8>>)
    ensures
        match r {
            Some(t) => float_text_of(floats@, bits) == Some(t@),
            None => float_text_of(floats@, bits) is None,
        },
{
    let n = floats.len();
    let mut i: usize = 0;
    proof {
        assert(floats@.skip(0) =~= floats@);
    }
    while i < n
        invariant
            i <= n,
            n == floats@.len(),
            float_text_of(floats@, bits) == float_text_of(floats@.skip(i as int), bits),
        decreases n - i,
    {
        proof {
            assert(floats@.skip(i as int).drop_first() =~= floats@.skip(i + 1));
        }
        if floats[i].bits == bits {
            return Some(&floats[i].text);
        }
        i += 1;
    }
    None
}

/// The bit pattern of the float with the given text, by the first entry that has it.
pub fn find_float_bits(floats: &[FloatText], text: &[u8]) -> (r: Option<u32>)
    ensures
        r == float_bits_of(floats@, text@),
{
    let n = floats.len();
    let mut i: usize = 0;
    proof {
        assert(floats@.skip(0) =~= floats@);
    }
    while i < n
        invariant
            i <= n,
            n == floats@.len(),
            float_bits_of(floats@, text@) == float_bits_of(floats@.skip(i as int), text@),
        decreases n - i,
    {
        proof {
            assert(floats@.skip(i as int).drop_first() =~= floats@.skip(i + 1));
        }
        if same_bytes(floats[i].text.as_slice(), text) {
            return Some(floats[i].bits);
        }
        i += 1;
    }
    None
}

/// Whether two statements define the same thing: two routines of one code,
/// or two constants of one name.
pub open spec fn clash(a: Statement, b: Statement) -> bool {
    match (a, b) {
        (Statement::Routine(x), Statement::Routine(y)) => x.code == y.code,
        (Statement::Constant(x), Statement::Constant(y)) => x.name@ == y.name@,
        _ => false,
    }
}

/// Whether no two statements of `list` define the same thing.
pub open spec fn distinct_definitions(list: Seq<Statement>) -> bool {
    forall|i: int, j: int| 0 <= i < j < list.len() ==> !clash(list[i], list[j])
}

/// The constants among the first `n` statements, in their order.
pub open spec fn constants_upto(list: Seq<Statement>, n: int) -> Seq<Constant>
    decreases n,
{
    if n <= 0 {
        Seq::empty()
    } else {
        match list[n - 1] {
            Statement::Constant(c) => constants_upto(list, n - 1).push(c),
            Statement::Routine(_) => constants_upto(list, n - 1),
        }
    }
}

/// The routines among the first `n` statements, each under its code.
pub open spec fn routines_upto(list: Seq<Statement>, n: int) -> Map<u16, Routine>
    decreases n,
{
    if n <= 0 {
        Map::empty()
    } else {
        match list[n - 1] {
            Statement::Routine(r) => routines_upto(list, n - 1).insert(r.code, r),
            Statement::Constant(_) => routines_upto(list, n - 1),
        }
    }
}

/// Whether two statements define the same thing.
fn clashes(a: &Statement, b: &Statement) -> (r: bool)
    ensures
        r == clash(*a, *b),
{
    match a {
        Statement::Routine(x) => match b {
            Statement::Routine(y) => x.code == y.code,
            Statement::Constant(_) => false,
        },
        Statement::Constant(x) => match b {
            Statement::Routine(_) => false,
            Statement::Constant(y) => same_bytes(x.name.as_slice(), y.name.as_slice()),
        },
    }
}

/// Looks for two statements that define the same thing: the first
/// statement that repeats an earlier one, with the earliest that it repeats.
pub fn find_duplicate(list: &Vec<Statement>) -> (r: Option<(usize, usize)>)
    ensures
        match r {
            None => distinct_definitions(list@),
            Some((i, j)) => i < j < list@.len() && clash(list@[i as int], list@[j as int]) && (
            forall|a: int, b: int| 0 <= a < b < j ==> !clash(list@[a], list@[b])) && (forall|
                a: int,
            | 0 <= a < i ==> !clash(list@[a], list@[j as int])),
        },
{
    let n = list.len();
    let mut j: usize = 0;
    while j < n
        invariant
            j <= n,
            n == list@.len(),
            forall|a: int, b: int| 0 <= a < b < j ==> !clash(list@[a], list@[b]),
        decreases n - j,
    {
        let mut i: usize = 0;
        while i < j
            invariant
                i <= j < n,
                n == list@.len(),
                forall|a: int, b: int| 0 <= a < b < j ==> !clash(list@[a], list@[b]),
                forall|a: int| 0 <= a < i ==> !clash(list@[a], list@[j as int]),
            decreases j - i,
        {
            if clashes(&list[i], &list[j]) {
                return Some((i, j));
            }
            i += 1;
        }
        j += 1;
    }
    None
}

/// Builds the tables of a definitions file: the constants in the order of
/// the file, and the routines under their codes.
pub fn build_tables(list: Vec<Statement>) -> (r: (Vec<Constant>, HashMap<u16, Routine>))
    requires
        distinct_definitions(list@),
    ensures
        r.0@ == constants_upto(list@, list@.len() as int),
        r.1@ == routines_upto(list@, list@.len() as int),
{
    let ghost given = list@;
    let mut rest = list;
    let n = rest.len();
    let mut stack: Vec<Statement> = Vec::new();
    while rest.len() > 0
        invariant
            n == given.len(),
            rest@.len() + stack@.len() == n,
            forall|k: int| 0 <= k < rest@.len() ==> rest@[k] == given[k],
            forall|k: int| 0 <= k < stack@.len() ==> stack@[k] == given[n - 1 - k],
        decreases rest@.len(),
    {
        match rest.pop() {
            Some(st) => {
                stack.push(st);
            },
            None => {},
        }
    }
    let mut constants: Vec<Constant> = Vec::new();
    let mut commands: HashMap<u16, Routine> = HashMap::new();
    let mut i: usize = 0;
    while stack.len() > 0
        invariant
            n == given.len(),
            i + stack@.len() == n,
            forall|k: int| 0 <= k < stack@.len() ==> stack@[k] == given[n - 1 - k],
            constants@ == constants_upto(given, i as int),
            commands@ == routines_upto(given, i as int),
        decreases stack@.len(),
    {
        match stack.pop() {
            Some(Statement::Constant(c)) => {
                constants.push(c);
            },
            Some(Statement::Routine(c)) => {
                commands.insert(c.code, c);
            },
            None => {},
        }
        i += 1;
    }
    (constants, commands)
}

} // verus!
