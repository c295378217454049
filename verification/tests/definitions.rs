use ox::nwscript::{document, line_comment, DefinitionError, Expected};
use ox::{build_tables, find_duplicate, Statement};

fn fault(offset: usize, expected: Expected) -> DefinitionError {
    DefinitionError { offset, expected }
}

#[test]
fn routine_with_parameters() {
    let routine =
        ox::nwscript::function(b" object GetItem ( int nSlot , object oOf = OBJECT_SELF ) = 31 ; ")
            .unwrap();
    assert_eq!(routine.return_type, b"object");
    assert_eq!(routine.name, b"GetItem");
    assert_eq!(routine.code, 31);
    assert_eq!(routine.args.len(), 2);
    assert_eq!(routine.args[0].typename, b"int");
    assert_eq!(routine.args[0].name, b"nSlot");
    assert_eq!(routine.args[0].default_value, None);
    assert_eq!(routine.args[1].typename, b"object");
    assert_eq!(routine.args[1].name, b"oOf");
    assert_eq!(routine.args[1].default_value, Some(b"OBJECT_SELF".to_vec()));
}

#[test]
fn values_of_parameters() {
    let routine = ox::nwscript::function(
        b"void f(string s = \"a, \\\"b\\\")\", vector v = [0.0, 1.0,2.0], float x=-1.5f) = 65535;",
    )
    .unwrap();
    assert_eq!(routine.code, 65535);
    assert_eq!(
        routine.args[0].default_value,
        Some(b"\"a, \\\"b\\\")\"".to_vec())
    );
    assert_eq!(
        routine.args[1].default_value,
        Some(b"[0.0, 1.0,2.0]".to_vec())
    );
    assert_eq!(routine.args[2].default_value, Some(b"-1.5f".to_vec()));
}

#[test]
fn faults_of_a_routine() {
    let f = |text: &[u8]| ox::nwscript::function(text).err();
    assert_eq!(f(b"void foo();"), Some(fault(10, Expected::Equals)));
    assert_eq!(f(b""), Some(fault(0, Expected::Word)));
    assert_eq!(f(b"void"), Some(fault(4, Expected::Word)));
    assert_eq!(f(b"void foo"), Some(fault(8, Expected::Open)));
    assert_eq!(f(b"void foo(int) = 1;"), Some(fault(12, Expected::Word)));
    assert_eq!(f(b"void foo(int a b) = 1;"), Some(fault(15, Expected::Close)));
    assert_eq!(f(b"void foo(int a = ) = 1;"), Some(fault(17, Expected::Value)));
    assert_eq!(f(b"void foo(int a = \"x) = 1;"), Some(fault(17, Expected::Value)));
    assert_eq!(f(b"void foo() = x;"), Some(fault(13, Expected::Number)));
    assert_eq!(f(b"void foo() = 65536;"), Some(fault(13, Expected::Number)));
    assert_eq!(f(b"void foo() = 1"), Some(fault(14, Expected::Semicolon)));
    assert_eq!(f(b"void foo() = 1; x"), Some(fault(16, Expected::End)));
    assert_eq!(f(b" int TRUE = 1;"), Some(fault(1, Expected::Routine)));
}

#[test]
fn comments() {
    assert_eq!(line_comment(b"//"), Ok(()));
    assert_eq!(line_comment(b"// x"), Ok(()));
    assert_eq!(line_comment(b"// x\n"), Ok(()));
    assert_eq!(line_comment(b"/ x\n"), Err(fault(0, Expected::Comment)));
    assert_eq!(line_comment(b" // x\n"), Err(fault(0, Expected::Comment)));
    assert_eq!(line_comment(b"// x\ny"), Err(fault(5, Expected::End)));
}

const DEFINITIONS: &[u8] = b"// The engine's constants\n\
int    TRUE  = 1;\n\
float  PI = 3.141592f; // roughly\n\
string sLanguage = \"nwscript\";\n\
\n\
// Routines\n\
int Random(int nMaxInteger) = 0;\n\
void PrintString(string sString) = 1;\n";

#[test]
fn whole_document() {
    let list = document(DEFINITIONS).unwrap();
    assert_eq!(list.len(), 5);
    match &list[1] {
        Statement::Constant(c) => {
            assert_eq!(c.typename, b"float");
            assert_eq!(c.name, b"PI");
            assert_eq!(c.value, b"3.141592f");
        }
        Statement::Routine(_) => panic!("a constant was expected"),
    }
    match &list[4] {
        Statement::Routine(r) => {
            assert_eq!(r.name, b"PrintString");
            assert_eq!(r.code, 1);
        }
        Statement::Constant(_) => panic!("a routine was expected"),
    }
    assert_eq!(document(b"").unwrap().len(), 0);
    assert_eq!(document(b" // nothing").unwrap().len(), 0);
    assert_eq!(
        document(b"int TRUE = 1;\nint FALSE 0;").err(),
        Some(fault(24, Expected::Open))
    );
}

#[test]
fn tables_of_a_document() {
    let list = document(DEFINITIONS).unwrap();
    assert_eq!(find_duplicate(&list), None);
    let (constants, routines) = build_tables(list);
    assert_eq!(constants.len(), 3);
    assert_eq!(constants[0].name, b"TRUE");
    assert_eq!(constants[1].name, b"PI");
    assert_eq!(constants[2].name, b"sLanguage");
    assert_eq!(constants[2].value, b"\"nwscript\"");
    assert_eq!(routines.len(), 2);
    assert_eq!(routines[&0].name, b"Random");
    assert_eq!(routines[&1].name, b"PrintString");
}

#[test]
fn definitions_given_twice() {
    let list = document(b"int A = 1; void f() = 3; int B = 2; void g() = 3; int A = 4;").unwrap();
    assert_eq!(find_duplicate(&list), Some((1, 3)));
    let list = document(b"int A = 1; void A() = 3; int B = 2; float A = 4;").unwrap();
    assert_eq!(find_duplicate(&list), Some((0, 3)));
    let list = document(b"int A = 1; void A() = 1;").unwrap();
    assert_eq!(find_duplicate(&list), None);
}
