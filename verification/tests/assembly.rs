use ox::assemble::{
    assemble, assemble_line, check_variant_types, int_str_to_bytes, parse_arg, split_line,
    split_lines, uint_str_to_bytes, AssemblyError, ParseFault, TableFault,
};
use ox::opcodes::{get_nwtypes, get_opcodes, Opcode, OpcodeE, Operand};
use ox::{FloatText, Routine};
use std::collections::HashMap;

fn routines() -> HashMap<u16, Routine> {
    let mut routines = HashMap::new();
    for (code, name) in [(7u16, "Random"), (300, "GetObject"), (9, "Random")] {
        routines.insert(
            code,
            Routine {
                return_type: b"int".to_vec(),
                name: name.as_bytes().to_vec(),
                code,
                args: Vec::new(),
            },
        );
    }
    routines
}

fn one(text: &[u8]) -> Result<Vec<u8>, AssemblyError> {
    assemble_line(text, 5, &get_opcodes(), &get_nwtypes(), &routines(), &[])
}

fn parse(fault: ParseFault) -> Result<Vec<u8>, AssemblyError> {
    Err(AssemblyError::ParseError(fault, 5))
}

#[test]
fn tokens() {
    assert_eq!(split_line(b""), Ok(vec![]));
    assert_eq!(split_line(b"   \t "), Ok(vec![]));
    assert_eq!(split_line(b";; a comment \"with a quote"), Ok(vec![]));
    assert_eq!(
        split_line(b"  JMP \t @16  "),
        Ok(vec![b"JMP".to_vec(), b"@16".to_vec()])
    );
    assert_eq!(
        split_line(b"CONSTS \"a \\\" b\" x"),
        Ok(vec![
            b"CONSTS".to_vec(),
            b"\"a \\\" b\"".to_vec(),
            b"x".to_vec()
        ])
    );
    assert_eq!(split_line(b"a\\ b"), Ok(vec![b"a\\ b".to_vec()]));
    assert_eq!(split_line(b"a \"b"), Err(ParseFault::UnclosedDelimiter));
    assert_eq!(split_line(b"; x"), Ok(vec![b";".to_vec(), b"x".to_vec()]));
}

#[test]
fn lines() {
    assert_eq!(split_lines(b""), Vec::<Vec<u8>>::new());
    assert_eq!(split_lines(b"a"), vec![b"a".to_vec()]);
    assert_eq!(split_lines(b"a\n"), vec![b"a".to_vec()]);
    assert_eq!(split_lines(b"a\r\nb\n\nc"), vec![
        b"a".to_vec(),
        b"b".to_vec(),
        b"".to_vec(),
        b"c".to_vec()
    ]);
    assert_eq!(split_lines(b"\n"), vec![b"".to_vec()]);
    assert_eq!(split_lines(b"a\r"), vec![b"a\r".to_vec()]);
}

#[test]
fn numbers_of_operands() {
    assert_eq!(uint_str_to_bytes(2, Some(b"0x"), 16, b"0x1F"), Ok(vec![0, 0x1F]));
    assert_eq!(uint_str_to_bytes(2, Some(b"0x"), 16, b"1f"), Ok(vec![0, 0x1F]));
    assert_eq!(uint_str_to_bytes(1, None, 10, b"255"), Ok(vec![255]));
    assert_eq!(uint_str_to_bytes(1, None, 10, b"256"), Err(ParseFault::Number));
    assert_eq!(uint_str_to_bytes(4, None, 10, b"-1"), Err(ParseFault::Number));
    assert_eq!(uint_str_to_bytes(4, Some(b"0x"), 16, b"0x"), Err(ParseFault::Number));
    assert_eq!(
        uint_str_to_bytes(3, None, 10, b"1"),
        Err(ParseFault::UnsupportedSize(3))
    );
    assert_eq!(
        uint_str_to_bytes(4, Some(b"0x"), 16, b"0xFFFFFFFF"),
        Ok(vec![255, 255, 255, 255])
    );
    assert_eq!(int_str_to_bytes(2, Some(b"@"), 10, b"@-2"), Ok(vec![0xFF, 0xFE]));
    assert_eq!(int_str_to_bytes(2, Some(b"@"), 10, b"32767"), Ok(vec![0x7F, 0xFF]));
    assert_eq!(int_str_to_bytes(2, None, 10, b"32768"), Err(ParseFault::Number));
    assert_eq!(int_str_to_bytes(2, None, 10, b"-32769"), Err(ParseFault::Number));
    assert_eq!(int_str_to_bytes(4, None, 10, b"@1"), Err(ParseFault::Number));
    assert_eq!(
        int_str_to_bytes(1, None, 10, b"1"),
        Err(ParseFault::UnsupportedSize(1))
    );
}

#[test]
fn operands() {
    let r = routines();
    let floats = vec![FloatText {
        bits: 0xBF80_0000,
        text: b"-1".to_vec(),
    }];
    assert_eq!(parse_arg(&Operand::Object(4), b"0x7F000000", &r, &floats), Ok(vec![0x7F, 0, 0, 0]));
    assert_eq!(parse_arg(&Operand::Size(2), b"10", &r, &floats), Ok(vec![0, 0x10]));
    assert_eq!(parse_arg(&Operand::ArgCount(1), b"10", &r, &floats), Ok(vec![10]));
    assert_eq!(parse_arg(&Operand::Offset(4), b"@-8", &r, &floats), Ok(vec![255, 255, 255, 0xF8]));
    assert_eq!(parse_arg(&Operand::Integer(4), b"-8", &r, &floats), Ok(vec![255, 255, 255, 0xF8]));
    assert_eq!(parse_arg(&Operand::Integer(4), b"@8", &r, &floats), Err(ParseFault::Number));
    assert_eq!(parse_arg(&Operand::Float(4), b"-1", &r, &floats), Ok(vec![0xBF, 0x80, 0, 0]));
    assert_eq!(parse_arg(&Operand::Float(4), b"2.5", &r, &floats), Err(ParseFault::Number));
    assert_eq!(
        parse_arg(&Operand::Float(2), b"-1", &r, &floats),
        Err(ParseFault::UnsupportedSize(2))
    );
    assert_eq!(parse_arg(&Operand::Routine(2), b"Random#0x2A", &r, &floats), Ok(vec![0, 0x2A]));
    assert_eq!(parse_arg(&Operand::Routine(2), b"???#0x2A", &r, &floats), Ok(vec![0, 0x2A]));
    assert_eq!(parse_arg(&Operand::Routine(2), b"#2A", &r, &floats), Ok(vec![0, 0x2A]));
    assert_eq!(parse_arg(&Operand::Routine(2), b"Random", &r, &floats), Ok(vec![0, 7]));
    assert_eq!(parse_arg(&Operand::Routine(2), b"GetObject", &r, &floats), Ok(vec![1, 0x2C]));
    assert_eq!(parse_arg(&Operand::Routine(4), b"GetObject", &r, &floats), Ok(vec![0, 0, 1, 0x2C]));
    assert_eq!(
        parse_arg(&Operand::Routine(1), b"GetObject", &r, &floats),
        Err(ParseFault::Number)
    );
    assert_eq!(
        parse_arg(&Operand::Routine(2), b"Nothing", &r, &floats),
        Err(ParseFault::UnknownRoutine)
    );
    assert_eq!(
        parse_arg(&Operand::Routine(2), b"Random#", &r, &floats),
        Err(ParseFault::Number)
    );
    assert_eq!(parse_arg(&Operand::String, b"\"hi\"", &r, &floats), Ok(vec![0, 2, 0x68, 0x69]));
    assert_eq!(parse_arg(&Operand::String, b"\"\"", &r, &floats), Ok(vec![0, 0]));
    assert_eq!(
        parse_arg(&Operand::String, b"\"a\\\"b\\\\\"", &r, &floats),
        Ok(vec![0, 4, b'a', b'"', b'b', b'\\'])
    );
    assert_eq!(parse_arg(&Operand::String, b"hi", &r, &floats), Err(ParseFault::BadString));
    assert_eq!(parse_arg(&Operand::String, b"\"", &r, &floats), Err(ParseFault::BadString));
    let mut long = vec![b'"'];
    long.extend(std::iter::repeat(b'a').take(0x1_0000));
    long.push(b'"');
    assert_eq!(parse_arg(&Operand::String, &long, &r, &floats), Err(ParseFault::BadString));
    long.remove(1);
    let bytes = parse_arg(&Operand::String, &long, &r, &floats).unwrap();
    assert_eq!(bytes.len(), 2 + 0xFFFF);
    assert_eq!(&bytes[..2], &[0xFF, 0xFF]);
}

#[test]
fn lines_to_bytes() {
    assert_eq!(one(b""), Ok(vec![]));
    assert_eq!(one(b";;NCS V1.0"), Ok(vec![]));
    assert_eq!(one(b"RETN"), Ok(vec![0x20, 0x00]));
    assert_eq!(one(b"T 0xD"), Ok(vec![0x42, 0, 0, 0, 0x0D]));
    assert_eq!(one(b"ADDII"), Ok(vec![0x14, 0x20]));
    assert_eq!(one(b"ADDVV"), Ok(vec![0x14, 0x3A]));
    assert_eq!(one(b"RSADDI"), Ok(vec![0x02, 0x03]));
    assert_eq!(one(b"RSADD 4"), Ok(vec![0x02, 0x13]));
    assert_eq!(one(b"EQUAL 5"), Ok(vec![0x0B, 0x30]));
    assert_eq!(one(b"EQUALTT 0xC"), Ok(vec![0x0B, 0x24, 0, 0x0C]));
    assert_eq!(one(b"LOGANDII"), Ok(vec![0x06, 0x20]));
    assert_eq!(one(b"JMP @16"), Ok(vec![0x1D, 0, 0, 0, 0, 0x10]));
    assert_eq!(one(b"JMP 16"), Ok(vec![0x1D, 0, 0, 0, 0, 0x10]));
    assert_eq!(
        one(b"CPDOWNSP @-8 0x4"),
        Ok(vec![0x01, 0x01, 0xFF, 0xFF, 0xFF, 0xF8, 0, 4])
    );
    assert_eq!(
        one(b"DESTRUCT 0x10 @4 0x8"),
        Ok(vec![0x21, 0x01, 0, 0x10, 0, 4, 0, 8])
    );
    assert_eq!(one(b"ACTION Random 2"), Ok(vec![0x05, 0, 0, 7, 2]));
    assert_eq!(
        one(b"CONSTS \"one two\""),
        Ok(vec![0x04, 0x05, 0, 7, b'o', b'n', b'e', b' ', b't', b'w', b'o'])
    );
}

#[test]
fn faults_of_lines() {
    assert_eq!(one(b"FROB"), parse(ParseFault::UnknownMnemonic));
    assert_eq!(one(b"retn"), parse(ParseFault::UnknownMnemonic));
    assert_eq!(one(b"RSADD"), parse(ParseFault::MissingTypeSpecifier(OpcodeE::RSADD)));
    assert_eq!(one(b"RSADD 5"), parse(ParseFault::BadTypeSpecifier(OpcodeE::RSADD)));
    assert_eq!(one(b"RSADD x"), parse(ParseFault::Number));
    assert_eq!(one(b"RSADD 0x13"), parse(ParseFault::Number));
    assert_eq!(
        one(b"ADD"),
        Err(AssemblyError::TableError(TableFault::MultipleTypes(
            OpcodeE::ADD
        )))
    );
    assert_eq!(
        one(b"RETN 1"),
        parse(ParseFault::ArgumentCount {
            opcode: OpcodeE::RETN,
            expected: 0,
            got: 1
        })
    );
    assert_eq!(
        one(b"JMP"),
        parse(ParseFault::ArgumentCount {
            opcode: OpcodeE::JMP,
            expected: 1,
            got: 0
        })
    );
    assert_eq!(
        one(b"CONSTS 0x2 \"hi\""),
        parse(ParseFault::ArgumentCount {
            opcode: OpcodeE::CONST,
            expected: 1,
            got: 2
        })
    );
    assert_eq!(one(b"JMP x"), parse(ParseFault::Number));
    assert_eq!(one(b"CONSTS hi"), parse(ParseFault::BadString));
    assert_eq!(one(b"CONSTS \"hi"), parse(ParseFault::UnclosedDelimiter));
    assert_eq!(one(b"ACTION Nothing 1"), parse(ParseFault::UnknownRoutine));
    assert_eq!(one(b"CONSTF 1.5"), parse(ParseFault::Number));
}

fn table_with(types: Vec<u8>, args: Vec<Operand>) -> Vec<Option<Opcode>> {
    let mut table = get_opcodes();
    let mut m = HashMap::new();
    m.insert(0u8, args);
    table[0x42] = Some(Opcode {
        code: OpcodeE::T,
        types: None,
        args: Some(m),
    });
    table[0x2D] = Some(Opcode {
        code: OpcodeE::NOP,
        types: Some(types),
        args: None,
    });
    table
}

#[test]
fn programs() {
    let opcodes = get_opcodes();
    let text = b";;NCS V1.0\r\n\r\nT 0x0\r\nRETN\r\n";
    assert_eq!(
        assemble(text, &opcodes, None, &[]),
        Ok(vec![
            0x4E, 0x43, 0x53, 0x20, 0x56, 0x31, 0x2E, 0x30, 0x42, 0, 0, 0, 15, 0x20, 0x00
        ])
    );
    assert_eq!(
        assemble(b"T 0xFFFFFFFF", &opcodes, Some(&routines()), &[]),
        Ok(vec![
            0x4E, 0x43, 0x53, 0x20, 0x56, 0x31, 0x2E, 0x30, 0x42, 0, 0, 0, 13
        ])
    );
}

#[test]
fn faults_of_programs() {
    let opcodes = get_opcodes();
    assert_eq!(
        assemble(b"", &opcodes, None, &[]),
        Err(AssemblyError::ParseError(ParseFault::FirstNotT, 0))
    );
    assert_eq!(
        assemble(b";;NCS V1.0\n\n", &opcodes, None, &[]),
        Err(AssemblyError::ParseError(ParseFault::FirstNotT, 0))
    );
    assert_eq!(
        assemble(b";;x\nRETN\nT 0x0\n", &opcodes, None, &[]),
        Err(AssemblyError::ParseError(ParseFault::FirstNotT, 2))
    );
    assert_eq!(
        assemble(b"T 0x0\nRETN\nFROB\n", &opcodes, None, &[]),
        Err(AssemblyError::ParseError(ParseFault::UnknownMnemonic, 3))
    );
    assert_eq!(
        assemble(b"T\n", &opcodes, None, &[]),
        Err(AssemblyError::ParseError(
            ParseFault::ArgumentCount {
                opcode: OpcodeE::T,
                expected: 1,
                got: 0
            },
            1
        ))
    );
    let unknown_type = table_with(vec![0x00, 0x50], vec![Operand::Size(4)]);
    assert_eq!(
        check_variant_types(&unknown_type, &get_nwtypes()),
        Err(TableFault::VariantTypeNotFound {
            type_byte: 0x50,
            opcode: OpcodeE::NOP
        })
    );
    assert_eq!(check_variant_types(&opcodes, &get_nwtypes()), Ok(()));
    assert_eq!(
        assemble(b"T 0x0\n", &unknown_type, None, &[]),
        Err(AssemblyError::TableError(TableFault::VariantTypeNotFound {
            type_byte: 0x50,
            opcode: OpcodeE::NOP
        }))
    );
    let no_size = table_with(vec![0x00], vec![Operand::Integer(4)]);
    assert_eq!(
        assemble(b"T 0\n", &no_size, None, &[]),
        Err(AssemblyError::TableError(TableFault::TotalWithoutSize))
    );
    let narrow = table_with(vec![0x00], vec![Operand::Size(1)]);
    let mut text = b"T 0x0\n".to_vec();
    for _ in 0..200 {
        text.extend_from_slice(b"NOP\n");
    }
    assert_eq!(
        assemble(&text, &narrow, None, &[]),
        Err(AssemblyError::ParseError(ParseFault::TooLarge, 1))
    );
    let mut fits = b"T 0x0\n".to_vec();
    for _ in 0..122 {
        fits.extend_from_slice(b"NOP\n");
    }
    let bytes = assemble(&fits, &narrow, None, &[]).unwrap();
    assert_eq!(bytes.len(), 254);
    assert_eq!(bytes[9], 254);
}
