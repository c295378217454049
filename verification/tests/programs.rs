use ox::assemble::{assemble, assemble_line, split_line, AssemblyError, ParseFault};
use ox::disassemble::{disassemble, DisassemblyError, StreamFault};
use ox::opcodes::{get_nwtypes, get_opcodes, OpcodeE};
use ox::{FloatText, Routine};
use std::collections::HashMap;

fn words(text: &[u8]) -> Vec<Vec<u8>> {
    text.split(|b| b.is_ascii_whitespace())
        .filter(|w| !w.is_empty())
        .map(|w| w.to_vec())
        .collect()
}

fn print_string() -> HashMap<u16, Routine> {
    let mut routines = HashMap::new();
    routines.insert(
        0,
        Routine {
            return_type: b"void".to_vec(),
            name: b"PrintString".to_vec(),
            code: 0,
            args: Vec::new(),
        },
    );
    routines
}

#[test]
fn empty_program_round_trip() {
    let binary: Vec<u8> = vec![
        0x4E, 0x43, 0x53, 0x20, 0x56, 0x31, 0x2E, 0x30, 0x42, 0x00, 0x00, 0x00, 0x0D,
    ];
    let opcodes = get_opcodes();
    let routines = HashMap::new();
    let text = disassemble(&binary, &opcodes, &routines, &[]).unwrap();
    assert_eq!(words(&text), words(b";;NCS V1.0\nT    0x0000000D\n"));
    let again = assemble(&text, &opcodes, Some(&routines), &[]).unwrap();
    assert_eq!(again, binary);
}

#[test]
fn integer_constant_and_return() {
    let text = b";;NCS V1.0\nT          0x00000017\nCONSTI     42\nRSADDI\nRETN\n";
    let opcodes = get_opcodes();
    let bytes = assemble(text, &opcodes, None, &[]).unwrap();
    assert_eq!(
        bytes,
        vec![
            0x4E, 0x43, 0x53, 0x20, 0x56, 0x31, 0x2E, 0x30, 0x42, 0x00, 0x00, 0x00, 0x17, 0x04,
            0x03, 0x00, 0x00, 0x00, 0x2A, 0x02, 0x03, 0x20, 0x00
        ]
    );
    let back = disassemble(&bytes, &opcodes, &HashMap::new(), &[]).unwrap();
    assert_eq!(words(&back), words(text));
}

#[test]
fn string_constant() {
    let opcodes = get_opcodes();
    let nwtypes = get_nwtypes();
    let bytes = assemble_line(
        b"CONSTS     \"hi\"",
        1,
        &opcodes,
        &nwtypes,
        &HashMap::new(),
        &[],
    )
    .unwrap();
    assert_eq!(bytes, vec![0x04, 0x05, 0x00, 0x02, 0x68, 0x69]);
}

#[test]
fn action_call() {
    let opcodes = get_opcodes();
    let nwtypes = get_nwtypes();
    let routines = print_string();
    let bytes = assemble_line(
        b"ACTION     PrintString#0x0 1",
        1,
        &opcodes,
        &nwtypes,
        &routines,
        &[],
    )
    .unwrap();
    assert_eq!(bytes, vec![0x05, 0x00, 0x00, 0x00, 0x01]);
}

#[test]
fn illegal_type_is_rejected() {
    let binary: Vec<u8> = vec![
        0x4E, 0x43, 0x53, 0x20, 0x56, 0x31, 0x2E, 0x30, 0x42, 0x00, 0x00, 0x00, 0x0F, 0x14, 0xFF,
    ];
    let opcodes = get_opcodes();
    let err = disassemble(&binary, &opcodes, &HashMap::new(), &[]).unwrap_err();
    assert_eq!(
        err,
        DisassemblyError::OpStreamError(
            StreamFault::IllegalType {
                type_byte: 0xFF,
                opcode: OpcodeE::ADD
            },
            15
        )
    );
}

#[test]
fn tokenizer_keeps_a_string_whole() {
    let tokens = split_line(b"CONSTS    \"one two\"").unwrap();
    assert_eq!(tokens, vec![b"CONSTS".to_vec(), b"\"one two\"".to_vec()]);
}

#[test]
fn seven_bytes_miss_the_header() {
    let opcodes = get_opcodes();
    let err = disassemble(b"NCS V1.", &opcodes, &HashMap::new(), &[]).unwrap_err();
    assert_eq!(
        err,
        DisassemblyError::OpStreamError(StreamFault::MissingHeader, 0)
    );
}

#[test]
fn header_alone_misses_t() {
    let opcodes = get_opcodes();
    let err = disassemble(b"NCS V1.0", &opcodes, &HashMap::new(), &[]).unwrap_err();
    assert_eq!(err, DisassemblyError::OpStreamError(StreamFault::MissingT, 8));
}

#[test]
fn byte_count_that_instructions_overrun() {
    let binary: Vec<u8> = vec![
        0x4E, 0x43, 0x53, 0x20, 0x56, 0x31, 0x2E, 0x30, 0x42, 0x00, 0x00, 0x00, 0x0E, 0x20, 0x00,
    ];
    let opcodes = get_opcodes();
    let err = disassemble(&binary, &opcodes, &HashMap::new(), &[]).unwrap_err();
    assert_eq!(
        err,
        DisassemblyError::OpStreamError(
            StreamFault::SizeMismatch {
                expected: 14,
                read: 15
            },
            15
        )
    );
}

#[test]
fn unterminated_string() {
    assert_eq!(
        split_line(b"CONSTS \"abc"),
        Err(ParseFault::UnclosedDelimiter)
    );
    let opcodes = get_opcodes();
    let err = assemble(b"T 0x0\nCONSTS \"abc\n", &opcodes, None, &[]).unwrap_err();
    assert_eq!(
        err,
        AssemblyError::ParseError(ParseFault::UnclosedDelimiter, 2)
    );
}

#[test]
fn number_out_of_range() {
    let opcodes = get_opcodes();
    let nwtypes = get_nwtypes();
    let routines = print_string();
    let err = assemble_line(b"ACTION X#0x0 256", 3, &opcodes, &nwtypes, &routines, &[])
        .unwrap_err();
    assert_eq!(err, AssemblyError::ParseError(ParseFault::Number, 3));
    let err = assemble_line(b"CONSTI 2147483648", 4, &opcodes, &nwtypes, &routines, &[])
        .unwrap_err();
    assert_eq!(err, AssemblyError::ParseError(ParseFault::Number, 4));
    let ok = assemble_line(b"CONSTI -2147483648", 4, &opcodes, &nwtypes, &routines, &[]).unwrap();
    assert_eq!(ok, vec![0x04, 0x03, 0x80, 0x00, 0x00, 0x00]);
}

#[test]
fn float_constant_by_the_table() {
    let opcodes = get_opcodes();
    let floats = vec![FloatText {
        bits: 0x3FC0_0000,
        text: b"1.5".to_vec(),
    }];
    let text = b"T 0x0\nCONSTF 1.5\n";
    let bytes = assemble(text, &opcodes, None, &floats).unwrap();
    assert_eq!(
        bytes,
        vec![
            0x4E, 0x43, 0x53, 0x20, 0x56, 0x31, 0x2E, 0x30, 0x42, 0x00, 0x00, 0x00, 0x13, 0x04,
            0x04, 0x3F, 0xC0, 0x00, 0x00
        ]
    );
    let back = disassemble(&bytes, &opcodes, &HashMap::new(), &floats).unwrap();
    assert_eq!(words(&back), words(b";;NCS V1.0\nT 0x00000013\nCONSTF 1.5\n"));
}
