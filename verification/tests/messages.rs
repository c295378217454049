use ox::assemble::{AssemblyError, ParseFault, TableFault};
use ox::disassemble::{disassemble, DataFault, DisassemblyError, StreamFault};
use ox::nwscript::{DefinitionError, Expected};
use ox::opcodes::{get_opcodes, OpcodeE};
use std::collections::HashMap;

fn words(bytes: Vec<u8>) -> String {
    String::from_utf8(bytes).unwrap()
}

#[test]
fn illegal_type_in_words() {
    let binary: Vec<u8> = vec![
        0x4E, 0x43, 0x53, 0x20, 0x56, 0x31, 0x2E, 0x30, 0x42, 0x00, 0x00, 0x00, 0x0F, 0x14, 0xFF,
    ];
    let err = disassemble(&binary, &get_opcodes(), &HashMap::new(), &[]).unwrap_err();
    match err {
        DisassemblyError::OpStreamError(fault, _) => assert_eq!(
            words(fault.message()),
            "Type 0xFF not in list of legal types for opcode ADD"
        ),
        DisassemblyError::DataError(_) => panic!("a fault of the stream was expected"),
    }
    assert_eq!(
        words(err.message()),
        "Type 0xFF not in list of legal types for opcode ADD (byte 15)"
    );
}

#[test]
fn faults_of_streams_in_words() {
    assert_eq!(words(StreamFault::MissingHeader.message()), "missing header");
    assert_eq!(words(StreamFault::MissingT.message()), "missing T");
    assert_eq!(
        words(
            StreamFault::UnexpectedEof {
                got: 2,
                expected: 4
            }
            .message()
        ),
        "Unexpected EOF: got 2 bytes but expected 4"
    );
    assert_eq!(
        words(StreamFault::UnknownOpcode(0x0).message()),
        "Unknown opcode 0x00"
    );
    assert_eq!(
        words(StreamFault::StringWithoutSize.message()),
        "String argument without preceding length argument!"
    );
    assert_eq!(
        words(StreamFault::UnexpectedOpcode(OpcodeE::RETN).message()),
        "Unexpected opcode 0x20, expected T (0x42)"
    );
    assert_eq!(
        words(
            StreamFault::SizeMismatch {
                expected: 14,
                read: 15
            }
            .message()
        ),
        "size mismatch: T 14 does not match file size (read 15 bytes)"
    );
    assert_eq!(
        words(
            StreamFault::UndocumentedType {
                type_byte: 8,
                opcode: OpcodeE::STORE_STATEALL
            }
            .message()
        ),
        "Undocumented type 8 for opcode STORE_STATEALL"
    );
}

#[test]
fn faults_of_data_in_words() {
    assert_eq!(
        words(DataFault::UnsignedSize(3).message()),
        "Unsigned integer size (3 bytes) not supported"
    );
    assert_eq!(
        words(DataFault::SignedSize(1).message()),
        "Signed integer size (1 byte) not supported"
    );
    assert_eq!(
        words(DataFault::FloatSize(0).message()),
        "Float size (0 bytes) not supported"
    );
    assert_eq!(
        words(DataFault::FloatText(0x3FC0_0000).message()),
        "No text for the float 0x3FC00000"
    );
    assert_eq!(
        words(DisassemblyError::DataError(DataFault::FloatSize(12345)).message()),
        "Float size (12345 bytes) not supported"
    );
}

#[test]
fn faults_of_text_in_words() {
    assert_eq!(
        words(AssemblyError::ParseError(ParseFault::UnclosedDelimiter, 7).message()),
        "Line with unclosed delimiter (line 7)"
    );
    assert_eq!(
        words(ParseFault::UnknownMnemonic.message()),
        "Expected valid opcode string"
    );
    assert_eq!(
        words(ParseFault::MissingTypeSpecifier(OpcodeE::RSADD).message()),
        "Opcode with no type specifier: RSADD"
    );
    assert_eq!(
        words(ParseFault::BadTypeSpecifier(OpcodeE::EQUAL).message()),
        "Opcode EQUAL with illegal or unknown type specifier"
    );
    assert_eq!(
        words(
            ParseFault::ArgumentCount {
                opcode: OpcodeE::JMP,
                expected: 1,
                got: 0
            }
            .message()
        ),
        "Opcode JMP expects 1 args, got 0"
    );
    assert_eq!(
        words(ParseFault::UnsupportedSize(3).message()),
        "Unsupported size 3 bytes"
    );
    for fault in [
        ParseFault::Number,
        ParseFault::UnknownRoutine,
        ParseFault::BadString,
        ParseFault::FirstNotT,
        ParseFault::TooLarge,
    ] {
        assert!(!fault.message().is_empty());
    }
    assert_eq!(
        words(AssemblyError::TableError(TableFault::MultipleTypes(OpcodeE::ADD)).message()),
        "Opcode definition error: ADD has more than one type"
    );
    assert_eq!(
        words(
            TableFault::VariantTypeNotFound {
                type_byte: 80,
                opcode: OpcodeE::NOP
            }
            .message()
        ),
        "Variant type 80 not found for opcode NOP"
    );
    assert_eq!(
        words(TableFault::TotalWithoutSize.message()),
        "Opcode definition error: T has no size"
    );
}

#[test]
fn faults_of_definitions_in_words() {
    assert_eq!(
        words(
            DefinitionError {
                offset: 10,
                expected: Expected::Equals
            }
            .message()
        ),
        "error at byte 10: expected `=`"
    );
    for expected in [
        Expected::Word,
        Expected::Open,
        Expected::Close,
        Expected::Number,
        Expected::Value,
        Expected::Semicolon,
        Expected::Routine,
        Expected::Comment,
        Expected::End,
    ] {
        let message = words(DefinitionError { offset: 0, expected }.message());
        assert!(message.starts_with("error at byte 0: expected "));
        assert!(message.len() > 26);
    }
}
