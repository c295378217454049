use ox::disassemble::{
    disassemble, disassemble_op, float_operands, format_output, DataFault, DisassemblyError,
    StreamFault,
};
use ox::opcodes::{get_nwtypes, get_opcodes, Opcode, OpcodeE, Operand};
use ox::roundtrip::encode_op;
use ox::{FloatText, Routine};
use std::collections::HashMap;

const HEADER: &[u8] = b"NCS V1.0";

fn program(body: &[u8]) -> Vec<u8> {
    let mut out = HEADER.to_vec();
    let total = (HEADER.len() + 5 + body.len()) as u32;
    out.push(0x42);
    out.extend_from_slice(&total.to_be_bytes());
    out.extend_from_slice(body);
    out
}

fn routines() -> HashMap<u16, Routine> {
    let mut routines = HashMap::new();
    routines.insert(
        1,
        Routine {
            return_type: b"void".to_vec(),
            name: b"PrintString".to_vec(),
            code: 1,
            args: Vec::new(),
        },
    );
    routines
}

fn line(bytes: &[u8]) -> Vec<u8> {
    let opcodes = get_opcodes();
    let nwtypes = get_nwtypes();
    let floats = vec![FloatText {
        bits: 0x3FC0_0000,
        text: b"1.5".to_vec(),
    }];
    let payload = disassemble_op(bytes, &opcodes, 0).unwrap();
    assert_eq!(payload.bytes_read, bytes.len());
    assert_eq!(encode_op(&payload), bytes);
    format_output(&payload, &routines(), &nwtypes, &floats, 14).unwrap()
}

#[test]
fn decoded_instruction() {
    let opcodes = get_opcodes();
    let stream = [0xAA, 0x04, 0x05, 0x00, 0x02, 0x68, 0x69, 0xBB];
    let payload = disassemble_op(&stream, &opcodes, 1).unwrap();
    assert_eq!(payload.bytes_read, 6);
    assert_eq!(payload.op.code, OpcodeE::CONST);
    assert_eq!(payload._type, Some(0x05));
    assert_eq!(payload.args.len(), 2);
    assert_eq!(*payload.args[0].0, Operand::Size(2));
    assert_eq!(payload.args[0].1, vec![0x00, 0x02]);
    assert_eq!(*payload.args[1].0, Operand::String);
    assert_eq!(payload.args[1].1, b"hi".to_vec());
    assert_eq!(encode_op(&payload), stream[1..7].to_vec());
}

#[test]
fn lines_of_instructions() {
    assert_eq!(line(&[0x42, 0, 0, 0, 0x0D]), b"T             0x0000000D\n");
    assert_eq!(line(&[0x20, 0x00]), b"RETN\n");
    assert_eq!(line(&[0x02, 0x03]), b"RSADDI\n");
    assert_eq!(line(&[0x04, 0x03, 0, 0, 0, 0x2A]), b"CONSTI        42\n");
    assert_eq!(
        line(&[0x04, 0x03, 0xFF, 0xFF, 0xFF, 0xFE]),
        b"CONSTI        -2\n"
    );
    assert_eq!(line(&[0x04, 0x04, 0x3F, 0xC0, 0, 0]), b"CONSTF        1.5\n");
    assert_eq!(line(&[0x04, 0x05, 0, 2, 0x68, 0x69]), b"CONSTS        \"hi\"\n");
    assert_eq!(line(&[0x04, 0x06, 0, 0, 0, 1]), b"CONSTO        0x1\n");
    assert_eq!(
        line(&[0x05, 0x00, 0x00, 0x01, 0x02]),
        b"ACTION        PrintString#0x1     2\n"
    );
    assert_eq!(
        line(&[0x05, 0x00, 0x00, 0x07, 0x02]),
        b"ACTION        ???#0x7     2\n"
    );
    assert_eq!(
        line(&[0x01, 0x01, 0xFF, 0xFF, 0xFF, 0xF8, 0x00, 0x04]),
        b"CPDOWNSP      @-8     0x4\n"
    );
    assert_eq!(
        line(&[0x23, 0x03, 0xFF, 0xFF, 0xFF, 0xFC]),
        b"DECISP             @-4\n"
    );
    assert_eq!(line(&[0x1D, 0x00, 0, 0, 0, 0x10]), b"JMP           @16\n");
    assert_eq!(line(&[0x0B, 0x20]), b"EQUALII\n");
    assert_eq!(line(&[0x0B, 0x24, 0x00, 0x0C]), b"EQUALTT       0xC\n");
    assert_eq!(line(&[0x0B, 0x30]), b"EQUAL         0x30\n");
    assert_eq!(line(&[0x14, 0x3A]), b"ADDVV\n");
    assert_eq!(
        line(&[0x21, 0x01, 0x00, 0x10, 0x00, 0x04, 0x00, 0x08]),
        b"DESTRUCT      0x10     @4     0x8\n"
    );
    assert_eq!(
        line(&[0x2C, 0x10, 0, 0, 0, 8, 0, 0, 0, 4]),
        b"STORE_STATE   0x8     0x4\n"
    );
}

#[test]
fn faults_of_one_instruction() {
    let opcodes = get_opcodes();
    assert_eq!(
        disassemble_op(&[0x04], &opcodes, 1).err(),
        Some(DisassemblyError::OpStreamError(
            StreamFault::UnexpectedEof {
                got: 0,
                expected: 1
            },
            1
        ))
    );
    assert_eq!(
        disassemble_op(&[0x00], &opcodes, 0).err(),
        Some(DisassemblyError::OpStreamError(
            StreamFault::UnknownOpcode(0),
            1
        ))
    );
    assert_eq!(
        disassemble_op(&[0x04], &opcodes, 0).err(),
        Some(DisassemblyError::OpStreamError(
            StreamFault::UnexpectedEof {
                got: 0,
                expected: 1
            },
            1
        ))
    );
    assert_eq!(
        disassemble_op(&[0x04, 0x07], &opcodes, 0).err(),
        Some(DisassemblyError::OpStreamError(
            StreamFault::IllegalType {
                type_byte: 7,
                opcode: OpcodeE::CONST
            },
            2
        ))
    );
    assert_eq!(
        disassemble_op(&[0x04, 0x03, 0, 0], &opcodes, 0).err(),
        Some(DisassemblyError::OpStreamError(
            StreamFault::UnexpectedEof {
                got: 2,
                expected: 4
            },
            2
        ))
    );
    assert_eq!(
        disassemble_op(&[0x04, 0x05, 0, 3, 0x68], &opcodes, 0).err(),
        Some(DisassemblyError::OpStreamError(
            StreamFault::UnexpectedEof {
                got: 1,
                expected: 3
            },
            4
        ))
    );
}

fn odd_table() -> Vec<Option<Opcode>> {
    let mut table: Vec<Option<Opcode>> = (0..4).map(|_| None).collect();
    let mut lone = HashMap::new();
    lone.insert(0u8, vec![Operand::String]);
    table[1] = Some(Opcode {
        code: OpcodeE::NOP,
        types: None,
        args: Some(lone),
    });
    let mut wide = HashMap::new();
    wide.insert(0u8, vec![Operand::Size(3)]);
    table[2] = Some(Opcode {
        code: OpcodeE::NOP,
        types: None,
        args: Some(wide),
    });
    let mut odd = HashMap::new();
    odd.insert(0u8, vec![Operand::Integer(1)]);
    table[3] = Some(Opcode {
        code: OpcodeE::NOP,
        types: None,
        args: Some(odd),
    });
    table
}

#[test]
fn faults_of_the_tables() {
    let table = odd_table();
    assert_eq!(
        disassemble_op(&[1, 0, 0], &table, 0).err(),
        Some(DisassemblyError::OpStreamError(
            StreamFault::StringWithoutSize,
            0
        ))
    );
    assert_eq!(
        disassemble_op(&[2, 0, 0, 0], &table, 0).err(),
        Some(DisassemblyError::DataError(DataFault::UnsignedSize(3)))
    );
    assert_eq!(
        disassemble_op(&[9], &table, 0).err(),
        Some(DisassemblyError::OpStreamError(
            StreamFault::UnknownOpcode(9),
            1
        ))
    );
    let payload = disassemble_op(&[3, 7], &table, 0).unwrap();
    assert_eq!(
        format_output(&payload, &HashMap::new(), &get_nwtypes(), &[], 14).err(),
        Some(DisassemblyError::DataError(DataFault::SignedSize(1)))
    );
}

#[test]
fn faults_of_a_line() {
    let opcodes = get_opcodes();
    let nwtypes = get_nwtypes();
    let float = disassemble_op(&[0x04, 0x04, 0x3F, 0xC0, 0, 0], &opcodes, 0).unwrap();
    assert_eq!(
        format_output(&float, &HashMap::new(), &nwtypes, &[], 14).err(),
        Some(DisassemblyError::DataError(DataFault::FloatText(
            0x3FC0_0000
        )))
    );
    let all = disassemble_op(&[0x1C, 0x08], &opcodes, 0).unwrap();
    assert_eq!(
        format_output(&all, &HashMap::new(), &nwtypes, &[], 14).err(),
        Some(DisassemblyError::OpStreamError(
            StreamFault::UndocumentedType {
                type_byte: 8,
                opcode: OpcodeE::STORE_STATEALL
            },
            0
        ))
    );
}

#[test]
fn whole_program() {
    let opcodes = get_opcodes();
    let stream = program(&[0x04, 0x03, 0, 0, 0, 0x2A, 0x02, 0x03, 0x20, 0x00]);
    let text = disassemble(&stream, &opcodes, &HashMap::new(), &[]).unwrap();
    assert_eq!(
        text,
        b";;NCS V1.0\nT             0x00000017\nCONSTI        42\nRSADDI\nRETN\n".to_vec()
    );
}

#[test]
fn faults_of_a_program() {
    let opcodes = get_opcodes();
    let none = HashMap::new();
    let mut not_t = HEADER.to_vec();
    not_t.extend_from_slice(&[0x20, 0x00]);
    assert_eq!(
        disassemble(&not_t, &opcodes, &none, &[]).err(),
        Some(DisassemblyError::OpStreamError(
            StreamFault::UnexpectedOpcode(OpcodeE::RETN),
            10
        ))
    );
    let mut short = HEADER.to_vec();
    short.extend_from_slice(&[0x42, 0, 0]);
    assert_eq!(
        disassemble(&short, &opcodes, &none, &[]).err(),
        Some(DisassemblyError::OpStreamError(StreamFault::MissingT, 9))
    );
    let mut long = HEADER.to_vec();
    long.extend_from_slice(&[0x42, 0, 0, 0, 0x20, 0x20, 0x00]);
    assert_eq!(
        disassemble(&long, &opcodes, &none, &[]).err(),
        Some(DisassemblyError::OpStreamError(
            StreamFault::UnexpectedEof {
                got: 0,
                expected: 1
            },
            15
        ))
    );
    let mut small = HEADER.to_vec();
    small.extend_from_slice(&[0x42, 0, 0, 0, 0x05]);
    assert_eq!(
        disassemble(&small, &opcodes, &none, &[]).err(),
        Some(DisassemblyError::OpStreamError(
            StreamFault::SizeMismatch {
                expected: 5,
                read: 13
            },
            13
        ))
    );
    let mut unknown = program(&[0xFE]);
    unknown[12] = 14;
    assert_eq!(
        disassemble(&unknown, &opcodes, &none, &[]).err(),
        Some(DisassemblyError::OpStreamError(
            StreamFault::UnknownOpcode(0xFE),
            14
        ))
    );
}

#[test]
fn stops_at_the_declared_total() {
    let opcodes = get_opcodes();
    let mut stream = program(&[0x20, 0x00]);
    stream.extend_from_slice(&[0xFE, 0xFE]);
    let text = disassemble(&stream, &opcodes, &HashMap::new(), &[]).unwrap();
    assert_eq!(text, b";;NCS V1.0\nT             0x0000000F\nRETN\n".to_vec());
}

#[test]
fn floats_of_a_program() {
    let opcodes = get_opcodes();
    let stream = program(&[
        0x04, 0x04, 0x3F, 0xC0, 0, 0, 0x20, 0x00, 0x04, 0x04, 0x40, 0x00, 0, 0, 0xFE,
    ]);
    assert_eq!(
        float_operands(&stream, &opcodes),
        vec![0x3FC0_0000, 0x4000_0000]
    );
    assert_eq!(float_operands(b"NCS", &opcodes), Vec::<u32>::new());
}
