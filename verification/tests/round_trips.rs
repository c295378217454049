use ox::assemble::{assemble, assemble_line};
use ox::disassemble::{disassemble, disassemble_op, format_output};
use ox::opcodes::{get_nwtypes, get_opcodes, Operand};
use ox::roundtrip::encode_op;
use ox::{FloatText, Routine};
use std::collections::HashMap;

fn routines() -> HashMap<u16, Routine> {
    let mut routines = HashMap::new();
    routines.insert(
        0x0102,
        Routine {
            return_type: b"void".to_vec(),
            name: b"SetLocalInt".to_vec(),
            code: 0x0102,
            args: Vec::new(),
        },
    );
    routines
}

fn floats() -> Vec<FloatText> {
    vec![FloatText {
        bits: 0x0102_0304,
        text: b"2.3879393e-38".to_vec(),
    }]
}

/// The bytes of one instruction of each kind that the tables hold and whose
/// line can be read again: every type that has a suffix or stands alone.
fn instructions() -> Vec<Vec<u8>> {
    let nwtypes = get_nwtypes();
    let mut all = Vec::new();
    for op in get_opcodes().iter().flatten() {
        let variants: Vec<Option<u8>> = match &op.types {
            Some(types) => types.iter().map(|t| Some(*t)).collect(),
            None => vec![None],
        };
        for t in variants {
            if let Some(t) = t {
                let entry = nwtypes.get(t as usize).and_then(|e| e.as_ref());
                let single = op.types.as_ref().unwrap().len() < 2;
                match entry {
                    None => continue,
                    Some(ty) => {
                        if ty.abbr.is_none() && !single {
                            continue;
                        }
                    }
                }
            }
            let mut bytes = vec![op.code.code()];
            bytes.extend(t);
            let list = op
                .args
                .as_ref()
                .and_then(|m| m.get(&t.unwrap_or(0)))
                .cloned()
                .unwrap_or_default();
            for (i, o) in list.iter().enumerate() {
                match *o {
                    Operand::String => bytes.extend_from_slice(b"a b"),
                    Operand::Size(w) if list.get(i + 1) == Some(&Operand::String) => {
                        bytes.extend(std::iter::repeat(0).take(w - 1));
                        bytes.push(3);
                    }
                    Operand::Routine(w)
                    | Operand::Object(w)
                    | Operand::Size(w)
                    | Operand::Offset(w)
                    | Operand::Integer(w)
                    | Operand::Float(w)
                    | Operand::ArgCount(w) => bytes.extend((1..=w as u8).map(|b| b)),
                }
            }
            all.push(bytes);
        }
    }
    all
}

#[test]
fn every_instruction_is_read_back_from_its_bytes() {
    let opcodes = get_opcodes();
    let all = instructions();
    assert!(all.len() > 60);
    for bytes in all {
        let mut stream = vec![0xEE];
        stream.extend_from_slice(&bytes);
        stream.push(0xEE);
        let payload = disassemble_op(&stream, &opcodes, 1).unwrap();
        assert_eq!(payload.bytes_read, bytes.len());
        assert_eq!(encode_op(&payload), bytes);
    }
}

#[test]
fn every_line_is_read_back_from_its_text() {
    let opcodes = get_opcodes();
    let nwtypes = get_nwtypes();
    for bytes in instructions() {
        let payload = disassemble_op(&bytes, &opcodes, 0).unwrap();
        let line = format_output(&payload, &routines(), &nwtypes, &floats(), 14).unwrap();
        let text = &line[..line.len() - 1];
        let again = assemble_line(text, 1, &opcodes, &nwtypes, &routines(), &floats());
        assert_eq!(again, Ok(bytes), "{}", String::from_utf8_lossy(text));
    }
}

#[test]
fn a_program_is_read_back_from_its_text() {
    let opcodes = get_opcodes();
    let mut body = Vec::new();
    for bytes in instructions() {
        if bytes[0] != 0x42 {
            body.extend(bytes);
        }
    }
    let mut stream = b"NCS V1.0".to_vec();
    stream.push(0x42);
    stream.extend_from_slice(&((13 + body.len()) as u32).to_be_bytes());
    stream.extend(body);
    let text = disassemble(&stream, &opcodes, &routines(), &floats()).unwrap();
    let again = assemble(&text, &opcodes, Some(&routines()), &floats());
    assert_eq!(again, Ok(stream.clone()));
    let text_again = disassemble(&again.unwrap(), &opcodes, &routines(), &floats()).unwrap();
    assert_eq!(text_again, text);
}

#[test]
fn a_type_without_suffix_is_not_read_back() {
    let opcodes = get_opcodes();
    let nwtypes = get_nwtypes();
    let payload = disassemble_op(&[0x0B, 0x30], &opcodes, 0).unwrap();
    let line = format_output(&payload, &routines(), &nwtypes, &floats(), 14).unwrap();
    assert_eq!(line, b"EQUAL         0x30\n");
    assert!(assemble_line(&line, 1, &opcodes, &nwtypes, &routines(), &floats()).is_err());
}
