use ox::decoder::Decoder;
use ox::disassemble::{disassemble_op, DisassemblyError, StreamFault};
use ox::opcodes::{get_opcodes, Opcode, OpcodeE, Operand};

/// Feeds a decoder from `bytes`, a read at a time; gives the instruction
/// with the sizes of the reads that the decoder asked for.
fn by_steps<'a>(
    bytes: &[u8],
    opcodes: &'a [Option<Opcode>],
) -> Result<(ox::opcodes::OpPayload<'a>, Vec<usize>), DisassemblyError> {
    let mut decoder = Decoder::new(0);
    let mut asked = Vec::new();
    let mut pos = 0;
    while !decoder.is_done() {
        let want = decoder.wants()?;
        asked.push(want);
        let got = want.min(bytes.len() - pos);
        decoder = decoder.supply(opcodes, &bytes[pos..pos + got])?;
        pos += got;
    }
    Ok((decoder.finish(), asked))
}

#[test]
fn decoder_asks_for_each_part_in_turn() {
    let opcodes = get_opcodes();
    let (payload, asked) = by_steps(&[0x04, 0x05, 0x00, 0x02, 0x68, 0x69], &opcodes).unwrap();
    assert_eq!(asked, vec![1, 1, 2, 2]);
    assert_eq!(payload.op.code, OpcodeE::CONST);
    assert_eq!(payload._type, Some(0x05));
    assert_eq!(payload.bytes_read, 6);
    assert_eq!(*payload.args[1].0, Operand::String);
    assert_eq!(payload.args[1].1, b"hi".to_vec());

    let (payload, asked) = by_steps(&[0x42, 0, 0, 0, 0x0D, 0xFF], &opcodes).unwrap();
    assert_eq!(asked, vec![1, 4]);
    assert_eq!(payload.op.code, OpcodeE::T);
    assert_eq!(payload._type, None);
    assert_eq!(payload.bytes_read, 5);

    let (payload, asked) = by_steps(&[0x20, 0x00], &opcodes).unwrap();
    assert_eq!(asked, vec![1, 1]);
    assert_eq!(payload.args.len(), 0);
    assert_eq!(payload.bytes_read, 2);

    let (payload, asked) = by_steps(&[0x04, 0x05, 0x00, 0x00], &opcodes).unwrap();
    assert_eq!(asked, vec![1, 1, 2, 0]);
    assert_eq!(payload.args[1].1, Vec::<u8>::new());
}

#[test]
fn decoder_agrees_with_decoding_from_a_buffer() {
    let opcodes = get_opcodes();
    let streams: Vec<Vec<u8>> = vec![
        vec![0x05, 0x00, 0x01, 0x02, 0x03],
        vec![0x21, 0x01, 0x00, 0x10, 0x00, 0x04, 0x00, 0x08],
        vec![0x0B, 0x24, 0x00, 0x0C],
        vec![0x01],
        vec![0x04, 0x09],
        vec![0x04, 0x05, 0x00, 0x09, 0x61],
        vec![0xFE],
        vec![],
    ];
    for stream in streams {
        let whole = disassemble_op(&stream, &opcodes, 0);
        let stepped = if stream.is_empty() {
            let decoder = Decoder::new(0);
            assert_eq!(decoder.wants().ok(), Some(1));
            decoder.supply(&opcodes, &[]).map(|_| unreachable!())
        } else {
            by_steps(&stream, &opcodes).map(|(p, _)| p)
        };
        match (whole, stepped) {
            (Ok(a), Ok(b)) => {
                assert_eq!(a.bytes_read, b.bytes_read);
                assert_eq!(a.op.code, b.op.code);
                assert_eq!(a._type, b._type);
                assert_eq!(a.args, b.args);
            }
            (Err(a), Err(b)) => assert_eq!(a, b),
            _ => panic!("the two decoders disagree"),
        }
    }
}

#[test]
fn decoder_meets_the_end_of_the_stream() {
    let opcodes = get_opcodes();
    let decoder = Decoder::new(40);
    let decoder = decoder.supply(&opcodes, &[0x04]).ok().unwrap();
    assert!(!decoder.is_done());
    let decoder = decoder.supply(&opcodes, &[0x03]).ok().unwrap();
    assert_eq!(decoder.wants().ok(), Some(4));
    assert_eq!(
        decoder.supply(&opcodes, &[1, 2]).err(),
        Some(DisassemblyError::OpStreamError(
            StreamFault::UnexpectedEof {
                got: 2,
                expected: 4
            },
            42
        ))
    );
}
