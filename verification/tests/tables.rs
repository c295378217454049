use ox::opcodes::{
    builtin_opcode, get_nwtypes, get_opcodes, NWTypeE, Opcode, OpcodeE, Operand, MAX_OPCODES,
    MAX_STYPES,
};

fn operands(op: &Opcode, t: u8) -> Vec<Operand> {
    match &op.args {
        Some(m) => m.get(&t).cloned().unwrap_or_default(),
        None => Vec::new(),
    }
}

#[test]
fn opcode_table_is_indexed_by_code() {
    let table = get_opcodes();
    assert_eq!(table.len(), MAX_OPCODES);
    let mut count = 0;
    for (i, slot) in table.iter().enumerate() {
        if let Some(op) = slot {
            assert_eq!(op.code.code() as usize, i);
            assert_eq!(OpcodeE::from_code(i as u8), Some(op.code));
            count += 1;
        } else {
            assert_eq!(OpcodeE::from_code(i as u8), None);
        }
    }
    assert_eq!(count, 47);
}

#[test]
fn operand_widths_are_one_two_or_four() {
    for slot in get_opcodes().iter().flatten() {
        for t in 0..=255u8 {
            for o in operands(slot, t) {
                match o {
                    Operand::String => {}
                    Operand::Routine(w)
                    | Operand::Object(w)
                    | Operand::Size(w)
                    | Operand::Offset(w)
                    | Operand::Integer(w)
                    | Operand::Float(w)
                    | Operand::ArgCount(w) => assert!(w == 1 || w == 2 || w == 4),
                }
            }
        }
    }
}

#[test]
fn strings_stand_behind_sizes() {
    for slot in get_opcodes().iter().flatten() {
        for t in 0..=255u8 {
            let list = operands(slot, t);
            for (i, o) in list.iter().enumerate() {
                if *o == Operand::String {
                    assert!(i > 0);
                    assert!(matches!(list[i - 1], Operand::Size(_)));
                }
            }
        }
    }
}

#[test]
fn t_is_0x42_without_type_and_with_one_size() {
    let table = get_opcodes();
    let t = table[0x42].as_ref().unwrap();
    assert_eq!(t.code, OpcodeE::T);
    assert_eq!(OpcodeE::T.code(), 0x42);
    assert!(t.types.is_none());
    assert_eq!(operands(t, 0), vec![Operand::Size(4)]);
    for slot in table.iter().flatten() {
        assert_eq!(slot.types.is_none(), slot.code == OpcodeE::T);
    }
}

#[test]
fn entries_of_the_opcode_table() {
    let constant = builtin_opcode(OpcodeE::CONST);
    assert_eq!(constant.types, Some(vec![0x03, 0x04, 0x05, 0x06]));
    assert_eq!(operands(&constant, 0x03), vec![Operand::Integer(4)]);
    assert_eq!(operands(&constant, 0x04), vec![Operand::Float(4)]);
    assert_eq!(
        operands(&constant, 0x05),
        vec![Operand::Size(2), Operand::String]
    );
    assert_eq!(operands(&constant, 0x06), vec![Operand::Object(4)]);
    let equal = builtin_opcode(OpcodeE::EQUAL);
    assert_eq!(equal.types.as_ref().unwrap().len(), 15);
    assert_eq!(operands(&equal, 0x24), vec![Operand::Size(2)]);
    assert_eq!(operands(&equal, 0x20), vec![]);
    let nequal = builtin_opcode(OpcodeE::NEQUAL);
    assert_eq!(nequal.types.as_ref().unwrap().len(), 14);
    assert!(!nequal.types.as_ref().unwrap().contains(&0x24));
    assert_eq!(operands(&nequal, 0x24), vec![Operand::Size(2)]);
    let destruct = builtin_opcode(OpcodeE::DESTRUCT);
    assert_eq!(
        operands(&destruct, 0x01),
        vec![Operand::Size(2), Operand::Offset(2), Operand::Size(2)]
    );
    let action = builtin_opcode(OpcodeE::ACTION);
    assert_eq!(
        operands(&action, 0x00),
        vec![Operand::Routine(2), Operand::ArgCount(1)]
    );
    let add = builtin_opcode(OpcodeE::ADD);
    assert_eq!(add.types, Some(vec![0x20, 0x25, 0x26, 0x21, 0x23, 0x3a]));
    assert!(add.args.is_none());
    assert_eq!(OpcodeE::CP_x37_DA2_QQ.code(), 0x37);
    assert_eq!(OpcodeE::STORE_STATEALL.name(), "STORE_STATEALL");
}

#[test]
fn stack_type_table() {
    let table = get_nwtypes();
    assert_eq!(table.len(), MAX_STYPES);
    let mut count = 0;
    for (i, slot) in table.iter().enumerate() {
        match slot {
            Some(ty) => {
                assert_eq!(ty.code.code() as usize, i);
                assert_eq!(NWTypeE::from_code(i as u8), Some(ty.code));
                count += 1;
            }
            None => assert_eq!(NWTypeE::from_code(i as u8), None),
        }
    }
    assert_eq!(count, 30);
    let ii = table[0x20].as_ref().unwrap();
    assert_eq!(ii.abbr, Some("II"));
    assert_eq!(ii.desc, "Integer, Integer");
    let effect = table[0x10].as_ref().unwrap();
    assert_eq!(effect.abbr, None);
    assert_eq!(effect.desc, "Effect");
    assert_eq!(table[0x3C].as_ref().unwrap().abbr, Some("FV"));
    assert!(table[0x02].is_none());
    assert_eq!(NWTypeE::from_code(0x3D), None);
}
