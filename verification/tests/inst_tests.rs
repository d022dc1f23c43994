use frust::inst::{Instruction, Opcode, Reg, Type};

#[test]
fn mnemonics_of_all_operations() {
    let all = [
        (Opcode::Add, "add"),
        (Opcode::Sub, "sub"),
        (Opcode::Mul, "mul"),
        (Opcode::Div, "div"),
        (Opcode::Rem, "rem"),
        (Opcode::And, "and"),
        (Opcode::Or, "or"),
        (Opcode::Xor, "xor"),
        (Opcode::Sll, "sll"),
        (Opcode::Srl, "srl"),
        (Opcode::Sra, "sra"),
        (Opcode::Slt, "slt"),
        (Opcode::SetEq, "seq"),
        (Opcode::Sne, "sne"),
        (Opcode::Sge, "sge"),
        (Opcode::Beq, "beq"),
        (Opcode::Bne, "bne"),
        (Opcode::Blt, "blt"),
        (Opcode::Bge, "bge"),
        (Opcode::Lw, "lw"),
        (Opcode::Sw, "sw"),
        (Opcode::Lui, "lui"),
        (Opcode::Addi, "addi"),
        (Opcode::Xori, "xori"),
        (Opcode::Jal, "jal"),
        (Opcode::Jalr, "jalr"),
    ];
    for (opcode, mnemonic) in all {
        assert_eq!(opcode.to_string(), mnemonic);
    }
}

#[test]
fn names_of_the_implemented_registers() {
    let all = [
        (Reg::Zero, "x0"),
        (Reg::ReturnAddress, "x1"),
        (Reg::StackPointer, "x2"),
        (Reg::GlobalPointer, "x3"),
        (Reg::ThreadPointer, "x4"),
        (Reg::Temp(0), "x5"),
        (Reg::Temp(1), "x6"),
        (Reg::Temp(2), "x7"),
        (Reg::Temp(3), "x28"),
        (Reg::Temp(4), "x29"),
        (Reg::Temp(5), "x30"),
        (Reg::Temp(6), "x31"),
        (Reg::Saved(0), "x8"),
        (Reg::Saved(1), "x9"),
    ];
    for (reg, name) in all {
        assert!(reg.has_name());
        assert_eq!(reg.to_string(), name);
    }
}

#[test]
fn registers_without_a_name() {
    assert!(!Reg::Temp(7).has_name());
    assert!(!Reg::Temp(255).has_name());
    assert!(!Reg::Saved(2).has_name());
    assert!(!Reg::Arguments(0).has_name());
    assert!(!Reg::Arguments(7).has_name());
}

#[test]
fn the_layout_fixes_the_operands() {
    let r = Instruction::new_rtype(Opcode::Add, Reg::Temp(0), Reg::Temp(1), Reg::Temp(2));
    assert_eq!((r.notation(), r.opcode()), (Type::R, Opcode::Add));
    assert_eq!((r.rd(), r.rs1(), r.rs2(), r.imm()), (Some(Reg::Temp(0)), Some(Reg::Temp(1)), Some(Reg::Temp(2)), None));
    let i = Instruction::new_itype(Opcode::Addi, Reg::Temp(0), Reg::Zero, 7);
    assert_eq!(i.notation(), Type::I);
    assert_eq!((i.rd(), i.rs1(), i.rs2(), i.imm()), (Some(Reg::Temp(0)), Some(Reg::Zero), None, Some(7)));
    let s = Instruction::new_stype(Opcode::Sw, Reg::StackPointer, Reg::Temp(0), 8);
    assert_eq!(s.notation(), Type::S);
    assert_eq!((s.rd(), s.rs1(), s.rs2(), s.imm()), (None, Some(Reg::StackPointer), Some(Reg::Temp(0)), Some(8)));
    let u = Instruction::new_utype(Opcode::Lui, Reg::Saved(1), 9);
    assert_eq!(u.notation(), Type::U);
    assert_eq!((u.rd(), u.rs1(), u.rs2(), u.imm()), (Some(Reg::Saved(1)), None, None, Some(9)));
    let b = Instruction::new_btype(Opcode::Bne, Reg::Temp(3), Reg::Temp(4), 10);
    assert_eq!(b.notation(), Type::B);
    assert_eq!((b.rd(), b.rs1(), b.rs2(), b.imm()), (None, Some(Reg::Temp(3)), Some(Reg::Temp(4)), Some(10)));
    let j = Instruction::new_jtype(Opcode::Jal, 11);
    assert_eq!(j.notation(), Type::J);
    assert_eq!((j.rd(), j.rs1(), j.rs2(), j.imm()), (Some(Reg::Zero), None, None, Some(11)));
}

#[test]
fn the_text_of_each_layout() {
    assert_eq!(Instruction::new_rtype(Opcode::Sub, Reg::Temp(0), Reg::Temp(1), Reg::Temp(2)).to_string(), "sub x5, x6, x7");
    assert_eq!(Instruction::new_itype(Opcode::Addi, Reg::Temp(3), Reg::Zero, 7).to_string(), "addi x28, x0, 7");
    assert_eq!(Instruction::new_itype(Opcode::Lw, Reg::Temp(0), Reg::StackPointer, 40).to_string(), "lw x5, x2, 40");
    assert_eq!(Instruction::new_itype(Opcode::Lui, Reg::Temp(0), Reg::Zero, 16).to_string(), "lui x5, 16");
    assert_eq!(Instruction::new_stype(Opcode::Sw, Reg::StackPointer, Reg::Temp(0), 32).to_string(), "sw x2, 32, x5");
    assert_eq!(Instruction::new_utype(Opcode::Lui, Reg::Saved(0), 1048575).to_string(), "lui x8, 1048575");
    assert_eq!(Instruction::new_btype(Opcode::Blt, Reg::Temp(5), Reg::Temp(6), 3).to_string(), "blt x30, x31, 3");
    assert_eq!(Instruction::new_jtype(Opcode::Jal, 12).to_string(), "jal x0, 12");
}

#[test]
fn immediates_are_written_without_sign() {
    assert_eq!(Instruction::new_itype(Opcode::Addi, Reg::Temp(0), Reg::Zero, 0).to_string(), "addi x5, x0, 0");
    assert_eq!(Instruction::new_itype(Opcode::Addi, Reg::Temp(0), Reg::Zero, 10).to_string(), "addi x5, x0, 10");
    assert_eq!(
        Instruction::new_itype(Opcode::Addi, Reg::Temp(0), Reg::Zero, u32::MAX).to_string(),
        "addi x5, x0, 4294967295"
    );
    assert_eq!(Instruction::new_jtype(Opcode::Jal, 1000000007).to_string(), "jal x0, 1000000007");
}

#[test]
fn an_offset_replaces_the_immediate() {
    let mut branch = Instruction::new_itype(Opcode::Beq, Reg::Temp(0), Reg::Zero, 0);
    branch.set_offset(5);
    assert_eq!(branch.imm(), Some(5));
    assert_eq!(branch.to_string(), "beq x5, x0, 5");
    let mut jump = Instruction::new_jtype(Opcode::Jal, 0);
    jump.set_offset(-3);
    assert_eq!(jump.imm(), Some(4294967293));
    assert_eq!(jump.imm().unwrap() as i32, -3);
    assert_eq!(jump.to_string(), "jal x0, 4294967293");
    jump.set_offset(i32::MIN);
    assert_eq!(jump.imm(), Some(2147483648));
    jump.set_offset(i32::MAX);
    assert_eq!(jump.imm(), Some(2147483647));
    assert_eq!(jump.notation(), Type::J);
    assert_eq!(jump.rd(), Some(Reg::Zero));
}

#[test]
fn a_label_stands_before_its_instruction() {
    let mut i = Instruction::new_rtype(Opcode::Add, Reg::Temp(0), Reg::Temp(1), Reg::Temp(0));
    i.set_label("while_0".to_string());
    assert_eq!(i.to_string(), "while_0: \nadd x5, x6, x5");
    i.set_label("again".to_string());
    assert_eq!(i.to_string(), "again: \nadd x5, x6, x5");
    assert_eq!(i.opcode(), Opcode::Add);
    assert_eq!(i.imm(), None);
}

#[test]
fn an_instruction_clones_to_an_equal_one() {
    let mut i = Instruction::new_stype(Opcode::Sw, Reg::StackPointer, Reg::Temp(0), 48);
    i.set_label("here".to_string());
    let copy = i.clone();
    assert_eq!(copy.to_string(), i.to_string());
    assert_eq!(copy.notation(), Type::S);
    assert_eq!(copy.imm(), Some(48));
}

#[test]
fn an_instruction_is_renderable_when_its_registers_have_names() {
    assert!(Instruction::new_rtype(Opcode::Add, Reg::Temp(6), Reg::Saved(1), Reg::Zero).is_renderable());
    assert!(!Instruction::new_rtype(Opcode::Add, Reg::Temp(7), Reg::Saved(1), Reg::Zero).is_renderable());
    assert!(!Instruction::new_rtype(Opcode::Add, Reg::Temp(0), Reg::Saved(2), Reg::Zero).is_renderable());
    assert!(!Instruction::new_rtype(Opcode::Add, Reg::Temp(0), Reg::Saved(0), Reg::Arguments(0)).is_renderable());
    assert!(!Instruction::new_utype(Opcode::Lui, Reg::Arguments(1), 0).is_renderable());
    assert!(Instruction::new_jtype(Opcode::Jal, 0).is_renderable());
}
