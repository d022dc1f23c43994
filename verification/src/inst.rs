use crate::text::{decimal, decimal_string};
use vstd::prelude::*;

verus! {

/// Operation codes of the target machine.
#[derive(Debug, Clone, Copy, PartialEq, Eq, Structural)]
pub enum Opcode {
    Add,
    Sub,
    Mul,
    Div,
    Rem,
    And,
    Xor,
    Sll,
    Srl,
    Sra,
    Or,
    Slt,
    SetEq,
    Sne,
    Sge,
    Beq,
    Bne,
    Blt,
    Bge,
    Lw,
    Sw,
    Lui,
    Addi,
    Xori,
    Jal,
    Jalr,
}

impl Opcode {
    /// The mnemonic under which the operation is written.
    pub open spec fn mnemonic(self) -> Seq<char> {
        match self {
            Opcode::Add => "add"@,
            Opcode::Sub => "sub"@,
            Opcode::Mul => "mul"@,
            Opcode::Div => "div"@,
            Opcode::Rem => "rem"@,
            Opcode::And => "and"@,
            Opcode::Or => "or"@,
            Opcode::Xor => "xor"@,
            Opcode::Sll => "sll"@,
            Opcode::Srl => "srl"@,
            Opcode::Sra => "sra"@,
            Opcode::Slt => "slt"@,
            Opcode::SetEq => "seq"@,
            Opcode::Sne => "sne"@,
            Opcode::Sge => "sge"@,
            Opcode::Beq => "beq"@,
            Opcode::Bne => "bne"@,
            Opcode::Blt => "blt"@,
            Opcode::Bge => "bge"@,
            Opcode::Lw => "lw"@,
            Opcode::Sw => "sw"@,
            Opcode::Lui => "lui"@,
            Opcode::Addi => "addi"@,
            Opcode::Xori => "xori"@,
            Opcode::Jal => "jal"@,
            Opcode::Jalr => "jalr"@,
        }
    }

    /// The mnemonic as a string slice.
    fn mnemonic_str(&self) -> (s: &'static str)
        ensures
            s@ == self.mnemonic(),
    {
        match self {
            Opcode::Add => "add",
            Opcode::Sub => "sub",
            Opcode::Mul => "mul",
            Opcode::Div => "div",
            Opcode::Rem => "rem",
            Opcode::And => "and",
            Opcode::Or => "or",
            Opcode::Xor => "xor",
            Opcode::Sll => "sll",
            Opcode::Srl => "srl",
            Opcode::Sra => "sra",
            Opcode::Slt => "slt",
            Opcode::SetEq => "seq",
            Opcode::Sne => "sne",
            Opcode::Sge => "sge",
            Opcode::Beq => "beq",
            Opcode::Bne => "bne",
            Opcode::Blt => "blt",
            Opcode::Bge => "bge",
            Opcode::Lw => "lw",
            Opcode::Sw => "sw",
            Opcode::Lui => "lui",
            Opcode::Addi => "addi",
            Opcode::Xori => "xori",
            Opcode::Jal => "jal",
            Opcode::Jalr => "jalr",
        }
    }

    /// The mnemonic as an owned string.
    pub fn to_string(&self) -> (s: String)
        ensures
            s@ == self.mnemonic(),
    {
        String::from_str(self.mnemonic_str())
    }
}

/// Registers by role. `Temp`, `Saved` and `Arguments` carry the number of
/// the register within its group.
#[derive(Debug, Clone, Copy, PartialEq, Eq, Structural)]
pub enum Reg {
    Zero,
    ReturnAddress,
    StackPointer,
    GlobalPointer,
    ThreadPointer,
    Temp(u8),
    Saved(u8),
    Arguments(u8),
}

impl Reg {
    /// Whether the register has a machine name: the five fixed registers,
    /// the temporaries 0 to 6 and the saved registers 0 and 1.
    pub open spec fn is_implemented(self) -> bool {
        match self {
            Reg::Temp(id) => id <= 6,
            Reg::Saved(id) => id <= 1,
            Reg::Arguments(_) => false,
            _ => true,
        }
    }

    /// The machine name of an implemented register.
    pub open spec fn name(self) -> Seq<char> {
        match self {
            Reg::Zero => "x0"@,
            Reg::ReturnAddress => "x1"@,
            Reg::StackPointer => "x2"@,
            Reg::GlobalPointer => "x3"@,
            Reg::ThreadPointer => "x4"@,
            Reg::Temp(id) => if id == 0 {
                "x5"@
            } else if id == 1 {
                "x6"@
            } else if id == 2 {
                "x7"@
            } else if id == 3 {
                "x28"@
            } else if id == 4 {
                "x29"@
            } else if id == 5 {
                "x30"@
            } else {
                "x31"@
            },
            Reg::Saved(id) => if id == 0 {
                "x8"@
            } else {
                "x9"@
            },
            Reg::Arguments(_) => Seq::empty(),
        }
    }

    /// Tells whether [`Reg::to_string`] may be called on the register.
    pub fn has_name(&self) -> (b: bool)
        ensures
            b == self.is_implemented(),
    {
        match self {
            Reg::Temp(id) => *id <= 6,
            Reg::Saved(id) => *id <= 1,
            Reg::Arguments(_) => false,
            _ => true,
        }
    }

    /// The machine name as a string slice.
    fn name_str(&self) -> (s: &'static str)
        requires
            self.is_implemented(),
        ensures
            s@ == self.name(),
    {
        match self {
            Reg::Zero => "x0",
            Reg::ReturnAddress => "x1",
            Reg::StackPointer => "x2",
            Reg::GlobalPointer => "x3",
            Reg::ThreadPointer => "x4",
            Reg::Temp(id) => if *id == 0 {
                "x5"
            } else if *id == 1 {
                "x6"
            } else if *id == 2 {
                "x7"
            } else if *id == 3 {
                "x28"
            } else if *id == 4 {
                "x29"
            } else if *id == 5 {
                "x30"
            } else {
                "x31"
            },
            Reg::Saved(id) => if *id == 0 {
                "x8"
            } else {
                "x9"
            },
            Reg::Arguments(_) => "",
        }
    }

    /// The machine name as an owned string.
    pub fn to_string(&self) -> (s: String)
        requires
            self.is_implemented(),
        ensures
            s@ == self.name(),
    {
        String::from_str(self.name_str())
    }
}

/// The six operand layouts of an instruction.
#[derive(Debug, Clone, Copy, PartialEq, Eq, Structural)]
pub enum Type {
    R,
    I,
    S,
    U,
    B,
    J,
}

/// One machine instruction. Which of the operand fields are filled is fixed
/// by `notation`.
#[derive(Debug)]
pub struct Instruction {
    notation: Type,
    label: Option<String>,
    opcode: Opcode,
    rd: Option<Reg>,
    rs1: Option<Reg>,
    rs2: Option<Reg>,
    imm: Option<u32>,
}

/// The mathematical value of an [`Instruction`].
pub struct SpecInstruction {
    pub notation: Type,
    pub label: Option<Seq<char>>,
    pub opcode: Opcode,
    pub rd: Option<Reg>,
    pub rs1: Option<Reg>,
    pub rs2: Option<Reg>,
    pub imm: Option<u32>,
}

/// The text between two operands.
pub open spec fn comma() -> Seq<char> {
    ", "@
}

/// The text between a label and its instruction.
pub open spec fn label_end() -> Seq<char> {
    ": \n"@
}

impl SpecInstruction {
    /// The operand fields that are filled are those of the layout.
    pub open spec fn well_formed(self) -> bool {
        match self.notation {
            Type::R => self.rd is Some && self.rs1 is Some && self.rs2 is Some && self.imm is None,
            Type::I => self.rd is Some && self.rs1 is Some && self.rs2 is None && self.imm is Some,
            Type::S => self.rd is None && self.rs1 is Some && self.rs2 is Some && self.imm is Some,
            Type::U => self.rd is Some && self.rs1 is None && self.rs2 is None && self.imm is Some,
            Type::B => self.rd is None && self.rs1 is Some && self.rs2 is Some && self.imm is Some,
            Type::J => self.rd == Some(Reg::Zero) && self.rs1 is None && self.rs2 is None
                && self.imm is Some,
        }
    }

    /// Every register operand has a machine name.
    pub open spec fn renderable(self) -> bool {
        &&& self.rd matches Some(r) ==> r.is_implemented()
        &&& self.rs1 matches Some(r) ==> r.is_implemented()
        &&& self.rs2 matches Some(r) ==> r.is_implemented()
    }

    /// The instruction of three registers.
    pub open spec fn rtype(opcode: Opcode, rd: Reg, rs1: Reg, rs2: Reg) -> SpecInstruction {
        SpecInstruction {
            notation: Type::R,
            label: None,
            opcode,
            rd: Some(rd),
            rs1: Some(rs1),
            rs2: Some(rs2),
            imm: None,
        }
    }

    /// The instruction of two registers and an immediate.
    pub open spec fn itype(opcode: Opcode, rd: Reg, rs1: Reg, imm: u32) -> SpecInstruction {
        SpecInstruction {
            notation: Type::I,
            label: None,
            opcode,
            rd: Some(rd),
            rs1: Some(rs1),
            rs2: None,
            imm: Some(imm),
        }
    }

    /// The store: a base register, the register that is stored, an offset.
    pub open spec fn stype(opcode: Opcode, rs1: Reg, rs2: Reg, imm: u32) -> SpecInstruction {
        SpecInstruction {
            notation: Type::S,
            label: None,
            opcode,
            rd: None,
            rs1: Some(rs1),
            rs2: Some(rs2),
            imm: Some(imm),
        }
    }

    /// The instruction of one register and an upper immediate.
    pub open spec fn utype(opcode: Opcode, rd: Reg, imm: u32) -> SpecInstruction {
        SpecInstruction {
            notation: Type::U,
            label: None,
            opcode,
            rd: Some(rd),
            rs1: None,
            rs2: None,
            imm: Some(imm),
        }
    }

    /// The branch: two registers that are compared, an offset.
    pub open spec fn btype(opcode: Opcode, rs1: Reg, rs2: Reg, imm: u32) -> SpecInstruction {
        SpecInstruction {
            notation: Type::B,
            label: None,
            opcode,
            rd: None,
            rs1: Some(rs1),
            rs2: Some(rs2),
            imm: Some(imm),
        }
    }

    /// The jump: an offset, and the zero register to link through.
    pub open spec fn jtype(opcode: Opcode, imm: u32) -> SpecInstruction {
        SpecInstruction {
            notation: Type::J,
            label: None,
            opcode,
            rd: Some(Reg::Zero),
            rs1: None,
            rs2: None,
            imm: Some(imm),
        }
    }

    /// The instruction with `offset`, in two's complement, as its immediate.
    pub open spec fn with_offset(self, offset: i32) -> SpecInstruction {
        SpecInstruction { imm: Some(offset as u32), ..self }
    }

    /// The instruction under the label `label`.
    pub open spec fn with_label(self, label: Seq<char>) -> SpecInstruction {
        SpecInstruction { label: Some(label), ..self }
    }

    /// The operands as they are written after the mnemonic: which of them,
    /// and in which order, depends on the layout. A load of the upper
    /// immediate is written without its source register.
    pub open spec fn operands(self) -> Seq<char> {
        let rd = self.rd.unwrap().name();
        let rs1 = self.rs1.unwrap().name();
        let rs2 = self.rs2.unwrap().name();
        let imm = decimal(self.imm.unwrap() as nat);
        match self.notation {
            Type::R => rd + comma() + rs1 + comma() + rs2,
            Type::I => if self.opcode == Opcode::Lui {
                rd + comma() + imm
            } else {
                rd + comma() + rs1 + comma() + imm
            },
            Type::S => rs1 + comma() + imm + comma() + rs2,
            Type::U => rd + comma() + imm,
            Type::B => rs1 + comma() + rs2 + comma() + imm,
            Type::J => rd + comma() + imm,
        }
    }

    /// The line of assembly text that stands for the instruction, after its
    /// label if it has one.
    pub open spec fn text(self) -> Seq<char> {
        let line = self.opcode.mnemonic() + " "@ + self.operands();
        match self.label {
            Some(label) => label + label_end() + line,
            None => line,
        }
    }
}

impl View for Instruction {
    type V = SpecInstruction;

    closed spec fn view(&self) -> SpecInstruction {
        SpecInstruction {
            notation: self.notation,
            label: match self.label {
                Some(l) => Some(l@),
                None => None,
            },
            opcode: self.opcode,
            rd: self.rd,
            rs1: self.rs1,
            rs2: self.rs2,
            imm: self.imm,
        }
    }
}

impl DeepView for Instruction {
    type V = SpecInstruction;

    open spec fn deep_view(&self) -> SpecInstruction {
        self@
    }
}

impl Instruction {
    #[verifier::type_invariant]
    spec fn inv(self) -> bool {
        self@.well_formed()
    }

    /// R-type: `opcode rd, rs1, rs2`.
    pub fn new_rtype(opcode: Opcode, rd: Reg, rs1: Reg, rs2: Reg) -> (i: Self)
        ensures
            i@ == SpecInstruction::rtype(opcode, rd, rs1, rs2),
    {
        Instruction {
            notation: Type::R,
            label: None,
            opcode,
            rd: Some(rd),
            rs1: Some(rs1),
            rs2: Some(rs2),
            imm: None,
        }
    }

    /// I-type: `opcode rd, rs1, imm`.
    pub fn new_itype(opcode: Opcode, rd: Reg, rs1: Reg, imm: u32) -> (i: Self)
        ensures
            i@ == SpecInstruction::itype(opcode, rd, rs1, imm),
    {
        Instruction {
            notation: Type::I,
            label: None,
            opcode,
            rd: Some(rd),
            rs1: Some(rs1),
            rs2: None,
            imm: Some(imm),
        }
    }

    /// S-type: `opcode rs1, imm, rs2`.
    pub fn new_stype(opcode: Opcode, rs1: Reg, rs2: Reg, imm: u32) -> (i: Self)
        ensures
            i@ == SpecInstruction::stype(opcode, rs1, rs2, imm),
    {
        Instruction {
            notation: Type::S,
            label: None,
            opcode,
            rd: None,
            rs1: Some(rs1),
            rs2: Some(rs2),
            imm: Some(imm),
        }
    }

    /// U-type: `opcode rd, imm`.
    pub fn new_utype(opcode: Opcode, rd: Reg, imm: u32) -> (i: Self)
        ensures
            i@ == SpecInstruction::utype(opcode, rd, imm),
    {
        Instruction {
            notation: Type::U,
            label: None,
            opcode,
            rd: Some(rd),
            rs1: None,
            rs2: None,
            imm: Some(imm),
        }
    }

    /// B-type: `opcode rs1, rs2, imm`.
    pub fn new_btype(opcode: Opcode, rs1: Reg, rs2: Reg, imm: u32) -> (i: Self)
        ensures
            i@ == SpecInstruction::btype(opcode, rs1, rs2, imm),
    {
        Instruction {
            notation: Type::B,
            label: None,
            opcode,
            rd: None,
            rs1: Some(rs1),
            rs2: Some(rs2),
            imm: Some(imm),
        }
    }

    /// J-type: `opcode x0, imm`.
    pub fn new_jtype(opcode: Opcode, imm: u32) -> (i: Self)
        ensures
            i@ == SpecInstruction::jtype(opcode, imm),
    {
        Instruction {
            notation: Type::J,
            label: None,
            opcode,
            rd: Some(Reg::Zero),
            rs1: None,
            rs2: None,
            imm: Some(imm),
        }
    }

    /// The operand layout.
    pub fn notation(&self) -> (t: Type)
        ensures
            t == self@.notation,
    {
        self.notation
    }

    /// The operation.
    pub fn opcode(&self) -> (o: Opcode)
        ensures
            o == self@.opcode,
    {
        self.opcode
    }

    /// The destination register, for the layouts that have one.
    pub fn rd(&self) -> (r: Option<Reg>)
        ensures
            r == self@.rd,
    {
        self.rd
    }

    /// The first source register, for the layouts that have one.
    pub fn rs1(&self) -> (r: Option<Reg>)
        ensures
            r == self@.rs1,
    {
        self.rs1
    }

    /// The second source register, for the layouts that have one.
    pub fn rs2(&self) -> (r: Option<Reg>)
        ensures
            r == self@.rs2,
    {
        self.rs2
    }

    /// The immediate, for the layouts that have one.
    pub fn imm(&self) -> (i: Option<u32>)
        ensures
            i == self@.imm,
    {
        self.imm
    }

    /// Puts the instruction under `label`.
    pub fn set_label(&mut self, label: String)
        ensures
            final(self)@ == old(self)@.with_label(label@),
    {
        proof {
            use_type_invariant(&*self);
        }
        self.label = Some(label);
    }

    /// Replaces the immediate by `offset`, stored in two's complement.
    pub fn set_offset(&mut self, offset: i32)
        requires
            old(self)@.notation != Type::R,
        ensures
            final(self)@ == old(self)@.with_offset(offset),
    {
        proof {
            use_type_invariant(&*self);
        }
        self.imm = Some(offset as u32);
    }
}

impl Clone for Instruction {
    fn clone(&self) -> (c: Self)
        ensures
            c@ == self@,
    {
        proof {
            use_type_invariant(self);
        }
        let label = match &self.label {
            Some(l) => Some(l.clone()),
            None => None,
        };
        Instruction {
            notation: self.notation,
            label,
            opcode: self.opcode,
            rd: self.rd,
            rs1: self.rs1,
            rs2: self.rs2,
            imm: self.imm,
        }
    }
}

impl Instruction {
    /// Tells whether [`Instruction::to_string`] may be called: whether every
    /// register operand has a machine name.
    pub fn is_renderable(&self) -> (b: bool)
        ensures
            b == self@.renderable(),
    {
        let rd_ok = match &self.rd {
            Some(r) => r.has_name(),
            None => true,
        };
        let rs1_ok = match &self.rs1 {
            Some(r) => r.has_name(),
            None => true,
        };
        let rs2_ok = match &self.rs2 {
            Some(r) => r.has_name(),
            None => true,
        };
        rd_ok && rs1_ok && rs2_ok
    }

    /// Appends the name of `reg` to `out`.
    fn write_reg(out: &mut String, reg: &Option<Reg>)
        requires
            reg matches Some(r) && r.is_implemented(),
        ensures
            final(out)@ == old(out)@ + reg.unwrap().name(),
    {
        match reg {
            Some(r) => out.append(r.name_str()),
            None => {},
        }
    }

    /// Appends the immediate, as an unsigned decimal numeral, to `out`.
    fn write_imm(out: &mut String, imm: &Option<u32>)
        requires
            imm is Some,
        ensures
            final(out)@ == old(out)@ + decimal(imm.unwrap() as nat),
    {
        match imm {
            Some(v) => {
                let digits = decimal_string(*v as u64);
                out.append(digits.as_str());
            },
            None => {},
        }
    }

    /// Appends the separator of operands to `out`.
    fn write_comma(out: &mut String)
        ensures
            final(out)@ == old(out)@ + comma(),
    {
        out.append(", ");
    }

    /// The line of assembly text for the instruction.
    pub fn to_string(&self) -> (s: String)
        requires
            self@.renderable(),
        ensures
            s@ == self@.text(),
    {
        proof {
            use_type_invariant(self);
        }
        let mut line = self.opcode.to_string();
        line.append(" ");
        let ghost head = line@;
        match self.notation {
            Type::R => {
                Self::write_reg(&mut line, &self.rd);
                Self::write_comma(&mut line);
                Self::write_reg(&mut line, &self.rs1);
                Self::write_comma(&mut line);
                Self::write_reg(&mut line, &self.rs2);
            },
            Type::I => {
                Self::write_reg(&mut line, &self.rd);
                Self::write_comma(&mut line);
                match self.opcode {
                    Opcode::Lui => {},
                    _ => {
                        Self::write_reg(&mut line, &self.rs1);
                        Self::write_comma(&mut line);
                    },
                }
                Self::write_imm(&mut line, &self.imm);
            },
            Type::S => {
                Self::write_reg(&mut line, &self.rs1);
                Self::write_comma(&mut line);
                Self::write_imm(&mut line, &self.imm);
                Self::write_comma(&mut line);
                Self::write_reg(&mut line, &self.rs2);
            },
            Type::U => {
                Self::write_reg(&mut line, &self.rd);
                Self::write_comma(&mut line);
                Self::write_imm(&mut line, &self.imm);
            },
            Type::B => {
                Self::write_reg(&mut line, &self.rs1);
                Self::write_comma(&mut line);
                Self::write_reg(&mut line, &self.rs2);
                Self::write_comma(&mut line);
                Self::write_imm(&mut line, &self.imm);
            },
            Type::J => {
                Self::write_reg(&mut line, &self.rd);
                Self::write_comma(&mut line);
                Self::write_imm(&mut line, &self.imm);
            },
        }
        assert(line@ =~= head + self@.operands());
        match &self.label {
            Some(label) => {
                let mut out = label.clone();
                out.append(": \n");
                out.append(line.as_str());
                assert(out@ =~= self@.text());
                out
            },
            None => line,
        }
    }
}

} // verus!
