use crate::inst::{Opcode, Reg, SpecInstruction, Type};
use vstd::prelude::*;

verus! {

/// The state of the target machine: the index of the instruction that runs
/// next, the registers and the memory, both in 32-bit words.
pub struct Machine {
    pub pc: int,
    pub registers: Map<Reg, u32>,
    pub memory: Map<int, u32>,
}

impl Machine {
    /// The word in a register. The zero register holds zero.
    pub open spec fn reg(self, r: Reg) -> u32 {
        if r == Reg::Zero {
            0u32
        } else {
            self.registers[r]
        }
    }

    /// The machine after `value` is written to a register and the next
    /// instruction is reached. A write to the zero register is lost.
    pub open spec fn write(self, r: Reg, value: u32) -> Machine {
        Machine {
            pc: self.pc + 1,
            registers: if r == Reg::Zero {
                self.registers
            } else {
                self.registers.insert(r, value)
            },
            memory: self.memory,
        }
    }

    /// The machine after `value` is written to the memory at `address` and
    /// the next instruction is reached.
    pub open spec fn store(self, address: int, value: u32) -> Machine {
        Machine {
            pc: self.pc + 1,
            registers: self.registers,
            memory: self.memory.insert(address, value),
        }
    }

    /// The machine with the instruction `delta` away as its next.
    pub open spec fn go(self, delta: int) -> Machine {
        Machine { pc: self.pc + delta, registers: self.registers, memory: self.memory }
    }
}

/// The word of an integer: its lowest 32 bits.
pub open spec fn wrap(x: int) -> u32 {
    (x % 0x1_0000_0000) as u32
}

/// The integer that a word stands for in two's complement.
pub open spec fn signed(w: u32) -> int {
    if w < 0x8000_0000 {
        w as int
    } else {
        w - 0x1_0000_0000
    }
}

/// The word of a truth value.
pub open spec fn truth(b: bool) -> u32 {
    if b {
        1
    } else {
        0
    }
}

/// The quotient of two integers, rounded towards zero, for a divisor other
/// than zero.
pub open spec fn quotient(a: int, b: int) -> int {
    if a >= 0 && b > 0 {
        a / b
    } else if a >= 0 {
        -(a / (-b))
    } else if b > 0 {
        -((-a) / b)
    } else {
        (-a) / (-b)
    }
}

/// The remainder that goes with [`quotient`].
pub open spec fn remainder(a: int, b: int) -> int {
    a - quotient(a, b) * b
}

/// What an instruction of three registers computes from the words of its
/// two sources. Division by zero gives all ones and leaves the dividend as
/// the remainder. Operations that are no arithmetic give `None`.
pub open spec fn alu(opcode: Opcode, a: u32, b: u32) -> Option<u32> {
    match opcode {
        Opcode::Add => Some(wrap(a + b)),
        Opcode::Sub => Some(wrap(a - b)),
        Opcode::Mul => Some(wrap(a * b)),
        Opcode::Div => Some(
            if b == 0 {
                0xffff_ffffu32
            } else {
                wrap(quotient(signed(a), signed(b)))
            },
        ),
        Opcode::Rem => Some(
            if b == 0 {
                a
            } else {
                wrap(remainder(signed(a), signed(b)))
            },
        ),
        Opcode::And => Some(a & b),
        Opcode::Or => Some(a | b),
        Opcode::Xor => Some(a ^ b),
        Opcode::Slt => Some(truth(signed(a) < signed(b))),
        Opcode::SetEq => Some(truth(a == b)),
        Opcode::Sne => Some(truth(a != b)),
        Opcode::Sge => Some(truth(signed(a) >= signed(b))),
        _ => None,
    }
}

/// The offset of a branch or a jump: its immediate, read in two's
/// complement, counts instructions from the branch or jump itself.
pub open spec fn offset_of(instruction: SpecInstruction) -> int {
    signed(instruction.imm.unwrap())
}

/// An offset within the signed 32-bit range is read back from the immediate
/// that stores it.
pub proof fn lemma_offset_kept(delta: int, instruction: SpecInstruction)
    requires
        i32::MIN <= delta <= i32::MAX,
    ensures
        offset_of(instruction.with_offset(delta as i32)) == delta,
{
    let x = delta as i32;
    assert(x >= 0 ==> (x as u32) == x) by (bit_vector);
    assert(x >= 0 ==> (x as u32) < 0x8000_0000u32) by (bit_vector);
    assert(x < 0 ==> (x as u32) - 0x1_0000_0000 == x) by (bit_vector);
    assert(x < 0 ==> (x as u32) >= 0x8000_0000u32) by (bit_vector);
}

/// One step of the machine: the instruction at `pc` runs.
///
/// Modelled are the instructions that lowering emits: arithmetic on three
/// registers, `addi`, `lui`, `lw` and `sw` relative to a base register, the
/// branch on equality and the jump, which links through the zero register.
/// The machine stands still once `pc` leaves the code, and at an
/// instruction that is not modelled.
pub open spec fn step(code: Seq<SpecInstruction>, m: Machine) -> Machine {
    if !(0 <= m.pc < code.len()) {
        m
    } else {
        let i = code[m.pc];
        match i.notation {
            Type::R => match alu(i.opcode, m.reg(i.rs1.unwrap()), m.reg(i.rs2.unwrap())) {
                Some(value) => m.write(i.rd.unwrap(), value),
                None => m,
            },
            Type::I => {
                let rd = i.rd.unwrap();
                let rs1 = i.rs1.unwrap();
                let imm = i.imm.unwrap();
                match i.opcode {
                    Opcode::Addi => m.write(rd, wrap(m.reg(rs1) + imm)),
                    Opcode::Lui => m.write(rd, wrap(imm * 0x1000)),
                    Opcode::Lw => m.write(rd, m.memory[m.reg(rs1) + imm]),
                    Opcode::Beq => if m.reg(rd) == m.reg(rs1) {
                        m.go(offset_of(i))
                    } else {
                        m.go(1)
                    },
                    _ => m,
                }
            },
            Type::S => match i.opcode {
                Opcode::Sw => m.store(
                    m.reg(i.rs1.unwrap()) + i.imm.unwrap(),
                    m.reg(i.rs2.unwrap()),
                ),
                _ => m,
            },
            Type::J => match i.opcode {
                Opcode::Jal => m.go(offset_of(i)),
                _ => m,
            },
            _ => m,
        }
    }
}

/// The machine after `steps` steps.
pub open spec fn run(code: Seq<SpecInstruction>, m: Machine, steps: nat) -> Machine
    decreases steps,
{
    if steps == 0 {
        m
    } else {
        run(code, step(code, m), (steps - 1) as nat)
    }
}

/// Running for two stretches is running for their sum.
pub proof fn lemma_run_twice(code: Seq<SpecInstruction>, m: Machine, first: nat, second: nat)
    ensures
        run(code, run(code, m, first), second) == run(code, m, first + second),
    decreases first,
{
    if first > 0 {
        lemma_run_twice(code, step(code, m), (first - 1) as nat, second);
    }
}

} // verus!
