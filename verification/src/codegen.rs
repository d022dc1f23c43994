use crate::ast::{if_model, while_model, BinaryOp, Expr, SpecExpr, UnaryOp};
use crate::inst::{Instruction, Opcode, Reg, SpecInstruction};
use crate::lowering::{
    block_code_len, block_declarations, branch_if_zero, code_len, declarations, jump,
    lemma_block_measures_prefix, lemma_lower_block_bounds, lemma_lower_block_stops,
    lemma_lower_bounds, load_bool, load_literal, load_slot, lower, lower_block, reserve_frame,
    spill, store_after, store_slot, store_variable, t0, t1, unary_mask, Frame, GenError, Lowered,
    SLOT_SIZE, STACK_SIZE,
};
use vstd::hash_map::StringHashMap;
use vstd::prelude::*;

verus! {

/// The bound at which the measures of an expression are cut off: more than
/// any that is within the limits.
pub const MEASURE_CAP: u64 = 0x1_0000_0000;

/// `n`, cut off at [`MEASURE_CAP`].
pub open spec fn capped(n: nat) -> nat {
    if n <= MEASURE_CAP {
        n
    } else {
        MEASURE_CAP as nat
    }
}

/// `n`, cut off at [`MEASURE_CAP`].
fn cap(n: u64) -> (c: u64)
    ensures
        c == capped(n as nat),
{
    if n <= MEASURE_CAP {
        n
    } else {
        MEASURE_CAP
    }
}

/// The number of instructions and of declarations of an expression, each
/// cut off at [`MEASURE_CAP`].
fn measure(expr: &Expr) -> (found: (u64, u64))
    ensures
        found.0 == capped(code_len(expr@)),
        found.1 == capped(declarations(expr@)),
    decreases expr,
{
    match expr {
        Expr::Number(_) => (2, 0),
        Expr::Bool(_) => (1, 0),
        Expr::Var(_) => (1, 0),
        Expr::Assign { name, expr } => {
            let (length, lets) = measure(expr);
            (cap(length + 1), lets)
        },
        Expr::Let { name, var_type, expr } => {
            let (length, lets) = measure(expr);
            (cap(length + 1), cap(lets + 1))
        },
        Expr::Binary { left, op, right } => {
            let (left_length, left_lets) = measure(left);
            let (right_length, right_lets) = measure(right);
            (cap(left_length + right_length + 2), cap(left_lets + right_lets))
        },
        Expr::Unary { op, expr } => {
            let (length, lets) = measure(expr);
            (cap(length + 3), lets)
        },
        Expr::If { condition, then_branch, else_branch } => {
            let (test_length, test_lets) = measure(condition);
            let (then_length, then_lets) = measure_block(then_branch);
            match else_branch {
                Some(items) => {
                    let (else_length, else_lets) = measure_block(items);
                    (
                        cap(test_length + 1 + then_length + 1 + else_length),
                        cap(test_lets + then_lets + else_lets),
                    )
                },
                None => (cap(test_length + 1 + then_length), cap(test_lets + then_lets)),
            }
        },
        Expr::While { condition, body } => {
            let (test_length, test_lets) = measure(condition);
            let (body_length, body_lets) = measure_block(body);
            (cap(test_length + body_length + 2), cap(test_lets + body_lets))
        },
    }
}

/// [`measure`], summed over the items of a block.
fn measure_block(items: &Vec<Expr>) -> (found: (u64, u64))
    ensures
        found.0 == capped(block_code_len(Expr::models(items@))),
        found.1 == capped(block_declarations(Expr::models(items@))),
    decreases items,
{
    let ghost models = Expr::models(items@);
    let mut length: u64 = 0;
    let mut lets: u64 = 0;
    let mut i: usize = 0;
    assert(models.take(0) =~= Seq::<SpecExpr>::empty());
    while i < items.len()
        invariant
            i <= items.len(),
            models == Expr::models(items@),
            length == capped(block_code_len(models.take(i as int))),
            lets == capped(block_declarations(models.take(i as int))),
        decreases items.len() - i,
    {
        proof {
            assert(models.take(i + 1).drop_last() =~= models.take(i as int));
            assert(models.take(i + 1).last() == items[i as int]@);
        }
        let (item_length, item_lets) = measure(&items[i]);
        length = cap(length + item_length);
        lets = cap(lets + item_lets);
        i = i + 1;
    }
    assert(models.take(i as int) =~= models);
    (length, lets)
}

/// The state of one lowering pass: the instructions emitted so far and the
/// slots of the variables declared so far.
pub struct CodeGenContext {
    symbol_table: StringHashMap<u32>,
    instructions: Vec<Instruction>,
    stack_offset: u32,
}

impl CodeGenContext {
    /// The instructions emitted so far.
    pub closed spec fn code(&self) -> Seq<SpecInstruction> {
        self.instructions.deep_view()
    }

    /// The slots handed out so far.
    pub closed spec fn frame(&self) -> Frame {
        Frame { symbols: self.symbol_table@, cursor: self.stack_offset as nat }
    }

    /// The expression is within the limits of the machine words: its
    /// declarations keep the offset cursor within 32 bits, and no branch has
    /// to reach further than a signed 32-bit count of instructions.
    pub open spec fn fits(&self, e: SpecExpr) -> bool {
        &&& self.frame().cursor + SLOT_SIZE * declarations(e) <= u32::MAX
        &&& code_len(e) <= i32::MAX
    }

    /// [`CodeGenContext::fits`], for a block.
    pub open spec fn fits_block(&self, items: Seq<SpecExpr>) -> bool {
        &&& self.frame().cursor + SLOT_SIZE * block_declarations(items) <= u32::MAX
        &&& block_code_len(items) <= i32::MAX
    }

    /// `after` is `before` with `lowered` carried out, and `res` reports the
    /// error of `lowered`, if it has one, by its message.
    pub open spec fn carried_out(
        before: &Self,
        after: &Self,
        lowered: Lowered,
        res: Result<(), String>,
    ) -> bool {
        &&& after.code() == before.code() + lowered.code
        &&& after.frame() == lowered.frame
        &&& match lowered.error {
            None => res is Ok,
            Some(error) => res matches Err(message) && message@ == error.message(),
        }
    }

    /// A context that holds the instruction which reserves the stack frame,
    /// and no variable.
    pub fn new() -> (ctx: Self)
        ensures
            ctx.code() == seq![reserve_frame()],
            ctx.frame() == Frame::initial(),
    {
        let mut instructions: Vec<Instruction> = Vec::new();
        instructions.push(
            Instruction::new_itype(Opcode::Addi, Reg::StackPointer, Reg::Zero, STACK_SIZE),
        );
        let ctx = CodeGenContext {
            symbol_table: StringHashMap::new(),
            instructions,
            stack_offset: STACK_SIZE,
        };
        assert(ctx.code() =~= seq![reserve_frame()]);
        ctx
    }

    /// The instructions emitted so far, in order.
    pub fn instructions(&self) -> (out: &[Instruction])
        ensures
            out.deep_view() == self.code(),
    {
        let out = self.instructions.as_slice();
        assert(out.deep_view() =~= self.code());
        out
    }

    /// The index that the next instruction gets.
    fn position(&self) -> (n: usize)
        ensures
            n == self.code().len(),
    {
        self.instructions.len()
    }

    /// Appends one instruction.
    fn emit(&mut self, instruction: Instruction)
        ensures
            final(self).code() == old(self).code().push(instruction@),
            final(self).frame() == old(self).frame(),
    {
        self.instructions.push(instruction);
        assert(self.code() =~= old(self).code().push(instruction@));
    }

    /// Sets the offset of the branch or jump at `index`, which was emitted
    /// with a zero in its place.
    fn patch(&mut self, index: usize, delta: i32)
        requires
            index < old(self).code().len(),
            old(self).code()[index as int].notation != crate::inst::Type::R,
        ensures
            final(self).code() == old(self).code().update(
                index as int,
                old(self).code()[index as int].with_offset(delta),
            ),
            final(self).frame() == old(self).frame(),
    {
        self.instructions[index].set_offset(delta);
        assert(self.code() =~= old(self).code().update(
            index as int,
            old(self).code()[index as int].with_offset(delta),
        ));
    }

    /// Gives `var` the next slot of the frame.
    fn allocate_variable(&mut self, var: String)
        requires
            old(self).frame().cursor + SLOT_SIZE <= u32::MAX,
        ensures
            final(self).code() == old(self).code(),
            final(self).frame() == old(self).frame().declare(var@),
    {
        self.symbol_table.insert(var, self.stack_offset);
        self.stack_offset = self.stack_offset + SLOT_SIZE;
    }

    /// The message of [`GenError::VariableNotDeclared`].
    fn not_declared(var: &String) -> (message: String)
        ensures
            message@ == GenError::VariableNotDeclared(var@).message(),
    {
        let mut message = String::from_str("Variable ");
        message.append(var.as_str());
        message.append(" not declared");
        message
    }

    /// The message of [`GenError::UnsupportedOperator`].
    fn not_supported(op: BinaryOp) -> (message: String)
        ensures
            message@ == GenError::UnsupportedOperator(op).message(),
    {
        match op {
            BinaryOp::Gt => String::from_str("Operator > not supported"),
            _ => String::from_str("Operator <= not supported"),
        }
    }

    /// Loads the slot of `var` into `dest`.
    fn load_variable(&mut self, var: &String, dest: Reg) -> (res: Result<(), String>)
        ensures
            final(self).frame() == old(self).frame(),
            match res {
                Ok(_) => old(self).frame().symbols.contains_key(var@) && final(self).code() == old(
                    self,
                ).code().push(load_slot(old(self).frame().symbols[var@], dest)),
                Err(message) => !old(self).frame().symbols.contains_key(var@) && final(self).code()
                    == old(self).code() && message@ == GenError::VariableNotDeclared(
                    var@,
                ).message(),
            },
    {
        let found = match self.symbol_table.get(var.as_str()) {
            Some(addr) => Some(*addr),
            None => None,
        };
        match found {
            Some(addr) => {
                self.emit(Instruction::new_itype(Opcode::Lw, dest, Reg::StackPointer, addr));
                Ok(())
            },
            None => Err(Self::not_declared(var)),
        }
    }

    /// Stores `src` into the slot of `var`.
    fn store_variable(&mut self, var: &String, src: Reg) -> (res: Result<(), String>)
        ensures
            final(self).frame() == old(self).frame(),
            match res {
                Ok(_) => old(self).frame().symbols.contains_key(var@) && final(self).code() == old(
                    self,
                ).code().push(store_slot(old(self).frame().symbols[var@], src)),
                Err(message) => !old(self).frame().symbols.contains_key(var@) && final(self).code()
                    == old(self).code() && message@ == GenError::VariableNotDeclared(
                    var@,
                ).message(),
            },
    {
        let found = match self.symbol_table.get(var.as_str()) {
            Some(addr) => Some(*addr),
            None => None,
        };
        match found {
            Some(addr) => {
                self.emit(Instruction::new_stype(Opcode::Sw, Reg::StackPointer, src, addr));
                Ok(())
            },
            None => Err(Self::not_declared(var)),
        }
    }

    /// Loads the word `val` into `dest`, in two halves.
    fn load_int_literal(&mut self, val: u32, dest: Reg)
        ensures
            final(self).code() == old(self).code() + load_literal(val, dest),
            final(self).frame() == old(self).frame(),
    {
        self.emit(Instruction::new_itype(Opcode::Lui, dest, Reg::Zero, val >> 12));
        self.emit(Instruction::new_itype(Opcode::Addi, dest, dest, val & 0xfff));
        assert(self.code() =~= old(self).code() + load_literal(val, dest));
    }

    /// Lowers the items of a block, one after the other, and stops at the
    /// first error.
    fn generate_block(&mut self, items: &Vec<Expr>) -> (res: Result<(), String>)
        requires
            old(self).fits_block(Expr::models(items@)),
        ensures
            Self::carried_out(
                old(self),
                final(self),
                lower_block(Expr::models(items@), old(self).frame()),
                res,
            ),
        decreases block_code_len(Expr::models(items@)), 2nat,
    {
        let ghost models = Expr::models(items@);
        let ghost start = self.frame();
        let mut i: usize = 0;
        assert(models.take(0) =~= Seq::<SpecExpr>::empty());
        while i < items.len()
            invariant
                i <= items.len(),
                models == Expr::models(items@),
                old(self).fits_block(models),
                start == old(self).frame(),
                lower_block(models.take(i as int), start).error is None,
                self.code() == old(self).code() + lower_block(models.take(i as int), start).code,
                self.frame() == lower_block(models.take(i as int), start).frame,
            decreases items.len() - i,
        {
            let ghost done = lower_block(models.take(i as int), start);
            proof {
                let upto = models.take(i as int + 1);
                assert(upto.drop_last() =~= models.take(i as int));
                assert(upto.last() == items[i as int]@);
                lemma_block_measures_prefix(models, i as int + 1);
                lemma_lower_block_bounds(models.take(i as int), start);
            }
            let res = self.generate(&items[i]);
            proof {
                let step = lower(items[i as int]@, done.frame);
                assert(lower_block(models.take(i as int + 1), start) == done.chain(step));
                assert(old(self).code() + done.code + step.code =~= old(self).code() + done.chain(
                    step,
                ).code);
            }
            match res {
                Err(message) => {
                    proof {
                        lemma_lower_block_stops(models, i as int + 1, start);
                    }
                    return Err(message);
                },
                Ok(_) => {},
            }
            i = i + 1;
        }
        assert(models.take(i as int) =~= models);
        Ok(())
    }

    /// Lowers the value of `expr` and stores it in the slot of `name`.
    fn generate_store(&mut self, name: &String, expr: &Expr) -> (res: Result<(), String>)
        requires
            old(self).frame().cursor + SLOT_SIZE * declarations(expr@) <= u32::MAX,
            code_len(expr@) < i32::MAX,
        ensures
            Self::carried_out(
                old(self),
                final(self),
                store_after(name@, lower(expr@, old(self).frame())),
                res,
            ),
        decreases code_len(expr@) + 1, 0nat,
    {
        let ghost before = self.code();
        let ghost value = lower(expr@, self.frame());
        match self.generate(expr) {
            Err(message) => {
                return Err(message);
            },
            Ok(_) => {},
        }
        let res = self.store_variable(name, Reg::Temp(0));
        assert(res is Ok ==> self.code() =~= before + store_variable(name@, value).code);
        res
    }

    /// Lowers a binary expression: the left operand, the copy that saves it,
    /// the right operand, the instruction of the operator.
    fn generate_binary(&mut self, left: &Expr, op: BinaryOp, right: &Expr) -> (res: Result<
        (),
        String,
    >)
        requires
            old(self).frame().cursor + SLOT_SIZE * (declarations(left@) + declarations(right@))
                <= u32::MAX,
            code_len(left@) + code_len(right@) + 2 <= i32::MAX,
        ensures
            Self::carried_out(
                old(self),
                final(self),
                lower(
                    SpecExpr::Binary { left: Box::new(left@), op, right: Box::new(right@) },
                    old(self).frame(),
                ),
                res,
            ),
        decreases code_len(left@) + code_len(right@) + 2, 0nat,
    {
        let ghost before = self.code();
        let ghost l = lower(left@, old(self).frame());
        proof {
            lemma_lower_bounds(left@, old(self).frame());
        }
        match self.generate(left) {
            Err(message) => {
                return Err(message);
            },
            Ok(_) => {},
        }
        self.emit(Instruction::new_itype(Opcode::Addi, Reg::Temp(1), Reg::Temp(0), 0));
        let ghost r = l.emit(seq![spill()]).chain(lower(right@, l.frame));
        let res = self.generate(right);
        assert(self.code() =~= before + r.code);
        match res {
            Err(message) => {
                return Err(message);
            },
            Ok(_) => {},
        }
        let opcode = match op {
            BinaryOp::Add => Opcode::Add,
            BinaryOp::Sub => Opcode::Sub,
            BinaryOp::Mul => Opcode::Mul,
            BinaryOp::Div => Opcode::Div,
            BinaryOp::Mod => Opcode::Rem,
            BinaryOp::And => Opcode::And,
            BinaryOp::Or => Opcode::Or,
            BinaryOp::Eq => Opcode::SetEq,
            BinaryOp::Neq => Opcode::Sne,
            BinaryOp::Lt => Opcode::Slt,
            BinaryOp::Ge => Opcode::Sge,
            BinaryOp::Gt => {
                return Err(Self::not_supported(BinaryOp::Gt));
            },
            BinaryOp::Le => {
                return Err(Self::not_supported(BinaryOp::Le));
            },
        };
        self.emit(Instruction::new_rtype(opcode, Reg::Temp(0), Reg::Temp(1), Reg::Temp(0)));
        assert(self.code() =~= before + r.emit(
            seq![SpecInstruction::rtype(opcode, t0(), t1(), t0())],
        ).code);
        Ok(())
    }

    /// Lowers a prefix operator: the operand, the mask, the exclusive or.
    fn generate_unary(&mut self, op: UnaryOp, expr: &Expr) -> (res: Result<(), String>)
        requires
            old(self).frame().cursor + SLOT_SIZE * declarations(expr@) <= u32::MAX,
            code_len(expr@) + 3 <= i32::MAX,
        ensures
            Self::carried_out(
                old(self),
                final(self),
                lower(SpecExpr::Unary { op, expr: Box::new(expr@) }, old(self).frame()),
                res,
            ),
        decreases code_len(expr@) + 3, 0nat,
    {
        let ghost before = self.code();
        let ghost operand = lower(expr@, old(self).frame());
        match self.generate(expr) {
            Err(message) => {
                return Err(message);
            },
            Ok(_) => {},
        }
        let mask: u32 = match op {
            UnaryOp::Not => 1,
            UnaryOp::Neg => 0xffff_ffff,
        };
        self.load_int_literal(mask, Reg::Temp(1));
        self.emit(Instruction::new_rtype(Opcode::Xor, Reg::Temp(0), Reg::Temp(1), Reg::Temp(0)));
        assert(self.code() =~= before + operand.emit(load_literal(unary_mask(op), t1())).emit(
            seq![SpecInstruction::rtype(Opcode::Xor, t0(), t1(), t0())],
        ).code);
        Ok(())
    }

    /// Lowers a conditional. The branch and the jump are emitted with a zero
    /// offset and get their offsets once the blocks they skip are emitted.
    fn generate_if(
        &mut self,
        condition: &Expr,
        then_branch: &Vec<Expr>,
        else_branch: &Option<Vec<Expr>>,
    ) -> (res: Result<(), String>)
        requires
            old(self).fits(if_model(condition, then_branch, else_branch)),
        ensures
            Self::carried_out(
                old(self),
                final(self),
                lower(if_model(condition, then_branch, else_branch), old(self).frame()),
                res,
            ),
        decreases code_len(if_model(condition, then_branch, else_branch)), 0nat,
    {
        let ghost before = self.code();
        let ghost c = lower(condition@, old(self).frame());
        let ghost t = lower_block(Expr::models(then_branch@), c.frame);
        proof {
            lemma_lower_bounds(condition@, old(self).frame());
            lemma_lower_block_bounds(Expr::models(then_branch@), c.frame);
        }
        match self.generate(condition) {
            Err(message) => {
                return Err(message);
            },
            Ok(_) => {},
        }
        let condition_index = self.position();
        self.emit(Instruction::new_itype(Opcode::Beq, Reg::Temp(0), Reg::Zero, 0));
        let res = self.generate_block(then_branch);
        assert(self.code() =~= before + c.emit(seq![branch_if_zero(0)]).chain(t).code);
        match res {
            Err(message) => {
                return Err(message);
            },
            Ok(_) => {},
        }
        let end_then_index = self.position();
        match else_branch {
            None => {
                self.patch(condition_index, (end_then_index - condition_index) as i32);
                assert(self.code() =~= before + c.emit(
                    seq![branch_if_zero(t.code.len() as int + 1)],
                ).chain(t).code);
                Ok(())
            },
            Some(items) => {
                let ghost f = lower_block(Expr::models(items@), t.frame);
                proof {
                    lemma_lower_block_bounds(Expr::models(items@), t.frame);
                }
                self.emit(Instruction::new_jtype(Opcode::Jal, 0));
                self.patch(
                    condition_index,
                    (self.position() - condition_index) as i32,
                );
                let ghost skip_then = c.emit(seq![branch_if_zero(t.code.len() as int + 2)]).chain(
                    t,
                );
                assert(self.code() =~= before + skip_then.emit(seq![jump(0)]).code);
                let res = self.generate_block(items);
                assert(self.code() =~= before + skip_then.emit(seq![jump(0)]).chain(f).code);
                match res {
                    Err(message) => {
                        return Err(message);
                    },
                    Ok(_) => {},
                }
                let end_else_index = self.position();
                self.patch(end_then_index, (end_else_index - end_then_index) as i32);
                assert(self.code() =~= before + skip_then.emit(
                    seq![jump(f.code.len() as int + 1)],
                ).chain(f).code);
                Ok(())
            },
        }
    }

    /// Lowers a loop: the condition, the branch that leaves, the body, the
    /// jump back to the condition.
    fn generate_while(&mut self, condition: &Expr, body: &Vec<Expr>) -> (res: Result<(), String>)
        requires
            old(self).fits(while_model(condition, body)),
        ensures
            Self::carried_out(
                old(self),
                final(self),
                lower(while_model(condition, body), old(self).frame()),
                res,
            ),
        decreases code_len(while_model(condition, body)), 0nat,
    {
        let ghost before = self.code();
        let ghost c = lower(condition@, old(self).frame());
        let ghost b = lower_block(Expr::models(body@), c.frame);
        proof {
            lemma_lower_bounds(condition@, old(self).frame());
            lemma_lower_block_bounds(Expr::models(body@), c.frame);
        }
        let condition_start = self.position();
        match self.generate(condition) {
            Err(message) => {
                return Err(message);
            },
            Ok(_) => {},
        }
        let condition_end = self.position();
        self.emit(Instruction::new_itype(Opcode::Beq, Reg::Temp(0), Reg::Zero, 0));
        let res = self.generate_block(body);
        assert(self.code() =~= before + c.emit(seq![branch_if_zero(0)]).chain(b).code);
        match res {
            Err(message) => {
                return Err(message);
            },
            Ok(_) => {},
        }
        let jmp_index = self.position();
        let back: i32 = -((jmp_index - condition_start) as i32);
        self.emit(Instruction::new_jtype(Opcode::Jal, 0));
        self.patch(jmp_index, back);
        self.patch(condition_end, (self.position() - condition_end) as i32);
        assert(self.code() =~= before + c.emit(
            seq![branch_if_zero(b.code.len() as int + 2)],
        ).chain(b).emit(seq![jump(-(c.code.len() + b.code.len() + 1))]).code);
        Ok(())
    }

    /// Lowers `expr` and appends its instructions.
    ///
    /// What is appended, how the frame changes and whether an error comes
    /// back is what [`lower`] says of the expression in the present frame.
    /// The errors are a variable without declaration and one of the
    /// operators `>` and `<=`, which have no instruction.
    pub fn generate(&mut self, expr: &Expr) -> (res: Result<(), String>)
        requires
            old(self).fits(expr@),
        ensures
            Self::carried_out(old(self), final(self), lower(expr@, old(self).frame()), res),
        decreases code_len(expr@), 1nat,
    {
        let ghost before = self.code();
        match expr {
            Expr::Number(n) => {
                self.load_int_literal(*n as u32, Reg::Temp(0));
                Ok(())
            },
            Expr::Bool(b) => {
                self.load_bool_literal(*b, Reg::Temp(0));
                assert(self.code() =~= before + seq![load_bool(*b, t0())]);
                Ok(())
            },
            Expr::Var(var) => {
                let res = self.load_variable(var, Reg::Temp(0));
                assert(res is Ok ==> self.code() =~= before + seq![
                    load_slot(old(self).frame().symbols[var@], t0()),
                ]);
                assert(res is Err ==> self.code() =~= before + Seq::<SpecInstruction>::empty());
                res
            },
            Expr::Assign { name, expr } => self.generate_store(name, expr),
            Expr::Let { name, var_type, expr } => {
                self.allocate_variable(name.clone());
                self.generate_store(name, expr)
            },
            Expr::Binary { left, op, right } => self.generate_binary(left, *op, right),
            Expr::Unary { op, expr } => self.generate_unary(*op, expr),
            Expr::If { condition, then_branch, else_branch } => self.generate_if(
                condition,
                then_branch,
                else_branch,
            ),
            Expr::While { condition, body } => self.generate_while(condition, body),
        }
    }

    /// Tells whether [`CodeGenContext::generate`] may be called on `expr`:
    /// whether the expression is within the limits of the machine words.
    pub fn can_generate(&self, expr: &Expr) -> (ok: bool)
        ensures
            ok == self.fits(expr@),
    {
        let (length, lets) = measure(expr);
        (self.stack_offset as u64) + 8 * lets <= 0xffff_ffff && length <= 0x7fff_ffff
    }

    /// Loads 0 or 1 into `dest`.
    fn load_bool_literal(&mut self, val: bool, dest: Reg)
        ensures
            final(self).code() == old(self).code().push(load_bool(val, dest)),
            final(self).frame() == old(self).frame(),
    {
        self.emit(Instruction::new_itype(Opcode::Addi, dest, Reg::Zero, if val { 1 } else { 0 }));
    }
}

} // verus!
