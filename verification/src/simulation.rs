use crate::ast::{BinaryOp, SpecExpr, UnaryOp};
use crate::inst::{Opcode, Reg, SpecInstruction};
use crate::lowering::{
    binary_opcode, block_code_len, block_declarations, branch_if_zero, code_len, declarations, jump,
    lemma_declare_well_formed, lemma_lower_block_bounds, lemma_lower_block_keeps_frame,
    lemma_lower_bounds, lemma_lower_keeps_frame, lemma_parts_rebuild_word, load_bool, load_literal,
    load_slot, lower, lower_block, lower_part, program_code, reserve_frame, spill, store_slot, t0,
    t1, unary_mask, upper_part, Frame, SLOT_SIZE, STACK_SIZE,
};
use crate::machine::{alu, lemma_offset_kept, lemma_run_twice, run, step, wrap, Machine};
use crate::pieces::{lemma_stands_both, stands_at};
use crate::semantics::{evaluate, execute, execute_block, negate, operate, Env};
use vstd::prelude::*;

verus! {

/// A number, a truth value or a variable.
pub open spec fn is_operand(e: SpecExpr) -> bool {
    match e {
        SpecExpr::Number(_) => true,
        SpecExpr::Bool(_) => true,
        SpecExpr::Var(_) => true,
        _ => false,
    }
}

/// An operand, or one operator on operands: a binary operator that has an
/// instruction on two of them, or a prefix operator on one. These are the
/// expressions of a single level.
pub open spec fn is_single_level(e: SpecExpr) -> bool {
    match e {
        SpecExpr::Binary { left, op, right } => is_operand(*left) && is_operand(*right)
            && binary_opcode(op) is Some,
        SpecExpr::Unary { op, expr } => is_operand(*expr),
        _ => is_operand(e),
    }
}

/// `all` gives every name of `part` the slot that `part` gives it.
pub open spec fn extends(all: Frame, part: Frame) -> bool {
    forall|name: Seq<char>| #[trigger]
        part.symbols.contains_key(name) ==> all.symbols.contains_key(name) && all.symbols[name]
            == part.symbols[name]
}

/// The machine holds the variables: the stack pointer is `sp`, and every
/// variable that has a value has a slot in `all`, which holds the value.
pub open spec fn represents(m: Machine, all: Frame, env: Env, sp: u32) -> bool {
    &&& m.reg(Reg::StackPointer) == sp
    &&& forall|name: Seq<char>| #[trigger]
        env.contains_key(name) ==> all.symbols.contains_key(name) && m.memory[sp
            + all.symbols[name]] == env[name]
}

/// One step is a run of one step.
pub proof fn lemma_run_one(code: Seq<SpecInstruction>, m: Machine)
    ensures
        run(code, m, 1) == step(code, m),
{
    assert(run(code, step(code, m), 0) == step(code, m));
}

/// A run of `steps` steps and one more.
pub proof fn lemma_run_more(code: Seq<SpecInstruction>, m: Machine, steps: nat)
    ensures
        run(code, m, steps + 1) == step(code, run(code, m, steps)),
{
    lemma_run_twice(code, m, steps, 1);
    lemma_run_one(code, run(code, m, steps));
}

/// The instruction of an operator computes the value of the operator,
/// where the operator has a value.
pub proof fn lemma_alu_operates(op: BinaryOp, a: u32, b: u32)
    requires
        binary_opcode(op) is Some,
        operate(op, a, b) is Some,
    ensures
        alu(binary_opcode(op)->0, a, b) == operate(op, a, b),
{
    if a <= 1 && b <= 1 {
        assert(a <= 1 && b <= 1 ==> (a & b) == (if a == 1 && b == 1 {
            1u32
        } else {
            0u32
        })) by (bit_vector);
        assert(a <= 1 && b <= 1 ==> (a | b) == (if a == 1 || b == 1 {
            1u32
        } else {
            0u32
        })) by (bit_vector);
    }
}

/// The two instructions that load a word leave the word in the register
/// they load, whatever it held, and change nothing else but the place in
/// the code: the upper part, shifted by twelve bits, and the lower part
/// added to it are the word.
pub proof fn lemma_literal_loads(
    value: u32,
    dest: Reg,
    code: Seq<SpecInstruction>,
    m: Machine,
)
    requires
        dest != Reg::Zero,
        stands_at(code, m.pc, load_literal(value, dest)),
    ensures
        run(code, m, 2).pc == m.pc + 2,
        run(code, m, 2).reg(dest) == value,
        run(code, m, 2).registers == m.registers.insert(dest, value),
        run(code, m, 2).memory == m.memory,
{
    let piece = load_literal(value, dest);
    lemma_parts_rebuild_word(value);
    assert(code[m.pc + 0] == piece[0]);
    assert(code[m.pc + 1] == piece[1]);
    let m1 = step(code, m);
    let m2 = step(code, m1);
    lemma_run_one(code, m);
    lemma_run_more(code, m, 1);
    let upper = wrap(upper_part(value) * 0x1000);
    assert(upper == upper_part(value) * 0x1000);
    assert(m1.reg(dest) == upper);
    assert(m2.reg(dest) == wrap(upper + lower_part(value)));
    assert(m2.registers =~= m.registers.insert(dest, value));
}

/// The exclusive or with the mask of a prefix operator is the value of the
/// operator, where the operator has a value: with 1 a truth value is turned
/// over, with all ones `x` becomes `-x - 1`.
pub proof fn lemma_mask_negates(op: UnaryOp, a: u32)
    requires
        negate(op, a) is Some,
    ensures
        alu(Opcode::Xor, unary_mask(op), a) == negate(op, a),
{
    match op {
        UnaryOp::Not => {
            assert(a <= 1 ==> (1u32 ^ a) == (if a == 0 {
                1u32
            } else {
                0u32
            })) by (bit_vector);
        },
        UnaryOp::Neg => {
            assert((0xffff_ffffu32 ^ a) == 0xffff_ffffu32 - a) by (bit_vector);
        },
    }
}

/// After the two instructions that load the mask of a prefix operator, the
/// secondary scratch register holds the mask: 1 for `!`, all ones for `-`.
/// The primary scratch register, the stack pointer and the memory are as
/// they were.
pub proof fn lemma_mask_loads(op: UnaryOp, code: Seq<SpecInstruction>, m: Machine)
    requires
        stands_at(code, m.pc, load_literal(unary_mask(op), t1())),
    ensures
        run(code, m, 2).pc == m.pc + 2,
        run(code, m, 2).reg(t1()) == unary_mask(op),
        run(code, m, 2).reg(t0()) == m.reg(t0()),
        run(code, m, 2).reg(Reg::StackPointer) == m.reg(Reg::StackPointer),
        run(code, m, 2).memory == m.memory,
{
    lemma_literal_loads(unary_mask(op), t1(), code, m);
}

/// The code of an operand leaves the value of the operand in the primary
/// scratch register and changes nothing else but the place in the code.
pub proof fn lemma_operand_loads(
    e: SpecExpr,
    frame: Frame,
    all: Frame,
    env: Env,
    code: Seq<SpecInstruction>,
    m: Machine,
    sp: u32,
)
    requires
        is_operand(e),
        lower(e, frame).error is None,
        evaluate(e, env) is Some,
        stands_at(code, m.pc, lower(e, frame).code),
        represents(m, all, env, sp),
        extends(all, frame),
    ensures
        ({
            let after = run(code, m, lower(e, frame).code.len());
            &&& after.pc == m.pc + lower(e, frame).code.len()
            &&& after.reg(t0()) == evaluate(e, env)->0
            &&& after.reg(t1()) == m.reg(t1())
            &&& after.reg(Reg::StackPointer) == sp
            &&& after.memory == m.memory
        }),
{
    let piece = lower(e, frame).code;
    match e {
        SpecExpr::Number(n) => {
            let word = n as u32;
            assert(piece =~= load_literal(word, t0()));
            lemma_literal_loads(word, t0(), code, m);
        },
        SpecExpr::Bool(b) => {
            assert(piece =~= seq![load_bool(b, t0())]);
            assert(code[m.pc + 0] == piece[0]);
            lemma_run_one(code, m);
        },
        SpecExpr::Var(name) => {
            assert(piece =~= seq![load_slot(frame.symbols[name], t0())]);
            assert(code[m.pc + 0] == piece[0]);
            assert(frame.symbols.contains_key(name));
            assert(env.contains_key(name));
            lemma_run_one(code, m);
        },
        _ => {},
    }
}

/// The code of an expression of a single level leaves the value of the
/// expression in the primary scratch register, and the memory and the stack
/// pointer as they were.
pub proof fn lemma_single_level_computes(
    e: SpecExpr,
    frame: Frame,
    all: Frame,
    env: Env,
    code: Seq<SpecInstruction>,
    m: Machine,
    sp: u32,
)
    requires
        is_single_level(e),
        lower(e, frame).error is None,
        evaluate(e, env) is Some,
        stands_at(code, m.pc, lower(e, frame).code),
        represents(m, all, env, sp),
        extends(all, frame),
    ensures
        lower(e, frame).frame == frame,
        ({
            let after = run(code, m, lower(e, frame).code.len());
            &&& after.pc == m.pc + lower(e, frame).code.len()
            &&& after.reg(t0()) == evaluate(e, env)->0
            &&& after.reg(Reg::StackPointer) == sp
            &&& after.memory == m.memory
        }),
{
    match e {
        SpecExpr::Binary { left, op, right } => {
            let l = lower(*left, frame);
            let r = lower(*right, frame);
            let opcode = binary_opcode(op)->0;
            let last = seq![SpecInstruction::rtype(opcode, t0(), t1(), t0())];
            assert(l.frame == frame && r.frame == frame);
            assert(lower(e, frame).code =~= l.code + (seq![spill()] + (r.code + last)));
            lemma_stands_both(code, m.pc, l.code, seq![spill()] + (r.code + last));
            let at_spill = m.pc + l.code.len();
            lemma_stands_both(code, at_spill, seq![spill()], r.code + last);
            lemma_stands_both(code, at_spill + 1, r.code, last);
            let a = evaluate(*left, env)->0;
            let b = evaluate(*right, env)->0;
            // the left operand
            lemma_operand_loads(*left, frame, all, env, code, m, sp);
            let m1 = run(code, m, l.code.len());
            // the copy that saves it
            assert(code[at_spill + 0] == seq![spill()][0]);
            let m2 = step(code, m1);
            lemma_run_more(code, m, l.code.len());
            assert(m2.reg(t1()) == a);
            assert(m2.reg(Reg::StackPointer) == sp);
            // the right operand
            lemma_operand_loads(*right, frame, all, env, code, m2, sp);
            let m3 = run(code, m2, r.code.len());
            lemma_run_twice(code, m, l.code.len() + 1, r.code.len());
            // the operator
            assert(code[at_spill + 1 + r.code.len() + 0] == last[0]);
            let m4 = step(code, m3);
            lemma_run_more(code, m, l.code.len() + 1 + r.code.len());
            lemma_alu_operates(op, a, b);
            assert(m4.reg(t0()) == operate(op, a, b)->0);
        },
        SpecExpr::Unary { op, expr } => {
            let operand = lower(*expr, frame);
            let mask = load_literal(unary_mask(op), t1());
            let last = seq![SpecInstruction::rtype(Opcode::Xor, t0(), t1(), t0())];
            assert(operand.frame == frame);
            assert(lower(e, frame).code =~= operand.code + (mask + last));
            lemma_stands_both(code, m.pc, operand.code, mask + last);
            let at_mask = m.pc + operand.code.len();
            lemma_stands_both(code, at_mask, mask, last);
            let a = evaluate(*expr, env)->0;
            // the operand
            lemma_operand_loads(*expr, frame, all, env, code, m, sp);
            let m1 = run(code, m, operand.code.len());
            // the mask
            lemma_mask_loads(op, code, m1);
            let m2 = run(code, m1, 2);
            lemma_run_twice(code, m, operand.code.len(), 2);
            assert(m2.reg(t1()) == unary_mask(op));
            assert(m2.reg(t0()) == a);
            assert(m2.reg(Reg::StackPointer) == sp);
            // the exclusive or
            assert(code[at_mask + 2 + 0] == last[0]);
            let m3 = step(code, m2);
            lemma_run_more(code, m, operand.code.len() + 2);
            lemma_mask_negates(op, a);
            assert(m3.reg(t0()) == negate(op, a)->0);
        },
        _ => {
            lemma_operand_loads(e, frame, all, env, code, m, sp);
        },
    }
}

/// A statement over expressions of a single level: a declaration, an
/// assignment, a conditional or a loop whose blocks hold such statements, or
/// an expression of a single level by itself.
pub open spec fn is_simple(e: SpecExpr) -> bool
    decreases e,
{
    match e {
        SpecExpr::Let { name, var_type, expr } => is_single_level(*expr),
        SpecExpr::Assign { name, expr } => is_single_level(*expr),
        SpecExpr::If { condition, then_branch, else_branch } => is_single_level(*condition)
            && all_simple(then_branch) && match else_branch {
            Some(items) => all_simple(items),
            None => true,
        },
        SpecExpr::While { condition, body } => is_single_level(*condition) && all_simple(body),
        _ => is_single_level(e),
    }
}

/// Every item of the block is simple.
pub open spec fn all_simple(items: Seq<SpecExpr>) -> bool
    decreases items,
{
    if items.len() == 0 {
        true
    } else {
        all_simple(items.drop_last()) && is_simple(items.last())
    }
}

/// `all` gives every variable the slot that it has while the statement `e`
/// is lowered from `frame`: `all` extends `frame` and every frame that a
/// declaration within `e` makes. This is so for the frame that is left at
/// the end of a program in which no name is declared twice.
pub open spec fn keeps_slots(all: Frame, e: SpecExpr, frame: Frame) -> bool
    decreases e,
{
    &&& extends(all, frame)
    &&& match e {
        SpecExpr::Let { name, var_type, expr } => extends(all, frame.declare(name)),
        SpecExpr::If { condition, then_branch, else_branch } => {
            let c = lower(*condition, frame);
            &&& block_keeps_slots(all, then_branch, c.frame)
            &&& match else_branch {
                Some(items) => block_keeps_slots(
                    all,
                    items,
                    lower_block(then_branch, c.frame).frame,
                ),
                None => true,
            }
        },
        SpecExpr::While { condition, body } => block_keeps_slots(
            all,
            body,
            lower(*condition, frame).frame,
        ),
        _ => true,
    }
}

/// [`keeps_slots`], for the items of a block.
pub open spec fn block_keeps_slots(all: Frame, items: Seq<SpecExpr>, frame: Frame) -> bool
    decreases items,
{
    if items.len() == 0 {
        extends(all, frame)
    } else {
        &&& block_keeps_slots(all, items.drop_last(), frame)
        &&& keeps_slots(all, items.last(), lower_block(items.drop_last(), frame).frame)
    }
}

/// The code of a declaration or an assignment of `name`, once the variable
/// has its slot in `frame`, computes the value and stores it in the slot.
pub proof fn lemma_store_runs(
    name: Seq<char>,
    value: SpecExpr,
    frame: Frame,
    all: Frame,
    env: Env,
    code: Seq<SpecInstruction>,
    m: Machine,
    sp: u32,
) -> (steps: nat)
    requires
        is_single_level(value),
        lower(value, frame).error is None,
        frame.symbols.contains_key(name),
        evaluate(value, env) is Some,
        stands_at(
            code,
            m.pc,
            lower(value, frame).code + seq![store_slot(frame.symbols[name], t0())],
        ),
        represents(m, all, env, sp),
        all.well_formed(),
        extends(all, frame),
    ensures
        steps == lower(value, frame).code.len() + 1,
        run(code, m, steps).pc == m.pc + lower(value, frame).code.len() + 1,
        represents(run(code, m, steps), all, env.insert(name, evaluate(value, env)->0), sp),
{
    let v = lower(value, frame);
    let store = seq![store_slot(frame.symbols[name], t0())];
    lemma_stands_both(code, m.pc, v.code, store);
    lemma_single_level_computes(value, frame, all, env, code, m, sp);
    let m1 = run(code, m, v.code.len());
    assert(code[m.pc + v.code.len() + 0] == store[0]);
    let m2 = step(code, m1);
    lemma_run_more(code, m, v.code.len());
    let word = evaluate(value, env)->0;
    let after = env.insert(name, word);
    assert(m2.memory == m.memory.insert(sp + all.symbols[name], word));
    assert forall|other: Seq<char>| #[trigger] after.contains_key(other) implies
        all.symbols.contains_key(other) && m2.memory[sp + all.symbols[other]] == after[other] by {
        if other != name {
            assert(env.contains_key(other));
            assert(all.symbols.contains_key(name));
            assert(all.symbols[other] != all.symbols[name]);
        }
    }
    v.code.len() + 1
}

/// Lowering an expression of a single level leaves the frame as it was.
pub proof fn lemma_single_level_keeps_frame(e: SpecExpr, frame: Frame)
    requires
        is_single_level(e),
    ensures
        lower(e, frame).frame == frame,
{
    match e {
        SpecExpr::Binary { left, op, right } => {
            assert(lower(*left, frame).frame == frame);
            assert(lower(*right, frame).frame == frame);
        },
        SpecExpr::Unary { op, expr } => {
            assert(lower(*expr, frame).frame == frame);
        },
        _ => {},
    }
}

/// How many steps the code of a statement takes when the statement runs
/// from the variables `env`: as many as the instructions of a declaration,
/// an assignment or an expression; for a conditional, those of the
/// condition, the branch, and the block that runs, with the jump after the
/// first block if there is one; for a loop, those of the condition and the
/// branch once for every turn and once more at the end, and those of the
/// body and the jump back once for every turn.
pub open spec fn steps_of(e: SpecExpr, frame: Frame, env: Env, fuel: nat) -> nat
    decreases fuel, e,
{
    match e {
        SpecExpr::If { condition, then_branch, else_branch } => {
            let c = lower(*condition, frame);
            let test = evaluate(*condition, env)->0;
            c.code.len() + 1 + if test != 0 {
                block_steps_of(then_branch, c.frame, env, fuel) + if else_branch is Some {
                    1nat
                } else {
                    0nat
                }
            } else {
                match else_branch {
                    Some(items) => block_steps_of(
                        items,
                        lower_block(then_branch, c.frame).frame,
                        env,
                        fuel,
                    ),
                    None => 0,
                }
            }
        },
        SpecExpr::While { condition, body } => {
            let c = lower(*condition, frame);
            let test = evaluate(*condition, env)->0;
            c.code.len() + 1 + if test == 0 || fuel == 0 {
                0nat
            } else {
                let turn = (fuel - 1) as nat;
                let body_steps = block_steps_of(body, c.frame, env, turn);
                body_steps + 1 + match execute_block(body, env, turn) {
                    Some(next) => steps_of(e, frame, next, turn),
                    None => 0,
                }
            }
        },
        _ => lower(e, frame).code.len(),
    }
}

/// [`steps_of`], summed over the items of a block as they run in order.
pub open spec fn block_steps_of(items: Seq<SpecExpr>, frame: Frame, env: Env, fuel: nat) -> nat
    decreases fuel, items,
{
    if items.len() == 0 {
        0
    } else {
        block_steps_of(items.drop_last(), frame, env, fuel) + match execute_block(
            items.drop_last(),
            env,
            fuel,
        ) {
            Some(before) => steps_of(
                items.last(),
                lower_block(items.drop_last(), frame).frame,
                before,
                fuel,
            ),
            None => 0,
        }
    }
}

/// What the run of a statement starts from: the statement is simple, lowers
/// without error and within the reach of the branches, and runs to an end;
/// its code stands where the machine is about to run; the machine holds the
/// variables in the slots of `all`, which are those of the lowering.
pub open spec fn ready(
    e: SpecExpr,
    frame: Frame,
    all: Frame,
    env: Env,
    fuel: nat,
    code: Seq<SpecInstruction>,
    m: Machine,
    sp: u32,
) -> bool {
    &&& is_simple(e)
    &&& lower(e, frame).error is None
    &&& code_len(e) <= i32::MAX
    &&& execute(e, env, fuel) is Some
    &&& stands_at(code, m.pc, lower(e, frame).code)
    &&& represents(m, all, env, sp)
    &&& all.well_formed()
    &&& keeps_slots(all, e, frame)
}

/// [`ready`], for a block.
pub open spec fn block_ready(
    items: Seq<SpecExpr>,
    frame: Frame,
    all: Frame,
    env: Env,
    fuel: nat,
    code: Seq<SpecInstruction>,
    m: Machine,
    sp: u32,
) -> bool {
    &&& all_simple(items)
    &&& lower_block(items, frame).error is None
    &&& block_code_len(items) <= i32::MAX
    &&& execute_block(items, env, fuel) is Some
    &&& stands_at(code, m.pc, lower_block(items, frame).code)
    &&& represents(m, all, env, sp)
    &&& all.well_formed()
    &&& block_keeps_slots(all, items, frame)
}

/// What the run of a piece of code ends in: the machine stands behind the
/// piece and holds the variables `env`.
pub open spec fn finished(
    after: Machine,
    before: Machine,
    length: nat,
    all: Frame,
    env: Env,
    sp: u32,
) -> bool {
    &&& after.pc == before.pc + length
    &&& represents(after, all, env, sp)
}

/// The code of a conditional runs as the conditional does: the branch after
/// the condition skips the first block when the condition is zero, and the
/// jump after the first block skips the second.
pub proof fn lemma_if_runs(
    e: SpecExpr,
    frame: Frame,
    all: Frame,
    env: Env,
    fuel: nat,
    code: Seq<SpecInstruction>,
    m: Machine,
    sp: u32,
) -> (steps: nat)
    requires
        e is If,
        ready(e, frame, all, env, fuel, code, m, sp),
    ensures
        steps == steps_of(e, frame, env, fuel),
        finished(
            run(code, m, steps),
            m,
            lower(e, frame).code.len(),
            all,
            execute(e, env, fuel)->0,
            sp,
        ),
    decreases fuel, e, 0nat,
{
    match e {
        SpecExpr::If { condition, then_branch, else_branch } => {
            lemma_single_level_keeps_frame(*condition, frame);
            let c = lower(*condition, frame);
            let t = lower_block(then_branch, frame);
            lemma_lower_bounds(*condition, frame);
            lemma_lower_block_bounds(then_branch, frame);
            let test = evaluate(*condition, env)->0;
            let at_branch = m.pc + c.code.len();
            let placeholder = SpecInstruction::itype(Opcode::Beq, t0(), Reg::Zero, 0);
            match else_branch {
                None => {
                    let delta = t.code.len() as int + 1;
                    let branch = seq![branch_if_zero(delta)];
                    assert(lower(e, frame).code =~= c.code + (branch + t.code));
                    lemma_stands_both(code, m.pc, c.code, branch + t.code);
                    lemma_stands_both(code, at_branch, branch, t.code);
                    lemma_single_level_computes(*condition, frame, all, env, code, m, sp);
                    let m1 = run(code, m, c.code.len());
                    assert(code[at_branch + 0] == branch[0]);
                    lemma_offset_kept(delta, placeholder);
                    let m2 = step(code, m1);
                    lemma_run_more(code, m, c.code.len());
                    if test != 0 {
                        assert(m2.pc == at_branch + 1);
                        let inner = lemma_block_runs(
                            then_branch,
                            frame,
                            all,
                            env,
                            fuel,
                            code,
                            m2,
                            sp,
                        );
                        lemma_run_twice(code, m, c.code.len() + 1, inner);
                        c.code.len() + 1 + inner
                    } else {
                        assert(m2.pc == at_branch + delta);
                        c.code.len() + 1
                    }
                },
                Some(items) => {
                    let f = lower_block(items, t.frame);
                    lemma_lower_block_bounds(items, t.frame);
                    let delta = t.code.len() as int + 2;
                    let skip = f.code.len() as int + 1;
                    let branch = seq![branch_if_zero(delta)];
                    let leave = seq![jump(skip)];
                    let tail = t.code + (leave + f.code);
                    assert(lower(e, frame).code =~= c.code + (branch + tail));
                    lemma_stands_both(code, m.pc, c.code, branch + (t.code + (leave + f.code)));
                    lemma_stands_both(code, at_branch, branch, t.code + (leave + f.code));
                    lemma_stands_both(code, at_branch + 1, t.code, leave + f.code);
                    let at_leave = at_branch + 1 + t.code.len();
                    lemma_stands_both(code, at_leave, leave, f.code);
                    lemma_single_level_computes(*condition, frame, all, env, code, m, sp);
                    let m1 = run(code, m, c.code.len());
                    assert(code[at_branch + 0] == branch[0]);
                    lemma_offset_kept(delta, placeholder);
                    let m2 = step(code, m1);
                    lemma_run_more(code, m, c.code.len());
                    if test != 0 {
                        assert(m2.pc == at_branch + 1);
                        let inner = lemma_block_runs(
                            then_branch,
                            frame,
                            all,
                            env,
                            fuel,
                            code,
                            m2,
                            sp,
                        );
                        lemma_run_twice(code, m, c.code.len() + 1, inner);
                        let m3 = run(code, m, c.code.len() + 1 + inner);
                        assert(code[at_leave + 0] == leave[0]);
                        lemma_offset_kept(skip, SpecInstruction::jtype(Opcode::Jal, 0));
                        let m4 = step(code, m3);
                        lemma_run_more(code, m, c.code.len() + 1 + inner);
                        assert(m4.pc == at_leave + skip);
                        c.code.len() + 1 + inner + 1
                    } else {
                        assert(m2.pc == at_branch + delta);
                        let inner = lemma_block_runs(items, t.frame, all, env, fuel, code, m2, sp);
                        lemma_run_twice(code, m, c.code.len() + 1, inner);
                        c.code.len() + 1 + inner
                    }
                },
            }
        },
        _ => 0,
    }
}

/// The code of a loop runs as the loop does: the condition is computed
/// before every turn, the branch after it leaves the loop when it is zero,
/// and the jump after the body goes back to the condition.
pub proof fn lemma_while_runs(
    e: SpecExpr,
    frame: Frame,
    all: Frame,
    env: Env,
    fuel: nat,
    code: Seq<SpecInstruction>,
    m: Machine,
    sp: u32,
) -> (steps: nat)
    requires
        e is While,
        ready(e, frame, all, env, fuel, code, m, sp),
    ensures
        steps == steps_of(e, frame, env, fuel),
        finished(
            run(code, m, steps),
            m,
            lower(e, frame).code.len(),
            all,
            execute(e, env, fuel)->0,
            sp,
        ),
    decreases fuel, e, 0nat,
{
    match e {
        SpecExpr::While { condition, body } => {
            lemma_single_level_keeps_frame(*condition, frame);
            let c = lower(*condition, frame);
            let b = lower_block(body, frame);
            lemma_lower_bounds(*condition, frame);
            lemma_lower_block_bounds(body, frame);
            let test = evaluate(*condition, env)->0;
            let at_branch = m.pc + c.code.len();
            let delta = b.code.len() as int + 2;
            let back = -(c.code.len() + b.code.len() + 1);
            let branch = seq![branch_if_zero(delta)];
            let again = seq![jump(back)];
            assert(lower(e, frame).code =~= c.code + (branch + (b.code + again)));
            lemma_stands_both(code, m.pc, c.code, branch + (b.code + again));
            lemma_stands_both(code, at_branch, branch, b.code + again);
            lemma_stands_both(code, at_branch + 1, b.code, again);
            let at_again = at_branch + 1 + b.code.len();
            lemma_single_level_computes(*condition, frame, all, env, code, m, sp);
            let m1 = run(code, m, c.code.len());
            assert(code[at_branch + 0] == branch[0]);
            lemma_offset_kept(delta, SpecInstruction::itype(Opcode::Beq, t0(), Reg::Zero, 0));
            let m2 = step(code, m1);
            lemma_run_more(code, m, c.code.len());
            if test == 0 {
                assert(m2.pc == at_branch + delta);
                c.code.len() + 1
            } else {
                assert(m2.pc == at_branch + 1);
                let turn_fuel = (fuel - 1) as nat;
                let turn = lemma_block_runs(body, frame, all, env, turn_fuel, code, m2, sp);
                lemma_run_twice(code, m, c.code.len() + 1, turn);
                let m3 = run(code, m, c.code.len() + 1 + turn);
                assert(code[at_again + 0] == again[0]);
                lemma_offset_kept(back, SpecInstruction::jtype(Opcode::Jal, 0));
                let m4 = step(code, m3);
                lemma_run_more(code, m, c.code.len() + 1 + turn);
                assert(m4.pc == m.pc);
                let next = execute_block(body, env, turn_fuel)->0;
                let rest = lemma_while_runs(e, frame, all, next, turn_fuel, code, m4, sp);
                lemma_run_twice(code, m, c.code.len() + 1 + turn + 1, rest);
                c.code.len() + 1 + turn + 1 + rest
            }
        },
        _ => 0,
    }
}

/// The code of a simple statement runs as the statement does.
///
/// Given a simple statement that is lowered without error and that runs to
/// an end from the variables `env`, and a machine that stands before the
/// code of the statement and holds those variables, the machine reaches the
/// end of the code after `steps` steps, and then holds the variables that
/// the statement leaves.
pub proof fn lemma_statement_runs(
    e: SpecExpr,
    frame: Frame,
    all: Frame,
    env: Env,
    fuel: nat,
    code: Seq<SpecInstruction>,
    m: Machine,
    sp: u32,
) -> (steps: nat)
    requires
        ready(e, frame, all, env, fuel, code, m, sp),
    ensures
        steps == steps_of(e, frame, env, fuel),
        finished(
            run(code, m, steps),
            m,
            lower(e, frame).code.len(),
            all,
            execute(e, env, fuel)->0,
            sp,
        ),
    decreases fuel, e, 1nat,
{
    match e {
        SpecExpr::Let { name, var_type, expr } => {
            let declared = frame.declare(name);
            lemma_single_level_keeps_frame(*expr, declared);
            let before = env.remove(name);
            let steps = lemma_store_runs(name, *expr, declared, all, before, code, m, sp);
            assert(before.insert(name, evaluate(*expr, before)->0) =~= env.insert(
                name,
                evaluate(*expr, before)->0,
            ));
            steps
        },
        SpecExpr::Assign { name, expr } => {
            lemma_single_level_keeps_frame(*expr, frame);
            lemma_store_runs(name, *expr, frame, all, env, code, m, sp)
        },
        SpecExpr::If { condition, then_branch, else_branch } => lemma_if_runs(
            e,
            frame,
            all,
            env,
            fuel,
            code,
            m,
            sp,
        ),
        SpecExpr::While { condition, body } => lemma_while_runs(
            e,
            frame,
            all,
            env,
            fuel,
            code,
            m,
            sp,
        ),
        _ => {
            lemma_single_level_computes(e, frame, all, env, code, m, sp);
            lower(e, frame).code.len()
        },
    }
}

/// The code of a block of simple statements runs as the statements do, one
/// after the other.
pub proof fn lemma_block_runs(
    items: Seq<SpecExpr>,
    frame: Frame,
    all: Frame,
    env: Env,
    fuel: nat,
    code: Seq<SpecInstruction>,
    m: Machine,
    sp: u32,
) -> (steps: nat)
    requires
        block_ready(items, frame, all, env, fuel, code, m, sp),
    ensures
        steps == block_steps_of(items, frame, env, fuel),
        finished(
            run(code, m, steps),
            m,
            lower_block(items, frame).code.len(),
            all,
            execute_block(items, env, fuel)->0,
            sp,
        ),
    decreases fuel, items, 2nat,
{
    if items.len() == 0 {
        0
    } else {
        let before = lower_block(items.drop_last(), frame);
        let last = lower(items.last(), before.frame);
        lemma_stands_both(code, m.pc, before.code, last.code);
        let first = lemma_block_runs(items.drop_last(), frame, all, env, fuel, code, m, sp);
        let mid = run(code, m, first);
        let then = execute_block(items.drop_last(), env, fuel)->0;
        let second = lemma_statement_runs(
            items.last(),
            before.frame,
            all,
            then,
            fuel,
            code,
            mid,
            sp,
        );
        lemma_run_twice(code, m, first, second);
        first + second
    }
}

/// No declaration within the statement names a variable that has a slot
/// where the declaration is lowered: no name is declared twice.
pub open spec fn declares_fresh(e: SpecExpr, frame: Frame) -> bool
    decreases e,
{
    match e {
        SpecExpr::Let { name, var_type, expr } => !frame.symbols.contains_key(name),
        SpecExpr::If { condition, then_branch, else_branch } => {
            let c = lower(*condition, frame);
            &&& block_declares_fresh(then_branch, c.frame)
            &&& match else_branch {
                Some(items) => block_declares_fresh(items, lower_block(then_branch, c.frame).frame),
                None => true,
            }
        },
        SpecExpr::While { condition, body } => block_declares_fresh(
            body,
            lower(*condition, frame).frame,
        ),
        _ => true,
    }
}

/// [`declares_fresh`], for the items of a block.
pub open spec fn block_declares_fresh(items: Seq<SpecExpr>, frame: Frame) -> bool
    decreases items,
{
    if items.len() == 0 {
        true
    } else {
        &&& block_declares_fresh(items.drop_last(), frame)
        &&& declares_fresh(items.last(), lower_block(items.drop_last(), frame).frame)
    }
}

/// A simple statement without a second declaration of any name leaves every
/// variable the slot it had.
pub proof fn lemma_fresh_extends(e: SpecExpr, frame: Frame)
    requires
        is_simple(e),
        declares_fresh(e, frame),
    ensures
        extends(lower(e, frame).frame, frame),
    decreases e,
{
    match e {
        SpecExpr::Let { name, var_type, expr } => {
            lemma_single_level_keeps_frame(*expr, frame.declare(name));
        },
        SpecExpr::Assign { name, expr } => {
            lemma_single_level_keeps_frame(*expr, frame);
        },
        SpecExpr::If { condition, then_branch, else_branch } => {
            lemma_single_level_keeps_frame(*condition, frame);
            lemma_block_fresh_extends(then_branch, frame);
            match else_branch {
                Some(items) => {
                    lemma_block_fresh_extends(items, lower_block(then_branch, frame).frame);
                },
                None => {},
            }
        },
        SpecExpr::While { condition, body } => {
            lemma_single_level_keeps_frame(*condition, frame);
            lemma_block_fresh_extends(body, frame);
        },
        _ => {
            lemma_single_level_keeps_frame(e, frame);
        },
    }
}

/// [`lemma_fresh_extends`], for a block.
pub proof fn lemma_block_fresh_extends(items: Seq<SpecExpr>, frame: Frame)
    requires
        all_simple(items),
        block_declares_fresh(items, frame),
    ensures
        extends(lower_block(items, frame).frame, frame),
    decreases items,
{
    if items.len() > 0 {
        lemma_block_fresh_extends(items.drop_last(), frame);
        lemma_fresh_extends(items.last(), lower_block(items.drop_last(), frame).frame);
    }
}

/// Where no name is declared twice, a frame that extends the frame at the
/// end of a statement gives every variable the slot that it has while the
/// statement is lowered.
pub proof fn lemma_fresh_keeps_slots(all: Frame, e: SpecExpr, frame: Frame)
    requires
        is_simple(e),
        declares_fresh(e, frame),
        lower(e, frame).error is None,
        extends(all, lower(e, frame).frame),
    ensures
        keeps_slots(all, e, frame),
    decreases e,
{
    lemma_fresh_extends(e, frame);
    match e {
        SpecExpr::Let { name, var_type, expr } => {
            lemma_single_level_keeps_frame(*expr, frame.declare(name));
        },
        SpecExpr::If { condition, then_branch, else_branch } => {
            lemma_single_level_keeps_frame(*condition, frame);
            let t = lower_block(then_branch, frame);
            match else_branch {
                Some(items) => {
                    lemma_block_fresh_extends(items, t.frame);
                    lemma_block_fresh_keeps_slots(all, items, t.frame);
                },
                None => {},
            }
            lemma_block_fresh_keeps_slots(all, then_branch, frame);
        },
        SpecExpr::While { condition, body } => {
            lemma_single_level_keeps_frame(*condition, frame);
            lemma_block_fresh_keeps_slots(all, body, frame);
        },
        _ => {},
    }
}

/// [`lemma_fresh_keeps_slots`], for a block.
pub proof fn lemma_block_fresh_keeps_slots(all: Frame, items: Seq<SpecExpr>, frame: Frame)
    requires
        all_simple(items),
        block_declares_fresh(items, frame),
        lower_block(items, frame).error is None,
        extends(all, lower_block(items, frame).frame),
    ensures
        block_keeps_slots(all, items, frame),
    decreases items,
{
    if items.len() > 0 {
        let before = lower_block(items.drop_last(), frame);
        lemma_fresh_extends(items.last(), before.frame);
        lemma_fresh_keeps_slots(all, items.last(), before.frame);
        lemma_block_fresh_keeps_slots(all, items.drop_last(), frame);
    }
}

/// The declarations of the statement leave every variable where the code
/// looks for it:
/// - a declaration that stands in no block may name any variable, one that
///   has a slot too: it takes a new slot, and the variable is the new one
///   from there on;
/// - a block of a conditional leaves every variable that has a slot when
///   the block begins its slot, because the block may not run: it may
///   declare its own variables again, but not those;
/// - within a loop no declaration names a variable that has a slot, because
///   the next turn looks for the variable where the lowering left it.
pub open spec fn declares_safely(e: SpecExpr, frame: Frame) -> bool
    decreases e,
{
    match e {
        SpecExpr::If { condition, then_branch, else_branch } => {
            let c = lower(*condition, frame);
            let t = lower_block(then_branch, c.frame);
            &&& block_declares_safely(then_branch, c.frame)
            &&& extends(t.frame, c.frame)
            &&& match else_branch {
                Some(items) => block_declares_safely(items, t.frame) && extends(
                    lower_block(items, t.frame).frame,
                    t.frame,
                ),
                None => true,
            }
        },
        SpecExpr::While { condition, body } => declares_fresh(e, frame),
        _ => true,
    }
}

/// [`declares_safely`], for the statements of a block or of a program.
pub open spec fn block_declares_safely(items: Seq<SpecExpr>, frame: Frame) -> bool
    decreases items,
{
    if items.len() == 0 {
        true
    } else {
        &&& block_declares_safely(items.drop_last(), frame)
        &&& declares_safely(items.last(), lower_block(items.drop_last(), frame).frame)
    }
}

/// What the run of a statement starts from when the variables are held in
/// the frame of the lowering itself: the statement is simple, lowers without
/// error and within the reach of the branches and of the frame, and runs to
/// an end; its code stands where the machine is about to run; the machine
/// holds the variables in the slots of `frame`; and the declarations are
/// safe.
pub open spec fn statement_ready(
    e: SpecExpr,
    frame: Frame,
    env: Env,
    fuel: nat,
    code: Seq<SpecInstruction>,
    m: Machine,
    sp: u32,
) -> bool {
    &&& is_simple(e)
    &&& lower(e, frame).error is None
    &&& code_len(e) <= i32::MAX
    &&& frame.cursor + SLOT_SIZE * declarations(e) <= u32::MAX
    &&& execute(e, env, fuel) is Some
    &&& stands_at(code, m.pc, lower(e, frame).code)
    &&& represents(m, frame, env, sp)
    &&& frame.well_formed()
    &&& declares_safely(e, frame)
}

/// [`statement_ready`], for a block.
pub open spec fn statements_ready(
    items: Seq<SpecExpr>,
    frame: Frame,
    env: Env,
    fuel: nat,
    code: Seq<SpecInstruction>,
    m: Machine,
    sp: u32,
) -> bool {
    &&& all_simple(items)
    &&& lower_block(items, frame).error is None
    &&& block_code_len(items) <= i32::MAX
    &&& frame.cursor + SLOT_SIZE * block_declarations(items) <= u32::MAX
    &&& execute_block(items, env, fuel) is Some
    &&& stands_at(code, m.pc, lower_block(items, frame).code)
    &&& represents(m, frame, env, sp)
    &&& frame.well_formed()
    &&& block_declares_safely(items, frame)
}

/// A machine that holds the variables in the slots of a frame holds them in
/// the slots of every frame that extends it.
pub proof fn lemma_represents_extended(m: Machine, part: Frame, all: Frame, env: Env, sp: u32)
    requires
        represents(m, part, env, sp),
        extends(all, part),
    ensures
        represents(m, all, env, sp),
{
    assert forall|name: Seq<char>| #[trigger] env.contains_key(name) implies
        all.symbols.contains_key(name) && m.memory[sp + all.symbols[name]] == env[name] by {
        assert(part.symbols.contains_key(name));
    }
}

/// The code of a conditional runs as the conditional does, with the
/// variables in the slots of their latest declarations before and after.
pub proof fn lemma_program_if_runs(
    e: SpecExpr,
    frame: Frame,
    env: Env,
    fuel: nat,
    code: Seq<SpecInstruction>,
    m: Machine,
    sp: u32,
) -> (steps: nat)
    requires
        e is If,
        statement_ready(e, frame, env, fuel, code, m, sp),
    ensures
        steps == steps_of(e, frame, env, fuel),
        finished(
            run(code, m, steps),
            m,
            lower(e, frame).code.len(),
            lower(e, frame).frame,
            execute(e, env, fuel)->0,
            sp,
        ),
    decreases e, 0nat,
{
    match e {
        SpecExpr::If { condition, then_branch, else_branch } => {
            lemma_single_level_keeps_frame(*condition, frame);
            let c = lower(*condition, frame);
            let t = lower_block(then_branch, frame);
            lemma_lower_bounds(*condition, frame);
            lemma_lower_block_bounds(then_branch, frame);
            lemma_lower_block_keeps_frame(then_branch, frame);
            let test = evaluate(*condition, env)->0;
            let at_branch = m.pc + c.code.len();
            let placeholder = SpecInstruction::itype(Opcode::Beq, t0(), Reg::Zero, 0);
            let delta = t.code.len() as int + if else_branch is Some {
                2int
            } else {
                1int
            };
            let branch = seq![branch_if_zero(delta)];
            let rest = lower(e, frame).code.subrange(
                (c.code.len() + 1 + t.code.len()) as int,
                lower(e, frame).code.len() as int,
            );
            assert(lower(e, frame).code =~= c.code + (branch + (t.code + rest)));
            lemma_stands_both(code, m.pc, c.code, branch + (t.code + rest));
            lemma_stands_both(code, at_branch, branch, t.code + rest);
            lemma_stands_both(code, at_branch + 1, t.code, rest);
            let at_rest = at_branch + 1 + t.code.len();
            lemma_single_level_computes(*condition, frame, frame, env, code, m, sp);
            let m1 = run(code, m, c.code.len());
            assert(code[at_branch + 0] == branch[0]);
            lemma_offset_kept(delta, placeholder);
            let m2 = step(code, m1);
            lemma_run_more(code, m, c.code.len());
            let so_far = c.code.len() + 1;
            match else_branch {
                None => {
                    assert(rest =~= Seq::<SpecInstruction>::empty());
                    if test != 0 {
                        let inner = lemma_program_statements_run(
                            then_branch,
                            frame,
                            env,
                            fuel,
                            code,
                            m2,
                            sp,
                        );
                        lemma_run_twice(code, m, so_far, inner);
                        so_far + inner
                    } else {
                        lemma_represents_extended(m2, frame, t.frame, env, sp);
                        so_far
                    }
                },
                Some(items) => {
                    let f = lower_block(items, t.frame);
                    lemma_lower_block_bounds(items, t.frame);
                    let skip = f.code.len() as int + 1;
                    let leave = seq![jump(skip)];
                    assert(rest =~= leave + f.code);
                    lemma_stands_both(code, at_rest, leave, f.code);
                    if test != 0 {
                        let inner = lemma_program_statements_run(
                            then_branch,
                            frame,
                            env,
                            fuel,
                            code,
                            m2,
                            sp,
                        );
                        lemma_run_twice(code, m, so_far, inner);
                        let m3 = run(code, m, so_far + inner);
                        assert(code[at_rest + 0] == leave[0]);
                        lemma_offset_kept(skip, SpecInstruction::jtype(Opcode::Jal, 0));
                        let m4 = step(code, m3);
                        lemma_run_more(code, m, so_far + inner);
                        assert(m4.pc == at_rest + skip);
                        lemma_represents_extended(
                            m4,
                            t.frame,
                            f.frame,
                            execute_block(then_branch, env, fuel)->0,
                            sp,
                        );
                        so_far + inner + 1
                    } else {
                        assert(m2.pc == at_branch + delta);
                        lemma_represents_extended(m2, frame, t.frame, env, sp);
                        let inner = lemma_program_statements_run(
                            items,
                            t.frame,
                            env,
                            fuel,
                            code,
                            m2,
                            sp,
                        );
                        lemma_run_twice(code, m, so_far, inner);
                        so_far + inner
                    }
                },
            }
        },
        _ => 0,
    }
}

/// The code of a statement runs as the statement does, and afterwards the
/// machine holds the variables in the slots of the frame that the lowering
/// of the statement leaves: every variable in the slot of its latest
/// declaration.
pub proof fn lemma_program_statement_runs(
    e: SpecExpr,
    frame: Frame,
    env: Env,
    fuel: nat,
    code: Seq<SpecInstruction>,
    m: Machine,
    sp: u32,
) -> (steps: nat)
    requires
        statement_ready(e, frame, env, fuel, code, m, sp),
    ensures
        steps == steps_of(e, frame, env, fuel),
        lower(e, frame).frame.well_formed(),
        finished(
            run(code, m, steps),
            m,
            lower(e, frame).code.len(),
            lower(e, frame).frame,
            execute(e, env, fuel)->0,
            sp,
        ),
    decreases e, 1nat,
{
    lemma_lower_keeps_frame(e, frame);
    match e {
        SpecExpr::Let { name, var_type, expr } => {
            let declared = frame.declare(name);
            lemma_declare_well_formed(frame, name);
            lemma_single_level_keeps_frame(*expr, declared);
            let before = env.remove(name);
            assert forall|other: Seq<char>| #[trigger] before.contains_key(other) implies
                declared.symbols.contains_key(other) && m.memory[sp + declared.symbols[other]]
                == before[other] by {
                assert(env.contains_key(other));
            }
            let steps = lemma_store_runs(name, *expr, declared, declared, before, code, m, sp);
            assert(before.insert(name, evaluate(*expr, before)->0) =~= env.insert(
                name,
                evaluate(*expr, before)->0,
            ));
            steps
        },
        SpecExpr::If { condition, then_branch, else_branch } => lemma_program_if_runs(
            e,
            frame,
            env,
            fuel,
            code,
            m,
            sp,
        ),
        _ => {
            let all = lower(e, frame).frame;
            lemma_fresh_keeps_slots(all, e, frame);
            lemma_represents_extended(m, frame, all, env, sp);
            lemma_statement_runs(e, frame, all, env, fuel, code, m, sp)
        },
    }
}

/// The code of the statements of a block or of a program runs as the
/// statements do, one after the other.
pub proof fn lemma_program_statements_run(
    items: Seq<SpecExpr>,
    frame: Frame,
    env: Env,
    fuel: nat,
    code: Seq<SpecInstruction>,
    m: Machine,
    sp: u32,
) -> (steps: nat)
    requires
        statements_ready(items, frame, env, fuel, code, m, sp),
    ensures
        steps == block_steps_of(items, frame, env, fuel),
        lower_block(items, frame).frame.well_formed(),
        finished(
            run(code, m, steps),
            m,
            lower_block(items, frame).code.len(),
            lower_block(items, frame).frame,
            execute_block(items, env, fuel)->0,
            sp,
        ),
    decreases items, 2nat,
{
    if items.len() == 0 {
        0
    } else {
        let before = lower_block(items.drop_last(), frame);
        let last = lower(items.last(), before.frame);
        lemma_stands_both(code, m.pc, before.code, last.code);
        lemma_lower_block_bounds(items.drop_last(), frame);
        let first = lemma_program_statements_run(items.drop_last(), frame, env, fuel, code, m, sp);
        let mid = run(code, m, first);
        let then = execute_block(items.drop_last(), env, fuel)->0;
        let second = lemma_program_statement_runs(
            items.last(),
            before.frame,
            then,
            fuel,
            code,
            mid,
            sp,
        );
        lemma_run_twice(code, m, first, second);
        first + second
    }
}

/// The code of a program computes what the program means.
///
/// Take a program of simple statements: every expression in it is of a
/// single level, that is an operand or one operator on operands, and its
/// binary operators have instructions. Let its declarations be safe
/// ([`declares_safely`]): a variable may be declared again, but not in a
/// block of a conditional that began after the variable got its slot, and
/// not within a loop. Let the program be lowered without error, and let it
/// run to an
/// end by direct evaluation of the source. Then the machine, started at the
/// first instruction of the code of the program, reaches the end of the
/// code after [`block_steps_of`] steps and one for the instruction that
/// reserves the frame, and then the slot that the latest declaration of
/// every variable has holds the value that the evaluation of the source
/// gives the variable.
///
/// The condition on the declarations cannot go: after
/// `let x: num = 1; if false { let x: num = 2; } let y: num = x;` the name
/// `x` has the slot of the declaration that never ran, and in a loop a
/// second declaration moves a name away from the slot in which the next
/// turn looks for it.
pub proof fn lemma_program_runs(program: Seq<SpecExpr>, fuel: nat, m: Machine)
    requires
        all_simple(program),
        block_declares_safely(program, Frame::initial()),
        lower_block(program, Frame::initial()).error is None,
        block_code_len(program) <= i32::MAX,
        Frame::initial().cursor + SLOT_SIZE * block_declarations(program) <= u32::MAX,
        execute_block(program, Map::empty(), fuel) is Some,
        m.pc == 0,
    ensures
        ({
            let code = program_code(program);
            let steps = 1 + block_steps_of(program, Frame::initial(), Map::empty(), fuel);
            let after = run(code, m, steps);
            &&& after.pc == code.len()
            &&& represents(
                after,
                lower_block(program, Frame::initial()).frame,
                execute_block(program, Map::empty(), fuel)->0,
                STACK_SIZE,
            )
        }),
{
    let start = Frame::initial();
    let lowered = lower_block(program, start);
    let code = program_code(program);
    let env: Env = Map::empty();
    lemma_stands_both(code, 0, seq![reserve_frame()], lowered.code);
    assert(code[0] == seq![reserve_frame()][0]);
    let m1 = step(code, m);
    lemma_run_one(code, m);
    assert(m1.reg(Reg::StackPointer) == STACK_SIZE);
    let steps = lemma_program_statements_run(program, start, env, fuel, code, m1, STACK_SIZE);
    lemma_run_twice(code, m, 1, steps);
}

} // verus!
