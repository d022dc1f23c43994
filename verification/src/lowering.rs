use crate::ast::{block_size, size, BinaryOp, SpecExpr, UnaryOp};
use crate::inst::{Opcode, Reg, SpecInstruction};
use vstd::prelude::*;

verus! {

/// Bytes of stack that the first instruction of every program reserves, and
/// the offset of the first slot that is handed out.
pub const STACK_SIZE: u32 = 32;

/// Bytes of one stack slot.
pub const SLOT_SIZE: u32 = 8;

/// Where the variables live: the offset of each declared name, and the
/// offset that the next declaration gets.
pub struct Frame {
    pub symbols: Map<Seq<char>, u32>,
    pub cursor: nat,
}

impl Frame {
    /// The frame of a program that has declared nothing yet.
    pub open spec fn initial() -> Frame {
        Frame { symbols: Map::empty(), cursor: STACK_SIZE as nat }
    }

    /// The frame after `name` was given the next slot. An earlier slot of the
    /// same name is forgotten.
    pub open spec fn declare(self, name: Seq<char>) -> Frame {
        Frame {
            symbols: self.symbols.insert(name, self.cursor as u32),
            cursor: self.cursor + SLOT_SIZE as nat,
        }
    }

    /// The slots are laid out in order: every slot starts at a whole number
    /// of slots above the first, below the cursor, and two names never share
    /// a slot.
    pub open spec fn well_formed(self) -> bool {
        &&& self.cursor >= STACK_SIZE
        &&& (self.cursor - STACK_SIZE) % (SLOT_SIZE as int) == 0
        &&& forall|name: Seq<char>| #[trigger]
            self.symbols.contains_key(name) ==> {
                &&& STACK_SIZE <= self.symbols[name]
                &&& self.symbols[name] + SLOT_SIZE <= self.cursor
                &&& (self.symbols[name] - STACK_SIZE) % (SLOT_SIZE as int) == 0
            }
        &&& forall|a: Seq<char>, b: Seq<char>|
            #![trigger self.symbols.contains_key(a), self.symbols.contains_key(b)]
            self.symbols.contains_key(a) && self.symbols.contains_key(b) && a != b
                ==> self.symbols[a] != self.symbols[b]
    }

    /// Every name of `self` is a name of `later`.
    pub open spec fn names_kept_by(self, later: Frame) -> bool {
        forall|name: Seq<char>| #[trigger]
            self.symbols.contains_key(name) ==> later.symbols.contains_key(name)
    }
}

/// A declaration keeps the slots in order: the new slot lies above every
/// slot handed out before.
pub proof fn lemma_declare_well_formed(frame: Frame, name: Seq<char>)
    requires
        frame.well_formed(),
        frame.cursor + SLOT_SIZE <= u32::MAX,
    ensures
        frame.declare(name).well_formed(),
        frame.names_kept_by(frame.declare(name)),
        frame.declare(name).symbols[name] == frame.cursor,
{
    let after = frame.declare(name);
    assert forall|n: Seq<char>| #[trigger] after.symbols.contains_key(n) implies {
        &&& STACK_SIZE <= after.symbols[n]
        &&& after.symbols[n] + SLOT_SIZE <= after.cursor
        &&& (after.symbols[n] - STACK_SIZE) % (SLOT_SIZE as int) == 0
    } by {
        if n != name {
            assert(frame.symbols.contains_key(n));
        }
    }
    assert forall|a: Seq<char>, b: Seq<char>|
        #![trigger after.symbols.contains_key(a), after.symbols.contains_key(b)]
        after.symbols.contains_key(a) && after.symbols.contains_key(b) && a != b implies
        after.symbols[a] != after.symbols[b] by {
        if a != name {
            assert(frame.symbols.contains_key(a));
        }
        if b != name {
            assert(frame.symbols.contains_key(b));
        }
    }
}

/// Two names that are declared one after the other, neither of which had a
/// slot, get two slots of eight bytes that do not overlap each other nor any
/// slot handed out before, and the names declared before keep their slots.
pub proof fn lemma_two_declarations(frame: Frame, first: Seq<char>, second: Seq<char>)
    requires
        frame.well_formed(),
        frame.cursor + 2 * SLOT_SIZE <= u32::MAX,
        first != second,
        !frame.symbols.contains_key(first),
        !frame.symbols.contains_key(second),
    ensures
        ({
            let after = frame.declare(first).declare(second);
            &&& after.well_formed()
            &&& after.symbols.contains_key(first) && after.symbols.contains_key(second)
            &&& after.symbols[first] + SLOT_SIZE <= after.symbols[second]
            &&& forall|name: Seq<char>| #[trigger]
                frame.symbols.contains_key(name) ==> {
                    &&& after.symbols.contains_key(name)
                    &&& after.symbols[name] == frame.symbols[name]
                    &&& frame.symbols[name] + SLOT_SIZE <= after.symbols[first]
                }
        }),
{
    lemma_declare_well_formed(frame, first);
    lemma_declare_well_formed(frame.declare(first), second);
}

/// Two different names of a well-formed frame have slots that do not
/// overlap: they start at least one slot apart.
pub proof fn lemma_slots_apart(frame: Frame, a: Seq<char>, b: Seq<char>)
    requires
        frame.well_formed(),
        frame.symbols.contains_key(a),
        frame.symbols.contains_key(b),
        a != b,
    ensures
        frame.symbols[a] + SLOT_SIZE <= frame.symbols[b] || frame.symbols[b] + SLOT_SIZE
            <= frame.symbols[a],
{
    let x = frame.symbols[a] - STACK_SIZE;
    let y = frame.symbols[b] - STACK_SIZE;
    assert(x % 8 == 0 && y % 8 == 0 && x != y);
}

/// Why lowering stopped.
pub enum GenError {
    /// A variable was read or assigned that no `let` had declared.
    VariableNotDeclared(Seq<char>),
    /// The operator has no instruction of the machine.
    UnsupportedOperator(BinaryOp),
}

impl GenError {
    /// The text under which the error is reported.
    pub open spec fn message(self) -> Seq<char> {
        match self {
            GenError::VariableNotDeclared(name) => "Variable "@ + name + " not declared"@,
            GenError::UnsupportedOperator(op) => if op == BinaryOp::Gt {
                "Operator > not supported"@
            } else {
                "Operator <= not supported"@
            },
        }
    }
}

/// What lowering a piece of a program yields: the instructions it appends,
/// the frame it leaves, and the error on which it stopped, if it did.
pub struct Lowered {
    pub code: Seq<SpecInstruction>,
    pub frame: Frame,
    pub error: Option<GenError>,
}

impl Lowered {
    /// Nothing emitted, nothing changed.
    pub open spec fn nothing(frame: Frame) -> Lowered {
        Lowered { code: Seq::empty(), frame, error: None }
    }

    /// `self`, then `next`, which started from the frame that `self` left.
    pub open spec fn chain(self, next: Lowered) -> Lowered {
        Lowered { code: self.code + next.code, frame: next.frame, error: next.error }
    }

    /// `self`, then the instructions `code`.
    pub open spec fn emit(self, code: Seq<SpecInstruction>) -> Lowered {
        Lowered { code: self.code + code, ..self }
    }

    /// `self`, stopped on `error`.
    pub open spec fn fail(self, error: GenError) -> Lowered {
        Lowered { error: Some(error), ..self }
    }
}

/// The primary scratch register: every expression leaves its value here.
pub open spec fn t0() -> Reg {
    Reg::Temp(0)
}

/// The secondary scratch register: it keeps the left operand, or the mask of
/// a prefix operator.
pub open spec fn t1() -> Reg {
    Reg::Temp(1)
}

/// The upper twenty bits of a word.
pub open spec fn upper_part(value: u32) -> u32 {
    value >> 12
}

/// The lower twelve bits of a word.
pub open spec fn lower_part(value: u32) -> u32 {
    value & 0xfff
}

/// The instruction that every program begins with: it reserves the stack
/// frame by setting the stack pointer.
pub open spec fn reserve_frame() -> SpecInstruction {
    SpecInstruction::itype(Opcode::Addi, Reg::StackPointer, Reg::Zero, STACK_SIZE)
}

/// The code of a whole program: the instruction that reserves the frame,
/// then the code of its expressions, lowered in order from the empty frame.
pub open spec fn program_code(program: Seq<SpecExpr>) -> Seq<SpecInstruction> {
    seq![reserve_frame()] + lower_block(program, Frame::initial()).code
}

/// The two parts of a word fit the immediate fields of the two instructions
/// that load it, twenty and twelve bits wide, and together they are the
/// word: the upper part, shifted back by twelve bits, plus the lower part.
pub proof fn lemma_parts_rebuild_word(value: u32)
    ensures
        upper_part(value) < 0x10_0000,
        lower_part(value) < 0x1000,
        (upper_part(value) << 12) + lower_part(value) == value,
        (upper_part(value) << 12) | lower_part(value) == value,
        upper_part(value) * 0x1000 + lower_part(value) == value,
{
    assert(value >> 12 < 0x10_0000) by (bit_vector);
    assert(value & 0xfff < 0x1000) by (bit_vector);
    assert(((value >> 12) << 12) + (value & 0xfff) == value) by (bit_vector);
    assert(((value >> 12) << 12) | (value & 0xfff) == value) by (bit_vector);
    assert((value >> 12) * 0x1000 + (value & 0xfff) == value) by (bit_vector);
}

/// A word is loaded in two halves: the upper part is loaded, then the lower
/// part is added to it.
pub open spec fn load_literal(value: u32, dest: Reg) -> Seq<SpecInstruction> {
    seq![
        SpecInstruction::itype(Opcode::Lui, dest, Reg::Zero, upper_part(value)),
        SpecInstruction::itype(Opcode::Addi, dest, dest, lower_part(value)),
    ]
}

/// A truth value is loaded as 0 or 1.
pub open spec fn load_bool(value: bool, dest: Reg) -> SpecInstruction {
    SpecInstruction::itype(Opcode::Addi, dest, Reg::Zero, if value { 1u32 } else { 0u32 })
}

/// Reading a slot of the stack.
pub open spec fn load_slot(offset: u32, dest: Reg) -> SpecInstruction {
    SpecInstruction::itype(Opcode::Lw, dest, Reg::StackPointer, offset)
}

/// Writing a slot of the stack.
pub open spec fn store_slot(offset: u32, src: Reg) -> SpecInstruction {
    SpecInstruction::stype(Opcode::Sw, Reg::StackPointer, src, offset)
}

/// The copy that saves the left operand while the right one is computed.
pub open spec fn spill() -> SpecInstruction {
    SpecInstruction::itype(Opcode::Addi, t1(), t0(), 0)
}

/// The instruction of a binary operator, for those that have one.
pub open spec fn binary_opcode(op: BinaryOp) -> Option<Opcode> {
    match op {
        BinaryOp::Add => Some(Opcode::Add),
        BinaryOp::Sub => Some(Opcode::Sub),
        BinaryOp::Mul => Some(Opcode::Mul),
        BinaryOp::Div => Some(Opcode::Div),
        BinaryOp::Mod => Some(Opcode::Rem),
        BinaryOp::And => Some(Opcode::And),
        BinaryOp::Or => Some(Opcode::Or),
        BinaryOp::Eq => Some(Opcode::SetEq),
        BinaryOp::Neq => Some(Opcode::Sne),
        BinaryOp::Lt => Some(Opcode::Slt),
        BinaryOp::Ge => Some(Opcode::Sge),
        BinaryOp::Gt => None,
        BinaryOp::Le => None,
    }
}

/// The word that a prefix operator combines with its operand by exclusive
/// or: 1 for `!`, all ones for `-`.
pub open spec fn unary_mask(op: UnaryOp) -> u32 {
    match op {
        UnaryOp::Not => 1,
        UnaryOp::Neg => 0xffff_ffff,
    }
}

/// The branch that leaves when the primary scratch register holds zero,
/// `delta` instructions away from itself.
pub open spec fn branch_if_zero(delta: int) -> SpecInstruction {
    SpecInstruction::itype(Opcode::Beq, t0(), Reg::Zero, 0).with_offset(delta as i32)
}

/// The jump to the instruction `delta` instructions away from itself.
pub open spec fn jump(delta: int) -> SpecInstruction {
    SpecInstruction::jtype(Opcode::Jal, 0).with_offset(delta as i32)
}

/// The store that ends an assignment or a declaration of `name`, or the error
/// if `name` has no slot.
pub open spec fn store_variable(name: Seq<char>, value: Lowered) -> Lowered {
    if value.frame.symbols.contains_key(name) {
        value.emit(seq![store_slot(value.frame.symbols[name], t0())])
    } else {
        value.fail(GenError::VariableNotDeclared(name))
    }
}

/// An assignment or a declaration of `name`, once its value is lowered: the
/// store follows unless the value stopped on an error.
pub open spec fn store_after(name: Seq<char>, value: Lowered) -> Lowered {
    if value.error is Some {
        value
    } else {
        store_variable(name, value)
    }
}

/// The instructions for one expression, lowered in a frame.
///
/// Every expression leaves its value in the primary scratch register. Branch
/// and jump offsets count instructions from the branch or jump itself. When
/// an error stops the lowering, what was emitted until then stays, with the
/// offsets of the enclosing branches and jumps still zero.
pub open spec fn lower(e: SpecExpr, frame: Frame) -> Lowered
    decreases e,
{
    match e {
        SpecExpr::Number(n) => Lowered::nothing(frame).emit(load_literal(n as u32, t0())),
        SpecExpr::Bool(b) => Lowered::nothing(frame).emit(seq![load_bool(b, t0())]),
        SpecExpr::Var(name) => if frame.symbols.contains_key(name) {
            Lowered::nothing(frame).emit(seq![load_slot(frame.symbols[name], t0())])
        } else {
            Lowered::nothing(frame).fail(GenError::VariableNotDeclared(name))
        },
        SpecExpr::Assign { name, expr } => store_after(name, lower(*expr, frame)),
        SpecExpr::Let { name, var_type, expr } => store_after(
            name,
            lower(*expr, frame.declare(name)),
        ),
        SpecExpr::Binary { left, op, right } => {
            let l = lower(*left, frame);
            if l.error is Some {
                l
            } else {
                let r = l.emit(seq![spill()]).chain(lower(*right, l.frame));
                if r.error is Some {
                    r
                } else {
                    match binary_opcode(op) {
                        Some(opcode) => r.emit(
                            seq![SpecInstruction::rtype(opcode, t0(), t1(), t0())],
                        ),
                        None => r.fail(GenError::UnsupportedOperator(op)),
                    }
                }
            }
        },
        SpecExpr::Unary { op, expr } => {
            let operand = lower(*expr, frame);
            if operand.error is Some {
                operand
            } else {
                operand.emit(load_literal(unary_mask(op), t1())).emit(
                    seq![SpecInstruction::rtype(Opcode::Xor, t0(), t1(), t0())],
                )
            }
        },
        SpecExpr::If { condition, then_branch, else_branch } => {
            let c = lower(*condition, frame);
            if c.error is Some {
                c
            } else {
                let t = lower_block(then_branch, c.frame);
                if t.error is Some {
                    c.emit(seq![branch_if_zero(0)]).chain(t)
                } else {
                    match else_branch {
                        None => c.emit(seq![branch_if_zero(t.code.len() as int + 1)]).chain(t),
                        Some(items) => {
                            let skip_then = c.emit(
                                seq![branch_if_zero(t.code.len() as int + 2)],
                            ).chain(t);
                            let f = lower_block(items, t.frame);
                            if f.error is Some {
                                skip_then.emit(seq![jump(0)]).chain(f)
                            } else {
                                skip_then.emit(seq![jump(f.code.len() as int + 1)]).chain(f)
                            }
                        },
                    }
                }
            }
        },
        SpecExpr::While { condition, body } => {
            let c = lower(*condition, frame);
            if c.error is Some {
                c
            } else {
                let b = lower_block(body, c.frame);
                if b.error is Some {
                    c.emit(seq![branch_if_zero(0)]).chain(b)
                } else {
                    c.emit(seq![branch_if_zero(b.code.len() as int + 2)]).chain(b).emit(
                        seq![jump(-(c.code.len() + b.code.len() + 1))],
                    )
                }
            }
        },
    }
}

/// The instructions for the items of a block, lowered one after the other,
/// each in the frame that the one before it left.
pub open spec fn lower_block(items: Seq<SpecExpr>, frame: Frame) -> Lowered
    decreases items,
{
    if items.len() == 0 {
        Lowered::nothing(frame)
    } else {
        let before = lower_block(items.drop_last(), frame);
        if before.error is Some {
            before
        } else {
            before.chain(lower(items.last(), before.frame))
        }
    }
}

/// How many instructions an expression lowers to when no error stops it.
pub open spec fn code_len(e: SpecExpr) -> nat
    decreases e,
{
    match e {
        SpecExpr::Number(_) => 2,
        SpecExpr::Bool(_) => 1,
        SpecExpr::Var(_) => 1,
        SpecExpr::Assign { name, expr } => code_len(*expr) + 1,
        SpecExpr::Let { name, var_type, expr } => code_len(*expr) + 1,
        SpecExpr::Binary { left, op, right } => code_len(*left) + code_len(*right) + 2,
        SpecExpr::Unary { op, expr } => code_len(*expr) + 3,
        SpecExpr::If { condition, then_branch, else_branch } => code_len(*condition) + 1
            + block_code_len(then_branch) + match else_branch {
            Some(items) => 1 + block_code_len(items),
            None => 0,
        },
        SpecExpr::While { condition, body } => code_len(*condition) + block_code_len(body) + 2,
    }
}

/// [`code_len`], summed over the items of a block.
pub open spec fn block_code_len(items: Seq<SpecExpr>) -> nat
    decreases items,
{
    if items.len() == 0 {
        0
    } else {
        block_code_len(items.drop_last()) + code_len(items.last())
    }
}

/// How many `let` an expression holds.
pub open spec fn declarations(e: SpecExpr) -> nat
    decreases e,
{
    match e {
        SpecExpr::Number(_) => 0,
        SpecExpr::Bool(_) => 0,
        SpecExpr::Var(_) => 0,
        SpecExpr::Assign { name, expr } => declarations(*expr),
        SpecExpr::Let { name, var_type, expr } => declarations(*expr) + 1,
        SpecExpr::Binary { left, op, right } => declarations(*left) + declarations(*right),
        SpecExpr::Unary { op, expr } => declarations(*expr),
        SpecExpr::If { condition, then_branch, else_branch } => declarations(*condition)
            + block_declarations(then_branch) + match else_branch {
            Some(items) => block_declarations(items),
            None => 0,
        },
        SpecExpr::While { condition, body } => declarations(*condition) + block_declarations(body),
    }
}

/// [`declarations`], summed over the items of a block.
pub open spec fn block_declarations(items: Seq<SpecExpr>) -> nat
    decreases items,
{
    if items.len() == 0 {
        0
    } else {
        block_declarations(items.drop_last()) + declarations(items.last())
    }
}

/// The code is linear in the program: an expression lowers to at most three
/// instructions for each of its nodes. Loops are lowered once, like
/// everything else; nothing is emitted per iteration.
pub proof fn lemma_code_is_linear(e: SpecExpr)
    ensures
        code_len(e) <= 3 * size(e),
    decreases e,
{
    match e {
        SpecExpr::Number(_) => {},
        SpecExpr::Bool(_) => {},
        SpecExpr::Var(_) => {},
        SpecExpr::Assign { name, expr } => {
            lemma_code_is_linear(*expr);
        },
        SpecExpr::Let { name, var_type, expr } => {
            lemma_code_is_linear(*expr);
        },
        SpecExpr::Binary { left, op, right } => {
            lemma_code_is_linear(*left);
            lemma_code_is_linear(*right);
        },
        SpecExpr::Unary { op, expr } => {
            lemma_code_is_linear(*expr);
        },
        SpecExpr::If { condition, then_branch, else_branch } => {
            lemma_code_is_linear(*condition);
            lemma_block_code_is_linear(then_branch);
            match else_branch {
                Some(items) => {
                    lemma_block_code_is_linear(items);
                },
                None => {},
            }
        },
        SpecExpr::While { condition, body } => {
            lemma_code_is_linear(*condition);
            lemma_block_code_is_linear(body);
        },
    }
}

/// [`lemma_code_is_linear`], for a block.
pub proof fn lemma_block_code_is_linear(items: Seq<SpecExpr>)
    ensures
        block_code_len(items) <= 3 * block_size(items),
    decreases items,
{
    if items.len() > 0 {
        lemma_block_code_is_linear(items.drop_last());
        lemma_code_is_linear(items.last());
    }
}

/// Lowering emits at most [`code_len`] instructions, exactly that many when
/// no error stops it, and moves the cursor up by at most one slot for each
/// `let`.
pub proof fn lemma_lower_bounds(e: SpecExpr, frame: Frame)
    ensures
        lower(e, frame).code.len() <= code_len(e),
        lower(e, frame).error is None ==> lower(e, frame).code.len() == code_len(e),
        frame.cursor <= lower(e, frame).frame.cursor <= frame.cursor + SLOT_SIZE * declarations(e),
    decreases e,
{
    match e {
        SpecExpr::Number(_) => {},
        SpecExpr::Bool(_) => {},
        SpecExpr::Var(_) => {},
        SpecExpr::Assign { name, expr } => {
            lemma_lower_bounds(*expr, frame);
        },
        SpecExpr::Let { name, var_type, expr } => {
            lemma_lower_bounds(*expr, frame.declare(name));
        },
        SpecExpr::Binary { left, op, right } => {
            lemma_lower_bounds(*left, frame);
            lemma_lower_bounds(*right, lower(*left, frame).frame);
        },
        SpecExpr::Unary { op, expr } => {
            lemma_lower_bounds(*expr, frame);
        },
        SpecExpr::If { condition, then_branch, else_branch } => {
            lemma_lower_bounds(*condition, frame);
            let c = lower(*condition, frame);
            lemma_lower_block_bounds(then_branch, c.frame);
            match else_branch {
                Some(items) => {
                    lemma_lower_block_bounds(items, lower_block(then_branch, c.frame).frame);
                },
                None => {},
            }
        },
        SpecExpr::While { condition, body } => {
            lemma_lower_bounds(*condition, frame);
            lemma_lower_block_bounds(body, lower(*condition, frame).frame);
        },
    }
}

/// [`lemma_lower_bounds`], for a block.
pub proof fn lemma_lower_block_bounds(items: Seq<SpecExpr>, frame: Frame)
    ensures
        lower_block(items, frame).code.len() <= block_code_len(items),
        lower_block(items, frame).error is None ==> lower_block(items, frame).code.len()
            == block_code_len(items),
        frame.cursor <= lower_block(items, frame).frame.cursor <= frame.cursor + SLOT_SIZE
            * block_declarations(items),
    decreases items,
{
    if items.len() > 0 {
        lemma_lower_block_bounds(items.drop_last(), frame);
        lemma_lower_bounds(items.last(), lower_block(items.drop_last(), frame).frame);
    }
}

/// Lowering keeps the slots in order and forgets no name, as long as the
/// cursor stays within 32 bits.
pub proof fn lemma_lower_keeps_frame(e: SpecExpr, frame: Frame)
    requires
        frame.well_formed(),
        frame.cursor + SLOT_SIZE * declarations(e) <= u32::MAX,
    ensures
        lower(e, frame).frame.well_formed(),
        frame.names_kept_by(lower(e, frame).frame),
    decreases e,
{
    lemma_lower_bounds(e, frame);
    match e {
        SpecExpr::Number(_) => {},
        SpecExpr::Bool(_) => {},
        SpecExpr::Var(_) => {},
        SpecExpr::Assign { name, expr } => {
            lemma_lower_keeps_frame(*expr, frame);
        },
        SpecExpr::Let { name, var_type, expr } => {
            lemma_declare_well_formed(frame, name);
            lemma_lower_keeps_frame(*expr, frame.declare(name));
        },
        SpecExpr::Binary { left, op, right } => {
            lemma_lower_keeps_frame(*left, frame);
            lemma_lower_bounds(*left, frame);
            if lower(*left, frame).error is None {
                lemma_lower_keeps_frame(*right, lower(*left, frame).frame);
            }
        },
        SpecExpr::Unary { op, expr } => {
            lemma_lower_keeps_frame(*expr, frame);
        },
        SpecExpr::If { condition, then_branch, else_branch } => {
            lemma_lower_keeps_frame(*condition, frame);
            lemma_lower_bounds(*condition, frame);
            let c = lower(*condition, frame);
            if c.error is None {
                lemma_lower_block_keeps_frame(then_branch, c.frame);
                lemma_lower_block_bounds(then_branch, c.frame);
                let t = lower_block(then_branch, c.frame);
                match else_branch {
                    Some(items) => {
                        if t.error is None {
                            lemma_lower_block_keeps_frame(items, t.frame);
                        }
                    },
                    None => {},
                }
            }
        },
        SpecExpr::While { condition, body } => {
            lemma_lower_keeps_frame(*condition, frame);
            lemma_lower_bounds(*condition, frame);
            let c = lower(*condition, frame);
            if c.error is None {
                lemma_lower_block_keeps_frame(body, c.frame);
            }
        },
    }
}

/// [`lemma_lower_keeps_frame`], for a block.
pub proof fn lemma_lower_block_keeps_frame(items: Seq<SpecExpr>, frame: Frame)
    requires
        frame.well_formed(),
        frame.cursor + SLOT_SIZE * block_declarations(items) <= u32::MAX,
    ensures
        lower_block(items, frame).frame.well_formed(),
        frame.names_kept_by(lower_block(items, frame).frame),
    decreases items,
{
    if items.len() > 0 {
        lemma_lower_block_keeps_frame(items.drop_last(), frame);
        lemma_lower_block_bounds(items.drop_last(), frame);
        let before = lower_block(items.drop_last(), frame);
        if before.error is None {
            lemma_lower_keeps_frame(items.last(), before.frame);
        }
    }
}

/// Every instruction of the sequence is well formed and can be written as
/// text.
pub open spec fn all_writable(code: Seq<SpecInstruction>) -> bool {
    forall|i: int|
        0 <= i < code.len() ==> (#[trigger] code[i]).well_formed() && code[i].renderable()
}

/// Two sequences of instructions that can be written make one that can.
pub proof fn lemma_writable_both(first: Seq<SpecInstruction>, second: Seq<SpecInstruction>)
    requires
        all_writable(first),
        all_writable(second),
    ensures
        all_writable(first + second),
{
    let both = first + second;
    assert forall|i: int| 0 <= i < both.len() implies (#[trigger] both[i]).well_formed()
        && both[i].renderable() by {
        if i < first.len() {
            assert(both[i] == first[i]);
        } else {
            assert(both[i] == second[i - first.len()]);
        }
    }
}

/// Lowering emits only instructions that are well formed and that name
/// implemented registers: whatever is generated can be written as text.
pub proof fn lemma_lowered_is_writable(e: SpecExpr, frame: Frame)
    ensures
        all_writable(lower(e, frame).code),
    decreases e,
{
    match e {
        SpecExpr::Number(n) => {
            assert(lower(e, frame).code =~= load_literal(n as u32, t0()));
        },
        SpecExpr::Bool(b) => {
            assert(lower(e, frame).code =~= seq![load_bool(b, t0())]);
        },
        SpecExpr::Var(name) => {
            if frame.symbols.contains_key(name) {
                assert(lower(e, frame).code =~= seq![load_slot(frame.symbols[name], t0())]);
            }
        },
        SpecExpr::Assign { name, expr } => {
            lemma_lowered_is_writable(*expr, frame);
            let value = lower(*expr, frame);
            if value.error is None && value.frame.symbols.contains_key(name) {
                lemma_writable_both(value.code, seq![store_slot(value.frame.symbols[name], t0())]);
            }
        },
        SpecExpr::Let { name, var_type, expr } => {
            lemma_lowered_is_writable(*expr, frame.declare(name));
            let value = lower(*expr, frame.declare(name));
            if value.error is None && value.frame.symbols.contains_key(name) {
                lemma_writable_both(value.code, seq![store_slot(value.frame.symbols[name], t0())]);
            }
        },
        SpecExpr::Binary { left, op, right } => {
            lemma_lowered_is_writable(*left, frame);
            let l = lower(*left, frame);
            if l.error is None {
                lemma_lowered_is_writable(*right, l.frame);
                let r = lower(*right, l.frame);
                lemma_writable_both(l.code, seq![spill()]);
                lemma_writable_both(l.code + seq![spill()], r.code);
                match binary_opcode(op) {
                    Some(opcode) => {
                        lemma_writable_both(
                            l.code + seq![spill()] + r.code,
                            seq![SpecInstruction::rtype(opcode, t0(), t1(), t0())],
                        );
                    },
                    None => {},
                }
            }
        },
        SpecExpr::Unary { op, expr } => {
            lemma_lowered_is_writable(*expr, frame);
            let operand = lower(*expr, frame);
            if operand.error is None {
                lemma_writable_both(operand.code, load_literal(unary_mask(op), t1()));
                lemma_writable_both(
                    operand.code + load_literal(unary_mask(op), t1()),
                    seq![SpecInstruction::rtype(Opcode::Xor, t0(), t1(), t0())],
                );
            }
        },
        SpecExpr::If { condition, then_branch, else_branch } => {
            lemma_lowered_is_writable(*condition, frame);
            let c = lower(*condition, frame);
            if c.error is None {
                lemma_lowered_block_is_writable(then_branch, c.frame);
                let t = lower_block(then_branch, c.frame);
                let delta: int = if t.error is Some {
                    0
                } else if else_branch is Some {
                    t.code.len() as int + 2
                } else {
                    t.code.len() as int + 1
                };
                lemma_writable_both(c.code, seq![branch_if_zero(delta)]);
                lemma_writable_both(c.code + seq![branch_if_zero(delta)], t.code);
                match else_branch {
                    Some(items) => {
                        if t.error is None {
                            lemma_lowered_block_is_writable(items, t.frame);
                            let f = lower_block(items, t.frame);
                            let skip: int = if f.error is Some {
                                0
                            } else {
                                f.code.len() as int + 1
                            };
                            let head = c.code + seq![branch_if_zero(delta)] + t.code;
                            lemma_writable_both(head, seq![jump(skip)]);
                            lemma_writable_both(head + seq![jump(skip)], f.code);
                        }
                    },
                    None => {},
                }
            }
        },
        SpecExpr::While { condition, body } => {
            lemma_lowered_is_writable(*condition, frame);
            let c = lower(*condition, frame);
            if c.error is None {
                lemma_lowered_block_is_writable(body, c.frame);
                let b = lower_block(body, c.frame);
                let delta: int = if b.error is Some {
                    0
                } else {
                    b.code.len() as int + 2
                };
                lemma_writable_both(c.code, seq![branch_if_zero(delta)]);
                lemma_writable_both(c.code + seq![branch_if_zero(delta)], b.code);
                if b.error is None {
                    lemma_writable_both(
                        c.code + seq![branch_if_zero(delta)] + b.code,
                        seq![jump(-(c.code.len() + b.code.len() + 1))],
                    );
                }
            }
        },
    }
}

/// [`lemma_lowered_is_writable`], for a block.
pub proof fn lemma_lowered_block_is_writable(items: Seq<SpecExpr>, frame: Frame)
    ensures
        all_writable(lower_block(items, frame).code),
    decreases items,
{
    if items.len() > 0 {
        lemma_lowered_block_is_writable(items.drop_last(), frame);
        let before = lower_block(items.drop_last(), frame);
        if before.error is None {
            lemma_lowered_is_writable(items.last(), before.frame);
            lemma_writable_both(before.code, lower(items.last(), before.frame).code);
        }
    }
}

/// What a walk over an expression finds when it looks at names alone: the
/// first error in the order of lowering, and the names declared by then.
pub struct Walk {
    pub error: Option<GenError>,
    pub declared: Set<Seq<char>>,
}

/// A use of `name`, read or assigned, where the names `walk.declared` are
/// declared.
pub open spec fn use_name(name: Seq<char>, walk: Walk) -> Walk {
    if walk.error is Some || walk.declared.contains(name) {
        walk
    } else {
        Walk { error: Some(GenError::VariableNotDeclared(name)), ..walk }
    }
}

/// The first error that lowering `e` meets when the names `declared` have
/// slots: a variable that is read or assigned before any `let` declared it,
/// or one of the operators without instruction, whichever lowering reaches
/// first. A declaration counts from its own initial value on, and the
/// operands of an operator come before the operator.
pub open spec fn walk(e: SpecExpr, declared: Set<Seq<char>>) -> Walk
    decreases e,
{
    match e {
        SpecExpr::Number(_) => Walk { error: None, declared },
        SpecExpr::Bool(_) => Walk { error: None, declared },
        SpecExpr::Var(name) => use_name(name, Walk { error: None, declared }),
        SpecExpr::Assign { name, expr } => use_name(name, walk(*expr, declared)),
        SpecExpr::Let { name, var_type, expr } => use_name(
            name,
            walk(*expr, declared.insert(name)),
        ),
        SpecExpr::Binary { left, op, right } => {
            let l = walk(*left, declared);
            if l.error is Some {
                l
            } else {
                let r = walk(*right, l.declared);
                if r.error is None && binary_opcode(op) is None {
                    Walk { error: Some(GenError::UnsupportedOperator(op)), ..r }
                } else {
                    r
                }
            }
        },
        SpecExpr::Unary { op, expr } => walk(*expr, declared),
        SpecExpr::If { condition, then_branch, else_branch } => {
            let c = walk(*condition, declared);
            if c.error is Some {
                c
            } else {
                let t = walk_block(then_branch, c.declared);
                match else_branch {
                    Some(items) => if t.error is Some {
                        t
                    } else {
                        walk_block(items, t.declared)
                    },
                    None => t,
                }
            }
        },
        SpecExpr::While { condition, body } => {
            let c = walk(*condition, declared);
            if c.error is Some {
                c
            } else {
                walk_block(body, c.declared)
            }
        },
    }
}

/// [`walk`], over the items of a block in order.
pub open spec fn walk_block(items: Seq<SpecExpr>, declared: Set<Seq<char>>) -> Walk
    decreases items,
{
    if items.len() == 0 {
        Walk { error: None, declared }
    } else {
        let before = walk_block(items.drop_last(), declared);
        if before.error is Some {
            before
        } else {
            walk(items.last(), before.declared)
        }
    }
}

/// Lowering fails exactly where the walk over the names finds an error, and
/// with that error: a program that uses a variable before declaring it is
/// refused with the error that names the variable, whatever its slots are.
pub proof fn lemma_lower_fails_as_walk(e: SpecExpr, frame: Frame)
    ensures
        lower(e, frame).error == walk(e, frame.symbols.dom()).error,
        lower(e, frame).frame.symbols.dom() == walk(e, frame.symbols.dom()).declared,
    decreases e,
{
    let declared = frame.symbols.dom();
    match e {
        SpecExpr::Number(_) => {},
        SpecExpr::Bool(_) => {},
        SpecExpr::Var(_) => {},
        SpecExpr::Assign { name, expr } => {
            lemma_lower_fails_as_walk(*expr, frame);
        },
        SpecExpr::Let { name, var_type, expr } => {
            assert(frame.declare(name).symbols.dom() =~= declared.insert(name));
            lemma_lower_fails_as_walk(*expr, frame.declare(name));
        },
        SpecExpr::Binary { left, op, right } => {
            lemma_lower_fails_as_walk(*left, frame);
            lemma_lower_fails_as_walk(*right, lower(*left, frame).frame);
        },
        SpecExpr::Unary { op, expr } => {
            lemma_lower_fails_as_walk(*expr, frame);
        },
        SpecExpr::If { condition, then_branch, else_branch } => {
            lemma_lower_fails_as_walk(*condition, frame);
            let c = lower(*condition, frame);
            lemma_lower_block_fails_as_walk(then_branch, c.frame);
            match else_branch {
                Some(items) => {
                    lemma_lower_block_fails_as_walk(items, lower_block(then_branch, c.frame).frame);
                },
                None => {},
            }
        },
        SpecExpr::While { condition, body } => {
            lemma_lower_fails_as_walk(*condition, frame);
            lemma_lower_block_fails_as_walk(body, lower(*condition, frame).frame);
        },
    }
}

/// [`lemma_lower_fails_as_walk`], for a block.
pub proof fn lemma_lower_block_fails_as_walk(items: Seq<SpecExpr>, frame: Frame)
    ensures
        lower_block(items, frame).error == walk_block(items, frame.symbols.dom()).error,
        lower_block(items, frame).frame.symbols.dom() == walk_block(
            items,
            frame.symbols.dom(),
        ).declared,
    decreases items,
{
    if items.len() > 0 {
        lemma_lower_block_fails_as_walk(items.drop_last(), frame);
        lemma_lower_fails_as_walk(items.last(), lower_block(items.drop_last(), frame).frame);
    }
}

/// The measures of a block's first `n` items are at most those of the block.
pub proof fn lemma_block_measures_prefix(items: Seq<SpecExpr>, n: int)
    requires
        0 <= n <= items.len(),
    ensures
        block_code_len(items.take(n)) <= block_code_len(items),
        block_declarations(items.take(n)) <= block_declarations(items),
        n > 0 ==> code_len(items[n - 1]) <= block_code_len(items.take(n)),
        n > 0 ==> block_code_len(items.take(n - 1)) <= block_code_len(items.take(n)),
        n > 0 ==> block_declarations(items.take(n - 1)) + declarations(items[n - 1])
            == block_declarations(items.take(n)),
    decreases items.len(),
{
    if n > 0 {
        assert(items.take(n).drop_last() =~= items.take(n - 1));
    }
    if n < items.len() {
        assert(items.drop_last().take(n) =~= items.take(n));
        lemma_block_measures_prefix(items.drop_last(), n);
    } else {
        assert(items.take(n) =~= items);
    }
}

/// A block that stops on an error within its first `n` items stops there
/// whatever follows.
pub proof fn lemma_lower_block_stops(items: Seq<SpecExpr>, n: int, frame: Frame)
    requires
        0 <= n <= items.len(),
        lower_block(items.take(n), frame).error is Some,
    ensures
        lower_block(items, frame) == lower_block(items.take(n), frame),
    decreases items.len(),
{
    if n < items.len() {
        assert(items.drop_last().take(n) =~= items.take(n));
        lemma_lower_block_stops(items.drop_last(), n, frame);
    } else {
        assert(items.take(n) =~= items);
    }
}

} // verus!
