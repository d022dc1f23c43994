use crate::ast::{BinaryOp, SpecExpr, UnaryOp};
use crate::machine::{quotient, remainder, signed, truth, wrap};
use vstd::prelude::*;

verus! {

/// The values of the variables that are defined, in 32-bit words.
pub type Env = Map<Seq<char>, u32>;

/// The value of a binary operator on two words. Numbers are read in two's
/// complement and wrap around; a truth value is the word 0 or 1. Division
/// and remainder by zero have no value, and neither have `&&` and `||` on
/// words that are no truth values.
pub open spec fn operate(op: BinaryOp, a: u32, b: u32) -> Option<u32> {
    match op {
        BinaryOp::Add => Some(wrap(a + b)),
        BinaryOp::Sub => Some(wrap(a - b)),
        BinaryOp::Mul => Some(wrap(a * b)),
        BinaryOp::Div => if b == 0 {
            None
        } else {
            Some(wrap(quotient(signed(a), signed(b))))
        },
        BinaryOp::Mod => if b == 0 {
            None
        } else {
            Some(wrap(remainder(signed(a), signed(b))))
        },
        BinaryOp::And => if a <= 1 && b <= 1 {
            Some(truth(a == 1 && b == 1))
        } else {
            None
        },
        BinaryOp::Or => if a <= 1 && b <= 1 {
            Some(truth(a == 1 || b == 1))
        } else {
            None
        },
        BinaryOp::Eq => Some(truth(a == b)),
        BinaryOp::Neq => Some(truth(a != b)),
        BinaryOp::Lt => Some(truth(signed(a) < signed(b))),
        BinaryOp::Gt => Some(truth(signed(a) > signed(b))),
        BinaryOp::Le => Some(truth(signed(a) <= signed(b))),
        BinaryOp::Ge => Some(truth(signed(a) >= signed(b))),
    }
}

/// The value of a prefix operator on a word: `!` turns a truth value over
/// and has no value on other words; `-` turns every bit of a number over,
/// which makes `-x - 1` of `x`, one less than the negative.
pub open spec fn negate(op: UnaryOp, a: u32) -> Option<u32> {
    match op {
        UnaryOp::Not => if a <= 1 {
            Some(truth(a == 0))
        } else {
            None
        },
        UnaryOp::Neg => Some(wrap(-signed(a) - 1)),
    }
}

/// The value of an expression where the variables have the values `env`:
/// the direct evaluation of the source. A number is its lowest 32 bits. A
/// variable without value, and an operator without value on its operands,
/// leave the expression without value; statements have none.
pub open spec fn evaluate(e: SpecExpr, env: Env) -> Option<u32>
    decreases e,
{
    match e {
        SpecExpr::Number(n) => Some(n as u32),
        SpecExpr::Bool(b) => Some(truth(b)),
        SpecExpr::Var(name) => if env.contains_key(name) {
            Some(env[name])
        } else {
            None
        },
        SpecExpr::Binary { left, op, right } => match evaluate(*left, env) {
            Some(a) => match evaluate(*right, env) {
                Some(b) => operate(op, a, b),
                None => None,
            },
            None => None,
        },
        SpecExpr::Unary { op, expr } => match evaluate(*expr, env) {
            Some(a) => negate(op, a),
            None => None,
        },
        _ => None,
    }
}

/// The variables after a statement has run where they had the values `env`,
/// or `None` if the statement fails or needs more than `fuel` turns of its
/// loops.
///
/// A declaration defines its variable anew, from its initial value on. An
/// assignment needs a defined variable. A conditional runs its first block
/// when the condition is not zero, else its second if it has one. A loop
/// tests its condition before every turn and ends when it is zero. An
/// expression that is no statement is evaluated and leaves the variables as
/// they are.
pub open spec fn execute(e: SpecExpr, env: Env, fuel: nat) -> Option<Env>
    decreases fuel, e,
{
    match e {
        SpecExpr::Let { name, var_type, expr } => match evaluate(*expr, env.remove(name)) {
            Some(value) => Some(env.insert(name, value)),
            None => None,
        },
        SpecExpr::Assign { name, expr } => match evaluate(*expr, env) {
            Some(value) => if env.contains_key(name) {
                Some(env.insert(name, value))
            } else {
                None
            },
            None => None,
        },
        SpecExpr::If { condition, then_branch, else_branch } => match evaluate(*condition, env) {
            Some(test) => if test != 0 {
                execute_block(then_branch, env, fuel)
            } else {
                match else_branch {
                    Some(items) => execute_block(items, env, fuel),
                    None => Some(env),
                }
            },
            None => None,
        },
        SpecExpr::While { condition, body } => match evaluate(*condition, env) {
            Some(test) => if test == 0 {
                Some(env)
            } else if fuel == 0 {
                None
            } else {
                match execute_block(body, env, (fuel - 1) as nat) {
                    Some(next) => execute(e, next, (fuel - 1) as nat),
                    None => None,
                }
            },
            None => None,
        },
        _ => match evaluate(e, env) {
            Some(_) => Some(env),
            None => None,
        },
    }
}

/// The variables after the items of a block have run in order.
pub open spec fn execute_block(items: Seq<SpecExpr>, env: Env, fuel: nat) -> Option<Env>
    decreases fuel, items,
{
    if items.len() == 0 {
        Some(env)
    } else {
        match execute_block(items.drop_last(), env, fuel) {
            Some(before) => execute(items.last(), before, fuel),
            None => None,
        }
    }
}

} // verus!
