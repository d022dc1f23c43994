use crate::ast::{
    block_size, if_model, lemma_item_size, size, while_model, BinaryOp, Expr, SpecExpr, UnaryOp,
    VarType,
};
use crate::grammar::{
    advanced, binary_op_at, levels, parse_binary, parse_binary_rest, parse_block, parse_block_rest,
    parse_expr, parse_if, parse_items, parse_let, parse_primary, parse_program, parse_unary,
    parse_while, peek, unary_op_of, var_type_of, Parsed, ParseError,
};
use crate::lexer::{SpecToken, Token};
use crate::pieces::{lemma_stands_both, stands_at};
use vstd::prelude::*;

verus! {

/// The token that writes a binary operator.
pub open spec fn op_token(op: BinaryOp) -> SpecToken {
    match op {
        BinaryOp::Add => SpecToken::OpAdd,
        BinaryOp::Sub => SpecToken::OpSub,
        BinaryOp::Mul => SpecToken::OpMul,
        BinaryOp::Div => SpecToken::OpDiv,
        BinaryOp::Mod => SpecToken::OpMod,
        BinaryOp::And => SpecToken::OpAnd,
        BinaryOp::Or => SpecToken::OpOr,
        BinaryOp::Eq => SpecToken::OpEq,
        BinaryOp::Neq => SpecToken::OpNeq,
        BinaryOp::Lt => SpecToken::OpLt,
        BinaryOp::Gt => SpecToken::OpGt,
        BinaryOp::Le => SpecToken::OpLe,
        BinaryOp::Ge => SpecToken::OpGe,
    }
}

/// The precedence level of a binary operator.
pub open spec fn level_of(op: BinaryOp) -> nat {
    match op {
        BinaryOp::Or => 0,
        BinaryOp::And => 1,
        BinaryOp::Eq => 2,
        BinaryOp::Neq => 2,
        BinaryOp::Lt => 3,
        BinaryOp::Gt => 3,
        BinaryOp::Le => 3,
        BinaryOp::Ge => 3,
        BinaryOp::Add => 4,
        BinaryOp::Sub => 4,
        BinaryOp::Mul => 5,
        BinaryOp::Div => 5,
        BinaryOp::Mod => 5,
    }
}

/// The token that writes a prefix operator.
pub open spec fn unary_token(op: UnaryOp) -> SpecToken {
    match op {
        UnaryOp::Not => SpecToken::OpNot,
        UnaryOp::Neg => SpecToken::OpSub,
    }
}

/// The token that names a type.
pub open spec fn type_token(var_type: VarType) -> SpecToken {
    match var_type {
        VarType::Number => SpecToken::TypeNumber,
        VarType::Bool => SpecToken::TypeBool,
    }
}

/// A literal or a variable: what one token writes.
pub open spec fn is_atom(e: SpecExpr) -> bool {
    e is Number || e is Bool || e is Var
}

/// A declaration, an assignment, a conditional or a loop: what a keyword or
/// a name followed by `=` begins, and what ends in `;` or `}`.
pub open spec fn is_statement(e: SpecExpr) -> bool {
    e is Let || e is Assign || e is If || e is While
}

/// `tokens` between parentheses.
pub open spec fn parenthesized(tokens: Seq<SpecToken>) -> Seq<SpecToken> {
    seq![SpecToken::LParen] + tokens + seq![SpecToken::RParen]
}

/// The tokens of `e` as an operand: in parentheses unless `e` is an atom.
pub open spec fn as_operand(e: SpecExpr, tokens: Seq<SpecToken>) -> Seq<SpecToken> {
    if is_atom(e) {
        tokens
    } else {
        parenthesized(tokens)
    }
}

/// The tokens of `e` as an item of a block or of a program: in parentheses
/// unless `e` is a statement.
pub open spec fn as_item(e: SpecExpr, tokens: Seq<SpecToken>) -> Seq<SpecToken> {
    if is_statement(e) {
        tokens
    } else {
        parenthesized(tokens)
    }
}

/// The tokens that write an expression. Operands stand in parentheses
/// unless they are atoms, so the tree can be read off whatever the
/// precedence of its operators.
pub open spec fn unparse(e: SpecExpr) -> Seq<SpecToken>
    decreases e,
{
    match e {
        SpecExpr::Number(n) => seq![SpecToken::LitNumber(n)],
        SpecExpr::Bool(b) => seq![SpecToken::LitBool(b)],
        SpecExpr::Var(name) => seq![SpecToken::Identifier(name)],
        SpecExpr::Binary { left, op, right } => as_operand(*left, unparse(*left)) + seq![
            op_token(op),
        ] + as_operand(*right, unparse(*right)),
        SpecExpr::Unary { op, expr } => seq![unary_token(op)] + as_operand(*expr, unparse(*expr)),
        SpecExpr::Let { name, var_type, expr } => seq![
            SpecToken::KwLet,
            SpecToken::Identifier(name),
            SpecToken::Colon,
            type_token(var_type),
            SpecToken::Assign,
        ] + unparse(*expr) + seq![SpecToken::Semicolon],
        SpecExpr::Assign { name, expr } => seq![SpecToken::Identifier(name), SpecToken::Assign]
            + unparse(*expr) + seq![SpecToken::Semicolon],
        SpecExpr::If { condition, then_branch, else_branch } => seq![SpecToken::KwIf] + unparse(
            *condition,
        ) + seq![SpecToken::LBrace] + unparse_items(then_branch) + seq![SpecToken::RBrace]
            + match else_branch {
            Some(items) => seq![SpecToken::KwElse, SpecToken::LBrace] + unparse_items(items)
                + seq![SpecToken::RBrace],
            None => Seq::empty(),
        },
        SpecExpr::While { condition, body } => seq![SpecToken::KwWhile] + unparse(*condition)
            + seq![SpecToken::LBrace] + unparse_items(body) + seq![SpecToken::RBrace],
    }
}

/// The tokens that write the items of a block or of a program, one after
/// the other.
pub open spec fn unparse_items(items: Seq<SpecExpr>) -> Seq<SpecToken>
    decreases items,
{
    if items.len() == 0 {
        Seq::empty()
    } else {
        as_item(items.first(), unparse(items.first())) + unparse_items(items.drop_first())
    }
}

/// A token that writes a binary operator.
pub open spec fn is_binary_token(token: SpecToken) -> bool {
    match token {
        SpecToken::OpOr => true,
        SpecToken::OpAnd => true,
        SpecToken::OpEq => true,
        SpecToken::OpNeq => true,
        SpecToken::OpLt => true,
        SpecToken::OpGt => true,
        SpecToken::OpLe => true,
        SpecToken::OpGe => true,
        SpecToken::OpAdd => true,
        SpecToken::OpSub => true,
        SpecToken::OpMul => true,
        SpecToken::OpDiv => true,
        SpecToken::OpMod => true,
        _ => false,
    }
}

/// What may stand after the tokens of an expression without being read as
/// a part of it: the end of the input, or a token that is no binary
/// operator, no `=` and no `else`.
pub open spec fn may_follow(next: Option<SpecToken>) -> bool {
    match next {
        None => true,
        Some(token) => !is_binary_token(token) && token != SpecToken::Assign && token
            != SpecToken::KwElse,
    }
}

/// The expression `e`, read up to the position `next`.
pub open spec fn read(e: SpecExpr, next: int) -> Parsed<SpecExpr> {
    Ok((e, next))
}

/// The block `items`, read up to the position `next`.
pub open spec fn read_block(items: Seq<SpecExpr>, next: int) -> Parsed<Seq<SpecExpr>> {
    Ok((items, next))
}

/// Where a piece stands, each of its tokens is the next token at its place.
pub proof fn lemma_has_at_token(ts: Seq<SpecToken>, pos: int, piece: Seq<SpecToken>, i: int)
    requires
        stands_at(ts, pos, piece),
        0 <= i < piece.len(),
    ensures
        peek(ts, pos + i) == Some(piece[i]),
{
    assert(ts[pos + i] == piece[i]);
}

/// An operator is read at its own level and at no other.
pub proof fn lemma_op_level(op: BinaryOp, level: nat)
    ensures
        binary_op_at(level, op_token(op)) == if level == level_of(op) {
            Some(op)
        } else {
            None
        },
        level_of(op) < levels(),
{
}

/// A token that writes no binary operator is read as none at any level.
pub proof fn lemma_no_op(token: SpecToken, level: nat)
    requires
        !is_binary_token(token),
    ensures
        binary_op_at(level, token) is None,
{
}

/// What a prefix expression reads is what every chain reads that finds no
/// operator of its level, or of a tighter one, after it.
pub proof fn lemma_climb(ts: Seq<SpecToken>, pos: int, e: SpecExpr, next: int, level: nat)
    requires
        parse_unary(ts, pos) == read(e, next),
        advanced(ts, pos, next),
        peek(ts, next) matches Some(token) ==> forall|l: nat|
            level <= l ==> (#[trigger] binary_op_at(l, token)) is None,
    ensures
        parse_binary(ts, pos, level) == read(e, next),
    decreases levels() - level,
{
    if level < levels() {
        lemma_climb(ts, pos, e, next, level + 1);
        match peek(ts, next) {
            Some(token) => {
                assert(binary_op_at(level, token) is None);
            },
            None => {},
        }
        assert(parse_binary_rest(ts, next, level, e) == read(e, next));
        assert(parse_binary(ts, pos, level + 1) == read(e, next));
        assert(parse_binary(ts, pos, level) == read(e, next));
    } else {
        assert(parse_binary(ts, pos, level) == parse_unary(ts, pos));
    }
}

/// What a chain of one level reads is what every looser chain reads that
/// finds no binary operator after it.
pub proof fn lemma_descend(ts: Seq<SpecToken>, pos: int, e: SpecExpr, next: int, from: nat, to: nat)
    requires
        parse_binary(ts, pos, from) == read(e, next),
        advanced(ts, pos, next),
        peek(ts, next) matches Some(token) ==> !is_binary_token(token),
        to <= from < levels(),
    ensures
        parse_binary(ts, pos, to) == read(e, next),
    decreases from - to,
{
    if to < from {
        lemma_descend(ts, pos, e, next, from, to + 1);
        match peek(ts, next) {
            Some(token) => {
                lemma_no_op(token, to);
            },
            None => {},
        }
        assert(parse_binary_rest(ts, next, to, e) == read(e, next));
        assert(parse_binary(ts, pos, to) == read(e, next));
    }
}

/// The tokens of an expression are at least one, and the first of them
/// begins a primary expression or is a prefix operator.
pub proof fn lemma_unparse_begins(e: SpecExpr)
    ensures
        unparse(e).len() >= 1,
        is_atom(e) ==> unparse(e).len() == 1,
        as_operand(e, unparse(e)).len() >= 1,
        unary_op_of(as_operand(e, unparse(e))[0]) is None,
        as_item(e, unparse(e)).len() >= 1,
        as_item(e, unparse(e))[0] != SpecToken::RBrace,
        may_follow(Some(as_item(e, unparse(e))[0])),
    decreases e,
{
    match e {
        SpecExpr::Binary { left, op, right } => {
            lemma_unparse_begins(*left);
        },
        _ => {},
    }
}

/// An atom is read from its one token, unless `=` follows a name.
pub proof fn lemma_atom_parses(ts: Seq<SpecToken>, pos: int, e: SpecExpr)
    requires
        is_atom(e),
        stands_at(ts, pos, unparse(e)),
        peek(ts, pos + 1) != Some(SpecToken::Assign),
    ensures
        parse_unary(ts, pos) == read(e, pos + 1),
        advanced(ts, pos, pos + 1),
{
    lemma_has_at_token(ts, pos, unparse(e), 0);
    assert(parse_primary(ts, pos) == read(e, pos + 1));
}

/// The loosest level at which an expression is read whole: its own level
/// for a binary expression, and every level for all others.
pub open spec fn chain_level(e: SpecExpr) -> nat {
    match e {
        SpecExpr::Binary { left, op, right } => level_of(op),
        _ => levels(),
    }
}

/// A declaration is read back from its tokens.
pub proof fn lemma_let_parses(ts: Seq<SpecToken>, pos: int, e: SpecExpr)
    requires
        e is Let,
        stands_at(ts, pos, unparse(e)),
    ensures
        parse_let(ts, pos) == read(e, pos + unparse(e).len()),
        peek(ts, pos) == Some(SpecToken::KwLet),
    decreases e, 0nat,
{
    match e {
        SpecExpr::Let { name, var_type, expr } => {
            let head = seq![
                SpecToken::KwLet,
                SpecToken::Identifier(name),
                SpecToken::Colon,
                type_token(var_type),
                SpecToken::Assign,
            ];
            let value = unparse(*expr);
            let end = seq![SpecToken::Semicolon];
            lemma_stands_both(ts, pos, head + value, end);
            lemma_stands_both(ts, pos, head, value);
            lemma_has_at_token(ts, pos, head, 0);
            lemma_has_at_token(ts, pos, head, 1);
            lemma_has_at_token(ts, pos, head, 2);
            lemma_has_at_token(ts, pos, head, 3);
            lemma_has_at_token(ts, pos, head, 4);
            lemma_has_at_token(ts, pos + 5 + value.len(), end, 0);
            lemma_parse_unparse(ts, pos + 5, *expr, 0);
            assert(parse_expr(ts, pos + 5) == read(*expr, pos + 5 + value.len()));
            assert(var_type_of(type_token(var_type)) == Some(var_type));
        },
        _ => {},
    }
}

/// An assignment is read back from its tokens.
pub proof fn lemma_assign_parses(ts: Seq<SpecToken>, pos: int, e: SpecExpr)
    requires
        e is Assign,
        stands_at(ts, pos, unparse(e)),
    ensures
        parse_primary(ts, pos) == read(e, pos + unparse(e).len()),
    decreases e, 0nat,
{
    match e {
        SpecExpr::Assign { name, expr } => {
            let head = seq![SpecToken::Identifier(name), SpecToken::Assign];
            let value = unparse(*expr);
            let end = seq![SpecToken::Semicolon];
            lemma_stands_both(ts, pos, head + value, end);
            lemma_stands_both(ts, pos, head, value);
            lemma_has_at_token(ts, pos, head, 0);
            lemma_has_at_token(ts, pos, head, 1);
            lemma_has_at_token(ts, pos + 2 + value.len(), end, 0);
            lemma_parse_unparse(ts, pos + 2, *expr, 0);
            assert(parse_expr(ts, pos + 2) == read(*expr, pos + 2 + value.len()));
        },
        _ => {},
    }
}

/// The tokens of a condition and of the block after it: the condition, `{`,
/// the items, `}`.
pub open spec fn guarded(condition: SpecExpr, items: Seq<SpecExpr>) -> Seq<SpecToken> {
    unparse(condition) + seq![SpecToken::LBrace] + unparse_items(items) + seq![SpecToken::RBrace]
}

/// `e` is a conditional or a loop with the condition `condition`, and
/// `items` is the block after it.
pub open spec fn has_guard(e: SpecExpr, condition: SpecExpr, items: Seq<SpecExpr>) -> bool {
    match e {
        SpecExpr::If { condition: c, then_branch, else_branch } => *c == condition && then_branch
            == items,
        SpecExpr::While { condition: c, body } => *c == condition && body == items,
        _ => false,
    }
}

/// A condition and the block after it are read back from their tokens.
pub proof fn lemma_guarded_parses(
    ts: Seq<SpecToken>,
    pos: int,
    e: SpecExpr,
    condition: SpecExpr,
    items: Seq<SpecExpr>,
)
    requires
        has_guard(e, condition, items),
        stands_at(ts, pos, guarded(condition, items)),
    ensures
        parse_expr(ts, pos) == read(condition, pos + unparse(condition).len()),
        advanced(ts, pos, pos + unparse(condition).len()),
        peek(ts, pos + unparse(condition).len()) == Some(SpecToken::LBrace),
        parse_block(ts, pos + unparse(condition).len() + 1) == read_block(
            items,
            pos + guarded(condition, items).len(),
        ),
    decreases e, 0nat,
{
    let test = unparse(condition);
    let open = seq![SpecToken::LBrace];
    let close = seq![SpecToken::RBrace];
    let inner = unparse_items(items);
    assert(guarded(condition, items) =~= test + (open + (inner + close)));
    lemma_stands_both(ts, pos, test, open + (inner + close));
    lemma_stands_both(ts, pos + test.len(), open, inner + close);
    lemma_has_at_token(ts, pos + test.len(), open, 0);
    lemma_parse_unparse(ts, pos, condition, 0);
    lemma_items_parse(ts, pos + test.len() + 1, items, Seq::empty());
    assert(Seq::<SpecExpr>::empty() + items =~= items);
}

/// The second block of a conditional is read back from its tokens.
pub proof fn lemma_else_parses(ts: Seq<SpecToken>, pos: int, e: SpecExpr, items: Seq<SpecExpr>)
    requires
        e matches SpecExpr::If { else_branch, .. } && else_branch == Some(items),
        stands_at(
            ts,
            pos,
            seq![SpecToken::KwElse, SpecToken::LBrace] + unparse_items(items) + seq![
                SpecToken::RBrace,
            ],
        ),
    ensures
        peek(ts, pos) == Some(SpecToken::KwElse),
        peek(ts, pos + 1) == Some(SpecToken::LBrace),
        parse_block(ts, pos + 2) == read_block(items, pos + unparse_items(items).len() + 3),
    decreases e, 0nat,
{
    let other = unparse_items(items);
    let intro = seq![SpecToken::KwElse, SpecToken::LBrace];
    let close = seq![SpecToken::RBrace];
    assert(intro + other + close =~= intro + (other + close));
    lemma_stands_both(ts, pos, intro, other + close);
    lemma_has_at_token(ts, pos, intro, 0);
    lemma_has_at_token(ts, pos, intro, 1);
    match e {
        SpecExpr::If { condition, then_branch, else_branch } => match else_branch {
            Some(second) => {
                lemma_items_parse(ts, pos + 2, second, Seq::empty());
            },
            None => {},
        },
        _ => {},
    }
    assert(Seq::<SpecExpr>::empty() + items =~= items);
}

/// A conditional is read back from its tokens, unless `else` follows one
/// that has none.
pub proof fn lemma_if_parses(ts: Seq<SpecToken>, pos: int, e: SpecExpr)
    requires
        e is If,
        stands_at(ts, pos, unparse(e)),
        peek(ts, pos + unparse(e).len()) != Some(SpecToken::KwElse),
    ensures
        parse_if(ts, pos) == read(e, pos + unparse(e).len()),
        peek(ts, pos) == Some(SpecToken::KwIf),
    decreases e, 1nat,
{
    match e {
        SpecExpr::If { condition, then_branch, else_branch } => {
            let head = seq![SpecToken::KwIf];
            let main = guarded(*condition, then_branch);
            let close = seq![SpecToken::RBrace];
            let tail = match else_branch {
                Some(items) => seq![SpecToken::KwElse, SpecToken::LBrace] + unparse_items(items)
                    + close,
                None => Seq::empty(),
            };
            assert(unparse(e) =~= head + (main + tail));
            lemma_stands_both(ts, pos, head, main + tail);
            lemma_stands_both(ts, pos + 1, main, tail);
            lemma_has_at_token(ts, pos, head, 0);
            lemma_guarded_parses(ts, pos + 1, e, *condition, then_branch);
            let after_test = pos + 1 + unparse(*condition).len();
            let after_then = pos + 1 + main.len();
            match else_branch {
                Some(items) => {
                    lemma_else_parses(ts, after_then, e, items);
                    assert(tail.len() == unparse_items(items).len() + 3);
                },
                None => {},
            }
        },
        _ => {},
    }
}

/// A loop is read back from its tokens.
pub proof fn lemma_while_parses(ts: Seq<SpecToken>, pos: int, e: SpecExpr)
    requires
        e is While,
        stands_at(ts, pos, unparse(e)),
    ensures
        parse_while(ts, pos) == read(e, pos + unparse(e).len()),
        peek(ts, pos) == Some(SpecToken::KwWhile),
    decreases e, 1nat,
{
    match e {
        SpecExpr::While { condition, body } => {
            let head = seq![SpecToken::KwWhile];
            let main = guarded(*condition, body);
            assert(unparse(e) =~= head + main);
            lemma_stands_both(ts, pos, head, main);
            lemma_has_at_token(ts, pos, head, 0);
            lemma_guarded_parses(ts, pos + 1, e, *condition, body);
        },
        _ => {},
    }
}

/// A statement is read back from its tokens as a primary expression.
pub proof fn lemma_statement_parses(ts: Seq<SpecToken>, pos: int, e: SpecExpr)
    requires
        is_statement(e),
        stands_at(ts, pos, unparse(e)),
        may_follow(peek(ts, pos + unparse(e).len())),
    ensures
        parse_primary(ts, pos) == read(e, pos + unparse(e).len()),
        advanced(ts, pos, pos + unparse(e).len()),
    decreases e, 2nat,
{
    lemma_unparse_begins(e);
    match e {
        SpecExpr::Let { name, var_type, expr } => {
            lemma_let_parses(ts, pos, e);
        },
        SpecExpr::Assign { name, expr } => {
            lemma_assign_parses(ts, pos, e);
        },
        SpecExpr::If { condition, then_branch, else_branch } => {
            lemma_if_parses(ts, pos, e);
        },
        SpecExpr::While { condition, body } => {
            lemma_while_parses(ts, pos, e);
        },
        _ => {},
    }
}

/// An expression that is no binary expression is read back from its tokens
/// as a prefix expression.
pub proof fn lemma_prefix_parses(ts: Seq<SpecToken>, pos: int, e: SpecExpr)
    requires
        !(e is Binary),
        stands_at(ts, pos, unparse(e)),
        may_follow(peek(ts, pos + unparse(e).len())),
    ensures
        parse_unary(ts, pos) == read(e, pos + unparse(e).len()),
        advanced(ts, pos, pos + unparse(e).len()),
    decreases e, 3nat,
{
    lemma_unparse_begins(e);
    lemma_has_at_token(ts, pos, unparse(e), 0);
    match e {
        SpecExpr::Unary { op, expr } => {
            let head = seq![unary_token(op)];
            let operand = as_operand(*expr, unparse(*expr));
            lemma_stands_both(ts, pos, head, operand);
            lemma_operand_parses(ts, pos + 1, *expr);
            assert(unary_op_of(unary_token(op)) == Some(op));
            assert(parse_unary(ts, pos + 1) == read(*expr, pos + 1 + operand.len()));
        },
        SpecExpr::Binary { left, op, right } => {},
        _ => {
            if is_atom(e) {
                lemma_atom_parses(ts, pos, e);
            } else {
                lemma_statement_parses(ts, pos, e);
                assert(unary_op_of(unparse(e)[0]) is None);
            }
        },
    }
}

/// An expression is read back from its tokens by every chain that is at
/// least as loose as the expression itself, whatever follows, as long as it
/// may follow.
pub proof fn lemma_parse_unparse(ts: Seq<SpecToken>, pos: int, e: SpecExpr, level: nat)
    requires
        stands_at(ts, pos, unparse(e)),
        may_follow(peek(ts, pos + unparse(e).len())),
        level <= chain_level(e),
    ensures
        parse_binary(ts, pos, level) == read(e, pos + unparse(e).len()),
        advanced(ts, pos, pos + unparse(e).len()),
    decreases e, 4nat,
{
    let end = pos + unparse(e).len();
    match e {
        SpecExpr::Binary { left, op, right } => {
            let first = as_operand(*left, unparse(*left));
            let sign = seq![op_token(op)];
            let second = as_operand(*right, unparse(*right));
            let own = level_of(op);
            lemma_stands_both(ts, pos, first + sign, second);
            lemma_stands_both(ts, pos, first, sign);
            let at_sign = pos + first.len();
            lemma_has_at_token(ts, at_sign, sign, 0);
            lemma_operand_parses(ts, pos, *left);
            lemma_operand_parses(ts, at_sign + 1, *right);
            assert forall|l: nat| own + 1 <= l implies (#[trigger] binary_op_at(l, op_token(op)))
                is None by {
                lemma_op_level(op, l);
            }
            lemma_climb(ts, pos, *left, at_sign, own + 1);
            match peek(ts, end) {
                Some(token) => {
                    assert forall|l: nat| own + 1 <= l implies (#[trigger] binary_op_at(l, token))
                        is None by {
                        lemma_no_op(token, l);
                    }
                    lemma_no_op(token, own);
                },
                None => {},
            }
            lemma_climb(ts, at_sign + 1, *right, end, own + 1);
            lemma_op_level(op, own);
            assert(parse_binary_rest(ts, end, own, e) == read(e, end));
            assert(parse_binary_rest(ts, at_sign, own, *left) == read(e, end));
            assert(parse_binary(ts, pos, own) == read(e, end));
            lemma_descend(ts, pos, e, end, own, level);
        },
        _ => {
            lemma_prefix_parses(ts, pos, e);
            match peek(ts, end) {
                Some(token) => {
                    assert forall|l: nat| level <= l implies (#[trigger] binary_op_at(l, token))
                        is None by {
                        lemma_no_op(token, l);
                    }
                },
                None => {},
            }
            lemma_climb(ts, pos, e, end, level);
        },
    }
}

/// An expression in parentheses is read back as a prefix expression,
/// whatever follows.
pub proof fn lemma_parenthesized_parses(ts: Seq<SpecToken>, pos: int, e: SpecExpr)
    requires
        stands_at(ts, pos, parenthesized(unparse(e))),
    ensures
        parse_unary(ts, pos) == read(e, pos + unparse(e).len() + 2),
        advanced(ts, pos, pos + unparse(e).len() + 2),
    decreases e, 5nat,
{
    let open = seq![SpecToken::LParen];
    let inner = unparse(e);
    let close = seq![SpecToken::RParen];
    lemma_stands_both(ts, pos, open + inner, close);
    lemma_stands_both(ts, pos, open, inner);
    lemma_has_at_token(ts, pos, open, 0);
    lemma_has_at_token(ts, pos + 1 + inner.len(), close, 0);
    lemma_parse_unparse(ts, pos + 1, e, 0);
    assert(parse_expr(ts, pos + 1) == read(e, pos + 1 + inner.len()));
    assert(parse_primary(ts, pos) == read(e, pos + inner.len() + 2));
    assert(unary_op_of(SpecToken::LParen) is None);
}

/// An operand is read back as a prefix expression, unless `=` follows.
pub proof fn lemma_operand_parses(ts: Seq<SpecToken>, pos: int, e: SpecExpr)
    requires
        stands_at(ts, pos, as_operand(e, unparse(e))),
        peek(ts, pos + as_operand(e, unparse(e)).len()) != Some(SpecToken::Assign),
    ensures
        parse_unary(ts, pos) == read(e, pos + as_operand(e, unparse(e)).len()),
        advanced(ts, pos, pos + as_operand(e, unparse(e)).len()),
    decreases e, 6nat,
{
    lemma_unparse_begins(e);
    if is_atom(e) {
        lemma_atom_parses(ts, pos, e);
    } else {
        lemma_parenthesized_parses(ts, pos, e);
    }
}

/// An item is read back as an expression, if what follows may follow.
pub proof fn lemma_item_parses(ts: Seq<SpecToken>, pos: int, e: SpecExpr)
    requires
        stands_at(ts, pos, as_item(e, unparse(e))),
        may_follow(peek(ts, pos + as_item(e, unparse(e)).len())),
    ensures
        parse_expr(ts, pos) == read(e, pos + as_item(e, unparse(e)).len()),
        advanced(ts, pos, pos + as_item(e, unparse(e)).len()),
    decreases e, 6nat,
{
    let end = pos + as_item(e, unparse(e)).len();
    if is_statement(e) {
        lemma_parse_unparse(ts, pos, e, 0);
    } else {
        lemma_parenthesized_parses(ts, pos, e);
        match peek(ts, end) {
            Some(token) => {
                assert forall|l: nat| 0 <= l implies (#[trigger] binary_op_at(l, token))
                    is None by {
                    lemma_no_op(token, l);
                }
            },
            None => {},
        }
        lemma_climb(ts, pos, e, end, 0);
    }
}

/// The items of a block, followed by the `}` that closes it, are read back
/// after the items read before them.
pub proof fn lemma_items_parse(
    ts: Seq<SpecToken>,
    pos: int,
    items: Seq<SpecExpr>,
    before: Seq<SpecExpr>,
)
    requires
        stands_at(ts, pos, unparse_items(items) + seq![SpecToken::RBrace]),
    ensures
        parse_block_rest(ts, pos, before) == read_block(
            before + items,
            pos + unparse_items(items).len() + 1,
        ),
    decreases items, 0nat,
{
    let close = seq![SpecToken::RBrace];
    lemma_stands_both(ts, pos, unparse_items(items), close);
    if items.len() == 0 {
        lemma_has_at_token(ts, pos, close, 0);
        assert(before + items =~= before);
    } else {
        let first = items.first();
        let head = as_item(first, unparse(first));
        let rest = unparse_items(items.drop_first());
        lemma_unparse_begins(first);
        lemma_stands_both(ts, pos, head, rest);
        lemma_has_at_token(ts, pos, head, 0);
        assert(stands_at(ts, pos + head.len(), rest + close)) by {
            assert(unparse_items(items) + close =~= head + (rest + close));
            lemma_stands_both(ts, pos, head, rest + close);
        }
        lemma_has_at_token(ts, pos + head.len(), rest + close, 0);
        if items.drop_first().len() > 0 {
            lemma_unparse_begins(items.drop_first().first());
            assert((rest + close)[0] == as_item(
                items.drop_first().first(),
                unparse(items.drop_first().first()),
            )[0]);
        } else {
            assert((rest + close)[0] == SpecToken::RBrace);
        }
        lemma_item_parses(ts, pos, first);
        lemma_items_parse(ts, pos + head.len(), items.drop_first(), before.push(first));
        assert(before.push(first) + items.drop_first() =~= before + items);
        assert(parse_block_rest(ts, pos, before) == parse_block_rest(
            ts,
            pos + head.len(),
            before.push(first),
        ));
    }
}

/// The items of a program, up to the end of the input, are read back after
/// the items read before them.
pub proof fn lemma_program_parses(
    ts: Seq<SpecToken>,
    pos: int,
    items: Seq<SpecExpr>,
    before: Seq<SpecExpr>,
)
    requires
        stands_at(ts, pos, unparse_items(items)),
        pos + unparse_items(items).len() == ts.len(),
    ensures
        parse_items(ts, pos, before) == Ok::<Seq<SpecExpr>, ParseError>(
            before + items,
        ),
    decreases items.len(),
{
    if items.len() == 0 {
        assert(before + items =~= before);
    } else {
        let first = items.first();
        let head = as_item(first, unparse(first));
        let rest = unparse_items(items.drop_first());
        lemma_unparse_begins(first);
        lemma_stands_both(ts, pos, head, rest);
        lemma_has_at_token(ts, pos, head, 0);
        if items.drop_first().len() > 0 {
            lemma_unparse_begins(items.drop_first().first());
            lemma_has_at_token(ts, pos + head.len(), rest, 0);
        }
        lemma_item_parses(ts, pos, first);
        lemma_program_parses(ts, pos + head.len(), items.drop_first(), before.push(first));
        assert(before.push(first) + items.drop_first() =~= before + items);
        assert(parse_items(ts, pos, before) == parse_items(
            ts,
            pos + head.len(),
            before.push(first),
        ));
    }
}

/// Writing a program as tokens and parsing the tokens gives the program
/// back: every syntax tree, whatever its shape, has tokens that parse
/// without error to the very same tree.
pub proof fn lemma_round_trip(program: Seq<SpecExpr>)
    ensures
        parse_program(unparse_items(program)) == Ok::<Seq<SpecExpr>, ParseError>(
            program,
        ),
{
    let ts = unparse_items(program);
    lemma_program_parses(ts, 0, program, Seq::empty());
    assert(Seq::<SpecExpr>::empty() + program =~= program);
}

/// Appends one token.
fn put(out: &mut Vec<Token>, token: Token)
    ensures
        final(out).deep_view() == old(out).deep_view() + seq![token@],
{
    out.push(token);
    assert(out.deep_view() =~= old(out).deep_view() + seq![token@]);
}

/// The token that writes a binary operator.
fn binary_token(op: BinaryOp) -> (token: Token)
    ensures
        token@ == op_token(op),
{
    match op {
        BinaryOp::Add => Token::OpAdd,
        BinaryOp::Sub => Token::OpSub,
        BinaryOp::Mul => Token::OpMul,
        BinaryOp::Div => Token::OpDiv,
        BinaryOp::Mod => Token::OpMod,
        BinaryOp::And => Token::OpAnd,
        BinaryOp::Or => Token::OpOr,
        BinaryOp::Eq => Token::OpEq,
        BinaryOp::Neq => Token::OpNeq,
        BinaryOp::Lt => Token::OpLt,
        BinaryOp::Gt => Token::OpGt,
        BinaryOp::Le => Token::OpLe,
        BinaryOp::Ge => Token::OpGe,
    }
}

/// Tells whether one token writes the expression.
fn atom(expr: &Expr) -> (b: bool)
    ensures
        b == is_atom(expr@),
{
    match expr {
        Expr::Number(_) => true,
        Expr::Bool(_) => true,
        Expr::Var(_) => true,
        _ => false,
    }
}

/// Tells whether the expression is a statement.
fn statement(expr: &Expr) -> (b: bool)
    ensures
        b == is_statement(expr@),
{
    match expr {
        Expr::Let { .. } => true,
        Expr::Assign { .. } => true,
        Expr::If { .. } => true,
        Expr::While { .. } => true,
        _ => false,
    }
}

/// Appends the tokens of `expr`, in parentheses unless `bare` is set.
fn write_enclosed(expr: &Expr, bare: bool, out: &mut Vec<Token>)
    ensures
        final(out).deep_view() == old(out).deep_view() + if bare {
            unparse(expr@)
        } else {
            parenthesized(unparse(expr@))
        },
    decreases size(expr@), 3nat,
{
    if bare {
        write_expr(expr, out);
    } else {
        put(out, Token::LParen);
        write_expr(expr, out);
        put(out, Token::RParen);
        assert(out.deep_view() =~= old(out).deep_view() + parenthesized(unparse(expr@)));
    }
}

/// Appends the tokens of the items of a block.
fn write_items(items: &Vec<Expr>, out: &mut Vec<Token>)
    ensures
        final(out).deep_view() == old(out).deep_view() + unparse_items(Expr::models(items@)),
    decreases block_size(Expr::models(items@)), 4nat,
{
    let ghost models = Expr::models(items@);
    let ghost start = out.deep_view();
    let mut i: usize = 0;
    assert(models.skip(0) =~= models);
    while i < items.len()
        invariant
            i <= items.len(),
            models == Expr::models(items@),
            start == old(out).deep_view(),
            out.deep_view() + unparse_items(models.skip(i as int)) == start + unparse_items(models),
        decreases items.len() - i,
    {
        let ghost before = out.deep_view();
        let ghost rest = models.skip(i as int);
        assert(rest.first() == items[i as int]@);
        assert(rest.drop_first() =~= models.skip(i + 1));
        proof {
            lemma_item_size(models, i as int);
        }
        let bare = statement(&items[i]);
        write_enclosed(&items[i], bare, out);
        assert(out.deep_view() + unparse_items(models.skip(i + 1)) =~= before + unparse_items(
            rest,
        ));
        i = i + 1;
    }
    assert(models.skip(i as int) =~= Seq::<SpecExpr>::empty());
    assert(out.deep_view() + Seq::<SpecToken>::empty() =~= out.deep_view());
}

/// Appends the tokens of a binary expression.
fn write_binary(left: &Expr, op: BinaryOp, right: &Expr, out: &mut Vec<Token>)
    ensures
        final(out).deep_view() == old(out).deep_view() + unparse(
            SpecExpr::Binary { left: Box::new(left@), op, right: Box::new(right@) },
        ),
    decreases size(left@) + size(right@) + 1, 0nat,
{
    write_enclosed(left, atom(left), out);
    put(out, binary_token(op));
    write_enclosed(right, atom(right), out);
    assert(out.deep_view() =~= old(out).deep_view() + (as_operand(left@, unparse(left@)) + seq![
        op_token(op),
    ] + as_operand(right@, unparse(right@))));
}

/// Appends the tokens of a declaration.
fn write_let(name: &String, var_type: VarType, value: &Expr, out: &mut Vec<Token>)
    ensures
        final(out).deep_view() == old(out).deep_view() + unparse(
            SpecExpr::Let { name: name@, var_type, expr: Box::new(value@) },
        ),
    decreases size(value@) + 1, 0nat,
{
    put(out, Token::KwLet);
    put(out, Token::Identifier(name.clone()));
    put(out, Token::Colon);
    put(
        out,
        match var_type {
            VarType::Number => Token::TypeNumber,
            VarType::Bool => Token::TypeBool,
        },
    );
    put(out, Token::Assign);
    write_expr(value, out);
    put(out, Token::Semicolon);
    assert(out.deep_view() =~= old(out).deep_view() + (seq![
        SpecToken::KwLet,
        SpecToken::Identifier(name@),
        SpecToken::Colon,
        type_token(var_type),
        SpecToken::Assign,
    ] + unparse(value@) + seq![SpecToken::Semicolon]));
}

/// Appends the tokens of an assignment.
fn write_assign(name: &String, value: &Expr, out: &mut Vec<Token>)
    ensures
        final(out).deep_view() == old(out).deep_view() + unparse(
            SpecExpr::Assign { name: name@, expr: Box::new(value@) },
        ),
    decreases size(value@) + 1, 0nat,
{
    put(out, Token::Identifier(name.clone()));
    put(out, Token::Assign);
    write_expr(value, out);
    put(out, Token::Semicolon);
    assert(out.deep_view() =~= old(out).deep_view() + (seq![
        SpecToken::Identifier(name@),
        SpecToken::Assign,
    ] + unparse(value@) + seq![SpecToken::Semicolon]));
}

/// Appends the tokens of a condition and of the block after it.
fn write_guarded(condition: &Expr, items: &Vec<Expr>, out: &mut Vec<Token>)
    ensures
        final(out).deep_view() == old(out).deep_view() + guarded(condition@, Expr::models(items@)),
    decreases size(condition@) + block_size(Expr::models(items@)) + 1, 0nat,
{
    write_expr(condition, out);
    put(out, Token::LBrace);
    write_items(items, out);
    put(out, Token::RBrace);
    assert(out.deep_view() =~= old(out).deep_view() + guarded(condition@, Expr::models(items@)));
}

/// Appends the tokens of a conditional.
fn write_if(
    condition: &Expr,
    then_branch: &Vec<Expr>,
    else_branch: &Option<Vec<Expr>>,
    out: &mut Vec<Token>,
)
    ensures
        final(out).deep_view() == old(out).deep_view() + unparse(
            if_model(condition, then_branch, else_branch),
        ),
    decreases size(if_model(condition, then_branch, else_branch)), 1nat,
{
    let ghost start = out.deep_view();
    put(out, Token::KwIf);
    write_guarded(condition, then_branch, out);
    let ghost main = guarded(condition@, Expr::models(then_branch@));
    assert(out.deep_view() =~= start + (seq![SpecToken::KwIf] + main));
    match else_branch {
        Some(items) => {
            put(out, Token::KwElse);
            put(out, Token::LBrace);
            write_items(items, out);
            put(out, Token::RBrace);
            assert(out.deep_view() =~= start + (seq![SpecToken::KwIf] + main + (seq![
                SpecToken::KwElse,
                SpecToken::LBrace,
            ] + unparse_items(Expr::models(items@)) + seq![SpecToken::RBrace])));
        },
        None => {
            assert(out.deep_view() =~= start + (seq![SpecToken::KwIf] + main + Seq::<
                SpecToken,
            >::empty()));
        },
    }
    assert(unparse(if_model(condition, then_branch, else_branch)) =~= seq![SpecToken::KwIf] + main
        + match else_branch {
        Some(items) => seq![SpecToken::KwElse, SpecToken::LBrace] + unparse_items(
            Expr::models(items@),
        ) + seq![SpecToken::RBrace],
        None => Seq::empty(),
    });
}

/// Appends the tokens of a loop.
fn write_while(condition: &Expr, body: &Vec<Expr>, out: &mut Vec<Token>)
    ensures
        final(out).deep_view() == old(out).deep_view() + unparse(while_model(condition, body)),
    decreases size(while_model(condition, body)), 1nat,
{
    let ghost start = out.deep_view();
    put(out, Token::KwWhile);
    write_guarded(condition, body, out);
    assert(out.deep_view() =~= start + (seq![SpecToken::KwWhile] + guarded(
        condition@,
        Expr::models(body@),
    )));
    assert(unparse(while_model(condition, body)) =~= seq![SpecToken::KwWhile] + guarded(
        condition@,
        Expr::models(body@),
    ));
}

/// Appends the tokens of `expr`.
fn write_expr(expr: &Expr, out: &mut Vec<Token>)
    ensures
        final(out).deep_view() == old(out).deep_view() + unparse(expr@),
    decreases size(expr@), 2nat,
{
    match expr {
        Expr::Number(n) => {
            put(out, Token::LitNumber(*n));
        },
        Expr::Bool(b) => {
            put(out, Token::LitBool(*b));
        },
        Expr::Var(name) => {
            put(out, Token::Identifier(name.clone()));
        },
        Expr::Binary { left, op, right } => {
            write_binary(left, *op, right, out);
        },
        Expr::Unary { op, expr: operand } => {
            put(
                out,
                match op {
                    UnaryOp::Not => Token::OpNot,
                    UnaryOp::Neg => Token::OpSub,
                },
            );
            write_enclosed(operand, atom(operand), out);
            assert(out.deep_view() =~= old(out).deep_view() + unparse(expr@));
        },
        Expr::Let { name, var_type, expr: value } => {
            write_let(name, *var_type, value, out);
        },
        Expr::Assign { name, expr: value } => {
            write_assign(name, value, out);
        },
        Expr::If { condition, then_branch, else_branch } => {
            write_if(condition, then_branch, else_branch, out);
        },
        Expr::While { condition, body } => {
            write_while(condition, body, out);
        },
    }
}

/// The tokens that write a program: those of its expressions, one after the
/// other, each in parentheses unless it is a statement. Parsing them gives
/// the program back ([`lemma_round_trip`]).
pub fn to_tokens(program: &Vec<Expr>) -> (tokens: Vec<Token>)
    ensures
        tokens.deep_view() == unparse_items(program.deep_view()),
{
    let mut tokens: Vec<Token> = Vec::new();
    assert(tokens.deep_view() =~= Seq::<SpecToken>::empty());
    write_items(program, &mut tokens);
    assert(program.deep_view() =~= Expr::models(program@));
    assert(Seq::<SpecToken>::empty() + unparse_items(program.deep_view()) =~= unparse_items(
        program.deep_view(),
    ));
    tokens
}

} // verus!
