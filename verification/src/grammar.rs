use crate::ast::{BinaryOp, SpecExpr, UnaryOp, VarType};
use crate::lexer::SpecToken;
use vstd::prelude::*;

verus! {

/// Why parsing stopped.
pub enum ParseError {
    /// A token that cannot begin an expression stood where one was due.
    UnexpectedToken(SpecToken),
    /// The input ended where an expression was due.
    UnexpectedEof,
    /// A parenthesis was opened and not closed.
    ExpectedRParen,
    /// A declaration or an assignment did not end in `;`.
    ExpectedSemicolon,
    /// No name followed `let`.
    ExpectedIdentifier,
    /// No `:` followed the name of a declaration.
    ExpectedColon,
    /// No type followed the `:` of a declaration.
    ExpectedType,
    /// No `=` followed the type of a declaration.
    ExpectedAssign,
    /// No `{` followed the condition of an `if`.
    ExpectedBlockAfterIf,
    /// No `{` followed `else`.
    ExpectedBlockAfterElse,
    /// No `{` followed the condition of a `while`.
    ExpectedBlockAfterWhile,
    /// The input ended inside a block.
    ExpectedRBrace,
}

impl SpecToken {
    /// The name of the kind of token, as it appears in messages.
    pub open spec fn kind_name(self) -> Seq<char> {
        match self {
            SpecToken::KwLet => "KwLet"@,
            SpecToken::KwIf => "KwIf"@,
            SpecToken::KwElse => "KwElse"@,
            SpecToken::KwWhile => "KwWhile"@,
            SpecToken::TypeNumber => "TypeNumber"@,
            SpecToken::TypeBool => "TypeBool"@,
            SpecToken::OpEq => "OpEq"@,
            SpecToken::OpNeq => "OpNeq"@,
            SpecToken::OpLe => "OpLe"@,
            SpecToken::OpGe => "OpGe"@,
            SpecToken::OpAnd => "OpAnd"@,
            SpecToken::OpOr => "OpOr"@,
            SpecToken::OpAdd => "OpAdd"@,
            SpecToken::OpSub => "OpSub"@,
            SpecToken::OpMul => "OpMul"@,
            SpecToken::OpDiv => "OpDiv"@,
            SpecToken::OpMod => "OpMod"@,
            SpecToken::OpLt => "OpLt"@,
            SpecToken::OpGt => "OpGt"@,
            SpecToken::OpNot => "OpNot"@,
            SpecToken::Assign => "Assign"@,
            SpecToken::Colon => "Colon"@,
            SpecToken::Semicolon => "Semicolon"@,
            SpecToken::Comma => "Comma"@,
            SpecToken::LParen => "LParen"@,
            SpecToken::RParen => "RParen"@,
            SpecToken::LBrace => "LBrace"@,
            SpecToken::RBrace => "RBrace"@,
            SpecToken::Identifier(_) => "Identifier"@,
            SpecToken::LitBool(_) => "LitBool"@,
            SpecToken::LitNumber(_) => "LitNumber"@,
        }
    }
}

impl ParseError {
    /// The text under which the error is reported.
    pub open spec fn message(self) -> Seq<char> {
        match self {
            ParseError::UnexpectedToken(token) => "Unexpected token "@ + token.kind_name(),
            ParseError::UnexpectedEof => "Unexpected EOF"@,
            ParseError::ExpectedRParen => "Expected ')'"@,
            ParseError::ExpectedSemicolon => "Expected ';' at the end of statement"@,
            ParseError::ExpectedIdentifier => "Expected identifier after 'let'"@,
            ParseError::ExpectedColon => "Expected ':' after identifier"@,
            ParseError::ExpectedType => "Expected type ':'"@,
            ParseError::ExpectedAssign => "Expected operator '=' after type"@,
            ParseError::ExpectedBlockAfterIf => "Expected '{' after 'if'"@,
            ParseError::ExpectedBlockAfterElse => "Expected '{' after 'else'"@,
            ParseError::ExpectedBlockAfterWhile => "Expected '{' after 'while'"@,
            ParseError::ExpectedRBrace => "Expected '}' at the end of block"@,
        }
    }
}

/// What parsing from a position yields: a value and the position after it,
/// or the error on which it stopped.
pub type Parsed<T> = Result<(T, int), ParseError>;

/// The token at `pos`, if there is one.
pub open spec fn peek(ts: Seq<SpecToken>, pos: int) -> Option<SpecToken> {
    if 0 <= pos < ts.len() {
        Some(ts[pos])
    } else {
        None
    }
}

/// How far `pos` is from the end of the tokens: the number of tokens that
/// stand at `pos` and after it, for a position among them.
pub open spec fn rest_len(ts: Seq<SpecToken>, pos: int) -> nat {
    if pos <= ts.len() {
        (ts.len() - pos) as nat
    } else {
        0
    }
}

/// `next` is a position after `pos`, and not beyond the end. Every
/// expression that parses ends at such a position
/// ([`lemma_parse_advances`]), so the tests of it below never fail.
pub open spec fn advanced(ts: Seq<SpecToken>, pos: int, next: int) -> bool {
    0 <= pos < next <= ts.len()
}

/// The number of precedence levels of binary operators. Level 0 binds
/// loosest.
pub open spec fn levels() -> nat {
    6
}

/// The binary operator that `token` writes at precedence level `level`:
/// `||`, then `&&`, then equality, then order, then sums, then products.
pub open spec fn binary_op_at(level: nat, token: SpecToken) -> Option<BinaryOp> {
    if level == 0 {
        match token {
            SpecToken::OpOr => Some(BinaryOp::Or),
            _ => None,
        }
    } else if level == 1 {
        match token {
            SpecToken::OpAnd => Some(BinaryOp::And),
            _ => None,
        }
    } else if level == 2 {
        match token {
            SpecToken::OpEq => Some(BinaryOp::Eq),
            SpecToken::OpNeq => Some(BinaryOp::Neq),
            _ => None,
        }
    } else if level == 3 {
        match token {
            SpecToken::OpLt => Some(BinaryOp::Lt),
            SpecToken::OpGt => Some(BinaryOp::Gt),
            SpecToken::OpLe => Some(BinaryOp::Le),
            SpecToken::OpGe => Some(BinaryOp::Ge),
            _ => None,
        }
    } else if level == 4 {
        match token {
            SpecToken::OpAdd => Some(BinaryOp::Add),
            SpecToken::OpSub => Some(BinaryOp::Sub),
            _ => None,
        }
    } else if level == 5 {
        match token {
            SpecToken::OpMul => Some(BinaryOp::Mul),
            SpecToken::OpDiv => Some(BinaryOp::Div),
            SpecToken::OpMod => Some(BinaryOp::Mod),
            _ => None,
        }
    } else {
        None
    }
}

/// The prefix operator that `token` writes.
pub open spec fn unary_op_of(token: SpecToken) -> Option<UnaryOp> {
    match token {
        SpecToken::OpNot => Some(UnaryOp::Not),
        SpecToken::OpSub => Some(UnaryOp::Neg),
        _ => None,
    }
}

/// The type that `token` names.
pub open spec fn var_type_of(token: SpecToken) -> Option<VarType> {
    match token {
        SpecToken::TypeNumber => Some(VarType::Number),
        SpecToken::TypeBool => Some(VarType::Bool),
        _ => None,
    }
}

/// An expression: a chain of binary operators of the loosest level.
pub open spec fn parse_expr(ts: Seq<SpecToken>, pos: int) -> Parsed<SpecExpr>
    decreases rest_len(ts, pos), 20nat,
{
    parse_binary(ts, pos, 0)
}

/// A chain of operators of one level over operands of the next level. Past
/// the last level the operand is a prefix expression. Chains associate to
/// the left.
pub open spec fn parse_binary(ts: Seq<SpecToken>, pos: int, level: nat) -> Parsed<SpecExpr>
    decreases rest_len(ts, pos), 7 + levels() - if level < levels() {
        level
    } else {
        levels()
    },
{
    if level >= levels() {
        parse_unary(ts, pos)
    } else {
        match parse_binary(ts, pos, level + 1) {
            Err(error) => Err(error),
            Ok((left, next)) => if advanced(ts, pos, next) {
                parse_binary_rest(ts, next, level, left)
            } else {
                Err(ParseError::UnexpectedEof)
            },
        }
    }
}

/// The rest of a chain of level `level` whose operands so far make `left`.
pub open spec fn parse_binary_rest(
    ts: Seq<SpecToken>,
    pos: int,
    level: nat,
    left: SpecExpr,
) -> Parsed<SpecExpr>
    decreases rest_len(ts, pos), 0nat,
{
    match peek(ts, pos) {
        None => Ok((left, pos)),
        Some(token) => match binary_op_at(level, token) {
            None => Ok((left, pos)),
            Some(op) => match parse_binary(ts, pos + 1, level + 1) {
                Err(error) => Err(error),
                Ok((right, next)) => if advanced(ts, pos, next) {
                    parse_binary_rest(
                        ts,
                        next,
                        level,
                        SpecExpr::Binary { left: Box::new(left), op, right: Box::new(right) },
                    )
                } else {
                    Err(ParseError::UnexpectedEof)
                },
            },
        },
    }
}

/// A prefix expression: prefix operators, innermost last, before a primary
/// expression.
pub open spec fn parse_unary(ts: Seq<SpecToken>, pos: int) -> Parsed<SpecExpr>
    decreases rest_len(ts, pos), 6nat,
{
    match peek(ts, pos) {
        None => parse_primary(ts, pos),
        Some(token) => match unary_op_of(token) {
            None => parse_primary(ts, pos),
            Some(op) => match parse_unary(ts, pos + 1) {
                Err(error) => Err(error),
                Ok((expr, next)) => Ok((SpecExpr::Unary { op, expr: Box::new(expr) }, next)),
            },
        },
    }
}

/// A primary expression: what the keyword `let`, `if` or `while` begins, or
/// else a simple expression.
pub open spec fn parse_primary(ts: Seq<SpecToken>, pos: int) -> Parsed<SpecExpr>
    decreases rest_len(ts, pos), 5nat,
{
    match peek(ts, pos) {
        Some(SpecToken::KwLet) => parse_let(ts, pos),
        Some(SpecToken::KwIf) => parse_if(ts, pos),
        Some(SpecToken::KwWhile) => parse_while(ts, pos),
        _ => parse_simple(ts, pos),
    }
}

/// A simple expression: an expression in parentheses, a literal, an
/// assignment, or a variable. A name followed by `=` begins an assignment.
/// Any other token, a keyword too, is unexpected.
pub open spec fn parse_simple(ts: Seq<SpecToken>, pos: int) -> Parsed<SpecExpr>
    decreases rest_len(ts, pos), 4nat,
{
    match peek(ts, pos) {
        None => Err(ParseError::UnexpectedEof),
        Some(SpecToken::LParen) => match parse_expr(ts, pos + 1) {
            Err(error) => Err(error),
            Ok((expr, next)) => if peek(ts, next) == Some(SpecToken::RParen) {
                Ok((expr, next + 1))
            } else {
                Err(ParseError::ExpectedRParen)
            },
        },
        Some(SpecToken::LitNumber(n)) => Ok((SpecExpr::Number(n), pos + 1)),
        Some(SpecToken::LitBool(b)) => Ok((SpecExpr::Bool(b), pos + 1)),
        Some(SpecToken::Identifier(name)) => if peek(ts, pos + 1) == Some(SpecToken::Assign) {
            match parse_expr(ts, pos + 2) {
                Err(error) => Err(error),
                Ok((expr, next)) => if peek(ts, next) == Some(SpecToken::Semicolon) {
                    Ok((SpecExpr::Assign { name, expr: Box::new(expr) }, next + 1))
                } else {
                    Err(ParseError::ExpectedSemicolon)
                },
            }
        } else {
            Ok((SpecExpr::Var(name), pos + 1))
        },
        Some(token) => Err(ParseError::UnexpectedToken(token)),
    }
}

/// A declaration: `let`, a name, `:`, a type, `=`, an expression, `;`.
/// The token at `pos` is taken for the `let` and not looked at.
pub open spec fn parse_let(ts: Seq<SpecToken>, pos: int) -> Parsed<SpecExpr>
    decreases rest_len(ts, pos), 3nat,
{
    match peek(ts, pos + 1) {
        Some(SpecToken::Identifier(name)) => if peek(ts, pos + 2) != Some(SpecToken::Colon) {
            Err(ParseError::ExpectedColon)
        } else {
            match peek(ts, pos + 3) {
                None => Err(ParseError::ExpectedType),
                Some(token) => match var_type_of(token) {
                    None => Err(ParseError::ExpectedType),
                    Some(var_type) => if peek(ts, pos + 4) != Some(SpecToken::Assign) {
                        Err(ParseError::ExpectedAssign)
                    } else {
                        match parse_expr(ts, pos + 5) {
                            Err(error) => Err(error),
                            Ok((expr, next)) => if peek(ts, next) == Some(SpecToken::Semicolon) {
                                Ok(
                                    (
                                        SpecExpr::Let { name, var_type, expr: Box::new(expr) },
                                        next + 1,
                                    ),
                                )
                            } else {
                                Err(ParseError::ExpectedSemicolon)
                            },
                        }
                    },
                },
            }
        },
        _ => Err(ParseError::ExpectedIdentifier),
    }
}

/// A conditional: `if`, a condition, a block, and after an `else` a second
/// block. The token at `pos` is taken for the `if` and not looked at. At
/// the end of the input there is no condition to parse, which is the error
/// of an expression that the input ends before.
pub open spec fn parse_if(ts: Seq<SpecToken>, pos: int) -> Parsed<SpecExpr>
    decreases rest_len(ts, pos), 3nat,
{
    if peek(ts, pos) is None {
        Err(ParseError::UnexpectedEof)
    } else {
        match parse_expr(ts, pos + 1) {
            Err(error) => Err(error),
            Ok((condition, after_condition)) => if peek(ts, after_condition) != Some(
                SpecToken::LBrace,
            ) {
                Err(ParseError::ExpectedBlockAfterIf)
            } else if !advanced(ts, pos, after_condition) {
                Err(ParseError::UnexpectedEof)
            } else {
                match parse_block(ts, after_condition + 1) {
                    Err(error) => Err(error),
                    Ok((then_branch, after_then)) => if peek(ts, after_then) != Some(
                        SpecToken::KwElse,
                    ) {
                        Ok(
                            (
                                SpecExpr::If {
                                    condition: Box::new(condition),
                                    then_branch,
                                    else_branch: None,
                                },
                                after_then,
                            ),
                        )
                    } else if peek(ts, after_then + 1) != Some(SpecToken::LBrace) {
                        Err(ParseError::ExpectedBlockAfterElse)
                    } else if !advanced(ts, pos, after_then) {
                        Err(ParseError::UnexpectedEof)
                    } else {
                        match parse_block(ts, after_then + 2) {
                            Err(error) => Err(error),
                            Ok((else_branch, next)) => Ok(
                                (
                                    SpecExpr::If {
                                        condition: Box::new(condition),
                                        then_branch,
                                        else_branch: Some(else_branch),
                                    },
                                    next,
                                ),
                            ),
                        }
                    },
                }
            },
        }
    }
}

/// A loop: `while`, a condition, a block. The token at `pos` is taken for
/// the `while` and not looked at. At the end of the input there is no
/// condition to parse, which is the error of an expression that the input
/// ends before.
pub open spec fn parse_while(ts: Seq<SpecToken>, pos: int) -> Parsed<SpecExpr>
    decreases rest_len(ts, pos), 3nat,
{
    if peek(ts, pos) is None {
        Err(ParseError::UnexpectedEof)
    } else {
        match parse_expr(ts, pos + 1) {
            Err(error) => Err(error),
            Ok((condition, after_condition)) => if peek(ts, after_condition) != Some(
                SpecToken::LBrace,
            ) {
                Err(ParseError::ExpectedBlockAfterWhile)
            } else if !advanced(ts, pos, after_condition) {
                Err(ParseError::UnexpectedEof)
            } else {
                match parse_block(ts, after_condition + 1) {
                    Err(error) => Err(error),
                    Ok((body, next)) => Ok(
                        (SpecExpr::While { condition: Box::new(condition), body }, next),
                    ),
                }
            },
        }
    }
}

/// A block after its `{`: expressions up to the `}` that closes it.
pub open spec fn parse_block(ts: Seq<SpecToken>, pos: int) -> Parsed<Seq<SpecExpr>>
    decreases rest_len(ts, pos), 31nat,
{
    parse_block_rest(ts, pos, Seq::empty())
}

/// The rest of a block whose items so far are `items`. A block that the
/// input ends in is an error.
pub open spec fn parse_block_rest(ts: Seq<SpecToken>, pos: int, items: Seq<SpecExpr>) -> Parsed<
    Seq<SpecExpr>,
>
    decreases rest_len(ts, pos), 30nat,
{
    match peek(ts, pos) {
        None => Err(ParseError::ExpectedRBrace),
        Some(SpecToken::RBrace) => Ok((items, pos + 1)),
        Some(_) => match parse_expr(ts, pos) {
            Err(error) => Err(error),
            Ok((item, next)) => if advanced(ts, pos, next) {
                parse_block_rest(ts, next, items.push(item))
            } else {
                Err(ParseError::UnexpectedEof)
            },
        },
    }
}

/// The rest of a program whose expressions so far are `items`: expressions
/// up to the end of the input.
pub open spec fn parse_items(ts: Seq<SpecToken>, pos: int, items: Seq<SpecExpr>) -> Result<
    Seq<SpecExpr>,
    ParseError,
>
    decreases rest_len(ts, pos), 0nat,
{
    if peek(ts, pos) is None {
        Ok(items)
    } else {
        match parse_expr(ts, pos) {
            Err(error) => Err(error),
            Ok((item, next)) => if advanced(ts, pos, next) {
                parse_items(ts, next, items.push(item))
            } else {
                Err(ParseError::UnexpectedEof)
            },
        }
    }
}

/// A program: the expressions that the tokens spell, one after the other.
pub open spec fn parse_program(ts: Seq<SpecToken>) -> Result<Seq<SpecExpr>, ParseError> {
    parse_items(ts, 0, Seq::empty())
}

/// An expression that parses ends after the position where it began, and
/// not beyond the end of the input.
pub proof fn lemma_parse_advances(ts: Seq<SpecToken>, pos: int)
    ensures
        parse_expr(ts, pos) matches Ok((_, next)) ==> advanced(ts, pos, next),
    decreases rest_len(ts, pos), 20nat,
{
    lemma_binary_advances(ts, pos, 0);
}

/// [`lemma_parse_advances`], for a chain of one level.
pub proof fn lemma_binary_advances(ts: Seq<SpecToken>, pos: int, level: nat)
    ensures
        parse_binary(ts, pos, level) matches Ok((_, next)) ==> advanced(ts, pos, next),
    decreases rest_len(ts, pos), 7 + levels() - if level < levels() {
        level
    } else {
        levels()
    },
{
    if level >= levels() {
        lemma_unary_advances(ts, pos);
    } else {
        lemma_binary_advances(ts, pos, level + 1);
        match parse_binary(ts, pos, level + 1) {
            Err(_) => {},
            Ok((left, next)) => {
                lemma_binary_rest_advances(ts, next, level, left);
            },
        }
    }
}

/// The rest of a chain ends at or after the position where it began.
pub proof fn lemma_binary_rest_advances(ts: Seq<SpecToken>, pos: int, level: nat, left: SpecExpr)
    requires
        0 <= pos <= ts.len(),
    ensures
        parse_binary_rest(ts, pos, level, left) matches Ok((_, next)) ==> pos <= next <= ts.len(),
    decreases rest_len(ts, pos), 0nat,
{
    match peek(ts, pos) {
        None => {},
        Some(token) => match binary_op_at(level, token) {
            None => {},
            Some(op) => {
                lemma_binary_advances(ts, pos + 1, level + 1);
                match parse_binary(ts, pos + 1, level + 1) {
                    Err(_) => {},
                    Ok((right, next)) => {
                        lemma_binary_rest_advances(
                            ts,
                            next,
                            level,
                            SpecExpr::Binary { left: Box::new(left), op, right: Box::new(right) },
                        );
                    },
                }
            },
        },
    }
}

/// [`lemma_parse_advances`], for a prefix expression.
pub proof fn lemma_unary_advances(ts: Seq<SpecToken>, pos: int)
    ensures
        parse_unary(ts, pos) matches Ok((_, next)) ==> advanced(ts, pos, next),
    decreases rest_len(ts, pos), 6nat,
{
    match peek(ts, pos) {
        None => {
            lemma_primary_advances(ts, pos);
        },
        Some(token) => match unary_op_of(token) {
            None => {
                lemma_primary_advances(ts, pos);
            },
            Some(op) => {
                lemma_unary_advances(ts, pos + 1);
            },
        },
    }
}

/// [`lemma_parse_advances`], for a primary expression.
pub proof fn lemma_primary_advances(ts: Seq<SpecToken>, pos: int)
    ensures
        parse_primary(ts, pos) matches Ok((_, next)) ==> advanced(ts, pos, next),
    decreases rest_len(ts, pos), 5nat,
{
    match peek(ts, pos) {
        None => {},
        Some(SpecToken::KwLet) => {
            lemma_parse_advances(ts, pos + 5);
        },
        Some(SpecToken::KwIf) => {
            lemma_parse_advances(ts, pos + 1);
            match parse_expr(ts, pos + 1) {
                Err(_) => {},
                Ok((_, after_condition)) => {
                    if peek(ts, after_condition) == Some(SpecToken::LBrace) {
                        lemma_block_advances(ts, after_condition + 1, Seq::empty());
                        match parse_block(ts, after_condition + 1) {
                            Err(_) => {},
                            Ok((_, after_then)) => {
                                if peek(ts, after_then) == Some(SpecToken::KwElse) && peek(
                                    ts,
                                    after_then + 1,
                                ) == Some(SpecToken::LBrace) {
                                    lemma_block_advances(ts, after_then + 2, Seq::empty());
                                }
                            },
                        }
                    }
                },
            }
        },
        Some(SpecToken::KwWhile) => {
            lemma_parse_advances(ts, pos + 1);
            match parse_expr(ts, pos + 1) {
                Err(_) => {},
                Ok((_, after_condition)) => {
                    if peek(ts, after_condition) == Some(SpecToken::LBrace) {
                        lemma_block_advances(ts, after_condition + 1, Seq::empty());
                    }
                },
            }
        },
        Some(SpecToken::LParen) => {
            lemma_parse_advances(ts, pos + 1);
        },
        Some(SpecToken::Identifier(_)) => {
            lemma_parse_advances(ts, pos + 2);
        },
        Some(_) => {},
    }
}

/// A block that parses ends after the position where it began, and not
/// beyond the end of the input.
pub proof fn lemma_block_advances(ts: Seq<SpecToken>, pos: int, items: Seq<SpecExpr>)
    ensures
        parse_block_rest(ts, pos, items) matches Ok((_, next)) ==> advanced(ts, pos, next),
    decreases rest_len(ts, pos), 30nat,
{
    match peek(ts, pos) {
        None => {},
        Some(SpecToken::RBrace) => {},
        Some(_) => {
            lemma_parse_advances(ts, pos);
            match parse_expr(ts, pos) {
                Err(_) => {},
                Ok((item, next)) => {
                    lemma_block_advances(ts, next, items.push(item));
                },
            }
        },
    }
}

} // verus!
