use crate::ast::{BinaryOp, Expr, SpecExpr, UnaryOp, VarType};
use crate::grammar::{
    advanced, binary_op_at, lemma_binary_advances, lemma_block_advances, lemma_parse_advances,
    levels, parse_binary, parse_binary_rest, parse_block, parse_block_rest, parse_expr, parse_if,
    parse_items, parse_let, parse_primary, parse_simple, parse_unary, parse_while, peek,
    rest_len, Parsed,
};
use crate::lexer::{SpecToken, Token};
use vstd::prelude::*;

verus! {

impl Token {
    /// The name of the kind of token, as it appears in messages.
    pub fn kind_name(&self) -> (name: &'static str)
        ensures
            name@ == self@.kind_name(),
    {
        match self {
            Token::KwLet => "KwLet",
            Token::KwIf => "KwIf",
            Token::KwElse => "KwElse",
            Token::KwWhile => "KwWhile",
            Token::TypeNumber => "TypeNumber",
            Token::TypeBool => "TypeBool",
            Token::OpEq => "OpEq",
            Token::OpNeq => "OpNeq",
            Token::OpLe => "OpLe",
            Token::OpGe => "OpGe",
            Token::OpAnd => "OpAnd",
            Token::OpOr => "OpOr",
            Token::OpAdd => "OpAdd",
            Token::OpSub => "OpSub",
            Token::OpMul => "OpMul",
            Token::OpDiv => "OpDiv",
            Token::OpMod => "OpMod",
            Token::OpLt => "OpLt",
            Token::OpGt => "OpGt",
            Token::OpNot => "OpNot",
            Token::Assign => "Assign",
            Token::Colon => "Colon",
            Token::Semicolon => "Semicolon",
            Token::Comma => "Comma",
            Token::LParen => "LParen",
            Token::RParen => "RParen",
            Token::LBrace => "LBrace",
            Token::RBrace => "RBrace",
            Token::Identifier(_) => "Identifier",
            Token::LitBool(_) => "LitBool",
            Token::LitNumber(_) => "LitNumber",
        }
    }
}

/// The binary operator that `token` writes at `level`.
fn binary_operator(level: u8, token: &Token) -> (op: Option<BinaryOp>)
    ensures
        op == binary_op_at(level as nat, token@),
{
    if level == 0 {
        match token {
            Token::OpOr => Some(BinaryOp::Or),
            _ => None,
        }
    } else if level == 1 {
        match token {
            Token::OpAnd => Some(BinaryOp::And),
            _ => None,
        }
    } else if level == 2 {
        match token {
            Token::OpEq => Some(BinaryOp::Eq),
            Token::OpNeq => Some(BinaryOp::Neq),
            _ => None,
        }
    } else if level == 3 {
        match token {
            Token::OpLt => Some(BinaryOp::Lt),
            Token::OpGt => Some(BinaryOp::Gt),
            Token::OpLe => Some(BinaryOp::Le),
            Token::OpGe => Some(BinaryOp::Ge),
            _ => None,
        }
    } else if level == 4 {
        match token {
            Token::OpAdd => Some(BinaryOp::Add),
            Token::OpSub => Some(BinaryOp::Sub),
            _ => None,
        }
    } else if level == 5 {
        match token {
            Token::OpMul => Some(BinaryOp::Mul),
            Token::OpDiv => Some(BinaryOp::Div),
            Token::OpMod => Some(BinaryOp::Mod),
            _ => None,
        }
    } else {
        None
    }
}

/// Precedence level of `||`.
pub const LEVEL_OR: u8 = 0;

/// Precedence level of `&&`.
pub const LEVEL_AND: u8 = 1;

/// Precedence level of `==` and `!=`.
pub const LEVEL_EQUALITY: u8 = 2;

/// Precedence level of `<`, `>`, `<=` and `>=`.
pub const LEVEL_COMPARISON: u8 = 3;

/// Precedence level of `+` and `-`.
pub const LEVEL_ADDITION: u8 = 4;

/// Precedence level of `*`, `/` and `%`.
pub const LEVEL_MULTIPLICATION: u8 = 5;

/// A recursive-descent parser over a sequence of tokens.
pub struct Parser {
    tokens: Vec<Token>,
    pos: usize,
}

impl Parser {
    #[verifier::type_invariant]
    spec fn inv(self) -> bool {
        self.pos <= self.tokens.len()
    }

    /// The tokens that the parser was made with.
    pub closed spec fn tokens(&self) -> Seq<SpecToken> {
        self.tokens.deep_view()
    }

    /// The index of the next token to be read.
    pub closed spec fn position(&self) -> int {
        self.pos as int
    }

    /// `after` is `before` moved past what `parsed` read, and `res` is the
    /// value of `parsed`, or its error by its message.
    pub open spec fn agrees(
        before: &Self,
        after: &Self,
        parsed: Parsed<SpecExpr>,
        res: Result<Expr, String>,
    ) -> bool {
        &&& after.tokens() == before.tokens()
        &&& match parsed {
            Ok((value, next)) => res matches Ok(expr) && expr@ == value && after.position() == next,
            Err(error) => res matches Err(message) && message@ == error.message(),
        }
    }

    /// [`Parser::agrees`], for a block.
    pub open spec fn agrees_block(
        before: &Self,
        after: &Self,
        parsed: Parsed<Seq<SpecExpr>>,
        res: Result<Vec<Expr>, String>,
    ) -> bool {
        &&& after.tokens() == before.tokens()
        &&& match parsed {
            Ok((value, next)) => res matches Ok(items) && Expr::models(items@) == value
                && after.position() == next,
            Err(error) => res matches Err(message) && message@ == error.message(),
        }
    }

    /// A parser at the first of `tokens`.
    pub fn new(tokens: Vec<Token>) -> (parser: Self)
        ensures
            parser.tokens() == tokens.deep_view(),
            parser.position() == 0,
    {
        Parser { tokens, pos: 0 }
    }

    /// The next token, which stays unread.
    fn peek(&self) -> (token: Option<&Token>)
        ensures
            match token {
                Some(t) => peek(self.tokens(), self.position()) == Some(t@),
                None => peek(self.tokens(), self.position()) is None,
            },
            self.position() <= self.tokens().len(),
    {
        proof {
            use_type_invariant(self);
        }
        if self.pos < self.tokens.len() {
            Some(&self.tokens[self.pos])
        } else {
            None
        }
    }

    /// Tells whether the next token is `expected`, a token without a value.
    fn next_is(&self, expected: &Token) -> (found: bool)
        requires
            !(expected is Identifier),
        ensures
            found == (peek(self.tokens(), self.position()) == Some(expected@)),
            self.position() <= self.tokens().len(),
    {
        match self.peek() {
            Some(token) => same_kind(token, expected),
            None => false,
        }
    }

    /// Moves past the next token, if there is one.
    fn skip(&mut self)
        ensures
            final(self).tokens() == old(self).tokens(),
            final(self).position() == if old(self).position() < old(self).tokens().len() {
                old(self).position() + 1
            } else {
                old(self).position()
            },
            final(self).position() <= final(self).tokens().len(),
    {
        proof {
            use_type_invariant(&*self);
        }
        assert(self.tokens().len() == self.tokens.len());
        if self.pos < self.tokens.len() {
            self.pos = self.pos + 1;
        }
    }

    /// Moves past the next token.
    fn advance(&mut self)
        requires
            old(self).position() < old(self).tokens().len(),
        ensures
            final(self).tokens() == old(self).tokens(),
            final(self).position() == old(self).position() + 1,
    {
        assert(self.tokens().len() == self.tokens.len());
        self.pos = self.pos + 1;
    }
}

impl Parser {
    /// Parses one expression.
    fn parse_expr(&mut self) -> (res: Result<Expr, String>)
        ensures
            Self::agrees(
                old(self),
                final(self),
                parse_expr(old(self).tokens(), old(self).position()),
                res,
            ),
        decreases rest_len(old(self).tokens(), old(self).position()), 20nat,
    {
        self.parse_binary(LEVEL_OR)
    }

    /// Parses a chain of binary operators of `level`, which associates to the
    /// left, over operands of the next level.
    fn parse_binary(&mut self, level: u8) -> (res: Result<Expr, String>)
        ensures
            Self::agrees(
                old(self),
                final(self),
                parse_binary(old(self).tokens(), old(self).position(), level as nat),
                res,
            ),
        decreases rest_len(old(self).tokens(), old(self).position()), 7 + levels() - if level
            < levels() {
            level as nat
        } else {
            levels()
        },
    {
        if level > LEVEL_MULTIPLICATION {
            return self.parse_unary();
        }
        let ghost ts = self.tokens();
        let ghost start = self.position();
        proof {
            lemma_binary_advances(ts, start, level as nat + 1);
        }
        let mut expr = match self.parse_binary(level + 1) {
            Ok(expr) => expr,
            Err(message) => {
                return Err(message);
            },
        };
        let ghost chain = parse_binary_rest(ts, self.position(), level as nat, expr@);
        loop
            invariant
                level <= LEVEL_MULTIPLICATION,
                self.tokens() == ts,
                advanced(ts, start, self.position()),
                start == old(self).position(),
                ts == old(self).tokens(),
                chain == parse_binary(ts, start, level as nat),
                chain == parse_binary_rest(ts, self.position(), level as nat, expr@),
            decreases ts.len() - self.position(),
        {
            let op = match self.peek() {
                Some(token) => binary_operator(level, token),
                None => None,
            };
            let op = match op {
                Some(op) => op,
                None => {
                    return Ok(expr);
                },
            };
            self.advance();
            proof {
                lemma_binary_advances(ts, self.position(), level as nat + 1);
            }
            let right = match self.parse_binary(level + 1) {
                Ok(right) => right,
                Err(message) => {
                    return Err(message);
                },
            };
            expr = Expr::Binary { left: Box::new(expr), op, right: Box::new(right) };
        }
    }

    /// Parses prefix operators and the primary expression they apply to.
    fn parse_unary(&mut self) -> (res: Result<Expr, String>)
        ensures
            Self::agrees(
                old(self),
                final(self),
                parse_unary(old(self).tokens(), old(self).position()),
                res,
            ),
        decreases rest_len(old(self).tokens(), old(self).position()), 6nat,
    {
        let op = match self.peek() {
            Some(Token::OpNot) => Some(UnaryOp::Not),
            Some(Token::OpSub) => Some(UnaryOp::Neg),
            _ => None,
        };
        match op {
            Some(op) => {
                self.advance();
                match self.parse_unary() {
                    Ok(expr) => Ok(Expr::Unary { op, expr: Box::new(expr) }),
                    Err(message) => Err(message),
                }
            },
            None => self.parse_kw_or_expr(),
        }
    }

    /// Parses a primary expression: what a keyword begins, or a simple
    /// expression.
    fn parse_kw_or_expr(&mut self) -> (res: Result<Expr, String>)
        ensures
            Self::agrees(
                old(self),
                final(self),
                parse_primary(old(self).tokens(), old(self).position()),
                res,
            ),
        decreases rest_len(old(self).tokens(), old(self).position()), 5nat,
    {
        let keyword: u8 = match self.peek() {
            Some(Token::KwLet) => 1,
            Some(Token::KwIf) => 2,
            Some(Token::KwWhile) => 3,
            _ => 0,
        };
        if keyword == 1 {
            self.parse_let()
        } else if keyword == 2 {
            self.parse_if()
        } else if keyword == 3 {
            self.parse_while()
        } else {
            self.parse_simple_expr_or_literal()
        }
    }

    /// Parses an expression in parentheses, a literal, an assignment or a
    /// variable.
    fn parse_simple_expr_or_literal(&mut self) -> (res: Result<Expr, String>)
        ensures
            Self::agrees(
                old(self),
                final(self),
                parse_simple(old(self).tokens(), old(self).position()),
                res,
            ),
        decreases rest_len(old(self).tokens(), old(self).position()), 4nat,
    {
        let first = match self.peek() {
            Some(token) => token.clone(),
            None => {
                return Err(String::from_str("Unexpected EOF"));
            },
        };
        self.advance();
        match first {
            Token::LParen => {
                let expr = match self.parse_expr() {
                    Ok(expr) => expr,
                    Err(message) => {
                        return Err(message);
                    },
                };
                if self.next_is(&Token::RParen) {
                    self.advance();
                    Ok(expr)
                } else {
                    Err(String::from_str("Expected ')'"))
                }
            },
            Token::LitNumber(n) => Ok(Expr::Number(n)),
            Token::LitBool(v) => Ok(Expr::Bool(v)),
            Token::Identifier(name) => {
                if self.next_is(&Token::Assign) {
                    self.advance();
                    let expr = match self.parse_expr() {
                        Ok(expr) => expr,
                        Err(message) => {
                            return Err(message);
                        },
                    };
                    if self.next_is(&Token::Semicolon) {
                        self.advance();
                        Ok(Expr::Assign { name, expr: Box::new(expr) })
                    } else {
                        Err(String::from_str("Expected ';' at the end of statement"))
                    }
                } else {
                    Ok(Expr::Var(name))
                }
            },
            token => {
                let mut message = String::from_str("Unexpected token ");
                message.append(token.kind_name());
                Err(message)
            },
        }
    }
}

impl Parser {
    /// Parses a declaration. The next token is taken for the `let`.
    fn parse_let(&mut self) -> (res: Result<Expr, String>)
        ensures
            Self::agrees(
                old(self),
                final(self),
                parse_let(old(self).tokens(), old(self).position()),
                res,
            ),
        decreases rest_len(old(self).tokens(), old(self).position()), 3nat,
    {
        self.skip();
        let name = match self.peek() {
            Some(Token::Identifier(name)) => name.clone(),
            _ => {
                return Err(String::from_str("Expected identifier after 'let'"));
            },
        };
        self.advance();
        if !self.next_is(&Token::Colon) {
            return Err(String::from_str("Expected ':' after identifier"));
        }
        self.advance();
        let var_type = match self.peek() {
            Some(Token::TypeNumber) => VarType::Number,
            Some(Token::TypeBool) => VarType::Bool,
            _ => {
                return Err(String::from_str("Expected type ':'"));
            },
        };
        self.advance();
        if !self.next_is(&Token::Assign) {
            return Err(String::from_str("Expected operator '=' after type"));
        }
        self.advance();
        let expr = match self.parse_expr() {
            Ok(expr) => expr,
            Err(message) => {
                return Err(message);
            },
        };
        if !self.next_is(&Token::Semicolon) {
            return Err(String::from_str("Expected ';' at the end of statement"));
        }
        self.advance();
        Ok(Expr::Let { name, var_type, expr: Box::new(expr) })
    }

    /// Parses a conditional. The next token is taken for the `if`.
    fn parse_if(&mut self) -> (res: Result<Expr, String>)
        ensures
            Self::agrees(
                old(self),
                final(self),
                parse_if(old(self).tokens(), old(self).position()),
                res,
            ),
        decreases rest_len(old(self).tokens(), old(self).position()), 3nat,
    {
        let ghost ts = self.tokens();
        let ghost start = self.position();
        if self.peek().is_none() {
            return Err(String::from_str("Unexpected EOF"));
        }
        self.advance();
        proof {
            lemma_parse_advances(ts, start + 1);
        }
        let condition = match self.parse_expr() {
            Ok(expr) => expr,
            Err(message) => {
                return Err(message);
            },
        };
        if !self.next_is(&Token::LBrace) {
            return Err(String::from_str("Expected '{' after 'if'"));
        }
        self.advance();
        proof {
            lemma_block_advances(ts, self.position(), Seq::empty());
        }
        let then_branch = match self.parse_block() {
            Ok(items) => items,
            Err(message) => {
                return Err(message);
            },
        };
        let else_branch = if self.next_is(&Token::KwElse) {
            self.advance();
            if !self.next_is(&Token::LBrace) {
                return Err(String::from_str("Expected '{' after 'else'"));
            }
            self.advance();
            match self.parse_block() {
                Ok(items) => Some(items),
                Err(message) => {
                    return Err(message);
                },
            }
        } else {
            None
        };
        Ok(Expr::If { condition: Box::new(condition), then_branch, else_branch })
    }

    /// Parses a loop. The next token is taken for the `while`.
    fn parse_while(&mut self) -> (res: Result<Expr, String>)
        ensures
            Self::agrees(
                old(self),
                final(self),
                parse_while(old(self).tokens(), old(self).position()),
                res,
            ),
        decreases rest_len(old(self).tokens(), old(self).position()), 3nat,
    {
        let ghost ts = self.tokens();
        let ghost start = self.position();
        if self.peek().is_none() {
            return Err(String::from_str("Unexpected EOF"));
        }
        self.advance();
        proof {
            lemma_parse_advances(ts, start + 1);
        }
        let condition = match self.parse_expr() {
            Ok(expr) => expr,
            Err(message) => {
                return Err(message);
            },
        };
        if !self.next_is(&Token::LBrace) {
            return Err(String::from_str("Expected '{' after 'while'"));
        }
        self.advance();
        let body = match self.parse_block() {
            Ok(items) => items,
            Err(message) => {
                return Err(message);
            },
        };
        Ok(Expr::While { condition: Box::new(condition), body })
    }

    /// Parses the items of a block up to the `}` that closes it. The `{` is
    /// read already.
    fn parse_block(&mut self) -> (res: Result<Vec<Expr>, String>)
        ensures
            Self::agrees_block(
                old(self),
                final(self),
                parse_block(old(self).tokens(), old(self).position()),
                res,
            ),
        decreases rest_len(old(self).tokens(), old(self).position()), 31nat,
    {
        let ghost ts = self.tokens();
        let ghost start = self.position();
        let mut expressions: Vec<Expr> = Vec::new();
        proof {
            use_type_invariant(&*self);
            assert(self.tokens().len() == self.tokens.len());
        }
        assert(Expr::models(expressions@) =~= Seq::<SpecExpr>::empty());
        loop
            invariant
                self.tokens() == ts,
                start <= self.position() <= ts.len(),
                start == old(self).position(),
                ts == old(self).tokens(),
                parse_block(ts, start) == parse_block_rest(
                    ts,
                    self.position(),
                    Expr::models(expressions@),
                ),
            decreases ts.len() - self.position(),
        {
            let ghost here = self.position();
            let ghost so_far = Expr::models(expressions@);
            let closed = match self.peek() {
                Some(Token::RBrace) => true,
                Some(_) => false,
                None => {
                    return Err(String::from_str("Expected '}' at the end of block"));
                },
            };
            if closed {
                self.advance();
                return Ok(expressions);
            }
            proof {
                lemma_parse_advances(ts, here);
            }
            let expr = match self.parse_expr() {
                Ok(expr) => expr,
                Err(message) => {
                    return Err(message);
                },
            };
            expressions.push(expr);
            assert(Expr::models(expressions@) =~= so_far.push(expr@));
        }
    }

    /// Parses the rest of the tokens as a program: expressions, one after the
    /// other, up to the end. Whether it gives the program or stops on an
    /// error, the parser is left at the end of its tokens.
    pub fn parse(&mut self) -> (res: Result<Vec<Expr>, String>)
        ensures
            final(self).tokens() == old(self).tokens(),
            final(self).position() == old(self).tokens().len(),
            match parse_items(old(self).tokens(), old(self).position(), Seq::empty()) {
                Ok(program) => res matches Ok(items) && items.deep_view() == program,
                Err(error) => res matches Err(message) && message@ == error.message(),
            },
    {
        let ghost ts = self.tokens();
        let ghost start = self.position();
        let mut expressions: Vec<Expr> = Vec::new();
        proof {
            use_type_invariant(&*self);
            assert(self.tokens().len() == self.tokens.len());
        }
        assert(Expr::models(expressions@) =~= Seq::<SpecExpr>::empty());
        loop
            invariant
                self.tokens() == ts,
                self.position() <= ts.len(),
                ts == old(self).tokens(),
                parse_items(ts, old(self).position(), Seq::empty()) == parse_items(
                    ts,
                    self.position(),
                    Expr::models(expressions@),
                ),
            decreases ts.len() - self.position(),
        {
            let ghost here = self.position();
            let ghost so_far = Expr::models(expressions@);
            if self.peek().is_none() {
                assert(expressions.deep_view() =~= so_far);
                return Ok(expressions);
            }
            proof {
                lemma_parse_advances(ts, here);
            }
            let expr = match self.parse_expr() {
                Ok(expr) => expr,
                Err(message) => {
                    self.finish();
                    return Err(message);
                },
            };
            expressions.push(expr);
            assert(Expr::models(expressions@) =~= so_far.push(expr@));
        }
    }

    /// Moves to the end of the tokens.
    fn finish(&mut self)
        ensures
            final(self).tokens() == old(self).tokens(),
            final(self).position() == old(self).tokens().len(),
    {
        self.pos = self.tokens.len();
    }
}

/// Tells whether two tokens are equal, for an `expected` that is no
/// identifier.
fn same_kind(token: &Token, expected: &Token) -> (same: bool)
    requires
        !(expected is Identifier),
    ensures
        same == (token@ == expected@),
{
    match (token, expected) {
        (Token::KwLet, Token::KwLet) => true,
        (Token::KwIf, Token::KwIf) => true,
        (Token::KwElse, Token::KwElse) => true,
        (Token::KwWhile, Token::KwWhile) => true,
        (Token::TypeNumber, Token::TypeNumber) => true,
        (Token::TypeBool, Token::TypeBool) => true,
        (Token::OpEq, Token::OpEq) => true,
        (Token::OpNeq, Token::OpNeq) => true,
        (Token::OpLe, Token::OpLe) => true,
        (Token::OpGe, Token::OpGe) => true,
        (Token::OpAnd, Token::OpAnd) => true,
        (Token::OpOr, Token::OpOr) => true,
        (Token::OpAdd, Token::OpAdd) => true,
        (Token::OpSub, Token::OpSub) => true,
        (Token::OpMul, Token::OpMul) => true,
        (Token::OpDiv, Token::OpDiv) => true,
        (Token::OpMod, Token::OpMod) => true,
        (Token::OpLt, Token::OpLt) => true,
        (Token::OpGt, Token::OpGt) => true,
        (Token::OpNot, Token::OpNot) => true,
        (Token::Assign, Token::Assign) => true,
        (Token::Colon, Token::Colon) => true,
        (Token::Semicolon, Token::Semicolon) => true,
        (Token::Comma, Token::Comma) => true,
        (Token::LParen, Token::LParen) => true,
        (Token::RParen, Token::RParen) => true,
        (Token::LBrace, Token::LBrace) => true,
        (Token::RBrace, Token::RBrace) => true,
        (Token::LitBool(a), Token::LitBool(b)) => *a == *b,
        (Token::LitNumber(a), Token::LitNumber(b)) => *a == *b,
        _ => false,
    }
}

} // verus!
