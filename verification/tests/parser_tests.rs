use frust::ast::{BinaryOp, Expr, UnaryOp, VarType};
use frust::lexer::{lexer, Token};
use frust::parser::Parser;
use frust::unparse::to_tokens;

fn parse(source: &str) -> Result<Vec<Expr>, String> {
    Parser::new(lexer(source).unwrap()).parse()
}

fn one(source: &str) -> Expr {
    let mut all = parse(source).unwrap();
    assert_eq!(all.len(), 1);
    all.remove(0)
}

fn num(n: i64) -> Box<Expr> {
    Box::new(Expr::Number(n))
}

fn var(name: &str) -> Box<Expr> {
    Box::new(Expr::Var(name.to_string()))
}

fn bin(left: Box<Expr>, op: BinaryOp, right: Box<Expr>) -> Box<Expr> {
    Box::new(Expr::Binary { left, op, right })
}

fn err(source: &str) -> String {
    parse(source).unwrap_err()
}

#[test]
fn no_tokens_make_the_empty_program() {
    assert_eq!(Parser::new(vec![]).parse(), Ok(vec![]));
}

#[test]
fn literals_and_variables() {
    assert_eq!(one("42"), Expr::Number(42));
    assert_eq!(one("true"), Expr::Bool(true));
    assert_eq!(one("false"), Expr::Bool(false));
    assert_eq!(one("x"), Expr::Var("x".to_string()));
}

#[test]
fn products_bind_tighter_than_sums() {
    assert_eq!(one("1 + 2 * 3"), *bin(num(1), BinaryOp::Add, bin(num(2), BinaryOp::Mul, num(3))));
    assert_eq!(one("1 * 2 + 3"), *bin(bin(num(1), BinaryOp::Mul, num(2)), BinaryOp::Add, num(3)));
    assert_eq!(one("1 - 2 / 3"), *bin(num(1), BinaryOp::Sub, bin(num(2), BinaryOp::Div, num(3))));
    assert_eq!(one("1 + 2 % 3"), *bin(num(1), BinaryOp::Add, bin(num(2), BinaryOp::Mod, num(3))));
}

#[test]
fn binary_operators_associate_to_the_left() {
    assert_eq!(one("1 - 2 - 3"), *bin(bin(num(1), BinaryOp::Sub, num(2)), BinaryOp::Sub, num(3)));
    assert_eq!(one("8 / 4 / 2"), *bin(bin(num(8), BinaryOp::Div, num(4)), BinaryOp::Div, num(2)));
    assert_eq!(one("a || b || c"), *bin(bin(var("a"), BinaryOp::Or, var("b")), BinaryOp::Or, var("c")));
    assert_eq!(one("a == b != c"), *bin(bin(var("a"), BinaryOp::Eq, var("b")), BinaryOp::Neq, var("c")));
    assert_eq!(one("a < b >= c"), *bin(bin(var("a"), BinaryOp::Lt, var("b")), BinaryOp::Ge, var("c")));
}

#[test]
fn the_levels_of_precedence_in_order() {
    // a || (b && (c == (d < (e + (f * g)))))
    let expected = bin(
        var("a"),
        BinaryOp::Or,
        bin(
            var("b"),
            BinaryOp::And,
            bin(
                var("c"),
                BinaryOp::Eq,
                bin(var("d"), BinaryOp::Lt, bin(var("e"), BinaryOp::Add, bin(var("f"), BinaryOp::Mul, var("g")))),
            ),
        ),
    );
    assert_eq!(one("a || b && c == d < e + f * g"), *expected);
    // ((((a * b) + c) > d) != e) && f) || g
    let expected = bin(
        bin(
            bin(
                bin(bin(bin(var("a"), BinaryOp::Mul, var("b")), BinaryOp::Add, var("c")), BinaryOp::Gt, var("d")),
                BinaryOp::Neq,
                var("e"),
            ),
            BinaryOp::And,
            var("f"),
        ),
        BinaryOp::Or,
        var("g"),
    );
    assert_eq!(one("a * b + c > d != e && f || g"), *expected);
}

#[test]
fn every_comparison_operator() {
    assert_eq!(one("a < b"), *bin(var("a"), BinaryOp::Lt, var("b")));
    assert_eq!(one("a > b"), *bin(var("a"), BinaryOp::Gt, var("b")));
    assert_eq!(one("a <= b"), *bin(var("a"), BinaryOp::Le, var("b")));
    assert_eq!(one("a >= b"), *bin(var("a"), BinaryOp::Ge, var("b")));
}

#[test]
fn parentheses_override_precedence() {
    assert_eq!(one("(1 + 2) * 3"), *bin(bin(num(1), BinaryOp::Add, num(2)), BinaryOp::Mul, num(3)));
    assert_eq!(one("1 - (2 - 3)"), *bin(num(1), BinaryOp::Sub, bin(num(2), BinaryOp::Sub, num(3))));
    assert_eq!(one("((x))"), Expr::Var("x".to_string()));
}

#[test]
fn prefix_operators_nest_to_the_right() {
    assert_eq!(one("-x"), Expr::Unary { op: UnaryOp::Neg, expr: var("x") });
    assert_eq!(
        one("!-x"),
        Expr::Unary { op: UnaryOp::Not, expr: Box::new(Expr::Unary { op: UnaryOp::Neg, expr: var("x") }) }
    );
    assert_eq!(
        one("-a * b"),
        *bin(Box::new(Expr::Unary { op: UnaryOp::Neg, expr: var("a") }), BinaryOp::Mul, var("b"))
    );
    assert_eq!(
        one("a - -b"),
        *bin(var("a"), BinaryOp::Sub, Box::new(Expr::Unary { op: UnaryOp::Neg, expr: var("b") }))
    );
}

#[test]
fn a_declaration() {
    assert_eq!(
        one("let x: num = 1 + 2;"),
        Expr::Let { name: "x".to_string(), var_type: VarType::Number, expr: bin(num(1), BinaryOp::Add, num(2)) }
    );
    assert_eq!(
        one("let done: bool = false;"),
        Expr::Let { name: "done".to_string(), var_type: VarType::Bool, expr: Box::new(Expr::Bool(false)) }
    );
}

#[test]
fn the_declared_type_is_not_checked() {
    assert_eq!(
        one("let x: bool = 5;"),
        Expr::Let { name: "x".to_string(), var_type: VarType::Bool, expr: num(5) }
    );
}

#[test]
fn a_name_before_an_equals_sign_is_an_assignment() {
    assert_eq!(one("x = 5;"), Expr::Assign { name: "x".to_string(), expr: num(5) });
    assert_eq!(
        one("x = y = 5;;"),
        Expr::Assign { name: "x".to_string(), expr: Box::new(Expr::Assign { name: "y".to_string(), expr: num(5) }) }
    );
    assert_eq!(one("x == 5"), *bin(var("x"), BinaryOp::Eq, num(5)));
}

#[test]
fn a_conditional_with_and_without_else() {
    assert_eq!(
        one("if x < 1 { y = 2; }"),
        Expr::If {
            condition: bin(var("x"), BinaryOp::Lt, num(1)),
            then_branch: vec![Expr::Assign { name: "y".to_string(), expr: num(2) }],
            else_branch: None,
        }
    );
    assert_eq!(
        one("if x { } else { y = 2; z = 3; }"),
        Expr::If {
            condition: var("x"),
            then_branch: vec![],
            else_branch: Some(vec![
                Expr::Assign { name: "y".to_string(), expr: num(2) },
                Expr::Assign { name: "z".to_string(), expr: num(3) },
            ]),
        }
    );
}

#[test]
fn a_loop() {
    assert_eq!(
        one("while i != 10 { i = i + 1; }"),
        Expr::While {
            condition: bin(var("i"), BinaryOp::Neq, num(10)),
            body: vec![Expr::Assign { name: "i".to_string(), expr: bin(var("i"), BinaryOp::Add, num(1)) }],
        }
    );
}

#[test]
fn blocks_nest() {
    let program = parse("while a { if b { while c { } } else { } }").unwrap();
    assert_eq!(
        program,
        vec![Expr::While {
            condition: var("a"),
            body: vec![Expr::If {
                condition: var("b"),
                then_branch: vec![Expr::While { condition: var("c"), body: vec![] }],
                else_branch: Some(vec![]),
            }],
        }]
    );
}

#[test]
fn a_program_is_a_sequence_of_expressions() {
    let program = parse("let a: num = 1; a = 2; a").unwrap();
    assert_eq!(program.len(), 3);
    assert_eq!(program[2], Expr::Var("a".to_string()));
}

#[test]
fn statements_may_stand_where_expressions_do() {
    assert_eq!(
        one("1 + let x: num = 2;"),
        *bin(num(1), BinaryOp::Add, Box::new(Expr::Let { name: "x".to_string(), var_type: VarType::Number, expr: num(2) }))
    );
}

#[test]
fn errors_of_a_declaration() {
    assert_eq!(err("let 5"), "Expected identifier after 'let'");
    assert_eq!(err("let"), "Expected identifier after 'let'");
    assert_eq!(err("let x = 5;"), "Expected ':' after identifier");
    assert_eq!(err("let x: y = 5;"), "Expected type ':'");
    assert_eq!(err("let x: num 5;"), "Expected operator '=' after type");
    assert_eq!(err("let x: num = 5"), "Expected ';' at the end of statement");
    assert_eq!(err("let x: num = ;"), "Unexpected token Semicolon");
}

#[test]
fn errors_of_expressions() {
    assert_eq!(err("(1 + 2"), "Expected ')'");
    assert_eq!(err("(1 + 2 }"), "Expected ')'");
    assert_eq!(err(")"), "Unexpected token RParen");
    assert_eq!(err("1 + * 2"), "Unexpected token OpMul");
    assert_eq!(err("1 +"), "Unexpected EOF");
    assert_eq!(err("!"), "Unexpected EOF");
    assert_eq!(err("x = 1"), "Expected ';' at the end of statement");
    assert_eq!(err("else"), "Unexpected token KwElse");
    assert_eq!(err("num"), "Unexpected token TypeNumber");
    assert_eq!(err(","), "Unexpected token Comma");
    assert_eq!(err("1 2 :"), "Unexpected token Colon");
}

#[test]
fn errors_of_conditionals_and_loops() {
    assert_eq!(err("if x y"), "Expected '{' after 'if'");
    assert_eq!(err("if x"), "Expected '{' after 'if'");
    assert_eq!(err("if x { } else y"), "Expected '{' after 'else'");
    assert_eq!(err("while x y"), "Expected '{' after 'while'");
    assert_eq!(err("while { }"), "Unexpected token LBrace");
}

#[test]
fn a_block_that_the_input_ends_in_is_an_error() {
    assert_eq!(err("if x {"), "Expected '}' at the end of block");
    assert_eq!(err("while x { y = 1;"), "Expected '}' at the end of block");
    assert_eq!(err("if x { } else { if y { }"), "Expected '}' at the end of block");
}

#[test]
fn the_first_error_ends_the_parsing() {
    assert_eq!(err("let x: num = 1; ) let"), "Unexpected token RParen");
}

#[test]
fn a_parser_is_at_its_end_after_parsing() {
    let mut parser = Parser::new(lexer("x = 1; y = 2;").unwrap());
    assert_eq!(parser.parse().unwrap().len(), 2);
    assert_eq!(parser.parse(), Ok(vec![]));
    let mut failing = Parser::new(lexer("x = ; y = 2;").unwrap());
    assert!(failing.parse().is_err());
    assert_eq!(failing.parse(), Ok(vec![]));
}

#[test]
fn a_tree_clones_to_an_equal_tree() {
    let program = parse("let a: num = 1; while a < 10 { if a == 5 { a = a * 2; } else { a = a + -1; } }").unwrap();
    for expr in &program {
        assert_eq!(&expr.clone(), expr);
    }
}

#[test]
fn tokens_of_a_tree() {
    let program = parse("x = (1 + 2) * 3;").unwrap();
    assert_eq!(
        to_tokens(&program),
        vec![
            Token::Identifier("x".to_string()),
            Token::Assign,
            Token::LParen,
            Token::LitNumber(1),
            Token::OpAdd,
            Token::LitNumber(2),
            Token::RParen,
            Token::OpMul,
            Token::LitNumber(3),
            Token::Semicolon,
        ]
    );
    assert_eq!(
        to_tokens(&vec![Expr::Var("x".to_string()), Expr::Unary { op: UnaryOp::Neg, expr: num(2) }]),
        vec![
            Token::LParen,
            Token::Identifier("x".to_string()),
            Token::RParen,
            Token::LParen,
            Token::OpSub,
            Token::LitNumber(2),
            Token::RParen,
        ]
    );
}

fn round_trip(program: Vec<Expr>) {
    let tokens = to_tokens(&program);
    assert_eq!(Parser::new(tokens).parse(), Ok(program));
}

#[test]
fn parsed_programs_are_read_back_from_their_tokens() {
    for source in [
        "",
        "1",
        "x",
        "1 + 2 * 3",
        "(1 + 2) * 3",
        "1 - 2 - 3",
        "1 - (2 - 3)",
        "a || b && c == d < e + f * g % h",
        "!-!x",
        "-(a + b)",
        "x -1",
        "x (-1)",
        "let x: num = 1; let y: bool = true; x = x + 1;",
        "if a { } if b { } else { }",
        "if a < b { x = 1; } else { if c { y = 2; } }",
        "while i <= 10 { i = i + 1; let j: num = i * i; }",
        "1 + let x: num = 2;",
        "x = y = 5;;",
        "let z: num = if a { } ;",
        "a a a",
    ] {
        round_trip(parse(source).unwrap());
    }
}

#[test]
fn trees_that_no_source_gives_are_read_back_too() {
    round_trip(vec![Expr::Number(-5)]);
    round_trip(vec![Expr::Var("not a name".to_string())]);
    round_trip(vec![
        Expr::Number(1),
        Expr::Unary { op: UnaryOp::Neg, expr: num(2) },
        Expr::Var("x".to_string()),
        Expr::Assign { name: "y".to_string(), expr: var("z") },
    ]);
    round_trip(vec![Expr::Binary {
        left: Box::new(Expr::If {
            condition: Box::new(Expr::While { condition: var("a"), body: vec![Expr::Bool(true)] }),
            then_branch: vec![Expr::If { condition: num(1), then_branch: vec![], else_branch: None }],
            else_branch: None,
        }),
        op: BinaryOp::Or,
        right: bin(bin(num(1), BinaryOp::Add, num(2)), BinaryOp::Add, bin(num(3), BinaryOp::Add, num(4))),
    }]);
}
