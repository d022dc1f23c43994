use frust::ast::{BinaryOp, Expr, VarType};
use frust::codegen::CodeGenContext;
use frust::lexer::{lexer, Token};
use frust::parser::Parser;
use frust::preprocessor::remove_comments;

const EXAMPLE: &str = "// a counter\nlet x: num = 5;\n/* a flag\n   on two lines */\nlet flag: bool = true;\nif x < 10 { x = x + 1; } else { x = x - 1; }\nwhile x < 20 { x = x * 2; }\n";

const STRIPPED: &str = "\nlet x: num = 5;\n\nlet flag: bool = true;\nif x < 10 { x = x + 1; } else { x = x - 1; }\nwhile x < 20 { x = x * 2; }\n";

fn preprocessing() {
    let preprocessed_code = remove_comments(EXAMPLE).unwrap();
    println!("{}", preprocessed_code);
    assert_eq!(preprocessed_code, STRIPPED);
}

fn lexing() {
    let preprocessed_code = remove_comments(EXAMPLE).unwrap();
    let tokens = lexer(&preprocessed_code).unwrap();
    for token in &tokens {
        println!("{:?}", token);
    }
    assert_eq!(tokens.len(), 47);
    assert_eq!(
        tokens[..7],
        [
            Token::KwLet,
            Token::Identifier("x".to_string()),
            Token::Colon,
            Token::TypeNumber,
            Token::Assign,
            Token::LitNumber(5),
            Token::Semicolon,
        ]
    );
    assert_eq!(tokens[46], Token::RBrace);
}

fn parsing() {
    let preprocessed_code = remove_comments(EXAMPLE).unwrap();
    let tokens = lexer(&preprocessed_code).unwrap();
    let mut parser = Parser::new(tokens);
    let expressions = parser.parse().unwrap();
    for expr in &expressions {
        println!("{:#?}", expr);
    }
    assert_eq!(expressions.len(), 4);
    assert_eq!(
        expressions[0],
        Expr::Let { name: "x".to_string(), var_type: VarType::Number, expr: Box::new(Expr::Number(5)) }
    );
    assert_eq!(
        expressions[1],
        Expr::Let { name: "flag".to_string(), var_type: VarType::Bool, expr: Box::new(Expr::Bool(true)) }
    );
    assert_eq!(
        expressions[3],
        Expr::While {
            condition: Box::new(Expr::Binary {
                left: Box::new(Expr::Var("x".to_string())),
                op: BinaryOp::Lt,
                right: Box::new(Expr::Number(20)),
            }),
            body: vec![Expr::Assign {
                name: "x".to_string(),
                expr: Box::new(Expr::Binary {
                    left: Box::new(Expr::Var("x".to_string())),
                    op: BinaryOp::Mul,
                    right: Box::new(Expr::Number(2)),
                }),
            }],
        }
    );
}

#[test]
fn test_preprocessing() {
    preprocessing();
}

#[test]
fn test_test_preprocessing() {
    preprocessing();
}

#[test]
fn test_lexer() {
    lexing();
}

#[test]
fn test_test_lexer() {
    lexing();
}

#[test]
fn test_parser() {
    parsing();
}

#[test]
fn test_test_parser() {
    parsing();
}

#[test]
fn test_codegen() {
    let preprocessed_code = remove_comments(EXAMPLE).unwrap();
    let tokens = lexer(&preprocessed_code).unwrap();
    let mut parser = Parser::new(tokens);
    let expressions = parser.parse().unwrap();
    let mut generator = CodeGenContext::new();
    for expr in &expressions {
        generator.generate(expr).unwrap();
    }
    let mut out = Vec::new();
    for instr in generator.instructions() {
        println!("{}", instr.to_string());
        out.push(instr.to_string());
    }
    assert_eq!(
        out,
        vec![
            "addi x2, x0, 32",
            "lui x5, 0",
            "addi x5, x5, 5",
            "sw x2, 32, x5",
            "addi x5, x0, 1",
            "sw x2, 40, x5",
            "lw x5, x2, 32",
            "addi x6, x5, 0",
            "lui x5, 0",
            "addi x5, x5, 10",
            "slt x5, x6, x5",
            "beq x5, x0, 8",
            "lw x5, x2, 32",
            "addi x6, x5, 0",
            "lui x5, 0",
            "addi x5, x5, 1",
            "add x5, x6, x5",
            "sw x2, 32, x5",
            "jal x0, 7",
            "lw x5, x2, 32",
            "addi x6, x5, 0",
            "lui x5, 0",
            "addi x5, x5, 1",
            "sub x5, x6, x5",
            "sw x2, 32, x5",
            "lw x5, x2, 32",
            "addi x6, x5, 0",
            "lui x5, 0",
            "addi x5, x5, 20",
            "slt x5, x6, x5",
            "beq x5, x0, 8",
            "lw x5, x2, 32",
            "addi x6, x5, 0",
            "lui x5, 0",
            "addi x5, x5, 2",
            "mul x5, x6, x5",
            "sw x2, 32, x5",
            "jal x0, 4294967284",
        ]
    );
}
