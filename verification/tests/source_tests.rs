use frust::ast::Expr;
use frust::lexer::{lexer, Token};
use frust::parser::Parser;
use frust::source::to_source;
use frust::unparse::to_tokens;

#[test]
fn every_token_is_written_with_a_blank_after_it() {
    assert_eq!(to_source(&vec![]), "");
    assert_eq!(
        to_source(&lexer("let x:num=5;").unwrap()),
        "let x : num = 5 ; "
    );
    assert_eq!(
        to_source(&lexer("if a<=b&&!c||d!=e{}else{}while true{x=x%2;}").unwrap()),
        "if a <= b && ! c || d != e { } else { } while true { x = x % 2 ; } "
    );
    assert_eq!(
        to_source(&vec![
            Token::OpEq,
            Token::OpGe,
            Token::OpAdd,
            Token::OpSub,
            Token::OpMul,
            Token::OpDiv,
            Token::OpLt,
            Token::OpGt,
            Token::Comma,
            Token::LParen,
            Token::RParen,
            Token::TypeBool,
            Token::LitBool(false),
        ]),
        "== >= + - * / < > , ( ) bool false "
    );
}

#[test]
fn numbers_are_written_in_decimal() {
    assert_eq!(to_source(&vec![Token::LitNumber(0)]), "0 ");
    assert_eq!(to_source(&vec![Token::LitNumber(1234567890)]), "1234567890 ");
    assert_eq!(to_source(&vec![Token::LitNumber(i64::MAX)]), "9223372036854775807 ");
    assert_eq!(to_source(&vec![Token::LitNumber(-1)]), "-1 ");
    assert_eq!(to_source(&vec![Token::LitNumber(i64::MIN)]), "-9223372036854775808 ");
}

#[test]
fn the_tokens_of_a_text_are_read_back_from_their_text() {
    for source in [
        "",
        "let x: num = 5;",
        "let letter: bool = truth == falsehood;",
        "a+b-c*d/e%f",
        "a==b!=c<d>e<=f>=g&&h||!i",
        "x = (y) , { } : ;",
        "9223372036854775807 0 007 _ _1 a_b while1 if else",
    ] {
        let tokens = lexer(source).unwrap();
        assert_eq!(lexer(&to_source(&tokens)), Ok(tokens));
    }
}

#[test]
fn a_program_is_read_back_from_its_source_text() {
    for source in [
        "let x: num = 2 + 3 * 4;",
        "let a: num = 1; let b: num = 2; a = a + b;",
        "if false { let x: num = 1; } else { let x: num = 2; }",
        "let i: num = 0; while i < 10 { i = i + 1; if i % 2 == 0 { i = i * (i - -1); } }",
        "!-!x (a) b",
    ] {
        let program = Parser::new(lexer(source).unwrap()).parse().unwrap();
        let text = to_source(&to_tokens(&program));
        assert_eq!(Parser::new(lexer(&text).unwrap()).parse(), Ok(program));
    }
}

#[test]
fn what_no_text_gives_is_not_read_back() {
    // a number below zero is written with a sign, which is read as an operator
    let tokens = vec![Token::LitNumber(-5)];
    assert_eq!(lexer(&to_source(&tokens)), Ok(vec![Token::OpSub, Token::LitNumber(5)]));
    // a name that is a keyword is read as the keyword
    let tokens = vec![Token::Identifier("while".to_string())];
    assert_eq!(lexer(&to_source(&tokens)), Ok(vec![Token::KwWhile]));
    let program = vec![Expr::Number(-5)];
    let text = to_source(&to_tokens(&program));
    assert!(Parser::new(lexer(&text).unwrap()).parse().unwrap() != program);
}
