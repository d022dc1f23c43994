use frust::lexer::{lexer, tokenize, LexingError, Token};

fn ident(name: &str) -> Token {
    Token::Identifier(name.to_string())
}

#[test]
fn empty_input_has_no_tokens() {
    assert_eq!(lexer(""), Ok(vec![]));
    assert_eq!(lexer(" \t\n\x0c "), Ok(vec![]));
}

#[test]
fn keywords_types_and_truth_values() {
    assert_eq!(
        lexer("let if else while num bool true false"),
        Ok(vec![
            Token::KwLet,
            Token::KwIf,
            Token::KwElse,
            Token::KwWhile,
            Token::TypeNumber,
            Token::TypeBool,
            Token::LitBool(true),
            Token::LitBool(false),
        ])
    );
}

#[test]
fn a_keyword_is_a_whole_word() {
    assert_eq!(
        lexer("letx iffy elsewhere whiles number boolean truest falsehood _let let_ let1"),
        Ok(vec![
            ident("letx"),
            ident("iffy"),
            ident("elsewhere"),
            ident("whiles"),
            ident("number"),
            ident("boolean"),
            ident("truest"),
            ident("falsehood"),
            ident("_let"),
            ident("let_"),
            ident("let1"),
        ])
    );
}

#[test]
fn identifiers_hold_letters_digits_and_underscores() {
    assert_eq!(lexer("_"), Ok(vec![ident("_")]));
    assert_eq!(lexer("a1_B2"), Ok(vec![ident("a1_B2")]));
    assert_eq!(lexer("Zz09"), Ok(vec![ident("Zz09")]));
}

#[test]
fn operators_of_one_character() {
    assert_eq!(
        lexer("+ - * / % < > ! = : ; , ( ) { }"),
        Ok(vec![
            Token::OpAdd,
            Token::OpSub,
            Token::OpMul,
            Token::OpDiv,
            Token::OpMod,
            Token::OpLt,
            Token::OpGt,
            Token::OpNot,
            Token::Assign,
            Token::Colon,
            Token::Semicolon,
            Token::Comma,
            Token::LParen,
            Token::RParen,
            Token::LBrace,
            Token::RBrace,
        ])
    );
}

#[test]
fn operators_of_two_characters_win() {
    assert_eq!(
        lexer("== != <= >= && ||"),
        Ok(vec![Token::OpEq, Token::OpNeq, Token::OpLe, Token::OpGe, Token::OpAnd, Token::OpOr])
    );
    assert_eq!(lexer("==="), Ok(vec![Token::OpEq, Token::Assign]));
    assert_eq!(lexer("!=="), Ok(vec![Token::OpNeq, Token::Assign]));
    assert_eq!(lexer("<=<"), Ok(vec![Token::OpLe, Token::OpLt]));
    assert_eq!(lexer("=!"), Ok(vec![Token::Assign, Token::OpNot]));
    assert_eq!(lexer("! ="), Ok(vec![Token::OpNot, Token::Assign]));
}

#[test]
fn tokens_need_no_space_between_them() {
    assert_eq!(
        lexer("x=y+1;"),
        Ok(vec![ident("x"), Token::Assign, ident("y"), Token::OpAdd, Token::LitNumber(1), Token::Semicolon])
    );
    assert_eq!(lexer("123abc"), Ok(vec![Token::LitNumber(123), ident("abc")]));
    assert_eq!(lexer("a-1"), Ok(vec![ident("a"), Token::OpSub, Token::LitNumber(1)]));
}

#[test]
fn numbers_are_read_in_decimal() {
    assert_eq!(lexer("0"), Ok(vec![Token::LitNumber(0)]));
    assert_eq!(lexer("007"), Ok(vec![Token::LitNumber(7)]));
    assert_eq!(lexer("65536"), Ok(vec![Token::LitNumber(65536)]));
    assert_eq!(lexer("9223372036854775807"), Ok(vec![Token::LitNumber(i64::MAX)]));
    assert_eq!(lexer("0000000000000000000000009223372036854775807"), Ok(vec![Token::LitNumber(i64::MAX)]));
}

#[test]
fn a_number_beyond_64_bits_is_an_overflow() {
    assert_eq!(lexer("9223372036854775808"), Err("Invalid number: Overflow error".to_string()));
    assert_eq!(lexer("99999999999999999999999"), Err("Invalid number: Overflow error".to_string()));
    assert_eq!(
        tokenize("x = 18446744073709551616;"),
        Err(LexingError::InvalidNumber("Overflow error".to_string()))
    );
}

#[test]
fn a_character_of_no_token_is_an_unknown_lexeme() {
    assert_eq!(lexer("&"), Err("Unknown lexem".to_string()));
    assert_eq!(lexer("|"), Err("Unknown lexem".to_string()));
    assert_eq!(lexer("a & b"), Err("Unknown lexem".to_string()));
    assert_eq!(lexer("@"), Err("Unknown lexem".to_string()));
    assert_eq!(lexer("x\r\n"), Err("Unknown lexem".to_string()));
    assert_eq!(lexer("é"), Err("Unknown lexem".to_string()));
    assert_eq!(lexer("\"text\""), Err("Unknown lexem".to_string()));
    assert_eq!(tokenize("#"), Err(LexingError::UnknownLexem));
}

#[test]
fn the_first_error_ends_the_lexing() {
    assert_eq!(lexer("@ 99999999999999999999999"), Err("Unknown lexem".to_string()));
    assert_eq!(lexer("99999999999999999999999 @"), Err("Invalid number: Overflow error".to_string()));
    assert_eq!(lexer("let x @ let"), Err("Unknown lexem".to_string()));
}

#[test]
fn the_default_error_is_the_unknown_lexeme() {
    assert_eq!(LexingError::default(), LexingError::UnknownLexem);
}

#[test]
fn tokenize_and_lexer_agree_on_tokens() {
    let source = "while i <= 10 { i = i + 1; }";
    assert_eq!(tokenize(source).unwrap(), lexer(source).unwrap());
}

#[test]
fn a_token_clones_to_an_equal_token() {
    let tokens = lexer("let answer: num = 42; flag = !true;").unwrap();
    for token in &tokens {
        assert_eq!(&token.clone(), token);
    }
}

#[test]
fn kind_names_are_the_names_of_the_variants() {
    assert_eq!(Token::RParen.kind_name(), "RParen");
    assert_eq!(Token::KwElse.kind_name(), "KwElse");
    assert_eq!(Token::OpMod.kind_name(), "OpMod");
    assert_eq!(ident("x").kind_name(), "Identifier");
    assert_eq!(Token::LitNumber(1).kind_name(), "LitNumber");
    assert_eq!(Token::LitBool(true).kind_name(), "LitBool");
}
