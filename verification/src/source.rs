use crate::ast::SpecExpr;
use crate::grammar::{parse_program, ParseError};
use crate::lexer::{
    decimal_value, digit_value, digits_end, is_digit, is_space, is_word_part, is_word_start,
    lemma_run_ends, lex, lex_rest, pair_token, single_token, token_at, word_end, word_token,
    SpecLexingError, SpecToken, Token,
};
use crate::pieces::{lemma_stands_both, stands_at};
use crate::text::{decimal, decimal_string, digit_char};
use crate::unparse::{lemma_round_trip, unparse_items};
use vstd::prelude::*;

verus! {

/// The text that writes a token. A number below zero, which no source text
/// gives, is written with a minus sign.
pub open spec fn token_text(token: SpecToken) -> Seq<char> {
    match token {
        SpecToken::KwLet => "let"@,
        SpecToken::KwIf => "if"@,
        SpecToken::KwElse => "else"@,
        SpecToken::KwWhile => "while"@,
        SpecToken::TypeNumber => "num"@,
        SpecToken::TypeBool => "bool"@,
        SpecToken::OpEq => "=="@,
        SpecToken::OpNeq => "!="@,
        SpecToken::OpLe => "<="@,
        SpecToken::OpGe => ">="@,
        SpecToken::OpAnd => "&&"@,
        SpecToken::OpOr => "||"@,
        SpecToken::OpAdd => "+"@,
        SpecToken::OpSub => "-"@,
        SpecToken::OpMul => "*"@,
        SpecToken::OpDiv => "/"@,
        SpecToken::OpMod => "%"@,
        SpecToken::OpLt => "<"@,
        SpecToken::OpGt => ">"@,
        SpecToken::OpNot => "!"@,
        SpecToken::Assign => "="@,
        SpecToken::Colon => ":"@,
        SpecToken::Semicolon => ";"@,
        SpecToken::Comma => ","@,
        SpecToken::LParen => "("@,
        SpecToken::RParen => ")"@,
        SpecToken::LBrace => "{"@,
        SpecToken::RBrace => "}"@,
        SpecToken::Identifier(name) => name,
        SpecToken::LitBool(b) => if b {
            "true"@
        } else {
            "false"@
        },
        SpecToken::LitNumber(n) => if n >= 0 {
            decimal(n as nat)
        } else {
            "-"@ + decimal((-n) as nat)
        },
    }
}

/// The blank that ends every token in a source text.
pub open spec fn blank() -> Seq<char> {
    " "@
}

/// The source text that writes a sequence of tokens: the text of each
/// token, with a blank after it.
pub open spec fn source_text(tokens: Seq<SpecToken>) -> Seq<char>
    decreases tokens.len(),
{
    if tokens.len() == 0 {
        Seq::empty()
    } else {
        token_text(tokens.first()) + blank() + source_text(tokens.drop_first())
    }
}

/// A word that is the name of an identifier: it begins with a letter or
/// `_`, goes on with letters, digits and `_`, and is no keyword, no name of
/// a type and no truth value.
pub open spec fn is_name(word: Seq<char>) -> bool {
    &&& word.len() > 0
    &&& is_word_start(word[0])
    &&& forall|i: int| 0 <= i < word.len() ==> is_word_part(#[trigger] word[i])
    &&& word_token(word) == SpecToken::Identifier(word)
}

/// A token that a source text can give: every token but an identifier
/// whose name is no name, and a number below zero.
pub open spec fn is_writable(token: SpecToken) -> bool {
    match token {
        SpecToken::Identifier(name) => is_name(name),
        SpecToken::LitNumber(n) => n >= 0,
        _ => true,
    }
}

/// Every token of the sequence is writable.
pub open spec fn all_writable(tokens: Seq<SpecToken>) -> bool {
    forall|i: int| 0 <= i < tokens.len() ==> is_writable(#[trigger] tokens[i])
}

/// A run of characters of a word, with no such character after it, is
/// scanned to its end.
pub proof fn lemma_word_scanned(s: Seq<char>, from: int, to: int)
    requires
        0 <= from <= to <= s.len(),
        forall|k: int| from <= k < to ==> is_word_part(#[trigger] s[k]),
        to < s.len() ==> !is_word_part(s[to]),
    ensures
        word_end(s, from) == to,
    decreases to - from,
{
    if from < to {
        lemma_word_scanned(s, from + 1, to);
    }
}

/// A run of digits, with no digit after it, is scanned to its end.
pub proof fn lemma_digits_scanned(s: Seq<char>, from: int, to: int)
    requires
        0 <= from <= to <= s.len(),
        forall|k: int| from <= k < to ==> is_digit(#[trigger] s[k]),
        to < s.len() ==> !is_digit(s[to]),
    ensures
        digits_end(s, from) == to,
    decreases to - from,
{
    if from < to {
        lemma_digits_scanned(s, from + 1, to);
    }
}

/// The decimal numeral of a number is made of digits and writes the number.
pub proof fn lemma_decimal_reads_back(n: nat)
    ensures
        decimal(n).len() >= 1,
        forall|i: int| 0 <= i < decimal(n).len() ==> is_digit(#[trigger] decimal(n)[i]),
        decimal_value(decimal(n)) == n,
    decreases n,
{
    let d = digit_char((n % 10) as int);
    assert(is_digit(d) && digit_value(d) == n % 10);
    if n < 10 {
        assert(decimal(n) =~= seq![d]);
        assert(decimal(n).drop_last() =~= Seq::<char>::empty());
        assert(decimal_value(decimal(n).drop_last()) == 0);
    } else {
        lemma_decimal_reads_back(n / 10);
        let front = decimal(n / 10);
        assert(decimal(n) == front.push(d));
        assert(decimal(n).drop_last() =~= front);
        assert(decimal(n).last() == d);
    }
}

/// The token `token`, read up to the position `next`.
pub open spec fn found(token: SpecToken, next: int) -> Result<(SpecToken, int), SpecLexingError> {
    Ok((token, next))
}

/// A word with a blank after it is read as the token of the word.
pub proof fn lemma_word_read(s: Seq<char>, pos: int, word: Seq<char>)
    requires
        stands_at(s, pos, word + blank()),
        word.len() > 0,
        is_word_start(word[0]),
        forall|i: int| 0 <= i < word.len() ==> is_word_part(#[trigger] word[i]),
    ensures
        token_at(s, pos) == found(word_token(word), pos + word.len()),
{
    reveal_strlit(" ");
    lemma_stands_both(s, pos, word, blank());
    let end = pos + word.len();
    assert(s[end] == blank()[0]);
    assert(s[pos] == word[0]);
    assert forall|k: int| pos + 1 <= k < end implies is_word_part(#[trigger] s[k]) by {
        assert(s[pos + (k - pos)] == word[k - pos]);
    }
    lemma_word_scanned(s, pos + 1, end);
    assert(s.subrange(pos, end) =~= word);
}

/// The numeral of a number that is not below zero, with a blank after it,
/// is read as the number.
pub proof fn lemma_number_read(s: Seq<char>, pos: int, n: i64)
    requires
        n >= 0,
        stands_at(s, pos, decimal(n as nat) + blank()),
    ensures
        token_at(s, pos) == found(SpecToken::LitNumber(n), pos + decimal(n as nat).len()),
        decimal(n as nat).len() >= 1,
{
    reveal_strlit(" ");
    let digits = decimal(n as nat);
    lemma_decimal_reads_back(n as nat);
    lemma_stands_both(s, pos, digits, blank());
    let end = pos + digits.len();
    assert(s[end] == blank()[0]);
    assert(s[pos] == digits[0]);
    assert forall|k: int| pos + 1 <= k < end implies is_digit(#[trigger] s[k]) by {
        assert(s[pos + (k - pos)] == digits[k - pos]);
    }
    lemma_digits_scanned(s, pos + 1, end);
    assert(s.subrange(pos, end) =~= digits);
}

/// A keyword, the name of a type or a truth value, with a blank after it,
/// is read as its token.
pub proof fn lemma_keyword_read(s: Seq<char>, pos: int, token: SpecToken)
    requires
        token is KwLet || token is KwIf || token is KwElse || token is KwWhile || token
            is TypeNumber || token is TypeBool || token is LitBool,
        stands_at(s, pos, token_text(token) + blank()),
    ensures
        token_at(s, pos) == found(token, pos + token_text(token).len()),
        token_text(token).len() >= 1,
{
    reveal_strlit("let");
    reveal_strlit("if");
    reveal_strlit("else");
    reveal_strlit("while");
    reveal_strlit("num");
    reveal_strlit("bool");
    reveal_strlit("true");
    reveal_strlit("false");
    let word = token_text(token);
    assert(word.len() >= 2);
    assert forall|i: int| 0 <= i < word.len() implies is_word_start(#[trigger] word[i]) by {}
    lemma_word_read(s, pos, word);
    assert("let"@[0] == 'l' && "num"@[0] == 'n');
    assert("else"@[0] == 'e' && "bool"@[0] == 'b' && "true"@[0] == 't');
    assert("while"@[0] == 'w' && "false"@[0] == 'f');
    assert("if"@.len() == 2 && "let"@.len() == 3 && "else"@.len() == 4 && "while"@.len() == 5);
    assert(word_token(word) == token);
}

/// An operator or a punctuation mark of two characters is read whole.
pub proof fn lemma_pair_read(s: Seq<char>, pos: int, token: SpecToken)
    requires
        token is OpEq || token is OpNeq || token is OpLe || token is OpGe || token is OpAnd
            || token is OpOr,
        stands_at(s, pos, token_text(token) + blank()),
    ensures
        token_at(s, pos) == found(token, pos + 2),
        token_text(token).len() == 2,
{
    reveal_strlit("==");
    reveal_strlit("!=");
    reveal_strlit("<=");
    reveal_strlit(">=");
    reveal_strlit("&&");
    reveal_strlit("||");
    let text = token_text(token);
    lemma_stands_both(s, pos, text, blank());
    assert(s[pos + 0] == text[0]);
    assert(s[pos + 1] == text[1]);
    assert(pair_token(text[0], text[1]) == Some(token));
}

/// An operator or a punctuation mark of one character, with a blank after
/// it, is read as its token.
pub proof fn lemma_single_read(s: Seq<char>, pos: int, token: SpecToken)
    requires
        token is OpAdd || token is OpSub || token is OpMul || token is OpDiv || token is OpMod
            || token is OpLt || token is OpGt || token is OpNot || token is Assign || token
            is Colon || token is Semicolon || token is Comma || token is LParen || token
            is RParen || token is LBrace || token is RBrace,
        stands_at(s, pos, token_text(token) + blank()),
    ensures
        token_at(s, pos) == found(token, pos + 1),
        token_text(token).len() == 1,
{
    reveal_strlit(" ");
    reveal_strlit("+");
    reveal_strlit("-");
    reveal_strlit("*");
    reveal_strlit("/");
    reveal_strlit("%");
    reveal_strlit("<");
    reveal_strlit(">");
    reveal_strlit("!");
    reveal_strlit("=");
    reveal_strlit(":");
    reveal_strlit(";");
    reveal_strlit(",");
    reveal_strlit("(");
    reveal_strlit(")");
    reveal_strlit("{");
    reveal_strlit("}");
    let text = token_text(token);
    lemma_stands_both(s, pos, text, blank());
    assert(s[pos + 0] == text[0]);
    assert(s[pos + 1] == blank()[0]);
    assert(pair_token(text[0], ' ') is None);
    assert(single_token(text[0]) == Some(token));
}

/// A writable token, with a blank after it, is read back from its text.
pub proof fn lemma_token_read(s: Seq<char>, pos: int, token: SpecToken)
    requires
        is_writable(token),
        stands_at(s, pos, token_text(token) + blank()),
    ensures
        token_at(s, pos) == found(token, pos + token_text(token).len()),
        token_text(token).len() >= 1,
        !is_space(s[pos]),
        s[pos + token_text(token).len()] == ' ',
{
    reveal_strlit(" ");
    let text = token_text(token);
    lemma_stands_both(s, pos, text, blank());
    assert(s[pos + text.len() + 0] == blank()[0]);
    match token {
        SpecToken::Identifier(name) => {
            lemma_word_read(s, pos, name);
            assert(s[pos + 0] == name[0]);
        },
        SpecToken::LitNumber(n) => {
            lemma_number_read(s, pos, n);
            lemma_decimal_reads_back(n as nat);
            assert(s[pos + 0] == text[0]);
        },
        SpecToken::KwLet | SpecToken::KwIf | SpecToken::KwElse | SpecToken::KwWhile
        | SpecToken::TypeNumber | SpecToken::TypeBool | SpecToken::LitBool(_) => {
            lemma_keyword_read(s, pos, token);
            reveal_strlit("let");
            reveal_strlit("if");
            reveal_strlit("else");
            reveal_strlit("while");
            reveal_strlit("num");
            reveal_strlit("bool");
            reveal_strlit("true");
            reveal_strlit("false");
            assert(s[pos + 0] == text[0]);
        },
        SpecToken::OpEq | SpecToken::OpNeq | SpecToken::OpLe | SpecToken::OpGe | SpecToken::OpAnd
        | SpecToken::OpOr => {
            lemma_pair_read(s, pos, token);
            reveal_strlit("==");
            reveal_strlit("!=");
            reveal_strlit("<=");
            reveal_strlit(">=");
            reveal_strlit("&&");
            reveal_strlit("||");
            assert(s[pos + 0] == text[0]);
        },
        _ => {
            lemma_single_read(s, pos, token);
            reveal_strlit("+");
            reveal_strlit("-");
            reveal_strlit("*");
            reveal_strlit("/");
            reveal_strlit("%");
            reveal_strlit("<");
            reveal_strlit(">");
            reveal_strlit("!");
            reveal_strlit("=");
            reveal_strlit(":");
            reveal_strlit(";");
            reveal_strlit(",");
            reveal_strlit("(");
            reveal_strlit(")");
            reveal_strlit("{");
            reveal_strlit("}");
            assert(s[pos + 0] == text[0]);
        },
    }
}

/// The tokens of a source text that writes writable tokens are read back
/// after the tokens read before them.
pub proof fn lemma_tokens_read(
    s: Seq<char>,
    pos: int,
    tokens: Seq<SpecToken>,
    before: Seq<SpecToken>,
)
    requires
        all_writable(tokens),
        stands_at(s, pos, source_text(tokens)),
        pos + source_text(tokens).len() == s.len(),
    ensures
        lex_rest(s, pos, before) == Ok::<Seq<SpecToken>, SpecLexingError>(before + tokens),
    decreases tokens.len(),
{
    if tokens.len() == 0 {
        assert(before + tokens =~= before);
    } else {
        reveal_strlit(" ");
        let first = tokens.first();
        let rest = tokens.drop_first();
        let text = token_text(first);
        assert(is_writable(tokens[0]));
        assert(source_text(tokens) =~= (text + blank()) + source_text(rest));
        lemma_stands_both(s, pos, text + blank(), source_text(rest));
        lemma_token_read(s, pos, first);
        let end = pos + text.len();
        assert forall|i: int| 0 <= i < rest.len() implies is_writable(#[trigger] rest[i]) by {
            assert(rest[i] == tokens[i + 1]);
        }
        lemma_tokens_read(s, end + 1, rest, before.push(first));
        assert(before.push(first) + rest =~= before + tokens);
        assert(lex_rest(s, end, before.push(first)) == lex_rest(s, end + 1, before.push(first)));
        assert(lex_rest(s, pos, before) == lex_rest(s, end, before.push(first)));
    }
}

/// Writing writable tokens as a source text and lexing the text gives the
/// tokens back.
pub proof fn lemma_lex_source_text(tokens: Seq<SpecToken>)
    requires
        all_writable(tokens),
    ensures
        lex(source_text(tokens)) == Ok::<Seq<SpecToken>, SpecLexingError>(tokens),
{
    lemma_tokens_read(source_text(tokens), 0, tokens, Seq::empty());
    assert(Seq::<SpecToken>::empty() + tokens =~= tokens);
}

/// Every character that a word is scanned over is a character of a word.
pub proof fn lemma_scanned_is_word(s: Seq<char>, from: int, k: int)
    requires
        0 <= from <= k < word_end(s, from),
    ensures
        k < s.len(),
        is_word_part(s[k]),
    decreases s.len() - from,
{
    if 0 <= from < s.len() && is_word_part(s[from]) {
        if k > from {
            lemma_scanned_is_word(s, from + 1, k);
        }
    }
}

/// The token that begins at a position of a text is writable.
pub proof fn lemma_read_is_writable(s: Seq<char>, pos: int)
    requires
        0 <= pos < s.len(),
    ensures
        token_at(s, pos) matches Ok((token, _)) ==> is_writable(token),
{
    let c = s[pos];
    if is_word_start(c) {
        let end = word_end(s, pos + 1);
        lemma_run_ends(s, pos + 1);
        let word = s.subrange(pos, end);
        assert(word[0] == c);
        assert forall|i: int| 0 <= i < word.len() implies is_word_part(#[trigger] word[i]) by {
            if i > 0 {
                lemma_scanned_is_word(s, pos + 1, pos + i);
            }
        }
    }
}

/// The tokens of a text that lexes are writable, if those read before are.
pub proof fn lemma_lexed_rest_is_writable(s: Seq<char>, pos: int, before: Seq<SpecToken>)
    requires
        all_writable(before),
    ensures
        lex_rest(s, pos, before) matches Ok(tokens) ==> all_writable(tokens),
    decreases s.len() - pos,
{
    if 0 <= pos < s.len() {
        if is_space(s[pos]) {
            lemma_lexed_rest_is_writable(s, pos + 1, before);
        } else {
            lemma_read_is_writable(s, pos);
            match token_at(s, pos) {
                Ok((token, next)) => {
                    if pos < next <= s.len() {
                        let more = before.push(token);
                        assert forall|i: int| 0 <= i < more.len() implies is_writable(
                            #[trigger] more[i],
                        ) by {
                            if i < before.len() {
                                assert(more[i] == before[i]);
                            }
                        }
                        lemma_lexed_rest_is_writable(s, next, more);
                    }
                },
                Err(_) => {},
            }
        }
    }
}

/// Lexing gives writable tokens only, so the tokens of every text that
/// lexes can be written as a text that lexes to the same tokens.
pub proof fn lemma_lexed_is_writable(s: Seq<char>)
    ensures
        lex(s) matches Ok(tokens) ==> all_writable(tokens) && lex(source_text(tokens)) == lex(s),
{
    lemma_lexed_rest_is_writable(s, 0, Seq::empty());
    match lex(s) {
        Ok(tokens) => {
            lemma_lex_source_text(tokens);
        },
        Err(_) => {},
    }
}

/// Writing a program as a source text, lexing the text and parsing the
/// tokens gives the program back, for every program whose names are names
/// and whose numbers are not below zero.
pub proof fn lemma_source_round_trip(program: Seq<SpecExpr>)
    requires
        all_writable(unparse_items(program)),
    ensures
        lex(source_text(unparse_items(program))) == Ok::<Seq<SpecToken>, SpecLexingError>(
            unparse_items(program),
        ),
        parse_program(unparse_items(program)) == Ok::<Seq<SpecExpr>, ParseError>(program),
{
    lemma_lex_source_text(unparse_items(program));
    lemma_round_trip(program);
}

/// The text of a token that is always written the same.
fn fixed_text(token: &Token) -> (text: &'static str)
    requires
        !(token is Identifier),
        !(token is LitNumber),
    ensures
        text@ == token_text(token@),
{
    match token {
        Token::KwLet => "let",
        Token::KwIf => "if",
        Token::KwElse => "else",
        Token::KwWhile => "while",
        Token::TypeNumber => "num",
        Token::TypeBool => "bool",
        Token::OpEq => "==",
        Token::OpNeq => "!=",
        Token::OpLe => "<=",
        Token::OpGe => ">=",
        Token::OpAnd => "&&",
        Token::OpOr => "||",
        Token::OpAdd => "+",
        Token::OpSub => "-",
        Token::OpMul => "*",
        Token::OpDiv => "/",
        Token::OpMod => "%",
        Token::OpLt => "<",
        Token::OpGt => ">",
        Token::OpNot => "!",
        Token::Assign => "=",
        Token::Colon => ":",
        Token::Semicolon => ";",
        Token::Comma => ",",
        Token::LParen => "(",
        Token::RParen => ")",
        Token::LBrace => "{",
        Token::RBrace => "}",
        Token::LitBool(b) => if *b {
            "true"
        } else {
            "false"
        },
        _ => "",
    }
}

/// Appends the text of a token.
fn write_token(token: &Token, out: &mut String)
    ensures
        final(out)@ == old(out)@ + token_text(token@),
{
    match token {
        Token::Identifier(name) => {
            out.append(name.as_str());
        },
        Token::LitNumber(n) => {
            if *n >= 0 {
                let digits = decimal_string(*n as u64);
                out.append(digits.as_str());
            } else {
                let size: u64 = (-(*n + 1)) as u64 + 1;
                let digits = decimal_string(size);
                out.append("-");
                out.append(digits.as_str());
                assert(out@ =~= old(out)@ + ("-"@ + decimal((-*n) as nat)));
            }
        },
        _ => {
            out.append(fixed_text(token));
        },
    }
}

/// The source text that writes the tokens: the text of each token with a
/// blank after it. For writable tokens, lexing the text gives the tokens
/// back ([`lemma_lex_source_text`]).
pub fn to_source(tokens: &Vec<Token>) -> (text: String)
    ensures
        text@ == source_text(tokens.deep_view()),
{
    let ghost all = tokens.deep_view();
    let mut text = String::new();
    let mut i: usize = 0;
    assert(all.skip(0) =~= all);
    assert(text@ + source_text(all) =~= source_text(all));
    while i < tokens.len()
        invariant
            i <= tokens.len(),
            all == tokens.deep_view(),
            text@ + source_text(all.skip(i as int)) == source_text(all),
        decreases tokens.len() - i,
    {
        let ghost before = text@;
        let ghost rest = all.skip(i as int);
        assert(rest.first() == tokens[i as int]@);
        assert(rest.drop_first() =~= all.skip(i + 1));
        write_token(&tokens[i], &mut text);
        text.append(" ");
        assert(text@ + source_text(all.skip(i + 1)) =~= before + source_text(rest));
        i = i + 1;
    }
    assert(all.skip(i as int) =~= Seq::<SpecToken>::empty());
    assert(text@ + Seq::<char>::empty() =~= text@);
    text
}

} // verus!
