use vstd::prelude::*;
use vstd::std_specs::iter::IteratorSpec;

verus! {

/// A lexical unit of the source language.
#[derive(Debug, PartialEq)]
pub enum Token {
    KwLet,
    KwIf,
    KwElse,
    KwWhile,
    TypeNumber,
    TypeBool,
    OpEq,
    OpNeq,
    OpLe,
    OpGe,
    OpAnd,
    OpOr,
    OpAdd,
    OpSub,
    OpMul,
    OpDiv,
    OpMod,
    OpLt,
    OpGt,
    OpNot,
    Assign,
    Colon,
    Semicolon,
    Comma,
    LParen,
    RParen,
    LBrace,
    RBrace,
    Identifier(String),
    LitBool(bool),
    LitNumber(i64),
}

/// The mathematical value of a [`Token`]: the name of an identifier is a
/// sequence of characters.
pub enum SpecToken {
    KwLet,
    KwIf,
    KwElse,
    KwWhile,
    TypeNumber,
    TypeBool,
    OpEq,
    OpNeq,
    OpLe,
    OpGe,
    OpAnd,
    OpOr,
    OpAdd,
    OpSub,
    OpMul,
    OpDiv,
    OpMod,
    OpLt,
    OpGt,
    OpNot,
    Assign,
    Colon,
    Semicolon,
    Comma,
    LParen,
    RParen,
    LBrace,
    RBrace,
    Identifier(Seq<char>),
    LitBool(bool),
    LitNumber(i64),
}

impl View for Token {
    type V = SpecToken;

    open spec fn view(&self) -> SpecToken {
        match self {
            Token::KwLet => SpecToken::KwLet,
            Token::KwIf => SpecToken::KwIf,
            Token::KwElse => SpecToken::KwElse,
            Token::KwWhile => SpecToken::KwWhile,
            Token::TypeNumber => SpecToken::TypeNumber,
            Token::TypeBool => SpecToken::TypeBool,
            Token::OpEq => SpecToken::OpEq,
            Token::OpNeq => SpecToken::OpNeq,
            Token::OpLe => SpecToken::OpLe,
            Token::OpGe => SpecToken::OpGe,
            Token::OpAnd => SpecToken::OpAnd,
            Token::OpOr => SpecToken::OpOr,
            Token::OpAdd => SpecToken::OpAdd,
            Token::OpSub => SpecToken::OpSub,
            Token::OpMul => SpecToken::OpMul,
            Token::OpDiv => SpecToken::OpDiv,
            Token::OpMod => SpecToken::OpMod,
            Token::OpLt => SpecToken::OpLt,
            Token::OpGt => SpecToken::OpGt,
            Token::OpNot => SpecToken::OpNot,
            Token::Assign => SpecToken::Assign,
            Token::Colon => SpecToken::Colon,
            Token::Semicolon => SpecToken::Semicolon,
            Token::Comma => SpecToken::Comma,
            Token::LParen => SpecToken::LParen,
            Token::RParen => SpecToken::RParen,
            Token::LBrace => SpecToken::LBrace,
            Token::RBrace => SpecToken::RBrace,
            Token::Identifier(name) => SpecToken::Identifier(name@),
            Token::LitBool(b) => SpecToken::LitBool(*b),
            Token::LitNumber(n) => SpecToken::LitNumber(*n),
        }
    }
}

impl Clone for Token {
    fn clone(&self) -> (copy: Self)
        ensures
            copy@ == self@,
    {
        match self {
            Token::KwLet => Token::KwLet,
            Token::KwIf => Token::KwIf,
            Token::KwElse => Token::KwElse,
            Token::KwWhile => Token::KwWhile,
            Token::TypeNumber => Token::TypeNumber,
            Token::TypeBool => Token::TypeBool,
            Token::OpEq => Token::OpEq,
            Token::OpNeq => Token::OpNeq,
            Token::OpLe => Token::OpLe,
            Token::OpGe => Token::OpGe,
            Token::OpAnd => Token::OpAnd,
            Token::OpOr => Token::OpOr,
            Token::OpAdd => Token::OpAdd,
            Token::OpSub => Token::OpSub,
            Token::OpMul => Token::OpMul,
            Token::OpDiv => Token::OpDiv,
            Token::OpMod => Token::OpMod,
            Token::OpLt => Token::OpLt,
            Token::OpGt => Token::OpGt,
            Token::OpNot => Token::OpNot,
            Token::Assign => Token::Assign,
            Token::Colon => Token::Colon,
            Token::Semicolon => Token::Semicolon,
            Token::Comma => Token::Comma,
            Token::LParen => Token::LParen,
            Token::RParen => Token::RParen,
            Token::LBrace => Token::LBrace,
            Token::RBrace => Token::RBrace,
            Token::Identifier(name) => Token::Identifier(name.clone()),
            Token::LitBool(b) => Token::LitBool(*b),
            Token::LitNumber(n) => Token::LitNumber(*n),
        }
    }
}

impl DeepView for Token {
    type V = SpecToken;

    open spec fn deep_view(&self) -> SpecToken {
        self@
    }
}

/// Why lexing stopped.
#[derive(Debug, PartialEq)]
pub enum LexingError {
    /// A numeral that is no number of the language, with the reason.
    InvalidNumber(String),
    /// A character that begins no token.
    UnknownLexem,
}

/// The mathematical value of a [`LexingError`].
pub enum SpecLexingError {
    InvalidNumber(Seq<char>),
    UnknownLexem,
}

impl View for LexingError {
    type V = SpecLexingError;

    open spec fn view(&self) -> SpecLexingError {
        match self {
            LexingError::InvalidNumber(reason) => SpecLexingError::InvalidNumber(reason@),
            LexingError::UnknownLexem => SpecLexingError::UnknownLexem,
        }
    }
}

impl Clone for LexingError {
    fn clone(&self) -> (copy: Self)
        ensures
            copy@ == self@,
    {
        match self {
            LexingError::InvalidNumber(reason) => LexingError::InvalidNumber(reason.clone()),
            LexingError::UnknownLexem => LexingError::UnknownLexem,
        }
    }
}

impl Default for LexingError {
    fn default() -> (error: Self)
        ensures
            error@ == SpecLexingError::UnknownLexem,
    {
        LexingError::UnknownLexem
    }
}

impl SpecLexingError {
    /// The reason given for a numeral beyond the 64-bit signed range.
    pub open spec fn overflow() -> SpecLexingError {
        SpecLexingError::InvalidNumber("Overflow error"@)
    }

    /// The text under which the error is reported.
    pub open spec fn message(self) -> Seq<char> {
        match self {
            SpecLexingError::InvalidNumber(reason) => "Invalid number: "@ + reason,
            SpecLexingError::UnknownLexem => "Unknown lexem"@,
        }
    }
}

/// White space between tokens: blank, tab, line feed, form feed.
pub open spec fn is_space(c: char) -> bool {
    c == ' ' || c == '\t' || c == '\n' || c == '\x0c'
}

/// A decimal digit.
pub open spec fn is_digit(c: char) -> bool {
    '0' <= c <= '9'
}

/// A character that may begin a word: a letter or `_`.
pub open spec fn is_word_start(c: char) -> bool {
    'a' <= c <= 'z' || 'A' <= c <= 'Z' || c == '_'
}

/// A character that may continue a word: a letter, a digit or `_`.
pub open spec fn is_word_part(c: char) -> bool {
    is_word_start(c) || is_digit(c)
}

/// The value of a decimal digit.
pub open spec fn digit_value(c: char) -> nat {
    (c as nat - '0' as nat) as nat
}

/// The first position at or after `pos` that holds no character of a word.
pub open spec fn word_end(s: Seq<char>, pos: int) -> int
    decreases s.len() - pos,
{
    if 0 <= pos < s.len() && is_word_part(s[pos]) {
        word_end(s, pos + 1)
    } else {
        pos
    }
}

/// The first position at or after `pos` that holds no digit.
pub open spec fn digits_end(s: Seq<char>, pos: int) -> int
    decreases s.len() - pos,
{
    if 0 <= pos < s.len() && is_digit(s[pos]) {
        digits_end(s, pos + 1)
    } else {
        pos
    }
}

/// The number that a sequence of decimal digits writes.
pub open spec fn decimal_value(digits: Seq<char>) -> nat
    decreases digits.len(),
{
    if digits.len() == 0 {
        0
    } else {
        decimal_value(digits.drop_last()) * 10 + digit_value(digits.last())
    }
}

/// The token that a word is: a keyword, the name of a type, a truth value,
/// or else an identifier.
pub open spec fn word_token(word: Seq<char>) -> SpecToken {
    if word == "let"@ {
        SpecToken::KwLet
    } else if word == "if"@ {
        SpecToken::KwIf
    } else if word == "else"@ {
        SpecToken::KwElse
    } else if word == "while"@ {
        SpecToken::KwWhile
    } else if word == "num"@ {
        SpecToken::TypeNumber
    } else if word == "bool"@ {
        SpecToken::TypeBool
    } else if word == "true"@ {
        SpecToken::LitBool(true)
    } else if word == "false"@ {
        SpecToken::LitBool(false)
    } else {
        SpecToken::Identifier(word)
    }
}

/// The operator or punctuation mark that two characters write together.
pub open spec fn pair_token(first: char, second: char) -> Option<SpecToken> {
    if first == '=' && second == '=' {
        Some(SpecToken::OpEq)
    } else if first == '!' && second == '=' {
        Some(SpecToken::OpNeq)
    } else if first == '<' && second == '=' {
        Some(SpecToken::OpLe)
    } else if first == '>' && second == '=' {
        Some(SpecToken::OpGe)
    } else if first == '&' && second == '&' {
        Some(SpecToken::OpAnd)
    } else if first == '|' && second == '|' {
        Some(SpecToken::OpOr)
    } else {
        None
    }
}

/// The operator or punctuation mark that one character writes.
pub open spec fn single_token(c: char) -> Option<SpecToken> {
    if c == '+' {
        Some(SpecToken::OpAdd)
    } else if c == '-' {
        Some(SpecToken::OpSub)
    } else if c == '*' {
        Some(SpecToken::OpMul)
    } else if c == '/' {
        Some(SpecToken::OpDiv)
    } else if c == '%' {
        Some(SpecToken::OpMod)
    } else if c == '<' {
        Some(SpecToken::OpLt)
    } else if c == '>' {
        Some(SpecToken::OpGt)
    } else if c == '!' {
        Some(SpecToken::OpNot)
    } else if c == '=' {
        Some(SpecToken::Assign)
    } else if c == ':' {
        Some(SpecToken::Colon)
    } else if c == ';' {
        Some(SpecToken::Semicolon)
    } else if c == ',' {
        Some(SpecToken::Comma)
    } else if c == '(' {
        Some(SpecToken::LParen)
    } else if c == ')' {
        Some(SpecToken::RParen)
    } else if c == '{' {
        Some(SpecToken::LBrace)
    } else if c == '}' {
        Some(SpecToken::RBrace)
    } else {
        None
    }
}

/// The token that begins at `pos`, where a character stands that is no white
/// space, and the position after it. The longest token wins: a word runs as
/// far as its characters do and is a keyword only as a whole, a numeral runs
/// as far as its digits do, and two characters that make an operator
/// together are never read apart.
pub open spec fn token_at(s: Seq<char>, pos: int) -> Result<(SpecToken, int), SpecLexingError> {
    let c = s[pos];
    if is_word_start(c) {
        let end = word_end(s, pos + 1);
        Ok((word_token(s.subrange(pos, end)), end))
    } else if is_digit(c) {
        let end = digits_end(s, pos + 1);
        let value = decimal_value(s.subrange(pos, end));
        if value <= i64::MAX {
            Ok((SpecToken::LitNumber(value as i64), end))
        } else {
            Err(SpecLexingError::overflow())
        }
    } else if pos + 1 < s.len() && pair_token(c, s[pos + 1]) is Some {
        Ok((pair_token(c, s[pos + 1])->0, pos + 2))
    } else if single_token(c) is Some {
        Ok((single_token(c)->0, pos + 1))
    } else {
        Err(SpecLexingError::UnknownLexem)
    }
}

/// The tokens of `s` from `pos` on, after the tokens `tokens` that were read
/// before `pos`. White space is skipped. The first character that begins no
/// token, or the first numeral that is too large, ends the lexing with an
/// error.
pub open spec fn lex_rest(s: Seq<char>, pos: int, tokens: Seq<SpecToken>) -> Result<
    Seq<SpecToken>,
    SpecLexingError,
>
    decreases s.len() - pos,
{
    if !(0 <= pos < s.len()) {
        Ok(tokens)
    } else if is_space(s[pos]) {
        lex_rest(s, pos + 1, tokens)
    } else {
        match token_at(s, pos) {
            Err(error) => Err(error),
            Ok((token, next)) => if pos < next <= s.len() {
                lex_rest(s, next, tokens.push(token))
            } else {
                Err(SpecLexingError::UnknownLexem)
            },
        }
    }
}

/// The tokens of a source text.
pub open spec fn lex(s: Seq<char>) -> Result<Seq<SpecToken>, SpecLexingError> {
    lex_rest(s, 0, Seq::empty())
}

/// A word or a numeral ends within the text, at or after the position where
/// it is looked for.
pub proof fn lemma_run_ends(s: Seq<char>, pos: int)
    requires
        0 <= pos <= s.len(),
    ensures
        pos <= word_end(s, pos) <= s.len(),
        pos <= digits_end(s, pos) <= s.len(),
    decreases s.len() - pos,
{
    if pos < s.len() {
        lemma_run_ends(s, pos + 1);
    }
}

/// Every token ends after the position where it begins, and within the text.
pub proof fn lemma_token_advances(s: Seq<char>, pos: int)
    requires
        0 <= pos < s.len(),
    ensures
        token_at(s, pos) matches Ok((_, next)) ==> pos < next <= s.len(),
{
    lemma_run_ends(s, pos + 1);
}

/// The number of a numeral is at least the number of each of its beginnings.
pub proof fn lemma_decimal_value_grows(s: Seq<char>, start: int, mid: int, end: int)
    requires
        0 <= start <= mid <= end <= s.len(),
    ensures
        decimal_value(s.subrange(start, mid)) <= decimal_value(s.subrange(start, end)),
    decreases end - mid,
{
    if mid < end {
        assert(s.subrange(start, end).drop_last() =~= s.subrange(start, end - 1));
        lemma_decimal_value_grows(s, start, mid, end - 1);
    }
}

/// Tells whether `c` is white space.
fn is_space_char(c: char) -> (b: bool)
    ensures
        b == is_space(c),
{
    c == ' ' || c == '\t' || c == '\n' || c == '\x0c'
}

/// Tells whether `c` is a decimal digit.
fn is_digit_char(c: char) -> (b: bool)
    ensures
        b == is_digit(c),
{
    '0' <= c && c <= '9'
}

/// Tells whether `c` may begin a word.
fn is_word_start_char(c: char) -> (b: bool)
    ensures
        b == is_word_start(c),
{
    ('a' <= c && c <= 'z') || ('A' <= c && c <= 'Z') || c == '_'
}

/// `String::push` of the standard library: the string gets `c` as its new
/// last character and is otherwise unchanged.
#[verifier::external_body]
fn push_char(text: &mut String, c: char)
    ensures
        final(text)@ == old(text)@.push(c),
{
    text.push(c)
}

/// The token of a word.
fn word_to_token(word: String) -> (token: Token)
    ensures
        token@ == word_token(word@),
{
    if word == String::from_str("let") {
        Token::KwLet
    } else if word == String::from_str("if") {
        Token::KwIf
    } else if word == String::from_str("else") {
        Token::KwElse
    } else if word == String::from_str("while") {
        Token::KwWhile
    } else if word == String::from_str("num") {
        Token::TypeNumber
    } else if word == String::from_str("bool") {
        Token::TypeBool
    } else if word == String::from_str("true") {
        Token::LitBool(true)
    } else if word == String::from_str("false") {
        Token::LitBool(false)
    } else {
        Token::Identifier(word)
    }
}

/// Reads the word that begins at `start`.
fn scan_word(chars: &Vec<char>, start: usize) -> (found: (Token, usize))
    requires
        start < chars.len(),
        is_word_start(chars[start as int]),
    ensures
        token_at(chars@, start as int) == Ok::<(SpecToken, int), SpecLexingError>(
            (found.0@, found.1 as int),
        ),
{
    let mut word = String::new();
    push_char(&mut word, chars[start]);
    let mut end: usize = start + 1;
    while end < chars.len() && (is_word_start_char(chars[end]) || is_digit_char(chars[end]))
        invariant
            start < end <= chars.len(),
            word@ == chars@.subrange(start as int, end as int),
            word_end(chars@, end as int) == word_end(chars@, start + 1),
        decreases chars.len() - end,
    {
        push_char(&mut word, chars[end]);
        end = end + 1;
        assert(word@ =~= chars@.subrange(start as int, end as int));
    }
    (word_to_token(word), end)
}

/// Reads the numeral that begins at `start`.
fn scan_number(chars: &Vec<char>, start: usize) -> (found: Result<(Token, usize), LexingError>)
    requires
        start < chars.len(),
        is_digit(chars[start as int]),
    ensures
        match token_at(chars@, start as int) {
            Ok((token, next)) => found matches Ok((t, n)) && t@ == token && n == next,
            Err(error) => found matches Err(e) && e@ == error,
        },
{
    let ghost s = chars@;
    let ghost last = digits_end(s, start + 1);
    proof {
        lemma_run_ends(s, start + 1);
    }
    let mut value: i64 = 0;
    let mut end: usize = start;
    assert(s.subrange(start as int, start as int) =~= Seq::<char>::empty());
    while end < chars.len() && is_digit_char(chars[end])
        invariant
            s == chars@,
            start <= end <= last <= chars.len(),
            start < chars.len(),
            is_digit(s[start as int]),
            last == digits_end(s, start + 1),
            end > start ==> digits_end(s, end as int) == last,
            value == decimal_value(s.subrange(start as int, end as int)),
        decreases chars.len() - end,
    {
        let digit: i64 = (chars[end] as u32 - '0' as u32) as i64;
        proof {
            lemma_run_ends(s, end + 1);
            assert(end > start ==> digits_end(s, end as int) == digits_end(s, end + 1));
            assert(s.subrange(start as int, end + 1).drop_last() =~= s.subrange(
                start as int,
                end as int,
            ));
            assert(decimal_value(s.subrange(start as int, end + 1)) == value * 10 + digit);
            lemma_decimal_value_grows(s, start as int, end + 1, last as int);
        }
        if value > (i64::MAX - digit) / 10 {
            return Err(LexingError::InvalidNumber(String::from_str("Overflow error")));
        }
        value = value * 10 + digit;
        end = end + 1;
    }
    Ok((Token::LitNumber(value), end))
}

/// The operator or punctuation mark that begins at `start`.
fn scan_mark(chars: &Vec<char>, start: usize) -> (found: Result<(Token, usize), LexingError>)
    requires
        start < chars.len(),
        !is_word_start(chars[start as int]),
        !is_digit(chars[start as int]),
    ensures
        match token_at(chars@, start as int) {
            Ok((token, next)) => found matches Ok((t, n)) && t@ == token && n == next,
            Err(error) => found matches Err(e) && e@ == error,
        },
{
    let c = chars[start];
    if start + 1 < chars.len() {
        let d = chars[start + 1];
        let pair = if c == '=' && d == '=' {
            Some(Token::OpEq)
        } else if c == '!' && d == '=' {
            Some(Token::OpNeq)
        } else if c == '<' && d == '=' {
            Some(Token::OpLe)
        } else if c == '>' && d == '=' {
            Some(Token::OpGe)
        } else if c == '&' && d == '&' {
            Some(Token::OpAnd)
        } else if c == '|' && d == '|' {
            Some(Token::OpOr)
        } else {
            None
        };
        match pair {
            Some(token) => {
                return Ok((token, start + 2));
            },
            None => {},
        }
    }
    let single = if c == '+' {
        Token::OpAdd
    } else if c == '-' {
        Token::OpSub
    } else if c == '*' {
        Token::OpMul
    } else if c == '/' {
        Token::OpDiv
    } else if c == '%' {
        Token::OpMod
    } else if c == '<' {
        Token::OpLt
    } else if c == '>' {
        Token::OpGt
    } else if c == '!' {
        Token::OpNot
    } else if c == '=' {
        Token::Assign
    } else if c == ':' {
        Token::Colon
    } else if c == ';' {
        Token::Semicolon
    } else if c == ',' {
        Token::Comma
    } else if c == '(' {
        Token::LParen
    } else if c == ')' {
        Token::RParen
    } else if c == '{' {
        Token::LBrace
    } else if c == '}' {
        Token::RBrace
    } else {
        return Err(LexingError::UnknownLexem);
    };
    Ok((single, start + 1))
}

/// Splits a source text into its tokens.
///
/// The result is what [`lex`] says of the text: the tokens in order, or the
/// first error.
pub fn tokenize(input: &str) -> (res: Result<Vec<Token>, LexingError>)
    ensures
        match lex(input@) {
            Ok(tokens) => res matches Ok(found) && found.deep_view() == tokens,
            Err(error) => res matches Err(e) && e@ == error,
        },
{
    let chars = characters(input);
    let mut tokens: Vec<Token> = Vec::new();
    let mut pos: usize = 0;
    assert(tokens.deep_view() =~= Seq::<SpecToken>::empty());
    while pos < chars.len()
        invariant
            chars@ == input@,
            pos <= chars.len(),
            lex(input@) == lex_rest(chars@, pos as int, tokens.deep_view()),
        decreases chars.len() - pos,
    {
        let c = chars[pos];
        if is_space_char(c) {
            pos = pos + 1;
        } else {
            proof {
                lemma_token_advances(chars@, pos as int);
            }
            let found = if is_word_start_char(c) {
                Ok(scan_word(&chars, pos))
            } else if is_digit_char(c) {
                scan_number(&chars, pos)
            } else {
                scan_mark(&chars, pos)
            };
            match found {
                Err(error) => {
                    return Err(error);
                },
                Ok((token, next)) => {
                    let ghost before = tokens.deep_view();
                    tokens.push(token);
                    assert(tokens.deep_view() =~= before.push(token@));
                    pos = next;
                },
            }
        }
    }
    Ok(tokens)
}

/// Splits a source text into its tokens, and reports an error by its
/// message.
pub fn lexer(input: &str) -> (res: Result<Vec<Token>, String>)
    ensures
        match lex(input@) {
            Ok(tokens) => res matches Ok(found) && found.deep_view() == tokens,
            Err(error) => res matches Err(message) && message@ == error.message(),
        },
{
    match tokenize(input) {
        Ok(tokens) => Ok(tokens),
        Err(LexingError::InvalidNumber(reason)) => {
            let mut message = String::from_str("Invalid number: ");
            message.append(reason.as_str());
            Err(message)
        },
        Err(LexingError::UnknownLexem) => Err(String::from_str("Unknown lexem")),
    }
}

/// The characters of `input`, in order.
fn characters(input: &str) -> (chars: Vec<char>)
    ensures
        chars@ == input@,
{
    let mut chars: Vec<char> = Vec::new();
    let mut rest = input.chars();
    loop
        invariant
            rest.obeys_prophetic_iter_laws(),
            rest.decrease() is Some,
            chars@ + rest.remaining() == input@,
        decreases rest.decrease()->0,
    {
        let ghost before = rest;
        match rest.next() {
            Some(c) => {
                chars.push(c);
                assert(chars@ + rest.remaining() =~= input@);
            },
            None => {
                assert(chars@ =~= input@);
                return chars;
            },
        }
    }
}

} // verus!
