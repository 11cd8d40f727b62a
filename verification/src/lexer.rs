//! The lexer: source text to tokens, each with its line and column.
use vstd::prelude::*;
use crate::text::{chars_of, is_word, strings_view, text_of};

verus! {

/// The kind of a token, with what a literal, a word or a comment holds.
/// A `Number` holds the bit pattern of an IEEE-754 binary64 number.
#[derive(Debug, Clone, PartialEq)]
pub enum TokenType {
    Number(u64),
    String(String),
    Boolean(bool),
    Identifier(String),
    Keyword(String),
    Plus,
    Minus,
    Multiply,
    Divide,
    Modulo,
    Power,
    Assign,
    PlusAssign,
    MinusAssign,
    Equal,
    NotEqual,
    Less,
    LessEqual,
    Greater,
    GreaterEqual,
    And,
    Or,
    Not,
    Bang,
    LeftParen,
    RightParen,
    LeftBracket,
    RightBracket,
    LeftBrace,
    RightBrace,
    Comma,
    Dot,
    Colon,
    Semicolon,
    Arrow,
    Newline,
    Indent,
    Dedent,
    Eof,
    Comment(String),
}

pub enum TokenTypeView {
    Number(u64),
    String(Seq<char>),
    Boolean(bool),
    Identifier(Seq<char>),
    Keyword(Seq<char>),
    Plus,
    Minus,
    Multiply,
    Divide,
    Modulo,
    Power,
    Assign,
    PlusAssign,
    MinusAssign,
    Equal,
    NotEqual,
    Less,
    LessEqual,
    Greater,
    GreaterEqual,
    And,
    Or,
    Not,
    Bang,
    LeftParen,
    RightParen,
    LeftBracket,
    RightBracket,
    LeftBrace,
    RightBrace,
    Comma,
    Dot,
    Colon,
    Semicolon,
    Arrow,
    Newline,
    Indent,
    Dedent,
    Eof,
    Comment(Seq<char>),
}

impl View for TokenType {
    type V = TokenTypeView;

    open spec fn view(&self) -> TokenTypeView {
        match self {
            TokenType::Number(bits) => TokenTypeView::Number(*bits),
            TokenType::String(text) => TokenTypeView::String(text@),
            TokenType::Boolean(truth) => TokenTypeView::Boolean(*truth),
            TokenType::Identifier(name) => TokenTypeView::Identifier(name@),
            TokenType::Keyword(word) => TokenTypeView::Keyword(word@),
            TokenType::Plus => TokenTypeView::Plus,
            TokenType::Minus => TokenTypeView::Minus,
            TokenType::Multiply => TokenTypeView::Multiply,
            TokenType::Divide => TokenTypeView::Divide,
            TokenType::Modulo => TokenTypeView::Modulo,
            TokenType::Power => TokenTypeView::Power,
            TokenType::Assign => TokenTypeView::Assign,
            TokenType::PlusAssign => TokenTypeView::PlusAssign,
            TokenType::MinusAssign => TokenTypeView::MinusAssign,
            TokenType::Equal => TokenTypeView::Equal,
            TokenType::NotEqual => TokenTypeView::NotEqual,
            TokenType::Less => TokenTypeView::Less,
            TokenType::LessEqual => TokenTypeView::LessEqual,
            TokenType::Greater => TokenTypeView::Greater,
            TokenType::GreaterEqual => TokenTypeView::GreaterEqual,
            TokenType::And => TokenTypeView::And,
            TokenType::Or => TokenTypeView::Or,
            TokenType::Not => TokenTypeView::Not,
            TokenType::Bang => TokenTypeView::Bang,
            TokenType::LeftParen => TokenTypeView::LeftParen,
            TokenType::RightParen => TokenTypeView::RightParen,
            TokenType::LeftBracket => TokenTypeView::LeftBracket,
            TokenType::RightBracket => TokenTypeView::RightBracket,
            TokenType::LeftBrace => TokenTypeView::LeftBrace,
            TokenType::RightBrace => TokenTypeView::RightBrace,
            TokenType::Comma => TokenTypeView::Comma,
            TokenType::Dot => TokenTypeView::Dot,
            TokenType::Colon => TokenTypeView::Colon,
            TokenType::Semicolon => TokenTypeView::Semicolon,
            TokenType::Arrow => TokenTypeView::Arrow,
            TokenType::Newline => TokenTypeView::Newline,
            TokenType::Indent => TokenTypeView::Indent,
            TokenType::Dedent => TokenTypeView::Dedent,
            TokenType::Eof => TokenTypeView::Eof,
            TokenType::Comment(text) => TokenTypeView::Comment(text@),
        }
    }
}

impl TokenType {
    /// A copy of the kind, with the same view.
    pub fn copy(&self) -> (copy: TokenType)
        ensures
            copy@ == self@,
    {
        match self {
            TokenType::Number(bits) => TokenType::Number(*bits),
            TokenType::String(text) => TokenType::String(text.clone()),
            TokenType::Boolean(truth) => TokenType::Boolean(*truth),
            TokenType::Identifier(name) => TokenType::Identifier(name.clone()),
            TokenType::Keyword(word) => TokenType::Keyword(word.clone()),
            TokenType::Plus => TokenType::Plus,
            TokenType::Minus => TokenType::Minus,
            TokenType::Multiply => TokenType::Multiply,
            TokenType::Divide => TokenType::Divide,
            TokenType::Modulo => TokenType::Modulo,
            TokenType::Power => TokenType::Power,
            TokenType::Assign => TokenType::Assign,
            TokenType::PlusAssign => TokenType::PlusAssign,
            TokenType::MinusAssign => TokenType::MinusAssign,
            TokenType::Equal => TokenType::Equal,
            TokenType::NotEqual => TokenType::NotEqual,
            TokenType::Less => TokenType::Less,
            TokenType::LessEqual => TokenType::LessEqual,
            TokenType::Greater => TokenType::Greater,
            TokenType::GreaterEqual => TokenType::GreaterEqual,
            TokenType::And => TokenType::And,
            TokenType::Or => TokenType::Or,
            TokenType::Not => TokenType::Not,
            TokenType::Bang => TokenType::Bang,
            TokenType::LeftParen => TokenType::LeftParen,
            TokenType::RightParen => TokenType::RightParen,
            TokenType::LeftBracket => TokenType::LeftBracket,
            TokenType::RightBracket => TokenType::RightBracket,
            TokenType::LeftBrace => TokenType::LeftBrace,
            TokenType::RightBrace => TokenType::RightBrace,
            TokenType::Comma => TokenType::Comma,
            TokenType::Dot => TokenType::Dot,
            TokenType::Colon => TokenType::Colon,
            TokenType::Semicolon => TokenType::Semicolon,
            TokenType::Arrow => TokenType::Arrow,
            TokenType::Newline => TokenType::Newline,
            TokenType::Indent => TokenType::Indent,
            TokenType::Dedent => TokenType::Dedent,
            TokenType::Eof => TokenType::Eof,
            TokenType::Comment(text) => TokenType::Comment(text.clone()),
        }
    }
}

/// A token: its kind, the source text it was read from, and the line and
/// column, counted from one, at which that text starts.
#[derive(Debug, Clone, PartialEq)]
pub struct Token {
    pub token_type: TokenType,
    pub lexeme: String,
    pub line: usize,
    pub column: usize,
}

pub struct TokenView {
    pub token_type: TokenTypeView,
    pub lexeme: Seq<char>,
    pub line: usize,
    pub column: usize,
}

impl View for Token {
    type V = TokenView;

    open spec fn view(&self) -> TokenView {
        TokenView {
            token_type: self.token_type@,
            lexeme: self.lexeme@,
            line: self.line,
            column: self.column,
        }
    }
}

/// The models of a sequence of tokens.
pub open spec fn tokens_view(tokens: Seq<Token>) -> Seq<TokenView> {
    Seq::new(tokens.len(), |i: int| tokens[i]@)
}

impl Token {
    /// A copy of the token, with the same view.
    pub fn copy(&self) -> (copy: Token)
        ensures
            copy@ == self@,
    {
        Token {
            token_type: self.token_type.copy(),
            lexeme: self.lexeme.clone(),
            line: self.line,
            column: self.column,
        }
    }

    /// The token as a diagnostic shows it: its text, `at`, its line and
    /// column.
    pub fn describe(&self) -> (text: String)
        ensures
            text@ == described(self@),
    {
        let mut text = self.lexeme.clone();
        text.append(" at ");
        text.append(crate::text::numeral_of(self.line as u64).as_str());
        text.append(":");
        text.append(crate::text::numeral_of(self.column as u64).as_str());
        text
    }
}

/// A token as a diagnostic shows it.
pub open spec fn described(token: TokenView) -> Seq<char> {
    token.lexeme + " at "@ + crate::text::numeral(token.line as nat) + ":"@ + crate::text::numeral(
        token.column as nat,
    )
}

/// Why a source text has no tokens.
#[derive(Debug, Clone, PartialEq)]
pub enum LexError {
    /// A character that starts no token, and its position.
    UnexpectedChar(char, usize),
    /// A string literal that the source ends in, and the position of the end.
    UnterminatedString(usize),
    /// A numeral with more than one point, or one that was given no value.
    InvalidNumber(String),
    UnterminatedComment(usize),
}

pub enum LexErrorView {
    UnexpectedChar(char, usize),
    UnterminatedString(usize),
    InvalidNumber(Seq<char>),
    UnterminatedComment(usize),
}

impl View for LexError {
    type V = LexErrorView;

    open spec fn view(&self) -> LexErrorView {
        match self {
            LexError::UnexpectedChar(c, at) => LexErrorView::UnexpectedChar(*c, *at),
            LexError::UnterminatedString(at) => LexErrorView::UnterminatedString(*at),
            LexError::InvalidNumber(text) => LexErrorView::InvalidNumber(text@),
            LexError::UnterminatedComment(at) => LexErrorView::UnterminatedComment(*at),
        }
    }
}

/// The one-line diagnostic of a lexical error.
pub open spec fn lex_error_message(error: LexErrorView) -> Seq<char> {
    match error {
        LexErrorView::UnexpectedChar(c, at) => "Carácter inesperado: '"@ + seq![c]
            + "' en posición "@ + crate::text::numeral(at as nat),
        LexErrorView::UnterminatedString(at) => "String sin cerrar en posición "@
            + crate::text::numeral(at as nat),
        LexErrorView::InvalidNumber(text) => "Número inválido: '"@ + text + "'"@,
        LexErrorView::UnterminatedComment(at) => "Comentario sin cerrar en posición "@
            + crate::text::numeral(at as nat),
    }
}

impl LexError {
    /// The one-line diagnostic of the error.
    pub fn message(&self) -> (text: String)
        ensures
            text@ == lex_error_message(self@),
    {
        match self {
            LexError::UnexpectedChar(c, at) => {
                let mut text = String::from_str("Carácter inesperado: '");
                text.push(*c);
                assert(text@ =~= "Carácter inesperado: '"@ + seq![*c]);
                text.append("' en posición ");
                text.append(crate::text::numeral_of(*at as u64).as_str());
                text
            },
            LexError::UnterminatedString(at) => {
                let mut text = String::from_str("String sin cerrar en posición ");
                text.append(crate::text::numeral_of(*at as u64).as_str());
                text
            },
            LexError::InvalidNumber(numeral) => {
                let mut text = String::from_str("Número inválido: '");
                text.append(numeral.as_str());
                text.append("'");
                text
            },
            LexError::UnterminatedComment(at) => {
                let mut text = String::from_str("Comentario sin cerrar en posición ");
                text.append(crate::text::numeral_of(*at as u64).as_str());
                text
            },
        }
    }
}

/// White space, as Unicode defines it.
pub open spec fn is_space(c: char) -> bool {
    ('\u{9}' <= c <= '\u{d}') || c == ' ' || c == '\u{85}' || c == '\u{a0}' || c == '\u{1680}' || (
    '\u{2000}' <= c <= '\u{200a}') || c == '\u{2028}' || c == '\u{2029}' || c == '\u{202f}' || c
        == '\u{205f}' || c == '\u{3000}'
}

/// White space that does not end a line.
pub open spec fn is_blank(c: char) -> bool {
    is_space(c) && c != '\n'
}

pub open spec fn is_digit(c: char) -> bool {
    '0' <= c <= '9'
}

/// A character that may start a word.
pub open spec fn is_letter(c: char) -> bool {
    ('a' <= c <= 'z') || ('A' <= c <= 'Z') || c == '_'
}

/// A character that may continue a word.
pub open spec fn is_word_char(c: char) -> bool {
    is_letter(c) || is_digit(c)
}

/// A character of a numeral.
pub open spec fn is_numeral_char(c: char) -> bool {
    is_digit(c) || c == '.'
}

/// The line, counted from one, of the position `at`: one more than the
/// line breaks before it. A position past the end is on the last line.
pub open spec fn line_at(input: Seq<char>, at: int) -> int
    decreases at,
{
    if at <= 0 {
        1
    } else if at - 1 < input.len() && input[at - 1] == '\n' {
        line_at(input, at - 1) + 1
    } else {
        line_at(input, at - 1)
    }
}

/// The column, counted from one, of the position `at`: one more than the
/// positions between it and the line break before it. Past the end the
/// columns go on.
pub open spec fn column_at(input: Seq<char>, at: int) -> int
    decreases at,
{
    if at <= 0 {
        1
    } else if at - 1 < input.len() && input[at - 1] == '\n' {
        1
    } else {
        column_at(input, at - 1) + 1
    }
}

/// The end of the input, or `at` if that lies past it.
pub open spec fn past(input: Seq<char>, at: int) -> int {
    if at > input.len() {
        at
    } else {
        input.len() as int
    }
}

/// The characters from `from` up to `to`; none if these are no positions
/// of the input.
pub open spec fn slice(input: Seq<char>, from: int, to: int) -> Seq<char> {
    if 0 <= from <= to <= input.len() {
        input.subrange(from, to)
    } else {
        Seq::empty()
    }
}

/// Lines and columns are at most one more than the position.
pub proof fn lemma_place_bounds(input: Seq<char>, at: int)
    ensures
        1 <= line_at(input, at) <= (if at > 0 {
            at + 1
        } else {
            1
        }),
        1 <= column_at(input, at) <= (if at > 0 {
            at + 1
        } else {
            1
        }),
    decreases at,
{
    if 0 < at {
        lemma_place_bounds(input, at - 1);
    }
}

/// The first position from `at` on whose character fails `accepts`, or the
/// end.
pub open spec fn run_end(input: Seq<char>, at: int, accepts: spec_fn(char) -> bool) -> int
    decreases input.len() - at,
{
    if 0 <= at < input.len() && accepts(input[at]) {
        run_end(input, at + 1, accepts)
    } else {
        at
    }
}

/// A run ends at or after its start, and within the input.
pub proof fn lemma_run_end(input: Seq<char>, at: int, accepts: spec_fn(char) -> bool)
    requires
        0 <= at <= input.len(),
    ensures
        at <= run_end(input, at, accepts) <= input.len(),
        0 <= at < input.len() && accepts(input[at]) ==> at < run_end(input, at, accepts),
    decreases input.len() - at,
{
    if at < input.len() && accepts(input[at]) {
        lemma_run_end(input, at + 1, accepts);
    }
}

/// The first position from `at` on that holds neither a space nor a tab.
pub open spec fn after_spaces(input: Seq<char>, at: int) -> int {
    run_end(input, at, |c: char| c == ' ' || c == '\t')
}

/// The character at a position, if there is one.
pub open spec fn char_at(input: Seq<char>, at: int) -> Option<char> {
    if 0 <= at < input.len() {
        Some(input[at])
    } else {
        None
    }
}

/// How many points a text holds.
pub open spec fn points(text: Seq<char>) -> nat
    decreases text.len(),
{
    if text.len() == 0 {
        0
    } else {
        points(text.drop_last()) + if text.last() == '.' {
            1nat
        } else {
            0nat
        }
    }
}

/// The character that an escape sequence with this letter stands for.
pub open spec fn unescaped(c: char) -> char {
    if c == 'n' {
        '\n'
    } else if c == 't' {
        '\t'
    } else if c == 'r' {
        '\r'
    } else {
        c
    }
}

/// Reads a string literal from the position after its opening quote:
/// its text, in front of which `text` was already read, and the position
/// after its closing quote.
pub open spec fn string_body(input: Seq<char>, at: int, text: Seq<char>) -> Result<
    (Seq<char>, int),
    LexErrorView,
>
    decreases input.len() - at,
{
    if at < 0 || at >= input.len() {
        Err(LexErrorView::UnterminatedString(past(input, at) as usize))
    } else if input[at] == '"' {
        Ok((text, at + 1))
    } else if input[at] == '\\' {
        if at + 1 >= input.len() {
            Err(LexErrorView::UnterminatedString(input.len() as usize))
        } else {
            string_body(input, at + 2, text.push(unescaped(input[at + 1])))
        }
    } else {
        string_body(input, at + 1, text.push(input[at]))
    }
}

/// A string literal ends after the position its body starts at.
pub proof fn lemma_string_body(input: Seq<char>, at: int, text: Seq<char>)
    requires
        0 <= at,
    ensures
        string_body(input, at, text) matches Ok(read) ==> at < read.1 <= input.len(),
    decreases input.len() - at,
{
    if at < input.len() && input[at] != '"' {
        if input[at] == '\\' {
            if at + 1 < input.len() {
                lemma_string_body(input, at + 2, text.push(unescaped(input[at + 1])));
            }
        } else {
            lemma_string_body(input, at + 1, text.push(input[at]));
        }
    }
}

/// The text without the white space at its start.
pub open spec fn trimmed_start(text: Seq<char>) -> Seq<char>
    decreases text.len(),
{
    if text.len() > 0 && is_space(text[0]) {
        trimmed_start(text.drop_first())
    } else {
        text
    }
}

/// The text without the white space at its end.
pub open spec fn trimmed_end(text: Seq<char>) -> Seq<char>
    decreases text.len(),
{
    if text.len() > 0 && is_space(text.last()) {
        trimmed_end(text.drop_last())
    } else {
        text
    }
}

/// The text without the white space around it.
pub open spec fn trimmed(text: Seq<char>) -> Seq<char> {
    trimmed_end(trimmed_start(text))
}

/// Whether the word `y` or `o` at `start..end` is the logical operator and
/// not a name. It is a name if `=` is the next character that is neither a
/// space nor a tab. Else it is the operator if `)` stands right before it
/// and a space right after it; if it stands between two spaces and `(` is
/// the next character that is neither a space nor a tab; or if one of the
/// three characters before it is `)`.
pub open spec fn is_logical(input: Seq<char>, start: int, end: int) -> bool {
    let next = char_at(input, end);
    let beyond = char_at(input, after_spaces(input, end));
    let before = char_at(input, start - 1);
    if beyond == Some('=') {
        false
    } else if before == Some(')') && next == Some(' ') {
        true
    } else if before == Some(' ') && next == Some(' ') && beyond == Some('(') {
        true
    } else {
        start >= 3 && (input[start - 3] == ')' || input[start - 2] == ')' || input[start - 1]
            == ')')
    }
}

/// The kind of a word: a keyword, a boolean, a logical operator, or a name.
pub open spec fn word_kind(word: Seq<char>, logical: bool) -> TokenTypeView {
    if word == "si"@ || word == "sino"@ || word == "mientras"@ || word == "para"@ || word == "en"@
        || word == "funcion"@ || word == "clase"@ || word == "retornar"@ || word == "decir"@
        || word == "nulo"@ || word == "print"@ || word == "if"@ || word == "else"@ || word
        == "while"@ || word == "for"@ || word == "in"@ || word == "function"@ || word == "class"@
        || word == "return"@ || word == "null"@ {
        TokenTypeView::Keyword(word)
    } else if word == "verdadero"@ || word == "true"@ {
        TokenTypeView::Boolean(true)
    } else if word == "falso"@ || word == "false"@ {
        TokenTypeView::Boolean(false)
    } else if word == "no"@ || word == "not"@ {
        TokenTypeView::Not
    } else if word == "and"@ {
        TokenTypeView::And
    } else if word == "or"@ {
        TokenTypeView::Or
    } else if word == "y"@ && logical {
        TokenTypeView::And
    } else if word == "o"@ && logical {
        TokenTypeView::Or
    } else {
        TokenTypeView::Identifier(word)
    }
}

/// The kind of the token of one or two punctuation characters that starts
/// with `c`, and its length; `next` is the character after `c`.
pub open spec fn punctuation(c: char, next: Option<char>) -> Option<(TokenTypeView, int)> {
    if c == '+' {
        if next == Some('=') {
            Some((TokenTypeView::PlusAssign, 2))
        } else {
            Some((TokenTypeView::Plus, 1))
        }
    } else if c == '-' {
        if next == Some('=') {
            Some((TokenTypeView::MinusAssign, 2))
        } else if next == Some('>') {
            Some((TokenTypeView::Arrow, 2))
        } else {
            Some((TokenTypeView::Minus, 1))
        }
    } else if c == '*' {
        Some((TokenTypeView::Multiply, 1))
    } else if c == '/' {
        Some((TokenTypeView::Divide, 1))
    } else if c == '%' {
        Some((TokenTypeView::Modulo, 1))
    } else if c == '=' {
        if next == Some('=') {
            Some((TokenTypeView::Equal, 2))
        } else {
            Some((TokenTypeView::Assign, 1))
        }
    } else if c == '<' {
        if next == Some('=') {
            Some((TokenTypeView::LessEqual, 2))
        } else {
            Some((TokenTypeView::Less, 1))
        }
    } else if c == '>' {
        if next == Some('=') {
            Some((TokenTypeView::GreaterEqual, 2))
        } else {
            Some((TokenTypeView::Greater, 1))
        }
    } else if c == '!' {
        if next == Some('=') {
            Some((TokenTypeView::NotEqual, 2))
        } else {
            Some((TokenTypeView::Bang, 1))
        }
    } else if c == ',' {
        Some((TokenTypeView::Comma, 1))
    } else if c == ';' {
        Some((TokenTypeView::Semicolon, 1))
    } else if c == ':' {
        Some((TokenTypeView::Colon, 1))
    } else if c == '.' {
        Some((TokenTypeView::Dot, 1))
    } else if c == '(' {
        Some((TokenTypeView::LeftParen, 1))
    } else if c == ')' {
        Some((TokenTypeView::RightParen, 1))
    } else if c == '[' {
        Some((TokenTypeView::LeftBracket, 1))
    } else if c == ']' {
        Some((TokenTypeView::RightBracket, 1))
    } else if c == '{' {
        Some((TokenTypeView::LeftBrace, 1))
    } else if c == '}' {
        Some((TokenTypeView::RightBrace, 1))
    } else if c == '\n' {
        Some((TokenTypeView::Newline, 1))
    } else {
        None
    }
}

/// The kind of the token that starts at `start` and the position after it.
/// A numeral takes the value `number`; without one it is refused, as a
/// numeral with two points is.
pub open spec fn token_at(input: Seq<char>, start: int, number: Option<u64>) -> Result<
    (TokenTypeView, int),
    LexErrorView,
>
    recommends
        0 <= start < input.len(),
{
    let c = input[start];
    if is_digit(c) {
        let end = run_end(input, start, |c: char| is_numeral_char(c));
        let text = input.subrange(start, end);
        match number {
            Some(bits) if points(text) <= 1 => Ok((TokenTypeView::Number(bits), end)),
            _ => Err(LexErrorView::InvalidNumber(text)),
        }
    } else if c == '"' {
        match string_body(input, start + 1, Seq::empty()) {
            Ok((text, end)) => Ok((TokenTypeView::String(text), end)),
            Err(error) => Err(error),
        }
    } else if is_letter(c) {
        let end = run_end(input, start, |c: char| is_word_char(c));
        Ok((word_kind(input.subrange(start, end), is_logical(input, start, end)), end))
    } else if c == '/' && char_at(input, start + 1) == Some('/') {
        let end = run_end(input, start + 2, |c: char| c != '\n');
        Ok((TokenTypeView::Comment(trimmed(input.subrange(start + 2, end))), end))
    } else {
        match punctuation(c, char_at(input, start + 1)) {
            Some((kind, length)) => Ok((kind, start + length)),
            None => Err(LexErrorView::UnexpectedChar(c, start as usize)),
        }
    }
}

/// A token ends after its start, and within the input.
pub proof fn lemma_token_at(input: Seq<char>, start: int, number: Option<u64>)
    requires
        0 <= start < input.len(),
    ensures
        token_at(input, start, number) matches Ok(read) ==> start < read.1 <= input.len(),
{
    let c = input[start];
    if is_digit(c) {
        lemma_run_end(input, start, |c: char| is_numeral_char(c));
    } else if c == '"' {
        lemma_string_body(input, start + 1, Seq::empty());
    } else if is_letter(c) {
        lemma_run_end(input, start, |c: char| is_word_char(c));
    } else if c == '/' && char_at(input, start + 1) == Some('/') {
        lemma_run_end(input, start + 2, |c: char| c != '\n');
    }
}

/// The token of the given kind read from `start..end`.
pub open spec fn token_of(
    input: Seq<char>,
    start: int,
    end: int,
    kind: TokenTypeView,
) -> TokenView {
    TokenView {
        token_type: kind,
        lexeme: input.subrange(start, end),
        line: line_at(input, start) as usize,
        column: column_at(input, start) as usize,
    }
}

/// The value for the next numeral: `values[used]`, if there is one.
pub open spec fn next_value(values: Seq<u64>, used: int) -> Option<u64> {
    if 0 <= used < values.len() {
        Some(values[used])
    } else {
        None
    }
}

/// The tokens of the input from `at` on, behind those of `done`; comments
/// are left out. The numerals take the values from `values[used]` on, in
/// their order.
pub open spec fn tokens_from(
    input: Seq<char>,
    at: int,
    values: Seq<u64>,
    used: int,
    done: Seq<TokenView>,
) -> Result<Seq<TokenView>, LexErrorView>
    decreases input.len() - at,
{
    let start = run_end(input, at, |c: char| is_blank(c));
    if at < 0 || start >= input.len() {
        Ok(done)
    } else {
        match token_at(input, start, next_value(values, used)) {
            Err(error) => Err(error),
            Ok((kind, end)) => {
                proof {
                    lemma_run_end(input, at, |c: char| is_blank(c));
                    lemma_token_at(input, start, next_value(values, used));
                }
                tokens_from(
                    input,
                    end,
                    values,
                    if kind is Number {
                        used + 1
                    } else {
                        used
                    },
                    if kind is Comment {
                        done
                    } else {
                        done.push(token_of(input, start, end, kind))
                    },
                )
            },
        }
    }
}

/// The texts of the numerals of the input from `at` on, behind those of
/// `done`, up to the end or to the first character that starts no token.
pub open spec fn numerals_from(input: Seq<char>, at: int, done: Seq<Seq<char>>) -> Seq<Seq<char>>
    decreases input.len() - at,
{
    let start = run_end(input, at, |c: char| is_blank(c));
    if at < 0 || start >= input.len() {
        done
    } else {
        match token_at(input, start, Some(0)) {
            Err(error) => done,
            Ok((kind, end)) => {
                proof {
                    lemma_run_end(input, at, |c: char| is_blank(c));
                    lemma_token_at(input, start, Some(0));
                }
                numerals_from(
                    input,
                    end,
                    if kind is Number {
                        done.push(input.subrange(start, end))
                    } else {
                        done
                    },
                )
            },
        }
    }
}

/// A token without text at the position `at`.
pub open spec fn marker(input: Seq<char>, at: int, kind: TokenTypeView) -> TokenView {
    TokenView {
        token_type: kind,
        lexeme: Seq::empty(),
        line: line_at(input, at) as usize,
        column: column_at(input, at) as usize,
    }
}

/// `count` tokens that close an indentation level, at the position `at`.
pub open spec fn dedents(input: Seq<char>, at: int, count: nat) -> Seq<TokenView> {
    Seq::new(count, |i: int| marker(input, at, TokenTypeView::Dedent))
}

/// All the tokens of the input from `at` on: its tokens without the
/// comments, then, at the end of the input, one `Dedent` for each open
/// indentation level, and `Eof`.
pub open spec fn lexed(input: Seq<char>, at: int, values: Seq<u64>, levels: nat) -> Result<
    Seq<TokenView>,
    LexErrorView,
> {
    match tokens_from(input, at, values, 0, Seq::empty()) {
        Err(error) => Err(error),
        Ok(tokens) => Ok(
            tokens + dedents(input, past(input, at), levels) + seq![
                marker(input, past(input, at), TokenTypeView::Eof),
            ],
        ),
    }
}

/// No token that is read from the source is an `Eof`, an `Indent` or a
/// `Dedent`.
pub proof fn lemma_token_kinds(input: Seq<char>, start: int, number: Option<u64>)
    requires
        0 <= start < input.len(),
    ensures
        token_at(input, start, number) matches Ok(read) ==> !(read.0 is Eof) && !(read.0 is Dedent)
            && !(read.0 is Indent),
{
}

/// Whether a token has a line and a column and is neither an `Eof` nor a
/// comment.
pub open spec fn is_placed(token: TokenView) -> bool {
    token.line >= 1 && token.column >= 1 && !(token.token_type is Eof) && !(token.token_type
        is Comment)
}

/// The tokens that are read from the source have a line and a column, and
/// none of them is an `Eof` or a comment.
pub proof fn lemma_tokens_are_placed(
    input: Seq<char>,
    at: int,
    values: Seq<u64>,
    used: int,
    done: Seq<TokenView>,
)
    requires
        input.len() < usize::MAX,
        forall|i: int| 0 <= i < done.len() ==> is_placed(#[trigger] done[i]),
    ensures
        tokens_from(input, at, values, used, done) matches Ok(tokens) ==> forall|i: int|
            0 <= i < tokens.len() ==> is_placed(#[trigger] tokens[i]),
    decreases input.len() - at,
{
    let start = run_end(input, at, |c: char| is_blank(c));
    if !(at < 0 || start >= input.len()) {
        lemma_run_end(input, at, |c: char| is_blank(c));
        match token_at(input, start, next_value(values, used)) {
            Err(error) => {},
            Ok((kind, end)) => {
                lemma_token_at(input, start, next_value(values, used));
                lemma_token_kinds(input, start, next_value(values, used));
                lemma_place_bounds(input, start);
                let token = token_of(input, start, end, kind);
                let more = if kind is Comment {
                    done
                } else {
                    done.push(token)
                };
                assert forall|i: int| 0 <= i < more.len() implies is_placed(#[trigger] more[i]) by {
                    if i < done.len() {
                        assert(is_placed(done[i]));
                    }
                }
                lemma_tokens_are_placed(
                    input,
                    end,
                    values,
                    if kind is Number {
                        used + 1
                    } else {
                        used
                    },
                    more,
                );
            },
        }
    }
}

/// Whatever the source and the values of its numerals, lexing gives either
/// one error or a sequence of tokens of which each has a line and a
/// column of at least one, none is a comment, the last is `Eof`, and no
/// other is.
pub proof fn lemma_lexing_ends_in_eof(input: Seq<char>, values: Seq<u64>, levels: nat)
    requires
        input.len() < usize::MAX,
    ensures
        match lexed(input, 0, values, levels) {
            Ok(tokens) => tokens.len() > 0 && forall|i: int|
                0 <= i < tokens.len() ==> (#[trigger] tokens[i]).line >= 1 && tokens[i].column >= 1
                    && !(tokens[i].token_type is Comment) && (tokens[i].token_type is Eof <==> i
                    == tokens.len() - 1),
            Err(error) => true,
        },
{
    lemma_tokens_are_placed(input, 0, values, 0, Seq::empty());
    lemma_place_bounds(input, input.len() as int);
    match tokens_from(input, 0, values, 0, Seq::empty()) {
        Ok(read) => {
            let tokens = lexed(input, 0, values, levels)->Ok_0;
            assert forall|i: int| 0 <= i < tokens.len() implies (#[trigger] tokens[i]).line >= 1
                && tokens[i].column >= 1 && !(tokens[i].token_type is Comment) && (
            tokens[i].token_type is Eof <==> i == tokens.len() - 1) by {
                if i < read.len() {
                    assert(is_placed(read[i]));
                }
            }
        },
        Err(error) => {},
    }
}

/// The first offence of the source from `at` on: the error of the first
/// token that cannot be read, whatever the values of the numerals are. A
/// source without an offence is legal.
pub open spec fn offence(input: Seq<char>, at: int) -> Option<LexErrorView>
    decreases input.len() - at,
{
    let start = run_end(input, at, |c: char| is_blank(c));
    if at < 0 || start >= input.len() {
        None
    } else {
        match token_at(input, start, Some(0)) {
            Err(error) => Some(error),
            Ok((kind, end)) => {
                proof {
                    lemma_run_end(input, at, |c: char| is_blank(c));
                    lemma_token_at(input, start, Some(0));
                }
                offence(input, end)
            },
        }
    }
}

/// An offence is a character that starts no token, a string literal that
/// is not closed, or a numeral with more than one point.
pub proof fn lemma_offences(input: Seq<char>, at: int)
    requires
        input.len() <= usize::MAX,
    ensures
        match offence(input, at) {
            Some(LexErrorView::UnexpectedChar(c, place)) => 0 <= place < input.len() && input[place as int]
                == c,
            Some(LexErrorView::UnterminatedString(place)) => place == input.len(),
            Some(LexErrorView::InvalidNumber(text)) => points(text) > 1,
            Some(LexErrorView::UnterminatedComment(place)) => false,
            None => true,
        },
    decreases input.len() - at,
{
    let start = run_end(input, at, |c: char| is_blank(c));
    if !(at < 0 || start >= input.len()) {
        lemma_run_end(input, at, |c: char| is_blank(c));
        match token_at(input, start, Some(0)) {
            Err(error) => {
                if input[start] == '"' {
                    lemma_unclosed_string(input, start + 1, Seq::empty());
                }
            },
            Ok((kind, end)) => {
                lemma_token_at(input, start, Some(0));
                lemma_offences(input, end);
            },
        }
    }
}

/// A string literal that is not closed fails at the end of the source.
pub proof fn lemma_unclosed_string(input: Seq<char>, at: int, text: Seq<char>)
    requires
        0 <= at <= input.len(),
    ensures
        string_body(input, at, text) matches Err(error) ==> error == LexErrorView::UnterminatedString(
            input.len() as usize,
        ),
    decreases input.len() - at,
{
    if at < input.len() && input[at] != '"' {
        if input[at] == '\\' {
            if at + 1 < input.len() {
                lemma_unclosed_string(input, at + 2, text.push(unescaped(input[at + 1])));
            }
        } else {
            lemma_unclosed_string(input, at + 1, text.push(input[at]));
        }
    }
}

/// The numerals behind those that are listed already are as many as the
/// source holds from the position on.
pub proof fn lemma_numerals_count(input: Seq<char>, at: int, done: Seq<Seq<char>>)
    ensures
        numerals_from(input, at, done).len() == done.len() + numerals_from(
            input,
            at,
            Seq::empty(),
        ).len(),
    decreases input.len() - at,
{
    let start = run_end(input, at, |c: char| is_blank(c));
    if !(at < 0 || start >= input.len()) {
        lemma_run_end(input, at, |c: char| is_blank(c));
        match token_at(input, start, Some(0)) {
            Err(error) => {},
            Ok((kind, end)) => {
                lemma_token_at(input, start, Some(0));
                if kind is Number {
                    lemma_numerals_count(input, end, done.push(input.subrange(start, end)));
                    lemma_numerals_count(
                        input,
                        end,
                        Seq::<Seq<char>>::empty().push(input.subrange(start, end)),
                    );
                } else {
                    lemma_numerals_count(input, end, done);
                }
            },
        }
    }
}

/// With a value for each numeral that the source holds up to its first
/// offence, the tokens are read exactly when the source is legal, and the
/// error is the first offence when it is not.
pub proof fn lemma_tokens_or_the_first_offence(
    input: Seq<char>,
    at: int,
    values: Seq<u64>,
    used: int,
    done: Seq<TokenView>,
)
    requires
        0 <= used,
        values.len() - used >= numerals_from(input, at, Seq::empty()).len(),
    ensures
        match offence(input, at) {
            None => tokens_from(input, at, values, used, done) is Ok,
            Some(error) => tokens_from(input, at, values, used, done) == Err::<
                Seq<TokenView>,
                LexErrorView,
            >(error),
        },
    decreases input.len() - at,
{
    let start = run_end(input, at, |c: char| is_blank(c));
    if !(at < 0 || start >= input.len()) {
        lemma_run_end(input, at, |c: char| is_blank(c));
        let given = next_value(values, used);
        match token_at(input, start, Some(0)) {
            Err(error) => {
                assert(token_at(input, start, given) == Err::<(TokenTypeView, int), LexErrorView>(
                    error,
                ));
            },
            Ok((kind, end)) => {
                lemma_token_at(input, start, Some(0));
                if kind is Number {
                    lemma_numerals_count(
                        input,
                        end,
                        Seq::<Seq<char>>::empty().push(input.subrange(start, end)),
                    );
                    assert(given is Some);
                    assert(token_at(input, start, given) == Ok::<
                        (TokenTypeView, int),
                        LexErrorView,
                    >((TokenTypeView::Number(given->0), end)));
                    lemma_tokens_or_the_first_offence(
                        input,
                        end,
                        values,
                        used + 1,
                        done.push(token_of(input, start, end, TokenTypeView::Number(given->0))),
                    );
                } else {
                    assert(token_at(input, start, given) == Ok::<
                        (TokenTypeView, int),
                        LexErrorView,
                    >((kind, end)));
                    lemma_tokens_or_the_first_offence(
                        input,
                        end,
                        values,
                        used,
                        if kind is Comment {
                            done
                        } else {
                            done.push(token_of(input, start, end, kind))
                        },
                    );
                }
            },
        }
    }
}

/// A legal source, with the values of its numerals, has its tokens; a
/// source that is not legal has one error, its first offence.
pub proof fn lemma_legal_sources_are_lexed(input: Seq<char>, values: Seq<u64>, levels: nat)
    requires
        values.len() >= numerals_from(input, 0, Seq::empty()).len(),
    ensures
        match offence(input, 0) {
            None => lexed(input, 0, values, levels) is Ok,
            Some(error) => lexed(input, 0, values, levels) == Err::<Seq<TokenView>, LexErrorView>(
                error,
            ),
        },
{
    lemma_tokens_or_the_first_offence(input, 0, values, 0, Seq::empty());
}

pub fn space(c: char) -> (yes: bool)
    ensures
        yes == is_space(c),
{
    ('\u{9}' <= c && c <= '\u{d}') || c == ' ' || c == '\u{85}' || c == '\u{a0}' || c == '\u{1680}'
        || ('\u{2000}' <= c && c <= '\u{200a}') || c == '\u{2028}' || c == '\u{2029}' || c
        == '\u{202f}' || c == '\u{205f}' || c == '\u{3000}'
}

pub fn digit(c: char) -> (yes: bool)
    ensures
        yes == is_digit(c),
{
    '0' <= c && c <= '9'
}

pub fn letter(c: char) -> (yes: bool)
    ensures
        yes == is_letter(c),
{
    ('a' <= c && c <= 'z') || ('A' <= c && c <= 'Z') || c == '_'
}

} // verus!

verus! {

/// The lexer: the characters of a source text and a position in them.
pub struct VaderLexer {
    input: Vec<char>,
    position: usize,
    line: usize,
    column: usize,
    indent_stack: Vec<usize>,
}

/// The kind of a token of punctuation, as `punctuation` gives it.
fn punctuation_kind(c: char, next: Option<char>) -> (found: Option<(TokenType, usize)>)
    ensures
        match found {
            Some((kind, length)) => punctuation(c, next) == Some((kind@, length as int)) && 1
                <= length <= 2 && (length == 2 ==> next is Some),
            None => punctuation(c, next) is None,
        },
{
    let follows_equal = match next {
        Some(n) => n == '=',
        None => false,
    };
    let follows_greater = match next {
        Some(n) => n == '>',
        None => false,
    };
    if c == '+' {
        if follows_equal {
            Some((TokenType::PlusAssign, 2))
        } else {
            Some((TokenType::Plus, 1))
        }
    } else if c == '-' {
        if follows_equal {
            Some((TokenType::MinusAssign, 2))
        } else if follows_greater {
            Some((TokenType::Arrow, 2))
        } else {
            Some((TokenType::Minus, 1))
        }
    } else if c == '*' {
        Some((TokenType::Multiply, 1))
    } else if c == '/' {
        Some((TokenType::Divide, 1))
    } else if c == '%' {
        Some((TokenType::Modulo, 1))
    } else if c == '=' {
        if follows_equal {
            Some((TokenType::Equal, 2))
        } else {
            Some((TokenType::Assign, 1))
        }
    } else if c == '<' {
        if follows_equal {
            Some((TokenType::LessEqual, 2))
        } else {
            Some((TokenType::Less, 1))
        }
    } else if c == '>' {
        if follows_equal {
            Some((TokenType::GreaterEqual, 2))
        } else {
            Some((TokenType::Greater, 1))
        }
    } else if c == '!' {
        if follows_equal {
            Some((TokenType::NotEqual, 2))
        } else {
            Some((TokenType::Bang, 1))
        }
    } else if c == ',' {
        Some((TokenType::Comma, 1))
    } else if c == ';' {
        Some((TokenType::Semicolon, 1))
    } else if c == ':' {
        Some((TokenType::Colon, 1))
    } else if c == '.' {
        Some((TokenType::Dot, 1))
    } else if c == '(' {
        Some((TokenType::LeftParen, 1))
    } else if c == ')' {
        Some((TokenType::RightParen, 1))
    } else if c == '[' {
        Some((TokenType::LeftBracket, 1))
    } else if c == ']' {
        Some((TokenType::RightBracket, 1))
    } else if c == '{' {
        Some((TokenType::LeftBrace, 1))
    } else if c == '}' {
        Some((TokenType::RightBrace, 1))
    } else if c == '\n' {
        Some((TokenType::Newline, 1))
    } else {
        None
    }
}

/// The kind of a word.
fn kind_of_word(word: String, logical: bool) -> (kind: TokenType)
    ensures
        kind@ == word_kind(word@, logical),
{
    if is_word(&word, "si") || is_word(&word, "sino") || is_word(&word, "mientras") || is_word(
        &word,
        "para",
    ) || is_word(&word, "en") || is_word(&word, "funcion") || is_word(&word, "clase") || is_word(
        &word,
        "retornar",
    ) || is_word(&word, "decir") || is_word(&word, "nulo") || is_word(&word, "print") || is_word(
        &word,
        "if",
    ) || is_word(&word, "else") || is_word(&word, "while") || is_word(&word, "for") || is_word(
        &word,
        "in",
    ) || is_word(&word, "function") || is_word(&word, "class") || is_word(&word, "return")
        || is_word(&word, "null") {
        TokenType::Keyword(word)
    } else if is_word(&word, "verdadero") || is_word(&word, "true") {
        TokenType::Boolean(true)
    } else if is_word(&word, "falso") || is_word(&word, "false") {
        TokenType::Boolean(false)
    } else if is_word(&word, "no") || is_word(&word, "not") {
        TokenType::Not
    } else if is_word(&word, "and") {
        TokenType::And
    } else if is_word(&word, "or") {
        TokenType::Or
    } else if is_word(&word, "y") && logical {
        TokenType::And
    } else if is_word(&word, "o") && logical {
        TokenType::Or
    } else {
        TokenType::Identifier(word)
    }
}

/// The text `chars[from..to]` without the white space around it.
#[verifier::loop_isolation(false)]
fn trimmed_text(chars: &Vec<char>, from: usize, to: usize) -> (text: String)
    requires
        from <= to <= chars@.len(),
    ensures
        text@ == trimmed(chars@.subrange(from as int, to as int)),
{
    let mut first: usize = from;
    while first < to && space(chars[first])
        invariant
            from <= first <= to,
            trimmed_start(chars@.subrange(first as int, to as int)) == trimmed_start(
                chars@.subrange(from as int, to as int),
            ),
        decreases to - first,
    {
        assert(chars@.subrange(first as int, to as int).drop_first() =~= chars@.subrange(
            first + 1,
            to as int,
        ));
        first = first + 1;
    }
    let mut last: usize = to;
    while last > first && space(chars[last - 1])
        invariant
            first <= last <= to,
            trimmed_end(chars@.subrange(first as int, last as int)) == trimmed_end(
                chars@.subrange(first as int, to as int),
            ),
        decreases last,
    {
        assert(chars@.subrange(first as int, last as int).drop_last() =~= chars@.subrange(
            first as int,
            last - 1,
        ));
        last = last - 1;
    }
    assert(trimmed_start(chars@.subrange(first as int, to as int)) == chars@.subrange(
        first as int,
        to as int,
    ));
    assert(trimmed_end(chars@.subrange(first as int, last as int)) == chars@.subrange(
        first as int,
        last as int,
    ));
    text_of(chars, first, last)
}

impl VaderLexer {
    /// The characters of the source.
    pub closed spec fn source(&self) -> Seq<char> {
        self.input@
    }

    /// The position of the next character to read.
    pub closed spec fn cursor(&self) -> int {
        self.position as int
    }

    /// The number of indentation levels that are open.
    pub closed spec fn levels(&self) -> nat {
        (self.indent_stack@.len() - 1) as nat
    }

    /// Whether the position lies within the source or at its end.
    pub open spec fn within(&self) -> bool {
        0 <= self.cursor() <= self.source().len()
    }

    /// The line and column are those of the position.
    pub closed spec fn wf(&self) -> bool {
        &&& self.input@.len() < usize::MAX
        &&& self.line == line_at(self.input@, self.position as int)
        &&& self.column == column_at(self.input@, self.position as int)
        &&& self.indent_stack@.len() >= 1
    }

    /// A lexer at the start of the source.
    pub fn new(input: &str) -> (lexer: Self)
        requires
            input@.len() < usize::MAX,
        ensures
            lexer.wf(),
            lexer.source() == input@,
            lexer.cursor() == 0,
            lexer.levels() == 0,
            lexer.within(),
    {
        let mut indent_stack: Vec<usize> = Vec::new();
        indent_stack.push(0);
        Self { input: chars_of(input), position: 0, line: 1, column: 1, indent_stack }
    }

    /// A position is a natural number that the machine can hold.
    pub proof fn lemma_cursor(&self)
        ensures
            0 <= self.cursor() <= usize::MAX,
            self.wf() ==> self.source().len() < usize::MAX,
    {
    }

    /// The position of the next character to read.
    pub fn position(&self) -> (position: usize)
        ensures
            position == self.cursor(),
    {
        self.position
    }

    /// The line of the position, counted from one.
    pub fn line(&self) -> (line: usize)
        requires
            self.wf(),
        ensures
            line == line_at(self.source(), self.cursor()),
    {
        self.line
    }

    /// The column of the position, counted from one.
    pub fn column(&self) -> (column: usize)
        requires
            self.wf(),
        ensures
            column == column_at(self.source(), self.cursor()),
    {
        self.column
    }

    /// Moves to the next position, at the end of the source as within it:
    /// after a line break to the first column of the next line, and else
    /// to the next column.
    pub fn advance(&mut self)
        requires
            old(self).wf(),
            old(self).cursor() + 1 < usize::MAX,
        ensures
            final(self).wf(),
            final(self).source() == old(self).source(),
            final(self).levels() == old(self).levels(),
            final(self).cursor() == old(self).cursor() + 1,
    {
        proof {
            lemma_place_bounds(self.input@, self.position as int);
        }
        if self.position < self.input.len() && self.input[self.position] == '\n' {
            self.line = self.line + 1;
            self.column = 1;
        } else {
            self.column = self.column + 1;
        }
        self.position = self.position + 1;
    }

    /// Moves past white space, up to the end of the line.
    pub fn skip_whitespace(&mut self)
        requires
            old(self).wf(),
        ensures
            final(self).wf(),
            final(self).source() == old(self).source(),
            final(self).levels() == old(self).levels(),
            final(self).cursor() == run_end(
                old(self).source(),
                old(self).cursor(),
                |c: char| is_blank(c),
            ),
            old(self).cursor() <= final(self).cursor(),
            old(self).within() ==> final(self).within(),
    {
        proof {
            if self.position <= self.input@.len() {
                lemma_run_end(self.input@, self.position as int, |c: char| is_blank(c));
            }
        }
        while self.position < self.input.len() && space(self.input[self.position])
            && self.input[self.position] != '\n'
            invariant
                self.wf(),
                self.input@ == old(self).input@,
                self.indent_stack@.len() == old(self).indent_stack@.len(),
                old(self).position <= self.position,
                run_end(self.input@, self.position as int, |c: char| is_blank(c)) == run_end(
                    old(self).input@,
                    old(self).position as int,
                    |c: char| is_blank(c),
                ),
            decreases self.input@.len() - self.position,
        {
            self.advance();
        }
    }

    /// The next character that is neither a space nor a tab.
    pub fn peek_next_non_space(&self) -> (found: Option<char>)
        requires
            self.wf(),
        ensures
            found == char_at(self.source(), after_spaces(self.source(), self.cursor())),
    {
        let mut at: usize = self.position;
        while at < self.input.len() && (self.input[at] == ' ' || self.input[at] == '\t')
            invariant
                after_spaces(self.input@, at as int) == after_spaces(
                    self.input@,
                    self.position as int,
                ),
            decreases self.input@.len() - at,
        {
            at = at + 1;
        }
        if at < self.input.len() {
            Some(self.input[at])
        } else {
            None
        }
    }

    /// Reads a word: letters, digits and underscores.
    pub fn read_identifier(&mut self) -> (word: String)
        requires
            old(self).wf(),
        ensures
            final(self).wf(),
            final(self).source() == old(self).source(),
            final(self).levels() == old(self).levels(),
            final(self).cursor() == run_end(
                old(self).source(),
                old(self).cursor(),
                |c: char| is_word_char(c),
            ),
            old(self).cursor() <= final(self).cursor(),
            old(self).within() ==> final(self).within(),
            word@ == slice(old(self).source(), old(self).cursor(), final(self).cursor()),
    {
        let start: usize = self.position;
        proof {
            if start <= self.input@.len() {
                lemma_run_end(self.input@, start as int, |c: char| is_word_char(c));
            }
        }
        while self.position < self.input.len() && (letter(self.input[self.position]) || digit(
            self.input[self.position],
        ))
            invariant
                self.wf(),
                start <= self.position,
                self.input@ == old(self).input@,
                self.indent_stack@.len() == old(self).indent_stack@.len(),
                run_end(self.input@, self.position as int, |c: char| is_word_char(c)) == run_end(
                    old(self).input@,
                    start as int,
                    |c: char| is_word_char(c),
                ),
            decreases self.input@.len() - self.position,
        {
            self.advance();
        }
        if start <= self.input.len() {
            text_of(&self.input, start, self.position)
        } else {
            String::new()
        }
    }

    /// Reads a numeral, digits and points, and gives it the value `number`.
    pub fn read_number(&mut self, number: Option<u64>) -> (result: Result<u64, LexError>)
        requires
            old(self).wf(),
        ensures
            final(self).wf(),
            final(self).source() == old(self).source(),
            final(self).levels() == old(self).levels(),
            final(self).cursor() == run_end(
                old(self).source(),
                old(self).cursor(),
                |c: char| is_numeral_char(c),
            ),
            old(self).cursor() <= final(self).cursor(),
            old(self).within() ==> final(self).within(),
            ({
                let text = slice(old(self).source(), old(self).cursor(), final(self).cursor());
                match result {
                    Ok(bits) => number == Some(bits) && points(text) <= 1,
                    Err(error) => error@ == LexErrorView::InvalidNumber(text) && (number is None
                        || points(text) > 1),
                }
            }),
    {
        let start: usize = self.position;
        let mut dots: usize = 0;
        proof {
            assert(slice(self.input@, start as int, start as int) =~= Seq::<char>::empty());
            if start <= self.input@.len() {
                lemma_run_end(self.input@, start as int, |c: char| is_numeral_char(c));
            }
        }
        while self.position < self.input.len() && (digit(self.input[self.position])
            || self.input[self.position] == '.')
            invariant
                self.wf(),
                start <= self.position,
                self.input@ == old(self).input@,
                self.indent_stack@.len() == old(self).indent_stack@.len(),
                dots == points(slice(self.input@, start as int, self.position as int)),
                dots <= self.position - start,
                run_end(self.input@, self.position as int, |c: char| is_numeral_char(c))
                    == run_end(old(self).input@, start as int, |c: char| is_numeral_char(c)),
            decreases self.input@.len() - self.position,
        {
            assert(self.input@.subrange(start as int, self.position + 1).drop_last()
                =~= self.input@.subrange(start as int, self.position as int));
            if self.input[self.position] == '.' {
                dots = dots + 1;
            }
            self.advance();
        }
        match number {
            Some(bits) => {
                if dots <= 1 {
                    return Ok(bits);
                }
            },
            None => {},
        }
        if start <= self.input.len() {
            Err(LexError::InvalidNumber(text_of(&self.input, start, self.position)))
        } else {
            Err(LexError::InvalidNumber(String::new()))
        }
    }

    /// Reads a string literal, from its opening quote to its closing one,
    /// and returns its text with the escape sequences resolved.
    pub fn read_string(&mut self) -> (result: Result<String, LexError>)
        requires
            old(self).wf(),
            old(self).cursor() + 1 < usize::MAX,
        ensures
            final(self).wf(),
            final(self).source() == old(self).source(),
            final(self).levels() == old(self).levels(),
            match result {
                Ok(text) => string_body(
                    old(self).source(),
                    old(self).cursor() + 1,
                    Seq::empty(),
                ) == Ok::<(Seq<char>, int), LexErrorView>((text@, final(self).cursor())),
                Err(error) => string_body(
                    old(self).source(),
                    old(self).cursor() + 1,
                    Seq::empty(),
                ) == Err::<(Seq<char>, int), LexErrorView>(error@) && final(self).cursor() == past(
                    old(self).source(),
                    old(self).cursor() + 1,
                ),
            },
    {
        self.advance();
        let mut text = String::new();
        assert(text@ =~= Seq::<char>::empty());
        while self.position < self.input.len()
            invariant
                self.wf(),
                self.input@ == old(self).input@,
                self.indent_stack@.len() == old(self).indent_stack@.len(),
                old(self).position + 1 <= self.position,
                old(self).position + 1 > self.input@.len() ==> self.position == old(self).position
                    + 1,
                old(self).position + 1 <= self.input@.len() ==> self.position
                    <= self.input@.len(),
                string_body(self.input@, self.position as int, text@) == string_body(
                    old(self).input@,
                    old(self).position + 1,
                    Seq::empty(),
                ),
            decreases self.input@.len() - self.position,
        {
            let c = self.input[self.position];
            if c == '"' {
                self.advance();
                return Ok(text);
            } else if c == '\\' {
                self.advance();
                if self.position < self.input.len() {
                    let escaped = self.input[self.position];
                    if escaped == 'n' {
                        text.push('\n');
                    } else if escaped == 't' {
                        text.push('\t');
                    } else if escaped == 'r' {
                        text.push('\r');
                    } else {
                        text.push(escaped);
                    }
                    self.advance();
                } else {
                    return Err(LexError::UnterminatedString(self.position));
                }
            } else {
                text.push(c);
                self.advance();
            }
        }
        Err(LexError::UnterminatedString(self.position))
    }

    /// Reads a comment from the second of its two slashes to the end of
    /// the line, and returns its text without the white space around it.
    pub fn read_comment(&mut self) -> (text: String)
        requires
            old(self).wf(),
            old(self).cursor() + 1 < usize::MAX,
        ensures
            final(self).wf(),
            final(self).source() == old(self).source(),
            final(self).levels() == old(self).levels(),
            final(self).cursor() == run_end(
                old(self).source(),
                old(self).cursor() + 1,
                |c: char| c != '\n',
            ),
            old(self).cursor() < final(self).cursor(),
            old(self).within() ==> final(self).cursor() <= past(
                old(self).source(),
                old(self).cursor() + 1,
            ),
            text@ == trimmed(
                slice(old(self).source(), old(self).cursor() + 1, final(self).cursor()),
            ),
    {
        self.advance();
        let start: usize = self.position;
        proof {
            if start <= self.input@.len() {
                lemma_run_end(self.input@, start as int, |c: char| c != '\n');
            }
        }
        while self.position < self.input.len() && self.input[self.position] != '\n'
            invariant
                self.wf(),
                start <= self.position,
                self.input@ == old(self).input@,
                self.indent_stack@.len() == old(self).indent_stack@.len(),
                run_end(self.input@, self.position as int, |c: char| c != '\n') == run_end(
                    old(self).input@,
                    start as int,
                    |c: char| c != '\n',
                ),
            decreases self.input@.len() - self.position,
        {
            self.advance();
        }
        if start <= self.input.len() {
            trimmed_text(&self.input, start, self.position)
        } else {
            String::new()
        }
    }

    /// Whether a word `y` or `o` that was read from `start` up to the
    /// position is the logical operator.
    fn detect_logical_operator_context(&self, start: usize) -> (logical: bool)
        requires
            self.wf(),
            start <= self.position <= self.input@.len(),
        ensures
            logical == is_logical(self.input@, start as int, self.position as int),
    {
        let next_is_space = self.position < self.input.len() && self.input[self.position] == ' ';
        let beyond = self.peek_next_non_space();
        let before_is_paren = start > 0 && self.input[start - 1] == ')';
        let before_is_space = start > 0 && self.input[start - 1] == ' ';
        let beyond_is_equal = match beyond {
            Some(c) => c == '=',
            None => false,
        };
        let beyond_is_paren = match beyond {
            Some(c) => c == '(',
            None => false,
        };
        if beyond_is_equal {
            false
        } else if before_is_paren && next_is_space {
            true
        } else if before_is_space && next_is_space && beyond_is_paren {
            true
        } else {
            start >= 3 && (self.input[start - 3] == ')' || self.input[start - 2] == ')'
                || self.input[start - 1] == ')')
        }
    }

    /// The kind of a word that was read from `start` up to the position.
    fn keyword_or_identifier(&self, word: String, start: usize) -> (kind: TokenType)
        requires
            self.wf(),
            start <= self.position <= self.input@.len(),
        ensures
            kind@ == word_kind(word@, is_logical(self.input@, start as int, self.position as int)),
    {
        let logical = self.detect_logical_operator_context(start);
        kind_of_word(word, logical)
    }

    /// Reads the next token, after any white space before it; `None` at the
    /// end of the source. If the token is a numeral, `number` is its value.
    pub fn next_token(&mut self, number: Option<u64>) -> (result: Result<Option<Token>, LexError>)
        requires
            old(self).wf(),
        ensures
            final(self).wf(),
            final(self).source() == old(self).source(),
            final(self).levels() == old(self).levels(),
            old(self).within() ==> final(self).within(),
            ({
                let input = old(self).source();
                let start = run_end(input, old(self).cursor(), |c: char| is_blank(c));
                if start >= input.len() {
                    result matches Ok(None) && final(self).cursor() == start
                } else {
                    match token_at(input, start, number) {
                        Ok((kind, end)) => result matches Ok(Some(token)) && token@ == token_of(
                            input,
                            start,
                            end,
                            kind,
                        ) && final(self).cursor() == end && start < end,
                        Err(error) => result matches Err(e) && e@ == error,
                    }
                }
            }),
    {
        self.skip_whitespace();
        if self.position >= self.input.len() {
            return Ok(None);
        }
        let start: usize = self.position;
        let line: usize = self.line;
        let column: usize = self.column;
        let c = self.input[start];
        let next = if start + 1 < self.input.len() {
            Some(self.input[start + 1])
        } else {
            None
        };
        proof {
            lemma_token_at(self.input@, start as int, number);
        }
        let next_is_slash = match next {
            Some(n) => n == '/',
            None => false,
        };
        let kind = if digit(c) {
            match self.read_number(number) {
                Ok(bits) => TokenType::Number(bits),
                Err(error) => {
                    return Err(error);
                },
            }
        } else if c == '"' {
            match self.read_string() {
                Ok(text) => TokenType::String(text),
                Err(error) => {
                    return Err(error);
                },
            }
        } else if letter(c) {
            let word = self.read_identifier();
            self.keyword_or_identifier(word, start)
        } else if c == '/' && next_is_slash {
            self.advance();
            TokenType::Comment(self.read_comment())
        } else {
            match punctuation_kind(c, next) {
                Some((kind, length)) => {
                    self.advance();
                    if length == 2 {
                        self.advance();
                    }
                    kind
                },
                None => {
                    return Err(LexError::UnexpectedChar(c, start));
                },
            }
        };
        let lexeme = text_of(&self.input, start, self.position);
        Ok(Some(Token { token_type: kind, lexeme, line, column }))
    }

    /// The tokens of the source from the position on, in their order and
    /// each with its line and column, without the comments; then one
    /// `Dedent` for each indentation level that is open, and `Eof`. The
    /// numerals take their values from `values`, in their order: the texts
    /// that `numerals` returns, converted. Fails on the first character
    /// that starts no token, on a string literal that is not closed, and on
    /// a numeral with two points or without a value.
    pub fn tokenize(&mut self, values: &Vec<u64>) -> (result: Result<Vec<Token>, LexError>)
        requires
            old(self).wf(),
        ensures
            final(self).wf(),
            final(self).source() == old(self).source(),
            match result {
                Ok(tokens) => lexed(
                    old(self).source(),
                    old(self).cursor(),
                    values@,
                    old(self).levels(),
                ) == Ok::<Seq<TokenView>, LexErrorView>(tokens_view(tokens@)) && tokens@.len() > 0
                    && tokens@.last().token_type is Eof && final(self).levels() == 0
                    && final(self).cursor() == past(old(self).source(), old(self).cursor()),
                Err(error) => lexed(
                    old(self).source(),
                    old(self).cursor(),
                    values@,
                    old(self).levels(),
                ) == Err::<Seq<TokenView>, LexErrorView>(error@),
            },
    {
        let mut tokens: Vec<Token> = Vec::new();
        let mut used: usize = 0;
        assert(tokens_view(tokens@) =~= Seq::<TokenView>::empty());
        loop
            invariant
                self.wf(),
                self.input@ == old(self).input@,
                self.indent_stack@.len() == old(self).indent_stack@.len(),
                used <= self.position,
                old(self).position <= self.input@.len() ==> self.position <= self.input@.len(),
                old(self).position > self.input@.len() ==> self.position == old(self).position,
                tokens_from(self.input@, self.position as int, values@, used as int, tokens_view(tokens@))
                    == tokens_from(
                    old(self).input@,
                    old(self).position as int,
                    values@,
                    0,
                    Seq::empty(),
                ),
            ensures
                self.wf(),
                self.input@ == old(self).input@,
                self.indent_stack@.len() == old(self).indent_stack@.len(),
                self.position == past(old(self).input@, old(self).position as int),
                tokens_from(
                    old(self).input@,
                    old(self).position as int,
                    values@,
                    0,
                    Seq::empty(),
                ) == Ok::<Seq<TokenView>, LexErrorView>(tokens_view(tokens@)),
            decreases self.input@.len() - self.position,
        {
            let number = if used < values.len() {
                Some(values[used])
            } else {
                None
            };
            proof {
                if self.position <= self.input@.len() {
                    lemma_run_end(self.input@, self.position as int, |c: char| is_blank(c));
                }
            }
            let ghost before = tokens_view(tokens@);
            match self.next_token(number) {
                Err(error) => {
                    return Err(error);
                },
                Ok(None) => {
                    break ;
                },
                Ok(Some(token)) => {
                    match &token.token_type {
                        TokenType::Number(_) => {
                            used = used + 1;
                            tokens.push(token);
                            assert(tokens_view(tokens@) =~= before.push(token@));
                        },
                        TokenType::Comment(_) => {},
                        _ => {
                            tokens.push(token);
                            assert(tokens_view(tokens@) =~= before.push(token@));
                        },
                    }
                },
            }
        }
        let ghost read = tokens_view(tokens@);
        let ghost open = self.levels();
        let ghost end = self.position as int;
        while self.indent_stack.len() > 1
            invariant
                self.wf(),
                self.input@ == old(self).input@,
                self.position == end,
                self.indent_stack@.len() - 1 <= open,
                tokens_view(tokens@) == read + dedents(
                    self.input@,
                    end,
                    (open - (self.indent_stack@.len() - 1)) as nat,
                ),
            decreases self.indent_stack@.len(),
        {
            self.indent_stack.pop();
            let ghost before = tokens_view(tokens@);
            tokens.push(
                Token {
                    token_type: TokenType::Dedent,
                    lexeme: String::new(),
                    line: self.line,
                    column: self.column,
                },
            );
            proof {
                assert(tokens_view(tokens@) =~= before.push(
                    marker(self.input@, end, TokenTypeView::Dedent),
                ));
                assert(tokens_view(tokens@) =~= read + dedents(
                    self.input@,
                    end,
                    (open - (self.indent_stack@.len() - 1)) as nat,
                ));
            }
        }
        let ghost before = tokens_view(tokens@);
        tokens.push(
            Token {
                token_type: TokenType::Eof,
                lexeme: String::new(),
                line: self.line,
                column: self.column,
            },
        );
        proof {
            assert(tokens_view(tokens@) =~= before.push(
                marker(self.input@, end, TokenTypeView::Eof),
            ));
            assert(tokens_view(tokens@) =~= read + dedents(self.input@, end, open) + seq![
                marker(self.input@, end, TokenTypeView::Eof),
            ]);
        }
        Ok(tokens)
    }

    /// The texts of the numerals of the source from the position on, in
    /// their order, up to the end or to the first error. The values of
    /// these texts are what `tokenize` takes.
    pub fn numerals(&self) -> (texts: Vec<String>)
        requires
            self.wf(),
        ensures
            strings_view(texts@) == numerals_from(self.source(), self.cursor(), Seq::empty()),
    {
        let mut probe = VaderLexer {
            input: self.input.clone(),
            position: self.position,
            line: self.line,
            column: self.column,
            indent_stack: self.indent_stack.clone(),
        };
        assert(probe.input@ =~= self.input@);
        let mut texts: Vec<String> = Vec::new();
        assert(strings_view(texts@) =~= Seq::<Seq<char>>::empty());
        loop
            invariant_except_break
                probe.wf(),
                numerals_from(probe.input@, probe.position as int, strings_view(texts@))
                    == numerals_from(self.input@, self.position as int, Seq::empty()),
            invariant
                probe.input@ == self.input@,
            ensures
                strings_view(texts@) == numerals_from(
                    self.input@,
                    self.position as int,
                    Seq::empty(),
                ),
            decreases probe.input@.len() - probe.position,
        {
            proof {
                if probe.position <= probe.input@.len() {
                    lemma_run_end(probe.input@, probe.position as int, |c: char| is_blank(c));
                }
            }
            let ghost before = strings_view(texts@);
            match probe.next_token(Some(0)) {
                Err(error) => {
                    break ;
                },
                Ok(None) => {
                    break ;
                },
                Ok(Some(token)) => {
                    match &token.token_type {
                        TokenType::Number(_) => {
                            texts.push(token.lexeme);
                            assert(strings_view(texts@) =~= before.push(token.lexeme@));
                        },
                        _ => {},
                    }
                },
            }
        }
        texts
    }
}

} // verus!

verus! {

impl TokenType {
    /// Whether two kinds are the same, with what they hold.
    pub fn equals(&self, other: &TokenType) -> (same: bool)
        ensures
            same == (self@ == other@),
    {
        match (self, other) {
            (TokenType::Number(a), TokenType::Number(b)) => *a == *b,
            (TokenType::String(a), TokenType::String(b)) => *a == *b,
            (TokenType::Boolean(a), TokenType::Boolean(b)) => *a == *b,
            (TokenType::Identifier(a), TokenType::Identifier(b)) => *a == *b,
            (TokenType::Keyword(a), TokenType::Keyword(b)) => *a == *b,
            (TokenType::Comment(a), TokenType::Comment(b)) => *a == *b,
            (TokenType::Plus, TokenType::Plus) => true,
            (TokenType::Minus, TokenType::Minus) => true,
            (TokenType::Multiply, TokenType::Multiply) => true,
            (TokenType::Divide, TokenType::Divide) => true,
            (TokenType::Modulo, TokenType::Modulo) => true,
            (TokenType::Power, TokenType::Power) => true,
            (TokenType::Assign, TokenType::Assign) => true,
            (TokenType::PlusAssign, TokenType::PlusAssign) => true,
            (TokenType::MinusAssign, TokenType::MinusAssign) => true,
            (TokenType::Equal, TokenType::Equal) => true,
            (TokenType::NotEqual, TokenType::NotEqual) => true,
            (TokenType::Less, TokenType::Less) => true,
            (TokenType::LessEqual, TokenType::LessEqual) => true,
            (TokenType::Greater, TokenType::Greater) => true,
            (TokenType::GreaterEqual, TokenType::GreaterEqual) => true,
            (TokenType::And, TokenType::And) => true,
            (TokenType::Or, TokenType::Or) => true,
            (TokenType::Not, TokenType::Not) => true,
            (TokenType::Bang, TokenType::Bang) => true,
            (TokenType::LeftParen, TokenType::LeftParen) => true,
            (TokenType::RightParen, TokenType::RightParen) => true,
            (TokenType::LeftBracket, TokenType::LeftBracket) => true,
            (TokenType::RightBracket, TokenType::RightBracket) => true,
            (TokenType::LeftBrace, TokenType::LeftBrace) => true,
            (TokenType::RightBrace, TokenType::RightBrace) => true,
            (TokenType::Comma, TokenType::Comma) => true,
            (TokenType::Dot, TokenType::Dot) => true,
            (TokenType::Colon, TokenType::Colon) => true,
            (TokenType::Semicolon, TokenType::Semicolon) => true,
            (TokenType::Arrow, TokenType::Arrow) => true,
            (TokenType::Newline, TokenType::Newline) => true,
            (TokenType::Indent, TokenType::Indent) => true,
            (TokenType::Dedent, TokenType::Dedent) => true,
            (TokenType::Eof, TokenType::Eof) => true,
            _ => false,
        }
    }
}

} // verus!

verus! {

/// The place of a kind among the kinds of tokens, whatever the token holds.
pub open spec fn kind_index(kind: TokenTypeView) -> u8 {
    match kind {
        TokenTypeView::Number(_) => 0,
        TokenTypeView::String(_) => 1,
        TokenTypeView::Boolean(_) => 2,
        TokenTypeView::Identifier(_) => 3,
        TokenTypeView::Keyword(_) => 4,
        TokenTypeView::Plus => 5,
        TokenTypeView::Minus => 6,
        TokenTypeView::Multiply => 7,
        TokenTypeView::Divide => 8,
        TokenTypeView::Modulo => 9,
        TokenTypeView::Power => 10,
        TokenTypeView::Assign => 11,
        TokenTypeView::PlusAssign => 12,
        TokenTypeView::MinusAssign => 13,
        TokenTypeView::Equal => 14,
        TokenTypeView::NotEqual => 15,
        TokenTypeView::Less => 16,
        TokenTypeView::LessEqual => 17,
        TokenTypeView::Greater => 18,
        TokenTypeView::GreaterEqual => 19,
        TokenTypeView::And => 20,
        TokenTypeView::Or => 21,
        TokenTypeView::Not => 22,
        TokenTypeView::Bang => 23,
        TokenTypeView::LeftParen => 24,
        TokenTypeView::RightParen => 25,
        TokenTypeView::LeftBracket => 26,
        TokenTypeView::RightBracket => 27,
        TokenTypeView::LeftBrace => 28,
        TokenTypeView::RightBrace => 29,
        TokenTypeView::Comma => 30,
        TokenTypeView::Dot => 31,
        TokenTypeView::Colon => 32,
        TokenTypeView::Semicolon => 33,
        TokenTypeView::Arrow => 34,
        TokenTypeView::Newline => 35,
        TokenTypeView::Indent => 36,
        TokenTypeView::Dedent => 37,
        TokenTypeView::Eof => 38,
        TokenTypeView::Comment(_) => 39,
    }
}

/// Whether two tokens are of the same kind, whatever they hold.
pub open spec fn same_kind(first: TokenTypeView, second: TokenTypeView) -> bool {
    kind_index(first) == kind_index(second)
}

impl TokenType {
    /// The place of the kind among the kinds of tokens.
    pub fn index(&self) -> (index: u8)
        ensures
            index == kind_index(self@),
    {
        match self {
            TokenType::Number(_) => 0,
            TokenType::String(_) => 1,
            TokenType::Boolean(_) => 2,
            TokenType::Identifier(_) => 3,
            TokenType::Keyword(_) => 4,
            TokenType::Plus => 5,
            TokenType::Minus => 6,
            TokenType::Multiply => 7,
            TokenType::Divide => 8,
            TokenType::Modulo => 9,
            TokenType::Power => 10,
            TokenType::Assign => 11,
            TokenType::PlusAssign => 12,
            TokenType::MinusAssign => 13,
            TokenType::Equal => 14,
            TokenType::NotEqual => 15,
            TokenType::Less => 16,
            TokenType::LessEqual => 17,
            TokenType::Greater => 18,
            TokenType::GreaterEqual => 19,
            TokenType::And => 20,
            TokenType::Or => 21,
            TokenType::Not => 22,
            TokenType::Bang => 23,
            TokenType::LeftParen => 24,
            TokenType::RightParen => 25,
            TokenType::LeftBracket => 26,
            TokenType::RightBracket => 27,
            TokenType::LeftBrace => 28,
            TokenType::RightBrace => 29,
            TokenType::Comma => 30,
            TokenType::Dot => 31,
            TokenType::Colon => 32,
            TokenType::Semicolon => 33,
            TokenType::Arrow => 34,
            TokenType::Newline => 35,
            TokenType::Indent => 36,
            TokenType::Dedent => 37,
            TokenType::Eof => 38,
            TokenType::Comment(_) => 39,
        }
    }

    /// Whether two tokens are of the same kind, whatever they hold.
    pub fn is_kind(&self, other: &TokenType) -> (same: bool)
        ensures
            same == same_kind(self@, other@),
    {
        self.index() == other.index()
    }
}

} // verus!
