//! The lexer: it cuts the text that a reader delivers into tokens, each
//! with the line and column of its first character.
//!
//! What the tokens of a text are is defined over the text as a sequence of
//! characters; the lexer reads the characters one by one, looks one
//! character ahead where a token may go on, and pushes that character back
//! where it does not.

use crate::char_reader::CharReader;
use crate::error::{ParseError, ParseErrorKind};
use crate::text::text_is;
use vstd::prelude::*;

verus! {

#[derive(Clone, Copy, Debug, PartialEq, Eq, Structural)]
pub enum TokenKind {
    /// Digits, with a fraction or without.
    Number,
    /// A string literal; the token's text is what the literal denotes.
    Text,
    /// A name that is no keyword.
    Name,
    Function,
    Var,
    If,
    Else,
    While,
    Break,
    Return,
    OpenParen,
    CloseParen,
    OpenBrace,
    CloseBrace,
    OpenBracket,
    CloseBracket,
    Comma,
    Colon,
    Semicolon,
    Assign,
    Or,
    And,
    Equal,
    NotEqual,
    Less,
    LessEqual,
    Greater,
    GreaterEqual,
    Plus,
    Minus,
    Star,
    Slash,
    Percent,
    Bang,
    /// The end of the text.
    End,
}

/// A token: its kind, its text where the kind has one (numbers, strings
/// and names), and where it starts.
#[derive(Debug)]
pub struct Token {
    pub kind: TokenKind,
    pub text: Vec<char>,
    pub line: u32,
    pub col: u32,
}

/// What a token holds.
pub struct TokenModel {
    pub kind: TokenKind,
    pub text: Seq<char>,
    pub line: u32,
    pub col: u32,
}

impl View for Token {
    type V = TokenModel;

    open spec fn view(&self) -> TokenModel {
        TokenModel { kind: self.kind, text: self.text@, line: self.line, col: self.col }
    }
}

/// The tokens of a vector of tokens.
pub open spec fn tokens_of(tokens: Vec<Token>) -> Seq<TokenModel> {
    Seq::new(tokens@.len(), |i: int| tokens@[i]@)
}

/// A text to lex, and the line and column of its first character.
pub struct Source {
    pub text: Seq<char>,
    pub line: int,
    pub col: int,
}

#[derive(Clone, Copy, Debug, PartialEq, Eq, Structural)]
pub enum CharClass {
    Blank,
    Digit,
    NameChar,
}

pub open spec fn is_blank(c: char) -> bool {
    c == ' ' || c == '\t' || c == '\n' || c == '\r'
}

pub open spec fn is_digit(c: char) -> bool {
    '0' <= c <= '9'
}

pub open spec fn is_name_start(c: char) -> bool {
    ('a' <= c <= 'z') || ('A' <= c <= 'Z') || c == '_'
}

pub open spec fn in_class(class: CharClass, c: char) -> bool {
    match class {
        CharClass::Blank => is_blank(c),
        CharClass::Digit => is_digit(c),
        CharClass::NameChar => is_name_start(c) || is_digit(c),
    }
}

/// The position of the character `i` of the source, and of its end where
/// `i` is its length: a line break starts a new line at column 1, any other
/// character moves one column on.
pub open spec fn position(src: Source, i: int) -> (int, int)
    decreases i,
{
    if i <= 0 {
        (src.line, src.col)
    } else {
        let before = position(src, i - 1);
        if src.text[i - 1] == '\n' {
            (before.0 + 1, 1)
        } else {
            (before.0, before.1 + 1)
        }
    }
}

/// The end of the run of characters of one class that starts at `i`.
pub open spec fn run_end(s: Seq<char>, i: int, class: CharClass) -> int
    decreases s.len() - i,
{
    if 0 <= i < s.len() && in_class(class, s[i]) {
        run_end(s, i + 1, class)
    } else {
        i
    }
}

/// What the character after a backslash in a string literal denotes.
pub open spec fn unescape(c: char) -> char {
    if c == 'n' {
        '\n'
    } else if c == 't' {
        '\t'
    } else {
        c
    }
}

/// The rest of a string literal from `i` on, after its opening quote: what
/// the literal denotes, appended to `acc`, and the index after the closing
/// quote. There is none where the text ends before the literal does.
pub open spec fn string_body(s: Seq<char>, i: int, acc: Seq<char>) -> Option<(Seq<char>, int)>
    decreases s.len() - i,
{
    if i < 0 || i >= s.len() {
        None
    } else if s[i] == '"' {
        Some((acc, i + 1))
    } else if s[i] == '\\' {
        if i + 1 >= s.len() {
            None
        } else {
            string_body(s, i + 2, acc.push(unescape(s[i + 1])))
        }
    } else {
        string_body(s, i + 1, acc.push(s[i]))
    }
}

/// Whether the token that starts with `c` may take a second character.
pub open spec fn may_pair(c: char) -> bool {
    c == '=' || c == '!' || c == '<' || c == '>' || c == '&' || c == '|'
}

/// The token of punctuation that starts with `c`, where `next` is the
/// character after it, and the number of characters it takes.
pub open spec fn punctuation(c: char, next: Option<char>) -> Option<(TokenKind, int)> {
    if c == '(' {
        Some((TokenKind::OpenParen, 1))
    } else if c == ')' {
        Some((TokenKind::CloseParen, 1))
    } else if c == '{' {
        Some((TokenKind::OpenBrace, 1))
    } else if c == '}' {
        Some((TokenKind::CloseBrace, 1))
    } else if c == '[' {
        Some((TokenKind::OpenBracket, 1))
    } else if c == ']' {
        Some((TokenKind::CloseBracket, 1))
    } else if c == ',' {
        Some((TokenKind::Comma, 1))
    } else if c == ':' {
        Some((TokenKind::Colon, 1))
    } else if c == ';' {
        Some((TokenKind::Semicolon, 1))
    } else if c == '+' {
        Some((TokenKind::Plus, 1))
    } else if c == '-' {
        Some((TokenKind::Minus, 1))
    } else if c == '*' {
        Some((TokenKind::Star, 1))
    } else if c == '/' {
        Some((TokenKind::Slash, 1))
    } else if c == '%' {
        Some((TokenKind::Percent, 1))
    } else if c == '=' {
        if next == Some('=') {
            Some((TokenKind::Equal, 2))
        } else {
            Some((TokenKind::Assign, 1))
        }
    } else if c == '!' {
        if next == Some('=') {
            Some((TokenKind::NotEqual, 2))
        } else {
            Some((TokenKind::Bang, 1))
        }
    } else if c == '<' {
        if next == Some('=') {
            Some((TokenKind::LessEqual, 2))
        } else {
            Some((TokenKind::Less, 1))
        }
    } else if c == '>' {
        if next == Some('=') {
            Some((TokenKind::GreaterEqual, 2))
        } else {
            Some((TokenKind::Greater, 1))
        }
    } else if c == '&' {
        if next == Some('&') {
            Some((TokenKind::And, 2))
        } else {
            None
        }
    } else if c == '|' {
        if next == Some('|') {
            Some((TokenKind::Or, 2))
        } else {
            None
        }
    } else {
        None
    }
}

/// The kind of a word: a keyword, or a name.
pub open spec fn word_kind(text: Seq<char>) -> TokenKind {
    if text == "function"@ {
        TokenKind::Function
    } else if text == "var"@ {
        TokenKind::Var
    } else if text == "if"@ {
        TokenKind::If
    } else if text == "else"@ {
        TokenKind::Else
    } else if text == "while"@ {
        TokenKind::While
    } else if text == "break"@ {
        TokenKind::Break
    } else if text == "return"@ {
        TokenKind::Return
    } else {
        TokenKind::Name
    }
}

/// The character of `s` at `i`, where there is one.
pub open spec fn char_at(s: Seq<char>, i: int) -> Option<char> {
    if 0 <= i < s.len() {
        Some(s[i])
    } else {
        None
    }
}

/// The token that starts at `j`, which is the end of the text or the index
/// of a character that is not blank, and the index at which it ends; or the
/// error that the text has there.
pub open spec fn token_at(src: Source, j: int) -> Result<(TokenModel, int), ParseError> {
    let s = src.text;
    let line = position(src, j).0 as u32;
    let col = position(src, j).1 as u32;
    let token = |kind: TokenKind, text: Seq<char>| TokenModel { kind, text, line, col };
    if j < 0 || j >= s.len() {
        Ok((token(TokenKind::End, Seq::empty()), j))
    } else if is_name_start(s[j]) {
        let end = run_end(s, j + 1, CharClass::NameChar);
        let text = s.subrange(j, end);
        Ok((token(word_kind(text), text), end))
    } else if is_digit(s[j]) {
        let end = run_end(s, j + 1, CharClass::Digit);
        if char_at(s, end) == Some('.') {
            if char_at(s, end + 1) matches Some(d) && is_digit(d) {
                let last = run_end(s, end + 2, CharClass::Digit);
                Ok((token(TokenKind::Number, s.subrange(j, last)), last))
            } else {
                Err(ParseError { kind: ParseErrorKind::UnexpectedToken, line, col })
            }
        } else {
            Ok((token(TokenKind::Number, s.subrange(j, end)), end))
        }
    } else if s[j] == '"' {
        match string_body(s, j + 1, Seq::empty()) {
            Some((text, end)) => Ok((token(TokenKind::Text, text), end)),
            None => Err(ParseError { kind: ParseErrorKind::UnterminatedLiteral, line, col }),
        }
    } else {
        match punctuation(s[j], char_at(s, j + 1)) {
            Some((kind, n)) => Ok((token(kind, Seq::empty()), j + n)),
            None => Err(ParseError { kind: ParseErrorKind::UnexpectedToken, line, col }),
        }
    }
}

/// The token that follows the blanks at `i`.
pub open spec fn next_token(src: Source, i: int) -> Result<(TokenModel, int), ParseError> {
    token_at(src, run_end(src.text, i, CharClass::Blank))
}

/// The tokens of the source from `i` on, up to the token of its end,
/// appended to `acc`; or the first error.
pub open spec fn tokens_from(src: Source, i: int, acc: Seq<TokenModel>) -> Result<
    Seq<TokenModel>,
    ParseError,
>
    decreases src.text.len() - i,
{
    match next_token(src, i) {
        Err(err) => Err(err),
        Ok((token, end)) => if token.kind != TokenKind::End && i < end <= src.text.len() {
            tokens_from(src, end, acc.push(token))
        } else {
            Ok(acc.push(token))
        },
    }
}

/// The source that a reader is about to deliver.
pub open spec fn source_of(reader: CharReader) -> Source {
    Source { text: reader.pending(), line: reader.line() as int, col: reader.col() as int }
}

/// Whether positions in the source fit the reader's counters.
pub open spec fn fits(src: Source) -> bool {
    &&& src.line >= 1
    &&& src.col >= 1
    &&& src.line + src.col + src.text.len() < u32::MAX
}

/// Whether the reader has delivered the first `i` characters of the source
/// and stands at the position of the next.
pub open spec fn synced(reader: CharReader, src: Source, i: int) -> bool {
    &&& reader.wf()
    &&& 0 <= i <= src.text.len()
    &&& reader.pending() == src.text.skip(i)
    &&& reader.line() == position(src, i).0
    &&& reader.col() == position(src, i).1
}

/// A position is at least line 1, column 1, and its line and column grow
/// by at most one with each character.
pub proof fn lemma_position_bound(src: Source, i: int)
    requires
        src.line >= 1,
        src.col >= 1,
        0 <= i,
    ensures
        position(src, i).0 >= 1,
        position(src, i).1 >= 1,
        position(src, i).0 + position(src, i).1 <= src.line + src.col + i,
    decreases i,
{
    if i > 0 {
        lemma_position_bound(src, i - 1);
    }
}

fn is_in_class(class: CharClass, c: char) -> (r: bool)
    ensures
        r == in_class(class, c),
{
    match class {
        CharClass::Blank => c == ' ' || c == '\t' || c == '\n' || c == '\r',
        CharClass::Digit => '0' <= c && c <= '9',
        CharClass::NameChar => ('a' <= c && c <= 'z') || ('A' <= c && c <= 'Z') || c == '_' || (
        '0' <= c && c <= '9'),
    }
}

fn starts_name(c: char) -> (r: bool)
    ensures
        r == is_name_start(c),
{
    ('a' <= c && c <= 'z') || ('A' <= c && c <= 'Z') || c == '_'
}

fn kind_of_word(text: &Vec<char>) -> (k: TokenKind)
    ensures
        k == word_kind(text@),
{
    if text_is(text, "function") {
        TokenKind::Function
    } else if text_is(text, "var") {
        TokenKind::Var
    } else if text_is(text, "if") {
        TokenKind::If
    } else if text_is(text, "else") {
        TokenKind::Else
    } else if text_is(text, "while") {
        TokenKind::While
    } else if text_is(text, "break") {
        TokenKind::Break
    } else if text_is(text, "return") {
        TokenKind::Return
    } else {
        TokenKind::Name
    }
}

fn punctuation_of(c: char, next: Option<char>) -> (r: Option<(TokenKind, usize)>)
    ensures
        match punctuation(c, next) {
            Some((kind, n)) => r == Some((kind, n as usize)) && 1 <= n <= 2 && (n == 2
                ==> may_pair(c) && next is Some),
            None => r is None,
        },
{
    let paired = match next {
        Some(d) => (d == '=' && c != '&' && c != '|') || (d == '&' && c == '&') || (d == '|' && c
            == '|'),
        None => false,
    };
    if c == '(' {
        Some((TokenKind::OpenParen, 1))
    } else if c == ')' {
        Some((TokenKind::CloseParen, 1))
    } else if c == '{' {
        Some((TokenKind::OpenBrace, 1))
    } else if c == '}' {
        Some((TokenKind::CloseBrace, 1))
    } else if c == '[' {
        Some((TokenKind::OpenBracket, 1))
    } else if c == ']' {
        Some((TokenKind::CloseBracket, 1))
    } else if c == ',' {
        Some((TokenKind::Comma, 1))
    } else if c == ':' {
        Some((TokenKind::Colon, 1))
    } else if c == ';' {
        Some((TokenKind::Semicolon, 1))
    } else if c == '+' {
        Some((TokenKind::Plus, 1))
    } else if c == '-' {
        Some((TokenKind::Minus, 1))
    } else if c == '*' {
        Some((TokenKind::Star, 1))
    } else if c == '/' {
        Some((TokenKind::Slash, 1))
    } else if c == '%' {
        Some((TokenKind::Percent, 1))
    } else if c == '=' {
        if paired {
            Some((TokenKind::Equal, 2))
        } else {
            Some((TokenKind::Assign, 1))
        }
    } else if c == '!' {
        if paired {
            Some((TokenKind::NotEqual, 2))
        } else {
            Some((TokenKind::Bang, 1))
        }
    } else if c == '<' {
        if paired {
            Some((TokenKind::LessEqual, 2))
        } else {
            Some((TokenKind::Less, 1))
        }
    } else if c == '>' {
        if paired {
            Some((TokenKind::GreaterEqual, 2))
        } else {
            Some((TokenKind::Greater, 1))
        }
    } else if c == '&' {
        if paired {
            Some((TokenKind::And, 2))
        } else {
            None
        }
    } else if c == '|' {
        if paired {
            Some((TokenKind::Or, 2))
        } else {
            None
        }
    } else {
        None
    }
}

/// Reads the character `i` of the source, where there is one.
fn take_char(reader: &mut CharReader, Ghost(src): Ghost<Source>, Ghost(i): Ghost<int>) -> (r:
    Option<char>)
    requires
        synced(*old(reader), src, i),
        fits(src),
    ensures
        r == char_at(src.text, i),
        r matches Some(c) ==> synced(*final(reader), src, i + 1) && final(reader).accepts_unget(c)
            && (c == '\n' ==> final(reader).col_before_newline() == position(src, i).1),
        r is None ==> synced(*final(reader), src, i),
{
    if reader.is_drained() {
        None
    } else {
        proof {
            lemma_position_bound(src, i);
            assert(src.text.skip(i)[0] == src.text[i]);
            assert(src.text.skip(i).skip(1) =~= src.text.skip(i + 1));
        }
        reader.next()
    }
}

/// Pushes the character `i` of the source back, right after it was read.
fn put_back(reader: &mut CharReader, c: char, Ghost(src): Ghost<Source>, Ghost(i): Ghost<int>)
    requires
        synced(*old(reader), src, i + 1),
        0 <= i,
        c == src.text[i],
        old(reader).accepts_unget(c),
        c == '\n' ==> old(reader).col_before_newline() == position(src, i).1,
    ensures
        synced(*final(reader), src, i),
{
    reader.ungetc(c);
    assert(seq![c] + src.text.skip(i + 1) =~= src.text.skip(i));
}

/// Reads the run of characters of one class that starts at `i` and appends
/// it to `text`.
fn take_run(
    reader: &mut CharReader,
    class: CharClass,
    text: &mut Vec<char>,
    Ghost(src): Ghost<Source>,
    Ghost(i): Ghost<int>,
)
    requires
        synced(*old(reader), src, i),
        fits(src),
    ensures
        synced(*final(reader), src, run_end(src.text, i, class)),
        i <= run_end(src.text, i, class) <= src.text.len(),
        final(text)@ == old(text)@ + src.text.subrange(i, run_end(src.text, i, class)),
{
    let ghost mut k = i;
    assert(text@ =~= old(text)@ + src.text.subrange(i, k));
    loop
        invariant
            synced(*reader, src, k),
            fits(src),
            0 <= i <= k <= src.text.len(),
            run_end(src.text, k, class) == run_end(src.text, i, class),
            text@ == old(text)@ + src.text.subrange(i, k),
        decreases src.text.len() - k,
    {
        match take_char(reader, Ghost(src), Ghost(k)) {
            None => {
                return ;
            },
            Some(c) => {
                if is_in_class(class, c) {
                    text.push(c);
                    proof {
                        assert(char_at(src.text, k) == Some(c));
                        assert(0 <= k < src.text.len() && src.text[k] == c);
                        assert(src.text.subrange(i, k + 1) =~= src.text.subrange(i, k).push(c));
                        k = k + 1;
                    }
                } else {
                    put_back(reader, c, Ghost(src), Ghost(k));
                    return ;
                }
            },
        }
    }
}

/// Reads the rest of a string literal from `i` on, after its opening quote,
/// and appends what it denotes to `text`.
fn take_string(
    reader: &mut CharReader,
    text: &mut Vec<char>,
    Ghost(src): Ghost<Source>,
    Ghost(i): Ghost<int>,
) -> (closed: bool)
    requires
        synced(*old(reader), src, i),
        fits(src),
    ensures
        match string_body(src.text, i, old(text)@) {
            Some((body, end)) => closed && final(text)@ == body && synced(
                *final(reader),
                src,
                end,
            ) && i < end,
            None => !closed,
        },
{
    let ghost mut k = i;
    loop
        invariant
            synced(*reader, src, k),
            fits(src),
            i <= k <= src.text.len(),
            string_body(src.text, k, text@) == string_body(src.text, i, old(text)@),
        decreases src.text.len() - k,
    {
        match take_char(reader, Ghost(src), Ghost(k)) {
            None => {
                return false;
            },
            Some(c) => {
                if c == '"' {
                    return true;
                } else if c == '\\' {
                    match take_char(reader, Ghost(src), Ghost(k + 1)) {
                        None => {
                            return false;
                        },
                        Some(d) => {
                            let plain = if d == 'n' {
                                '\n'
                            } else if d == 't' {
                                '\t'
                            } else {
                                d
                            };
                            text.push(plain);
                            proof {
                                k = k + 2;
                            }
                        },
                    }
                } else {
                    text.push(c);
                    proof {
                        k = k + 1;
                    }
                }
            },
        }
    }
}

/// Reads the token that follows the blanks at `i`.
fn read_token(reader: &mut CharReader, Ghost(src): Ghost<Source>, Ghost(i): Ghost<int>) -> (r:
    Result<Token, ParseError>)
    requires
        synced(*old(reader), src, i),
        fits(src),
    ensures
        match next_token(src, i) {
            Ok((token, end)) => r is Ok && r.unwrap()@ == token && synced(
                *final(reader),
                src,
                end,
            ) && i <= end && (token.kind != TokenKind::End ==> i < end) && (token.kind
                == TokenKind::End ==> end == src.text.len()),
            Err(err) => r == Err::<Token, ParseError>(err),
        },
{
    let mut blanks: Vec<char> = Vec::new();
    take_run(reader, CharClass::Blank, &mut blanks, Ghost(src), Ghost(i));
    let ghost j = run_end(src.text, i, CharClass::Blank);
    let line = reader.line_num();
    let col = reader.col_num();
    let mut text: Vec<char> = Vec::new();
    let c = match take_char(reader, Ghost(src), Ghost(j)) {
        None => {
            return Ok(Token { kind: TokenKind::End, text, line, col });
        },
        Some(c) => c,
    };
    if starts_name(c) {
        text.push(c);
        take_run(reader, CharClass::NameChar, &mut text, Ghost(src), Ghost(j + 1));
        let ghost end = run_end(src.text, j + 1, CharClass::NameChar);
        assert(text@ =~= src.text.subrange(j, end));
        let kind = kind_of_word(&text);
        Ok(Token { kind, text, line, col })
    } else if is_in_class(CharClass::Digit, c) {
        text.push(c);
        take_run(reader, CharClass::Digit, &mut text, Ghost(src), Ghost(j + 1));
        let ghost end = run_end(src.text, j + 1, CharClass::Digit);
        assert(text@ =~= src.text.subrange(j, end));
        match take_char(reader, Ghost(src), Ghost(end)) {
            None => Ok(Token { kind: TokenKind::Number, text, line, col }),
            Some(dot) => {
                if dot == '.' {
                    match take_char(reader, Ghost(src), Ghost(end + 1)) {
                        None => Err(
                            ParseError { kind: ParseErrorKind::UnexpectedToken, line, col },
                        ),
                        Some(d) => {
                            if is_in_class(CharClass::Digit, d) {
                                text.push(dot);
                                text.push(d);
                                take_run(
                                    reader,
                                    CharClass::Digit,
                                    &mut text,
                                    Ghost(src),
                                    Ghost(end + 2),
                                );
                                let ghost last = run_end(src.text, end + 2, CharClass::Digit);
                                assert(text@ =~= src.text.subrange(j, last));
                                Ok(Token { kind: TokenKind::Number, text, line, col })
                            } else {
                                Err(ParseError { kind: ParseErrorKind::UnexpectedToken, line, col })
                            }
                        },
                    }
                } else {
                    put_back(reader, dot, Ghost(src), Ghost(end));
                    Ok(Token { kind: TokenKind::Number, text, line, col })
                }
            },
        }
    } else if c == '"' {
        if take_string(reader, &mut text, Ghost(src), Ghost(j + 1)) {
            Ok(Token { kind: TokenKind::Text, text, line, col })
        } else {
            Err(ParseError { kind: ParseErrorKind::UnterminatedLiteral, line, col })
        }
    } else {
        let pairs = c == '=' || c == '!' || c == '<' || c == '>' || c == '&' || c == '|';
        let next = if pairs {
            take_char(reader, Ghost(src), Ghost(j + 1))
        } else {
            None
        };
        match punctuation_of(c, next) {
            Some((kind, n)) => {
                if n == 1 {
                    match next {
                        Some(d) => {
                            put_back(reader, d, Ghost(src), Ghost(j + 1));
                        },
                        None => {},
                    }
                }
                Ok(Token { kind, text, line, col })
            },
            None => Err(ParseError { kind: ParseErrorKind::UnexpectedToken, line, col }),
        }
    }
}

/// Cuts everything that the reader is about to deliver into tokens. The
/// last token is the one of the end of the text.
pub fn read_tokens(reader: &mut CharReader) -> (r: Result<Vec<Token>, ParseError>)
    requires
        old(reader).wf(),
        old(reader).line() + old(reader).col() + old(reader).pending().len() < u32::MAX,
    ensures
        match tokens_from(source_of(*old(reader)), 0, Seq::empty()) {
            Ok(tokens) => r is Ok && tokens_of(r.unwrap()) == tokens,
            Err(err) => r == Err::<Vec<Token>, ParseError>(err),
        },
        r is Ok ==> synced(
            *final(reader),
            source_of(*old(reader)),
            old(reader).pending().len() as int,
        ),
{
    let ghost src = source_of(*reader);
    let ghost mut i: int = 0;
    let mut tokens: Vec<Token> = Vec::new();
    proof {
        reader.lemma_position_is_positive();
        assert(src.text.skip(0) =~= src.text);
        assert(tokens_of(tokens) =~= Seq::empty());
    }
    loop
        invariant
            src == source_of(*old(reader)),
            synced(*reader, src, i),
            fits(src),
            tokens_from(src, i, tokens_of(tokens)) == tokens_from(src, 0, Seq::empty()),
        decreases src.text.len() - i,
    {
        let ghost before = tokens_of(tokens);
        match read_token(reader, Ghost(src), Ghost(i)) {
            Err(err) => {
                return Err(err);
            },
            Ok(token) => {
                let ended = match token.kind {
                    TokenKind::End => true,
                    _ => false,
                };
                let ghost pushed = token@;
                tokens.push(token);
                assert(tokens_of(tokens) =~= before.push(pushed));
                if ended {
                    return Ok(tokens);
                }
                proof {
                    i = next_token(src, i).unwrap().1;
                }
            },
        }
    }
}

} // verus!
