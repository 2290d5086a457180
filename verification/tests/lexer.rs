use bleepscript::char_reader::CharReader;
use bleepscript::error::{ParseError, ParseErrorKind};
use bleepscript::lexer::{read_tokens, Token, TokenKind};

fn chars(s: &str) -> Vec<char> {
    s.chars().collect()
}

fn lex(s: &str) -> Result<Vec<Token>, ParseError> {
    read_tokens(&mut CharReader::new(chars(s)))
}

fn kinds(s: &str) -> Vec<TokenKind> {
    lex(s).unwrap().iter().map(|t| t.kind).collect()
}

fn texts(s: &str) -> Vec<String> {
    lex(s).unwrap().iter().map(|t| t.text.iter().collect()).collect()
}

#[test]
fn empty_text_is_its_end() {
    assert_eq!(kinds(""), vec![TokenKind::End]);
    assert_eq!(kinds(" \t\r\n "), vec![TokenKind::End]);
    let tokens = lex(" \n  ").unwrap();
    assert_eq!((tokens[0].line, tokens[0].col), (2, 3));
}

#[test]
fn keywords_and_names_are_told_apart() {
    assert_eq!(
        kinds("function var if else while break return"),
        vec![TokenKind::Function, TokenKind::Var, TokenKind::If, TokenKind::Else, TokenKind::While, TokenKind::Break, TokenKind::Return, TokenKind::End]
    );
    assert_eq!(kinds("iff _x x1 Var returns"), vec![TokenKind::Name, TokenKind::Name, TokenKind::Name, TokenKind::Name, TokenKind::Name, TokenKind::End]);
    assert_eq!(texts("iff _x x1"), vec!["iff", "_x", "x1", ""]);
}

#[test]
fn numbers_take_digits_and_one_fraction() {
    assert_eq!(
        kinds("1 23.50 7x"),
        vec![TokenKind::Number, TokenKind::Number, TokenKind::Number, TokenKind::Name, TokenKind::End]
    );
    assert_eq!(texts("1 23.50 007"), vec!["1", "23.50", "007", ""]);
    let e = ParseError { kind: ParseErrorKind::UnexpectedToken, line: 1, col: 3 };
    assert_eq!(lex("  12.").unwrap_err(), e);
    assert_eq!(lex("  12.x").unwrap_err(), e);
    assert_eq!(lex("1.5.5").unwrap_err(), ParseError { kind: ParseErrorKind::UnexpectedToken, line: 1, col: 4 });
    assert_eq!(lex(".5").unwrap_err(), ParseError { kind: ParseErrorKind::UnexpectedToken, line: 1, col: 1 });
}

#[test]
fn strings_denote_their_characters() {
    assert_eq!(texts("\"\" \"a b\" \"x\\ny\\t\\\"\\\\\\q\""), vec!["", "a b", "x\ny\t\"\\q", ""]);
    assert_eq!(kinds("\"a\"b"), vec![TokenKind::Text, TokenKind::Name, TokenKind::End]);
    let tokens = lex("\"a\nb\" c").unwrap();
    assert_eq!((tokens[1].line, tokens[1].col), (2, 4));
}

#[test]
fn unclosed_string_is_reported_at_its_quote() {
    let e = ParseError { kind: ParseErrorKind::UnterminatedLiteral, line: 2, col: 2 };
    assert_eq!(lex("a\n \"bc").unwrap_err(), e);
    assert_eq!(lex("a\n \"bc\\").unwrap_err(), e);
    assert_eq!(lex("a\n \"bc\\\"").unwrap_err(), e);
}

#[test]
fn punctuation_takes_one_or_two_characters() {
    assert_eq!(
        kinds("( ) { } [ ] , : ; + - * / %"),
        vec![
            TokenKind::OpenParen, TokenKind::CloseParen, TokenKind::OpenBrace, TokenKind::CloseBrace, TokenKind::OpenBracket, TokenKind::CloseBracket, TokenKind::Comma, TokenKind::Colon,
            TokenKind::Semicolon, TokenKind::Plus, TokenKind::Minus, TokenKind::Star, TokenKind::Slash, TokenKind::Percent, TokenKind::End
        ]
    );
    assert_eq!(
        kinds("= == ! != < <= > >= && ||"),
        vec![TokenKind::Assign, TokenKind::Equal, TokenKind::Bang, TokenKind::NotEqual, TokenKind::Less, TokenKind::LessEqual, TokenKind::Greater, TokenKind::GreaterEqual, TokenKind::And, TokenKind::Or, TokenKind::End]
    );
    assert_eq!(kinds("a=b"), vec![TokenKind::Name, TokenKind::Assign, TokenKind::Name, TokenKind::End]);
    assert_eq!(kinds("a==b"), vec![TokenKind::Name, TokenKind::Equal, TokenKind::Name, TokenKind::End]);
    assert_eq!(kinds("==="), vec![TokenKind::Equal, TokenKind::Assign, TokenKind::End]);
    assert_eq!(kinds("<=>"), vec![TokenKind::LessEqual, TokenKind::Greater, TokenKind::End]);
    assert_eq!(kinds("!!x"), vec![TokenKind::Bang, TokenKind::Bang, TokenKind::Name, TokenKind::End]);
    assert_eq!(kinds("=\n="), vec![TokenKind::Assign, TokenKind::Assign, TokenKind::End]);
    assert_eq!(kinds("<"), vec![TokenKind::Less, TokenKind::End]);
}

#[test]
fn lone_ampersand_and_stray_characters_are_errors() {
    let at = |col| ParseError { kind: ParseErrorKind::UnexpectedToken, line: 1, col };
    assert_eq!(lex("a & b").unwrap_err(), at(3));
    assert_eq!(lex("a | b").unwrap_err(), at(3));
    assert_eq!(lex("a &").unwrap_err(), at(3));
    assert_eq!(lex("a @ b").unwrap_err(), at(3));
    assert_eq!(lex("é").unwrap_err(), at(1));
}

#[test]
fn tokens_carry_the_place_of_their_first_character() {
    let tokens = lex("ab\n  cd == 12\n\"s\"").unwrap();
    let places: Vec<(u32, u32)> = tokens.iter().map(|t| (t.line, t.col)).collect();
    assert_eq!(places, vec![(1, 1), (2, 3), (2, 6), (2, 9), (3, 1), (3, 4)]);
}

#[test]
fn reader_is_left_at_the_end_of_the_text() {
    let mut reader = CharReader::new(chars("a b"));
    read_tokens(&mut reader).unwrap();
    assert!(reader.is_drained());
    assert_eq!((reader.line_num(), reader.col_num()), (1, 4));
}

#[test]
fn lexing_starts_where_the_reader_stands() {
    let mut reader = CharReader::new(chars("skip\nthis x"));
    for _ in 0..10 {
        reader.next();
    }
    let tokens = read_tokens(&mut reader).unwrap();
    assert_eq!(tokens.len(), 2);
    assert_eq!((tokens[0].kind, tokens[0].line, tokens[0].col), (TokenKind::Name, 2, 6));
}
