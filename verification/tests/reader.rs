use bleepscript::char_reader::CharReader;

fn chars(s: &str) -> Vec<char> {
    s.chars().collect()
}

#[test]
fn reader_starts_at_line_one_column_one() {
    let r = CharReader::new(chars("abc"));
    assert_eq!((r.line_num(), r.col_num()), (1, 1));
    assert!(!r.is_drained());
    assert!(CharReader::new(Vec::new()).is_drained());
}

#[test]
fn reader_tracks_lines_and_columns() {
    let mut r = CharReader::new(chars("a\nbc"));
    assert_eq!(r.next(), Some('a'));
    assert_eq!((r.line_num(), r.col_num()), (1, 2));
    assert_eq!(r.next(), Some('\n'));
    assert_eq!((r.line_num(), r.col_num()), (2, 1));
    assert_eq!(r.next(), Some('b'));
    assert_eq!(r.next(), Some('c'));
    assert_eq!((r.line_num(), r.col_num()), (2, 3));
    assert!(r.is_drained());
}

#[test]
fn reader_moves_one_column_on_at_the_end() {
    let mut r = CharReader::new(chars("a"));
    assert_eq!(r.next(), Some('a'));
    assert_eq!(r.next(), None);
    assert_eq!((r.line_num(), r.col_num()), (1, 3));
    assert_eq!(r.next(), None);
    assert_eq!((r.line_num(), r.col_num()), (1, 4));
}

#[test]
fn pushed_back_character_comes_again() {
    let mut r = CharReader::new(chars("xy"));
    assert!(!r.can_unget('x'));
    assert_eq!(r.next(), Some('x'));
    assert!(r.can_unget('x'));
    assert!(!r.can_unget('y'));
    r.ungetc('x');
    assert!(!r.can_unget('x'));
    assert_eq!((r.line_num(), r.col_num()), (1, 1));
    assert_eq!(r.next(), Some('x'));
    assert_eq!(r.next(), Some('y'));
    assert_eq!((r.line_num(), r.col_num()), (1, 3));
}

#[test]
fn pushed_back_line_break_restores_the_column() {
    let mut r = CharReader::new(chars("abc\nd"));
    for _ in 0..4 {
        r.next();
    }
    assert_eq!((r.line_num(), r.col_num()), (2, 1));
    r.ungetc('\n');
    assert_eq!((r.line_num(), r.col_num()), (1, 4));
    assert_eq!(r.next(), Some('\n'));
    assert_eq!(r.next(), Some('d'));
    assert_eq!((r.line_num(), r.col_num()), (2, 2));
}

#[test]
fn nothing_can_be_pushed_back_after_the_end() {
    let mut r = CharReader::new(chars("a"));
    r.next();
    assert_eq!(r.next(), None);
    assert!(!r.can_unget('a'));
}

#[test]
fn supplied_text_follows_what_is_pending() {
    let mut r = CharReader::new(chars("ab"));
    assert_eq!(r.next(), Some('a'));
    r.supply(chars("cd"));
    assert!(r.can_unget('a'));
    assert_eq!(r.next(), Some('b'));
    assert_eq!(r.next(), Some('c'));
    r.ungetc('c');
    r.supply(chars("\ne"));
    let rest: Vec<char> = std::iter::from_fn(|| r.next()).collect();
    assert_eq!(rest, chars("cd\ne"));
    assert_eq!((r.line_num(), r.col_num()), (2, 3));
    r.supply(chars("f"));
    assert_eq!(r.next(), Some('f'));
    assert_eq!((r.line_num(), r.col_num()), (2, 4));
}
