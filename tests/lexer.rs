use cif_parser::lexer::{
    is_ordinary, parse_identifier, skip_to_eol, start_with, trim_comments_and_whitespace,
    trim_whitespace,
};
use cif_parser::position::Position;

#[test]
fn trim_whitespace_only_spaces() {
    let mut pos = Position::new("    a");
    trim_whitespace(&mut pos);
    assert_eq!(pos.remaining(), "a");
    assert_eq!(pos.line, 0);
    assert_eq!(pos.column, 4);
}

#[test]
fn trim_whitespace_tabs_and_spaces() {
    let mut pos = Position::new(" \t \t a");
    trim_whitespace(&mut pos);
    assert_eq!(pos.remaining(), "a");
    assert_eq!(pos.line, 0);
    assert_eq!(pos.column, 5);
}

// Line breaks: `\n`, `\r` and `\r\n` each count once; `\n\r` is two breaks.
#[test]
fn trim_whitespace_newlines() {
    let mut pos = Position::new(" \t \t \n \r \n\r \r\na");
    trim_whitespace(&mut pos);
    assert_eq!(pos.remaining(), "a");
    assert_eq!(pos.line, 5);
    assert_eq!(pos.column, 0);
}

#[test]
fn trim_whitespace_to_end_of_text() {
    let mut pos = Position::new("  \n ");
    trim_whitespace(&mut pos);
    assert_eq!(pos.remaining(), "");
    assert!(pos.is_empty());
    assert_eq!(pos.line, 1);
    assert_eq!(pos.column, 1);
}

#[test]
fn skip_to_eol_test() {
    let mut pos = Position::new("bla bla bla\na");
    skip_to_eol(&mut pos);
    assert_eq!(pos.remaining(), "a");
    assert_eq!(pos.line, 1);
    assert_eq!(pos.column, 0);
}

#[test]
fn skip_to_eol_crlf_is_one_break() {
    let mut pos = Position::new("# note\r\n\r\nx");
    skip_to_eol(&mut pos);
    assert_eq!(pos.remaining(), "\r\nx");
    assert_eq!(pos.line, 1);
    assert_eq!(pos.column, 0);
    trim_whitespace(&mut pos);
    assert_eq!(pos.remaining(), "x");
    assert_eq!(pos.line, 2);
}

#[test]
fn trim_comments_and_whitespace_test() {
    let mut pos = Position::new("  \n#comment\n  #comment\na");
    trim_comments_and_whitespace(&mut pos);
    assert_eq!(pos.remaining(), "a");
    assert_eq!(pos.line, 3);
    assert_eq!(pos.column, 0);
}

#[test]
fn trimming_twice_changes_nothing() {
    let mut pos = Position::new(" # one\n\t# two\r\n  value # after");
    trim_comments_and_whitespace(&mut pos);
    let (offset, line, column) = (pos.offset, pos.line, pos.column);
    assert_eq!(pos.remaining(), "value # after");
    trim_comments_and_whitespace(&mut pos);
    assert_eq!((pos.offset, pos.line, pos.column), (offset, line, column));
    trim_whitespace(&mut pos);
    assert_eq!((pos.offset, pos.line, pos.column), (offset, line, column));
}

#[test]
fn position_counts_columns_and_line_breaks() {
    let mut pos = Position::new("abc\r\nde\rf\ng");
    pos.advance_to(3);
    assert_eq!((pos.line, pos.column), (0, 3));
    pos.advance_to(5);
    assert_eq!((pos.line, pos.column), (1, 0));
    pos.advance_to(7);
    assert_eq!((pos.line, pos.column), (1, 2));
    pos.advance_to(8);
    assert_eq!((pos.line, pos.column), (2, 0));
    pos.advance_to(10);
    assert_eq!((pos.line, pos.column), (3, 0));
    assert_eq!(pos.remaining(), "g");
}

#[test]
fn start_with_true() {
    let mut pos = Position::new("BloCk_a");
    let res = start_with(&mut pos, "block_");
    assert!(res.is_some());
    assert_eq!(pos.remaining(), "a");
    assert_eq!(pos.line, 0);
    assert_eq!(pos.column, 6);
}

#[test]
fn start_with_false() {
    let mut pos = Position::new("loop_a");
    let res = start_with(&mut pos, "block_");
    assert!(res.is_none());
    assert_eq!(pos.remaining(), "loop_a");
    assert_eq!(pos.line, 0);
    assert_eq!(pos.column, 0);
}

#[test]
fn start_with_text_too_short() {
    let mut pos = Position::new("dat");
    assert!(start_with(&mut pos, "data_").is_none());
    assert_eq!(pos.remaining(), "dat");
}

#[test]
fn parse_identifier_test0() {
    let mut pos = Position::new("hello_world a");
    let res = parse_identifier(&mut pos);
    assert_eq!(res, "hello_world");
    assert_eq!(pos.remaining(), " a");
    assert_eq!(pos.line, 0);
    assert_eq!(pos.column, 11);
}

#[test]
fn parse_identifier_test1() {
    let mut pos = Position::new(" a");
    let res = parse_identifier(&mut pos);
    assert_eq!(res, "");
    assert_eq!(pos.remaining(), " a");
    assert_eq!(pos.line, 0);
    assert_eq!(pos.column, 0);
}

#[test]
fn classify_char_test() {
    assert!(is_ordinary('a'));
    assert!(is_ordinary('!'));
    assert!(is_ordinary('h'));
    assert!(is_ordinary('%'));
    assert!(is_ordinary('~'));
    assert!(!is_ordinary(' '));
    assert!(!is_ordinary('\t'));
    assert!(!is_ordinary(';'));
    assert!(!is_ordinary('#'));
    assert!(!is_ordinary('\''));
    assert!(!is_ordinary('\"'));
    assert!(!is_ordinary('$'));
    assert!(!is_ordinary('_'));
    assert!(!is_ordinary('['));
    assert!(!is_ordinary(']'));
}
