use vexlang::lexer::input_stream::InputStream;

#[test]
fn peek_shows_the_byte_behind_the_position() {
    let stream = InputStream::new("abc".to_string());
    assert_eq!(stream.peek_byte(), Some(b'b'));
    assert!(stream.matches_byte(b'b'));
    assert!(!stream.matches_byte(b'a'));
}

#[test]
fn advance_moves_the_position() {
    let mut stream = InputStream::new("abcd".to_string());
    stream.advance(2);
    assert_eq!(stream.peek_byte(), Some(b'd'));
    assert!(!stream.at_end());
    stream.advance(2);
    assert!(stream.at_end());
}

#[test]
fn at_end_is_behind_the_last_byte() {
    let mut stream = InputStream::new("ab".to_string());
    assert!(!stream.at_end());
    stream.advance(1);
    assert!(!stream.at_end());
    stream.advance(1);
    assert!(stream.at_end());
    stream.advance(5);
    assert!(stream.at_end());
}

#[test]
fn peek_str_needs_one_more_byte_behind() {
    let stream = InputStream::new("fn main".to_string());
    assert_eq!(stream.peek_str(0), Some(""));
    assert_eq!(stream.peek_str(2), Some("fn"));
    assert_eq!(stream.peek_str(6), Some("fn mai"));
    assert_eq!(stream.peek_str(7), None);
    assert_eq!(stream.peek_str(100), None);
}

#[test]
fn peek_str_gives_only_well_formed_text() {
    let mut stream = InputStream::new("héllo".to_string());
    assert_eq!(stream.peek_str(1), Some("h"));
    assert_eq!(stream.peek_str(2), None);
    assert_eq!(stream.peek_str(3), Some("hé"));
    stream.advance(2);
    assert_eq!(stream.peek_str(1), None);
    assert_eq!(stream.peek_str(0), Some(""));
}

#[test]
fn matches_str_compares_what_lies_ahead() {
    let mut stream = InputStream::new("fn main".to_string());
    assert!(stream.matches_str("fn"));
    assert!(stream.matches_str(""));
    assert!(!stream.matches_str("fm"));
    assert!(!stream.matches_str("fn main"));
    stream.advance(3);
    assert!(stream.matches_str("mai"));
    assert!(!stream.matches_str("main"));
}

#[test]
fn advance_if_matches_str_moves_only_on_a_match() {
    let mut stream = InputStream::new("fn main".to_string());
    assert!(!stream.advance_if_matches_str("main"));
    assert_eq!(stream.peek_str(2), Some("fn"));
    assert!(stream.advance_if_matches_str("fn "));
    assert_eq!(stream.peek_str(3), Some("mai"));
    assert_eq!(stream.peek_byte(), Some(b'a'));
}

#[test]
fn advance_byte_if_asks_the_predicate_and_stays() {
    let mut stream = InputStream::new("a1b".to_string());
    assert_eq!(stream.advance_byte_if(|byte: u8| byte.is_ascii_digit()), Some(b'1'));
    assert_eq!(stream.advance_byte_if(|byte: u8| byte.is_ascii_alphabetic()), None);
    assert_eq!(stream.peek_byte(), Some(b'1'));
}

#[test]
fn the_cursor_tells_where_it_stands() {
    let mut stream = InputStream::new("héllo".to_string());
    assert_eq!(stream.len(), 6);
    assert_eq!(stream.position(), 0);
    stream.advance(4);
    assert_eq!(stream.position(), 4);
    assert_eq!(stream.len(), 6);
    assert!(stream.position() + 1 < stream.len());
    assert_eq!(stream.peek_byte(), Some(b'o'));
}
