use scanparse::scanner::{SCANNER, line_is_blank};
use scanparse::token::TOKEN;

fn tokens_of(line: &str) -> Vec<TOKEN> {
    let mut scanner = SCANNER::constructor(line.to_string());
    scanner.tokenize_the_line()
}

fn expect_identifier(t: &TOKEN, want: &str) {
    match t {
        TOKEN::IDENTIFIER(s) => assert_eq!(s, want),
        other => panic!("expected IDENTIFIER({}), got {:?}", want, other),
    }
}

fn expect_number(t: &TOKEN, want: &str) {
    match t {
        TOKEN::NUMBER(s) => assert_eq!(s, want),
        other => panic!("expected NUMBER({}), got {:?}", want, other),
    }
}

#[test]
fn mixed_line_tokenizes_in_order() {
    let toks = tokens_of("ab12 + (c*3)");
    assert_eq!(toks.len(), 9);
    expect_identifier(&toks[0], "ab");
    expect_number(&toks[1], "12");
    assert!(matches!(toks[2], TOKEN::PLUS));
    assert!(matches!(toks[3], TOKEN::BOPEN));
    expect_identifier(&toks[4], "c");
    assert!(matches!(toks[5], TOKEN::STAR));
    expect_number(&toks[6], "3");
    assert!(matches!(toks[7], TOKEN::BCLOSE));
    assert!(matches!(toks[8], TOKEN::EOF));
}

#[test]
fn empty_line_yields_only_eof() {
    let toks = tokens_of("");
    assert_eq!(toks.len(), 1);
    assert!(matches!(toks[0], TOKEN::EOF));
}

#[test]
fn whitespace_line_yields_only_eof() {
    let toks = tokens_of(" \t  ");
    assert_eq!(toks.len(), 1);
    assert!(matches!(toks[0], TOKEN::EOF));
}

#[test]
fn unrecognized_char_becomes_error_token() {
    let toks = tokens_of("#");
    assert_eq!(toks.len(), 2);
    assert!(matches!(toks[0], TOKEN::ERROR(())));
    assert!(matches!(toks[1], TOKEN::EOF));
}

#[test]
fn number_run_is_greedy_and_stops_at_letter() {
    let toks = tokens_of("1234x");
    assert_eq!(toks.len(), 3);
    expect_number(&toks[0], "1234");
    expect_identifier(&toks[1], "x");
    assert!(matches!(toks[2], TOKEN::EOF));
}

#[test]
fn identifier_stops_at_digit() {
    let toks = tokens_of("ab12");
    assert_eq!(toks.len(), 3);
    expect_identifier(&toks[0], "ab");
    expect_number(&toks[1], "12");
    assert!(matches!(toks[2], TOKEN::EOF));
}

#[test]
fn cursor_primitives_peek_and_advance() {
    let mut s = SCANNER::constructor("ab".to_string());
    assert_eq!(s.look_up_current_char(), Some('a'));
    assert_eq!(s.move_to_next_char(), Some('a'));
    assert_eq!(s.look_up_current_char(), Some('b'));
    assert_eq!(s.move_to_next_char(), Some('b'));
    assert_eq!(s.look_up_current_char(), None);
    assert_eq!(s.move_to_next_char(), None);
}

#[test]
fn skip_whitespace_stops_at_first_real_char() {
    let mut s = SCANNER::constructor("  \t x".to_string());
    s.skip_whitespace();
    assert_eq!(s.look_up_current_char(), Some('x'));
    s.skip_whitespace();
    assert_eq!(s.look_up_current_char(), Some('x'));
}

#[test]
fn collect_while_accumulates_the_run() {
    let mut s = SCANNER::constructor("bcd1".to_string());
    let word = s.collect_while('a', |c: char| c.is_alphabetic());
    assert_eq!(word, "abcd");
    assert_eq!(s.look_up_current_char(), Some('1'));
}

#[test]
fn blank_line_is_recognized_before_scanning() {
    assert!(line_is_blank(&"".to_string()));
    assert!(line_is_blank(&"   \t ".to_string()));
    assert!(!line_is_blank(&" x ".to_string()));
}

#[test]
fn retokenizing_identifier_text_reproduces_it() {
    let toks = tokens_of("ab");
    let text = match &toks[0] {
        TOKEN::IDENTIFIER(s) => s.clone(),
        other => panic!("expected IDENTIFIER, got {:?}", other),
    };
    let again = tokens_of(&text);
    assert_eq!(again.len(), 2);
    expect_identifier(&again[0], "ab");
    assert!(matches!(again[1], TOKEN::EOF));
}

#[test]
fn retokenizing_number_text_reproduces_it() {
    let toks = tokens_of("907");
    let text = match &toks[0] {
        TOKEN::NUMBER(s) => s.clone(),
        other => panic!("expected NUMBER, got {:?}", other),
    };
    let again = tokens_of(&text);
    assert_eq!(again.len(), 2);
    expect_number(&again[0], "907");
    assert!(matches!(again[1], TOKEN::EOF));
}
