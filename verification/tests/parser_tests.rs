use scanparse::node::NODE;
use scanparse::parser::{PARSER, ParseError};
use scanparse::render::join_with_spaces;
use scanparse::scanner::SCANNER;
use scanparse::token::TOKEN;

fn parse_line(line: &str) -> Result<NODE, ParseError> {
    let mut scanner = SCANNER::constructor(line.to_string());
    let tokens = scanner.tokenize_the_line();
    let mut parser = PARSER::constructor(tokens);
    parser.parse_expr()
}

fn levels_of(line: &str) -> Vec<String> {
    parse_line(line).expect("the line should parse").bfs_levels()
}

#[test]
fn plus_of_two_identifiers_renders_level_by_level() {
    let levels = levels_of("x+y");
    assert_eq!(
        levels,
        vec![
            "EXPR".to_string(),
            "TERM EXPRDASH".to_string(),
            "FACTOR TERMDASH PLUS TERM EXPRDASH".to_string(),
            "IDENTIFIER(x) EPSILON FACTOR TERMDASH EPSILON".to_string(),
            "IDENTIFIER(y) EPSILON".to_string(),
        ]
    );
}

#[test]
fn parenthesized_identifier_keeps_its_parens_as_leaves() {
    let levels = levels_of("(x)");
    assert_eq!(
        levels,
        vec![
            "EXPR".to_string(),
            "TERM EXPRDASH".to_string(),
            "FACTOR TERMDASH EPSILON".to_string(),
            "BOPEN EXPR BCLOSE EPSILON".to_string(),
            "TERM EXPRDASH".to_string(),
            "FACTOR TERMDASH EPSILON".to_string(),
            "IDENTIFIER(x) EPSILON".to_string(),
        ]
    );
}

#[test]
fn single_number_parses_to_minimal_tree() {
    let levels = levels_of("42");
    assert_eq!(
        levels,
        vec![
            "EXPR".to_string(),
            "TERM EXPRDASH".to_string(),
            "FACTOR TERMDASH EPSILON".to_string(),
            "NUMBER(42) EPSILON".to_string(),
        ]
    );
}

#[test]
fn missing_close_paren_is_the_unbalanced_failure() {
    assert_eq!(parse_line("(1+2").unwrap_err(), ParseError::MissingCloseParen);
}

#[test]
fn close_paren_alone_is_the_unexpected_token_failure() {
    assert_eq!(parse_line(")").unwrap_err(), ParseError::UnexpectedToken);
}

#[test]
fn open_paren_alone_fails_inside_the_parens() {
    assert_eq!(parse_line("(").unwrap_err(), ParseError::UnexpectedToken);
}

#[test]
fn empty_input_cannot_start_a_factor() {
    assert_eq!(parse_line("").unwrap_err(), ParseError::UnexpectedToken);
}

#[test]
fn unrecognized_char_is_rejected_by_the_parser() {
    assert_eq!(parse_line("#").unwrap_err(), ParseError::UnexpectedToken);
}

#[test]
fn plus_without_right_operand_fails() {
    assert_eq!(parse_line("x+").unwrap_err(), ParseError::UnexpectedToken);
}

#[test]
fn star_binds_tighter_than_plus() {
    let levels = levels_of("a+b*c");
    assert_eq!(levels[0], "EXPR");
    assert_eq!(levels[1], "TERM EXPRDASH");
    assert_eq!(levels[2], "FACTOR TERMDASH PLUS TERM EXPRDASH");
    assert_eq!(levels[3], "IDENTIFIER(a) EPSILON FACTOR TERMDASH EPSILON");
    assert_eq!(levels[4], "IDENTIFIER(b) STAR FACTOR TERMDASH");
    assert_eq!(levels[5], "IDENTIFIER(c) EPSILON");
    assert_eq!(levels.len(), 6);
}

#[test]
fn tokens_past_one_expression_are_left_unconsumed() {
    assert!(parse_line("x y").is_ok());
}

#[test]
fn cursor_over_tokens_defaults_to_eof() {
    let parser = PARSER::constructor(Vec::new());
    assert!(matches!(parser.current_token(), TOKEN::EOF));
}

#[test]
fn leaf_and_with_build_the_expected_levels() {
    let a = NODE::leaf("A");
    let b = NODE::leaf("B");
    let root = NODE::with("ROOT", vec![a, b]);
    assert_eq!(root.bfs_levels(), vec!["ROOT".to_string(), "A B".to_string()]);
}

#[test]
fn joining_labels_uses_single_spaces() {
    let parts = vec!["EXPR".to_string(), "TERM".to_string(), "EXPRDASH".to_string()];
    assert_eq!(join_with_spaces(&parts), "EXPR TERM EXPRDASH");
    let one = vec!["EXPR".to_string()];
    assert_eq!(join_with_spaces(&one), "EXPR");
    let none: Vec<String> = Vec::new();
    assert_eq!(join_with_spaces(&none), "");
}
