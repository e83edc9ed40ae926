use calculator::lexer::{tokenize, Bridge};
use calculator::parser::{parse_tokens, ParseErr};
use calculator::respond;
use calculator::token::{Token, WrappedInt};

fn int_tok(v: i64) -> Token {
    Token::Integer(WrappedInt::Int(v))
}

#[test]
fn tokenize_simple_expression() {
    let ts = tokenize("2 + 3 * 4");
    assert_eq!(
        ts,
        vec![
            (0, int_tok(2), 1),
            (2, Token::Plus, 3),
            (4, int_tok(3), 5),
            (6, Token::Star, 7),
            (8, int_tok(4), 9),
        ]
    );
}

#[test]
fn tokenize_all_token_kinds() {
    let ts = tokenize("()+-*/");
    assert_eq!(
        ts,
        vec![
            (0, Token::LParen, 1),
            (1, Token::RParen, 2),
            (2, Token::Plus, 3),
            (3, Token::Minus, 4),
            (4, Token::Star, 5),
            (5, Token::Slash, 6),
        ]
    );
}

#[test]
fn tokenize_whitespace_kinds_are_skipped() {
    let line = "1\u{0B}+\u{0C}2\t \r\n";
    let ts = tokenize(line);
    assert_eq!(
        ts,
        vec![(0, int_tok(1), 1), (2, Token::Plus, 3), (4, int_tok(2), 5)]
    );
}

#[test]
fn tokenize_empty_and_blank_yield_no_tokens() {
    assert!(tokenize("").is_empty());
    assert!(tokenize(" \t\r\n\u{0B}\u{0C}").is_empty());
}

#[test]
fn spans_reconstruct_the_line() {
    let line = "  12 +@#% ( 5 )";
    let ts = tokenize(line);
    let mut rebuilt = String::new();
    let mut cursor = 0;
    for (start, _, end) in &ts {
        let gap = &line[cursor..*start];
        assert!(gap.bytes().all(|b| b == b' '));
        rebuilt.push_str(gap);
        rebuilt.push_str(&line[*start..*end]);
        cursor = *end;
    }
    rebuilt.push_str(&line[cursor..]);
    assert_eq!(rebuilt, line);
}

#[test]
fn error_run_is_one_token_with_the_whole_slice() {
    let ts = tokenize("@#$");
    assert_eq!(ts, vec![(0, Token::Error("@#$".to_string()), 3)]);
}

#[test]
fn error_run_ends_where_a_rule_starts() {
    let ts = tokenize("2 + @%7");
    assert_eq!(
        ts,
        vec![
            (0, int_tok(2), 1),
            (2, Token::Plus, 3),
            (4, Token::Error("@%".to_string()), 6),
            (6, int_tok(7), 7),
        ]
    );
}

#[test]
fn bridge_pulls_one_triple_at_a_time() {
    let mut br = Bridge::new("1 ?");
    assert_eq!(br.next(), Some((0, int_tok(1), 1)));
    assert_eq!(br.next(), Some((2, Token::Error("?".to_string()), 3)));
    assert_eq!(br.next(), None);
}

#[test]
fn literal_within_range_parses_to_its_value() {
    let ts = tokenize("12345");
    assert_eq!(ts, vec![(0, int_tok(12345), 5)]);
    let ts = tokenize("9223372036854775807");
    assert_eq!(ts, vec![(0, int_tok(i64::MAX), 19)]);
}

#[test]
fn literal_with_leading_zeros_parses_by_value() {
    let ts = tokenize("0000123");
    assert_eq!(ts, vec![(0, int_tok(123), 7)]);
}

#[test]
fn literal_just_past_range_is_an_overflow_value() {
    let ts = tokenize("9223372036854775808");
    assert_eq!(
        ts,
        vec![(
            0,
            Token::Integer(WrappedInt::Overflow(
                "9223372036854775808 is too large".to_string()
            )),
            19,
        )]
    );
}

#[test]
fn huge_literal_message_quotes_the_run_verbatim() {
    let ts = tokenize("99999999999999999999");
    assert_eq!(
        ts,
        vec![(
            0,
            Token::Integer(WrappedInt::Overflow(
                "99999999999999999999 is too large".to_string()
            )),
            20,
        )]
    );
}

#[test]
fn precedence_star_binds_before_plus() {
    assert_eq!(respond("2 + 3 * 4"), Some("14".to_string()));
}

#[test]
fn parentheses_override_precedence() {
    assert_eq!(respond("(2 + 3) * 4"), Some("20".to_string()));
}

#[test]
fn lexical_error_is_reported_with_its_text() {
    assert_eq!(
        respond("2 + @"),
        Some("Error: Unexpected token @, expected: Integer, LParen".to_string())
    );
}

#[test]
fn unexpected_end_names_the_expected_tokens() {
    assert_eq!(
        respond("2 + "),
        Some("Error: Unexpected end of input, expected: Integer, LParen".to_string())
    );
}

#[test]
fn blank_lines_get_no_reply() {
    assert_eq!(respond(""), None);
    assert_eq!(respond("   \t  "), None);
    assert_eq!(respond(" \r\n"), None);
}

#[test]
fn overflow_literal_errors_when_consumed() {
    assert_eq!(
        respond("99999999999999999999"),
        Some("Error: 99999999999999999999 is too large".to_string())
    );
    assert_eq!(
        respond("1 + 99999999999999999999"),
        Some("Error: 99999999999999999999 is too large".to_string())
    );
}

#[test]
fn overflow_literal_is_deferred_past_an_earlier_error() {
    assert_eq!(
        respond("2 @ 99999999999999999999"),
        Some("Error: Unexpected token @, expected: Minus, Plus, Slash, Star".to_string())
    );
}

#[test]
fn subtraction_is_left_associative() {
    assert_eq!(respond("8 - 3 - 2"), Some("3".to_string()));
}

#[test]
fn division_is_left_associative_and_truncates() {
    assert_eq!(respond("100 / 5 / 2"), Some("10".to_string()));
    assert_eq!(respond("7 / 2"), Some("3".to_string()));
    assert_eq!(respond("(0 - 7) / 2"), Some("-3".to_string()));
}

#[test]
fn division_by_zero_is_an_error() {
    assert_eq!(respond("1 / 0"), Some("Error: division by zero".to_string()));
}

#[test]
fn negative_results_are_printed_with_a_sign() {
    assert_eq!(respond("2 - 5"), Some("-3".to_string()));
}

#[test]
fn addition_wraps_at_the_i64_boundary() {
    assert_eq!(
        respond("9223372036854775807 + 1"),
        Some("-9223372036854775808".to_string())
    );
}

#[test]
fn minimum_quotient_wraps() {
    assert_eq!(
        respond("(0 - 9223372036854775807 - 1) / (0 - 1)"),
        Some("-9223372036854775808".to_string())
    );
}

#[test]
fn unclosed_parenthesis_reports_the_closer_among_expected() {
    assert_eq!(
        respond("(2 + 3"),
        Some("Error: Unexpected end of input, expected: Minus, Plus, RParen, Slash, Star".to_string())
    );
}

#[test]
fn stray_token_after_a_complete_expression() {
    assert_eq!(
        respond("2 3"),
        Some("Error: Unexpected token Integer(Int(3)), expected: Minus, Plus, Slash, Star".to_string())
    );
    assert_eq!(
        respond("2 )"),
        Some("Error: Unexpected token RParen, expected: Minus, Plus, Slash, Star".to_string())
    );
}

#[test]
fn empty_parentheses_are_rejected_where_a_factor_must_start() {
    assert_eq!(
        respond("()"),
        Some("Error: Unexpected token RParen, expected: Integer, LParen".to_string())
    );
}

#[test]
fn non_ascii_error_slice_is_embedded_intact() {
    let ts = tokenize("2 + é");
    assert_eq!(ts.len(), 3);
    assert_eq!(ts[2], (4, Token::Error("é".to_string()), 6));
    assert_eq!(
        respond("2 + é"),
        Some("Error: Unexpected token é, expected: Integer, LParen".to_string())
    );
}

#[test]
fn parse_tokens_accepts_a_hand_built_stream() {
    let ts = vec![(0, int_tok(6), 1), (1, Token::Star, 2), (2, int_tok(7), 3)];
    assert_eq!(parse_tokens(&ts), Ok(42));
}

#[test]
fn parse_tokens_reports_eof_on_an_empty_stream() {
    let ts: Vec<(usize, Token, usize)> = Vec::new();
    match parse_tokens(&ts) {
        Err(ParseErr::UnrecognizedEof { location, expected }) => {
            assert_eq!(location, 0);
            assert_eq!(expected, vec!["Integer".to_string(), "LParen".to_string()]);
        }
        other => panic!("expected an end-of-input error, got {:?}", other),
    }
}

#[test]
fn single_literal_evaluates_to_itself() {
    assert_eq!(respond("0"), Some("0".to_string()));
    assert_eq!(respond("  42  "), Some("42".to_string()));
}

#[test]
fn nested_parentheses_evaluate() {
    assert_eq!(respond("((2))"), Some("2".to_string()));
    assert_eq!(respond("2 * (3 + (4 - 1))"), Some("12".to_string()));
}
