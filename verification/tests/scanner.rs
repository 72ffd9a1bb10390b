use omega_lexer::error::OmegaError;
use omega_lexer::scanner::Scanner;
use omega_lexer::token::{Coord, Token, TokenType};

fn scan_all(text: &str) -> Vec<Result<Token, OmegaError>> {
    let mut scanner = Scanner::new(text.to_string());
    scanner.collect_all()
}

fn tok(kind: TokenType, lexeme: &str, line: usize, col: usize) -> Result<Token, OmegaError> {
    Ok(Token { kind, lexeme: lexeme.to_string(), coord: Coord { line, col } })
}

#[test]
fn multiline() {
    let tests = vec![r#""#];
    for test in tests {
        let test = test.trim();
        let items = scan_all(test);
        assert!(items.is_empty(), "blank input yielded: {:?}", items);
    }
}

#[test]
fn correct_lines_scan_without_errors() {
    let tests = vec![
        "var x = 1",
        "if (a <= b) { print \"ok\" }",
        "while not done and x >= 0",
        "func f ( y ) return y % 2",
        "x << 2 | y >> 3 & ~z",
        "call f , g [ 0 ] : int",
    ];
    for test in tests {
        let items = scan_all(test);
        assert!(items.len() >= 1, "no items for '{}'", test);
        let errors: Vec<_> = items.iter().filter(|v| v.is_err()).collect();
        assert!(errors.is_empty(), "errors for '{}': {:?}", test, errors);
    }
}

#[test]
fn incorrect_lines_report_an_error() {
    let tests = vec!["#", "12ab", "\"abc", "a ? b", "x = $", "!", "1 @ 2"];
    for test in tests {
        let items = scan_all(test);
        assert!(
            items.iter().any(|v| v.is_err()),
            "no error for '{}'; items: {:?}",
            test,
            items
        );
    }
}

#[test]
fn maximal_munch_two_char_symbols() {
    assert_eq!(scan_all("<="), vec![tok(TokenType::Punctuation, "<=", 1, 1)]);
    assert_eq!(scan_all("<<"), vec![tok(TokenType::Punctuation, "<<", 1, 1)]);
    assert_eq!(scan_all(">="), vec![tok(TokenType::Punctuation, ">=", 1, 1)]);
    assert_eq!(scan_all("=="), vec![tok(TokenType::Punctuation, "==", 1, 1)]);
    assert_eq!(scan_all("!="), vec![tok(TokenType::Punctuation, "!=", 1, 1)]);
    assert_eq!(scan_all(">>"), vec![tok(TokenType::Punctuation, ">>", 1, 1)]);
}

#[test]
fn shorter_symbol_ends_when_no_longer_match_exists() {
    assert_eq!(
        scan_all("<a"),
        vec![tok(TokenType::Punctuation, "<", 1, 1), tok(TokenType::Id, "a", 1, 2)]
    );
    assert_eq!(
        scan_all("=!="),
        vec![
            tok(TokenType::Punctuation, "=", 1, 1),
            tok(TokenType::Punctuation, "!=", 1, 2),
        ]
    );
    assert_eq!(
        scan_all("< ="),
        vec![
            tok(TokenType::Punctuation, "<", 1, 1),
            tok(TokenType::Punctuation, "=", 1, 3),
        ]
    );
}

#[test]
fn keyword_reclassification() {
    assert_eq!(scan_all("if"), vec![tok(TokenType::Keyword, "if", 1, 1)]);
    assert_eq!(scan_all("iff"), vec![tok(TokenType::Id, "iff", 1, 1)]);
}

#[test]
fn every_keyword_scans_as_keyword() {
    let keywords = [
        "and", "or", "not", "true", "false", "length", "call", "print", "return", "var",
        "func", "while", "if", "else", "bool", "int", "string",
    ];
    for kw in keywords.iter() {
        assert_eq!(scan_all(kw), vec![tok(TokenType::Keyword, kw, 1, 1)]);
    }
}

#[test]
fn unterminated_string_yields_one_line_end_error() {
    let items = scan_all("\"abc");
    assert_eq!(items.len(), 1);
    match &items[0] {
        Err(OmegaError::UnexpectedLineEnd { coord, context }) => {
            assert_eq!(*coord, Coord { line: 1, col: 4 });
            assert!(context.contains("string"), "context: {}", context);
        },
        other => panic!("expected UnexpectedLineEnd, got {:?}", other),
    }
}

#[test]
fn string_literal_excludes_quotes() {
    assert_eq!(
        scan_all("\"hi\" x"),
        vec![
            tok(TokenType::StringLiteral, "hi", 1, 2),
            tok(TokenType::Id, "x", 1, 6),
        ]
    );
    assert_eq!(scan_all("\"\""), vec![tok(TokenType::StringLiteral, "", 1, 2)]);
    // no escape processing: punctuation and whitespace pass through
    assert_eq!(
        scan_all("\"a + 1\""),
        vec![tok(TokenType::StringLiteral, "a + 1", 1, 2)]
    );
}

#[test]
fn integer_identifier_boundary_is_rejected() {
    let items = scan_all("12ab");
    assert_eq!(items.len(), 2);
    match &items[0] {
        Err(OmegaError::InvalidCharacter { chr, coord, context }) => {
            assert_eq!(*chr, 'a');
            assert_eq!(*coord, Coord { line: 1, col: 3 });
            assert!(context.contains("integer literal"), "context: {}", context);
        },
        other => panic!("expected InvalidCharacter, got {:?}", other),
    }
    assert_eq!(items[1], tok(TokenType::Id, "b", 1, 4));
}

#[test]
fn integer_literal_accepts_underscores() {
    assert_eq!(scan_all("1_0"), vec![tok(TokenType::IntLiteral, "1_0", 1, 1)]);
    assert_eq!(scan_all("42"), vec![tok(TokenType::IntLiteral, "42", 1, 1)]);
}

#[test]
fn whitespace_only_lines_produce_nothing() {
    assert!(scan_all("").is_empty());
    assert!(scan_all("   ").is_empty());
    assert!(scan_all(" \t \t ").is_empty());
    assert!(scan_all("\n\n").is_empty());
    assert!(scan_all("  \n\t\n  ").is_empty());
}

#[test]
fn coordinates_span_lines_and_columns() {
    assert_eq!(
        scan_all("a\nbb\n  c"),
        vec![
            tok(TokenType::Id, "a", 1, 1),
            tok(TokenType::Id, "bb", 2, 1),
            tok(TokenType::Id, "c", 3, 3),
        ]
    );
}

#[test]
fn tokens_do_not_span_line_boundaries() {
    // the string stays open on line 1 and the next line restarts cleanly
    let items = scan_all("\"ab\ncd");
    assert_eq!(items.len(), 2);
    assert!(matches!(&items[0], Err(OmegaError::UnexpectedLineEnd { .. })));
    assert_eq!(items[1], tok(TokenType::Id, "cd", 2, 1));
}

#[test]
fn adjacent_tokens_without_whitespace() {
    assert_eq!(
        scan_all("a+1"),
        vec![
            tok(TokenType::Id, "a", 1, 1),
            tok(TokenType::Punctuation, "+", 1, 2),
            tok(TokenType::IntLiteral, "1", 1, 3),
        ]
    );
    assert_eq!(
        scan_all("x<=y"),
        vec![
            tok(TokenType::Id, "x", 1, 1),
            tok(TokenType::Punctuation, "<=", 1, 2),
            tok(TokenType::Id, "y", 1, 4),
        ]
    );
}

#[test]
fn invalid_start_character_is_reported_and_scan_continues() {
    let items = scan_all("# $ x");
    assert_eq!(items.len(), 3);
    match &items[0] {
        Err(OmegaError::InvalidCharacter { chr, coord, .. }) => {
            assert_eq!(*chr, '#');
            assert_eq!(*coord, Coord { line: 1, col: 1 });
        },
        other => panic!("expected InvalidCharacter, got {:?}", other),
    }
    assert!(matches!(&items[1], Err(OmegaError::InvalidCharacter { chr: '$', .. })));
    assert_eq!(items[2], tok(TokenType::Id, "x", 1, 5));
}

#[test]
fn invalid_identifier_continuation_is_reported() {
    let items = scan_all("a#b");
    assert_eq!(items.len(), 2);
    match &items[0] {
        Err(OmegaError::InvalidCharacter { chr, coord, context }) => {
            assert_eq!(*chr, '#');
            assert_eq!(*coord, Coord { line: 1, col: 2 });
            assert!(context.contains("id"), "context: {}", context);
        },
        other => panic!("expected InvalidCharacter, got {:?}", other),
    }
    assert_eq!(items[1], tok(TokenType::Id, "b", 1, 3));
}

#[test]
fn lone_pair_opener_at_line_end_is_reported() {
    let items = scan_all("!");
    assert_eq!(items.len(), 1);
    match &items[0] {
        Err(OmegaError::UnexpectedLineEnd { coord, context }) => {
            assert_eq!(*coord, Coord { line: 1, col: 1 });
            assert!(context.contains("punctuation"), "context: {}", context);
        },
        other => panic!("expected UnexpectedLineEnd, got {:?}", other),
    }
}

#[test]
fn dead_end_punctuation_prefix_redispatches() {
    let items = scan_all("!a");
    assert_eq!(items.len(), 2);
    match &items[0] {
        Err(OmegaError::InvalidCharacter { chr, coord, .. }) => {
            assert_eq!(*chr, 'a');
            assert_eq!(*coord, Coord { line: 1, col: 2 });
        },
        other => panic!("expected InvalidCharacter, got {:?}", other),
    }
    assert_eq!(items[1], tok(TokenType::Id, "a", 1, 2));
}

#[test]
fn single_symbol_completes_at_line_end() {
    assert_eq!(scan_all("<"), vec![tok(TokenType::Punctuation, "<", 1, 1)]);
    assert_eq!(scan_all("="), vec![tok(TokenType::Punctuation, "=", 1, 1)]);
    assert_eq!(scan_all("~"), vec![tok(TokenType::Punctuation, "~", 1, 1)]);
}

#[test]
fn scanning_twice_yields_identical_sequences() {
    let texts = ["var x = 1\nif (x <= 2) { print \"y\" }", "12ab \"open", ""];
    for text in texts.iter() {
        let first = scan_all(text);
        let second = scan_all(text);
        assert_eq!(first, second);
    }
}

#[test]
fn next_pulls_items_lazily_and_then_none() {
    let mut scanner = Scanner::new("a b".to_string());
    assert_eq!(scanner.next(), Some(tok(TokenType::Id, "a", 1, 1)));
    assert_eq!(scanner.next(), Some(tok(TokenType::Id, "b", 1, 3)));
    assert_eq!(scanner.next(), None);
    assert_eq!(scanner.next(), None);
}

#[test]
fn stopping_early_and_resuming_is_well_defined() {
    let mut scanner = Scanner::new("a\nb\nc".to_string());
    assert_eq!(scanner.next(), Some(tok(TokenType::Id, "a", 1, 1)));
    // the consumer stopped pulling for a while; resuming skips nothing
    assert_eq!(scanner.next(), Some(tok(TokenType::Id, "b", 2, 1)));
    assert_eq!(scanner.next(), Some(tok(TokenType::Id, "c", 3, 1)));
    assert_eq!(scanner.next(), None);
}

#[test]
fn mixed_line_with_every_token_kind() {
    assert_eq!(
        scan_all("var n1 = \"s\" + 7"),
        vec![
            tok(TokenType::Keyword, "var", 1, 1),
            tok(TokenType::Id, "n1", 1, 5),
            tok(TokenType::Punctuation, "=", 1, 8),
            tok(TokenType::StringLiteral, "s", 1, 11),
            tok(TokenType::Punctuation, "+", 1, 14),
            tok(TokenType::IntLiteral, "7", 1, 16),
        ]
    );
}

#[test]
fn collect_after_partial_pull_returns_the_rest() {
    let mut scanner = Scanner::new("a b c".to_string());
    assert_eq!(scanner.next(), Some(tok(TokenType::Id, "a", 1, 1)));
    let rest = scanner.collect_all();
    assert_eq!(
        rest,
        vec![tok(TokenType::Id, "b", 1, 3), tok(TokenType::Id, "c", 1, 5)]
    );
    // a drained scanner stays drained: scanning again needs a new Scanner
    assert!(scanner.collect_all().is_empty());
    assert_eq!(scanner.next(), None);
}
