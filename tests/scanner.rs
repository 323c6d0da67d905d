use rlox::lox::Lox;
use rlox::scanner::Scanner;
use rlox::token::{ScannerErr, Token, Type};

fn scan_all(src: &str) -> Vec<Result<Token, ScannerErr>> {
    let mut scanner = Scanner::new(src);
    let mut out = Vec::new();
    while let Some(item) = scanner.next() {
        out.push(item);
    }
    out
}

fn tok(item: &Result<Token, ScannerErr>) -> &Token {
    match item {
        Ok(t) => t,
        Err(e) => panic!("expected a token, got {:?}", e),
    }
}

fn expect_token(item: &Result<Token, ScannerErr>, kind: Type, lexeme: &str, line: usize) {
    let t = tok(item);
    assert_eq!(t.token_type, kind);
    assert_eq!(t.lexeme, lexeme);
    assert_eq!(t.line, line);
}

#[test]
fn rescan_gives_identical_sequence() {
    let src = "var x = 1.5; // c\n\"s\ntr\" @ while(x >= 2) { print x; }";
    let a = scan_all(src);
    let b = scan_all(src);
    assert_eq!(a.len(), b.len());
    for (x, y) in a.iter().zip(b.iter()) {
        match (x, y) {
            (Ok(p), Ok(q)) => {
                assert_eq!(p.token_type, q.token_type);
                assert_eq!(p.lexeme, q.lexeme);
                assert_eq!(p.line, q.line);
            }
            (Err(p), Err(q)) => assert_eq!(p, q),
            _ => panic!("sequences differ"),
        }
    }
}

#[test]
fn bang_equal_is_one_token() {
    let items = scan_all("!=");
    assert_eq!(items.len(), 1);
    expect_token(&items[0], Type::BangEqual, "!=", 1);
}

#[test]
fn two_char_operators_and_their_single_forms() {
    let items = scan_all("== = <= < >= > ! !=");
    let kinds = [
        (Type::EqualEqual, "=="),
        (Type::Equal, "="),
        (Type::LessEqual, "<="),
        (Type::Less, "<"),
        (Type::GreaterEqual, ">="),
        (Type::Greater, ">"),
        (Type::Bang, "!"),
        (Type::BangEqual, "!="),
    ];
    assert_eq!(items.len(), kinds.len());
    for (item, (kind, lexeme)) in items.iter().zip(kinds.iter()) {
        expect_token(item, *kind, lexeme, 1);
    }
}

#[test]
fn number_without_fraction_digit_then_dot() {
    let items = scan_all("1.");
    assert_eq!(items.len(), 2);
    expect_token(&items[0], Type::Number, "1", 1);
    expect_token(&items[1], Type::Dot, ".", 1);
}

#[test]
fn number_with_fraction() {
    let items = scan_all("1.5");
    assert_eq!(items.len(), 1);
    expect_token(&items[0], Type::Number, "1.5", 1);
}

#[test]
fn number_fraction_stops_at_second_dot() {
    let items = scan_all("12.34.5");
    assert_eq!(items.len(), 3);
    expect_token(&items[0], Type::Number, "12.34", 1);
    expect_token(&items[1], Type::Dot, ".", 1);
    expect_token(&items[2], Type::Number, "5", 1);
}

#[test]
fn multi_line_string_carries_closing_line() {
    let items = scan_all("\"a\nb\"");
    assert_eq!(items.len(), 1);
    expect_token(&items[0], Type::String, "\"a\nb\"", 2);
}

#[test]
fn string_keeps_backslashes_and_non_ascii() {
    let items = scan_all("\"a\\n é\"");
    assert_eq!(items.len(), 1);
    expect_token(&items[0], Type::String, "\"a\\n é\"", 1);
}

#[test]
fn unterminated_string_ends_the_scan() {
    let mut scanner = Scanner::new("\"abc");
    match scanner.next() {
        Some(Err(e)) => assert_eq!(e, ScannerErr::UnterminatedString(1)),
        other => panic!("unexpected {:?}", other),
    }
    assert!(scanner.next().is_none());
    assert!(scanner.next().is_none());
}

#[test]
fn unterminated_string_counts_its_newlines() {
    let items = scan_all("+ \"ab\nc\n");
    assert_eq!(items.len(), 2);
    expect_token(&items[0], Type::Plus, "+", 1);
    match &items[1] {
        Err(e) => assert_eq!(*e, ScannerErr::UnterminatedString(3)),
        Ok(t) => panic!("unexpected token {:?}", t),
    }
}

#[test]
fn comment_is_elided() {
    let items = scan_all("// hello\n+");
    assert_eq!(items.len(), 1);
    expect_token(&items[0], Type::Plus, "+", 2);
}

#[test]
fn lone_slash_is_a_token() {
    let items = scan_all("a / b");
    assert_eq!(items.len(), 3);
    expect_token(&items[1], Type::Slash, "/", 1);
}

#[test]
fn comment_at_end_without_newline() {
    let items = scan_all("-// tail");
    assert_eq!(items.len(), 1);
    expect_token(&items[0], Type::Minus, "-", 1);
}

#[test]
fn keyword_prefix_is_an_identifier() {
    let items = scan_all("classify");
    assert_eq!(items.len(), 1);
    expect_token(&items[0], Type::Identifier, "classify", 1);
}

#[test]
fn every_reserved_word_is_recognised() {
    let words = [
        ("and", Type::And),
        ("class", Type::Class),
        ("else", Type::Else),
        ("false", Type::False),
        ("for", Type::For),
        ("fun", Type::Fun),
        ("if", Type::If),
        ("nil", Type::Nil),
        ("or", Type::Or),
        ("print", Type::Print),
        ("return", Type::Return),
        ("super", Type::Super),
        ("this", Type::This),
        ("true", Type::True),
        ("var", Type::Var),
        ("while", Type::While),
    ];
    for (word, kind) in words.iter() {
        let items = scan_all(word);
        assert_eq!(items.len(), 1);
        expect_token(&items[0], *kind, word, 1);
    }
}

#[test]
fn identifiers_take_underscores_and_digits() {
    let items = scan_all("_a1 Var x_");
    assert_eq!(items.len(), 3);
    expect_token(&items[0], Type::Identifier, "_a1", 1);
    expect_token(&items[1], Type::Identifier, "Var", 1);
    expect_token(&items[2], Type::Identifier, "x_", 1);
}

#[test]
fn invalid_byte_between_tokens() {
    let items = scan_all("+ @ -");
    assert_eq!(items.len(), 3);
    expect_token(&items[0], Type::Plus, "+", 1);
    match &items[1] {
        Err(e) => assert_eq!(*e, ScannerErr::UnexpectedCharacter(1)),
        Ok(t) => panic!("unexpected token {:?}", t),
    }
    expect_token(&items[2], Type::Minus, "-", 1);
}

#[test]
fn punctuation_in_order() {
    let items = scan_all("(){},.-+;*");
    let kinds = [
        Type::LeftParen,
        Type::RightParen,
        Type::LeftBrace,
        Type::RightBrace,
        Type::Comma,
        Type::Dot,
        Type::Minus,
        Type::Plus,
        Type::Semicolon,
        Type::Star,
    ];
    assert_eq!(items.len(), kinds.len());
    for (item, kind) in items.iter().zip(kinds.iter()) {
        assert_eq!(tok(item).token_type, *kind);
    }
}

#[test]
fn lines_advance_over_newlines_and_blanks() {
    let items = scan_all(" \t\r\n\n  x\ny");
    assert_eq!(items.len(), 2);
    expect_token(&items[0], Type::Identifier, "x", 3);
    expect_token(&items[1], Type::Identifier, "y", 4);
}

#[test]
fn empty_and_blank_sources_hand_out_nothing() {
    assert!(scan_all("").is_empty());
    assert!(scan_all("  \n\t// only a comment").is_empty());
}

#[test]
fn non_ascii_outside_a_string_is_unexpected() {
    let items = scan_all("é");
    assert_eq!(items.len(), 2);
    for item in items.iter() {
        match item {
            Err(e) => assert_eq!(*e, ScannerErr::UnexpectedCharacter(1)),
            Ok(t) => panic!("unexpected token {:?}", t),
        }
    }
}

#[test]
fn display_names() {
    assert_eq!(Type::LeftParen.name(), "left_paren");
    assert_eq!(Type::BangEqual.name(), "bang_equal");
    assert_eq!(Type::GreaterEqual.name(), "greater_equal");
    assert_eq!(Type::String.name(), "string");
    assert_eq!(Type::While.name(), "while");
    assert_eq!(Type::EOF.name(), "eof");
}

#[test]
fn error_lines_and_messages() {
    assert_eq!(ScannerErr::UnexpectedCharacter(4).line(), 4);
    assert_eq!(ScannerErr::BadUtf8(5).line(), 5);
    assert_eq!(ScannerErr::UnterminatedString(6).line(), 6);
    assert_eq!(ScannerErr::UnexpectedCharacter(1).message(), "Unexpected character.");
    assert_eq!(ScannerErr::BadUtf8(1).message(), "Bad UTF-8.");
    assert_eq!(ScannerErr::UnterminatedString(1).message(), "Unterminated string.");
}

#[test]
fn run_appends_end_marker_after_last_token_line() {
    let mut lox = Lox::new();
    let items = lox.run("a\nb\n\n");
    assert_eq!(items.len(), 3);
    expect_token(&items[0], Type::Identifier, "a", 1);
    expect_token(&items[1], Type::Identifier, "b", 2);
    expect_token(&items[2], Type::EOF, "\0", 3);
    assert!(!lox.had_error());
}

#[test]
fn run_on_empty_source_ends_on_line_one() {
    let mut lox = Lox::new();
    let items = lox.run("");
    assert_eq!(items.len(), 1);
    expect_token(&items[0], Type::EOF, "\0", 1);
}

#[test]
fn run_end_marker_skips_trailing_errors() {
    let mut lox = Lox::new();
    let items = lox.run("x\n@");
    assert_eq!(items.len(), 3);
    assert!(items[1].is_err());
    expect_token(&items[2], Type::EOF, "\0", 2);
    assert!(lox.had_error());
}

#[test]
fn error_flag_is_set_and_reset() {
    let mut lox = Lox::new();
    assert!(!lox.had_error());
    lox.error(3, "Unexpected character.");
    assert!(lox.had_error());
    lox.reset_error();
    assert!(!lox.had_error());
}
