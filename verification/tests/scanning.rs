use pico_lambda::scanner::{Scanner, Token, TokenType};

fn plain(ttype: TokenType) -> Token {
    Token { ttype, identifier: None }
}

fn var(c: char) -> Token {
    Token { ttype: TokenType::Var, identifier: Some(c) }
}

fn eof() -> Token {
    plain(TokenType::EOF)
}

#[test]
fn empty_text_scans_to_eof_alone() {
    assert_eq!(Scanner::scan_str(""), vec![eof()]);
}

#[test]
fn each_special_character_has_its_token() {
    assert_eq!(
        Scanner::scan_str("λ\\.()"),
        vec![
            plain(TokenType::Lambda),
            plain(TokenType::Lambda),
            plain(TokenType::Dot),
            plain(TokenType::LeftParen),
            plain(TokenType::RightParen),
            eof(),
        ]
    );
}

#[test]
fn identity_function_scans_to_four_tokens_and_eof() {
    assert_eq!(
        Scanner::scan_str("λx.x"),
        vec![plain(TokenType::Lambda), var('x'), plain(TokenType::Dot), var('x'), eof()]
    );
}

#[test]
fn backslash_is_a_lambda_too() {
    assert_eq!(Scanner::scan_str("\\x.x"), Scanner::scan_str("λx.x"));
}

#[test]
fn each_letter_is_a_variable_of_its_own() {
    assert_eq!(Scanner::scan_str("abc"), vec![var('a'), var('b'), var('c'), eof()]);
    assert_eq!(Scanner::scan_str("AzZ"), vec![var('A'), var('z'), var('Z'), eof()]);
}

#[test]
fn letters_beyond_ascii_are_variables() {
    assert_eq!(Scanner::scan_str("é京β"), vec![var('é'), var('京'), var('β'), eof()]);
}

#[test]
fn symbols_beyond_ascii_are_dropped() {
    assert_eq!(Scanner::scan_str("→💝x\u{a0}\u{3000}×÷"), vec![var('x'), eof()]);
}

#[test]
fn blanks_digits_and_other_punctuation_are_dropped() {
    assert_eq!(Scanner::scan_str(" \t\r\n0123456789"), vec![eof()]);
    assert_eq!(Scanner::scan_str("!\"#$%&'*+,-/:;<=>?@[]^_`{|}~"), vec![eof()]);
    assert_eq!(Scanner::scan_str("x1 y2"), vec![var('x'), var('y'), eof()]);
}

#[test]
fn characters_next_to_the_letters_of_ascii_are_dropped() {
    assert_eq!(Scanner::scan_str("@[`{"), vec![eof()]);
    assert_eq!(Scanner::scan_str("\u{7f}\u{80}"), vec![eof()]);
}

#[test]
fn eof_is_last_and_occurs_once() {
    for text in ["", "x", "λx.x", "(f x) y", "  12 ", "EOF", "λλ..(("] {
        let tokens = Scanner::scan_str(text);
        let (last, rest) = tokens.split_last().unwrap();
        assert_eq!(*last, eof());
        assert!(rest.iter().all(|token| token.ttype != TokenType::EOF));
    }
}

#[test]
fn only_variables_carry_an_identifier() {
    for token in Scanner::scan_str("(λx.x y) \\z.z") {
        assert_eq!(token.ttype == TokenType::Var, token.identifier.is_some());
    }
}

#[test]
fn skipped_characters_change_no_token() {
    let bare = Scanner::scan_str("(λx.xy)");
    assert_eq!(Scanner::scan_str("( λ x . x y )"), bare);
    assert_eq!(Scanner::scan_str("\t(λx.\n  x 1 y)  "), bare);
    assert_eq!(Scanner::scan_str("(,λ!x;.x-y?)"), bare);
    assert_eq!(Scanner::scan_str("(λx.x   y)"), Scanner::scan_str("(λx.x y)"));
}

#[test]
fn scanner_stepwise_gives_what_scan_str_gives() {
    let mut scanner = Scanner::new("(f x)");
    assert_eq!(scanner.scan_tokens(), Scanner::scan_str("(f x)"));
}

#[test]
fn scanning_again_gives_the_same_tokens() {
    let mut scanner = Scanner::new("x");
    assert_eq!(scanner.scan_tokens(), vec![var('x'), eof()]);
    assert_eq!(scanner.scan_tokens(), vec![var('x'), eof()]);
    assert_eq!(scanner.scan_tokens(), Scanner::scan_str("x"));
}

#[test]
fn scanning_an_empty_text_again_gives_one_eof() {
    let mut scanner = Scanner::new("");
    assert_eq!(scanner.scan_tokens(), vec![eof()]);
    assert_eq!(scanner.scan_tokens(), vec![eof()]);
}

#[test]
fn every_scan_of_a_scanner_ends_with_its_only_eof() {
    let mut scanner = Scanner::new("(λx.x) EOF");
    for _ in 0..3 {
        let tokens = scanner.scan_tokens();
        let (last, rest) = tokens.split_last().unwrap();
        assert_eq!(*last, eof());
        assert!(rest.iter().all(|token| token.ttype != TokenType::EOF));
    }
}

#[test]
fn labels_quote_the_lexeme() {
    assert_eq!(plain(TokenType::Lambda).label(), "'λ'");
    assert_eq!(plain(TokenType::LeftParen).label(), "'('");
    assert_eq!(plain(TokenType::RightParen).label(), "')'");
    assert_eq!(plain(TokenType::Dot).label(), "'.'");
    assert_eq!(var('x').label(), "'x'");
    assert_eq!(eof().label(), "'EOF'");
}

#[test]
fn label_of_a_scanned_lambda_is_the_same_for_both_spellings() {
    let tokens = Scanner::scan_str("\\");
    assert_eq!(tokens[0].label(), "'λ'");
}
