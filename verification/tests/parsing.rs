use pico_lambda::ast::AST;
use pico_lambda::parser::{Parser, ParserError};
use pico_lambda::scanner::{Scanner, Token, TokenType};

fn var(c: char) -> AST {
    AST::Variable(c)
}

fn lambda(parameter: char, body: AST) -> AST {
    AST::Function { parameter, body: Box::new(body) }
}

fn apply(function: AST, argument: AST) -> AST {
    AST::Application { function: Box::new(function), argument: Box::new(argument) }
}

#[test]
fn a_letter_is_a_variable() {
    assert_eq!(Parser::parse_str("x"), Ok(AST::Variable('x')));
}

#[test]
fn lambda_parameter_dot_body_is_a_function() {
    assert_eq!(
        Parser::parse_str("λx.x"),
        Ok(AST::Function { parameter: 'x', body: Box::new(AST::Variable('x')) })
    );
    assert_eq!(Parser::parse_str("\\x.x"), Parser::parse_str("λx.x"));
}

#[test]
fn a_group_is_a_whole_term_and_what_follows_it_is_left_unread() {
    assert_eq!(Parser::parse_str("(λx.x) y"), Ok(lambda('x', var('x'))));
    assert_eq!(Parser::parse_str("(x) y"), Ok(var('x')));
    assert_eq!(Parser::parse_str("(f x) y"), Ok(apply(var('f'), var('x'))));
}

#[test]
fn a_function_with_a_grouped_body_is_applied_to_what_follows() {
    assert_eq!(Parser::parse_str("λx.(x) y"), Ok(apply(lambda('x', var('x')), var('y'))));
}

#[test]
fn application_nests_to_the_right() {
    assert_eq!(
        Parser::parse_str("f x y"),
        Ok(AST::Application {
            function: Box::new(AST::Variable('f')),
            argument: Box::new(AST::Application {
                function: Box::new(AST::Variable('x')),
                argument: Box::new(AST::Variable('y')),
            }),
        })
    );
    assert_eq!(
        Parser::parse_str("a b c d"),
        Ok(apply(var('a'), apply(var('b'), apply(var('c'), var('d')))))
    );
}

#[test]
fn a_lone_parenthesis_fails() {
    assert_eq!(Parser::parse_str("("), Err(ParserError::ExpectedAtom));
    assert_eq!(Parser::parse_str(")"), Err(ParserError::ExpectedAtom));
}

#[test]
fn empty_text_fails_for_want_of_an_atom() {
    assert_eq!(Parser::parse_str(""), Err(ParserError::ExpectedAtom));
    assert_eq!(Parser::parse_str("  12 "), Err(ParserError::ExpectedAtom));
}

#[test]
fn parentheses_leave_no_node() {
    assert_eq!(Parser::parse_str("(x)"), Ok(var('x')));
    assert_eq!(Parser::parse_str("((x))"), Ok(var('x')));
    assert_eq!(Parser::parse_str("(((λx.x)))"), Ok(lambda('x', var('x'))));
    assert_eq!(Parser::parse_str("f (x)"), Ok(apply(var('f'), var('x'))));
    assert_eq!(Parser::parse_str("f (x y)"), Parser::parse_str("f x y"));
}

#[test]
fn the_body_of_a_function_runs_as_far_right_as_it_can() {
    assert_eq!(Parser::parse_str("λx.x y"), Ok(lambda('x', apply(var('x'), var('y')))));
    assert_eq!(Parser::parse_str("λx.λy.x y"), Ok(lambda('x', lambda('y', apply(var('x'), var('y'))))));
    assert_eq!(Parser::parse_str("(λx.x y) z"), Ok(lambda('x', apply(var('x'), var('y')))));
    assert_eq!(
        Parser::parse_str("f λx.x y"),
        Ok(apply(var('f'), lambda('x', apply(var('x'), var('y')))))
    );
}

#[test]
fn an_argument_may_be_a_group() {
    assert_eq!(
        Parser::parse_str("f (λx.x)"),
        Ok(apply(var('f'), lambda('x', var('x'))))
    );
    assert_eq!(
        Parser::parse_str("(f (g x))"),
        Ok(apply(var('f'), apply(var('g'), var('x'))))
    );
}

#[test]
fn tokens_behind_the_term_are_left_unread() {
    assert_eq!(Parser::parse_str("x)"), Ok(var('x')));
    assert_eq!(Parser::parse_str("x))) λ"), Ok(var('x')));
    assert_eq!(Parser::parse_str("(x) ."), Ok(var('x')));
}

#[test]
fn a_missing_parameter_is_an_expected_var() {
    assert_eq!(Parser::parse_str("λ"), Err(ParserError::Expected(TokenType::Var)));
    assert_eq!(Parser::parse_str("λ.x"), Err(ParserError::Expected(TokenType::Var)));
    assert_eq!(Parser::parse_str("λλx.x"), Err(ParserError::Expected(TokenType::Var)));
    assert_eq!(Parser::parse_str("λ(x).x"), Err(ParserError::Expected(TokenType::Var)));
}

#[test]
fn a_missing_dot_is_an_expected_dot() {
    assert_eq!(Parser::parse_str("λx"), Err(ParserError::Expected(TokenType::Dot)));
    assert_eq!(Parser::parse_str("λx x"), Err(ParserError::Expected(TokenType::Dot)));
    assert_eq!(Parser::parse_str("λxy.x"), Err(ParserError::Expected(TokenType::Dot)));
}

#[test]
fn a_missing_closing_parenthesis_is_an_expected_right_paren() {
    assert_eq!(Parser::parse_str("(x"), Err(ParserError::Expected(TokenType::RightParen)));
    assert_eq!(Parser::parse_str("(f x"), Err(ParserError::Expected(TokenType::RightParen)));
    assert_eq!(Parser::parse_str("((x)"), Err(ParserError::Expected(TokenType::RightParen)));
    assert_eq!(Parser::parse_str("((x) y)"), Err(ParserError::Expected(TokenType::RightParen)));
    assert_eq!(Parser::parse_str("f ((x) y)"), Err(ParserError::Expected(TokenType::RightParen)));
}

#[test]
fn a_missing_atom_is_an_expected_atom() {
    assert_eq!(Parser::parse_str("."), Err(ParserError::ExpectedAtom));
    assert_eq!(Parser::parse_str("()"), Err(ParserError::ExpectedAtom));
    assert_eq!(Parser::parse_str("λx."), Err(ParserError::ExpectedAtom));
    assert_eq!(Parser::parse_str("λx.)"), Err(ParserError::ExpectedAtom));
    assert_eq!(Parser::parse_str("f ."), Err(ParserError::ExpectedAtom));
}

#[test]
fn the_first_failure_is_the_result() {
    assert_eq!(Parser::parse_str("(λ"), Err(ParserError::Expected(TokenType::Var)));
    assert_eq!(Parser::parse_str("(λx"), Err(ParserError::Expected(TokenType::Dot)));
    assert_eq!(Parser::parse_str("((("), Err(ParserError::ExpectedAtom));
    assert_eq!(Parser::parse_str("(f ."), Err(ParserError::ExpectedAtom));
}

#[test]
fn parse_str_is_scan_then_parse_tokens() {
    for text in ["x", "λx.x", "(λx.x) y", "f x y", "(", ")", "", "λx.(x) y", "(x"] {
        assert_eq!(Parser::parse_str(text), Parser::parse_tokens(Scanner::scan_str(text)));
    }
}

#[test]
fn parse_tokens_reads_tokens_built_by_hand() {
    let tokens = vec![
        Token { ttype: TokenType::Lambda, identifier: None },
        Token { ttype: TokenType::Var, identifier: Some('1') },
        Token { ttype: TokenType::Dot, identifier: None },
        Token { ttype: TokenType::Var, identifier: Some('1') },
        Token { ttype: TokenType::EOF, identifier: None },
    ];
    assert_eq!(Parser::parse_tokens(tokens), Ok(lambda('1', var('1'))));
}

#[test]
fn an_eof_amid_the_tokens_ends_the_term() {
    let tokens = vec![
        Token { ttype: TokenType::Var, identifier: Some('f') },
        Token { ttype: TokenType::EOF, identifier: None },
        Token { ttype: TokenType::Var, identifier: Some('x') },
        Token { ttype: TokenType::EOF, identifier: None },
    ];
    assert_eq!(Parser::parse_tokens(tokens), Ok(var('f')));
}
