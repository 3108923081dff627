//! The grammar, as a function from a token sequence and a position in it to
//! the term that starts there and the position behind it.
//!
//! ```text
//! term        ::= grouping
//! grouping    ::= "(" grouping ")" | application
//! application ::= atom term?
//! atom        ::= function | variable
//! function    ::= Lambda Var Dot grouping
//! variable    ::= Var
//! ```
//!
//! Parentheses leave no node in the tree. An application nests to the right:
//! behind its atom, all that is left of the current grouping is its argument.
//! The first failure is the result; nothing is recovered.

use vstd::prelude::*;
use crate::ast::AST;
use crate::parser::ParserError;
use crate::scanner::{scan, Token, TokenType};

verus! {

/// What a rule yields at a position: the term and the position behind it, or
/// the failure.
pub type Outcome = Result<(AST, int), ParserError>;

/// The outcome of a rule that succeeds: `tree`, and `next` the position
/// behind it.
pub open spec fn yields(tree: AST, next: int) -> Outcome {
    Ok((tree, next))
}

/// The kind of the token at `pos`. Beyond the tokens the input reads as
/// ended; where the tokens end with an `EOF`, no rule looks there.
pub open spec fn kind_at(tokens: Seq<Token>, pos: int) -> TokenType {
    if 0 <= pos < tokens.len() {
        tokens[pos].ttype
    } else {
        TokenType::EOF
    }
}

/// The kinds of token at which an application stops looking for an argument.
pub open spec fn ends_application(kind: TokenType) -> bool {
    kind == TokenType::EOF || kind == TokenType::RightParen
}

/// `term ::= grouping`
pub open spec fn term(tokens: Seq<Token>, pos: int) -> Outcome {
    grouping(tokens, pos)
}

/// `grouping ::= "(" grouping ")" | application`
pub open spec fn grouping(tokens: Seq<Token>, pos: int) -> Outcome
    decreases tokens.len() - pos, 3int,
{
    if kind_at(tokens, pos) == TokenType::LeftParen {
        match grouping(tokens, pos + 1) {
            Ok((inner, next)) => if kind_at(tokens, next) == TokenType::RightParen {
                Ok((inner, next + 1))
            } else {
                Err(ParserError::Expected(TokenType::RightParen))
            },
            Err(e) => Err(e),
        }
    } else {
        application(tokens, pos)
    }
}

/// `application ::= atom term?`
///
/// An atom holds at least one token ([`lemma_atom_advances`]), so `next > pos`
/// is true whenever it is asked; the question stands here to make the
/// recursion well founded on its face.
pub open spec fn application(tokens: Seq<Token>, pos: int) -> Outcome
    decreases tokens.len() - pos, 2int,
{
    match atom(tokens, pos) {
        Ok((func, next)) => if ends_application(kind_at(tokens, next)) || next <= pos {
            Ok((func, next))
        } else {
            match grouping(tokens, next) {
                Ok((arg, end)) => Ok(
                    (AST::Application { function: Box::new(func), argument: Box::new(arg) }, end),
                ),
                Err(e) => Err(e),
            }
        },
        Err(e) => Err(e),
    }
}

/// `atom ::= function | variable`
pub open spec fn atom(tokens: Seq<Token>, pos: int) -> Outcome
    decreases tokens.len() - pos, 1int,
{
    if kind_at(tokens, pos) == TokenType::Lambda {
        function(tokens, pos)
    } else if kind_at(tokens, pos) == TokenType::Var {
        variable(tokens, pos)
    } else {
        Err(ParserError::ExpectedAtom)
    }
}

/// `function ::= Lambda Var Dot grouping`
pub open spec fn function(tokens: Seq<Token>, pos: int) -> Outcome
    decreases tokens.len() - pos, 0int,
{
    if kind_at(tokens, pos) != TokenType::Lambda {
        Err(ParserError::Expected(TokenType::Lambda))
    } else if kind_at(tokens, pos + 1) != TokenType::Var {
        Err(ParserError::Expected(TokenType::Var))
    } else if kind_at(tokens, pos + 2) != TokenType::Dot {
        Err(ParserError::Expected(TokenType::Dot))
    } else {
        match grouping(tokens, pos + 3) {
            Ok((body, next)) => Ok(
                (
                    AST::Function {
                        parameter: tokens[pos + 1].identifier->0,
                        body: Box::new(body),
                    },
                    next,
                ),
            ),
            Err(e) => Err(e),
        }
    }
}

/// `variable ::= Var`
pub open spec fn variable(tokens: Seq<Token>, pos: int) -> Outcome {
    if kind_at(tokens, pos) == TokenType::Var {
        Ok((AST::Variable(tokens[pos].identifier->0), pos + 1))
    } else {
        Err(ParserError::Expected(TokenType::Var))
    }
}

/// The term that `tokens` start with. What follows the term is not looked at.
pub open spec fn parse(tokens: Seq<Token>) -> Result<AST, ParserError> {
    match term(tokens, 0) {
        Ok((tree, _)) => Ok(tree),
        Err(e) => Err(e),
    }
}

/// The term that the text starts with, once it is scanned.
pub open spec fn parse_text(text: Seq<char>) -> Result<AST, ParserError> {
    parse(scan(text))
}

/// A rule that yields a term has read at least one token, and none beyond
/// the last.
pub open spec fn advances(outcome: Outcome, tokens: Seq<Token>, pos: int) -> bool {
    outcome matches Ok((_, next)) ==> pos < next <= tokens.len()
}

/// Every rule that succeeds moves forward and stays within the tokens.
pub proof fn lemma_rules_advance(tokens: Seq<Token>, pos: int)
    ensures
        advances(grouping(tokens, pos), tokens, pos),
        advances(application(tokens, pos), tokens, pos),
        advances(atom(tokens, pos), tokens, pos),
        advances(function(tokens, pos), tokens, pos),
        advances(variable(tokens, pos), tokens, pos),
    decreases tokens.len() - pos,
{
    if kind_at(tokens, pos) == TokenType::LeftParen {
        lemma_rules_advance(tokens, pos + 1);
    }
    if kind_at(tokens, pos) == TokenType::Lambda && kind_at(tokens, pos + 1) == TokenType::Var
        && kind_at(tokens, pos + 2) == TokenType::Dot {
        lemma_rules_advance(tokens, pos + 3);
    }
    if let Ok((_, next)) = atom(tokens, pos) {
        if !ends_application(kind_at(tokens, next)) {
            lemma_rules_advance(tokens, next);
        }
    }
}

/// An atom is never empty.
pub proof fn lemma_atom_advances(tokens: Seq<Token>, pos: int)
    ensures
        advances(atom(tokens, pos), tokens, pos),
{
    lemma_rules_advance(tokens, pos);
}

} // verus!
