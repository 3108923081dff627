//! The recursive-descent parser: one method for each rule of the grammar, a
//! cursor over the tokens, and one token of lookahead.

use vstd::prelude::*;
use crate::ast::AST;
use crate::grammar::{
    application, atom, function, grouping, kind_at, parse, parse_text, term, variable, Outcome,
};
use crate::scanner::{well_formed, Scanner, Token, TokenType};

verus! {

/// Why a parse failed.
#[derive(Debug, Clone, Copy, PartialEq, Eq)]
pub enum ParserError {
    /// The grammar asks for a token of this kind, and another one stands there.
    Expected(TokenType),
    /// An atom has to start here, and the token is neither a lambda nor a
    /// variable.
    ExpectedAtom,
}

/// What parsing returns: the value, or why there is none.
pub type ParseResult<T> = Result<T, ParserError>;

/// A parse in progress: the tokens and a cursor into them.
pub struct Parser {
    current: usize,
    tokens: Vec<Token>,
}

impl Parser {
    /// The tokens being parsed.
    pub closed spec fn tokens(&self) -> Seq<Token> {
        self.tokens@
    }

    /// The index of the token that is looked at.
    pub closed spec fn position(&self) -> int {
        self.current as int
    }

    /// The tokens are well formed and the cursor stands on one of them.
    pub open spec fn well_formed(&self) -> bool {
        &&& well_formed(self.tokens())
        &&& 0 <= self.position() < self.tokens().len()
    }

    /// The cursor has not gone back since `before`, and no `EOF` is among
    /// the tokens that it has passed.
    pub open spec fn ahead_of(&self, before: &Parser) -> bool {
        &&& before.position() <= self.position()
        &&& forall|i: int|
            before.position() <= i < self.position() ==> kind_at(self.tokens(), i)
                != TokenType::EOF
    }

    /// What a rule's method leaves behind, given what the rule yields at the
    /// position where the method started: the same tokens, and the cursor
    /// ahead of where it was; then the rule's term as the result and the
    /// cursor behind the term, or the rule's failure.
    pub open spec fn follows(&self, before: &Parser, result: ParseResult<AST>, rule: Outcome) -> bool {
        &&& self.well_formed()
        &&& self.tokens() == before.tokens()
        &&& self.ahead_of(before)
        &&& match rule {
            Ok((tree, next)) => result == Ok::<AST, ParserError>(tree) && self.position() == next
                && next > before.position(),
            Err(e) => result == Err::<AST, ParserError>(e),
        }
    }

    /// Scans `src` and parses the tokens.
    pub fn parse_str(src: &str) -> (result: ParseResult<AST>)
        ensures
            result == parse_text(src@),
    {
        let tokens = Scanner::scan_str(src);
        Parser::parse_tokens(tokens)
    }

    /// Parses the term that `tokens` start with. Tokens that follow the term
    /// are left unread.
    pub fn parse_tokens(tokens: Vec<Token>) -> (result: ParseResult<AST>)
        requires
            well_formed(tokens@),
        ensures
            result == parse(tokens@),
    {
        let mut parser = Parser { current: 0, tokens };
        parser.parse_term()
    }

    /// `term ::= grouping`
    fn parse_term(&mut self) -> (result: ParseResult<AST>)
        requires
            old(self).well_formed(),
        ensures
            final(self).follows(old(self), result, term(old(self).tokens(), old(self).position())),
        decreases old(self).tokens().len() - old(self).position(), 4int,
    {
        self.parse_grouping()
    }

    /// `grouping ::= "(" grouping ")" | application`
    ///
    /// A failure inside the parentheses is the result as it stands: the
    /// closing parenthesis is asked for only behind a term.
    fn parse_grouping(&mut self) -> (result: ParseResult<AST>)
        requires
            old(self).well_formed(),
        ensures
            final(self).follows(
                old(self),
                result,
                grouping(old(self).tokens(), old(self).position()),
            ),
        decreases old(self).tokens().len() - old(self).position(), 3int,
    {
        if self.matches(TokenType::LeftParen) {
            self.consume(TokenType::LeftParen)?;
            let term = self.parse_grouping()?;
            self.consume(TokenType::RightParen)?;

            Ok(term)
        } else {
            self.parse_application()
        }
    }

    /// `application ::= atom term?`
    fn parse_application(&mut self) -> (result: ParseResult<AST>)
        requires
            old(self).well_formed(),
        ensures
            final(self).follows(
                old(self),
                result,
                application(old(self).tokens(), old(self).position()),
            ),
        decreases old(self).tokens().len() - old(self).position(), 2int,
    {
        let func = self.parse_atom()?;

        if self.matches(TokenType::EOF) || self.matches(TokenType::RightParen) {
            Ok(func)
        } else {
            let arg = self.parse_grouping()?;
            Ok(AST::Application { function: Box::new(func), argument: Box::new(arg) })
        }
    }

    /// `atom ::= function | variable`
    fn parse_atom(&mut self) -> (result: ParseResult<AST>)
        requires
            old(self).well_formed(),
        ensures
            final(self).follows(old(self), result, atom(old(self).tokens(), old(self).position())),
            kind_at(old(self).tokens(), old(self).position()) != TokenType::Lambda && kind_at(
                old(self).tokens(),
                old(self).position(),
            ) != TokenType::Var ==> final(self).position() == old(self).position(),
        decreases old(self).tokens().len() - old(self).position(), 1int,
    {
        if self.matches(TokenType::Lambda) {
            self.parse_function()
        } else if self.matches(TokenType::Var) {
            self.parse_variable()
        } else {
            Err(ParserError::ExpectedAtom)
        }
    }

    /// `function ::= Lambda Var Dot grouping`
    fn parse_function(&mut self) -> (result: ParseResult<AST>)
        requires
            old(self).well_formed(),
        ensures
            final(self).follows(
                old(self),
                result,
                function(old(self).tokens(), old(self).position()),
            ),
        decreases old(self).tokens().len() - old(self).position(), 0int,
    {
        self.consume(TokenType::Lambda)?;
        let parameter = self.consume(TokenType::Var)?.identifier.unwrap();
        self.consume(TokenType::Dot)?;
        let body = self.parse_grouping()?;

        Ok(AST::Function { parameter, body: Box::new(body) })
    }

    /// `variable ::= Var`
    fn parse_variable(&mut self) -> (result: ParseResult<AST>)
        requires
            old(self).well_formed(),
        ensures
            final(self).follows(
                old(self),
                result,
                variable(old(self).tokens(), old(self).position()),
            ),
            result is Err ==> final(self).position() == old(self).position(),
    {
        let tok = self.consume(TokenType::Var)?;
        let identifier = tok.identifier.unwrap();

        Ok(AST::Variable(identifier))
    }

    /// Whether the token under the cursor is of kind `ttype`. The cursor
    /// stays.
    fn matches(&self, ttype: TokenType) -> (found: bool)
        requires
            self.well_formed(),
        ensures
            found == (kind_at(self.tokens(), self.position()) == ttype),
    {
        self.tokens[self.current].ttype == ttype
    }

    /// Hands out the token under the cursor and moves the cursor past it.
    fn advance(&mut self) -> (token: Token)
        requires
            old(self).well_formed(),
            kind_at(old(self).tokens(), old(self).position()) != TokenType::EOF,
        ensures
            final(self).well_formed(),
            final(self).tokens() == old(self).tokens(),
            final(self).position() == old(self).position() + 1,
            token == old(self).tokens()[old(self).position()],
    {
        assert(self.current < self.tokens.len());
        let token = self.tokens[self.current].clone();
        self.current += 1;
        token
    }

    /// Takes the token under the cursor if it is of kind `ttype`, and fails
    /// with the cursor unmoved if it is not.
    fn consume(&mut self, ttype: TokenType) -> (result: ParseResult<Token>)
        requires
            old(self).well_formed(),
            ttype != TokenType::EOF,
        ensures
            final(self).well_formed(),
            final(self).tokens() == old(self).tokens(),
            result is Ok <==> kind_at(old(self).tokens(), old(self).position()) == ttype,
            result is Ok ==> result->Ok_0 == old(self).tokens()[old(self).position()],
            result is Ok ==> final(self).position() == old(self).position() + 1,
            result is Err ==> result->Err_0 == ParserError::Expected(ttype),
            result is Err ==> final(self).position() == old(self).position(),
    {
        if self.matches(ttype) {
            Ok(self.advance())
        } else {
            Err(ParserError::Expected(ttype))
        }
    }
}

} // verus!
