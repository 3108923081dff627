//! The syntax tree and its canonical text.

use vstd::prelude::*;

verus! {

/// A term of the lambda calculus. Identifiers are single characters.
#[derive(Debug, PartialEq, Eq)]
pub enum AST {
    Variable(char),
    Function { parameter: char, body: Box<AST> },
    Application { function: Box<AST>, argument: Box<AST> },
}

impl AST {
    /// The canonical text of the term: a variable is its character, a
    /// function is `λ`, its parameter, a dot and its body, and an application
    /// is its two parts in one pair of parentheses, a space between them.
    pub open spec fn rendering(self) -> Seq<char>
        decreases self,
    {
        match self {
            AST::Variable(ident) => seq![ident],
            AST::Function { parameter, body } => seq!['λ', parameter, '.'] + body.rendering(),
            AST::Application { function, argument } => seq!['('] + function.rendering() + seq![
                ' ',
            ] + argument.rendering() + seq![')'],
        }
    }

    /// Writes the canonical text of the term.
    pub fn render(&self) -> (text: String)
        ensures
            text@ == self.rendering(),
    {
        let mut text = String::new();
        self.render_onto(&mut text);
        text
    }

    /// Appends the canonical text of the term to `text`.
    fn render_onto(&self, text: &mut String)
        ensures
            final(text)@ == old(text)@ + self.rendering(),
        decreases self,
    {
        match self {
            AST::Variable(ident) => {
                text.push(*ident);
                assert(text@ =~= old(text)@ + self.rendering());
            },
            AST::Function { parameter, body } => {
                text.push('λ');
                text.push(*parameter);
                text.push('.');
                body.render_onto(text);
                assert(text@ =~= old(text)@ + self.rendering());
            },
            AST::Application { function, argument } => {
                text.push('(');
                function.render_onto(text);
                text.push(' ');
                argument.render_onto(text);
                text.push(')');
                assert(text@ =~= old(text)@ + self.rendering());
            },
        }
    }
}

} // verus!
