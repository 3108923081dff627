//! What an interactive session answers to a line of input. Reading the line
//! and showing the answer are left to the program around this library.

use vstd::prelude::*;
use crate::ast::AST;
use crate::grammar::parse_text;
use crate::parser::{ParseResult, Parser, ParserError};
use crate::scanner::chars_of;

verus! {

/// The answer to a line.
#[derive(Debug, PartialEq, Eq)]
pub enum Reply {
    /// The session is over.
    Quit,
    /// The line was a term; this is its canonical text.
    Show(String),
}

/// The word that ends a session.
pub open spec fn quit_word() -> Seq<char> {
    seq!['q', 'u', 'i', 't']
}

/// Whether the word `quit` stands anywhere in `line`.
pub open spec fn asks_to_quit(line: Seq<char>) -> bool {
    exists|i: int| 0 <= i && i + 4 <= line.len() && #[trigger] line.subrange(i, i + 4) == quit_word()
}

/// Whether the word `quit` stands anywhere in `line`.
fn holds_quit(line: &Vec<char>) -> (found: bool)
    ensures
        found == asks_to_quit(line@),
{
    if line.len() < 4 {
        return false;
    }
    let last: usize = line.len() - 4;
    let mut i: usize = 0;
    while i <= last
        invariant
            last == line.len() - 4,
            i <= last + 1,
            forall|j: int| 0 <= j < i ==> #[trigger] line@.subrange(j, j + 4) != quit_word(),
        decreases last + 1 - i,
    {
        let ghost window = line@.subrange(i as int, i + 4);
        if line[i] == 'q' && line[i + 1] == 'u' && line[i + 2] == 'i' && line[i + 3] == 't' {
            assert(window =~= quit_word());
            return true;
        }
        assert(window != quit_word()) by {
            assert(window[0] == line@[i as int]);
            assert(window[1] == line@[i + 1]);
            assert(window[2] == line@[i + 2]);
            assert(window[3] == line@[i + 3]);
        }
        i += 1;
    }
    false
}

/// Whether `reply` is the answer to `line`: a line that holds the word
/// `quit` ends the session, whatever else it holds; any other line is parsed,
/// and the answer is the text of its term, or the failure of the parse.
pub open spec fn answers(reply: ParseResult<Reply>, line: Seq<char>) -> bool {
    match reply {
        Ok(Reply::Quit) => asks_to_quit(line),
        Ok(Reply::Show(text)) => {
            &&& !asks_to_quit(line)
            &&& parse_text(line) matches Ok(tree)
            &&& text@ == tree.rendering()
        },
        Err(e) => !asks_to_quit(line) && parse_text(line) == Err::<AST, ParserError>(e),
    }
}

/// Answers one line of a session.
pub fn respond(line: &str) -> (reply: ParseResult<Reply>)
    ensures
        answers(reply, line@),
{
    let chars = chars_of(line);
    if holds_quit(&chars) {
        return Ok(Reply::Quit);
    }
    match Parser::parse_str(line) {
        Ok(tree) => Ok(Reply::Show(tree.render())),
        Err(e) => Err(e),
    }
}

} // verus!
