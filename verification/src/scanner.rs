//! The scanner: one pass over the characters of a text, one token per
//! recognised character, and a closing `EOF`.
//!
//! The scanner is lenient: a character that starts no token is dropped
//! without a trace, and scanning never fails.

use vstd::prelude::*;
use vstd::slice::slice_to_vec;
use crate::std_specs::unicode_alphabetic;

verus! {

/// The kinds of token.
#[derive(Debug, Clone, Copy, PartialEq, Eq, Structural)]
pub enum TokenType {
    Lambda,
    Var,
    Dot,
    LeftParen,
    RightParen,
    EOF,
}

/// A token: its kind and, for a `Var`, the one character that names it.
#[derive(Debug, Clone, Copy, PartialEq, Eq, Structural)]
pub struct Token {
    pub ttype: TokenType,
    pub identifier: Option<char>,
}

impl Token {
    /// The token of kind `ttype` that carries no identifier.
    pub open spec fn plain(ttype: TokenType) -> Token {
        Token { ttype, identifier: None }
    }

    /// The variable token named `c`.
    pub open spec fn var(c: char) -> Token {
        Token { ttype: TokenType::Var, identifier: Some(c) }
    }

    /// The token that closes every scan.
    pub open spec fn eof() -> Token {
        Token::plain(TokenType::EOF)
    }

    /// What [`Token::label`] writes between the quotes.
    pub open spec fn lexeme(self) -> Seq<char> {
        match self.ttype {
            TokenType::Lambda => seq!['λ'],
            TokenType::LeftParen => seq!['('],
            TokenType::RightParen => seq![')'],
            TokenType::Dot => seq!['.'],
            TokenType::Var => seq![self.identifier->0],
            TokenType::EOF => seq!['E', 'O', 'F'],
        }
    }

    /// The token as it is shown in diagnostics: its lexeme in single quotes,
    /// `'EOF'` for the end of input.
    pub fn label(&self) -> (text: String)
        requires
            self.ttype == TokenType::Var ==> self.identifier is Some,
        ensures
            text@ == seq!['\''] + self.lexeme() + seq!['\''],
    {
        let mut text = String::new();
        text.push('\'');
        match self.ttype {
            TokenType::Lambda => text.push('λ'),
            TokenType::LeftParen => text.push('('),
            TokenType::RightParen => text.push(')'),
            TokenType::Dot => text.push('.'),
            TokenType::Var => text.push(self.identifier.unwrap()),
            TokenType::EOF => {
                text.push('E');
                text.push('O');
                text.push('F');
            },
        }
        text.push('\'');
        assert(text@ =~= seq!['\''] + self.lexeme() + seq!['\'']);
        text
    }
}

/// The letters of ASCII.
pub open spec fn ascii_letter(c: char) -> bool {
    ('a' <= c && c <= 'z') || ('A' <= c && c <= 'Z')
}

/// The alphabetic characters: within ASCII the letters, beyond it whatever
/// Unicode calls alphabetic.
pub open spec fn alphabetic(c: char) -> bool {
    if c <= '\x7f' {
        ascii_letter(c)
    } else {
        unicode_alphabetic(c)
    }
}

/// The token that the character `c` becomes, if any. The rules are tried in
/// this order, so `λ`, itself alphabetic, is always the lambda.
pub open spec fn token_of(c: char) -> Option<Token> {
    if c == 'λ' || c == '\\' {
        Some(Token::plain(TokenType::Lambda))
    } else if c == '.' {
        Some(Token::plain(TokenType::Dot))
    } else if c == '(' {
        Some(Token::plain(TokenType::LeftParen))
    } else if c == ')' {
        Some(Token::plain(TokenType::RightParen))
    } else if alphabetic(c) {
        Some(Token::var(c))
    } else {
        None
    }
}

/// The tokens that the character `c` adds to a scan: its token, or none.
pub open spec fn tokens_of_char(c: char) -> Seq<Token> {
    match token_of(c) {
        Some(token) => seq![token],
        None => Seq::empty(),
    }
}

/// The tokens of `text`, in order, without the closing `EOF`.
pub open spec fn tokens_of(text: Seq<char>) -> Seq<Token>
    decreases text.len(),
{
    if text.len() == 0 {
        Seq::empty()
    } else {
        tokens_of(text.drop_last()) + tokens_of_char(text.last())
    }
}

/// The result of scanning `text`: its tokens and one `EOF` after them.
pub open spec fn scan(text: Seq<char>) -> Seq<Token> {
    tokens_of(text).push(Token::eof())
}

/// A token sequence as the parser takes it: it ends with an `EOF`, and every
/// variable in it carries its identifier.
pub open spec fn well_formed(tokens: Seq<Token>) -> bool {
    &&& tokens.len() > 0
    &&& tokens.last().ttype == TokenType::EOF
    &&& forall|i: int|
        0 <= i < tokens.len() && tokens[i].ttype == TokenType::Var ==> tokens[i].identifier is Some
}

/// Whether `c` is alphabetic.
fn is_alphabetic(c: char) -> (b: bool)
    ensures
        b == alphabetic(c),
{
    if c <= '\x7f' {
        (c >= 'a' && c <= 'z') || (c >= 'A' && c <= 'Z')
    } else {
        c.is_alphabetic()
    }
}

/// The characters of `src`, one by one.
pub(crate) fn chars_of(src: &str) -> (chars: Vec<char>)
    ensures
        chars@ == src@,
{
    let mut chars: Vec<char> = Vec::new();
    for c in it: src.chars()
        invariant
            chars@ == src@.take(it.index() as int),
            it.seq() == src@,
    {
        chars.push(c);
    }
    chars
}

/// A scan in progress: the text, a cursor into it, and the tokens found so far.
pub struct Scanner {
    source: Vec<char>,
    current: usize,
    tokens: Vec<Token>,
}

impl Scanner {
    /// The text being scanned.
    pub closed spec fn source(&self) -> Seq<char> {
        self.source@
    }

    /// How many characters have been read.
    pub closed spec fn position(&self) -> nat {
        self.current as nat
    }

    /// The tokens that have been produced so far.
    pub closed spec fn emitted(&self) -> Seq<Token> {
        self.tokens@
    }

    /// Whether an `EOF` closes the tokens produced so far.
    pub open spec fn closed(&self) -> bool {
        self.emitted().len() > 0 && self.emitted().last().ttype == TokenType::EOF
    }

    /// The cursor lies within the text, or just behind it, and the tokens
    /// produced are those of the characters read; once all are read, an
    /// `EOF` may close them.
    pub open spec fn well_formed(&self) -> bool {
        &&& self.position() <= self.source().len()
        &&& {
            ||| self.emitted() == tokens_of(self.source().take(self.position() as int))
            ||| self.position() == self.source().len() && self.emitted() == scan(self.source())
        }
    }

    /// A scanner at the start of `src`, with no token produced yet.
    pub fn new(src: &str) -> (scanner: Scanner)
        ensures
            scanner.well_formed(),
            scanner.source() == src@,
            scanner.position() == 0,
            scanner.emitted() == Seq::<Token>::empty(),
    {
        let scanner = Scanner { source: chars_of(src), current: 0, tokens: Vec::new() };
        assert(scanner.source@.take(0) =~= Seq::<char>::empty());
        scanner
    }

    /// Scans `src` from start to end.
    pub fn scan_str(src: &str) -> (tokens: Vec<Token>)
        ensures
            tokens@ == scan(src@),
            well_formed(tokens@),
            tokens@.last() == Token::eof(),
            forall|i: int| 0 <= i < tokens@.len() - 1 ==> tokens@[i].ttype != TokenType::EOF,
    {
        let mut scanny = Scanner::new(src);
        scanny.scan_tokens()
    }

    /// Reads what is left of the text, closes the tokens with an `EOF` unless
    /// one closes them already, and returns a copy of them: the scan of the
    /// whole text, however far the scanner had come and however often it is
    /// asked.
    pub fn scan_tokens(&mut self) -> (tokens: Vec<Token>)
        requires
            old(self).well_formed(),
        ensures
            final(self).well_formed(),
            final(self).source() == old(self).source(),
            final(self).position() == old(self).source().len(),
            final(self).emitted() == tokens@,
            tokens@ == scan(old(self).source()),
            well_formed(tokens@),
            tokens@.last() == Token::eof(),
            forall|i: int| 0 <= i < tokens@.len() - 1 ==> tokens@[i].ttype != TokenType::EOF,
    {
        while !self.is_at_end()
            invariant
                self.well_formed(),
                self.source() == old(self).source(),
            decreases self.source.len() - self.current,
        {
            self.scan_token();
        }
        proof {
            assert(self.source@.take(self.current as int) =~= self.source@);
            lemma_tokens_hold_no_eof(self.source@);
        }
        if !self.is_closed() {
            self.add_token(TokenType::EOF, None);
        }
        proof {
            lemma_scan_ends_with_its_only_eof(self.source@);
            lemma_scan_is_well_formed(self.source@);
        }
        slice_to_vec(self.tokens.as_slice())
    }

    /// Reads one character and produces its token, if it has one.
    fn scan_token(&mut self)
        requires
            old(self).well_formed(),
            old(self).position() < old(self).source().len(),
        ensures
            final(self).well_formed(),
            final(self).source() == old(self).source(),
            final(self).position() == old(self).position() + 1,
            final(self).emitted() == old(self).emitted() + tokens_of_char(
                old(self).source()[old(self).position() as int],
            ),
    {
        let c = self.advance();
        if c == 'λ' || c == '\\' {
            self.add_token(TokenType::Lambda, None)
        } else if c == '.' {
            self.add_token(TokenType::Dot, None)
        } else if c == '(' {
            self.add_token(TokenType::LeftParen, None)
        } else if c == ')' {
            self.add_token(TokenType::RightParen, None)
        } else if is_alphabetic(c) {
            self.add_token(TokenType::Var, Some(c))
        }
        proof {
            let read = self.source@.take(self.current as int);
            assert(read.drop_last() =~= old(self).source@.take(old(self).current as int));
            assert(read.last() == c);
            assert(self.tokens@ =~= old(self).tokens@ + tokens_of_char(c));
        }
    }

    /// Whether every character has been read.
    fn is_at_end(&self) -> (done: bool)
        ensures
            done == (self.position() >= self.source().len()),
    {
        self.current >= self.source.len()
    }

    /// Whether an `EOF` closes the tokens produced so far.
    fn is_closed(&self) -> (closed: bool)
        ensures
            closed == self.closed(),
    {
        let count = self.tokens.len();
        count > 0 && self.tokens[count - 1].ttype == TokenType::EOF
    }

    /// Reads the next character.
    fn advance(&mut self) -> (chary: char)
        requires
            old(self).position() < old(self).source().len(),
        ensures
            chary == old(self).source()[old(self).position() as int],
            final(self).source() == old(self).source(),
            final(self).position() == old(self).position() + 1,
            final(self).emitted() == old(self).emitted(),
    {
        assert(self.current < self.source.len());
        let chary = self.source[self.current];
        self.current += 1;
        chary
    }

    /// Appends a token to those produced.
    fn add_token(&mut self, ttype: TokenType, identifier: Option<char>)
        ensures
            final(self).source() == old(self).source(),
            final(self).position() == old(self).position(),
            final(self).emitted() == old(self).emitted().push((Token { ttype, identifier })),
    {
        self.tokens.push(Token { ttype, identifier })
    }
}

/// Scanning never produces an `EOF` of its own: the tokens of a text hold
/// none.
pub proof fn lemma_tokens_hold_no_eof(text: Seq<char>)
    ensures
        forall|i: int| 0 <= i < tokens_of(text).len() ==> tokens_of(text)[i].ttype != TokenType::EOF,
    decreases text.len(),
{
    if text.len() > 0 {
        lemma_tokens_hold_no_eof(text.drop_last());
    }
}

/// Every scan ends with an `EOF`, and holds no other.
pub proof fn lemma_scan_ends_with_its_only_eof(text: Seq<char>)
    ensures
        scan(text).len() >= 1,
        scan(text).last() == Token::eof(),
        forall|i: int| 0 <= i < scan(text).len() - 1 ==> scan(text)[i].ttype != TokenType::EOF,
{
    lemma_tokens_hold_no_eof(text);
}

/// The tokens of two texts put together are the tokens of the one, then
/// those of the other.
pub proof fn lemma_tokens_of_concat(left: Seq<char>, right: Seq<char>)
    ensures
        tokens_of(left + right) == tokens_of(left) + tokens_of(right),
    decreases right.len(),
{
    if right.len() == 0 {
        assert(left + right =~= left);
        assert(tokens_of(left) + tokens_of(right) =~= tokens_of(left));
    } else {
        assert((left + right).drop_last() =~= left + right.drop_last());
        assert((left + right).last() == right.last());
        lemma_tokens_of_concat(left, right.drop_last());
        assert(tokens_of(left + right) =~= tokens_of(left) + tokens_of(right));
    }
}

/// A text of characters that start no token has no tokens.
pub proof fn lemma_tokens_of_skipped(gap: Seq<char>)
    requires
        forall|i: int| 0 <= i < gap.len() ==> token_of(gap[i]) is None,
    ensures
        tokens_of(gap) == Seq::<Token>::empty(),
    decreases gap.len(),
{
    if gap.len() > 0 {
        lemma_tokens_of_skipped(gap.drop_last());
    }
}

/// Scanning does not see what it skips: characters that start no token,
/// put in or taken out at any place of a text, leave its tokens as they
/// are.
pub proof fn lemma_scan_ignores_skipped(left: Seq<char>, gap: Seq<char>, right: Seq<char>)
    requires
        forall|i: int| 0 <= i < gap.len() ==> token_of(gap[i]) is None,
    ensures
        tokens_of(left + gap + right) == tokens_of(left + right),
        scan(left + gap + right) == scan(left + right),
{
    lemma_tokens_of_skipped(gap);
    lemma_tokens_of_concat(left, gap);
    lemma_tokens_of_concat(left + gap, right);
    lemma_tokens_of_concat(left, right);
    assert(tokens_of(left) + Seq::<Token>::empty() =~= tokens_of(left));
}

/// Within ASCII the scanner skips all but the letters and `\ . ( )`: blanks,
/// line ends, digits and the other punctuation start no token.
pub proof fn lemma_ascii_skipped(c: char)
    requires
        c <= '\x7f',
        !ascii_letter(c),
        c != '\\' && c != '.' && c != '(' && c != ')',
    ensures
        token_of(c) is None,
{
}

/// Every variable that a text gives carries its identifier.
pub proof fn lemma_tokens_carry_identifiers(text: Seq<char>)
    ensures
        forall|i: int|
            0 <= i < tokens_of(text).len() ==> (tokens_of(text)[i].ttype == TokenType::Var
                <==> tokens_of(text)[i].identifier is Some),
    decreases text.len(),
{
    if text.len() > 0 {
        lemma_tokens_carry_identifiers(text.drop_last());
    }
}

/// What the scanner gives, the parser takes.
pub proof fn lemma_scan_is_well_formed(text: Seq<char>)
    ensures
        well_formed(scan(text)),
{
    lemma_tokens_carry_identifiers(text);
}

} // verus!
