//! Writing a term and reading it back.
//!
//! The canonical text puts every application in parentheses and nothing
//! else, while the grammar lets the body of a function run as far to the
//! right as it can. So the text of a term is read back as that term exactly
//! when the term is *canonical*: its names are characters that scan as
//! variables, and whatever it applies is a variable, or a function whose body
//! is an application, which the parentheses of its own text bring to an end.

use vstd::prelude::*;
use crate::ast::AST;
use crate::parser::ParserError;
use crate::grammar::{
    application, atom, ends_application, function, grouping, kind_at, lemma_rules_advance,
    parse_text, variable, yields, Outcome,
};
use crate::scanner::{
    lemma_tokens_of_concat, scan, token_of, tokens_of, tokens_of_char, Token, TokenType,
};

verus! {

/// The characters that scan as a variable of their own name: the alphabetic
/// ones but `λ`.
pub open spec fn identifier(c: char) -> bool {
    token_of(c) == Some(Token::var(c))
}

/// Every variable among `tokens` is named by an identifier.
pub open spec fn lexical(tokens: Seq<Token>) -> bool {
    forall|i: int|
        0 <= i < tokens.len() && tokens[i].ttype == TokenType::Var ==> tokens[i].identifier is Some
            && identifier(tokens[i].identifier->0)
}

/// `part` stands in `tokens` from `pos` on.
pub open spec fn occurs_at(tokens: Seq<Token>, pos: int, part: Seq<Token>) -> bool {
    &&& 0 <= pos
    &&& pos + part.len() <= tokens.len()
    &&& tokens.subrange(pos, pos + part.len()) == part
}

impl AST {
    /// Every name in the term is an identifier.
    pub open spec fn well_named(self) -> bool
        decreases self,
    {
        match self {
            AST::Variable(ident) => identifier(ident),
            AST::Function { parameter, body } => identifier(parameter) && body.well_named(),
            AST::Application { function, argument } => function.well_named()
                && argument.well_named(),
        }
    }

    /// No application in the term applies an application. The grammar gives
    /// no other terms: what it applies is an atom.
    pub open spec fn atom_applied(self) -> bool
        decreases self,
    {
        match self {
            AST::Variable(_) => true,
            AST::Function { body, .. } => body.atom_applied(),
            AST::Application { function, argument } => !(*function is Application)
                && function.atom_applied() && argument.atom_applied(),
        }
    }

    /// Whether the term can be applied in canonical text: a variable can, and
    /// so can a function whose body is an application. The body of any other
    /// function would take the argument for its own, and an application
    /// would be read as a group, which no argument can follow.
    pub open spec fn applicable(self) -> bool {
        match self {
            AST::Variable(_) => true,
            AST::Function { body, .. } => *body is Application,
            AST::Application { .. } => false,
        }
    }

    /// Whatever is applied in the term is applicable.
    pub open spec fn well_applied(self) -> bool
        decreases self,
    {
        match self {
            AST::Variable(_) => true,
            AST::Function { body, .. } => body.well_applied(),
            AST::Application { function, argument } => function.applicable()
                && function.well_applied() && argument.well_applied(),
        }
    }

    /// The terms whose text is read back as themselves
    /// ([`lemma_reads_back_iff_canonical`]).
    pub open spec fn canonical(self) -> bool {
        self.well_named() && self.well_applied()
    }

    /// The tokens of the term's canonical text, given that the term is well
    /// named ([`lemma_tokens_of_rendering`]).
    pub open spec fn tokens(self) -> Seq<Token>
        decreases self,
    {
        match self {
            AST::Variable(ident) => seq![Token::var(ident)],
            AST::Function { parameter, body } => seq![
                Token::plain(TokenType::Lambda),
                Token::var(parameter),
                Token::plain(TokenType::Dot),
            ] + body.tokens(),
            AST::Application { function, argument } => seq![Token::plain(TokenType::LeftParen)]
                + function.tokens() + argument.tokens() + seq![Token::plain(TokenType::RightParen)],
        }
    }
}

/// What a rule yields is atom applied, and well named where the tokens are
/// lexical.
pub open spec fn shaped(outcome: Outcome, tokens: Seq<Token>) -> bool {
    outcome matches Ok((tree, _)) ==> tree.atom_applied() && (lexical(tokens) ==> tree.well_named())
}

/// The tokens of a text of one character.
proof fn lemma_tokens_of_one(c: char)
    ensures
        tokens_of(seq![c]) == tokens_of_char(c),
{
    let text = seq![c];
    assert(text.drop_last() =~= Seq::<char>::empty());
    assert(text.last() == c);
    assert(tokens_of(text.drop_last()) =~= Seq::<Token>::empty());
    assert(tokens_of(text) =~= tokens_of_char(c));
}

/// What the scanner makes of the text of a well-named term.
pub proof fn lemma_tokens_of_rendering(tree: AST)
    requires
        tree.well_named(),
    ensures
        tokens_of(tree.rendering()) == tree.tokens(),
    decreases tree,
{
    match tree {
        AST::Variable(ident) => {
            lemma_tokens_of_one(ident);
        },
        AST::Function { parameter, body } => {
            lemma_tokens_of_rendering(*body);
            let head = seq!['λ', parameter, '.'];
            assert(head =~= seq!['λ'] + seq![parameter] + seq!['.']);
            lemma_tokens_of_one('λ');
            lemma_tokens_of_one(parameter);
            lemma_tokens_of_one('.');
            lemma_tokens_of_concat(seq!['λ'], seq![parameter]);
            lemma_tokens_of_concat(seq!['λ'] + seq![parameter], seq!['.']);
            lemma_tokens_of_concat(head, body.rendering());
            assert(tokens_of(head) =~= seq![
                Token::plain(TokenType::Lambda),
                Token::var(parameter),
                Token::plain(TokenType::Dot),
            ]);
        },
        AST::Application { function, argument } => {
            lemma_tokens_of_rendering(*function);
            lemma_tokens_of_rendering(*argument);
            lemma_tokens_of_one('(');
            lemma_tokens_of_one(' ');
            lemma_tokens_of_one(')');
            let a = seq!['('];
            let b = a + function.rendering();
            let c = b + seq![' '];
            let d = c + argument.rendering();
            lemma_tokens_of_concat(a, function.rendering());
            lemma_tokens_of_concat(b, seq![' ']);
            lemma_tokens_of_concat(c, argument.rendering());
            lemma_tokens_of_concat(d, seq![')']);
            assert(tokens_of(tree.rendering()) =~= tree.tokens());
        },
    }
}

/// The text of a term starts with a token at which no application ends.
pub proof fn lemma_tokens_start(tree: AST)
    ensures
        tree.tokens().len() >= 1,
        !ends_application(tree.tokens()[0].ttype),
{
}

/// Where two parts stand one behind the other, each stands by itself.
proof fn lemma_occurs_split(tokens: Seq<Token>, pos: int, left: Seq<Token>, right: Seq<Token>)
    requires
        occurs_at(tokens, pos, left + right),
    ensures
        occurs_at(tokens, pos, left),
        occurs_at(tokens, pos + left.len(), right),
{
    let both = left + right;
    assert forall|k: int| 0 <= k < left.len() implies tokens[pos + k] == left[k] by {
        assert(tokens.subrange(pos, pos + both.len())[k] == both[k]);
    }
    assert forall|k: int| 0 <= k < right.len() implies tokens[pos + left.len() + k] == right[k] by {
        assert(tokens.subrange(pos, pos + both.len())[left.len() + k] == both[left.len() + k]);
    }
    assert(tokens.subrange(pos, pos + left.len()) =~= left);
    assert(tokens.subrange(pos + left.len(), pos + left.len() + right.len()) =~= right);
}

/// Where a part stands, its tokens are those of the sequence.
proof fn lemma_occurs_index(tokens: Seq<Token>, pos: int, part: Seq<Token>, k: int)
    requires
        occurs_at(tokens, pos, part),
        0 <= k < part.len(),
    ensures
        tokens[pos + k] == part[k],
        kind_at(tokens, pos + k) == part[k].ttype,
{
    assert(tokens.subrange(pos, pos + part.len())[k] == tokens[pos + k]);
}

/// Where the tokens of a function stand: its three leading tokens, then its
/// body.
proof fn lemma_occurs_function(tokens: Seq<Token>, pos: int, tree: AST)
    requires
        tree is Function,
        occurs_at(tokens, pos, tree.tokens()),
    ensures
        kind_at(tokens, pos) == TokenType::Lambda,
        tokens[pos + 1] == Token::var(tree->parameter),
        kind_at(tokens, pos + 1) == TokenType::Var,
        kind_at(tokens, pos + 2) == TokenType::Dot,
        occurs_at(tokens, pos + 3, tree->body.tokens()),
        tree.tokens().len() == 3 + tree->body.tokens().len(),
{
    let head = seq![
        Token::plain(TokenType::Lambda),
        Token::var(tree->parameter),
        Token::plain(TokenType::Dot),
    ];
    lemma_occurs_split(tokens, pos, head, tree->body.tokens());
    lemma_occurs_index(tokens, pos, head, 0);
    lemma_occurs_index(tokens, pos, head, 1);
    lemma_occurs_index(tokens, pos, head, 2);
}

/// Where the tokens of an application stand: a parenthesis, the function, the
/// argument, a parenthesis.
proof fn lemma_occurs_application(tokens: Seq<Token>, pos: int, tree: AST)
    requires
        tree is Application,
        occurs_at(tokens, pos, tree.tokens()),
    ensures
        kind_at(tokens, pos) == TokenType::LeftParen,
        occurs_at(tokens, pos + 1, tree->function.tokens()),
        occurs_at(tokens, pos + 1 + tree->function.tokens().len(), tree->argument.tokens()),
        kind_at(tokens, pos + tree.tokens().len() - 1) == TokenType::RightParen,
        tree.tokens().len() == 2 + tree->function.tokens().len() + tree->argument.tokens().len(),
{
    let open = seq![Token::plain(TokenType::LeftParen)];
    let close = seq![Token::plain(TokenType::RightParen)];
    let f = tree->function.tokens();
    let a = tree->argument.tokens();
    assert(tree.tokens() =~= open + (f + (a + close)));
    lemma_occurs_split(tokens, pos, open, f + (a + close));
    lemma_occurs_split(tokens, pos + 1, f, a + close);
    lemma_occurs_split(tokens, pos + 1 + f.len(), a, close);
    lemma_occurs_index(tokens, pos, open, 0);
    lemma_occurs_index(tokens, pos + 1 + f.len() + a.len(), close, 0);
}

/// The grammar reads the tokens of a term as that term, wherever they stand,
/// if the term is well applied, and if behind a term that is
/// no application stands a token at which an application ends.
pub proof fn lemma_grouping_reads(tree: AST, tokens: Seq<Token>, pos: int)
    requires
        tree.well_applied(),
        occurs_at(tokens, pos, tree.tokens()),
        tree is Application || ends_application(kind_at(tokens, pos + tree.tokens().len())),
    ensures
        grouping(tokens, pos) == yields(tree, pos + tree.tokens().len()),
    decreases tree,
{
    let end = pos + tree.tokens().len();
    match tree {
        AST::Variable(ident) => {
            lemma_occurs_index(tokens, pos, tree.tokens(), 0);
            assert(variable(tokens, pos) == yields(tree, pos + 1));
        },
        AST::Function { parameter, body } => {
            lemma_occurs_function(tokens, pos, tree);
            lemma_grouping_reads(*body, tokens, pos + 3);
            assert(function(tokens, pos) == yields(tree, end));
            assert(atom(tokens, pos) == function(tokens, pos));
            assert(application(tokens, pos) == atom(tokens, pos));
        },
        AST::Application { function: func, argument } => {
            lemma_occurs_application(tokens, pos, tree);
            lemma_tokens_start(*argument);
            let behind = pos + 1 + func.tokens().len();
            lemma_occurs_index(tokens, behind, argument.tokens(), 0);
            lemma_grouping_reads(*argument, tokens, behind);
            match *func {
                AST::Variable(ident) => {
                    lemma_occurs_index(tokens, pos + 1, func.tokens(), 0);
                    assert(atom(tokens, pos + 1) == yields(*func, behind));
                },
                AST::Function { parameter, body } => {
                    lemma_occurs_function(tokens, pos + 1, *func);
                    assert(func.well_applied());
                    lemma_grouping_reads(*body, tokens, pos + 4);
                    assert(function(tokens, pos + 1) == yields(*func, behind));
                    assert(atom(tokens, pos + 1) == function(tokens, pos + 1));
                },
                AST::Application { .. } => {},
            }
            assert(application(tokens, pos + 1) == yields(tree, end - 1));
            assert(grouping(tokens, pos + 1) == application(tokens, pos + 1));
        },
    }
}

/// Every rule yields terms that are atom applied, and well named where the
/// tokens are lexical.
pub proof fn lemma_rules_shaped(tokens: Seq<Token>, pos: int)
    ensures
        shaped(grouping(tokens, pos), tokens),
        shaped(application(tokens, pos), tokens),
        shaped(atom(tokens, pos), tokens),
        shaped(function(tokens, pos), tokens),
        shaped(variable(tokens, pos), tokens),
    decreases tokens.len() - pos,
{
    lemma_rules_advance(tokens, pos);
    if kind_at(tokens, pos) == TokenType::Lambda && kind_at(tokens, pos + 1) == TokenType::Var
        && kind_at(tokens, pos + 2) == TokenType::Dot {
        lemma_rules_shaped(tokens, pos + 3);
    }
    assert(shaped(function(tokens, pos), tokens));
    assert(shaped(variable(tokens, pos), tokens));
    if let Ok((func, next)) = atom(tokens, pos) {
        assert(!(func is Application));
        if !ends_application(kind_at(tokens, next)) {
            lemma_rules_shaped(tokens, next);
            if let Ok((arg, _)) = grouping(tokens, next) {
                let tree = AST::Application { function: Box::new(func), argument: Box::new(arg) };
                assert(tree.atom_applied());
                assert(lexical(tokens) ==> tree.well_named());
            }
        }
    }
    assert(shaped(application(tokens, pos), tokens));
    if kind_at(tokens, pos) == TokenType::LeftParen {
        lemma_rules_shaped(tokens, pos + 1);
    }
}

/// The variables of a text are named by identifiers.
pub proof fn lemma_tokens_are_lexical(text: Seq<char>)
    ensures
        lexical(tokens_of(text)),
        lexical(scan(text)),
    decreases text.len(),
{
    if text.len() > 0 {
        lemma_tokens_are_lexical(text.drop_last());
    }
}

/// Where the grammar reads the tokens of a term as that term, it reads all of
/// them and no more, the term is well applied, and behind a
/// term that is no application stands a token at which an application ends.
pub proof fn lemma_read_back_is_well_applied(tree: AST, tokens: Seq<Token>, pos: int)
    requires
        occurs_at(tokens, pos, tree.tokens()),
        grouping(tokens, pos) matches Ok((read, _)) && read == tree,
    ensures
        grouping(tokens, pos) == yields(tree, pos + tree.tokens().len()),
        tree.well_applied(),
        tree is Application || ends_application(kind_at(tokens, pos + tree.tokens().len())),
    decreases tree,
{
    lemma_rules_advance(tokens, pos);
    match tree {
        AST::Variable(ident) => {
            lemma_occurs_index(tokens, pos, tree.tokens(), 0);
        },
        AST::Function { parameter, body } => {
            lemma_occurs_function(tokens, pos, tree);
            lemma_rules_advance(tokens, pos + 3);
            lemma_read_back_is_well_applied(*body, tokens, pos + 3);
        },
        AST::Application { function: func, argument } => {
            lemma_occurs_application(tokens, pos, tree);
            lemma_tokens_start(*argument);
            let behind = pos + 1 + func.tokens().len();
            lemma_occurs_index(tokens, behind, argument.tokens(), 0);
            lemma_rules_advance(tokens, pos + 1);
            match *func {
                AST::Variable(ident) => {
                    lemma_occurs_index(tokens, pos + 1, func.tokens(), 0);
                    lemma_read_back_is_well_applied(*argument, tokens, behind);
                    assert(func.well_applied());
                },
                AST::Function { parameter, body } => {
                    lemma_occurs_function(tokens, pos + 1, *func);
                    lemma_rules_advance(tokens, pos + 4);
                    lemma_read_back_is_well_applied(*body, tokens, pos + 4);
                    lemma_read_back_is_well_applied(*argument, tokens, behind);
                    assert(func.well_applied());
                },
                AST::Application { .. } => {
                    lemma_rules_shaped(tokens, pos + 1);
                },
            }
        },
    }
}

/// The tokens of a well-named term stand at the start of the scan of its
/// text, an `EOF` behind them.
proof fn lemma_scan_of_rendering(tree: AST)
    requires
        tree.well_named(),
    ensures
        occurs_at(scan(tree.rendering()), 0, tree.tokens()),
        kind_at(scan(tree.rendering()), tree.tokens().len() as int) == TokenType::EOF,
{
    lemma_tokens_of_rendering(tree);
    let tokens = scan(tree.rendering());
    assert(tokens.subrange(0, tree.tokens().len() as int) =~= tree.tokens());
}

/// The text of a canonical term is read back as that term.
pub proof fn lemma_canonical_reads_back(tree: AST)
    requires
        tree.canonical(),
    ensures
        parse_text(tree.rendering()) == Ok::<AST, ParserError>(tree),
{
    lemma_scan_of_rendering(tree);
    lemma_grouping_reads(tree, scan(tree.rendering()), 0);
}

/// A term whose text is read back as that term is canonical.
pub proof fn lemma_read_back_is_canonical(tree: AST)
    requires
        parse_text(tree.rendering()) == Ok::<AST, ParserError>(tree),
    ensures
        tree.canonical(),
{
    let tokens = scan(tree.rendering());
    lemma_tokens_are_lexical(tree.rendering());
    lemma_rules_shaped(tokens, 0);
    lemma_scan_of_rendering(tree);
    lemma_read_back_is_well_applied(tree, tokens, 0);
}

/// The text of a term is read back as that term if and only if the term is
/// canonical.
pub proof fn lemma_reads_back_iff_canonical(tree: AST)
    ensures
        parse_text(tree.rendering()) == Ok::<AST, ParserError>(tree) <==> tree.canonical(),
{
    if tree.canonical() {
        lemma_canonical_reads_back(tree);
    }
    if parse_text(tree.rendering()) == Ok::<AST, ParserError>(tree) {
        lemma_read_back_is_canonical(tree);
    }
}

/// What a text parses to is well named, and applies atoms only.
pub proof fn lemma_parsed_shape(text: Seq<char>)
    ensures
        parse_text(text) matches Ok(tree) ==> tree.well_named() && tree.atom_applied(),
{
    lemma_tokens_are_lexical(text);
    lemma_rules_shaped(scan(text), 0);
}

/// Round trip: where a text parses to a well-applied term, the text of that
/// term parses to the same term.
pub proof fn lemma_round_trip(text: Seq<char>)
    requires
        parse_text(text) is Ok,
        parse_text(text)->Ok_0.well_applied(),
    ensures
        parse_text(parse_text(text)->Ok_0.rendering()) == parse_text(text),
{
    lemma_parsed_shape(text);
    lemma_canonical_reads_back(parse_text(text)->Ok_0);
}

/// No other parsed term makes the round trip: where a text parses to a term
/// that applies a function whose body is no application, the text of that
/// term does not parse to it.
pub proof fn lemma_round_trip_needs_well_applied(text: Seq<char>)
    requires
        parse_text(text) is Ok,
        !parse_text(text)->Ok_0.well_applied(),
    ensures
        parse_text(parse_text(text)->Ok_0.rendering()) != parse_text(text),
{
    lemma_reads_back_iff_canonical(parse_text(text)->Ok_0);
}

} // verus!
