//! The tokens that the serializer writes: what a lexer made of a source text,
//! held as plain values.

use crate::marker::{span_start, LineColumn};
use proc_macro2::{TokenStream, TokenTree};
use vstd::prelude::*;

verus! {

/// How a group of tokens is delimited.
#[derive(Debug, Clone, Copy, PartialEq, Eq, Structural)]
pub enum GroupDelimiter {
    /// `( ... )`
    Parenthesis,
    /// `{ ... }`
    Brace,
    /// `[ ... ]`
    Bracket,
    /// No visible delimiter.
    Invisible,
}

/// A lexical unit, with the position at which it starts.
#[derive(Debug)]
pub enum Token {
    /// A delimited sequence of tokens; it starts at its opening delimiter.
    Group { delimiter: GroupDelimiter, stream: Vec<Token>, start: LineColumn },
    /// A word: an identifier or a keyword.
    Ident { text: String, start: LineColumn },
    /// One punctuation character; `joint` where the next character of the
    /// source follows it immediately and is punctuation too.
    Punct { ch: char, joint: bool, start: LineColumn },
    /// A literal, as it was written.
    Literal { text: String, start: LineColumn },
}

impl Token {
    /// The position at which the token starts.
    pub open spec fn start(self) -> LineColumn {
        match self {
            Token::Group { start, .. } => start,
            Token::Ident { start, .. } => start,
            Token::Punct { start, .. } => start,
            Token::Literal { start, .. } => start,
        }
    }
}

/// The text that opens a group.
pub open spec fn open_text(delimiter: GroupDelimiter) -> Seq<char> {
    match delimiter {
        GroupDelimiter::Parenthesis => seq!['('],
        GroupDelimiter::Brace => seq!['{'],
        GroupDelimiter::Bracket => seq!['['],
        GroupDelimiter::Invisible => seq![],
    }
}

/// The text that closes a group.
pub open spec fn close_text(delimiter: GroupDelimiter) -> Seq<char> {
    match delimiter {
        GroupDelimiter::Parenthesis => seq![')'],
        GroupDelimiter::Brace => seq!['}'],
        GroupDelimiter::Bracket => seq![']'],
        GroupDelimiter::Invisible => seq![],
    }
}

/// The text of one token with nothing added: a group is its delimiters
/// around the texts of what it holds.
pub open spec fn token_text(token: Token) -> Seq<char>
    decreases token,
{
    match token {
        Token::Group { delimiter, stream, .. } => open_text(delimiter) + stream_text(stream@)
            + close_text(delimiter),
        Token::Ident { text, .. } => text@,
        Token::Punct { ch, .. } => seq![ch],
        Token::Literal { text, .. } => text@,
    }
}

/// The texts of a sequence of tokens, one after another with nothing
/// between them.
pub open spec fn stream_text(tokens: Seq<Token>) -> Seq<char>
    decreases tokens,
{
    if tokens.len() == 0 {
        Seq::<char>::empty()
    } else {
        stream_text(tokens.drop_last()) + token_text(tokens.last())
    }
}

/// A stream of tokens of `proc_macro2`.
#[verifier::external_type_specification]
#[verifier::external_body]
pub struct ExTokenStream(TokenStream);

/// One token of `proc_macro2`: a group, an identifier, a punctuation
/// character or a literal.
#[verifier::external_type_specification]
#[verifier::external_body]
pub struct ExTokenTree(TokenTree);

/// A delimiter of `proc_macro2`.
#[verifier::external_type_specification]
#[verifier::external_body]
pub struct ExDelimiter(proc_macro2::Delimiter);

/// What the lexer makes of a text: its tokens, or the position at which it
/// gave up.
pub uninterp spec fn lexed(content: Seq<char>) -> Result<Seq<Token>, LineColumn>;

/// `TokenStream::from_str`, the lexer: the tokens of `content`, each with
/// the line and column at which it starts in `content`; or, where `content`
/// is no sequence of tokens, the position that the lexer reports.
///
/// This holds of the lexer that `proc_macro2` brings along, which is the
/// one at work everywhere but inside a procedural macro. There the
/// compiler's own lexer takes its place, and the positions it gives are
/// not to be relied on: this library is not for use inside a procedural
/// macro.
#[verifier::external_body]
pub(crate) fn lex(content: &str) -> (tokens: Result<Vec<Token>, LineColumn>)
    ensures
        match tokens {
            Ok(list) => lexed(content@) == Ok::<Seq<Token>, LineColumn>(list@),
            Err(position) => lexed(content@) == Err::<Seq<Token>, LineColumn>(position),
        },
{
    match <TokenStream as core::str::FromStr>::from_str(content) {
        Ok(stream) => Ok(lower_stream(stream)),
        Err(error) => Err(span_start(error.span())),
    }
}

/// The tokens that a stream holds, in its order.
pub uninterp spec fn stream_tokens(stream: TokenStream) -> Seq<Token>;

/// The tokens of a stream, in its order: `TokenStream::into_iter`, which
/// hands out each token that the stream holds, once.
#[verifier::external_body]
pub(crate) fn lower_stream(stream: TokenStream) -> (tokens: Vec<Token>)
    ensures
        tokens@ == stream_tokens(stream),
{
    stream.into_iter().map(lower_tree).collect()
}

/// One token with what it holds: `Group::delimiter`, `Group::stream`,
/// `Punct::as_char`, `Punct::spacing`, the text that `to_string` gives for
/// an identifier and for a literal, and the start of `span`.
#[verifier::external_body]
pub(crate) fn lower_tree(tree: TokenTree) -> Token {
    let start = span_start(tree.span());
    match tree {
        TokenTree::Group(group) => Token::Group {
            delimiter: lower_delimiter(group.delimiter()),
            stream: lower_stream(group.stream()),
            start,
        },
        TokenTree::Ident(ident) => Token::Ident { text: ident.to_string(), start },
        TokenTree::Punct(punct) => Token::Punct {
            ch: punct.as_char(),
            joint: matches!(punct.spacing(), proc_macro2::Spacing::Joint),
            start,
        },
        TokenTree::Literal(literal) => Token::Literal { text: literal.to_string(), start },
    }
}

/// The delimiter of a group, variant for variant.
#[verifier::external_body]
pub(crate) fn lower_delimiter(delimiter: proc_macro2::Delimiter) -> GroupDelimiter {
    match delimiter {
        proc_macro2::Delimiter::Parenthesis => GroupDelimiter::Parenthesis,
        proc_macro2::Delimiter::Brace => GroupDelimiter::Brace,
        proc_macro2::Delimiter::Bracket => GroupDelimiter::Bracket,
        proc_macro2::Delimiter::None => GroupDelimiter::Invisible,
    }
}

} // verus!
