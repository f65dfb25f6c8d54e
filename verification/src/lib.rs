//! A lossless-token minifier for Rust source text.
//!
//! The token stream of a compilation unit is written back in the shortest
//! form that lexes to the same tokens; declarations that carry the
//! `rust_minify::skip` attribute are copied from the source unchanged.

pub mod attr;
pub mod fix;
pub mod laws;
pub mod marker;
pub mod serializer;
pub mod token;

pub use crate::serializer::{MinifyMode, SpaceCollapsing, State};

use crate::attr::{
    any_marks_skip, attributes_of, classify, item_attributes, item_attributes_mut,
    lower_attributes, metas_of, strip_attributes, stripped_attributes, with_attributes,
};
use crate::fix::{normalized, Visitor};
use crate::marker::{
    marks_of, slice_of, span_end, span_start, spans_of, tidied, LineColumn, LinedSource,
    SpanCollector,
};
use crate::serializer::{
    after_raw, after_tokens, after_verbatim, PrevToken, StateView,
};
use crate::token::{lex, lexed, lower_stream, Token};
use core::ops::Range;
use vstd::prelude::*;

verus! {

/// What a caller may ask of the minifier.
#[derive(Debug, Clone, Copy)]
pub struct MinifyOption {
    /// Leave the marker out of a preserved declaration.
    pub remove_skip: bool,
    /// Put `#[cfg_attr(any(),rustfmt::skip)]` before each minified
    /// declaration, so that a formatter leaves it alone.
    pub add_rustfmt_skip: bool,
}

impl Default for MinifyOption {
    fn default() -> (option: Self)
        ensures
            !option.remove_skip,
            !option.add_rustfmt_skip,
    {
        Self { remove_skip: false, add_rustfmt_skip: false }
    }
}

/// The text is no sequence of tokens: the lexer gave up at `position`.
#[derive(Debug, Clone, Copy, PartialEq, Eq, Structural)]
pub struct LexError {
    pub position: LineColumn,
}

/// What the minifier needs to know of one top-level declaration.
#[derive(Debug)]
pub struct Declaration {
    /// Whether the declaration carries the marker.
    pub preserve: bool,
    /// Where the declaration stands in the source.
    pub span: Range<LineColumn>,
    /// The tokens of the declaration, normalized.
    pub tokens: Vec<Token>,
}

/// A declaration as contracts see it.
pub struct DeclarationView {
    /// Whether the declaration carries the marker.
    pub preserve: bool,
    /// Where the declaration stands in the source.
    pub span: Range<LineColumn>,
    /// The tokens of the declaration, normalized.
    pub tokens: Seq<Token>,
}

impl View for Declaration {
    type V = DeclarationView;

    open spec fn view(&self) -> DeclarationView {
        DeclarationView { preserve: self.preserve, span: self.span, tokens: self.tokens@ }
    }
}

/// The declarations of a file as contracts see them.
pub open spec fn views(items: Seq<Declaration>) -> Seq<DeclarationView> {
    Seq::new(items.len(), |i: int| items[i]@)
}

/// The attribute that tells a formatter to leave a declaration alone.
pub open spec fn hint_text() -> Seq<char> {
    "#[cfg_attr(any(),rustfmt::skip)]"@
}

/// The state in which a serializer starts.
pub open spec fn start_view(
    bitwise_and: Set<(usize, usize)>,
    spans: Seq<Range<LineColumn>>,
    space: SpaceCollapsing,
) -> StateView {
    StateView {
        prev: PrevToken::Start,
        buf: Seq::<char>::empty(),
        bitwise_and,
        spans,
        cursor: 0,
        space,
    }
}

/// The state after one declaration, and whether the output then ends a
/// line. A declaration that carries the marker is copied from `text`, on
/// lines of its own; where its span is no range of `text`, and for any
/// other declaration, the tokens are written, after the hint where `hint`
/// asks for it.
pub open spec fn after_item(
    v: StateView,
    fresh: bool,
    text: Seq<char>,
    item: DeclarationView,
    hint: bool,
) -> (StateView, bool) {
    if item.preserve && slice_of(text, item.span) is Some {
        (after_verbatim(v, slice_of(text, item.span)->0, item.span.end, fresh), true)
    } else if hint {
        (after_tokens(after_raw(v, hint_text()), item.tokens), false)
    } else {
        (after_tokens(v, item.tokens), false)
    }
}

/// The state after the declarations of a file, from the first to the last.
pub open spec fn after_items(
    v: StateView,
    fresh: bool,
    text: Seq<char>,
    items: Seq<DeclarationView>,
    hint: bool,
) -> (StateView, bool)
    decreases items.len(),
{
    if items.len() == 0 {
        (v, fresh)
    } else {
        let before = after_items(v, fresh, text, items.drop_last(), hint);
        after_item(before.0, before.1, text, items.last(), hint)
    }
}

/// The text that the conservative path makes of a token stream: every pair
/// of punctuation tokens is held against the table.
pub open spec fn conservative(tokens: Seq<Token>) -> Seq<char> {
    after_tokens(
        start_view(Set::<(usize, usize)>::empty(), Seq::<Range<LineColumn>>::empty(), SpaceCollapsing::Token),
        tokens,
    ).buf
}

/// Writes one declaration; `fresh` says that the output is empty or ends in
/// a line feed, and so does the result for the output afterwards.
pub fn step_item(
    state: &mut State,
    source: &LinedSource,
    item: &Declaration,
    hint: bool,
    fresh: bool,
) -> (fresh_after: bool)
    ensures
        (final(state)@, fresh_after) == after_item(old(state)@, fresh, source.text(), item@, hint),
{
    if item.preserve {
        if let Some(text) = source.get(&item.span) {
            state.step_verbatim(text, item.span.end, fresh);
            return true;
        }
    }
    if hint {
        state.step_raw("#[cfg_attr(any(),rustfmt::skip)]");
    }
    state.step_tokens(&item.tokens);
    false
}

/// Writes the declarations of a file. `collector` holds what was collected
/// from the file's syntax tree, `content` is the source they were parsed
/// from.
pub fn render(
    content: &str,
    collector: SpanCollector,
    items: &Vec<Declaration>,
    option: &MinifyOption,
) -> (out: String)
    ensures
        out@ == after_items(
            start_view(collector.bitwise_and@, collector.tokens@, SpaceCollapsing::Syntax),
            true,
            content@,
            views(items@),
            option.add_rustfmt_skip,
        ).0.buf,
{
    let source = LinedSource::new(content);
    let ghost start = start_view(
        collector.bitwise_and@,
        collector.tokens@,
        SpaceCollapsing::Syntax,
    );
    let mut state = State::new_with_capacity(
        collector,
        MinifyMode { space: SpaceCollapsing::Syntax },
        content.len(),
    );
    let mut is_newline = true;
    let mut i: usize = 0;
    assert(views(items@).take(0) =~= Seq::<DeclarationView>::empty());
    while i < items.len()
        invariant
            i <= items.len(),
            source.text() == content@,
            (state@, is_newline) == after_items(
                start,
                true,
                content@,
                views(items@).take(i as int),
                option.add_rustfmt_skip,
            ),
        decreases items.len() - i,
    {
        proof {
            assert(views(items@).take(i + 1).drop_last() =~= views(items@).take(i as int));
            assert(views(items@).take(i + 1).last() == items@[i as int]@);
        }
        is_newline = step_item(&mut state, &source, &items[i], option.add_rustfmt_skip, is_newline);
        i = i + 1;
    }
    assert(views(items@).take(items.len() as int) =~= views(items@));
    state.into_output()
}

/// Writes a token stream that did not parse as a file: the conservative
/// path.
pub fn render_tokens(tokens: &Vec<Token>, capacity: usize) -> (out: String)
    ensures
        out@ == conservative(tokens@),
{
    let mut state = State::new_with_capacity(
        SpanCollector::new(),
        MinifyMode { space: SpaceCollapsing::Token },
        capacity,
    );
    state.step_tokens(tokens);
    state.into_output()
}

/// Whether the parser makes a file of a text.
pub uninterp spec fn parses(content: Seq<char>) -> bool;

/// The syntax tree that the parser makes of a text that is a file, with
/// each position as the line and the column at which it lies in the text.
pub uninterp spec fn parsed(content: Seq<char>) -> syn::File;

/// `syn::parse_str::<File>`, the lexer and then the parser: the syntax
/// tree of `content`, or `None` where `content` is no file. Where there is
/// a tree, the lexer had accepted `content`.
#[verifier::external_body]
pub(crate) fn parse(content: &str) -> (file: Option<syn::File>)
    ensures
        file is Some <==> parses(content@),
        file is Some ==> lexed(content@) is Ok,
        file matches Some(tree) ==> tree == parsed(content@),
{
    syn::parse_str::<syn::File>(content).ok()
}

/// The top-level declarations of a file, in their order.
pub uninterp spec fn items_of(file: syn::File) -> Seq<syn::Item>;

/// The field `items` of a file: its top-level declarations.
#[verifier::external_body]
pub(crate) fn file_items(file: syn::File) -> (items: Vec<syn::Item>)
    ensures
        items@ == items_of(file),
{
    file.items
}

/// Where a declaration stands in the source: from the start of its first
/// token to the end of its last.
pub uninterp spec fn item_range(item: syn::Item) -> Range<LineColumn>;

/// `Spanned::span` of a declaration: from the start of its first token to
/// the end of its last.
#[verifier::external_body]
pub(crate) fn item_span(item: &syn::Item) -> (range: Range<LineColumn>)
    ensures
        range == item_range(*item),
{
    let span = syn::spanned::Spanned::span(item);
    span_start(span)..span_end(span)
}

/// The tokens that a declaration is written with, in their order.
pub uninterp spec fn item_stream(item: syn::Item) -> Seq<Token>;

/// `ToTokens::into_token_stream` of a declaration: its tokens.
#[verifier::external_body]
pub(crate) fn item_tokens(item: syn::Item) -> (tokens: Vec<Token>)
    ensures
        tokens@ == item_stream(item),
{
    lower_stream(quote::ToTokens::into_token_stream(item))
}

/// Whether a declaration is preserved: it is of a kind that has
/// attributes, and one of them asks for it.
pub open spec fn is_preserved(item: syn::Item) -> bool {
    attributes_of(item) matches Some(attrs) && any_marks_skip(metas_of(attrs))
}

/// The declaration as the minifier goes on with it: with `strip`, the
/// marker is taken off its attributes.
pub open spec fn stripped_item(item: syn::Item, strip: bool) -> syn::Item {
    match attributes_of(item) {
        Some(attrs) => if strip {
            with_attributes(item, stripped_attributes(attrs))
        } else {
            item
        },
        None => item,
    }
}

/// Where a declaration stands in the source, after the marker is taken
/// off where `strip` asks for it.
pub open spec fn range_of(item: syn::Item, strip: bool) -> Range<LineColumn> {
    item_range(stripped_item(item, strip))
}

/// The tokens of a declaration, normalized, after the marker is taken off
/// where `strip` asks for it.
pub open spec fn stream_of(item: syn::Item, strip: bool) -> Seq<Token> {
    item_stream(normalized(stripped_item(item, strip)))
}

/// What the minifier needs to know of a declaration.
pub open spec fn digest_of(item: syn::Item, strip: bool) -> DeclarationView {
    DeclarationView {
        preserve: is_preserved(item),
        span: range_of(item, strip),
        tokens: stream_of(item, strip),
    }
}

/// What the minifier needs to know of each declaration of a file.
pub open spec fn digests_of(items: Seq<syn::Item>, strip: bool) -> Seq<DeclarationView> {
    Seq::new(items.len(), |i: int| digest_of(items[i], strip))
}

/// The text that the minifier makes of a text that is a file: each
/// declaration of the file is copied or written as `after_item` says, by a
/// serializer that starts with what was collected from the file, the spans
/// in the order of the text.
pub open spec fn minified(content: Seq<char>, strip: bool, hint: bool) -> Seq<char> {
    let file = parsed(content);
    after_items(
        start_view(marks_of(file), tidied(spans_of(file)), SpaceCollapsing::Syntax),
        true,
        content,
        digests_of(items_of(file), strip),
        hint,
    ).0.buf
}

/// Reads off a declaration what the minifier needs to know of it. With
/// `strip`, the marker is first taken off the declaration's attributes.
pub fn digest(item: syn::Item, strip: bool) -> (declaration: Declaration)
    ensures
        declaration@ == digest_of(item, strip),
{
    let ghost given = item;
    let mut item = item;
    let preserve = if strip {
        match item_attributes_mut(&mut item) {
            Some(attrs) => strip_attributes(attrs),
            None => false,
        }
    } else {
        let attrs = match item_attributes(&item) {
            Some(attrs) => Some(lower_attributes(attrs)),
            None => None,
        };
        classify(&attrs)
    };
    assert(item == stripped_item(given, strip));
    let span = item_span(&item);
    Visitor::fix_item(&mut item);
    let tokens = item_tokens(item);
    Declaration { preserve, span, tokens }
}

/// Minifies a source text, with the options that `MinifyOption::default`
/// gives: what `minify_opt` makes of it with both options off.
pub fn minify(content: &str) -> (result: Result<String, LexError>)
    ensures
        match result {
            Ok(text) => lexed(content@) is Ok && text@ == if parses(content@) {
                minified(content@, false, false)
            } else {
                conservative(lexed(content@)->Ok_0)
            },
            Err(error) => lexed(content@) == Err::<Seq<Token>, LineColumn>(error.position),
        },
{
    minify_opt(content, &MinifyOption::default())
}

/// Minifies a source text. It fails where the text is no sequence of
/// tokens. A text that is a file is written declaration by declaration; a
/// text that is no file is written by the conservative path.
pub fn minify_opt(content: &str, option: &MinifyOption) -> (result: Result<String, LexError>)
    ensures
        match result {
            Ok(text) => lexed(content@) is Ok && text@ == if parses(content@) {
                minified(content@, option.remove_skip, option.add_rustfmt_skip)
            } else {
                conservative(lexed(content@)->Ok_0)
            },
            Err(error) => lexed(content@) == Err::<Seq<Token>, LineColumn>(error.position),
        },
{
    let file = match parse(content) {
        Some(file) => file,
        None => {
            return match lex(content) {
                Ok(tokens) => Ok(render_tokens(&tokens, content.len())),
                Err(position) => Err(LexError { position }),
            };
        },
    };
    let mut collector = SpanCollector::new();
    collector.collect(&file);
    proof {
        assert(collector.bitwise_and@ =~= marks_of(file));
        assert(Seq::<Range<LineColumn>>::empty() + spans_of(file) =~= spans_of(file));
    }
    let items = file_items(file);
    let ghost all = items@;
    let mut declarations: Vec<Declaration> = Vec::new();
    for item in it: items
        invariant
            it.seq() == all,
            views(declarations@) =~= digests_of(all.take(it.index()), option.remove_skip),
    {
        let ghost n = it.index();
        let ghost before = declarations@;
        let declaration = digest(item, option.remove_skip);
        declarations.push(declaration);
        proof {
            let done = digests_of(all.take(n), option.remove_skip);
            let next = digests_of(all.take(n + 1), option.remove_skip);
            assert(views(before) == done);
            assert(all.take(n + 1)[n] == all[n]);
            assert forall|i: int| 0 <= i < n + 1 implies views(declarations@)[i] == next[i] by {
                if i < n {
                    assert(declarations@[i] == before[i]);
                    assert(views(before)[i] == done[i]);
                    assert(all.take(n + 1)[i] == all.take(n)[i]);
                }
            }
        }
    }
    proof {
        assert(all.take(all.len() as int) =~= all);
    }
    Ok(render(content, collector, &declarations, option))
}

} // verus!
