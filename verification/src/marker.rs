//! Source positions, the line index of a source text, and the collector of
//! the regions that the serializer has to treat with care.

use core::ops::Range;
use fxhash::FxHashSet;
use proc_macro2::TokenStream;
use vstd::prelude::*;

verus! {

/// A line-column pair: the start or the end of a span.
#[derive(Copy, Clone, Debug, PartialEq, Eq, PartialOrd, Ord, Hash, Structural)]
pub struct LineColumn {
    /// The 1-indexed line on which the span starts or ends.
    pub line: usize,
    /// The 0-indexed column, counted in characters.
    pub column: usize,
}

impl LineColumn {
    /// The position on line `line`, at column `column`.
    pub fn new(line: usize, column: usize) -> (lc: Self)
        ensures
            lc.line == line,
            lc.column == column,
    {
        Self { line, column }
    }

    /// The order of positions in a text: by line, then by column.
    pub open spec fn precedes(self, other: LineColumn) -> bool {
        self.line < other.line || (self.line == other.line && self.column < other.column)
    }

    /// `precedes`, or the same position.
    pub open spec fn at_or_before(self, other: LineColumn) -> bool {
        self.precedes(other) || self == other
    }

    /// Decides `precedes`.
    pub fn is_before(&self, other: &LineColumn) -> (b: bool)
        ensures
            b == self.precedes(*other),
    {
        self.line < other.line || (self.line == other.line && self.column < other.column)
    }

    /// Decides `at_or_before`.
    pub fn is_at_or_before(&self, other: &LineColumn) -> (b: bool)
        ensures
            b == self.at_or_before(*other),
    {
        self.line < other.line || (self.line == other.line && self.column <= other.column)
    }
}

/// A region of source text, as `proc_macro2` holds it.
#[verifier::external_type_specification]
#[verifier::external_body]
pub struct ExSpan(proc_macro2::Span);

/// `Span::start`: the line and the column at which a span starts, in the
/// text that the span was lexed from on this thread, outside a procedural
/// macro.
#[verifier::external_body]
pub(crate) fn span_start(span: proc_macro2::Span) -> LineColumn {
    let lc = span.start();
    LineColumn { line: lc.line, column: lc.column }
}

/// `Span::end`: the line and the column at which a span ends, as
/// `span_start` gives its start.
#[verifier::external_body]
pub(crate) fn span_end(span: proc_macro2::Span) -> LineColumn {
    let lc = span.end();
    LineColumn { line: lc.line, column: lc.column }
}

/// Whether `pos` lies in the half-open span `range`.
pub open spec fn span_contains(range: Range<LineColumn>, pos: LineColumn) -> bool {
    range.start.at_or_before(pos) && pos.precedes(range.end)
}

/// Decides `span_contains`.
pub fn span_holds(range: &Range<LineColumn>, pos: &LineColumn) -> (b: bool)
    ensures
        b == span_contains(*range, *pos),
{
    range.start.is_at_or_before(pos) && pos.is_before(&range.end)
}

/// The character offsets at which the lines of `text` start: offset 0, and
/// the offset after each line feed among the first `upto` characters.
pub open spec fn line_starts_upto(text: Seq<char>, upto: int) -> Seq<int>
    decreases upto,
{
    if upto <= 0 {
        seq![0int]
    } else if text[upto - 1] == '\n' {
        line_starts_upto(text, upto - 1).push(upto)
    } else {
        line_starts_upto(text, upto - 1)
    }
}

/// The character offsets at which the lines of `text` start.
pub open spec fn line_starts(text: Seq<char>) -> Seq<int> {
    line_starts_upto(text, text.len() as int)
}

/// The character offset of a position in `text`, where its line exists.
pub open spec fn offset_of(text: Seq<char>, lc: LineColumn) -> Option<int> {
    if 1 <= lc.line <= line_starts(text).len() {
        Some(line_starts(text)[lc.line - 1] + lc.column)
    } else {
        None
    }
}

/// The characters of `text` that a span covers, where both its ends are on
/// lines of the text and delimit a range of it.
pub open spec fn slice_of(text: Seq<char>, range: Range<LineColumn>) -> Option<Seq<char>> {
    match (offset_of(text, range.start), offset_of(text, range.end)) {
        (Some(start), Some(end)) => if start <= end <= text.len() {
            Some(text.subrange(start, end))
        } else {
            None
        },
        _ => None,
    }
}

/// A source text with the index of its lines.
#[derive(Debug)]
pub struct LinedSource<'s> {
    content: &'s str,
    chars: usize,
    lines: Vec<usize>,
}

impl<'s> Clone for LinedSource<'s> {
    fn clone(&self) -> (copy: Self)
        ensures
            copy.text() == self.text(),
    {
        proof {
            use_type_invariant(self);
        }
        let lines = self.lines.clone();
        assert(lines@ =~= self.lines@);
        Self { content: self.content, chars: self.chars, lines }
    }
}

impl<'s> LinedSource<'s> {
    /// The text that was indexed.
    pub closed spec fn text(&self) -> Seq<char> {
        self.content@
    }

    /// The index agrees with the text.
    #[verifier::type_invariant]
    spec fn wf(&self) -> bool {
        &&& self.chars == self.content@.len()
        &&& self.lines@.map_values(|p: usize| p as int) == line_starts(self.content@)
    }

    /// Indexes the lines of `content`.
    pub fn new(content: &'s str) -> (source: Self)
        ensures
            source.text() == content@,
    {
        let chars = content.unicode_len();
        let mut lines: Vec<usize> = Vec::new();
        lines.push(0);
        let mut total: usize = 0;
        let all = content.chars();
        for ch in it: all
            invariant
                it.seq() == content@,
                chars == content@.len(),
                total == it.index(),
                lines@.map_values(|p: usize| p as int) =~= line_starts_upto(content@, total as int),
        {
            total = total + 1;
            if ch == '\n' {
                lines.push(total);
            }
        }
        Self { content, chars, lines }
    }

    /// The character offset of a position, where its line exists and the
    /// offset is a machine integer.
    pub fn pos(&self, lc: &LineColumn) -> (offset: Option<usize>)
        ensures
            match offset {
                Some(p) => offset_of(self.text(), *lc) == Some(p as int),
                None => offset_of(self.text(), *lc) matches Some(p) ==> p > usize::MAX,
            },
    {
        proof {
            use_type_invariant(self);
        }
        if lc.line == 0 || lc.line > self.lines.len() {
            return None;
        }
        let start = self.lines[lc.line - 1];
        proof {
            let ints = self.lines@.map_values(|p: usize| p as int);
            assert(ints[lc.line - 1] == start as int);
        }
        start.checked_add(lc.column)
    }

    /// The text that a span covers: `None` where an end of the span is on no
    /// line of the text, or the two ends delimit no range of it.
    pub fn get(&self, range: &Range<LineColumn>) -> (text: Option<&'s str>)
        ensures
            match text {
                Some(t) => slice_of(self.text(), *range) == Some(t@),
                None => slice_of(self.text(), *range) is None,
            },
    {
        proof {
            use_type_invariant(self);
        }
        match (self.pos(&range.start), self.pos(&range.end)) {
            (Some(start), Some(end)) => {
                if start <= end && end <= self.chars {
                    Some(self.content.substring_char(start, end))
                } else {
                    None
                }
            },
            _ => None,
        }
    }
}

/// The hasher of `fxhash`.
#[verifier::external_type_specification]
#[verifier::external_body]
pub struct ExFxHasher(fxhash::FxHasher);

/// The hasher builder that `fxhash` gives to its sets.
#[verifier::external_type_specification]
#[verifier::external_body]
#[verifier::reject_recursive_types(H)]
pub struct ExBuildHasherDefault<H>(core::hash::BuildHasherDefault<H>);

/// A set of positions, each held as its line and its column.
pub type PositionSet = FxHashSet<(usize, usize)>;

/// `HashSet::insert` on a set of `fxhash`: afterwards the set holds what it
/// held, and the position.
#[verifier::external_body]
pub(crate) fn positions_insert(set: &mut PositionSet, pos: LineColumn)
    ensures
        final(set)@ == old(set)@.insert((pos.line, pos.column)),
{
    set.insert((pos.line, pos.column));
}

/// `HashSet::contains` on a set of `fxhash`: whether the set holds the
/// position.
#[verifier::external_body]
pub(crate) fn positions_contains(set: &PositionSet, pos: LineColumn) -> (found: bool)
    ensures
        found == set@.contains((pos.line, pos.column)),
{
    set.contains(&(pos.line, pos.column))
}

/// `HashSet::clone` on a set of `fxhash`: the copy holds what the set holds.
#[verifier::external_body]
pub(crate) fn positions_copy(set: &PositionSet) -> (copy: PositionSet)
    ensures
        copy@ == set@,
{
    set.clone()
}

/// Collects, from a syntax tree, what the serializer cannot read off the
/// tokens alone.
#[derive(Debug)]
pub struct SpanCollector {
    /// Where an `&` token starts that a second `&` token follows without
    /// the two being one `&&` operator.
    pub bitwise_and: PositionSet,
    /// The regions that the parser left as tokens, in the order in which the
    /// tree holds them.
    pub tokens: Vec<Range<LineColumn>>,
}

impl Default for SpanCollector {
    fn default() -> (collector: Self)
        ensures
            collector.bitwise_and@ == Set::<(usize, usize)>::empty(),
            collector.tokens@ == Seq::<Range<LineColumn>>::empty(),
    {
        Self::new()
    }
}

impl SpanCollector {
    /// A collector that holds nothing.
    pub fn new() -> (collector: Self)
        ensures
            collector.bitwise_and@ == Set::<(usize, usize)>::empty(),
            collector.tokens@ == Seq::<Range<LineColumn>>::empty(),
    {
        Self { bitwise_and: FxHashSet::default(), tokens: Vec::new() }
    }

    /// Forgets what was collected.
    pub fn clear(&mut self)
        ensures
            final(self).bitwise_and@ == Set::<(usize, usize)>::empty(),
            final(self).tokens@ == Seq::<Range<LineColumn>>::empty(),
    {
        self.bitwise_and.clear();
        self.tokens.clear();
    }

    /// Records an `&` operator token that starts at `pos`.
    pub fn mark_bitwise_and(&mut self, pos: LineColumn)
        ensures
            final(self).bitwise_and@ == old(self).bitwise_and@.insert((pos.line, pos.column)),
            final(self).tokens@ == old(self).tokens@,
    {
        positions_insert(&mut self.bitwise_and, pos);
    }

    /// Records the span of a token stream that the parser did not read,
    /// unless the stream is empty.
    pub fn mark_opaque(&mut self, empty: bool, span: Range<LineColumn>)
        ensures
            final(self).bitwise_and@ == old(self).bitwise_and@,
            final(self).tokens@ == if empty {
                old(self).tokens@
            } else {
                old(self).tokens@.push(span)
            },
    {
        if !empty {
            self.tokens.push(span);
        }
    }

    /// Collects from a whole file. What the file gives is added to what the
    /// collector holds: the positions to the set, the spans to the spans,
    /// which are then put in the order of the text, with spans that overlap
    /// made one.
    pub fn collect(&mut self, file: &syn::File)
        ensures
            final(self).bitwise_and@ == old(self).bitwise_and@.union(marks_of(*file)),
            final(self).tokens@ == tidied(old(self).tokens@ + spans_of(*file)),
    {
        self.walk_file(file);
        self.tidy();
    }

    /// Collects from one declaration, as `collect` does from a file.
    pub fn collect_item(&mut self, item: &syn::Item)
        ensures
            final(self).bitwise_and@ == old(self).bitwise_and@.union(marks_in(*item)),
            final(self).tokens@ == tidied(old(self).tokens@ + spans_in(*item)),
    {
        self.walk_item(item);
        self.tidy();
    }

    /// Puts the spans in the order of the text and makes one of spans that
    /// overlap.
    fn tidy(&mut self)
        ensures
            final(self).bitwise_and@ == old(self).bitwise_and@,
            final(self).tokens@ == tidied(old(self).tokens@),
    {
        let mut spans: Vec<Range<LineColumn>> = Vec::new();
        core::mem::swap(&mut self.tokens, &mut spans);
        self.tokens = tidy_spans(&spans);
    }

    /// `Visit::visit_file`, which walks the tree of a file and hands each
    /// node to the methods of `Visit` below. The positions are those of the
    /// text that the file was parsed from, on this thread. What the walk
    /// comes to is added to what the collector holds, the spans in the
    /// order of the walk.
    #[verifier::external_body]
    fn walk_file(&mut self, file: &syn::File)
        ensures
            final(self).bitwise_and@ == old(self).bitwise_and@.union(marks_of(*file)),
            final(self).tokens@ == old(self).tokens@ + spans_of(*file),
    {
        syn::visit::Visit::visit_file(self, file);
    }

    /// `Visit::visit_item`, which walks the tree of one declaration as
    /// `walk_file` walks a file.
    #[verifier::external_body]
    fn walk_item(&mut self, item: &syn::Item)
        ensures
            final(self).bitwise_and@ == old(self).bitwise_and@.union(marks_in(*item)),
            final(self).tokens@ == old(self).tokens@ + spans_in(*item),
    {
        syn::visit::Visit::visit_item(self, item);
    }

    /// Records where `tokens` stand in the source, unless there are none:
    /// a stream that holds a token adds its span, an empty one adds nothing.
    fn visit_token_stream(&mut self, tokens: &TokenStream)
        ensures
            final(self).bitwise_and@ == old(self).bitwise_and@,
            final(self).tokens@ == if crate::token::stream_tokens(*tokens).len() == 0 {
                old(self).tokens@
            } else {
                old(self).tokens@.push(stream_range(*tokens))
            },
    {
        let empty = tokens.is_empty();
        let span = stream_span(tokens);
        self.mark_opaque(empty, span);
    }
}

/// The later of two positions.
pub open spec fn later(a: LineColumn, b: LineColumn) -> LineColumn {
    if a.at_or_before(b) {
        b
    } else {
        a
    }
}

/// `spans` with `span` put after the last span that starts at its start or
/// before it.
pub open spec fn placed(spans: Seq<Range<LineColumn>>, span: Range<LineColumn>) -> Seq<
    Range<LineColumn>,
>
    decreases spans.len(),
{
    if spans.len() == 0 || spans.last().start.at_or_before(span.start) {
        spans.push(span)
    } else {
        placed(spans.drop_last(), span).push(spans.last())
    }
}

/// The spans by where they start, those that start at the same place in
/// the order they had.
pub open spec fn arranged(spans: Seq<Range<LineColumn>>) -> Seq<Range<LineColumn>>
    decreases spans.len(),
{
    if spans.len() == 0 {
        Seq::<Range<LineColumn>>::empty()
    } else {
        placed(arranged(spans.drop_last()), spans.last())
    }
}

/// The spans with each that starts before the end of the one before it
/// made one with it.
pub open spec fn joined(spans: Seq<Range<LineColumn>>) -> Seq<Range<LineColumn>>
    decreases spans.len(),
{
    if spans.len() == 0 {
        Seq::<Range<LineColumn>>::empty()
    } else {
        let front = joined(spans.drop_last());
        let next = spans.last();
        if front.len() > 0 && !front.last().end.at_or_before(next.start) {
            front.drop_last().push(
                Range { start: front.last().start, end: later(front.last().end, next.end) },
            )
        } else {
            front.push(next)
        }
    }
}

/// The spans in the order of the text, with spans that overlap made one.
pub open spec fn tidied(spans: Seq<Range<LineColumn>>) -> Seq<Range<LineColumn>> {
    joined(arranged(spans))
}

/// Whether each span starts where the one before it starts or after it.
pub open spec fn starts_ascend(spans: Seq<Range<LineColumn>>) -> bool {
    forall|i: int|
        0 <= i < spans.len() - 1 ==> (#[trigger] spans[i]).start.at_or_before(spans[i + 1].start)
}

/// Whether the spans are in the order of the text and none overlaps the
/// next: each starts where the one before it ends or after it, and no
/// earlier than that one starts.
pub open spec fn in_order(spans: Seq<Range<LineColumn>>) -> bool {
    forall|i: int|
        0 <= i < spans.len() - 1 ==> (#[trigger] spans[i]).start.at_or_before(spans[i + 1].start)
            && spans[i].end.at_or_before(spans[i + 1].start)
}

/// Puts `span` into `spans` as `placed` says.
fn place(spans: &mut Vec<Range<LineColumn>>, span: Range<LineColumn>)
    ensures
        final(spans)@ == placed(old(spans)@, span),
{
    let ghost given = spans@;
    let mut i: usize = spans.len();
    assert(given.take(i as int) =~= given);
    assert(placed(given, span) =~= placed(given.take(i as int), span) + given.skip(i as int));
    while i > 0 && !spans[i - 1].start.is_at_or_before(&span.start)
        invariant
            i <= spans.len(),
            spans@ == given,
            placed(given, span) == placed(given.take(i as int), span) + given.skip(i as int),
        decreases i,
    {
        proof {
            let upto = given.take(i as int);
            assert(upto.last() == given[i - 1]);
            assert(upto.drop_last() =~= given.take(i - 1));
            assert(placed(upto, span) == placed(given.take(i - 1), span).push(given[i - 1]));
            assert(placed(given.take(i - 1), span).push(given[i - 1]) + given.skip(i as int)
                =~= placed(given.take(i - 1), span) + given.skip(i - 1));
        }
        i = i - 1;
    }
    proof {
        let upto = given.take(i as int);
        if i > 0 {
            assert(upto.last() == given[i - 1]);
        }
        assert(placed(upto, span) == upto.push(span));
        assert(upto.push(span) + given.skip(i as int) =~= given.insert(i as int, span));
    }
    spans.insert(i, span);
}

/// Puts the spans in the order of the text and makes one of spans that
/// overlap.
pub fn tidy_spans(spans: &Vec<Range<LineColumn>>) -> (tidy: Vec<Range<LineColumn>>)
    ensures
        tidy@ == tidied(spans@),
{
    let mut sorted: Vec<Range<LineColumn>> = Vec::new();
    let mut i: usize = 0;
    assert(spans@.take(0) =~= Seq::<Range<LineColumn>>::empty());
    while i < spans.len()
        invariant
            i <= spans.len(),
            sorted@ == arranged(spans@.take(i as int)),
        decreases spans.len() - i,
    {
        proof {
            assert(spans@.take(i + 1).drop_last() =~= spans@.take(i as int));
            assert(spans@.take(i + 1).last() == spans@[i as int]);
        }
        let span = &spans[i];
        place(&mut sorted, Range { start: span.start, end: span.end });
        i = i + 1;
    }
    assert(spans@.take(spans.len() as int) =~= spans@);
    let mut tidy: Vec<Range<LineColumn>> = Vec::new();
    let mut k: usize = 0;
    assert(sorted@.take(0) =~= Seq::<Range<LineColumn>>::empty());
    while k < sorted.len()
        invariant
            k <= sorted.len(),
            tidy@ == joined(sorted@.take(k as int)),
        decreases sorted.len() - k,
    {
        proof {
            assert(sorted@.take(k + 1).drop_last() =~= sorted@.take(k as int));
            assert(sorted@.take(k + 1).last() == sorted@[k as int]);
        }
        let next = &sorted[k];
        let n = tidy.len();
        if n > 0 && !tidy[n - 1].end.is_at_or_before(&next.start) {
            let ghost front = tidy@;
            let last = &tidy[n - 1];
            let end = if last.end.is_at_or_before(&next.end) {
                next.end
            } else {
                last.end
            };
            let one = Range { start: last.start, end };
            tidy.pop();
            tidy.push(one);
            assert(tidy@ =~= front.drop_last().push(one));
        } else {
            tidy.push(Range { start: next.start, end: next.end });
        }
        k = k + 1;
    }
    assert(sorted@.take(sorted.len() as int) =~= sorted@);
    tidy
}

/// Where `placed` puts a span, a span stands that was last before, or the
/// span itself.
proof fn lemma_placed_last(spans: Seq<Range<LineColumn>>, span: Range<LineColumn>)
    ensures
        placed(spans, span).len() == spans.len() + 1,
        placed(spans, span).last() == span || (spans.len() > 0 && placed(spans, span).last()
            == spans.last()),
    decreases spans.len(),
{
    if !(spans.len() == 0 || spans.last().start.at_or_before(span.start)) {
        lemma_placed_last(spans.drop_last(), span);
    }
}

/// Spans that are by where they start stay so with one more put in.
proof fn lemma_placed_ascends(spans: Seq<Range<LineColumn>>, span: Range<LineColumn>)
    requires
        starts_ascend(spans),
    ensures
        starts_ascend(placed(spans, span)),
    decreases spans.len(),
{
    let out = placed(spans, span);
    if spans.len() == 0 || spans.last().start.at_or_before(span.start) {
        assert forall|i: int| 0 <= i < out.len() - 1 implies (#[trigger] out[i]).start.at_or_before(
            out[i + 1].start,
        ) by {
            if i < spans.len() - 1 {
                assert(out[i] == spans[i]);
                assert(out[i + 1] == spans[i + 1]);
            }
        }
    } else {
        let front = spans.drop_last();
        assert forall|i: int| 0 <= i < front.len() - 1 implies (#[trigger] front[i]).start.at_or_before(
            front[i + 1].start,
        ) by {
            assert(front[i] == spans[i]);
            assert(front[i + 1] == spans[i + 1]);
        }
        lemma_placed_ascends(front, span);
        lemma_placed_last(front, span);
        let inner = placed(front, span);
        if front.len() > 0 {
            assert(front.last() == spans[spans.len() - 2]);
        }
        assert forall|i: int| 0 <= i < out.len() - 1 implies (#[trigger] out[i]).start.at_or_before(
            out[i + 1].start,
        ) by {
            if i < inner.len() - 1 {
                assert(out[i] == inner[i]);
                assert(out[i + 1] == inner[i + 1]);
            } else {
                assert(out[i] == inner.last());
                assert(out[i + 1] == spans.last());
            }
        }
    }
}

/// `arranged` gives the spans by where they start.
pub proof fn lemma_arranged_ascends(spans: Seq<Range<LineColumn>>)
    ensures
        starts_ascend(arranged(spans)),
    decreases spans.len(),
{
    if spans.len() > 0 {
        lemma_arranged_ascends(spans.drop_last());
        lemma_placed_ascends(arranged(spans.drop_last()), spans.last());
    }
}

/// Of spans that are by where they start, `joined` makes spans in the order
/// of the text of which none overlaps the next.
pub proof fn lemma_joined_in_order(spans: Seq<Range<LineColumn>>)
    requires
        starts_ascend(spans),
    ensures
        in_order(joined(spans)),
        spans.len() > 0 ==> joined(spans).len() > 0 && joined(spans).last().start.at_or_before(
            spans.last().start,
        ),
    decreases spans.len(),
{
    if spans.len() > 0 {
        let rest = spans.drop_last();
        let front = joined(rest);
        let next = spans.last();
        let out = joined(spans);
        assert forall|i: int| 0 <= i < rest.len() - 1 implies (#[trigger] rest[i]).start.at_or_before(
            rest[i + 1].start,
        ) by {
            assert(rest[i] == spans[i]);
            assert(rest[i + 1] == spans[i + 1]);
        }
        lemma_joined_in_order(rest);
        if rest.len() > 0 {
            assert(rest.last() == spans[spans.len() - 2]);
            assert(rest.last().start.at_or_before(next.start));
        }
        if front.len() > 0 && !front.last().end.at_or_before(next.start) {
            let one = Range { start: front.last().start, end: later(front.last().end, next.end) };
            assert forall|i: int| 0 <= i < out.len() - 1 implies (#[trigger] out[i]).start.at_or_before(
                out[i + 1].start,
            ) && out[i].end.at_or_before(out[i + 1].start) by {
                assert(out[i] == front[i]);
                if i < out.len() - 2 {
                    assert(out[i + 1] == front[i + 1]);
                } else {
                    assert(out[i + 1] == one);
                    assert(front[i + 1] == front.last());
                }
            }
        } else {
            assert forall|i: int| 0 <= i < out.len() - 1 implies (#[trigger] out[i]).start.at_or_before(
                out[i + 1].start,
            ) && out[i].end.at_or_before(out[i + 1].start) by {
                assert(out[i] == front[i]);
                if i < out.len() - 2 {
                    assert(out[i + 1] == front[i + 1]);
                } else {
                    assert(out[i] == front.last());
                    assert(out[i + 1] == next);
                }
            }
        }
    }
}

/// The spans that the collector holds after `collect` are in the order of
/// the text, and none overlaps the next.
pub proof fn lemma_tidied_in_order(spans: Seq<Range<LineColumn>>)
    ensures
        in_order(tidied(spans)),
{
    lemma_arranged_ascends(spans);
    lemma_joined_in_order(arranged(spans));
}

/// Spans that are in the order of the text, of which none overlaps the
/// next, are left as they are.
pub proof fn lemma_tidied_keeps_order(spans: Seq<Range<LineColumn>>)
    requires
        in_order(spans),
    ensures
        tidied(spans) == spans,
    decreases spans.len(),
{
    if spans.len() > 0 {
        let rest = spans.drop_last();
        assert forall|i: int| 0 <= i < rest.len() - 1 implies (#[trigger] rest[i]).start.at_or_before(
            rest[i + 1].start,
        ) && rest[i].end.at_or_before(rest[i + 1].start) by {
            assert(rest[i] == spans[i]);
            assert(rest[i + 1] == spans[i + 1]);
        }
        lemma_tidied_keeps_order(rest);
        lemma_arranged_keeps_order(spans);
        lemma_arranged_keeps_order(rest);
        assert(joined(rest) == rest);
        if rest.len() > 0 {
            assert(rest.last() == spans[spans.len() - 2]);
        }
        assert(joined(spans) =~= spans);
    }
}

/// Spans that are by where they start are left in their order.
proof fn lemma_arranged_keeps_order(spans: Seq<Range<LineColumn>>)
    requires
        starts_ascend(spans),
    ensures
        arranged(spans) == spans,
    decreases spans.len(),
{
    if spans.len() > 0 {
        let rest = spans.drop_last();
        assert forall|i: int| 0 <= i < rest.len() - 1 implies (#[trigger] rest[i]).start.at_or_before(
            rest[i + 1].start,
        ) by {
            assert(rest[i] == spans[i]);
            assert(rest[i + 1] == spans[i + 1]);
        }
        lemma_arranged_keeps_order(rest);
        if rest.len() > 0 {
            assert(rest.last() == spans[spans.len() - 2]);
        }
        assert(arranged(spans) =~= spans);
    }
}

/// Where, in a file, an `&` operator token starts that is a `BinOp::BitAnd`
/// of its syntax tree.
pub uninterp spec fn marks_of(file: syn::File) -> Set<(usize, usize)>;

/// Where, in a file, the token streams stand that the parser did not read
/// and that hold a token, in the order in which the walk over the syntax
/// tree comes to them.
pub uninterp spec fn spans_of(file: syn::File) -> Seq<Range<LineColumn>>;

/// Where, in a declaration, an `&` operator token starts that is a
/// `BinOp::BitAnd` of its syntax tree.
pub uninterp spec fn marks_in(item: syn::Item) -> Set<(usize, usize)>;

/// Where, in a declaration, the token streams stand that the parser did
/// not read and that hold a token, in the order of the walk.
pub uninterp spec fn spans_in(item: syn::Item) -> Seq<Range<LineColumn>>;

/// `TokenStream::is_empty`: whether a stream holds no token.
pub assume_specification[ TokenStream::is_empty ](stream: &TokenStream) -> (empty: bool)
    ensures
        empty == (crate::token::stream_tokens(*stream).len() == 0),
;

/// Where the tokens of a stream stand in the source: from the start of the
/// first to the end of the last.
pub uninterp spec fn stream_range(stream: TokenStream) -> Range<LineColumn>;

/// `Spanned::span` of a stream: from the start of its first token to the
/// end of its last.
#[verifier::external_body]
pub(crate) fn stream_span(tokens: &TokenStream) -> (range: Range<LineColumn>)
    ensures
        range == stream_range(*tokens),
{
    let span = syn::spanned::Spanned::span(tokens);
    span_start(span)..span_end(span)
}

/// A node of the syntax tree of `syn`.
#[verifier::external_type_specification]
#[verifier::external_body]
pub struct ExFile(syn::File);

/// A node of the syntax tree of `syn`.
#[verifier::external_type_specification]
#[verifier::external_body]
pub struct ExBinOp(syn::BinOp);

/// A node of the syntax tree of `syn`.
#[verifier::external_type_specification]
#[verifier::external_body]
pub struct ExExpr(syn::Expr);

/// A node of the syntax tree of `syn`.
#[verifier::external_type_specification]
#[verifier::external_body]
pub struct ExForeignItem(syn::ForeignItem);

/// A node of the syntax tree of `syn`.
#[verifier::external_type_specification]
#[verifier::external_body]
pub struct ExImplItem(syn::ImplItem);

/// A node of the syntax tree of `syn`.
#[verifier::external_type_specification]
#[verifier::external_body]
pub struct ExMacro(syn::Macro);

/// A node of the syntax tree of `syn`.
#[verifier::external_type_specification]
#[verifier::external_body]
pub struct ExMetaList(syn::MetaList);

/// A node of the syntax tree of `syn`.
#[verifier::external_type_specification]
#[verifier::external_body]
pub struct ExPat(syn::Pat);

/// A node of the syntax tree of `syn`.
#[verifier::external_type_specification]
#[verifier::external_body]
pub struct ExTraitItem(syn::TraitItem);

/// A node of the syntax tree of `syn`.
#[verifier::external_type_specification]
#[verifier::external_body]
pub struct ExType(syn::Type);

/// What the collector does at each node of a tree: `syn` calls these while
/// it walks, and each walks on into the node.
impl<'ast> syn::visit::Visit<'ast> for SpanCollector {
    /// Records the `&` of a `BinOp::BitAnd`, then walks on:
    /// `visit::visit_bin_op`.
    #[verifier::external_body]
    fn visit_bin_op(&mut self, node: &'ast syn::BinOp) {
        if let syn::BinOp::BitAnd(and) = node {
            self.mark_bitwise_and(span_start(syn::spanned::Spanned::span(and)));
        }
        syn::visit::visit_bin_op(self, node);
    }

    /// Records the tokens of an `Expr::Verbatim`, then walks on:
    /// `visit::visit_expr`.
    #[verifier::external_body]
    fn visit_expr(&mut self, node: &'ast syn::Expr) {
        if let syn::Expr::Verbatim(tokens) = node {
            self.visit_token_stream(tokens);
        }
        syn::visit::visit_expr(self, node);
    }

    /// Records the tokens of a `ForeignItem::Verbatim`, then walks on:
    /// `visit::visit_foreign_item`.
    #[verifier::external_body]
    fn visit_foreign_item(&mut self, node: &'ast syn::ForeignItem) {
        if let syn::ForeignItem::Verbatim(tokens) = node {
            self.visit_token_stream(tokens);
        }
        syn::visit::visit_foreign_item(self, node);
    }

    /// Records the tokens of an `ImplItem::Verbatim`, then walks on:
    /// `visit::visit_impl_item`.
    #[verifier::external_body]
    fn visit_impl_item(&mut self, node: &'ast syn::ImplItem) {
        if let syn::ImplItem::Verbatim(tokens) = node {
            self.visit_token_stream(tokens);
        }
        syn::visit::visit_impl_item(self, node);
    }

    /// Records the tokens of an `Item::Verbatim`, then walks on:
    /// `visit::visit_item`.
    #[verifier::external_body]
    fn visit_item(&mut self, node: &'ast syn::Item) {
        if let syn::Item::Verbatim(tokens) = node {
            self.visit_token_stream(tokens);
        }
        syn::visit::visit_item(self, node);
    }

    /// Walks on, `visit::visit_macro`, then records the tokens of the macro's
    /// body.
    #[verifier::external_body]
    fn visit_macro(&mut self, node: &'ast syn::Macro) {
        syn::visit::visit_macro(self, node);
        self.visit_token_stream(&node.tokens);
    }

    /// Walks on, `visit::visit_meta_list`, then records the tokens of the
    /// attribute's arguments.
    #[verifier::external_body]
    fn visit_meta_list(&mut self, node: &'ast syn::MetaList) {
        syn::visit::visit_meta_list(self, node);
        self.visit_token_stream(&node.tokens);
    }

    /// Records the tokens of a `Pat::Verbatim`, then walks on:
    /// `visit::visit_pat`.
    #[verifier::external_body]
    fn visit_pat(&mut self, node: &'ast syn::Pat) {
        if let syn::Pat::Verbatim(tokens) = node {
            self.visit_token_stream(tokens);
        }
        syn::visit::visit_pat(self, node);
    }

    /// Records the tokens of a `TraitItem::Verbatim`, then walks on:
    /// `visit::visit_trait_item`.
    #[verifier::external_body]
    fn visit_trait_item(&mut self, node: &'ast syn::TraitItem) {
        if let syn::TraitItem::Verbatim(tokens) = node {
            self.visit_token_stream(tokens);
        }
        syn::visit::visit_trait_item(self, node);
    }

    /// Records the tokens of a `Type::Verbatim`, then walks on:
    /// `visit::visit_type`.
    #[verifier::external_body]
    fn visit_type(&mut self, node: &'ast syn::Type) {
        if let syn::Type::Verbatim(tokens) = node {
            self.visit_token_stream(tokens);
        }
        syn::visit::visit_type(self, node);
    }
}

} // verus!
