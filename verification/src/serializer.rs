//! The serializer: a state machine that writes tokens one after another and
//! puts a space between two of them only where they would otherwise lex as
//! something else.

use crate::marker::{
    positions_contains, positions_copy, span_contains, span_holds, LineColumn, PositionSet,
    SpanCollector,
};
use crate::token::{close_text, open_text, GroupDelimiter, Token};
use core::ops::Range;
use vstd::prelude::*;
use vstd::string::StringExecFns;

verus! {

/// How the serializer decides on the space between two punctuation tokens.
#[derive(Debug, Clone, Copy, PartialEq, Eq, Structural)]
pub enum SpaceCollapsing {
    /// By the syntax tree: only the pairs that the tree keeps apart.
    Syntax,
    /// Inside a region that the parser left as tokens: by the table of pairs.
    Macro,
    /// For a text that did not parse at all: by the table of pairs, throughout.
    Token,
}

/// The mode in which a serializer runs.
#[derive(Debug, Clone, Copy, PartialEq, Eq, Structural)]
pub struct MinifyMode {
    pub space: SpaceCollapsing,
}

/// What the serializer remembers of the token it wrote last.
#[derive(Debug, Clone, Copy, PartialEq, Eq, Structural)]
pub enum PrevToken {
    /// Nothing yet, or a delimiter.
    Start,
    /// An identifier or a literal. `ends_with_dot`: a literal written like
    /// `1.`; `digit_after_dot`: digits that follow a `.`, as in `t.0`.
    IdentOrLiteral { ends_with_dot: bool, digit_after_dot: bool },
    /// A punctuation character; `loose` where the source did not glue it to
    /// the character after it.
    Punct { ch: char, loose: bool, start: LineColumn },
}

impl Default for PrevToken {
    fn default() -> (prev: Self)
        ensures
            prev == PrevToken::Start,
    {
        PrevToken::Start
    }
}

/// The pairs of punctuation characters that lex as one longer token when
/// nothing stands between them, in ascending order.
pub const SEPARATED: [(char, char); 22] = [
    ('!', '='),
    ('%', '='),
    ('&', '&'),
    ('&', '='),
    ('*', '='),
    ('+', '='),
    ('-', '='),
    ('-', '>'),
    ('.', '.'),
    ('.', '='),
    ('/', '='),
    (':', ':'),
    ('<', '-'),
    ('<', '<'),
    ('<', '='),
    ('=', '='),
    ('=', '>'),
    ('>', '='),
    ('>', '>'),
    ('^', '='),
    ('|', '='),
    ('|', '|'),
];

/// Whether the table of pairs holds `(first, second)`.
pub open spec fn separated(first: char, second: char) -> bool {
    SEPARATED@.contains((first, second))
}

/// Decides `separated`.
pub fn is_separated(first: char, second: char) -> (found: bool)
    ensures
        found == separated(first, second),
{
    let mut i: usize = 0;
    while i < 22
        invariant
            i <= 22,
            SEPARATED@.len() == 22,
            forall|k: int| 0 <= k < i ==> SEPARATED@[k] != (first, second),
        decreases 22 - i,
    {
        let pair = SEPARATED[i];
        if pair.0 == first && pair.1 == second {
            return true;
        }
        i = i + 1;
    }
    false
}

/// The state of a serializer, as contracts see it.
pub struct StateView {
    /// The token written last.
    pub prev: PrevToken,
    /// The text written so far.
    pub buf: Seq<char>,
    /// The positions of `&` tokens that are followed by a second `&` token
    /// without being one operator with it.
    pub bitwise_and: Set<(usize, usize)>,
    /// The regions that the parser left as tokens, in the order of the text.
    pub spans: Seq<Range<LineColumn>>,
    /// How many of `spans` the serializer has left behind.
    pub cursor: int,
    /// The mode at this point.
    pub space: SpaceCollapsing,
}

/// Whether a literal's text ends in `.`.
pub open spec fn ends_with_dot(text: Seq<char>) -> bool {
    text.len() > 0 && text.last() == '.'
}

/// Whether a text is made of ASCII digits, and of at least one.
pub open spec fn is_digits(text: Seq<char>) -> bool {
    text.len() > 0 && forall|i: int| 0 <= i < text.len() ==> '0' <= #[trigger] text[i] <= '9'
}

/// Whether a space has to stand before the punctuation character `ch`.
pub open spec fn needs_space(v: StateView, ch: char) -> bool {
    match v.prev {
        PrevToken::Start => false,
        PrevToken::IdentOrLiteral { ends_with_dot, digit_after_dot } => {
            ((ends_with_dot || digit_after_dot) && ch == '.') || ch == '#' || ch == '"' || ch
                == '\''
        },
        PrevToken::Punct { ch: before, loose, start } => loose && match v.space {
            SpaceCollapsing::Syntax => {
                (before == ':' && ch == ':') || (before == '|' && ch == '|') || (before == '&'
                    && ch == '&' && v.bitwise_and.contains((start.line, start.column)))
            },
            _ => separated(before, ch),
        },
    }
}

/// `buf` with a space after it where `space` holds.
pub open spec fn spaced(buf: Seq<char>, space: bool) -> Seq<char> {
    if space {
        buf.push(' ')
    } else {
        buf
    }
}

/// The mode and the cursor after a token that starts at `pos` has come up.
pub open spec fn after_switch(v: StateView, pos: LineColumn) -> StateView {
    match v.space {
        SpaceCollapsing::Syntax => {
            if 0 <= v.cursor < v.spans.len() && span_contains(v.spans[v.cursor], pos) {
                StateView { space: SpaceCollapsing::Macro, ..v }
            } else {
                v
            }
        },
        SpaceCollapsing::Macro => {
            if 0 <= v.cursor < v.spans.len() && !span_contains(v.spans[v.cursor], pos) {
                StateView { space: SpaceCollapsing::Syntax, cursor: v.cursor + 1, ..v }
            } else {
                v
            }
        },
        SpaceCollapsing::Token => v,
    }
}

/// The state after an identifier has been written.
pub open spec fn after_ident(v: StateView, text: Seq<char>) -> StateView {
    StateView {
        prev: PrevToken::IdentOrLiteral { ends_with_dot: false, digit_after_dot: false },
        buf: spaced(v.buf, v.prev is IdentOrLiteral) + text,
        ..v
    }
}

/// The state after a literal has been written.
pub open spec fn after_literal(v: StateView, text: Seq<char>) -> StateView {
    StateView {
        prev: PrevToken::IdentOrLiteral {
            ends_with_dot: ends_with_dot(text),
            digit_after_dot: (v.prev matches PrevToken::Punct { ch, .. } && ch == '.')
                && is_digits(text),
        },
        buf: spaced(v.buf, v.prev is IdentOrLiteral) + text,
        ..v
    }
}

/// The state after a punctuation character has been written.
pub open spec fn after_punct(v: StateView, ch: char, joint: bool, start: LineColumn) -> StateView {
    StateView {
        prev: PrevToken::Punct { ch, loose: !joint, start },
        buf: spaced(v.buf, needs_space(v, ch)).push(ch),
        ..v
    }
}

/// The state after a group has been opened.
pub open spec fn after_open(v: StateView, delimiter: GroupDelimiter) -> StateView {
    StateView { prev: PrevToken::Start, buf: v.buf + open_text(delimiter), ..v }
}

/// The state after a group has been closed.
pub open spec fn after_close(v: StateView, delimiter: GroupDelimiter) -> StateView {
    StateView { prev: PrevToken::Start, buf: v.buf + close_text(delimiter), ..v }
}

/// The state after one token has been written, a group with all it holds.
pub open spec fn after_token(v: StateView, token: Token) -> StateView
    decreases token,
{
    let v = after_switch(v, token.start());
    match token {
        Token::Group { delimiter, stream, .. } => after_close(
            after_tokens(after_open(v, delimiter), stream@),
            delimiter,
        ),
        Token::Ident { text, .. } => after_ident(v, text@),
        Token::Punct { ch, joint, start } => after_punct(v, ch, joint, start),
        Token::Literal { text, .. } => after_literal(v, text@),
    }
}

/// The state after a sequence of tokens has been written, from the first to
/// the last.
pub open spec fn after_tokens(v: StateView, tokens: Seq<Token>) -> StateView
    decreases tokens,
{
    if tokens.len() == 0 {
        v
    } else {
        after_token(after_tokens(v, tokens.drop_last()), tokens.last())
    }
}

/// The cursor after the spans that end at `end` or before it have been left
/// behind.
pub open spec fn skip_past(spans: Seq<Range<LineColumn>>, cursor: int, end: LineColumn) -> int
    decreases spans.len() - cursor,
{
    if 0 <= cursor < spans.len() && spans[cursor].end.at_or_before(end) {
        skip_past(spans, cursor + 1, end)
    } else {
        cursor
    }
}

/// `buf`, ended by a line feed unless `fresh` says that it is empty or ends
/// in one.
pub open spec fn on_new_line(buf: Seq<char>, fresh: bool) -> Seq<char> {
    if fresh {
        buf
    } else {
        buf.push('\n')
    }
}

/// The state after the serializer has left the opaque span that it was in,
/// if it was in one: a declaration begins outside every span of the
/// declaration before it.
pub open spec fn after_leave(v: StateView) -> StateView {
    if v.space == SpaceCollapsing::Macro {
        StateView {
            space: SpaceCollapsing::Syntax,
            cursor: if 0 <= v.cursor < v.spans.len() {
                v.cursor + 1
            } else {
                v.cursor
            },
            ..v
        }
    } else {
        v
    }
}

/// The state after a declaration has been copied from the source: `text` on
/// lines of its own. The span that the serializer was in is left first,
/// then the spans inside the declaration are left behind.
pub open spec fn after_verbatim(v: StateView, text: Seq<char>, end: LineColumn, fresh: bool) -> StateView {
    let left = after_leave(v);
    StateView {
        prev: PrevToken::Start,
        buf: (on_new_line(v.buf, fresh) + text).push('\n'),
        cursor: skip_past(left.spans, left.cursor, end),
        ..left
    }
}

/// The state after `text` has been written as it is.
pub open spec fn after_raw(v: StateView, text: Seq<char>) -> StateView {
    StateView { buf: v.buf + text, ..v }
}

/// `String::push`: the character is appended to the text.
#[verifier::external_body]
pub(crate) fn push_char(buf: &mut String, ch: char)
    ensures
        final(buf)@ == old(buf)@.push(ch),
{
    buf.push(ch);
}

/// `String::try_reserve`: the text stays as it is; where the room can be
/// had, it is there afterwards.
#[verifier::external_body]
pub(crate) fn reserve(buf: &mut String, capacity: usize)
    ensures
        final(buf)@ == old(buf)@,
{
    let _ = buf.try_reserve(capacity);
}

/// The serializer: the text written so far, and what decides on the next space.
#[derive(Debug)]
pub struct State {
    prev: PrevToken,
    buf: String,
    bitwise_and: PositionSet,
    tokens: Vec<Range<LineColumn>>,
    cursor: usize,
    mode: MinifyMode,
}

impl Clone for State {
    fn clone(&self) -> (copy: Self)
        ensures
            copy@ == self@,
    {
        let mut tokens: Vec<Range<LineColumn>> = Vec::new();
        let mut i: usize = 0;
        while i < self.tokens.len()
            invariant
                i <= self.tokens.len(),
                tokens@ =~= self.tokens@.take(i as int),
            decreases self.tokens.len() - i,
        {
            let span = &self.tokens[i];
            tokens.push(Range { start: span.start, end: span.end });
            i = i + 1;
        }
        assert(self.tokens@.take(self.tokens.len() as int) =~= self.tokens@);
        Self {
            prev: self.prev,
            buf: self.buf.clone(),
            bitwise_and: positions_copy(&self.bitwise_and),
            tokens,
            cursor: self.cursor,
            mode: self.mode,
        }
    }
}

impl View for State {
    type V = StateView;

    closed spec fn view(&self) -> StateView {
        StateView {
            prev: self.prev,
            buf: self.buf@,
            bitwise_and: self.bitwise_and@,
            spans: self.tokens@,
            cursor: self.cursor as int,
            space: self.mode.space,
        }
    }
}

impl State {
    /// A serializer that has written nothing, with what `collector` holds.
    pub fn new(collector: SpanCollector, mode: MinifyMode) -> (state: Self)
        ensures
            state@ == (StateView {
                prev: PrevToken::Start,
                buf: Seq::<char>::empty(),
                bitwise_and: collector.bitwise_and@,
                spans: collector.tokens@,
                cursor: 0,
                space: mode.space,
            }),
    {
        Self {
            prev: PrevToken::Start,
            buf: String::new(),
            bitwise_and: collector.bitwise_and,
            tokens: collector.tokens,
            cursor: 0,
            mode,
        }
    }

    /// As `new`, with room for `capacity` bytes of output where that much
    /// can be had.
    pub fn new_with_capacity(collector: SpanCollector, mode: MinifyMode, capacity: usize) -> (state:
        Self)
        ensures
            state@ == (StateView {
                prev: PrevToken::Start,
                buf: Seq::<char>::empty(),
                bitwise_and: collector.bitwise_and@,
                spans: collector.tokens@,
                cursor: 0,
                space: mode.space,
            }),
    {
        let mut buf = String::new();
        reserve(&mut buf, capacity);
        Self {
            prev: PrevToken::Start,
            buf,
            bitwise_and: collector.bitwise_and,
            tokens: collector.tokens,
            cursor: 0,
            mode,
        }
    }

    /// The text written so far.
    pub fn output(&self) -> (text: &str)
        ensures
            text@ == self@.buf,
    {
        self.buf.as_str()
    }

    /// Ends the serializer and gives the text it wrote.
    pub fn into_output(self) -> (text: String)
        ensures
            text@ == self@.buf,
    {
        self.buf
    }

    /// Copies a declaration from the source: `text` on lines of its own.
    /// `fresh` says that the output is empty or ends in a line feed. The
    /// span that the serializer was in is left, and so are the spans that
    /// end at `end` or before it.
    #[verifier::loop_isolation(false)]
    pub fn step_verbatim(&mut self, text: &str, end: LineColumn, fresh: bool)
        ensures
            final(self)@ == after_verbatim(old(self)@, text@, end, fresh),
    {
        if !fresh {
            push_char(&mut self.buf, '\n');
        }
        self.buf.append(text);
        push_char(&mut self.buf, '\n');
        assert(self.buf@ =~= (on_new_line(old(self).buf@, fresh) + text@).push('\n'));
        let ghost written = self.buf@;
        match self.mode.space {
            SpaceCollapsing::Macro => {
                self.mode.space = SpaceCollapsing::Syntax;
                if self.cursor < self.tokens.len() {
                    self.cursor = self.cursor + 1;
                }
            },
            _ => {},
        }
        let ghost left = after_leave(old(self)@);
        assert(self.cursor == left.cursor && self.mode.space == left.space);
        while self.cursor < self.tokens.len() && self.tokens[self.cursor].end.is_at_or_before(&end)
            invariant
                self.tokens@ == old(self).tokens@,
                self.buf@ == written,
                self.bitwise_and@ == old(self).bitwise_and@,
                self.mode.space == left.space,
                left.cursor <= self.cursor,
                skip_past(self.tokens@, self.cursor as int, end) == skip_past(
                    old(self).tokens@,
                    left.cursor,
                    end,
                ),
            decreases self.tokens.len() - self.cursor,
        {
            self.cursor = self.cursor + 1;
        }
        self.prev = PrevToken::Start;
    }

    /// Writes `text` as it is, and remembers nothing of it.
    pub fn step_raw(&mut self, text: &str)
        ensures
            final(self)@ == after_raw(old(self)@, text@),
    {
        self.buf.append(text);
    }

    /// Writes the tokens, from the first to the last.
    pub fn step_tokens(&mut self, tokens: &Vec<Token>)
        ensures
            final(self)@ == after_tokens(old(self)@, tokens@),
        decreases tokens, 0nat,
    {
        let mut i: usize = 0;
        assert(tokens@.take(0) =~= Seq::<Token>::empty());
        while i < tokens.len()
            invariant
                i <= tokens.len(),
                self@ == after_tokens(old(self)@, tokens@.take(i as int)),
            decreases tokens.len() - i,
        {
            proof {
                assert(tokens@.take(i + 1).drop_last() =~= tokens@.take(i as int));
                assert(tokens@.take(i + 1).last() == tokens@[i as int]);
            }
            self.step_token_tree(&tokens[i]);
            i = i + 1;
        }
        assert(tokens@.take(tokens.len() as int) =~= tokens@);
    }

    /// Writes one token, a group with all it holds.
    pub fn step_token_tree(&mut self, tt: &Token)
        ensures
            final(self)@ == after_token(old(self)@, *tt),
        decreases tt, 0nat,
    {
        match tt {
            Token::Group { delimiter, stream, start } => {
                self.switch_space_mode(*start);
                self.step_group(*delimiter, stream);
            },
            Token::Ident { text, start } => {
                self.switch_space_mode(*start);
                self.step_ident(text.as_str());
            },
            Token::Punct { ch, joint, start } => {
                self.switch_space_mode(*start);
                self.step_punct(*ch, *joint, *start);
            },
            Token::Literal { text, start } => {
                self.switch_space_mode(*start);
                self.step_literal(text.as_str());
            },
        }
    }

    /// Writes a group: its opening delimiter, what it holds, its closing
    /// delimiter.
    fn step_group(&mut self, delimiter: GroupDelimiter, stream: &Vec<Token>)
        ensures
            final(self)@ == after_close(
                after_tokens(after_open(old(self)@, delimiter), stream@),
                delimiter,
            ),
        decreases stream, 1nat,
    {
        match delimiter {
            GroupDelimiter::Parenthesis => push_char(&mut self.buf, '('),
            GroupDelimiter::Brace => push_char(&mut self.buf, '{'),
            GroupDelimiter::Bracket => push_char(&mut self.buf, '['),
            GroupDelimiter::Invisible => {},
        }
        self.prev = PrevToken::Start;
        assert(self@ == after_open(old(self)@, delimiter)) by {
            assert(self@.buf =~= old(self)@.buf + open_text(delimiter));
        }
        self.step_tokens(stream);
        let ghost inner = self@;
        match delimiter {
            GroupDelimiter::Parenthesis => push_char(&mut self.buf, ')'),
            GroupDelimiter::Brace => push_char(&mut self.buf, '}'),
            GroupDelimiter::Bracket => push_char(&mut self.buf, ']'),
            GroupDelimiter::Invisible => {},
        }
        self.prev = PrevToken::Start;
        assert(self@ == after_close(inner, delimiter)) by {
            assert(self@.buf =~= inner.buf + close_text(delimiter));
        }
    }

    /// Writes an identifier, after a space where a word or a literal stands
    /// before it.
    fn step_ident(&mut self, text: &str)
        ensures
            final(self)@ == after_ident(old(self)@, text@),
    {
        if let PrevToken::IdentOrLiteral { .. } = self.prev {
            push_char(&mut self.buf, ' ');
        }
        self.buf.append(text);
        self.prev = PrevToken::IdentOrLiteral { ends_with_dot: false, digit_after_dot: false };
    }

    /// Writes a punctuation character, after a space where it would
    /// otherwise merge with what stands before it.
    fn step_punct(&mut self, ch: char, joint: bool, start: LineColumn)
        ensures
            final(self)@ == after_punct(old(self)@, ch, joint, start),
    {
        let space = match self.prev {
            PrevToken::Start => false,
            PrevToken::IdentOrLiteral { ends_with_dot, digit_after_dot } => {
                ((ends_with_dot || digit_after_dot) && ch == '.') || ch == '#' || ch == '"' || ch
                    == '\''
            },
            PrevToken::Punct { ch: before, loose, start: at } => {
                if !loose {
                    false
                } else {
                    match self.mode.space {
                        SpaceCollapsing::Syntax => {
                            (before == ':' && ch == ':') || (before == '|' && ch == '|') || (before
                                == '&' && ch == '&' && positions_contains(&self.bitwise_and, at))
                        },
                        _ => is_separated(before, ch),
                    }
                }
            },
        };
        if space {
            push_char(&mut self.buf, ' ');
        }
        push_char(&mut self.buf, ch);
        self.prev = PrevToken::Punct { ch, loose: !joint, start };
    }

    /// Writes a literal, after a space where a word or a literal stands
    /// before it.
    fn step_literal(&mut self, text: &str)
        ensures
            final(self)@ == after_literal(old(self)@, text@),
    {
        let after_dot = match self.prev {
            PrevToken::Punct { ch, .. } => ch == '.',
            _ => false,
        };
        if let PrevToken::IdentOrLiteral { .. } = self.prev {
            push_char(&mut self.buf, ' ');
        }
        let (last_is_dot, digits) = literal_shape(text);
        self.buf.append(text);
        self.prev = PrevToken::IdentOrLiteral {
            ends_with_dot: last_is_dot,
            digit_after_dot: after_dot && digits,
        };
    }

    /// Enters the next opaque span where the token that starts at `pos`
    /// lies in it, and leaves it where the token does not.
    fn switch_space_mode(&mut self, pos: LineColumn)
        ensures
            final(self)@ == after_switch(old(self)@, pos),
    {
        match self.mode.space {
            SpaceCollapsing::Syntax => {
                if self.cursor < self.tokens.len() {
                    if span_holds(&self.tokens[self.cursor], &pos) {
                        self.mode.space = SpaceCollapsing::Macro;
                    }
                }
            },
            SpaceCollapsing::Macro => {
                if self.cursor < self.tokens.len() {
                    if !span_holds(&self.tokens[self.cursor], &pos) {
                        self.mode.space = SpaceCollapsing::Syntax;
                        self.cursor = self.cursor + 1;
                    }
                }
            },
            SpaceCollapsing::Token => {},
        }
    }
}

/// Whether a literal's text ends in `.`, and whether it is made of digits.
pub fn literal_shape(text: &str) -> (shape: (bool, bool))
    ensures
        shape.0 == ends_with_dot(text@),
        shape.1 == is_digits(text@),
{
    let mut last_is_dot = false;
    let mut digits = true;
    let mut any = false;
    let all = text.chars();
    for ch in it: all
        invariant
            it.seq() == text@,
            any == (it.index() > 0),
            last_is_dot == (it.index() > 0 && text@[it.index() - 1] == '.'),
            digits == (forall|i: int| 0 <= i < it.index() ==> '0' <= #[trigger] text@[i] <= '9'),
    {
        any = true;
        last_is_dot = ch == '.';
        digits = digits && '0' <= ch && ch <= '9';
    }
    (last_is_dot, any && digits)
}

} // verus!
