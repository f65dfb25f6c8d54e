//! What holds of the serializer and of the minifier for every input.

use crate::marker::{slice_of, LineColumn};
use crate::serializer::{
    after_close, after_open, after_punct, after_switch, after_token, after_tokens, needs_space,
    on_new_line, separated, spaced, PrevToken, SpaceCollapsing, StateView, SEPARATED,
};
use crate::token::{close_text, open_text, stream_text, token_text, Token};
use crate::marker::{marks_of, spans_of, tidied};
use crate::{
    after_item, after_items, digests_of, hint_text, is_preserved, items_of, minified, parsed,
    range_of, start_view, DeclarationView,
};
use vstd::prelude::*;

verus! {

/// Whether `plain` is `spaced` without some of its spaces: the two hold the
/// same characters in the same order, but for spaces that only `spaced` has.
pub open spec fn thins_to(spaced: Seq<char>, plain: Seq<char>) -> bool
    decreases spaced.len(),
{
    if spaced.len() == 0 {
        plain.len() == 0
    } else {
        ||| spaced.last() == ' ' && thins_to(spaced.drop_last(), plain)
        ||| plain.len() > 0 && spaced.last() == plain.last() && thins_to(
            spaced.drop_last(),
            plain.drop_last(),
        )
    }
}

/// A text thins to itself.
pub proof fn lemma_thins_to_itself(text: Seq<char>)
    ensures
        thins_to(text, text),
    decreases text.len(),
{
    if text.len() > 0 {
        lemma_thins_to_itself(text.drop_last());
    }
}

/// Thinning goes part by part.
pub proof fn lemma_thins_to_concat(a: Seq<char>, b: Seq<char>, c: Seq<char>, d: Seq<char>)
    requires
        thins_to(a, b),
        thins_to(c, d),
    ensures
        thins_to(a + c, b + d),
    decreases c.len(),
{
    if c.len() == 0 {
        assert(a + c =~= a);
        assert(b + d =~= b);
    } else {
        assert((a + c).drop_last() =~= a + c.drop_last());
        assert((a + c).last() == c.last());
        if c.last() == ' ' && thins_to(c.drop_last(), d) {
            lemma_thins_to_concat(a, b, c.drop_last(), d);
        } else {
            lemma_thins_to_concat(a, b, c.drop_last(), d.drop_last());
            assert((b + d).drop_last() =~= b + d.drop_last());
            assert((b + d).last() == d.last());
        }
    }
}

/// A text with a space before it, or without, thins to the text.
proof fn lemma_spaced_thins(buf: Seq<char>, space: bool, text: Seq<char>)
    ensures
        buf.is_prefix_of(spaced(buf, space) + text),
        thins_to((spaced(buf, space) + text).skip(buf.len() as int), text),
{
    lemma_thins_to_itself(text);
    let out = spaced(buf, space) + text;
    if space {
        let blank = seq![' '];
        assert(thins_to(blank, Seq::<char>::empty())) by {
            assert(blank.drop_last() =~= Seq::<char>::empty());
            assert(thins_to(Seq::<char>::empty(), Seq::<char>::empty()));
            assert(blank.last() == ' ');
        }
        lemma_thins_to_concat(blank, Seq::<char>::empty(), text, text);
        assert(out.skip(buf.len() as int) =~= blank + text);
        assert(Seq::<char>::empty() + text =~= text);
    } else {
        assert(out.skip(buf.len() as int) =~= text);
    }
}

/// `after_tokens` of a sequence and one more token.
pub proof fn lemma_after_tokens_push(v: StateView, tokens: Seq<Token>, token: Token)
    ensures
        after_tokens(v, tokens.push(token)) == after_token(after_tokens(v, tokens), token),
{
    assert(tokens.push(token).drop_last() =~= tokens);
}

/// The serializer changes nothing but the space between tokens: what it
/// writes for one token comes after what was written before, and thins to
/// the token's text.
pub proof fn lemma_token_adds_spaces_only(v: StateView, token: Token)
    ensures
        v.buf.is_prefix_of(after_token(v, token).buf),
        thins_to(after_token(v, token).buf.skip(v.buf.len() as int), token_text(token)),
    decreases token, 0nat,
{
    let w = after_switch(v, token.start());
    assert(w.buf == v.buf);
    match token {
        Token::Group { delimiter, stream, .. } => {
            let opened = after_open(w, delimiter);
            let inner = after_tokens(opened, stream@);
            let out = after_close(inner, delimiter).buf;
            lemma_tokens_add_spaces_only(opened, stream@);
            lemma_thins_to_itself(open_text(delimiter));
            lemma_thins_to_itself(close_text(delimiter));
            let middle = inner.buf.skip(opened.buf.len() as int);
            lemma_thins_to_concat(open_text(delimiter), open_text(delimiter), middle, stream_text(stream@));
            lemma_thins_to_concat(
                open_text(delimiter) + middle,
                open_text(delimiter) + stream_text(stream@),
                close_text(delimiter),
                close_text(delimiter),
            );
            assert(inner.buf =~= opened.buf + middle);
            assert(out.skip(v.buf.len() as int) =~= open_text(delimiter) + middle + close_text(
                delimiter,
            ));
        },
        Token::Ident { text, .. } => {
            lemma_spaced_thins(w.buf, w.prev is IdentOrLiteral, text@);
        },
        Token::Punct { ch, .. } => {
            lemma_spaced_thins(w.buf, needs_space(w, ch), seq![ch]);
            assert(spaced(w.buf, needs_space(w, ch)).push(ch) =~= spaced(w.buf, needs_space(w, ch))
                + seq![ch]);
        },
        Token::Literal { text, .. } => {
            lemma_spaced_thins(w.buf, w.prev is IdentOrLiteral, text@);
        },
    }
}

/// The serializer changes nothing but the space between tokens: what it
/// writes for a sequence of tokens comes after what was written before, and
/// thins to the texts of the tokens.
pub proof fn lemma_tokens_add_spaces_only(v: StateView, tokens: Seq<Token>)
    ensures
        v.buf.is_prefix_of(after_tokens(v, tokens).buf),
        thins_to(after_tokens(v, tokens).buf.skip(v.buf.len() as int), stream_text(tokens)),
    decreases tokens, 1nat,
{
    if tokens.len() == 0 {
        assert(v.buf.skip(v.buf.len() as int) =~= Seq::<char>::empty());
    } else {
        let w = after_tokens(v, tokens.drop_last());
        let out = after_tokens(v, tokens).buf;
        lemma_tokens_add_spaces_only(v, tokens.drop_last());
        lemma_token_adds_spaces_only(w, tokens.last());
        lemma_thins_to_concat(
            w.buf.skip(v.buf.len() as int),
            stream_text(tokens.drop_last()),
            out.skip(w.buf.len() as int),
            token_text(tokens.last()),
        );
        assert(out.skip(v.buf.len() as int) =~= w.buf.skip(v.buf.len() as int) + out.skip(
            w.buf.len() as int,
        ));
    }
}

/// In the modes that go by the table, two punctuation tokens that are a
/// pair of the table are never written side by side: where the first was
/// loosely spaced in the source, a space stands between them.
pub proof fn lemma_no_merge(v: StateView, first: char, second: char, joint: bool, start: LineColumn)
    requires
        separated(first, second),
        v.prev matches PrevToken::Punct { ch, loose, .. } && ch == first && loose,
        v.space != SpaceCollapsing::Syntax,
    ensures
        after_punct(v, second, joint, start).buf == v.buf.push(' ').push(second),
{
}

/// What was collected from the syntax tree is never changed, and the spans
/// are taken in their order: the cursor only moves forward.
pub proof fn lemma_tokens_keep_collected(v: StateView, tokens: Seq<Token>)
    ensures
        after_tokens(v, tokens).bitwise_and == v.bitwise_and,
        after_tokens(v, tokens).spans == v.spans,
        after_tokens(v, tokens).cursor >= v.cursor,
    decreases tokens, 1nat,
{
    if tokens.len() > 0 {
        lemma_tokens_keep_collected(v, tokens.drop_last());
        lemma_token_keeps_collected(after_tokens(v, tokens.drop_last()), tokens.last());
    }
}

/// What was collected is never changed, token by token.
pub proof fn lemma_token_keeps_collected(v: StateView, token: Token)
    ensures
        after_token(v, token).bitwise_and == v.bitwise_and,
        after_token(v, token).spans == v.spans,
        after_token(v, token).cursor >= v.cursor,
    decreases token, 0nat,
{
    match token {
        Token::Group { delimiter, stream, .. } => {
            lemma_tokens_keep_collected(
                after_open(after_switch(v, token.start()), delimiter),
                stream@,
            );
        },
        _ => {},
    }
}

/// The conservative mode is never left.
pub proof fn lemma_conservative_mode_stays(v: StateView, tokens: Seq<Token>)
    requires
        v.space == SpaceCollapsing::Token,
    ensures
        after_tokens(v, tokens).space == SpaceCollapsing::Token,
    decreases tokens, 1nat,
{
    if tokens.len() > 0 {
        lemma_conservative_mode_stays(v, tokens.drop_last());
        lemma_conservative_mode_stays_token(after_tokens(v, tokens.drop_last()), tokens.last());
    }
}

/// The conservative mode is never left, token by token.
pub proof fn lemma_conservative_mode_stays_token(v: StateView, token: Token)
    requires
        v.space == SpaceCollapsing::Token,
    ensures
        after_token(v, token).space == SpaceCollapsing::Token,
    decreases token, 0nat,
{
    match token {
        Token::Group { delimiter, stream, .. } => {
            lemma_conservative_mode_stays(after_open(after_switch(v, token.start()), delimiter), stream@);
        },
        _ => {},
    }
}

/// In the conservative mode, wherever a loosely spaced punctuation token is
/// followed by a punctuation token with which it is a pair of the table,
/// the text written up to the second is the text written up to the first,
/// a space, and the second.
pub proof fn lemma_no_merge_in_stream(v: StateView, tokens: Seq<Token>, i: int)
    requires
        v.space == SpaceCollapsing::Token,
        0 <= i,
        i + 1 < tokens.len(),
        tokens[i] matches Token::Punct { joint, .. } && !joint,
        tokens[i + 1] is Punct,
        separated(tokens[i]->Punct_ch, tokens[i + 1]->Punct_ch),
    ensures
        after_tokens(v, tokens.take(i + 2)).buf == after_tokens(v, tokens.take(i + 1)).buf.push(
            ' ',
        ).push(tokens[i + 1]->Punct_ch),
{
    let upto = tokens.take(i);
    assert(tokens.take(i + 1) =~= upto.push(tokens[i]));
    assert(tokens.take(i + 2) =~= tokens.take(i + 1).push(tokens[i + 1]));
    lemma_after_tokens_push(v, upto, tokens[i]);
    lemma_after_tokens_push(v, tokens.take(i + 1), tokens[i + 1]);
    lemma_conservative_mode_stays(v, upto);
    lemma_conservative_mode_stays(v, tokens.take(i + 1));
}

/// What is written for a declaration comes after what was written before.
pub proof fn lemma_item_extends(
    v: StateView,
    fresh: bool,
    text: Seq<char>,
    item: DeclarationView,
    hint: bool,
)
    ensures
        v.buf.is_prefix_of(after_item(v, fresh, text, item, hint).0.buf),
{
    if item.preserve && slice_of(text, item.span) is Some {
    } else if hint {
        let hinted = StateView { buf: v.buf + hint_text(), ..v };
        lemma_tokens_add_spaces_only(hinted, item.tokens);
    } else {
        lemma_tokens_add_spaces_only(v, item.tokens);
    }
}

/// What is written for more declarations comes after what was written for
/// the first of them.
pub proof fn lemma_items_extend(
    v: StateView,
    fresh: bool,
    text: Seq<char>,
    items: Seq<DeclarationView>,
    hint: bool,
    n: int,
)
    requires
        0 <= n <= items.len(),
    ensures
        after_items(v, fresh, text, items.take(n), hint).0.buf.is_prefix_of(
            after_items(v, fresh, text, items, hint).0.buf,
        ),
    decreases items.len(),
{
    if n == items.len() {
        assert(items.take(n) =~= items);
    } else {
        let before = after_items(v, fresh, text, items.drop_last(), hint);
        assert(items.drop_last().take(n) =~= items.take(n));
        lemma_items_extend(v, fresh, text, items.drop_last(), hint, n);
        lemma_item_extends(before.0, before.1, text, items.last(), hint);
    }
}

/// A declaration that carries the marker is reproduced character for
/// character: where its span is a range of the source, the output holds, at
/// the start of a line, the text of that range and a line feed, after what
/// was written for the declarations before it.
pub proof fn lemma_preserved_is_copied(
    v: StateView,
    fresh: bool,
    text: Seq<char>,
    items: Seq<DeclarationView>,
    hint: bool,
    i: int,
)
    requires
        0 <= i < items.len(),
        items[i].preserve,
        slice_of(text, items[i].span) is Some,
    ensures
        ({
            let before = after_items(v, fresh, text, items.take(i), hint);
            let copy = slice_of(text, items[i].span)->0;
            (on_new_line(before.0.buf, before.1) + copy).push('\n').is_prefix_of(
                after_items(v, fresh, text, items, hint).0.buf,
            )
        }),
{
    assert(items.take(i + 1).drop_last() =~= items.take(i));
    assert(items.take(i + 1).last() == items[i]);
    lemma_items_extend(v, fresh, text, items, hint, i + 1);
}

/// A declaration of a file that carries the marker is reproduced character
/// for character by the minifier: where its span is a range of the text,
/// the minified text holds, at the start of a line, the text of that range
/// and a line feed, after what was written for the declarations before it.
pub proof fn lemma_minified_copies_preserved(content: Seq<char>, strip: bool, hint: bool, i: int)
    requires
        0 <= i < items_of(parsed(content)).len(),
        is_preserved(items_of(parsed(content))[i]),
        slice_of(content, range_of(items_of(parsed(content))[i], strip)) is Some,
    ensures
        ({
            let file = parsed(content);
            let before = after_items(
                start_view(marks_of(file), tidied(spans_of(file)), SpaceCollapsing::Syntax),
                true,
                content,
                digests_of(items_of(file), strip).take(i),
                hint,
            );
            let copy = slice_of(content, range_of(items_of(file)[i], strip))->0;
            (on_new_line(before.0.buf, before.1) + copy).push('\n').is_prefix_of(
                minified(content, strip, hint),
            )
        }),
{
    let file = parsed(content);
    lemma_preserved_is_copied(
        start_view(marks_of(file), tidied(spans_of(file)), SpaceCollapsing::Syntax),
        true,
        content,
        digests_of(items_of(file), strip),
        hint,
        i,
    );
}

/// Whether `c` is a punctuation token of one character.
pub open spec fn is_single(c: char) -> bool {
    ||| (c == '&')
    ||| (c == '@')
    ||| (c == '^')
    ||| (c == ':')
    ||| (c == ',')
    ||| (c == '$')
    ||| (c == '.')
    ||| (c == '=')
    ||| (c == '>')
    ||| (c == '<')
    ||| (c == '-')
    ||| (c == '!')
    ||| (c == '|')
    ||| (c == '%')
    ||| (c == '+')
    ||| (c == '#')
    ||| (c == '?')
    ||| (c == ';')
    ||| (c == '/')
    ||| (c == '*')
    ||| (c == '~')
}

/// Whether `a` and `b` are, in this order, a punctuation token of two
/// characters.
pub open spec fn is_double(a: char, b: char) -> bool {
    ||| (a == '&' && b == '&')
    ||| (a == '&' && b == '=')
    ||| (a == '^' && b == '=')
    ||| (a == '.' && b == '.')
    ||| (a == '=' && b == '=')
    ||| (a == '=' && b == '>')
    ||| (a == '>' && b == '=')
    ||| (a == '<' && b == '-')
    ||| (a == '<' && b == '=')
    ||| (a == '-' && b == '=')
    ||| (a == '!' && b == '=')
    ||| (a == '|' && b == '=')
    ||| (a == '|' && b == '|')
    ||| (a == ':' && b == ':')
    ||| (a == '%' && b == '=')
    ||| (a == '+' && b == '=')
    ||| (a == '-' && b == '>')
    ||| (a == '<' && b == '<')
    ||| (a == '>' && b == '>')
    ||| (a == '/' && b == '=')
    ||| (a == '*' && b == '=')
}

/// Whether `a`, `b` and `c` are, in this order, a punctuation token of
/// three characters: `...`, `..=`, `<<=` or `>>=`.
pub open spec fn is_triple(a: char, b: char, c: char) -> bool {
    ||| (a == '.' && b == '.' && c == '.')
    ||| (a == '.' && b == '.' && c == '=')
    ||| (a == '<' && b == '<' && c == '=')
    ||| (a == '>' && b == '>' && c == '=')
}

/// Whether a text is one of the punctuation tokens of the language.
pub open spec fn is_punctuation(text: Seq<char>) -> bool {
    ||| text.len() == 1 && is_single(text[0])
    ||| text.len() == 2 && is_double(text[0], text[1])
    ||| text.len() == 3 && is_triple(text[0], text[1], text[2])
}

/// What the table of pairs holds, pair by pair.
pub proof fn lemma_table_pairs(first: char, second: char)
    ensures
        separated(first, second) <==> (is_double(first, second) || (first == '.' && second
            == '=')),
{
    let pair = (first, second);
    if separated(first, second) {
        let k = choose|k: int| 0 <= k < SEPARATED@.len() && SEPARATED@[k] == pair;
        assert(0 <= k < 22);
    }
    if is_double(first, second) || (first == '.' && second == '=') {
        assert(SEPARATED@.len() == 22);
        assert(exists|k: int| 0 <= k < 22 && SEPARATED@[k] == pair) by {
            assert(SEPARATED@[0] == ('!', '='));
            assert(SEPARATED@[1] == ('%', '='));
            assert(SEPARATED@[2] == ('&', '&'));
            assert(SEPARATED@[3] == ('&', '='));
            assert(SEPARATED@[4] == ('*', '='));
            assert(SEPARATED@[5] == ('+', '='));
            assert(SEPARATED@[6] == ('-', '='));
            assert(SEPARATED@[7] == ('-', '>'));
            assert(SEPARATED@[8] == ('.', '.'));
            assert(SEPARATED@[9] == ('.', '='));
            assert(SEPARATED@[10] == ('/', '='));
            assert(SEPARATED@[11] == (':', ':'));
            assert(SEPARATED@[12] == ('<', '-'));
            assert(SEPARATED@[13] == ('<', '<'));
            assert(SEPARATED@[14] == ('<', '='));
            assert(SEPARATED@[15] == ('=', '='));
            assert(SEPARATED@[16] == ('=', '>'));
            assert(SEPARATED@[17] == ('>', '='));
            assert(SEPARATED@[18] == ('>', '>'));
            assert(SEPARATED@[19] == ('^', '='));
            assert(SEPARATED@[20] == ('|', '='));
            assert(SEPARATED@[21] == ('|', '|'));
        }
    }
}

/// The table of pairs is the closure over the punctuation tokens: it holds
/// a pair exactly where a token that ends in the first character and a
/// token that starts with the second are, one after the other, a token too.
pub proof fn lemma_table_is_closure(first: char, second: char)
    ensures
        separated(first, second) <==> exists|before: Seq<char>, after: Seq<char>|
            is_punctuation(before) && is_punctuation(after) && #[trigger] is_punctuation(
                before + after,
            ) && before.last() == first && after.first() == second,
{
    lemma_table_pairs(first, second);
    if separated(first, second) {
        let before = if first == '.' && second == '=' {
            seq!['.', '.']
        } else {
            seq![first]
        };
        let after = seq![second];
        let both = before + after;
        assert(both.len() == before.len() + 1);
        assert(both[0] == before[0]);
        assert(both[before.len() as int] == second);
        if first == '.' && second == '=' {
            assert(both[1] == '.');
            assert(is_triple(both[0], both[1], both[2]));
        }
        assert(is_punctuation(before));
        assert(is_punctuation(after));
        assert(is_punctuation(both));
    }
    if exists|before: Seq<char>, after: Seq<char>|
        is_punctuation(before) && is_punctuation(after) && #[trigger] is_punctuation(
            before + after,
        ) && before.last() == first && after.first() == second {
        let (before, after) = choose|before: Seq<char>, after: Seq<char>|
            is_punctuation(before) && is_punctuation(after) && #[trigger] is_punctuation(
                before + after,
            ) && before.last() == first && after.first() == second;
        let both = before + after;
        assert(both.len() == before.len() + after.len());
        assert(both[before.len() - 1] == first);
        assert(both[before.len() as int] == second);
        if before.len() == 1 && after.len() == 1 {
            assert(is_double(both[0], both[1]));
        } else if before.len() == 1 && after.len() == 2 {
            assert(is_triple(both[0], both[1], both[2]));
            assert(both[1] == after[0]);
        } else {
            assert(before.len() == 2 && after.len() == 1);
            assert(is_triple(both[0], both[1], both[2]));
            assert(both[1] == before[1]);
        }
    }
}

/// In the modes that go by the table, a space is written between a
/// loosely spaced punctuation character and the punctuation character after
/// it exactly where a token that ends in the one and a token that starts
/// with the other would, one after the other, be a token too.
pub proof fn lemma_space_where_tokens_would_merge(v: StateView, second: char)
    requires
        v.prev matches PrevToken::Punct { loose, .. } && loose,
        v.space != SpaceCollapsing::Syntax,
    ensures
        needs_space(v, second) <==> exists|before: Seq<char>, after: Seq<char>|
            is_punctuation(before) && is_punctuation(after) && #[trigger] is_punctuation(
                before + after,
            ) && before.last() == v.prev->Punct_ch && after.first() == second,
{
    lemma_table_is_closure(v.prev->Punct_ch, second);
}

} // verus!
