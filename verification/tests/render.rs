use rust_minify::marker::{LineColumn, LinedSource, SpanCollector};
use rust_minify::token::{GroupDelimiter, Token};
use rust_minify::{
    digest, render, render_tokens, step_item, Declaration, MinifyMode, MinifyOption,
    SpaceCollapsing, State,
};

const SOURCE: &str = "fn  a ( ) { }\n# [ keep ]\nfn  b ( ) { }\nfn  c ( ) { }\n";

fn function(name: &str, line: usize) -> Vec<Token> {
    vec![
        Token::Ident { text: "fn".to_string(), start: LineColumn::new(line, 0) },
        Token::Ident { text: name.to_string(), start: LineColumn::new(line, 4) },
        Token::Group {
            delimiter: GroupDelimiter::Parenthesis,
            stream: vec![],
            start: LineColumn::new(line, 6),
        },
        Token::Group {
            delimiter: GroupDelimiter::Brace,
            stream: vec![],
            start: LineColumn::new(line, 10),
        },
    ]
}

fn declarations(preserve: bool) -> Vec<Declaration> {
    vec![
        Declaration {
            preserve: false,
            span: LineColumn::new(1, 0)..LineColumn::new(1, 13),
            tokens: function("a", 1),
        },
        Declaration {
            preserve,
            span: LineColumn::new(2, 0)..LineColumn::new(3, 13),
            tokens: function("b", 3),
        },
        Declaration {
            preserve: false,
            span: LineColumn::new(4, 0)..LineColumn::new(4, 13),
            tokens: function("c", 4),
        },
    ]
}

fn plain() -> MinifyOption {
    MinifyOption { remove_skip: false, add_rustfmt_skip: false }
}

fn hinted() -> MinifyOption {
    MinifyOption { remove_skip: false, add_rustfmt_skip: true }
}

#[test]
fn render_minifies_what_is_not_marked() {
    assert_eq!(
        render(SOURCE, SpanCollector::new(), &declarations(false), &plain()),
        "fn a(){}fn b(){}fn c(){}"
    );
    assert_eq!(render(SOURCE, SpanCollector::new(), &vec![], &plain()), "");
}

#[test]
fn render_copies_what_is_marked() {
    assert_eq!(
        render(SOURCE, SpanCollector::new(), &declarations(true), &plain()),
        "fn a(){}\n# [ keep ]\nfn  b ( ) { }\nfn c(){}"
    );
}

#[test]
fn render_puts_the_hint_before_minified_declarations_only() {
    assert_eq!(
        render(SOURCE, SpanCollector::new(), &declarations(true), &hinted()),
        "#[cfg_attr(any(),rustfmt::skip)]fn a(){}\n# [ keep ]\nfn  b ( ) { }\n#[cfg_attr(any(),rustfmt::skip)]fn c(){}"
    );
}

#[test]
fn render_minifies_a_marked_declaration_whose_span_is_no_range() {
    for span in [
        LineColumn::new(2, 0)..LineColumn::new(9, 0),
        LineColumn::new(0, 0)..LineColumn::new(3, 13),
        LineColumn::new(3, 13)..LineColumn::new(2, 0),
        LineColumn::new(2, 0)..LineColumn::new(4, 15),
    ] {
        let mut items = declarations(true);
        items[1].span = span;
        assert_eq!(
            render(SOURCE, SpanCollector::new(), &items, &plain()),
            "fn a(){}fn b(){}fn c(){}"
        );
        assert_eq!(
            render(SOURCE, SpanCollector::new(), &items, &hinted()),
            "#[cfg_attr(any(),rustfmt::skip)]fn a(){}#[cfg_attr(any(),rustfmt::skip)]fn b(){}#[cfg_attr(any(),rustfmt::skip)]fn c(){}"
        );
    }
}

#[test]
fn step_item_tells_whether_the_output_ends_a_line() {
    let source = LinedSource::new(SOURCE);
    let items = declarations(true);
    let mut state = State::new(SpanCollector::new(), MinifyMode { space: SpaceCollapsing::Syntax });
    assert!(!step_item(&mut state, &source, &items[0], false, true));
    assert_eq!(state.output(), "fn a(){}");
    assert!(step_item(&mut state, &source, &items[1], false, false));
    assert_eq!(state.output(), "fn a(){}\n# [ keep ]\nfn  b ( ) { }\n");
    assert!(step_item(&mut state, &source, &items[1], true, true));
    assert_eq!(state.output(), "fn a(){}\n# [ keep ]\nfn  b ( ) { }\n# [ keep ]\nfn  b ( ) { }\n");
    assert!(!step_item(&mut state, &source, &items[2], false, true));
    assert_eq!(
        state.output(),
        "fn a(){}\n# [ keep ]\nfn  b ( ) { }\n# [ keep ]\nfn  b ( ) { }\nfn c(){}"
    );
}

#[test]
fn render_tokens_goes_by_the_table() {
    let tokens = vec![
        Token::Ident { text: "a".to_string(), start: LineColumn::new(1, 0) },
        Token::Punct { ch: ':', joint: false, start: LineColumn::new(1, 2) },
        Token::Punct { ch: ':', joint: false, start: LineColumn::new(1, 4) },
        Token::Punct { ch: '<', joint: false, start: LineColumn::new(1, 6) },
        Token::Punct { ch: '=', joint: false, start: LineColumn::new(1, 8) },
        Token::Ident { text: "b".to_string(), start: LineColumn::new(1, 10) },
    ];
    assert_eq!(render_tokens(&tokens, 0), "a: :< =b");
    assert_eq!(render_tokens(&vec![], 16), "");
}

fn digested(content: &str, strip: bool) -> (bool, std::ops::Range<LineColumn>, String) {
    let file = syn::parse_file(content).unwrap();
    let item = file.items.into_iter().next().unwrap();
    let declaration = digest(item, strip);
    (declaration.preserve, declaration.span, render_tokens(&declaration.tokens, 0))
}

#[test]
fn digest_of_a_declaration_without_the_marker() {
    assert_eq!(
        digested("\n  #[inline]\n  fn f( a : (u8, u8,), ) { g(a, 1,) }\n", false),
        (
            false,
            LineColumn::new(2, 2)..LineColumn::new(3, 37),
            "#[inline]fn f(a:(u8,u8)){g(a,1)}".to_string()
        )
    );
    assert_eq!(
        digested("#[inline] fn f() {}", true),
        (false, LineColumn::new(1, 0)..LineColumn::new(1, 19), "#[inline]fn f(){}".to_string())
    );
}

#[test]
fn digest_of_a_declaration_with_the_marker() {
    let content = "#[rust_minify::skip] #[cfg_attr(a, rust_minify::skip, b)] fn f(x: u8,) {}";
    assert_eq!(
        digested(content, false),
        (
            true,
            LineColumn::new(1, 0)..LineColumn::new(1, 73),
            "#[rust_minify::skip]#[cfg_attr(a,rust_minify::skip,b)]fn f(x:u8){}".to_string()
        )
    );
    assert_eq!(
        digested(content, true),
        (
            true,
            LineColumn::new(1, 21)..LineColumn::new(1, 73),
            "#[cfg_attr(a,b)]fn f(x:u8){}".to_string()
        )
    );
}
