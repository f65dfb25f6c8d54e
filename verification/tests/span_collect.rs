use rust_minify::marker::{tidy_spans, LineColumn, SpanCollector};

const SOURCE: &str = "#[cfg_attr(test, test)]
//234567890123456789012345
fn main() {
    let x = true& &true;
//234567890123456789012345
    if x && true {
        println!(\"{}\", x);
//234567890123456789012345
    }
}
";

#[test]
fn test_span_collect() -> Result<(), syn::Error> {
    let file = syn::parse_file(SOURCE)?;
    let mut sc = SpanCollector::new();
    sc.collect(&file);
    assert_eq!(
        sc.bitwise_and
            .iter()
            .map(|&(line, column)| LineColumn::new(line, column))
            .collect::<Vec<_>>(),
        vec![LineColumn::new(4, 16)]
    );
    assert_eq!(
        sc.tokens,
        vec![
            LineColumn::new(1, 11)..LineColumn::new(1, 21),
            LineColumn::new(7, 17)..LineColumn::new(7, 24)
        ]
    );
    Ok(())
}

#[test]
fn a_new_collector_holds_nothing() {
    let sc = SpanCollector::new();
    assert!(sc.bitwise_and.is_empty());
    assert!(sc.tokens.is_empty());
    let sc = SpanCollector::default();
    assert!(sc.bitwise_and.is_empty());
    assert!(sc.tokens.is_empty());
}

#[test]
fn marks_are_recorded_in_their_order() {
    let mut sc = SpanCollector::new();
    sc.mark_bitwise_and(LineColumn::new(3, 4));
    sc.mark_bitwise_and(LineColumn::new(3, 4));
    sc.mark_bitwise_and(LineColumn::new(1, 0));
    assert_eq!(sc.bitwise_and.len(), 2);
    assert!(sc.bitwise_and.contains(&(3, 4)));
    assert!(sc.bitwise_and.contains(&(1, 0)));
    assert!(!sc.bitwise_and.contains(&(4, 3)));
    sc.mark_opaque(false, LineColumn::new(2, 0)..LineColumn::new(2, 5));
    sc.mark_opaque(true, LineColumn::new(9, 0)..LineColumn::new(9, 5));
    sc.mark_opaque(false, LineColumn::new(1, 0)..LineColumn::new(1, 5));
    assert_eq!(
        sc.tokens,
        vec![
            LineColumn::new(2, 0)..LineColumn::new(2, 5),
            LineColumn::new(1, 0)..LineColumn::new(1, 5)
        ]
    );
    assert_eq!(sc.bitwise_and.len(), 2);
}

#[test]
fn clear_forgets_what_was_collected() {
    let file = syn::parse_file(SOURCE).unwrap();
    let mut sc = SpanCollector::new();
    sc.collect(&file);
    sc.clear();
    assert!(sc.bitwise_and.is_empty());
    assert!(sc.tokens.is_empty());
    sc.collect(&file);
    assert_eq!(sc.tokens.len(), 2);
    assert_eq!(sc.bitwise_and.len(), 1);
}

#[test]
fn collect_item_sees_one_declaration() {
    let file = syn::parse_file(SOURCE).unwrap();
    let mut sc = SpanCollector::new();
    for item in &file.items {
        sc.collect_item(item);
    }
    assert_eq!(sc.tokens.len(), 2);
    assert!(sc.bitwise_and.contains(&(4, 16)));
}

#[test]
fn empty_streams_are_not_recorded() {
    let file = syn::parse_file("fn f() { g!(); h![a]; }").unwrap();
    let mut sc = SpanCollector::new();
    sc.collect(&file);
    assert_eq!(sc.tokens, vec![LineColumn::new(1, 18)..LineColumn::new(1, 19)]);
}

#[test]
fn spans_are_collected_in_the_order_of_the_text() {
    let file = syn::parse_file("fn f(a: m!(T)) { #![foo(bar)] }").unwrap();
    let mut sc = SpanCollector::new();
    sc.collect(&file);
    assert_eq!(
        sc.tokens,
        vec![
            LineColumn::new(1, 11)..LineColumn::new(1, 12),
            LineColumn::new(1, 24)..LineColumn::new(1, 27)
        ]
    );
    let mut by_item = SpanCollector::new();
    for item in &file.items {
        by_item.collect_item(item);
    }
    assert_eq!(by_item.tokens, sc.tokens);
}

fn span(a: usize, b: usize) -> std::ops::Range<LineColumn> {
    LineColumn::new(1, a)..LineColumn::new(1, b)
}

#[test]
fn tidy_spans_orders_the_spans_by_their_start() {
    assert_eq!(tidy_spans(&vec![]), vec![]);
    assert_eq!(tidy_spans(&vec![span(3, 5)]), vec![span(3, 5)]);
    assert_eq!(
        tidy_spans(&vec![span(20, 25), span(3, 5), span(10, 12), span(5, 10)]),
        vec![span(3, 5), span(5, 10), span(10, 12), span(20, 25)]
    );
    assert_eq!(
        tidy_spans(&vec![span(1, 2), span(4, 6), span(8, 9)]),
        vec![span(1, 2), span(4, 6), span(8, 9)]
    );
    assert_eq!(
        tidy_spans(&vec![
            LineColumn::new(2, 0)..LineColumn::new(2, 5),
            LineColumn::new(1, 7)..LineColumn::new(1, 9)
        ]),
        vec![
            LineColumn::new(1, 7)..LineColumn::new(1, 9),
            LineColumn::new(2, 0)..LineColumn::new(2, 5)
        ]
    );
}

#[test]
fn tidy_spans_makes_one_of_spans_that_overlap() {
    assert_eq!(tidy_spans(&vec![span(3, 8), span(5, 10)]), vec![span(3, 10)]);
    assert_eq!(tidy_spans(&vec![span(5, 10), span(3, 8)]), vec![span(3, 10)]);
    assert_eq!(tidy_spans(&vec![span(3, 20), span(5, 10), span(12, 14)]), vec![span(3, 20)]);
    assert_eq!(
        tidy_spans(&vec![span(3, 8), span(3, 8), span(8, 9), span(1, 2)]),
        vec![span(1, 2), span(3, 8), span(8, 9)]
    );
    assert_eq!(
        tidy_spans(&vec![span(30, 40), span(3, 8), span(35, 50), span(7, 9)]),
        vec![span(3, 9), span(30, 50)]
    );
}
