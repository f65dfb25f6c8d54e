use quote::ToTokens;
use rust_minify::fix::{
    exemption_of, remove_trailing_punct, strips_trailing, Exemption, ListKind, Visitor,
};
use syn::parse::Parser;
use syn::punctuated::Punctuated;

fn idents(content: &str) -> Punctuated<syn::Ident, syn::token::Comma> {
    Punctuated::<syn::Ident, syn::token::Comma>::parse_terminated
        .parse_str(content)
        .unwrap()
}

const KINDS: [ListKind; 32] = [
    ListKind::AngleBracketedGenericArguments,
    ListKind::BoundLifetimes,
    ListKind::Constraint,
    ListKind::DataEnum,
    ListKind::ExprArray,
    ListKind::ExprCall,
    ListKind::ExprClosure,
    ListKind::ExprMethodCall,
    ListKind::ExprStruct,
    ListKind::ExprTuple,
    ListKind::FieldsNamed,
    ListKind::FieldsUnnamed,
    ListKind::Generics,
    ListKind::ItemEnum,
    ListKind::ItemTrait,
    ListKind::ItemTraitAlias,
    ListKind::LifetimeParam,
    ListKind::ParenthesizedGenericArguments,
    ListKind::PatSlice,
    ListKind::PatStruct,
    ListKind::PatTuple,
    ListKind::PredicateLifetime,
    ListKind::PredicateType,
    ListKind::Signature,
    ListKind::TraitItemType,
    ListKind::TypeBareFn,
    ListKind::TypeImplTrait,
    ListKind::TypeParam,
    ListKind::TypeTraitObject,
    ListKind::TypeTuple,
    ListKind::UseGroup,
    ListKind::WhereClause,
];

fn fixed(content: &str) -> String {
    let mut item = syn::parse_str::<syn::Item>(content).unwrap();
    Visitor::fix_item(&mut item);
    item.into_token_stream().to_string()
}

fn unfixed(content: &str) -> String {
    syn::parse_str::<syn::Item>(content).unwrap().into_token_stream().to_string()
}

#[test]
fn exemption_of_each_kind() {
    for kind in KINDS {
        let expected = match kind {
            ListKind::ExprTuple | ListKind::PatTuple | ListKind::TypeTuple => {
                Exemption::SingleElement
            }
            ListKind::ExprStruct
            | ListKind::PatStruct
            | ListKind::Signature
            | ListKind::TypeBareFn => Exemption::Marker,
            _ => Exemption::Never,
        };
        assert_eq!(exemption_of(kind), expected, "{:?}", kind);
    }
}

#[test]
fn tuples_of_one_element_keep_the_separator() {
    for kind in [ListKind::ExprTuple, ListKind::PatTuple, ListKind::TypeTuple] {
        for marker in [false, true] {
            assert!(!strips_trailing(kind, 0, marker));
            assert!(!strips_trailing(kind, 1, marker));
            assert!(strips_trailing(kind, 2, marker));
            assert!(strips_trailing(kind, usize::MAX, marker));
        }
    }
}

#[test]
fn lists_before_a_marker_keep_the_separator() {
    for kind in [
        ListKind::ExprStruct,
        ListKind::PatStruct,
        ListKind::Signature,
        ListKind::TypeBareFn,
    ] {
        for len in [0, 1, 2, 7] {
            assert!(!strips_trailing(kind, len, true));
            assert!(strips_trailing(kind, len, false));
        }
    }
}

#[test]
fn other_lists_never_keep_the_separator() {
    for kind in KINDS {
        if exemption_of(kind) == Exemption::Never {
            for len in [0, 1, 2] {
                assert!(strips_trailing(kind, len, false), "{:?}", kind);
                assert!(strips_trailing(kind, len, true), "{:?}", kind);
            }
        }
    }
}

#[test]
fn remove_trailing_punct_takes_one_separator_off() {
    let mut list = idents("a, b, c,");
    assert!(list.trailing_punct());
    remove_trailing_punct(&mut list);
    assert!(!list.trailing_punct());
    assert_eq!(list.len(), 3);
    assert_eq!(list.to_token_stream().to_string(), "a , b , c");
    remove_trailing_punct(&mut list);
    assert_eq!(list.to_token_stream().to_string(), "a , b , c");
}

#[test]
fn remove_trailing_punct_on_an_empty_list() {
    let mut list = idents("");
    remove_trailing_punct(&mut list);
    assert!(list.is_empty());
    let mut one = idents("a,");
    remove_trailing_punct(&mut one);
    assert_eq!(one.len(), 1);
    assert!(!one.trailing_punct());
}

#[test]
fn fix_item_normalizes_every_kind_of_list() {
    for content in [
        "fn f() { let x: Vec<u8,> = g::<u8,>(); }",
        "fn f(x: for<'a,> fn(&'a u8)) {}",
        "fn f(x: impl Iterator<Item: Clone +>) {}",
        "enum E { A, B, }",
        "fn f() { [a, b,]; g(a, b,); |a, b,| a; x.h(a, b,); }",
        "fn f() { S { a, b, }; (a, b,); }",
        "struct S { a: u8, b: u8, }",
        "struct S(u8, u8,);",
        "fn f<'a, T,>() {}",
        "trait T: A + B + {}",
        "trait T = A + B +;",
        "fn f<'a: 'b + 'c +, 'b, 'c>() {}",
        "fn f(x: &dyn Fn(u8, u8,) -> u8) {}",
        "fn f() { match x { [a, b,] => {} S { a, b, } => {} (a, b,) => {} } }",
        "fn f() where 'a: 'b + 'c +, T: A + B +, {}",
        "fn f(a: u8, b: u8,) {}",
        "trait T { type X: A + B +; }",
        "fn f(x: fn(u8, u8,)) {}",
        "fn f(x: impl A + B +) {}",
        "fn f<T: A + B +>() {}",
        "fn f(x: &(dyn A + B +)) {}",
        "fn f(x: (u8, u8,)) {}",
        "use a::{b, c,};",
    ] {
        let before = unfixed(content);
        let after = fixed(content);
        assert_ne!(before, after, "{}", content);
        assert!(after.len() < before.len(), "{}", content);
        let again = syn::parse_str::<syn::Item>(&after).unwrap();
        assert_eq!(again.into_token_stream().to_string(), after, "{}", content);
    }
}

#[test]
fn fix_item_keeps_what_has_to_stay() {
    for content in [
        "fn f(x: (u8,)) -> (u8,) { let (a,) = x; (a,) }",
        "fn f() { let S { a, .. } = s; S { a, ..s }; }",
        "extern \"C\" { fn f(a: u8, ...); }",
        "fn f(x: unsafe extern \"C\" fn(u8, ...)) {}",
        "fn f(a: u8, b: u8) -> u8 { g(a, b) }",
    ] {
        assert_eq!(fixed(content), unfixed(content), "{}", content);
    }
}

#[test]
fn fix_item_takes_the_leading_vert_off() {
    assert_eq!(
        fixed("fn f() { match x { | A | B => {} } }"),
        unfixed("fn f() { match x { A | B => {} } }")
    );
}

#[test]
fn fix_item_reaches_nested_lists() {
    assert_eq!(
        fixed("fn f() { g(h(a, b,), [c, [d, e,],],); }"),
        unfixed("fn f() { g(h(a, b), [c, [d, e]]); }")
    );
}
