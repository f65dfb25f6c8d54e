use quote::ToTokens;
use rust_minify::attr::{
    any_drain_filter, classify, drain_minify_skip, strip_attributes, is_minify_skip, is_minify_skip_meta, lower_attributes,
    retain_unflagged, strip_plan, ItemExt, MetaItem, MetaPath, Segment, Strip,
};

fn metas_of(content: &str) -> Vec<MetaItem> {
    let item = syn::parse_str::<syn::Item>(content).unwrap();
    lower_attributes(item.get_attributes().unwrap())
}

fn is_skip(content: &str) -> bool {
    is_minify_skip(&metas_of(content))
}

fn path(names: &[&str]) -> MetaPath {
    MetaPath {
        leading_colon: false,
        segments: names
            .iter()
            .map(|name| Segment { ident: name.to_string(), bare: true })
            .collect(),
    }
}

fn word(names: &[&str]) -> MetaItem {
    MetaItem::Path { path: path(names) }
}

fn list(name: &str, args: Vec<MetaItem>) -> MetaItem {
    MetaItem::List { path: path(&[name]), args: Some(args) }
}

fn shape(meta: &MetaItem) -> String {
    fn path_text(path: &MetaPath) -> String {
        let names: Vec<&str> = path.segments.iter().map(|s| s.ident.as_str()).collect();
        format!("{}{}", if path.leading_colon { "::" } else { "" }, names.join("::"))
    }
    match meta {
        MetaItem::Path { path } => path_text(path),
        MetaItem::List { path, args: Some(args) } => {
            let inner: Vec<String> = args.iter().map(shape).collect();
            format!("{}({})", path_text(path), inner.join(","))
        }
        MetaItem::List { path, args: None } => format!("{}(?)", path_text(path)),
        MetaItem::NameValue { path } => format!("{}=", path_text(path)),
    }
}

fn shapes(metas: &[MetaItem]) -> Vec<String> {
    metas.iter().map(shape).collect()
}

#[test]
fn test_is_minify_skip_marker() {
    assert_eq!(is_skip("#[rust_minify::skip]mod a;"), true);
}

#[test]
fn test_is_minify_skip_marker_in_cfg_attr() {
    assert_eq!(is_skip("#[cfg_attr(foo, rust_minify::skip)]mod a;"), true);
}

#[test]
fn test_is_minify_skip_rustfmt() {
    assert_eq!(is_skip("#[rustfmt::skip]mod a;"), false);
}

#[test]
fn test_is_minify_skip_rustfmt_in_cfg_attr() {
    assert_eq!(is_skip("#[cfg_attr(foo, rustfmt::skip)]mod a;"), false);
}

#[test]
fn test_any_drain_filter() {
    let mut v = vec![1, 2, 3, 4, 5];
    let result = any_drain_filter(&mut v, |x| *x % 2 == 0);
    assert!(result);
    assert_eq!(v, vec![1, 3, 5]);
}

#[test]
fn any_drain_filter_that_takes_nothing_out() {
    let mut v = vec![1, 3, 5];
    assert!(!any_drain_filter(&mut v, |x| *x % 2 == 0));
    assert_eq!(v, vec![1, 3, 5]);
    let mut none: Vec<u8> = vec![];
    assert!(!any_drain_filter(&mut none, |_| true));
    assert!(none.is_empty());
    let mut all = vec!["a".to_string(), "b".to_string()];
    assert!(any_drain_filter(&mut all, |_| true));
    assert!(all.is_empty());
}

#[test]
fn retain_unflagged_keeps_the_order() {
    assert_eq!(
        retain_unflagged(vec!['a', 'b', 'c', 'd'], &vec![false, true, false, true]),
        vec!['a', 'c']
    );
    assert_eq!(retain_unflagged(vec![1, 2], &vec![false, false]), vec![1, 2]);
    assert_eq!(retain_unflagged(vec![1, 2], &vec![true, true]), Vec::<i32>::new());
    assert_eq!(retain_unflagged(Vec::<i32>::new(), &vec![]), Vec::<i32>::new());
    assert_eq!(retain_unflagged(vec![1, 2, 3], &vec![true]), vec![2, 3]);
    assert_eq!(retain_unflagged(vec![1], &vec![false, true, true]), vec![1]);
}

#[test]
fn no_attribute_is_no_marker() {
    assert!(!is_skip("mod a;"));
    assert!(!is_minify_skip(&[]));
}

#[test]
fn a_declaration_that_has_no_attributes_is_never_preserved() {
    assert!(!classify(&None));
    assert!(!classify(&Some(vec![])));
    assert!(!classify(&Some(vec![word(&["inline"])])));
    assert!(classify(&Some(vec![word(&["inline"]), word(&["rust_minify", "skip"])])));
}

#[test]
fn marker_among_other_attributes() {
    assert!(is_skip("#[inline] #[rust_minify::skip] #[doc = \"x\"] fn f() {}"));
    assert!(is_skip("/// doc\n#[derive(Clone)]\n#[rust_minify::skip]\nstruct S;"));
    assert!(!is_skip("#[inline] #[doc = \"rust_minify::skip\"] fn f() {}"));
}

#[test]
fn paths_that_are_not_the_marker() {
    assert!(!is_skip("#[::rust_minify::skip]mod a;"));
    assert!(!is_skip("#[rust_minify::skip::more]mod a;"));
    assert!(!is_skip("#[skip]mod a;"));
    assert!(!is_skip("#[rust_minify]mod a;"));
    assert!(!is_skip("#[rust_minify::skip(x)]mod a;"));
    assert!(!is_skip("#[rust_minify::skip = 1]mod a;"));
    assert!(!is_skip("#[r#rust_minify::skip]mod a;"));
}

#[test]
fn marker_as_the_condition_of_cfg_attr_does_not_count() {
    assert!(!is_skip("#[cfg_attr(rust_minify::skip, foo)]mod a;"));
    assert!(!is_skip("#[cfg_attr(rust_minify::skip)]mod a;"));
    assert!(is_skip("#[cfg_attr(rust_minify::skip, rust_minify::skip)]mod a;"));
}

#[test]
fn marker_in_a_later_argument_or_nested_deeper() {
    assert!(is_skip("#[cfg_attr(foo, inline, rust_minify::skip)]mod a;"));
    assert!(is_skip("#[cfg_attr(foo, cfg_attr(bar, rust_minify::skip))]mod a;"));
    assert!(is_skip("#[cfg_attr(foo, cfg_attr(bar, baz, cfg_attr(qux, rust_minify::skip)))]mod a;"));
    assert!(!is_skip("#[cfg_attr(foo, cfg_attr(rust_minify::skip, bar))]mod a;"));
    assert!(!is_skip("#[cfg_attr(foo, other(bar, rust_minify::skip))]mod a;"));
    assert!(!is_skip("#[other(foo, rust_minify::skip)]mod a;"));
    assert!(!is_skip("#[::cfg_attr(foo, rust_minify::skip)]mod a;"));
    assert!(!is_skip("#[a::cfg_attr(foo, rust_minify::skip)]mod a;"));
}

#[test]
fn arguments_that_are_no_attributes() {
    assert!(!is_skip("#[cfg_attr(foo, 1 + 2)]mod a;"));
    assert!(!is_skip("#[cfg_attr(foo rust_minify::skip)]mod a;"));
    assert_eq!(shapes(&metas_of("#[cfg_attr(foo, 1 + 2)]mod a;")), vec!["cfg_attr(?)"]);
}

#[test]
fn lowering_keeps_the_shape_of_the_attributes() {
    assert_eq!(
        shapes(&metas_of(
            "#[a] #[::b::c] #[d(e, f = 1, g(h), i::j,)] #[k = \"l\"] #[cfg_attr(any(a, b), m)] fn f() {}"
        )),
        vec!["a", "::b::c", "d(e,f=,g(h),i::j)", "k=", "cfg_attr(any(a,b),m)"]
    );
}

#[test]
fn meta_level_decision() {
    assert!(is_minify_skip_meta(&word(&["rust_minify", "skip"])));
    assert!(!is_minify_skip_meta(&word(&["rust_minify"])));
    assert!(!is_minify_skip_meta(&word(&["skip"])));
    assert!(!is_minify_skip_meta(&MetaItem::NameValue { path: path(&["rust_minify", "skip"]) }));
    assert!(!is_minify_skip_meta(&list("rust_minify", vec![word(&["skip"])])));
    assert!(is_minify_skip_meta(&list(
        "cfg_attr",
        vec![word(&["a"]), word(&["rust_minify", "skip"])]
    )));
    assert!(!is_minify_skip_meta(&list("cfg_attr", vec![word(&["rust_minify", "skip"])])));
    assert!(!is_minify_skip_meta(&list("cfg_attr", vec![])));
    assert!(!is_minify_skip_meta(&MetaItem::List { path: path(&["cfg_attr"]), args: None }));
    let with_arguments = MetaItem::Path {
        path: MetaPath {
            leading_colon: false,
            segments: vec![
                Segment { ident: "rust_minify".to_string(), bare: true },
                Segment { ident: "skip".to_string(), bare: false },
            ],
        },
    };
    assert!(!is_minify_skip_meta(&with_arguments));
}

#[test]
fn path_names() {
    assert!(path(&["cfg_attr"]).is_ident("cfg_attr"));
    assert!(!path(&["cfg_attr"]).is_ident("cfg"));
    assert!(!path(&["a", "cfg_attr"]).is_ident("cfg_attr"));
    assert!(!path(&[]).is_ident(""));
    assert!(path(&["rust_minify", "skip"]).is_skip_marker());
    assert!(!path(&["skip", "rust_minify"]).is_skip_marker());
    let rooted = MetaPath { leading_colon: true, ..path(&["cfg_attr"]) };
    assert!(!rooted.is_ident("cfg_attr"));
}

#[test]
fn plan_for_each_kind_of_attribute() {
    assert!(matches!(strip_plan(&word(&["inline"])), Strip::Keep));
    assert!(matches!(strip_plan(&word(&["rust_minify", "skip"])), Strip::Remove));
    assert!(matches!(
        strip_plan(&list("cfg_attr", vec![word(&["a"]), word(&["inline"])])),
        Strip::Keep
    ));
    assert!(matches!(
        strip_plan(&list("derive", vec![word(&["a"]), word(&["rust_minify", "skip"])])),
        Strip::Keep
    ));
    match strip_plan(&list(
        "cfg_attr",
        vec![
            word(&["rust_minify", "skip"]),
            word(&["inline"]),
            word(&["rust_minify", "skip"]),
            list("cfg_attr", vec![word(&["b"]), word(&["rust_minify", "skip"])]),
        ],
    )) {
        Strip::Trim(flags) => assert_eq!(flags, vec![false, false, true, true]),
        other => panic!("{:?}", other),
    }
}

#[test]
fn drain_takes_the_marker_off() {
    let mut attrs = metas_of("#[inline] #[rust_minify::skip] #[doc = \"x\"] #[rust_minify::skip] fn f() {}");
    assert!(drain_minify_skip(&mut attrs));
    assert_eq!(shapes(&attrs), vec!["inline", "doc="]);
    assert!(!is_minify_skip(&attrs));
}

#[test]
fn drain_without_a_marker_changes_nothing() {
    let mut attrs = metas_of("#[inline] #[cfg_attr(a, b)] #[cfg_attr(rust_minify::skip, c)] fn f() {}");
    assert!(!drain_minify_skip(&mut attrs));
    assert_eq!(shapes(&attrs), vec!["inline", "cfg_attr(a,b)", "cfg_attr(rust_minify::skip,c)"]);
    let mut none: Vec<MetaItem> = vec![];
    assert!(!drain_minify_skip(&mut none));
    assert!(none.is_empty());
}

#[test]
fn drain_leaves_the_other_arguments_of_a_wrapper() {
    let mut attrs = metas_of(
        "#[cfg_attr(a, rust_minify::skip, inline)] #[cfg_attr(rust_minify::skip, rust_minify::skip)] #[cfg_attr(b, cfg_attr(c, d, rust_minify::skip), e)] fn f() {}",
    );
    assert!(drain_minify_skip(&mut attrs));
    assert_eq!(shapes(&attrs), vec!["cfg_attr(a,inline)", "cfg_attr(rust_minify::skip)", "cfg_attr(b,e)"]);
    assert!(!is_minify_skip(&attrs));
}

#[test]
fn every_kind_of_declaration_gives_its_attributes() {
    for content in [
        "#[a] const X: u8 = 0;",
        "#[a] enum E {}",
        "#[a] extern crate x;",
        "#[a] fn f() {}",
        "#[a] extern \"C\" {}",
        "#[a] impl S {}",
        "#[a] m!();",
        "#[a] mod m;",
        "#[a] static X: u8 = 0;",
        "#[a] struct S;",
        "#[a] trait T {}",
        "#[a] trait T = U;",
        "#[a] type T = U;",
        "#[a] union U { a: u8 }",
        "#[a] use x;",
    ] {
        let mut item = syn::parse_str::<syn::Item>(content).unwrap();
        assert_eq!(item.get_attributes().map(|attrs| attrs.len()), Some(1), "{}", content);
        item.get_attributes_mut().unwrap().clear();
        assert_eq!(item.get_attributes().map(|attrs| attrs.len()), Some(0), "{}", content);
    }
    let mut verbatim = syn::Item::Verbatim(proc_macro2::TokenStream::new());
    assert!(verbatim.get_attributes().is_none());
    assert!(verbatim.get_attributes_mut().is_none());
}

fn stripped(content: &str) -> (bool, String) {
    let mut item = syn::parse_str::<syn::Item>(content).unwrap();
    let found = strip_attributes(item.get_attributes_mut().unwrap());
    (found, item.into_token_stream().to_string())
}

fn written(content: &str) -> String {
    syn::parse_str::<syn::Item>(content).unwrap().into_token_stream().to_string()
}

#[test]
fn strip_attributes_takes_the_marker_off_a_declaration() {
    assert_eq!(
        stripped("#[inline] #[rust_minify::skip] #[doc = \"x\"] #[rust_minify::skip] fn f() {}"),
        (true, written("#[inline] #[doc = \"x\"] fn f() {}"))
    );
    assert_eq!(stripped("#[rust_minify::skip] mod m;"), (true, written("mod m;")));
}

#[test]
fn strip_attributes_leaves_the_other_arguments_of_a_wrapper() {
    assert_eq!(
        stripped("#[cfg_attr(a, rust_minify::skip, inline)] fn f() {}"),
        (true, written("#[cfg_attr(a, inline)] fn f() {}"))
    );
    assert_eq!(
        stripped("#[cfg_attr(b, cfg_attr(c, d, rust_minify::skip), e)] #[cfg_attr(rust_minify::skip, rust_minify::skip)] fn f() {}"),
        (true, written("#[cfg_attr(b, e)] #[cfg_attr(rust_minify::skip)] fn f() {}"))
    );
}

#[test]
fn strip_attributes_without_a_marker_changes_nothing() {
    let content = "#[inline] #[cfg_attr(a, b,)] #[cfg_attr(rust_minify::skip, c)] #[d(1 + 2)] fn f() {}";
    assert_eq!(stripped(content), (false, written(content)));
    assert_eq!(stripped("fn f() {}"), (false, written("fn f() {}")));
}
