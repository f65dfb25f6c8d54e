//! The skip marker: which declarations carry `rust_minify::skip`, and how
//! the marker is taken off a declaration's attributes.

use syn::punctuated::Punctuated;
use syn::{
    Item, ItemConst, ItemEnum, ItemExternCrate, ItemFn, ItemForeignMod, ItemImpl, ItemMacro,
    ItemMod, ItemStatic, ItemStruct, ItemTrait, ItemTraitAlias, ItemType, ItemUnion, ItemUse,
};
use vstd::prelude::*;
use vstd::string::StringExecFns;

verus! {

/// One segment of a path.
#[derive(Debug)]
pub struct Segment {
    /// The name.
    pub ident: String,
    /// Whether the segment is the name alone, with no generic arguments.
    pub bare: bool,
}

/// A path such as `rust_minify::skip`.
#[derive(Debug)]
pub struct MetaPath {
    /// Whether the path starts with `::`.
    pub leading_colon: bool,
    pub segments: Vec<Segment>,
}

/// What an attribute holds between `#[` and `]`.
#[derive(Debug)]
pub enum MetaItem {
    /// A path alone, as in `#[test]`.
    Path { path: MetaPath },
    /// A path and delimited arguments, as in `#[cfg_attr(test, inline)]`.
    /// `args` is `None` where the arguments are not a list of attributes
    /// separated by commas.
    List { path: MetaPath, args: Option<Vec<MetaItem>> },
    /// A path and a value, as in `#[path = "a.rs"]`.
    NameValue { path: MetaPath },
}

/// Whether `path` is the single name `name`: no leading `::`, one segment,
/// no generic arguments.
pub open spec fn is_name(path: MetaPath, name: Seq<char>) -> bool {
    &&& !path.leading_colon
    &&& path.segments@.len() == 1
    &&& path.segments@[0].bare
    &&& path.segments@[0].ident@ == name
}

/// Whether `path` is the skip marker, `rust_minify::skip`.
pub open spec fn is_marker(path: MetaPath) -> bool {
    &&& !path.leading_colon
    &&& path.segments@.len() == 2
    &&& path.segments@[0].bare
    &&& path.segments@[0].ident@ == "rust_minify"@
    &&& path.segments@[1].bare
    &&& path.segments@[1].ident@ == "skip"@
}

/// Whether an attribute asks for its declaration to be preserved: it is the
/// marker, or a `cfg_attr` whose second or a later argument asks for it.
pub open spec fn marks_skip(meta: MetaItem) -> bool
    decreases meta,
{
    match meta {
        MetaItem::Path { path } => is_marker(path),
        MetaItem::List { path, args } => is_name(path, "cfg_attr"@) && match args {
            Some(list) => exists|i: int| 1 <= i < list@.len() && marks_skip(#[trigger] list@[i]),
            None => false,
        },
        MetaItem::NameValue { .. } => false,
    }
}

/// Whether one of the attributes asks for its declaration to be preserved.
pub open spec fn any_marks_skip(attrs: Seq<MetaItem>) -> bool {
    exists|i: int| 0 <= i < attrs.len() && marks_skip(#[trigger] attrs[i])
}

/// A declaration without attributes is never preserved.
pub proof fn lemma_no_attributes_no_skip()
    ensures
        !any_marks_skip(Seq::<MetaItem>::empty()),
{
}

impl MetaPath {
    /// Decides `is_name`.
    pub fn is_ident(&self, name: &str) -> (b: bool)
        ensures
            b == is_name(*self, name@),
    {
        if self.leading_colon || self.segments.len() != 1 {
            return false;
        }
        let segment = &self.segments[0];
        segment.bare && segment.ident == String::from_str(name)
    }

    /// Decides `is_marker`.
    pub fn is_skip_marker(&self) -> (b: bool)
        ensures
            b == is_marker(*self),
    {
        if self.leading_colon || self.segments.len() != 2 {
            return false;
        }
        let first = &self.segments[0];
        let second = &self.segments[1];
        first.bare && first.ident == String::from_str("rust_minify")
            && second.bare && second.ident == String::from_str("skip")
    }
}

/// Decides `marks_skip`.
#[verifier::loop_isolation(false)]
pub fn is_minify_skip_meta(meta: &MetaItem) -> (b: bool)
    ensures
        b == marks_skip(*meta),
    decreases meta,
{
    match meta {
        MetaItem::Path { path } => path.is_skip_marker(),
        MetaItem::List { path, args } => {
            if !path.is_ident("cfg_attr") {
                return false;
            }
            match args {
                Some(list) => {
                    let mut i: usize = 1;
                    while i < list.len()
                        invariant
                            1 <= i,
                            forall|k: int| 1 <= k < i && k < list@.len() ==> !marks_skip(
                                #[trigger] list@[k],
                            ),
                        decreases list.len() - i,
                    {
                        if is_minify_skip_meta(&list[i]) {
                            return true;
                        }
                        i = i + 1;
                    }
                    false
                },
                None => false,
            }
        },
        MetaItem::NameValue { .. } => false,
    }
}

/// Whether a declaration with these attributes is preserved.
pub fn is_minify_skip(attrs: &[MetaItem]) -> (b: bool)
    ensures
        b == any_marks_skip(attrs@),
{
    let mut i: usize = 0;
    while i < attrs.len()
        invariant
            forall|k: int| 0 <= k < i && k < attrs@.len() ==> !marks_skip(#[trigger] attrs@[k]),
        decreases attrs.len() - i,
    {
        if is_minify_skip_meta(&attrs[i]) {
            return true;
        }
        i = i + 1;
    }
    false
}

/// Whether a declaration is preserved: it is of a kind that has
/// attributes, and one of them asks for it.
pub fn classify(attrs: &Option<Vec<MetaItem>>) -> (preserve: bool)
    ensures
        preserve == (attrs matches Some(list) && any_marks_skip(list@)),
{
    match attrs {
        Some(list) => is_minify_skip(list.as_slice()),
        None => false,
    }
}

/// The elements of `items` whose flag is not set, in their order.
pub open spec fn unflagged<T>(items: Seq<T>, flags: Seq<bool>) -> Seq<T>
    decreases items.len(),
{
    if items.len() == 0 {
        Seq::<T>::empty()
    } else if items.len() <= flags.len() && flags[items.len() - 1] {
        unflagged(items.drop_last(), flags)
    } else {
        unflagged(items.drop_last(), flags).push(items.last())
    }
}

/// Takes out of `v` the elements for which `filter` holds and keeps the
/// others in their order; tells whether it took any out.
pub fn any_drain_filter<T, F: Fn(&T) -> bool>(v: &mut Vec<T>, filter: F) -> (removed: bool)
    requires
        forall|i: int| 0 <= i < old(v)@.len() ==> call_requires(filter, (&old(v)@[i],)),
    ensures
        exists|flags: Seq<bool>|
            {
                &&& flags.len() == old(v)@.len()
                &&& forall|i: int|
                    0 <= i < flags.len() ==> call_ensures(
                        filter,
                        (&old(v)@[i],),
                        #[trigger] flags[i],
                    )
                &&& final(v)@ == unflagged(old(v)@, flags)
                &&& removed == flags.contains(true)
            },
{
    let mut all: Vec<T> = Vec::new();
    core::mem::swap(v, &mut all);
    let ghost items = all@;
    let ghost mut flags = Seq::<bool>::empty();
    let mut removed = false;
    for item in it: all
        invariant
            it.seq() == items,
            forall|i: int| 0 <= i < items.len() ==> call_requires(filter, (&items[i],)),
            flags.len() == it.index(),
            forall|i: int|
                0 <= i < flags.len() ==> call_ensures(filter, (&items[i],), #[trigger] flags[i]),
            v@ == unflagged(items.take(it.index()), flags),
            removed == flags.contains(true),
    {
        let ghost before = flags;
        let ghost n = it.index();
        let drop = filter(&item);
        proof {
            flags = flags.push(drop);
            assert(items.take(n + 1).drop_last() =~= items.take(n));
            assert(items.take(n + 1).last() == items[n]);
            lemma_unflagged_prefix(items.take(n), before, flags);
            if drop {
                assert(flags[n] == true);
            } else {
                assert forall|k: int| 0 <= k < flags.len() && flags[k] implies before.contains(
                    true,
                ) by {
                    assert(before[k] == true);
                }
            }
            if before.contains(true) {
                let k = choose|k: int| 0 <= k < before.len() && before[k] == true;
                assert(flags[k] == true);
            }
        }
        if drop {
            removed = true;
        } else {
            v.push(item);
        }
    }
    proof {
        assert(items.take(items.len() as int) =~= items);
    }
    removed
}

/// `unflagged` reads only the flags of the elements it is given.
proof fn lemma_unflagged_prefix<T>(items: Seq<T>, flags: Seq<bool>, longer: Seq<bool>)
    requires
        items.len() <= flags.len() <= longer.len(),
        forall|i: int| 0 <= i < flags.len() ==> flags[i] == longer[i],
    ensures
        unflagged(items, flags) == unflagged(items, longer),
    decreases items.len(),
{
    if items.len() > 0 {
        lemma_unflagged_prefix(items.drop_last(), flags, longer);
    }
}

/// Keeps the elements of `items` whose flag is not set; an element that
/// has no flag is kept.
pub fn retain_unflagged<T>(items: Vec<T>, flags: &Vec<bool>) -> (kept: Vec<T>)
    ensures
        kept@ == unflagged(items@, flags@),
{
    let ghost all = items@;
    let total = items.len();
    let mut kept: Vec<T> = Vec::new();
    let mut n: usize = 0;
    for item in it: items
        invariant
            it.seq() == all,
            all.len() == total,
            n == it.index(),
            kept@ == unflagged(all.take(n as int), flags@),
    {
        proof {
            assert(all.take(n + 1).drop_last() =~= all.take(n as int));
            assert(all.take(n + 1).last() == all[n as int]);
        }
        if n < flags.len() && flags[n] {
        } else {
            kept.push(item);
        }
        n = n + 1;
    }
    proof {
        assert(all.take(all.len() as int) =~= all);
    }
    kept
}

/// What taking the marker off does to one attribute.
#[derive(Debug)]
pub enum Strip {
    /// The attribute stays as it is.
    Keep,
    /// The attribute is the marker: it goes.
    Remove,
    /// The attribute is a `cfg_attr` that asks for preservation: of its
    /// arguments, those whose flag is set go.
    Trim(Vec<bool>),
}

/// For each argument of a `cfg_attr`, whether it goes when the marker is
/// taken off: the first, which is the condition, stays; a later one goes
/// where it asks for the declaration to be preserved.
pub open spec fn skip_flags(args: Seq<MetaItem>) -> Seq<bool> {
    Seq::new(args.len(), |i: int| i >= 1 && marks_skip(args[i]))
}

/// Whether `plan` is what taking the marker off does to `meta`.
pub open spec fn is_plan_of(meta: MetaItem, plan: Strip) -> bool {
    match meta {
        MetaItem::Path { path } => if is_marker(path) {
            plan is Remove
        } else {
            plan is Keep
        },
        MetaItem::List { args: Some(list), .. } => if marks_skip(meta) {
            plan matches Strip::Trim(flags) && flags@ == skip_flags(list@)
        } else {
            plan is Keep
        },
        _ => plan is Keep,
    }
}

/// Decides what taking the marker off does to one attribute.
pub fn strip_plan(meta: &MetaItem) -> (plan: Strip)
    ensures
        is_plan_of(*meta, plan),
        !(plan is Keep) <==> marks_skip(*meta),
{
    match meta {
        MetaItem::Path { path } => {
            if path.is_skip_marker() {
                Strip::Remove
            } else {
                Strip::Keep
            }
        },
        MetaItem::List { path, args: Some(list) } => {
            if !path.is_ident("cfg_attr") {
                return Strip::Keep;
            }
            let mut flags: Vec<bool> = Vec::new();
            let mut found = false;
            let mut i: usize = 0;
            while i < list.len()
                invariant
                    i <= list.len(),
                    flags@ == skip_flags(list@.take(i as int)),
                    found == exists|k: int| 1 <= k < i && marks_skip(#[trigger] list@[k]),
                decreases list.len() - i,
            {
                let goes = i >= 1 && is_minify_skip_meta(&list[i]);
                flags.push(goes);
                found = found || goes;
                proof {
                    assert(flags@ =~= skip_flags(list@.take(i + 1)));
                }
                i = i + 1;
            }
            proof {
                assert(list@.take(list.len() as int) =~= list@);
            }
            if found {
                Strip::Trim(flags)
            } else {
                Strip::Keep
            }
        },
        _ => Strip::Keep,
    }
}

/// Whether an attribute is the marker itself.
pub open spec fn is_marker_attribute(meta: MetaItem) -> bool {
    meta matches MetaItem::Path { path } && is_marker(path)
}

/// The attributes that are not the marker itself, in their order.
pub open spec fn without_markers(attrs: Seq<MetaItem>) -> Seq<MetaItem>
    decreases attrs.len(),
{
    if attrs.len() == 0 {
        Seq::<MetaItem>::empty()
    } else if is_marker_attribute(attrs.last()) {
        without_markers(attrs.drop_last())
    } else {
        without_markers(attrs.drop_last()).push(attrs.last())
    }
}

/// Whether `after` is `before` with the marker taken off: a `cfg_attr` that
/// asks for preservation keeps its path and, of its arguments, those that
/// do not ask for it; any other attribute is unchanged.
pub open spec fn trimmed_to(before: MetaItem, after: MetaItem) -> bool {
    match before {
        MetaItem::List { path, args: Some(list) } => if marks_skip(before) {
            after matches MetaItem::List { path: same, args: Some(kept) } && same == path
                && kept@ == unflagged(list@, skip_flags(list@))
        } else {
            after == before
        },
        _ => after == before,
    }
}

/// Of the arguments of a `cfg_attr` that stay when the marker is taken
/// off, the first is the condition and no later one asks for preservation.
pub proof fn lemma_kept_args(args: Seq<MetaItem>)
    ensures
        args.len() > 0 ==> unflagged(args, skip_flags(args)).len() >= 1 && unflagged(
            args,
            skip_flags(args),
        )[0] == args[0],
        forall|j: int|
            1 <= j < unflagged(args, skip_flags(args)).len() ==> !marks_skip(
                #[trigger] unflagged(args, skip_flags(args))[j],
            ),
    decreases args.len(),
{
    if args.len() > 0 {
        let front = args.drop_last();
        lemma_kept_args(front);
        lemma_unflagged_prefix(front, skip_flags(front), skip_flags(args));
        let before = unflagged(front, skip_flags(args));
        let kept = unflagged(args, skip_flags(args));
        assert(before == unflagged(front, skip_flags(front)));
        if skip_flags(args)[args.len() - 1] {
            assert(kept == before);
        } else {
            assert(kept == before.push(args.last()));
            assert forall|j: int| 1 <= j < kept.len() implies !marks_skip(#[trigger] kept[j]) by {
                if j < before.len() {
                    assert(kept[j] == before[j]);
                }
            }
        }
    }
}

/// An attribute from which the marker was taken off asks for nothing.
pub proof fn lemma_trimmed_asks_nothing(before: MetaItem, after: MetaItem)
    requires
        trimmed_to(before, after),
        !is_marker_attribute(before),
    ensures
        !marks_skip(after),
{
    if marks_skip(before) {
        lemma_kept_args(before->List_args->0@);
    }
}

/// Takes the marker off the attributes of a declaration: an attribute that
/// is the marker goes, and a `cfg_attr` loses the arguments that ask for
/// preservation. Tells whether the declaration is to be preserved; what is
/// left asks for nothing.
pub fn drain_minify_skip(attrs: &mut Vec<MetaItem>) -> (found: bool)
    ensures
        found == any_marks_skip(old(attrs)@),
        !any_marks_skip(final(attrs)@),
        final(attrs)@.len() == without_markers(old(attrs)@).len(),
        forall|i: int|
            0 <= i < final(attrs)@.len() ==> trimmed_to(
                without_markers(old(attrs)@)[i],
                #[trigger] final(attrs)@[i],
            ),
{
    let mut all: Vec<MetaItem> = Vec::new();
    core::mem::swap(attrs, &mut all);
    let ghost items = all@;
    let mut found = false;
    for item in it: all
        invariant
            it.seq() == items,
            found == any_marks_skip(items.take(it.index())),
            attrs@.len() == without_markers(items.take(it.index())).len(),
            forall|i: int|
                0 <= i < attrs@.len() ==> trimmed_to(
                    without_markers(items.take(it.index()))[i],
                    #[trigger] attrs@[i],
                ),
    {
        let ghost n = it.index();
        let ghost done = items.take(n);
        let ghost next = items.take(n + 1);
        proof {
            assert(next.drop_last() =~= done);
            assert(next.last() == items[n]);
            assert(any_marks_skip(next) == (any_marks_skip(done) || marks_skip(item))) by {
                if any_marks_skip(done) {
                    let k = choose|k: int| 0 <= k < done.len() && marks_skip(#[trigger] done[k]);
                    assert(next[k] == done[k]);
                }
                if marks_skip(item) {
                    assert(marks_skip(next[n]));
                }
                if any_marks_skip(next) {
                    let k = choose|k: int| 0 <= k < next.len() && marks_skip(#[trigger] next[k]);
                    if k < n {
                        assert(done[k] == next[k]);
                    }
                }
            }
        }
        match strip_plan(&item) {
            Strip::Keep => {
                attrs.push(item);
            },
            Strip::Remove => {
                found = true;
            },
            Strip::Trim(flags) => {
                found = true;
                match item {
                    MetaItem::List { path, args: Some(list) } => {
                        let kept = retain_unflagged(list, &flags);
                        attrs.push(MetaItem::List { path, args: Some(kept) });
                    },
                    other => {
                        attrs.push(other);
                    },
                }
            },
        }
    }
    proof {
        assert(items.take(items.len() as int) =~= items);
        lemma_without_markers(items);
        assert forall|i: int| 0 <= i < attrs@.len() implies !marks_skip(#[trigger] attrs@[i]) by {
            lemma_trimmed_asks_nothing(without_markers(items)[i], attrs@[i]);
        }
    }
    found
}

/// `without_markers` holds no attribute that is the marker.
pub proof fn lemma_without_markers(attrs: Seq<MetaItem>)
    ensures
        forall|i: int|
            0 <= i < without_markers(attrs).len() ==> !is_marker_attribute(
                #[trigger] without_markers(attrs)[i],
            ),
    decreases attrs.len(),
{
    if attrs.len() > 0 {
        let front = without_markers(attrs.drop_last());
        lemma_without_markers(attrs.drop_last());
        assert forall|i: int| 0 <= i < without_markers(attrs).len() implies !is_marker_attribute(
            #[trigger] without_markers(attrs)[i],
        ) by {
            if i < front.len() {
                assert(without_markers(attrs)[i] == front[i]);
            }
        }
    }
}

/// An attribute of `syn`.
#[verifier::external_type_specification]
#[verifier::external_body]
pub struct ExAttribute(syn::Attribute);

/// What an attribute of `syn` holds between `#[` and `]`.
#[verifier::external_type_specification]
#[verifier::external_body]
pub struct ExMeta(syn::Meta);

/// A path of `syn`.
#[verifier::external_type_specification]
#[verifier::external_body]
pub struct ExPath(syn::Path);

/// The attributes of a declaration.
pub trait ItemExt {
    /// The attributes, where the declaration is of a kind that has any.
    fn get_attributes(&self) -> Option<&[syn::Attribute]>;

    /// The attributes, to be changed.
    fn get_attributes_mut(&mut self) -> Option<&mut Vec<syn::Attribute>>;
}

impl ItemExt for Item {
    fn get_attributes(&self) -> (attrs: Option<&[syn::Attribute]>)
        ensures
            match attrs {
                Some(list) => attributes_of(*self) == Some(list@),
                None => attributes_of(*self) is None,
            },
    {
        item_attributes(self)
    }

    fn get_attributes_mut(&mut self) -> (attrs: Option<&mut Vec<syn::Attribute>>)
        ensures
            match attrs {
                Some(list) => attributes_of(*old(self)) == Some(list@) && *final(self)
                    == with_attributes(*old(self), final(list)@),
                None => attributes_of(*old(self)) is None && *final(self) == *old(self),
            },
    {
        item_attributes_mut(self)
    }
}

/// The attributes that a declaration holds, in their order; `None` for a
/// declaration of the kind that has none.
pub uninterp spec fn attributes_of(item: Item) -> Option<Seq<syn::Attribute>>;

/// The declaration with `attrs` in the place of its attributes.
pub uninterp spec fn with_attributes(item: Item, attrs: Seq<syn::Attribute>) -> Item;

/// The field `attrs` of a declaration, whatever its variant; `None` for
/// `Item::Verbatim`, which has none.
#[verifier::external_body]
pub(crate) fn item_attributes(item: &Item) -> (attrs: Option<&[syn::Attribute]>)
    ensures
        match attrs {
            Some(list) => attributes_of(*item) == Some(list@),
            None => attributes_of(*item) is None,
        },
{
    match item {
        Item::Const(ItemConst { attrs, .. }) | Item::Enum(ItemEnum { attrs, .. })
        | Item::ExternCrate(ItemExternCrate { attrs, .. }) | Item::Fn(ItemFn { attrs, .. })
        | Item::ForeignMod(ItemForeignMod { attrs, .. }) | Item::Impl(ItemImpl { attrs, .. })
        | Item::Macro(ItemMacro { attrs, .. }) | Item::Mod(ItemMod { attrs, .. })
        | Item::Static(ItemStatic { attrs, .. }) | Item::Struct(ItemStruct { attrs, .. })
        | Item::Trait(ItemTrait { attrs, .. }) | Item::TraitAlias(ItemTraitAlias { attrs, .. })
        | Item::Type(ItemType { attrs, .. }) | Item::Union(ItemUnion { attrs, .. })
        | Item::Use(ItemUse { attrs, .. }) => Some(attrs),
        _ => None,
    }
}

/// The field `attrs` of a declaration, to be changed; `None` for
/// `Item::Verbatim`, which has none. What is written through the reference
/// is what the declaration then holds as its attributes; nothing else of
/// the declaration changes.
#[verifier::external_body]
pub(crate) fn item_attributes_mut(item: &mut Item) -> (attrs: Option<&mut Vec<syn::Attribute>>)
    ensures
        match attrs {
            Some(list) => attributes_of(*old(item)) == Some(list@) && *final(item)
                == with_attributes(*old(item), final(list)@),
            None => attributes_of(*old(item)) is None && *final(item) == *old(item),
        },
{
    match item {
        Item::Const(ItemConst { attrs, .. }) | Item::Enum(ItemEnum { attrs, .. })
        | Item::ExternCrate(ItemExternCrate { attrs, .. }) | Item::Fn(ItemFn { attrs, .. })
        | Item::ForeignMod(ItemForeignMod { attrs, .. }) | Item::Impl(ItemImpl { attrs, .. })
        | Item::Macro(ItemMacro { attrs, .. }) | Item::Mod(ItemMod { attrs, .. })
        | Item::Static(ItemStatic { attrs, .. }) | Item::Struct(ItemStruct { attrs, .. })
        | Item::Trait(ItemTrait { attrs, .. }) | Item::TraitAlias(ItemTraitAlias { attrs, .. })
        | Item::Type(ItemType { attrs, .. }) | Item::Union(ItemUnion { attrs, .. })
        | Item::Use(ItemUse { attrs, .. }) => Some(attrs),
        _ => None,
    }
}

/// A path of `syn` as plain values: `leading_colon`, and of each segment
/// the identifier as `to_string` gives it and whether `arguments` is empty.
#[verifier::external_body]
pub(crate) fn lower_path(path: &syn::Path) -> MetaPath {
    MetaPath {
        leading_colon: path.leading_colon.is_some(),
        segments: path.segments.iter().map(|segment| Segment {
                ident: segment.ident.to_string(),
                bare: segment.arguments.is_none(),
            }).collect(),
    }
}

/// The arguments of a list attribute, as `MetaList::parse_args_with` and
/// `Punctuated::parse_terminated` read them: attributes separated by
/// commas, or `None` where the tokens are no such list.
#[verifier::external_body]
pub(crate) fn nested_metas(list: &syn::MetaList) -> Option<Vec<syn::Meta>> {
    list.parse_args_with(Punctuated::<syn::Meta, syn::token::Comma>::parse_terminated)
        .ok()
        .map(|args| args.into_iter().collect())
}

/// What an attribute holds, as plain values, variant for variant.
#[verifier::external_body]
pub(crate) fn lower_meta(meta: &syn::Meta) -> MetaItem {
    match meta {
        syn::Meta::Path(path) => MetaItem::Path { path: lower_path(path) },
        syn::Meta::List(list) => MetaItem::List {
            path: lower_path(&list.path),
            args: nested_metas(list).map(|args| args.iter().map(lower_meta).collect()),
        },
        syn::Meta::NameValue(pair) => MetaItem::NameValue { path: lower_path(&pair.path) },
    }
}

/// What an attribute holds between `#[` and `]`, as plain values.
pub uninterp spec fn meta_of(attr: syn::Attribute) -> MetaItem;

/// The field `meta` of an attribute, as plain values.
#[verifier::external_body]
pub(crate) fn lower_attribute(attr: &syn::Attribute) -> (meta: MetaItem)
    ensures
        meta == meta_of(*attr),
{
    lower_meta(&attr.meta)
}

/// The arguments of an attribute that is a list of attributes separated by
/// commas; `None` for any other attribute.
pub uninterp spec fn args_of(attr: syn::Attribute) -> Option<Seq<syn::Meta>>;

/// The arguments of an attribute that is a list; `None` for another
/// attribute, and where the arguments are no list of attributes.
#[verifier::external_body]
pub(crate) fn attribute_args(attr: &syn::Attribute) -> (args: Option<Vec<syn::Meta>>)
    ensures
        match args {
            Some(list) => args_of(*attr) == Some(list@),
            None => args_of(*attr) is None,
        },
{
    match &attr.meta {
        syn::Meta::List(list) => nested_metas(list),
        _ => None,
    }
}

/// The attribute with `args`, separated by commas, in the place of its
/// arguments.
pub uninterp spec fn with_arguments(attr: syn::Attribute, args: Seq<syn::Meta>) -> syn::Attribute;

/// The attribute with `args`, separated by commas, in the place of its
/// arguments; an attribute that is no list is handed back as it is.
#[verifier::external_body]
pub(crate) fn with_args(attr: syn::Attribute, args: Vec<syn::Meta>) -> (rebuilt: syn::Attribute)
    ensures
        rebuilt == with_arguments(attr, args@),
{
    let mut attr = attr;
    if let syn::Meta::List(list) = &mut attr.meta {
        let args: Punctuated<syn::Meta, syn::token::Comma> = args.into_iter().collect();
        list.tokens = quote::ToTokens::into_token_stream(args);
    }
    attr
}

/// What each of the attributes holds, as plain values.
pub open spec fn metas_of(attrs: Seq<syn::Attribute>) -> Seq<MetaItem> {
    Seq::new(attrs.len(), |i: int| meta_of(attrs[i]))
}

/// The attributes of a declaration, as plain values.
pub fn lower_attributes(attrs: &[syn::Attribute]) -> (metas: Vec<MetaItem>)
    ensures
        metas@ == metas_of(attrs@),
{
    let mut metas: Vec<MetaItem> = Vec::new();
    let mut i: usize = 0;
    while i < attrs.len()
        invariant
            i <= attrs.len(),
            metas@ =~= metas_of(attrs@.take(i as int)),
        decreases attrs.len() - i,
    {
        metas.push(lower_attribute(&attrs[i]));
        i = i + 1;
    }
    proof {
        assert(attrs@.take(attrs@.len() as int) =~= attrs@);
    }
    metas
}

/// What taking the marker off makes of one attribute: the marker itself
/// goes; a `cfg_attr` that asks for preservation loses the arguments that
/// ask for it; any other attribute stays as it is.
pub open spec fn stripped_attribute(attr: syn::Attribute) -> Option<syn::Attribute> {
    let meta = meta_of(attr);
    if is_marker_attribute(meta) {
        None
    } else if marks_skip(meta) {
        match (meta, args_of(attr)) {
            (MetaItem::List { args: Some(list), .. }, Some(args)) => Some(
                with_arguments(attr, unflagged(args, skip_flags(list@))),
            ),
            _ => Some(attr),
        }
    } else {
        Some(attr)
    }
}

/// What taking the marker off makes of the attributes of a declaration.
pub open spec fn stripped_attributes(attrs: Seq<syn::Attribute>) -> Seq<syn::Attribute>
    decreases attrs.len(),
{
    if attrs.len() == 0 {
        Seq::<syn::Attribute>::empty()
    } else {
        match stripped_attribute(attrs.last()) {
            Some(attr) => stripped_attributes(attrs.drop_last()).push(attr),
            None => stripped_attributes(attrs.drop_last()),
        }
    }
}

/// Takes the marker off the attributes of a declaration, as
/// `drain_minify_skip` does; tells whether the declaration is to be
/// preserved.
pub fn strip_attributes(attrs: &mut Vec<syn::Attribute>) -> (found: bool)
    ensures
        found == any_marks_skip(metas_of(old(attrs)@)),
        final(attrs)@ == stripped_attributes(old(attrs)@),
{
    let mut all: Vec<syn::Attribute> = Vec::new();
    core::mem::swap(attrs, &mut all);
    let ghost items = all@;
    let mut found = false;
    for attr in it: all
        invariant
            it.seq() == items,
            found == any_marks_skip(metas_of(items.take(it.index()))),
            attrs@ == stripped_attributes(items.take(it.index())),
    {
        let ghost n = it.index();
        let meta = lower_attribute(&attr);
        let plan = strip_plan(&meta);
        proof {
            let done = items.take(n);
            let next = items.take(n + 1);
            assert(next.drop_last() =~= done);
            assert(next.last() == items[n]);
            assert(metas_of(next) =~= metas_of(done).push(meta));
            lemma_any_marks_skip_push(metas_of(done), meta);
        }
        match plan {
            Strip::Keep => {
                attrs.push(attr);
            },
            Strip::Remove => {
                found = true;
            },
            Strip::Trim(flags) => {
                found = true;
                match attribute_args(&attr) {
                    Some(args) => {
                        let kept = retain_unflagged(args, &flags);
                        attrs.push(with_args(attr, kept));
                    },
                    None => {
                        attrs.push(attr);
                    },
                }
            },
        }
    }
    proof {
        assert(items.take(items.len() as int) =~= items);
    }
    found
}

/// One more attribute asks for preservation, or one before it did.
pub proof fn lemma_any_marks_skip_push(metas: Seq<MetaItem>, meta: MetaItem)
    ensures
        any_marks_skip(metas.push(meta)) == (any_marks_skip(metas) || marks_skip(meta)),
{
    let longer = metas.push(meta);
    let n = metas.len() as int;
    if any_marks_skip(metas) {
        let k = choose|k: int| 0 <= k < metas.len() && marks_skip(#[trigger] metas[k]);
        assert(longer[k] == metas[k]);
    }
    if marks_skip(meta) {
        assert(marks_skip(longer[n]));
    }
    if any_marks_skip(longer) {
        let k = choose|k: int| 0 <= k < longer.len() && marks_skip(#[trigger] longer[k]);
        if k < n {
            assert(metas[k] == longer[k]);
        }
    }
}

} // verus!
