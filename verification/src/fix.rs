//! The normalizer: it takes out of a syntax tree the separators that the
//! grammar allows but does not need.

use syn::punctuated::Punctuated;
use vstd::prelude::*;

verus! {

/// The lists of a syntax tree that may end in a separator.
#[derive(Debug, Clone, Copy, PartialEq, Eq, Structural)]
pub enum ListKind {
    /// The arguments of `Vec<T,>`.
    AngleBracketedGenericArguments,
    /// The lifetimes of `for<'a,>`.
    BoundLifetimes,
    /// The bounds of an associated type constraint, `Item: A +`.
    Constraint,
    /// The variants of an enum in a derive input.
    DataEnum,
    /// The elements of `[a, b,]`.
    ExprArray,
    /// The arguments of `f(a, b,)`.
    ExprCall,
    /// The parameters of `|a, b,| c`.
    ExprClosure,
    /// The arguments of `x.f(a, b,)`.
    ExprMethodCall,
    /// The fields of `S { a, b, }`; the marker is `..`.
    ExprStruct,
    /// The elements of `(a, b,)`.
    ExprTuple,
    /// The fields of `struct S { a: A, }`.
    FieldsNamed,
    /// The fields of `struct S(A,)`.
    FieldsUnnamed,
    /// The parameters of `fn f<T,>()`.
    Generics,
    /// The variants of `enum E { A, }`.
    ItemEnum,
    /// The supertraits of `trait T: A +`.
    ItemTrait,
    /// The bounds of `trait T = A +;`.
    ItemTraitAlias,
    /// The bounds of `'a: 'b +`.
    LifetimeParam,
    /// The inputs of `Fn(A, B,)`.
    ParenthesizedGenericArguments,
    /// The elements of the pattern `[a, b,]`.
    PatSlice,
    /// The fields of the pattern `S { a, b, }`; the marker is `..`.
    PatStruct,
    /// The elements of the pattern `(a, b,)`.
    PatTuple,
    /// The bounds of `where 'a: 'b +`.
    PredicateLifetime,
    /// The bounds of `where T: A +`.
    PredicateType,
    /// The parameters of `fn f(a: A,)`; the marker is `...`.
    Signature,
    /// The bounds of `type T: A +;` in a trait.
    TraitItemType,
    /// The parameters of `fn(A, B,)`; the marker is `...`.
    TypeBareFn,
    /// The bounds of `impl A +`.
    TypeImplTrait,
    /// The bounds of `T: A +`.
    TypeParam,
    /// The bounds of `dyn A +`.
    TypeTraitObject,
    /// The elements of the type `(A, B,)`.
    TypeTuple,
    /// The items of `use a::{b, c,};`.
    UseGroup,
    /// The predicates of `where T: A,`.
    WhereClause,
}

/// When the separator at the end of a list has to stay.
#[derive(Debug, Clone, Copy, PartialEq, Eq, Structural)]
pub enum Exemption {
    /// Never: the separator is always optional.
    Never,
    /// Where the list has one element or none: `(a,)` is a tuple, `(a)` is not.
    SingleElement,
    /// Where a rest or variadic marker follows the list.
    Marker,
}

/// The exemption that holds for each kind of list.
pub open spec fn exemption(kind: ListKind) -> Exemption {
    match kind {
        ListKind::ExprTuple | ListKind::PatTuple | ListKind::TypeTuple => Exemption::SingleElement,
        ListKind::ExprStruct | ListKind::PatStruct | ListKind::Signature | ListKind::TypeBareFn => {
            Exemption::Marker
        },
        _ => Exemption::Never,
    }
}

/// Whether a list of `len` elements keeps a separator at its end; `marker`
/// says whether a rest or variadic marker follows the list.
pub open spec fn keeps_trailing(kind: ListKind, len: nat, marker: bool) -> bool {
    match exemption(kind) {
        Exemption::Never => false,
        Exemption::SingleElement => len <= 1,
        Exemption::Marker => marker,
    }
}

/// Decides `exemption`.
pub fn exemption_of(kind: ListKind) -> (e: Exemption)
    ensures
        e == exemption(kind),
{
    match kind {
        ListKind::ExprTuple => Exemption::SingleElement,
        ListKind::PatTuple => Exemption::SingleElement,
        ListKind::TypeTuple => Exemption::SingleElement,
        ListKind::ExprStruct => Exemption::Marker,
        ListKind::PatStruct => Exemption::Marker,
        ListKind::Signature => Exemption::Marker,
        ListKind::TypeBareFn => Exemption::Marker,
        _ => Exemption::Never,
    }
}

/// Whether the normalizer takes the separator off the end of a list.
pub fn strips_trailing(kind: ListKind, len: usize, marker: bool) -> (strip: bool)
    ensures
        strip == !keeps_trailing(kind, len as nat, marker),
{
    match exemption_of(kind) {
        Exemption::Never => true,
        Exemption::SingleElement => len > 1,
        Exemption::Marker => !marker,
    }
}

/// A punctuated list of `syn`.
#[verifier::external_type_specification]
#[verifier::external_body]
#[verifier::reject_recursive_types(T)]
#[verifier::reject_recursive_types(P)]
pub struct ExPunctuated<T, P>(Punctuated<T, P>);

/// Takes the separator off the end of a list, where there is one:
/// `Punctuated::pop_punct`, which leaves the elements and the separators
/// between them as they are, and does nothing to a list that ends in an
/// element.
#[verifier::external_body]
pub fn remove_trailing_punct<T, P>(punctuated: &mut Punctuated<T, P>) {
    punctuated.pop_punct();
}

/// Normalizes one list of the kind `kind`, which holds `len` elements;
/// `marker` says whether a rest or variadic marker follows it. A list that
/// keeps its separator is left as it is; any other is handed to
/// `remove_trailing_punct`.
pub(crate) fn trim_list<T, P>(kind: ListKind, len: usize, marker: bool, list: &mut Punctuated<T, P>)
    ensures
        keeps_trailing(kind, len as nat, marker) ==> *final(list) == *old(list),
{
    if strips_trailing(kind, len, marker) {
        remove_trailing_punct(list);
    }
}

/// A node of the syntax tree of `syn`.
#[verifier::external_type_specification]
#[verifier::external_body]
pub struct ExAngleBracketedGenericArguments(syn::AngleBracketedGenericArguments);

/// A node of the syntax tree of `syn`.
#[verifier::external_type_specification]
#[verifier::external_body]
pub struct ExBoundLifetimes(syn::BoundLifetimes);

/// A node of the syntax tree of `syn`.
#[verifier::external_type_specification]
#[verifier::external_body]
pub struct ExConstraint(syn::Constraint);

/// A node of the syntax tree of `syn`.
#[verifier::external_type_specification]
#[verifier::external_body]
pub struct ExDataEnum(syn::DataEnum);

/// A node of the syntax tree of `syn`.
#[verifier::external_type_specification]
#[verifier::external_body]
pub struct ExExprArray(syn::ExprArray);

/// A node of the syntax tree of `syn`.
#[verifier::external_type_specification]
#[verifier::external_body]
pub struct ExExprCall(syn::ExprCall);

/// A node of the syntax tree of `syn`.
#[verifier::external_type_specification]
#[verifier::external_body]
pub struct ExExprClosure(syn::ExprClosure);

/// A node of the syntax tree of `syn`.
#[verifier::external_type_specification]
#[verifier::external_body]
pub struct ExExprMethodCall(syn::ExprMethodCall);

/// A node of the syntax tree of `syn`.
#[verifier::external_type_specification]
#[verifier::external_body]
pub struct ExExprStruct(syn::ExprStruct);

/// A node of the syntax tree of `syn`.
#[verifier::external_type_specification]
#[verifier::external_body]
pub struct ExExprTuple(syn::ExprTuple);

/// A node of the syntax tree of `syn`.
#[verifier::external_type_specification]
#[verifier::external_body]
pub struct ExFieldsNamed(syn::FieldsNamed);

/// A node of the syntax tree of `syn`.
#[verifier::external_type_specification]
#[verifier::external_body]
pub struct ExFieldsUnnamed(syn::FieldsUnnamed);

/// A node of the syntax tree of `syn`.
#[verifier::external_type_specification]
#[verifier::external_body]
pub struct ExGenerics(syn::Generics);

/// A node of the syntax tree of `syn`.
#[verifier::external_type_specification]
#[verifier::external_body]
pub struct ExItem(syn::Item);

/// A node of the syntax tree of `syn`.
#[verifier::external_type_specification]
#[verifier::external_body]
pub struct ExItemEnum(syn::ItemEnum);

/// A node of the syntax tree of `syn`.
#[verifier::external_type_specification]
#[verifier::external_body]
pub struct ExItemTrait(syn::ItemTrait);

/// A node of the syntax tree of `syn`.
#[verifier::external_type_specification]
#[verifier::external_body]
pub struct ExItemTraitAlias(syn::ItemTraitAlias);

/// A node of the syntax tree of `syn`.
#[verifier::external_type_specification]
#[verifier::external_body]
pub struct ExLifetimeParam(syn::LifetimeParam);

/// A node of the syntax tree of `syn`.
#[verifier::external_type_specification]
#[verifier::external_body]
pub struct ExParenthesizedGenericArguments(syn::ParenthesizedGenericArguments);

/// A node of the syntax tree of `syn`.
#[verifier::external_type_specification]
#[verifier::external_body]
pub struct ExPatOr(syn::PatOr);

/// A node of the syntax tree of `syn`.
#[verifier::external_type_specification]
#[verifier::external_body]
pub struct ExPatSlice(syn::PatSlice);

/// A node of the syntax tree of `syn`.
#[verifier::external_type_specification]
#[verifier::external_body]
pub struct ExPatStruct(syn::PatStruct);

/// A node of the syntax tree of `syn`.
#[verifier::external_type_specification]
#[verifier::external_body]
pub struct ExPatTuple(syn::PatTuple);

/// A node of the syntax tree of `syn`.
#[verifier::external_type_specification]
#[verifier::external_body]
pub struct ExPredicateLifetime(syn::PredicateLifetime);

/// A node of the syntax tree of `syn`.
#[verifier::external_type_specification]
#[verifier::external_body]
pub struct ExPredicateType(syn::PredicateType);

/// A node of the syntax tree of `syn`.
#[verifier::external_type_specification]
#[verifier::external_body]
pub struct ExSignature(syn::Signature);

/// A node of the syntax tree of `syn`.
#[verifier::external_type_specification]
#[verifier::external_body]
pub struct ExTraitItemType(syn::TraitItemType);

/// A node of the syntax tree of `syn`.
#[verifier::external_type_specification]
#[verifier::external_body]
pub struct ExTypeBareFn(syn::TypeBareFn);

/// A node of the syntax tree of `syn`.
#[verifier::external_type_specification]
#[verifier::external_body]
pub struct ExTypeImplTrait(syn::TypeImplTrait);

/// A node of the syntax tree of `syn`.
#[verifier::external_type_specification]
#[verifier::external_body]
pub struct ExTypeParam(syn::TypeParam);

/// A node of the syntax tree of `syn`.
#[verifier::external_type_specification]
#[verifier::external_body]
pub struct ExTypeTraitObject(syn::TypeTraitObject);

/// A node of the syntax tree of `syn`.
#[verifier::external_type_specification]
#[verifier::external_body]
pub struct ExTypeTuple(syn::TypeTuple);

/// A node of the syntax tree of `syn`.
#[verifier::external_type_specification]
#[verifier::external_body]
pub struct ExUseGroup(syn::UseGroup);

/// A node of the syntax tree of `syn`.
#[verifier::external_type_specification]
#[verifier::external_body]
pub struct ExWhereClause(syn::WhereClause);

/// The normalizer. It holds no state: it is the walk over a syntax tree.
pub struct Visitor;

impl Visitor {
    /// Normalizes a declaration: `VisitMut::visit_item_mut`, which walks the
    /// tree and hands each node to the methods below.
    #[verifier::external_body]
    pub fn fix_item(node: &mut syn::Item)
        ensures
            *final(node) == normalized(*old(node)),
    {
        syn::visit_mut::VisitMut::visit_item_mut(&mut Visitor, node);
    }
}

/// The declaration after the walk of the normalizer: each list that the
/// methods below are handed has gone through `trim_list`, each or-pattern
/// has lost the `|` in front of it, and nothing else has changed.
pub uninterp spec fn normalized(item: syn::Item) -> syn::Item;

/// What the normalizer does at each node of a tree: `syn` calls these while
/// it walks.
impl syn::visit_mut::VisitMut for Visitor {
    /// Normalizes `args`, then walks on: `visit_mut::visit_angle_bracketed_generic_arguments_mut`.
    #[verifier::external_body]
    fn visit_angle_bracketed_generic_arguments_mut(&mut self, node: &mut syn::AngleBracketedGenericArguments) {
        trim_list(ListKind::AngleBracketedGenericArguments, node.args.len(), false, &mut node.args);
        syn::visit_mut::visit_angle_bracketed_generic_arguments_mut(self, node);
    }

    /// Normalizes `lifetimes`, then walks on: `visit_mut::visit_bound_lifetimes_mut`.
    #[verifier::external_body]
    fn visit_bound_lifetimes_mut(&mut self, node: &mut syn::BoundLifetimes) {
        trim_list(ListKind::BoundLifetimes, node.lifetimes.len(), false, &mut node.lifetimes);
        syn::visit_mut::visit_bound_lifetimes_mut(self, node);
    }

    /// Normalizes `bounds`, then walks on: `visit_mut::visit_constraint_mut`.
    #[verifier::external_body]
    fn visit_constraint_mut(&mut self, node: &mut syn::Constraint) {
        trim_list(ListKind::Constraint, node.bounds.len(), false, &mut node.bounds);
        syn::visit_mut::visit_constraint_mut(self, node);
    }

    /// Normalizes `variants`, then walks on: `visit_mut::visit_data_enum_mut`.
    #[verifier::external_body]
    fn visit_data_enum_mut(&mut self, node: &mut syn::DataEnum) {
        trim_list(ListKind::DataEnum, node.variants.len(), false, &mut node.variants);
        syn::visit_mut::visit_data_enum_mut(self, node);
    }

    /// Normalizes `elems`, then walks on: `visit_mut::visit_expr_array_mut`.
    #[verifier::external_body]
    fn visit_expr_array_mut(&mut self, node: &mut syn::ExprArray) {
        trim_list(ListKind::ExprArray, node.elems.len(), false, &mut node.elems);
        syn::visit_mut::visit_expr_array_mut(self, node);
    }

    /// Normalizes `args`, then walks on: `visit_mut::visit_expr_call_mut`.
    #[verifier::external_body]
    fn visit_expr_call_mut(&mut self, node: &mut syn::ExprCall) {
        trim_list(ListKind::ExprCall, node.args.len(), false, &mut node.args);
        syn::visit_mut::visit_expr_call_mut(self, node);
    }

    /// Normalizes `inputs`, then walks on: `visit_mut::visit_expr_closure_mut`.
    #[verifier::external_body]
    fn visit_expr_closure_mut(&mut self, node: &mut syn::ExprClosure) {
        trim_list(ListKind::ExprClosure, node.inputs.len(), false, &mut node.inputs);
        syn::visit_mut::visit_expr_closure_mut(self, node);
    }

    /// Normalizes `args`, then walks on: `visit_mut::visit_expr_method_call_mut`.
    #[verifier::external_body]
    fn visit_expr_method_call_mut(&mut self, node: &mut syn::ExprMethodCall) {
        trim_list(ListKind::ExprMethodCall, node.args.len(), false, &mut node.args);
        syn::visit_mut::visit_expr_method_call_mut(self, node);
    }

    /// Normalizes `fields`, then walks on: `visit_mut::visit_expr_struct_mut`.
    #[verifier::external_body]
    fn visit_expr_struct_mut(&mut self, node: &mut syn::ExprStruct) {
        trim_list(ListKind::ExprStruct, node.fields.len(), node.dot2_token.is_some(), &mut node.fields);
        syn::visit_mut::visit_expr_struct_mut(self, node);
    }

    /// Normalizes `elems`, then walks on: `visit_mut::visit_expr_tuple_mut`.
    #[verifier::external_body]
    fn visit_expr_tuple_mut(&mut self, node: &mut syn::ExprTuple) {
        trim_list(ListKind::ExprTuple, node.elems.len(), false, &mut node.elems);
        syn::visit_mut::visit_expr_tuple_mut(self, node);
    }

    /// Normalizes `named`, then walks on: `visit_mut::visit_fields_named_mut`.
    #[verifier::external_body]
    fn visit_fields_named_mut(&mut self, node: &mut syn::FieldsNamed) {
        trim_list(ListKind::FieldsNamed, node.named.len(), false, &mut node.named);
        syn::visit_mut::visit_fields_named_mut(self, node);
    }

    /// Normalizes `unnamed`, then walks on: `visit_mut::visit_fields_unnamed_mut`.
    #[verifier::external_body]
    fn visit_fields_unnamed_mut(&mut self, node: &mut syn::FieldsUnnamed) {
        trim_list(ListKind::FieldsUnnamed, node.unnamed.len(), false, &mut node.unnamed);
        syn::visit_mut::visit_fields_unnamed_mut(self, node);
    }

    /// Normalizes `params`, then walks on: `visit_mut::visit_generics_mut`.
    #[verifier::external_body]
    fn visit_generics_mut(&mut self, node: &mut syn::Generics) {
        trim_list(ListKind::Generics, node.params.len(), false, &mut node.params);
        syn::visit_mut::visit_generics_mut(self, node);
    }

    /// Normalizes `variants`, then walks on: `visit_mut::visit_item_enum_mut`.
    #[verifier::external_body]
    fn visit_item_enum_mut(&mut self, node: &mut syn::ItemEnum) {
        trim_list(ListKind::ItemEnum, node.variants.len(), false, &mut node.variants);
        syn::visit_mut::visit_item_enum_mut(self, node);
    }

    /// Normalizes `bounds`, then walks on: `visit_mut::visit_item_trait_alias_mut`.
    #[verifier::external_body]
    fn visit_item_trait_alias_mut(&mut self, node: &mut syn::ItemTraitAlias) {
        trim_list(ListKind::ItemTraitAlias, node.bounds.len(), false, &mut node.bounds);
        syn::visit_mut::visit_item_trait_alias_mut(self, node);
    }

    /// Normalizes `supertraits`, then walks on: `visit_mut::visit_item_trait_mut`.
    #[verifier::external_body]
    fn visit_item_trait_mut(&mut self, node: &mut syn::ItemTrait) {
        trim_list(ListKind::ItemTrait, node.supertraits.len(), false, &mut node.supertraits);
        syn::visit_mut::visit_item_trait_mut(self, node);
    }

    /// Normalizes `bounds`, then walks on: `visit_mut::visit_lifetime_param_mut`.
    #[verifier::external_body]
    fn visit_lifetime_param_mut(&mut self, node: &mut syn::LifetimeParam) {
        trim_list(ListKind::LifetimeParam, node.bounds.len(), false, &mut node.bounds);
        syn::visit_mut::visit_lifetime_param_mut(self, node);
    }

    /// Normalizes `inputs`, then walks on: `visit_mut::visit_parenthesized_generic_arguments_mut`.
    #[verifier::external_body]
    fn visit_parenthesized_generic_arguments_mut(&mut self, node: &mut syn::ParenthesizedGenericArguments) {
        trim_list(ListKind::ParenthesizedGenericArguments, node.inputs.len(), false, &mut node.inputs);
        syn::visit_mut::visit_parenthesized_generic_arguments_mut(self, node);
    }

    /// Takes the `|` off the front of an or-pattern, then walks on:
    /// `visit_mut::visit_pat_or_mut`.
    #[verifier::external_body]
    fn visit_pat_or_mut(&mut self, node: &mut syn::PatOr) {
        node.leading_vert.take();
        syn::visit_mut::visit_pat_or_mut(self, node);
    }

    /// Normalizes `elems`, then walks on: `visit_mut::visit_pat_slice_mut`.
    #[verifier::external_body]
    fn visit_pat_slice_mut(&mut self, node: &mut syn::PatSlice) {
        trim_list(ListKind::PatSlice, node.elems.len(), false, &mut node.elems);
        syn::visit_mut::visit_pat_slice_mut(self, node);
    }

    /// Normalizes `fields`, then walks on: `visit_mut::visit_pat_struct_mut`.
    #[verifier::external_body]
    fn visit_pat_struct_mut(&mut self, node: &mut syn::PatStruct) {
        trim_list(ListKind::PatStruct, node.fields.len(), node.rest.is_some(), &mut node.fields);
        syn::visit_mut::visit_pat_struct_mut(self, node);
    }

    /// Normalizes `elems`, then walks on: `visit_mut::visit_pat_tuple_mut`.
    #[verifier::external_body]
    fn visit_pat_tuple_mut(&mut self, node: &mut syn::PatTuple) {
        trim_list(ListKind::PatTuple, node.elems.len(), false, &mut node.elems);
        syn::visit_mut::visit_pat_tuple_mut(self, node);
    }

    /// Normalizes `bounds`, then walks on: `visit_mut::visit_predicate_lifetime_mut`.
    #[verifier::external_body]
    fn visit_predicate_lifetime_mut(&mut self, node: &mut syn::PredicateLifetime) {
        trim_list(ListKind::PredicateLifetime, node.bounds.len(), false, &mut node.bounds);
        syn::visit_mut::visit_predicate_lifetime_mut(self, node);
    }

    /// Normalizes `bounds`, then walks on: `visit_mut::visit_predicate_type_mut`.
    #[verifier::external_body]
    fn visit_predicate_type_mut(&mut self, node: &mut syn::PredicateType) {
        trim_list(ListKind::PredicateType, node.bounds.len(), false, &mut node.bounds);
        syn::visit_mut::visit_predicate_type_mut(self, node);
    }

    /// Normalizes `inputs`, then walks on: `visit_mut::visit_signature_mut`.
    #[verifier::external_body]
    fn visit_signature_mut(&mut self, node: &mut syn::Signature) {
        trim_list(ListKind::Signature, node.inputs.len(), node.variadic.is_some(), &mut node.inputs);
        syn::visit_mut::visit_signature_mut(self, node);
    }

    /// Normalizes `bounds`, then walks on: `visit_mut::visit_trait_item_type_mut`.
    #[verifier::external_body]
    fn visit_trait_item_type_mut(&mut self, node: &mut syn::TraitItemType) {
        trim_list(ListKind::TraitItemType, node.bounds.len(), false, &mut node.bounds);
        syn::visit_mut::visit_trait_item_type_mut(self, node);
    }

    /// Normalizes `inputs`, then walks on: `visit_mut::visit_type_bare_fn_mut`.
    #[verifier::external_body]
    fn visit_type_bare_fn_mut(&mut self, node: &mut syn::TypeBareFn) {
        trim_list(ListKind::TypeBareFn, node.inputs.len(), node.variadic.is_some(), &mut node.inputs);
        syn::visit_mut::visit_type_bare_fn_mut(self, node);
    }

    /// Normalizes `bounds`, then walks on: `visit_mut::visit_type_impl_trait_mut`.
    #[verifier::external_body]
    fn visit_type_impl_trait_mut(&mut self, node: &mut syn::TypeImplTrait) {
        trim_list(ListKind::TypeImplTrait, node.bounds.len(), false, &mut node.bounds);
        syn::visit_mut::visit_type_impl_trait_mut(self, node);
    }

    /// Normalizes `bounds`, then walks on: `visit_mut::visit_type_param_mut`.
    #[verifier::external_body]
    fn visit_type_param_mut(&mut self, node: &mut syn::TypeParam) {
        trim_list(ListKind::TypeParam, node.bounds.len(), false, &mut node.bounds);
        syn::visit_mut::visit_type_param_mut(self, node);
    }

    /// Normalizes `bounds`, then walks on: `visit_mut::visit_type_trait_object_mut`.
    #[verifier::external_body]
    fn visit_type_trait_object_mut(&mut self, node: &mut syn::TypeTraitObject) {
        trim_list(ListKind::TypeTraitObject, node.bounds.len(), false, &mut node.bounds);
        syn::visit_mut::visit_type_trait_object_mut(self, node);
    }

    /// Normalizes `elems`, then walks on: `visit_mut::visit_type_tuple_mut`.
    #[verifier::external_body]
    fn visit_type_tuple_mut(&mut self, node: &mut syn::TypeTuple) {
        trim_list(ListKind::TypeTuple, node.elems.len(), false, &mut node.elems);
        syn::visit_mut::visit_type_tuple_mut(self, node);
    }

    /// Normalizes `items`, then walks on: `visit_mut::visit_use_group_mut`.
    #[verifier::external_body]
    fn visit_use_group_mut(&mut self, node: &mut syn::UseGroup) {
        trim_list(ListKind::UseGroup, node.items.len(), false, &mut node.items);
        syn::visit_mut::visit_use_group_mut(self, node);
    }

    /// Normalizes `predicates`, then walks on: `visit_mut::visit_where_clause_mut`.
    #[verifier::external_body]
    fn visit_where_clause_mut(&mut self, node: &mut syn::WhereClause) {
        trim_list(ListKind::WhereClause, node.predicates.len(), false, &mut node.predicates);
        syn::visit_mut::visit_where_clause_mut(self, node);
    }
}

} // verus!
