//! Reading the attribute's input: its argument must be a literal, and the
//! annotated item an impl block, whose trait path and implementing type the
//! decisions of `custom_element` read.
use vstd::prelude::*;
use crate::custom_element::GenericArgument::{Other as OtherArg, Type as TypeArg};
use crate::custom_element::PathArguments::{AngleBracketed as Angle, Bare, Parenthesized as Paren};
use crate::custom_element::TypeShape::{Other as OtherShape, Path as ShapePath};
use crate::custom_element::{
    custom_element_plan, plan_follows, reads_are_in_bounds, reads_in_bounds, CustomElement, MacroError,
    PathSegment, TypeShape,
};
use proc_macro2::{Literal, TokenStream};
use syn::GenericArgument::Type as SynType;
use syn::PathArguments::{AngleBracketed, Parenthesized};
use syn::Type::Path as SynPath;
use syn::{parse2, ItemImpl, Type};

verus! {

#[verifier::external_type_specification]
#[verifier::external_body]
pub struct ExTokenStream(proc_macro2::TokenStream);

#[verifier::external_type_specification]
#[verifier::external_body]
pub struct ExLiteral(proc_macro2::Literal);

#[verifier::external_type_specification]
#[verifier::external_body]
pub struct ExItemImpl(syn::ItemImpl);

/// What `syn::parse2::<proc_macro2::Literal>` gives for the tokens: the
/// literal when they are a single literal, `None` otherwise.
pub uninterp spec fn literal_of(attr: TokenStream) -> Option<Literal>;

/// What `syn::parse2::<syn::ItemImpl>` gives for the tokens, converted: the
/// segments of the implemented trait's path (none for an inherent impl), the
/// implementing type, and the impl block; `None` when the tokens are not an
/// impl block.
pub uninterp spec fn parsed_impl_of(item: TokenStream) -> Option<(Option<Vec<PathSegment>>, TypeShape, ItemImpl)>;

/// Calls `syn::parse2::<proc_macro2::Literal>` on `attr`. Claimed: the result
/// depends on the tokens alone, as `parse2` reads nothing else.
#[verifier::external_body]
fn parse_literal(attr: TokenStream) -> (tag: Option<Literal>)
    ensures
        tag == literal_of(attr),
{
    parse2(attr).ok()
}

/// Calls `syn::parse2::<syn::ItemImpl>` on `item` and, when it succeeds,
/// converts the trait path's segments (name, and arguments down to the
/// segment names of path types) and the implementing type, and hands them
/// out with the parsed impl block. Claimed: the result depends on the tokens
/// alone, as `parse2` reads nothing else.
#[verifier::external_body]
fn parse_impl_item(item: TokenStream) -> (parsed: Option<(Option<Vec<PathSegment>>, TypeShape, ItemImpl)>)
    ensures
        parsed == parsed_impl_of(item),
{
    let i: ItemImpl = parse2(item).ok()?;
    let ty = |t: &Type| match t { SynPath(p) => ShapePath(p.path.segments.iter().map(|s| s.ident.to_string()).collect()), _ => OtherShape };
    Some((i.trait_.as_ref().map(|x| x.1.segments.iter().map(|s| PathSegment { ident: s.ident.to_string(), arguments: match &s.arguments {
        AngleBracketed(b) => Angle(b.args.iter().map(|g| match g { SynType(t) => TypeArg(ty(t)), _ => OtherArg }).collect()),
        Parenthesized(_) => Paren,
        _ => Bare,
    } }).collect()), ty(&i.self_ty), i))
}

/// What the attribute read: its tag, the annotated impl block, and the
/// trait path and implementing type that the decision reads from it.
pub struct ReadItem {
    pub tag: Literal,
    pub item: ItemImpl,
    pub trait_path: Option<Vec<PathSegment>>,
    pub self_ty: TypeShape,
}

/// `decision` is what the attribute decides for the trait at `trait_path`
/// implemented for `self_ty`: the plan of [`custom_element_plan`], or `None`
/// when a position that plan reads is missing.
pub open spec fn decided_from(
    trait_path: Option<Vec<PathSegment>>,
    self_ty: TypeShape,
    decision: Option<Result<CustomElement, MacroError>>,
) -> bool {
    if reads_in_bounds(trait_path, self_ty) {
        decision matches Some(plan) && plan_follows(trait_path, self_ty, plan)
    } else {
        decision is None
    }
}

/// Decides what the custom-element attribute generates for the attribute
/// argument `attr` and the annotated item `item`.
///
/// The argument must be a single literal and the item an impl block, in
/// that order; otherwise nothing is read and the attribute is rejected with
/// [`MacroError::NotALiteral`] or [`MacroError::NotAnImplItem`]. Otherwise
/// the decision is that of [`custom_element_plan`] on the trait path and
/// implementing type read from the item, which are handed out with it;
/// `None` when a position that plan reads is missing: a supported trait with
/// empty angle brackets, or an implementing type with an empty path.
pub fn custom_element_decision(attr: TokenStream, item: TokenStream) -> (d: (
    Option<ReadItem>,
    Option<Result<CustomElement, MacroError>>,
))
    ensures
        literal_of(attr) is None ==> d.0 is None && d.1 == Some(Err::<CustomElement, MacroError>(MacroError::NotALiteral)),
        literal_of(attr) matches Some(tag) ==> match parsed_impl_of(item) {
            None => d.0 is None && d.1 == Some(Err::<CustomElement, MacroError>(MacroError::NotAnImplItem)),
            Some((trait_path, self_ty, parsed)) => {
                &&& d.0 matches Some(read) && read.tag == tag && read.item == parsed && read.trait_path == trait_path
                    && read.self_ty == self_ty
                &&& decided_from(trait_path, self_ty, d.1)
            },
        },
{
    let tag = match parse_literal(attr) {
        None => return (None, Some(Err(MacroError::NotALiteral))),
        Some(tag) => tag,
    };
    match parse_impl_item(item) {
        None => (None, Some(Err(MacroError::NotAnImplItem))),
        Some((trait_path, self_ty, item)) => {
            let decision = if reads_are_in_bounds(&trait_path, &self_ty) {
                Some(custom_element_plan(&trait_path, &self_ty))
            } else {
                None
            };
            (Some(ReadItem { tag, item, trait_path, self_ty }), decision)
        },
    }
}

} // verus!
