use sauron::custom_element::{
    custom_element_plan, get_msg_generic_ident, CustomElement, ElementKind, GenericArgument,
    MacroError, PathArguments, PathSegment, TypeShape,
};
use sauron::macro_input::custom_element_decision;

fn decide(attr: &str, item: &str) -> Option<Result<CustomElement, MacroError>> {
    let attr: proc_macro2::TokenStream = attr.parse().unwrap();
    let item: proc_macro2::TokenStream = item.parse().unwrap();
    custom_element_decision(attr, item).1
}

fn path(segments: &[&str]) -> TypeShape {
    TypeShape::Path(segments.iter().map(|s| s.to_string()).collect())
}

fn segment(ident: &str, args: PathArguments) -> PathSegment {
    PathSegment { ident: ident.to_string(), arguments: args }
}

fn generic(ty: TypeShape) -> PathArguments {
    PathArguments::AngleBracketed(vec![GenericArgument::Type(ty), GenericArgument::Type(path(&["XMsg"]))])
}

#[test]
fn component_names() {
    let trait_path = Some(vec![segment("sauron", PathArguments::Bare), segment("Component", generic(path(&["crate", "Msg"])))]);
    let plan = custom_element_plan(&trait_path, &path(&["DateTimeWidget"])).unwrap();
    assert_eq!(
        plan,
        CustomElement {
            kind: ElementKind::Component,
            component: "DateTimeWidget".to_string(),
            msg_type: "Msg".to_string(),
            element_struct: "_DateTimeWidget__CustomElement".to_string(),
            msg_struct: Some("_DateTimeWidget__CustomMsg".to_string()),
            register_fn: "register".to_string(),
        }
    );
}

#[test]
fn application_names() {
    let trait_path = Some(vec![segment("Application", generic(path(&["Msg"])))]);
    let plan = custom_element_plan(&trait_path, &path(&["App", "Inner"])).unwrap();
    assert_eq!(plan.kind, ElementKind::Application);
    assert_eq!(plan.component, "App");
    assert_eq!(plan.element_struct, "_App__CustomElement");
    assert_eq!(plan.msg_struct, None);
    assert_eq!(plan.register_fn, "register_application");
}

#[test]
fn rejections_in_order() {
    assert_eq!(custom_element_plan(&None, &path(&["A"])), Err(MacroError::NoTraitImplementation));
    assert_eq!(custom_element_plan(&Some(vec![]), &path(&["A"])), Err(MacroError::NoLastSegment));
    let other = Some(vec![segment("Widget", generic(path(&["Msg"])))]);
    assert_eq!(
        custom_element_plan(&other, &TypeShape::Other),
        Err(MacroError::UnsupportedTrait("Widget".to_string()))
    );
    let bare = Some(vec![segment("Component", PathArguments::Bare)]);
    assert_eq!(custom_element_plan(&bare, &TypeShape::Other), Err(MacroError::ExpectingGenericArgument));
    let good = Some(vec![segment("Component", generic(path(&["Msg"])))]);
    assert_eq!(custom_element_plan(&good, &TypeShape::Other), Err(MacroError::ExpectingPath));
}

#[test]
fn message_generic_errors() {
    assert_eq!(
        get_msg_generic_ident(&segment("Component", PathArguments::Parenthesized)),
        Err(MacroError::ExpectingGenericArgument)
    );
    assert_eq!(
        get_msg_generic_ident(&segment("Component", PathArguments::AngleBracketed(vec![GenericArgument::Other]))),
        Err(MacroError::ExpectingGenericArgumentType)
    );
    assert_eq!(
        get_msg_generic_ident(&segment("Component", generic(TypeShape::Other))),
        Err(MacroError::ExpectingTypePath)
    );
    assert_eq!(
        get_msg_generic_ident(&segment("Component", generic(TypeShape::Path(vec![])))),
        Err(MacroError::NoGenericPathSegment)
    );
    assert_eq!(
        get_msg_generic_ident(&segment("Component", generic(path(&["a", "b", "Msg"])))),
        Ok("Msg".to_string())
    );
}

#[test]
fn error_messages() {
    assert_eq!(MacroError::UnsupportedTrait("Foo".to_string()).message(), "unsupported trait implementation: Foo");
    assert_eq!(MacroError::NoTraitImplementation.message(), "must have a trait implementation");
    assert_eq!(MacroError::NoLastSegment.message(), "must have a last segment");
    assert_eq!(MacroError::ExpectingGenericArgument.message(), "expecting a generic argument");
    assert_eq!(MacroError::ExpectingGenericArgumentType.message(), "expecting a generic argument type");
    assert_eq!(MacroError::ExpectingTypePath.message(), "expecting a type path");
    assert_eq!(MacroError::NoGenericPathSegment.message(), "must have a generic path segment");
    assert_eq!(MacroError::ExpectingPath.message(), "Expecting a Path");
    assert_eq!(MacroError::NotALiteral.message(), "must be a literal");
    assert_eq!(
        MacroError::NotAnImplItem.message(),
        "Expecting custom_element macro to be used in impl trait"
    );
}

#[test]
fn unsupported_trait_with_empty_angle_brackets() {
    let empty = Some(vec![segment("Foo", PathArguments::AngleBracketed(vec![]))]);
    assert_eq!(
        custom_element_plan(&empty, &path(&["X"])),
        Err(MacroError::UnsupportedTrait("Foo".to_string()))
    );
}

#[test]
fn only_the_last_segment_decides() {
    let short = Some(vec![segment("Component", generic(path(&["Msg"])))]);
    let long = Some(vec![
        segment("sauron", PathArguments::Bare),
        segment("component", PathArguments::Bare),
        segment("Component", generic(path(&["Msg"]))),
    ]);
    assert_eq!(
        custom_element_plan(&short, &path(&["Widget"])),
        custom_element_plan(&long, &path(&["Widget"]))
    );
    let view = Some(vec![segment("sauron", PathArguments::Bare), segment("View", generic(path(&["Msg"])))]);
    assert_eq!(
        custom_element_plan(&view, &path(&["V"])),
        Err(MacroError::UnsupportedTrait("View".to_string()))
    );
}

#[test]
fn decision_on_a_component_impl() {
    let plan = decide(
        "\"date-time\"",
        "impl sauron::Component<Msg, XMsg> for DateTimeWidget { fn view(&self) -> Node<Msg> { todo!() } }",
    );
    assert_eq!(
        plan,
        Some(Ok(CustomElement {
            kind: ElementKind::Component,
            component: "DateTimeWidget".to_string(),
            msg_type: "Msg".to_string(),
            element_struct: "_DateTimeWidget__CustomElement".to_string(),
            msg_struct: Some("_DateTimeWidget__CustomMsg".to_string()),
            register_fn: "register".to_string(),
        }))
    );
}

#[test]
fn decision_on_an_application_impl() {
    let plan = decide("\"my-app\"", "impl Application<app::Msg> for App {}").unwrap().unwrap();
    assert_eq!(plan.kind, ElementKind::Application);
    assert_eq!(plan.component, "App");
    assert_eq!(plan.msg_type, "Msg");
    assert_eq!(plan.register_fn, "register_application");
}

#[test]
fn decision_rejects_a_non_literal_argument() {
    assert_eq!(
        decide("date_time", "impl Component<Msg> for W {}"),
        Some(Err(MacroError::NotALiteral))
    );
}

#[test]
fn decision_rejects_an_item_that_is_not_an_impl() {
    assert_eq!(
        decide("\"tag\"", "struct W;"),
        Some(Err(MacroError::NotAnImplItem))
    );
    assert_eq!(
        decide("42", "fn main() {}"),
        Some(Err(MacroError::NotAnImplItem))
    );
}

#[test]
fn decision_reports_the_errors_of_the_parsed_item() {
    assert_eq!(
        decide("\"tag\"", "impl W {}"),
        Some(Err(MacroError::NoTraitImplementation))
    );
    assert_eq!(
        decide("\"tag\"", "impl View<Msg> for V {}"),
        Some(Err(MacroError::UnsupportedTrait("View".to_string())))
    );
    assert_eq!(
        decide("\"tag\"", "impl Foo<> for X {}"),
        Some(Err(MacroError::UnsupportedTrait("Foo".to_string())))
    );
    assert_eq!(
        decide("\"tag\"", "impl Component<'a> for W {}"),
        Some(Err(MacroError::ExpectingGenericArgumentType))
    );
    assert_eq!(
        decide("\"tag\"", "impl Component<Msg> for &W {}"),
        Some(Err(MacroError::ExpectingPath))
    );
}

#[test]
fn decision_gives_none_where_a_read_position_is_missing() {
    assert_eq!(decide("\"tag\"", "impl Component<> for W {}"), None);
}

#[test]
fn decision_hands_out_what_it_read() {
    let attr: proc_macro2::TokenStream = "\"date-time\"".parse().unwrap();
    let item: proc_macro2::TokenStream = "impl sauron::Component<Msg, XMsg> for DateTimeWidget {}".parse().unwrap();
    let (read, plan) = custom_element_decision(attr, item);
    let read = read.unwrap();
    assert_eq!(read.tag.to_string(), "\"date-time\"");
    assert_eq!(read.self_ty, path(&["DateTimeWidget"]));
    assert_eq!(
        read.trait_path,
        Some(vec![
            segment("sauron", PathArguments::Bare),
            segment("Component", generic(path(&["Msg"]))),
        ])
    );
    assert_eq!(plan, Some(custom_element_plan(&read.trait_path, &read.self_ty)));
    let attr: proc_macro2::TokenStream = "date_time".parse().unwrap();
    let item: proc_macro2::TokenStream = "impl Component<Msg> for W {}".parse().unwrap();
    let (read, plan) = custom_element_decision(attr, item);
    assert!(read.is_none());
    assert_eq!(plan, Some(Err(MacroError::NotALiteral)));
}

#[test]
fn decision_checks_the_argument_before_the_item() {
    assert_eq!(decide("date_time", "struct W;"), Some(Err(MacroError::NotALiteral)));
    assert_eq!(decide("", "struct W;"), Some(Err(MacroError::NotALiteral)));
    assert_eq!(decide("\"tag\"", "struct W;"), Some(Err(MacroError::NotAnImplItem)));
}
