//! The decisions of the custom-element attribute: which kind of custom
//! element an annotated trait implementation registers, which message type
//! it uses, and the names of the items it generates.
use vstd::prelude::*;

verus! {

/// A type as far as the attribute reads it.
#[derive(Debug, PartialEq, Eq)]
pub enum TypeShape {
    /// A path type, by the names of its segments.
    Path(Vec<String>),
    /// Any other type.
    Other,
}

/// A generic argument of a path segment.
#[derive(Debug, PartialEq, Eq)]
pub enum GenericArgument {
    /// A type argument.
    Type(TypeShape),
    /// A lifetime, a constant, a binding or a constraint.
    Other,
}

/// The arguments of a path segment.
#[derive(Debug, PartialEq, Eq)]
pub enum PathArguments {
    /// No arguments, as in `Component`.
    Bare,
    /// Arguments in angle brackets, as in `Component<Msg, XMsg>`.
    AngleBracketed(Vec<GenericArgument>),
    /// Arguments in parentheses, as in `Fn(A) -> B`.
    Parenthesized,
}

/// One segment of a path: its name and its arguments.
#[derive(Debug, PartialEq, Eq)]
pub struct PathSegment {
    pub ident: String,
    pub arguments: PathArguments,
}

/// Why the attribute rejects the item it annotates.
#[derive(Debug, PartialEq, Eq)]
pub enum MacroError {
    /// The attribute's argument is not a literal.
    NotALiteral,
    /// The annotated item is not an impl block.
    NotAnImplItem,
    /// The item is not a trait implementation.
    NoTraitImplementation,
    /// The implemented trait's path has no segment.
    NoLastSegment,
    /// The implemented trait is neither `Component` nor `Application`.
    UnsupportedTrait(String),
    /// The trait's last segment has no arguments in angle brackets.
    ExpectingGenericArgument,
    /// The trait's first generic argument is not a type.
    ExpectingGenericArgumentType,
    /// The trait's first generic argument is not a path type.
    ExpectingTypePath,
    /// The trait's first generic argument is a path with no segment.
    NoGenericPathSegment,
    /// The implementing type is not a path type.
    ExpectingPath,
}

/// The kind of custom element that is registered.
#[derive(Debug, PartialEq, Eq)]
pub enum ElementKind {
    /// An implementation of `Component`: its messages are wrapped in a
    /// generated message type.
    Component,
    /// An implementation of `Application`.
    Application,
}

/// What the attribute generates around the annotated implementation.
#[derive(Debug, PartialEq, Eq)]
pub struct CustomElement {
    pub kind: ElementKind,
    /// The implementing type's name (the first segment of its path).
    pub component: String,
    /// The message type: the last segment of the trait's first generic argument.
    pub msg_type: String,
    /// The name of the generated custom-element struct.
    pub element_struct: String,
    /// The name of the generated message wrapper, for a component.
    pub msg_struct: Option<String>,
    /// The name of the generated registration function.
    pub register_fn: String,
}

/// The kind registered for a trait of this name, if it is supported.
pub open spec fn element_kind(trait_name: Seq<char>) -> Option<ElementKind> {
    if trait_name == "Component"@ {
        Some(ElementKind::Component)
    } else if trait_name == "Application"@ {
        Some(ElementKind::Application)
    } else {
        None
    }
}

/// The segment's generic arguments start with an argument, when they are in
/// angle brackets.
pub open spec fn has_first_argument(segment: PathSegment) -> bool {
    segment.arguments matches PathArguments::AngleBracketed(args) ==> args@.len() > 0
}

/// The message type named by a trait's last path segment: the last segment
/// of the path type that is its first generic argument.
pub open spec fn msg_generic_ident(segment: PathSegment) -> Result<String, MacroError> {
    match segment.arguments {
        PathArguments::AngleBracketed(args) => match args@[0] {
            GenericArgument::Type(TypeShape::Path(segments)) => if segments@.len() > 0 {
                Ok(segments@.last())
            } else {
                Err(MacroError::NoGenericPathSegment)
            },
            GenericArgument::Type(TypeShape::Other) => Err(MacroError::ExpectingTypePath),
            GenericArgument::Other => Err(MacroError::ExpectingGenericArgumentType),
        },
        _ => Err(MacroError::ExpectingGenericArgument),
    }
}

/// The kind, implementing type's name and message type of the annotated
/// implementation of the trait at `trait_path` for `self_ty`, or why it is
/// rejected. The checks come in this order: there is a trait, its path has a
/// last segment, the trait is supported, the message type can be read, the
/// implementing type is a path.
pub open spec fn custom_element_outcome(trait_path: Option<Vec<PathSegment>>, self_ty: TypeShape) -> Result<
    (ElementKind, String, String),
    MacroError,
> {
    match trait_path {
        None => Err(MacroError::NoTraitImplementation),
        Some(segments) => if segments@.len() == 0 {
            Err(MacroError::NoLastSegment)
        } else {
            let last = segments@.last();
            match element_kind(last.ident@) {
                None => Err(MacroError::UnsupportedTrait(last.ident)),
                Some(kind) => match msg_generic_ident(last) {
                    Err(e) => Err(e),
                    Ok(msg) => match self_ty {
                        TypeShape::Path(path) => Ok((kind, path@[0], msg)),
                        TypeShape::Other => Err(MacroError::ExpectingPath),
                    },
                },
            }
        },
    }
}

/// The positions the decision reads exist, on the path it takes: when the
/// trait is supported, its last segment has a first generic argument; when
/// that argument also names a message type and the implementing type is a
/// path, the path has a first segment.
pub open spec fn reads_in_bounds(trait_path: Option<Vec<PathSegment>>, self_ty: TypeShape) -> bool {
    match trait_path {
        Some(segments) => segments@.len() > 0 && element_kind(segments@.last().ident@) is Some ==> {
            &&& has_first_argument(segments@.last())
            &&& msg_generic_ident(segments@.last()) is Ok ==> (self_ty matches TypeShape::Path(path)
                ==> path@.len() > 0)
        },
        None => true,
    }
}

/// `plan` is what the attribute generates for the implementation of the trait
/// at `trait_path` for `self_ty`: the outcome's error, or its kind, type names
/// and the generated names that follow from them.
pub open spec fn plan_follows(trait_path: Option<Vec<PathSegment>>, self_ty: TypeShape, plan: Result<CustomElement, MacroError>) -> bool {
    match plan {
        Err(e) => custom_element_outcome(trait_path, self_ty) == Err::<(ElementKind, String, String), MacroError>(e),
        Ok(ce) => {
            &&& custom_element_outcome(trait_path, self_ty) == Ok::<(ElementKind, String, String), MacroError>((ce.kind, ce.component, ce.msg_type))
            &&& ce.element_struct@ == "_"@ + ce.component@ + "__CustomElement"@
            &&& match ce.kind {
                ElementKind::Component => {
                    &&& ce.msg_struct matches Some(m) && m@ == "_"@ + ce.component@ + "__CustomMsg"@
                    &&& ce.register_fn@ == "register"@
                },
                ElementKind::Application => {
                    &&& ce.msg_struct is None
                    &&& ce.register_fn@ == "register_application"@
                },
            }
        },
    }
}

/// Only the last segment of the trait's path decides: two trait paths that
/// end in the same segment give the same outcome for the same implementing
/// type, whatever segments lead to it, and an accepted implementation
/// registers the kind that the last segment's name selects.
pub proof fn lemma_last_segment_decides(a: Vec<PathSegment>, b: Vec<PathSegment>, self_ty: TypeShape)
    requires
        a@.len() > 0,
        b@.len() > 0,
        a@.last() == b@.last(),
    ensures
        custom_element_outcome(Some(a), self_ty) == custom_element_outcome(Some(b), self_ty),
        custom_element_outcome(Some(a), self_ty) matches Ok((kind, _, _)) ==> element_kind(a@.last().ident@) == Some(kind),
        element_kind(a@.last().ident@) is None ==> custom_element_outcome(Some(a), self_ty) == Err::<(ElementKind, String, String), MacroError>(MacroError::UnsupportedTrait(a@.last().ident)),
{
}

/// The message type is read from the first generic argument alone: when a
/// segment's arguments in angle brackets start with a path type, the message
/// type is that path's last segment, whatever arguments follow (so
/// `Component<Msg, ()>` names `Msg`); two segments whose first arguments
/// agree read the same message type.
pub proof fn lemma_message_type_from_first_argument(segment: PathSegment, other: PathSegment)
    ensures
        segment.arguments matches PathArguments::AngleBracketed(args) ==> (args@.len() > 0 ==> (
        args@[0] matches GenericArgument::Type(TypeShape::Path(segments)) ==> (segments@.len() > 0
            ==> msg_generic_ident(segment) == Ok::<String, MacroError>(segments@.last())))),
        segment.arguments matches PathArguments::AngleBracketed(args) ==> (other.arguments matches PathArguments::AngleBracketed(
            other_args,
        ) ==> (args@.len() > 0 && other_args@.len() > 0 && args@[0] == other_args@[0] ==> msg_generic_ident(segment)
            == msg_generic_ident(other))),
{
}

/// A well-formed implementation of `Component` or `Application` is
/// accepted, whatever leads its trait path and whatever generic arguments
/// follow the first: the kind is the trait's, the component is the first
/// segment of the implementing type, and the message type is the last
/// segment of the first generic argument.
pub proof fn lemma_well_formed_impl_accepted(
    trait_path: Vec<PathSegment>,
    args: Vec<GenericArgument>,
    msg_path: Vec<String>,
    self_path: Vec<String>,
)
    requires
        trait_path@.len() > 0,
        trait_path@.last().arguments == PathArguments::AngleBracketed(args),
        args@.len() > 0,
        args@[0] == GenericArgument::Type(TypeShape::Path(msg_path)),
        msg_path@.len() > 0,
        self_path@.len() > 0,
    ensures
        trait_path@.last().ident@ == "Component"@ ==> custom_element_outcome(
            Some(trait_path),
            TypeShape::Path(self_path),
        ) == Ok::<(ElementKind, String, String), MacroError>((ElementKind::Component, self_path@[0], msg_path@.last())),
        trait_path@.last().ident@ == "Application"@ ==> custom_element_outcome(
            Some(trait_path),
            TypeShape::Path(self_path),
        ) == Ok::<(ElementKind, String, String), MacroError>((ElementKind::Application, self_path@[0], msg_path@.last())),
{
    reveal_strlit("Component");
    reveal_strlit("Application");
    assert("Application"@.len() != "Component"@.len());
}

/// The text with which the attribute reports an error. For
/// [`MacroError::NotALiteral`] and [`MacroError::NotAnImplItem`] it is the
/// prefix of the report, which goes on with the parser's own message.
pub open spec fn error_message(error: MacroError) -> Seq<char> {
    match error {
        MacroError::NotALiteral => "must be a literal"@,
        MacroError::NotAnImplItem => "Expecting custom_element macro to be used in impl trait"@,
        MacroError::NoTraitImplementation => "must have a trait implementation"@,
        MacroError::NoLastSegment => "must have a last segment"@,
        MacroError::UnsupportedTrait(name) => "unsupported trait implementation: "@ + name@,
        MacroError::ExpectingGenericArgument => "expecting a generic argument"@,
        MacroError::ExpectingGenericArgumentType => "expecting a generic argument type"@,
        MacroError::ExpectingTypePath => "expecting a type path"@,
        MacroError::NoGenericPathSegment => "must have a generic path segment"@,
        MacroError::ExpectingPath => "Expecting a Path"@,
    }
}

impl MacroError {
    /// The message with which the attribute reports this error (for the two
    /// parse errors, the start of it; see [`error_message`]).
    pub fn message(&self) -> (m: String)
        ensures
            m@ == error_message(*self),
    {
        match self {
            MacroError::NotALiteral => String::from_str("must be a literal"),
            MacroError::NotAnImplItem => String::from_str(
                "Expecting custom_element macro to be used in impl trait",
            ),
            MacroError::NoTraitImplementation => String::from_str("must have a trait implementation"),
            MacroError::NoLastSegment => String::from_str("must have a last segment"),
            MacroError::UnsupportedTrait(name) => {
                let mut m = String::from_str("unsupported trait implementation: ");
                m.append(name.as_str());
                m
            },
            MacroError::ExpectingGenericArgument => String::from_str("expecting a generic argument"),
            MacroError::ExpectingGenericArgumentType => String::from_str(
                "expecting a generic argument type",
            ),
            MacroError::ExpectingTypePath => String::from_str("expecting a type path"),
            MacroError::NoGenericPathSegment => String::from_str("must have a generic path segment"),
            MacroError::ExpectingPath => String::from_str("Expecting a Path"),
        }
    }
}

/// Reads the message type of a component or application from the trait's
/// last path segment: the last segment of the path type given as its first
/// generic argument.
pub fn get_msg_generic_ident(component: &PathSegment) -> (ident: Result<String, MacroError>)
    requires
        has_first_argument(*component),
    ensures
        ident == msg_generic_ident(*component),
        component.arguments matches PathArguments::AngleBracketed(args) ==> (args@[0] matches GenericArgument::Type(
            TypeShape::Path(segments),
        ) ==> (segments@.len() > 0 ==> ident == Ok::<String, MacroError>(segments@.last()))),
{
    match &component.arguments {
        PathArguments::AngleBracketed(args) => match &args[0] {
            GenericArgument::Type(TypeShape::Path(segments)) => {
                if segments.len() > 0 {
                    Ok(segments[segments.len() - 1].clone())
                } else {
                    Err(MacroError::NoGenericPathSegment)
                }
            },
            GenericArgument::Type(TypeShape::Other) => Err(MacroError::ExpectingTypePath),
            GenericArgument::Other => Err(MacroError::ExpectingGenericArgumentType),
        },
        _ => Err(MacroError::ExpectingGenericArgument),
    }
}

fn kind_of_trait(name: &String) -> (kind: Option<ElementKind>)
    ensures
        kind == element_kind(name@),
{
    if *name == String::from_str("Component") {
        Some(ElementKind::Component)
    } else if *name == String::from_str("Application") {
        Some(ElementKind::Application)
    } else {
        None
    }
}

/// Tells whether the positions that [`custom_element_plan`] reads exist.
pub(crate) fn reads_are_in_bounds(trait_path: &Option<Vec<PathSegment>>, self_ty: &TypeShape) -> (b: bool)
    ensures
        b == reads_in_bounds(*trait_path, *self_ty),
{
    match trait_path {
        None => true,
        Some(segments) => {
            if segments.len() == 0 {
                return true;
            }
            let last = &segments[segments.len() - 1];
            if kind_of_trait(&last.ident).is_none() {
                return true;
            }
            let has_argument = match &last.arguments {
                PathArguments::AngleBracketed(args) => args.len() > 0,
                _ => true,
            };
            if !has_argument {
                return false;
            }
            match get_msg_generic_ident(last) {
                Err(_) => true,
                Ok(_) => match self_ty {
                    TypeShape::Path(path) => path.len() > 0,
                    TypeShape::Other => true,
                },
            }
        },
    }
}

/// Decides what the custom-element attribute generates for an implementation
/// of the trait at `trait_path` (`None` when the item implements no trait)
/// for the type `self_ty`, or why it rejects the item.
///
/// A component's custom element is the struct `_{component}__CustomElement`
/// with the message wrapper `_{component}__CustomMsg` and the registration
/// function `register`; an application's is the struct of the same name with
/// the registration function `register_application`.
pub fn custom_element_plan(trait_path: &Option<Vec<PathSegment>>, self_ty: &TypeShape) -> (plan: Result<CustomElement, MacroError>)
    requires
        reads_in_bounds(*trait_path, *self_ty),
    ensures
        plan_follows(*trait_path, *self_ty, plan),
        plan matches Ok(ce) ==> {
            &&& self_ty matches TypeShape::Path(path) && ce.component == path@[0]
            &&& trait_path matches Some(segments) && element_kind(segments@.last().ident@) == Some(ce.kind)
            &&& ce.element_struct@ == "_"@ + ce.component@ + "__CustomElement"@
            &&& ce.kind == ElementKind::Component ==> (ce.msg_struct matches Some(m) && m@ == "_"@ + ce.component@
                + "__CustomMsg"@ && ce.register_fn@ == "register"@)
            &&& ce.kind == ElementKind::Application ==> ce.msg_struct is None && ce.register_fn@
                == "register_application"@
        },
{
    let segments = match trait_path {
        None => return Err(MacroError::NoTraitImplementation),
        Some(segments) => segments,
    };
    if segments.len() == 0 {
        return Err(MacroError::NoLastSegment);
    }
    let last = &segments[segments.len() - 1];
    let kind = match kind_of_trait(&last.ident) {
        None => return Err(MacroError::UnsupportedTrait(last.ident.clone())),
        Some(kind) => kind,
    };
    let msg_type = match get_msg_generic_ident(last) {
        Err(e) => return Err(e),
        Ok(msg) => msg,
    };
    let component = match self_ty {
        TypeShape::Path(path) => path[0].clone(),
        TypeShape::Other => return Err(MacroError::ExpectingPath),
    };
    let mut element_struct = String::from_str("_");
    element_struct.append(component.as_str());
    element_struct.append("__CustomElement");
    match kind {
        ElementKind::Component => {
            let mut msg_struct = String::from_str("_");
            msg_struct.append(component.as_str());
            msg_struct.append("__CustomMsg");
            Ok(CustomElement {
                kind: ElementKind::Component,
                component,
                msg_type,
                element_struct,
                msg_struct: Some(msg_struct),
                register_fn: String::from_str("register"),
            })
        },
        ElementKind::Application => Ok(CustomElement {
            kind: ElementKind::Application,
            component,
            msg_type,
            element_struct,
            msg_struct: None,
            register_fn: String::from_str("register_application"),
        }),
    }
}

} // verus!
