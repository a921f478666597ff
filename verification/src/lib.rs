//! A virtual-DOM front end: the decisions that turn a virtual node tree into
//! browser DOM operations, the translation of browser events into virtual
//! events, the component traits, and the naming rules of the custom-element
//! attribute.
use vstd::prelude::*;

pub mod component;
pub mod custom_element;
pub mod decimal;
pub mod macro_input;
pub mod dom;
pub mod events;
pub mod listener_laws;
pub mod order_laws;
pub mod plan_laws;
pub mod vdom;
pub mod view;

verus! {

} // verus!
