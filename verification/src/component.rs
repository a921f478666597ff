//! The traits through which an application's parts present themselves:
//! components that update and render themselves, and containers that show
//! the children their parent gives them.
use vstd::prelude::*;
use std::collections::BTreeMap;
use crate::vdom::Node;

verus! {

/// What an update asks for next: follow-up messages, handled by the same
/// component on its next update loop, and effects, handled by the parent
/// component that mounts it.
pub struct Effects<MSG, XMSG> {
    pub follow_ups: Vec<MSG>,
    pub effects: Vec<XMSG>,
}

/// A component has a view and can update itself.
///
/// The update function returns an effect which can contain follow ups and
/// effects. Follow ups are executed on the next update loop of this
/// component, while the effects are executed on the parent component that
/// mounts it.
pub trait Component<MSG, XMSG> {
    /// Updates the model of this component and returns follow ups and/or
    /// effects that will be executed on the next update loop.
    fn update(&mut self, msg: MSG) -> Effects<MSG, XMSG>;

    /// The view of the component.
    fn view(&self) -> Node<MSG>;

    /// The component's own css style; by default none.
    fn style(&self) -> (style: String)
        default_ensures
            style@ == Seq::<char>::empty(),
    {
        String::new()
    }

    /// The id by which the component identifies itself; by default none.
    fn get_component_id(&self) -> (id: Option<&String>)
        default_ensures
            id is None,
    {
        None
    }

    /// The attributes this component observes; by default none.
    fn observed_attributes() -> (names: Vec<&'static str>)
        default_ensures
            names@.len() == 0,
    {
        Vec::new()
    }

    /// Called when the component is used as a custom element and the
    /// attributes of the custom element have been changed; by default the
    /// component is left as it was.
    fn attributes_changed(&mut self, attributes_values: BTreeMap<String, String>) where Self: Sized
        default_ensures
            *final(self) == *old(self),
    {
    }

    /// The attributes to set on the element this component is mounted on; by
    /// default none.
    fn attributes_for_mount(&self) -> (attributes: BTreeMap<String, String>)
        default_ensures
            attributes@ == Map::<String, String>::empty(),
    {
        BTreeMap::new()
    }
}

/// A container has children that are set from the parent component.
///
/// It can update its model and returns follow ups and/or effects for the
/// next update loop. Its view is given by the parent component; the
/// container can decide how to display the children, but the children nodes
/// cannot trigger messages that update this container.
pub trait Container<MSG, XMSG> {
    /// Updates the model of this container and returns follow ups and/or
    /// effects that will be executed on the next update loop.
    fn update(&mut self, msg: MSG) -> Effects<MSG, XMSG>;

    /// Presents the children passed to it from the parent.
    fn view(&self) -> Node<XMSG>;

    /// The container's own css style; by default none.
    fn style(&self) -> (style: String)
        default_ensures
            style@ == Seq::<char>::empty(),
    {
        String::new()
    }
}

} // verus!
