//! Views: parts that only render themselves from the properties their
//! parent sets.
use vstd::prelude::*;
use vstd::view::View as _;
use crate::vdom::Node;

verus! {

/// Just a view, no events, no update. The properties of the view are set
/// directly from the parent.
pub trait View<MSG> {
    /// Returns the view of itself.
    fn view(&self) -> Node<MSG>;

    /// The view's own css style; by default none.
    fn style(&self) -> (style: String)
        default_ensures
            style@ == Seq::<char>::empty(),
    {
        String::new()
    }
}

} // verus!
