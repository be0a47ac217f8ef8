//! [`ComponentState`]: typed save and restore of a component's state.
//!
//! [`ComponentNode::save_state`] and [`ComponentNode::restore_state`] carry
//! a state of any type; a component that implements `ComponentState` names
//! its state type, so that what `restore` gets is what `save` gave.

use vstd::prelude::*;
use crate::component_node::ComponentNode;

pub mod util;

verus! {

/// Typed save and restore of a component's state.
pub trait ComponentState: ComponentNode {
    /// The saved state.
    type State: Clone + Send + 'static;

    /// The current state.
    fn save(&self) -> Self::State;

    /// Restore a state saved earlier.
    fn restore(&mut self, state: Self::State);
}

} // verus!
