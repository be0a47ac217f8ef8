//! Save and restore a component's state through [`ComponentNode`], without
//! knowing its type.

use vstd::prelude::*;
use crate::component_node::ComponentNode;
use crate::state_keeper::AnyState;

verus! {

/// The component's state, if it keeps one ([`ComponentNode::save_state`]).
pub fn save_state<N: ComponentNode>(node: &N) -> Option<AnyState> {
    node.save_state()
}

/// Hand a saved state back to the component
/// ([`ComponentNode::restore_state`]).
pub fn restore_state<N: ComponentNode>(node: &mut N, state: AnyState) {
    node.restore_state(state);
}

} // verus!
