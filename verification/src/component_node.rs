//! [`ComponentNode`]: a component as a navigation stack holds it.
//!
//! The stack drives its lifecycle, asks it about Back, and saves and restores
//! its state. Rendering and message handling belong to the UI layer, which
//! builds on this trait.

use vstd::prelude::*;
use crate::component_context::{BackAction, ComponentContext};
use crate::lifecycle::LifecycleObserver;
use crate::state_keeper::AnyState;

verus! {

/// A component in a navigation stack.
pub trait ComponentNode: LifecycleObserver {
    /// Handle Back, from the platform button or a drawn "back" button alike.
    /// By default the component does not handle it: [`BackAction::Propagate`].
    fn handle_back(&mut self, ctx: &mut ComponentContext) -> (r: BackAction)
        default_ensures
            r == BackAction::Propagate,
            *final(ctx) == *old(ctx),
    {
        BackAction::Propagate
    }

    /// The state to keep across re-creation, if any. By default none.
    ///
    /// A navigation stack keeps a state only when it holds serialized bytes
    /// (`Vec<u8>`).
    fn save_state(&self) -> (r: Option<AnyState>)
        default_ensures
            r is None,
    {
        None
    }

    /// Restore a state saved earlier. By default the state is ignored.
    fn restore_state(&mut self, state: AnyState) {
    }
}

} // verus!
