//! [`PersistentState`]: typed save and restore of a component's state as
//! bytes, and [`PersistentComponent`], the component wrapper that plugs it
//! into [`ComponentNode`].
//!
//! A component names its state type and how a state becomes bytes and back
//! (with `bincode` in practice); the default methods box the bytes for
//! [`ComponentNode::save_state`] and unbox them in
//! [`ComponentNode::restore_state`].

use vstd::prelude::*;
use crate::component_node::ComponentNode;
use crate::lifecycle::LifecycleObserver;
use crate::state_keeper::AnyState;

verus! {

/// Typed save and restore of a component's state, through bytes.
pub trait PersistentState {
    /// The saved state.
    type State: Send + 'static;

    /// The current state.
    fn save(&self) -> Self::State;

    /// Restore a state saved earlier (called after the component is built,
    /// before it is first drawn).
    fn restore(&mut self, state: Self::State);

    /// The bytes of a state; `None` when it cannot be serialized.
    fn encode_state(state: &Self::State) -> Option<Vec<u8>>;

    /// The state of some bytes; `None` when they do not decode.
    fn decode_state(bytes: &[u8]) -> Option<Self::State>;

    /// The current state as boxed bytes, for [`ComponentNode::save_state`];
    /// `None` when it cannot be serialized.
    fn save_to_boxed(&self) -> (r: Option<AnyState>)
        default_ensures
            r is Some ==> r->0.known_bytes() is Some,
    {
        let state = self.save();
        match Self::encode_state(&state) {
            Some(bytes) => Some(AnyState::from_bytes(bytes)),
            None => None,
        }
    }

    /// Restore from boxed bytes; a state that holds no bytes, or bytes that do
    /// not decode, is ignored.
    fn restore_from_boxed(&mut self, state: AnyState) {
        match state.into_bytes() {
            Some(bytes) => match Self::decode_state(bytes.as_slice()) {
                Some(saved) => self.restore(saved),
                None => {},
            },
            None => {},
        }
    }
}

/// A component wrapper that saves and restores `inner` through
/// [`PersistentState`].
pub struct PersistentComponent<T> {
    /// The wrapped component.
    pub inner: T,
}

impl<T> PersistentComponent<T> {
    /// Wrap `inner`.
    pub fn new(inner: T) -> (c: Self)
        ensures
            c.inner == inner,
    {
        PersistentComponent { inner }
    }
}

impl<T: LifecycleObserver> LifecycleObserver for PersistentComponent<T> {
}

impl<T: LifecycleObserver + PersistentState> ComponentNode for PersistentComponent<T> {
    fn save_state(&self) -> Option<AnyState> {
        self.inner.save_to_boxed()
    }

    fn restore_state(&mut self, state: AnyState) {
        self.inner.restore_from_boxed(state)
    }
}

} // verus!
