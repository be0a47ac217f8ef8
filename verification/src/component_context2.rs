//! [`ComponentContext2`]: the component context that owns a [`StateKeeper`]
//! for recursive save and restore.
//!
//! The root context is created by the application; navigation creates child
//! contexts by key. Components never save or restore themselves: the context
//! does it for the whole tree.

use vstd::prelude::*;
use crate::component_node::ComponentNode;
use crate::state_keeper::{AnyState, KeeperTree, StateKeeper, StateKeeperSnapshot, restore_tree, states_taken};

verus! {

/// Component context: owner of a state tree, under a key in its parent.
pub struct ComponentContext2 {
    state_keeper: StateKeeper,
    key: String,
}

impl ComponentContext2 {
    /// The state tree of this context.
    pub closed spec fn keeper(&self) -> StateKeeper {
        self.state_keeper
    }

    /// The key of this context in its parent.
    pub closed spec fn key_view(&self) -> Seq<char> {
        self.key@
    }

    /// A root context under `key`, with an empty state tree.
    pub fn root(key: &str) -> (c: Self)
        ensures
            c.key_view() == key@,
            c.keeper().tree() == crate::state_keeper::empty_tree(),
    {
        ComponentContext2 { state_keeper: StateKeeper::new(), key: key.to_owned() }
    }

    /// The state tree.
    pub fn state_keeper(&self) -> (r: &StateKeeper)
        ensures
            *r == self.keeper(),
    {
        &self.state_keeper
    }

    /// The state tree, mutably; the key is untouched.
    pub fn state_keeper_mut(&mut self) -> (r: &mut StateKeeper)
        ensures
            *r == old(self).keeper(),
            final(self).keeper() == *final(r),
            final(self).key_view() == old(self).key_view(),
    {
        &mut self.state_keeper
    }

    /// The key.
    pub fn key(&self) -> (r: &str)
        ensures
            r@ == self.key_view(),
    {
        self.key.as_str()
    }

    /// Take every state of the tree into a snapshot (see
    /// [`StateKeeper::save_take`]).
    pub fn save_all(&mut self) -> (s: StateKeeperSnapshot)
        ensures
            s.tree() == old(self).keeper().tree(),
            states_taken(final(self).keeper().tree(), old(self).keeper().tree()),
            final(self).key_view() == old(self).key_view(),
    {
        self.state_keeper.save_take()
    }

    /// Restore the tree from a snapshot (see [`StateKeeper::restore`]).
    pub fn restore_all(&mut self, snapshot: StateKeeperSnapshot)
        ensures
            final(self).keeper().tree() == restore_tree(old(self).keeper().tree(), snapshot.tree()),
            final(self).key_view() == old(self).key_view(),
    {
        self.state_keeper.restore(snapshot);
    }

    /// Set the component's own state.
    pub fn set_state<T: Send + 'static>(&mut self, state: Box<T>)
        ensures
            final(self).keeper().tree().own is Some,
            final(self).keeper().tree().kids == old(self).keeper().tree().kids,
            final(self).key_view() == old(self).key_view(),
    {
        self.state_keeper.set_own_state(state);
    }

    /// The component's own state, if it is a `T`.
    pub fn state<T: 'static>(&self) -> (r: Option<&T>)
        ensures
            r is Some ==> self.keeper().tree().own is Some,
    {
        self.state_keeper.own_state::<T>()
    }

    /// The component's own state, mutably, if it is a `T`.
    pub fn state_mut<T: 'static>(&mut self) -> (r: Option<&mut T>)
        ensures
            r is Some ==> old(self).keeper().tree().own is Some,
            final(self).keeper().tree().kids == old(self).keeper().tree().kids,
            final(self).key_view() == old(self).key_view(),
    {
        self.state_keeper.own_state_mut::<T>()
    }
}

/// A component that owns a [`ComponentContext2`] (one built by a
/// [`ComponentFactory2`](crate::component_factory::ComponentFactory2)).
pub trait ComponentNode2: ComponentNode {
    /// The component's context.
    fn context2(&mut self) -> &mut ComponentContext2;
}

} // verus!
