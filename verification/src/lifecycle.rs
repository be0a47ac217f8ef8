//! Component lifecycle: the states a component goes through and the
//! callbacks that announce them.

use vstd::prelude::*;

verus! {

/// A lifecycle state, named after the callback that enters it.
#[derive(Debug, Clone, Copy, PartialEq, Eq)]
pub enum LifecycleState {
    /// After `on_create`.
    Created,
    /// After `on_start`.
    Started,
    /// After `on_resume`: the component is active.
    Resumed,
    /// After `on_pause`.
    Paused,
    /// After `on_stop`.
    Stopped,
    /// After `on_destroy`.
    Destroyed,
}

/// Receives lifecycle callbacks. Every callback does nothing by default.
pub trait LifecycleObserver {
    /// The component was created.
    fn on_create(&mut self) {
    }

    /// The component became visible.
    fn on_start(&mut self) {
    }

    /// The component became active.
    fn on_resume(&mut self) {
    }

    /// The component stopped being active.
    fn on_pause(&mut self) {
    }

    /// The component stopped being visible.
    fn on_stop(&mut self) {
    }

    /// The component is being destroyed.
    fn on_destroy(&mut self) {
    }
}

} // verus!
