//! [`ComponentContext`]: what a component gets from the framework.
//!
//! It offers a [`BackDispatcher`] for Back handlers (dialogs, bottom sheets),
//! the `finish_requested` flag that ends the application, and the single way
//! to ask for backward navigation: [`ComponentContext::request_back`], read
//! and cleared by the host through [`ComponentContext::take_back_request`].

use vstd::prelude::*;
use crate::back_dispatcher::BackDispatcher;

verus! {

/// What a screen asks for when Back reaches it.
#[derive(Debug, Clone, Copy, PartialEq, Eq)]
pub enum BackAction {
    /// The screen consumed Back; nothing else happens.
    Handled,
    /// The screen asks to be popped from its stack.
    Pop,
    /// The screen does not handle Back; it goes up to the enclosing stack.
    Propagate,
}

/// The context of a component. Not generic: infrastructure only.
pub struct ComponentContext {
    /// Registry of Back handlers.
    pub back_dispatcher: BackDispatcher,
    /// Set when Back reached an empty stack: the application should finish.
    pub finish_requested: bool,
    /// Set by `request_back`, cleared by `take_back_request`.
    back_requested: bool,
}

impl ComponentContext {
    /// Whether backward navigation is requested and not yet taken.
    pub closed spec fn back_requested(&self) -> bool {
        self.back_requested
    }

    /// The Back handler registry.
    pub closed spec fn dispatcher(&self) -> BackDispatcher {
        self.back_dispatcher
    }

    /// Whether finishing the application is requested.
    pub closed spec fn finish(&self) -> bool {
        self.finish_requested
    }

    /// A fresh context: no handler, nothing requested.
    pub fn new() -> (c: Self)
        ensures
            c.dispatcher().callbacks().len() == 0,
            !c.finish(),
            !c.back_requested(),
    {
        ComponentContext { back_dispatcher: BackDispatcher::new(), finish_requested: false, back_requested: false }
    }

    /// Ask for backward navigation. Several requests before the host takes
    /// them count as one.
    pub fn request_back(&mut self)
        ensures
            final(self).back_requested(),
            final(self).finish() == old(self).finish(),
            final(self).dispatcher() == old(self).dispatcher(),
    {
        self.back_requested = true;
    }

    /// Take and clear the backward-navigation request: `true` when one was
    /// pending (the host then pops the active screen).
    pub fn take_back_request(&mut self) -> (r: bool)
        ensures
            r == old(self).back_requested(),
            !final(self).back_requested(),
            final(self).finish() == old(self).finish(),
            final(self).dispatcher() == old(self).dispatcher(),
    {
        let r = self.back_requested;
        self.back_requested = false;
        r
    }
}

impl Default for ComponentContext {
    fn default() -> (c: Self)
        ensures
            c.dispatcher().callbacks().len() == 0,
            !c.finish(),
            !c.back_requested(),
    {
        ComponentContext::new()
    }
}

} // verus!
