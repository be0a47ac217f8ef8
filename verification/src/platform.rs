//! The platform contract: what every platform (Android, desktop, ...) offers
//! the runtime, with no knowledge of business logic or rendering.

use vstd::prelude::*;

verus! {

/// The system theme.
#[derive(Clone, Copy, Debug, PartialEq, Eq, Structural)]
pub enum SystemTheme {
    /// Light theme.
    Light,
    /// Dark theme.
    Dark,
}

/// Platform configuration.
#[derive(Clone)]
pub struct PlatformConfig {
    /// Wait for vertical sync before swapping buffers.
    pub vsync: bool,
}

impl Default for PlatformConfig {
    fn default() -> (c: Self)
        ensures
            !c.vsync,
    {
        PlatformConfig { vsync: false }
    }
}

/// A platform: it runs the application's main loop.
pub trait Platform {
    /// The platform's window type.
    type Window: Clone + Send + 'static;

    /// The platform's input event type.
    type InputEvent: Send + 'static;

    /// The platform's error type.
    type Error: Send + 'static;

    /// Run the main loop of `app` until it ends.
    fn run<A>(app: A, config: PlatformConfig) -> Result<(), Self::Error>;
}

/// What wakes a platform's event loop.
///
/// Closures `Fn()` that can be shared between threads are wake handlers.
pub trait WakeHandler: Send + Sync {
    /// Wake the event loop.
    fn wake(&self);
}

/// Calls a wake closure.
#[verifier::external_body]
fn call_wake_closure<F: Fn() + Send + Sync>(f: &F) {
    f()
}

impl<F: Fn() + Send + Sync> WakeHandler for F {
    fn wake(&self) {
        call_wake_closure(self)
    }
}

/// A handle that wakes the platform's event loop; clones share the handler.
pub struct Waker {
    wake_fn: std::sync::Arc<Box<dyn WakeHandler>>,
}

impl Clone for Waker {
    fn clone(&self) -> (w: Self)
        ensures
            w.handler() == self.handler(),
    {
        Waker { wake_fn: std::sync::Arc::clone(&self.wake_fn) }
    }
}

impl Waker {
    /// The shared wake handler.
    pub closed spec fn handler(&self) -> std::sync::Arc<Box<dyn WakeHandler>> {
        self.wake_fn
    }

    /// A waker that calls `wake_fn`.
    pub fn new<F: Fn() + Send + Sync + 'static>(wake_fn: F) -> (w: Self)
        ensures
            ({
                let h: Box<dyn WakeHandler> = Box::new(wake_fn);
                *w.handler() == h
            }),
    {
        let handler: Box<dyn WakeHandler> = Box::new(wake_fn);
        let shared = std::sync::Arc::new(handler);
        proof {
            assert(shared == handler);
        }
        Waker { wake_fn: shared }
    }

    /// Wake the event loop: call the handler once.
    pub fn wake(&self) {
        self.wake_fn.wake()
    }
}

} // verus!
