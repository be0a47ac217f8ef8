//! Kinds of Android backend and their display settings.

use vstd::prelude::*;

verus! {

/// Style of the system bars.
#[derive(Debug, Clone, Copy, PartialEq, Eq)]
pub enum SystemBarsStyle {
    /// Transparent bars: content is drawn under them.
    Transparent,
    /// Standard opaque bars.
    Opaque,
}

/// The kind of Android backend.
#[derive(Debug, Clone, Copy, PartialEq, Eq)]
pub enum AndroidBackendKind {
    /// NativeActivity backend (native window and EGL): the fallback.
    Native,
    /// GL mode with input-method support: the main one.
    Gl,
    /// GameActivity backend.
    Game,
}

impl AndroidBackendKind {
    /// The backend that runs for this kind: GameActivity is not implemented
    /// yet and runs on the GL backend.
    pub fn backend_in_use(self) -> (k: AndroidBackendKind)
        ensures
            k == match self {
                AndroidBackendKind::Native => AndroidBackendKind::Native,
                AndroidBackendKind::Gl | AndroidBackendKind::Game => AndroidBackendKind::Gl,
            },
    {
        match self {
            AndroidBackendKind::Native => AndroidBackendKind::Native,
            AndroidBackendKind::Gl | AndroidBackendKind::Game => AndroidBackendKind::Gl,
        }
    }
}

} // verus!
