//! Events that an Android backend hands to the runtime.

use vstd::prelude::*;
use vstd::string::*;

verus! {

/// A backend failure.
#[derive(Debug)]
pub enum BackendError {
    /// EGL initialisation failed.
    EglInit(String),
    /// There is no native window.
    NoNativeWindow,
    /// Re-creating the EGL surface failed.
    RecreateSurface(String),
    /// Any other failure.
    Other(String),
}

/// The text `"EGL init: "`.
pub open spec fn egl_init_prefix() -> Seq<char> {
    seq!['E', 'G', 'L', ' ', 'i', 'n', 'i', 't', ':', ' ']
}

/// The text `"recreate surface: "`.
pub open spec fn recreate_surface_prefix() -> Seq<char> {
    seq!['r', 'e', 'c', 'r', 'e', 'a', 't', 'e', ' ', 's', 'u', 'r', 'f', 'a', 'c', 'e', ':', ' ']
}

/// The text `"нет NativeWindow"` ("no NativeWindow").
pub open spec fn no_window_text() -> Seq<char> {
    seq!['н', 'е', 'т', ' ', 'N', 'a', 't', 'i', 'v', 'e', 'W', 'i', 'n', 'd', 'o', 'w']
}

/// The human-readable message of an error.
pub open spec fn error_message(e: BackendError) -> Seq<char> {
    match e {
        BackendError::EglInit(m) => egl_init_prefix() + m@,
        BackendError::NoNativeWindow => no_window_text(),
        BackendError::RecreateSurface(m) => recreate_surface_prefix() + m@,
        BackendError::Other(m) => m@,
    }
}

impl BackendError {
    /// The human-readable message: `EGL init: <msg>`, `нет NativeWindow`,
    /// `recreate surface: <msg>`, or the message itself.
    pub fn message(&self) -> (r: String)
        ensures
            r@ == error_message(*self),
    {
        match self {
            BackendError::EglInit(m) => {
                let mut r = "EGL init: ".to_owned();
                r.append(m.as_str());
                proof {
                    reveal_strlit("EGL init: ");
                    assert(r@ =~= error_message(*self));
                }
                r
            },
            BackendError::NoNativeWindow => {
                let r = "нет NativeWindow".to_owned();
                proof {
                    reveal_strlit("нет NativeWindow");
                    assert(r@ =~= error_message(*self));
                }
                r
            },
            BackendError::RecreateSurface(m) => {
                let mut r = "recreate surface: ".to_owned();
                r.append(m.as_str());
                proof {
                    reveal_strlit("recreate surface: ");
                    assert(r@ =~= error_message(*self));
                }
                r
            },
            BackendError::Other(m) => m.clone(),
        }
    }
}

/// A host lifecycle event.
#[derive(Debug, Clone, Copy, PartialEq, Eq)]
pub enum LifecycleEvent {
    /// The window was created (or re-created).
    InitWindow,
    /// The application resumed.
    Resume,
    /// The application paused.
    Pause,
    /// The application stopped.
    Stop,
    /// The application is being destroyed.
    Destroy,
}

/// The phase of a touch event.
#[derive(Debug, Clone, Copy, PartialEq, Eq)]
pub enum TouchPhase {
    /// A finger touched down.
    Start,
    /// A finger moved.
    Move,
    /// A finger lifted.
    End,
    /// The touch was cancelled.
    Cancel,
}

/// The action of a key event.
#[derive(Debug, Clone, Copy, PartialEq, Eq)]
pub enum KeyAction {
    /// The key went down.
    Down,
    /// The key went up.
    Up,
}

/// An input-method command as it arrives from the platform's input
/// connection. Positions are UTF-16 code units, as the platform counts them.
#[derive(Debug, Clone)]
pub enum ImeCmd {
    /// `commitText(text)`: final text.
    Commit(String),
    /// `setComposingText(text)`: the text being composed.
    Composing(String),
    /// `performEditorAction(Next)`: go to the next field.
    Next,
    /// `performEditorAction(Done/Search/Go)`: finish editing.
    Done,
    /// `deleteSurroundingText(before, after)`.
    DeleteSurrounding { before: i32, after: i32 },
    /// `setComposingText` over the range `start..end` of the current line.
    ComposingRange { text: String, start: i32, end: i32 },
    /// `setSelection(start, end)`.
    SetSelection { start: i32, end: i32 },
    /// `beginBatchEdit()`.
    BeginBatchEdit,
    /// `endBatchEdit()`.
    EndBatchEdit,
}

} // verus!
