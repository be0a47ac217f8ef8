//! System theme shared by the platform layer and the UI.

use vstd::prelude::*;

verus! {

/// Android system theme: light or dark.
#[derive(Clone, Copy, Debug, PartialEq, Eq)]
pub enum SystemTheme {
    /// Light theme.
    Light,
    /// Dark theme.
    Dark,
}

} // verus!
