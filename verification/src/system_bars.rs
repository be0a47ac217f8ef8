//! The system-bar choices that follow the theme, and the theme read from the
//! platform configuration. Making the platform calls is the caller's.

use vstd::prelude::*;
use crate::platform::SystemTheme;

verus! {

/// The night bits of the platform's `uiMode`.
pub const UI_MODE_NIGHT_MASK: i32 = 0x20;
/// `uiMode` night bits meaning "night".
pub const UI_MODE_NIGHT_YES: i32 = 0x20;
/// Light status-bar appearance flag (dark icons).
pub const APPEARANCE_LIGHT_STATUS_BARS: i32 = 0x0000_0008;
/// Light navigation-bar appearance flag (dark icons).
pub const APPEARANCE_LIGHT_NAVIGATION_BARS: i32 = 0x0000_0010;

/// The system theme of a `uiMode`: dark when its night bits say night.
pub fn theme_from_ui_mode(ui_mode: i32) -> (t: SystemTheme)
    ensures
        t == if ui_mode & UI_MODE_NIGHT_MASK == UI_MODE_NIGHT_YES { SystemTheme::Dark } else { SystemTheme::Light },
{
    if ui_mode & UI_MODE_NIGHT_MASK == UI_MODE_NIGHT_YES {
        SystemTheme::Dark
    } else {
        SystemTheme::Light
    }
}

/// The bar colour for a theme: black bars on light, white bars on dark.
pub fn bar_color(theme: SystemTheme) -> (c: i32)
    ensures
        c == match theme {
            SystemTheme::Light => 0x00_00_00i32,
            SystemTheme::Dark => 0xFF_FF_FFi32,
        },
{
    match theme {
        SystemTheme::Light => 0x00_00_00,
        SystemTheme::Dark => 0xFF_FF_FF,
    }
}

/// The bar appearance flags for a theme and the mask they apply under: dark
/// icons on light, light icons on dark.
pub fn bar_appearance(theme: SystemTheme) -> (r: (i32, i32))
    ensures
        r.1 == APPEARANCE_LIGHT_STATUS_BARS | APPEARANCE_LIGHT_NAVIGATION_BARS,
        r.0 == match theme {
            SystemTheme::Light => APPEARANCE_LIGHT_STATUS_BARS | APPEARANCE_LIGHT_NAVIGATION_BARS,
            SystemTheme::Dark => 0i32,
        },
{
    let mask = APPEARANCE_LIGHT_STATUS_BARS | APPEARANCE_LIGHT_NAVIGATION_BARS;
    let appearance = match theme {
        SystemTheme::Light => APPEARANCE_LIGHT_STATUS_BARS | APPEARANCE_LIGHT_NAVIGATION_BARS,
        SystemTheme::Dark => 0,
    };
    (appearance, mask)
}

} // verus!
