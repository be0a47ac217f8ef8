//! The decisions of the main loop, between the platform calls that it makes:
//! how long to wait for events, whether to draw, when to show or hide the
//! keyboard, when the system bars must follow a theme change, and what a
//! lifecycle event asks for.
//!
//! The loop itself (polling, drawing, calling into the platform) runs the
//! actions these functions return.

use vstd::prelude::*;
use crate::event::LifecycleEvent;
use crate::ime_service::{duration_from_millis, duration_nanos, nanos_of};
use crate::platform::SystemTheme;
use crate::platform_state::PlatformStateInner;

verus! {

/// From this repaint delay on (one hour, in nanoseconds), the loop waits for
/// an event with no timeout.
pub const BLOCK_THRESHOLD_NANOS: u128 = 3_600_000_000_000;

/// The poll timeout in nanoseconds, `None` meaning "wait for an event".
pub open spec fn frame_timeout_nanos(has_graphics: bool, repaint_delay: nat) -> Option<nat> {
    if !has_graphics {
        None
    } else if repaint_delay == 0 {
        Some(0)
    } else if repaint_delay >= BLOCK_THRESHOLD_NANOS {
        None
    } else {
        Some(repaint_delay)
    }
}

/// The timeout of the event poll: wait for an event until the graphics are
/// up; poll without waiting when a repaint is due now; wait for an event when
/// the next repaint is an hour or more away; otherwise wait the repaint
/// delay.
pub fn frame_poll_timeout(has_graphics: bool, repaint_delay: std::time::Duration) -> (r: Option<std::time::Duration>)
    ensures
        match frame_timeout_nanos(has_graphics, duration_nanos(repaint_delay)) {
            Some(n) => r is Some && duration_nanos(r->0) == n,
            None => r is None,
        },
{
    let delay = nanos_of(&repaint_delay);
    if !has_graphics {
        None
    } else if delay == 0 {
        Some(duration_from_millis(0))
    } else if delay >= BLOCK_THRESHOLD_NANOS {
        None
    } else {
        Some(repaint_delay)
    }
}

/// Whether the frame is drawn now: when the frame interval has passed, or at
/// once when there were events or the data layer signalled.
pub fn should_render(interval_passed: bool, had_events: bool, had_notify: bool) -> (r: bool)
    ensures
        r == (interval_passed || had_events || had_notify),
{
    interval_passed || had_events || had_notify
}

/// Whether the frame had events: backend events, a pending Back or queued
/// input-method commands.
pub fn frame_had_events(backend_events: usize, back_pressed: bool, had_ime: bool) -> (r: bool)
    ensures
        r == (backend_events > 0 || back_pressed || had_ime),
{
    backend_events > 0 || back_pressed || had_ime
}

/// What to do with the software keyboard.
#[derive(Debug, Clone, Copy, PartialEq, Eq)]
pub enum KeyboardAction {
    /// Show it.
    Show,
    /// Hide it.
    Hide,
    /// Leave it.
    Keep,
}

/// The keyboard action for a frame and the keyboard state after it: act only
/// when the wish (a focused text field) differs from the state.
pub open spec fn keyboard_step(visible: bool, ime_active: bool) -> (KeyboardAction, bool) {
    if ime_active && !visible {
        (KeyboardAction::Show, true)
    } else if !ime_active && visible {
        (KeyboardAction::Hide, false)
    } else {
        (KeyboardAction::Keep, visible)
    }
}

/// The theme for a background colour: dark when the channels sum below 384.
pub open spec fn background_theme(r: u8, g: u8, b: u8) -> SystemTheme {
    if (r as int) + (g as int) + (b as int) < 384 {
        SystemTheme::Dark
    } else {
        SystemTheme::Light
    }
}

/// The theme to apply for a frame (`None`: no change) and the theme
/// remembered after it.
pub open spec fn theme_step(last: Option<SystemTheme>, theme: SystemTheme) -> (Option<SystemTheme>, Option<SystemTheme>) {
    if last != Some(theme) {
        (Some(theme), Some(theme))
    } else {
        (None, last)
    }
}

/// The theme for a background colour.
pub fn theme_for_background(r: u8, g: u8, b: u8) -> (t: SystemTheme)
    ensures
        t == background_theme(r, g, b),
{
    if (r as u32) + (g as u32) + (b as u32) < 384 {
        SystemTheme::Dark
    } else {
        SystemTheme::Light
    }
}

/// Law: the theme follows the brightness of the background, measured as the
/// sum of its channels: dark exactly when the sum is below 384, light
/// otherwise; so two colours with the same channel sum get the same theme,
/// and a brighter colour (every channel at least as high) is never darker.
pub proof fn lemma_background_theme_by_channel_sum(r: u8, g: u8, b: u8, r2: u8, g2: u8, b2: u8)
    ensures
        (background_theme(r, g, b) == SystemTheme::Dark) <==> (r as int) + (g as int) + (b as int) < 384,
        (background_theme(r, g, b) == SystemTheme::Light) <==> (r as int) + (g as int) + (b as int) >= 384,
        (r as int) + (g as int) + (b as int) == (r2 as int) + (g2 as int) + (b2 as int)
            ==> background_theme(r, g, b) == background_theme(r2, g2, b2),
        r <= r2 && g <= g2 && b <= b2 && background_theme(r, g, b) == SystemTheme::Light
            ==> background_theme(r2, g2, b2) == SystemTheme::Light,
{
}

/// What a lifecycle event asks of the loop.
#[derive(Debug, Clone, Copy, PartialEq, Eq)]
pub enum LifecycleAction {
    /// Set up (or re-create) the graphics and restore the saved state.
    InitWindow,
    /// Tell the application it resumed.
    Resume,
    /// Tell the application it paused.
    Pause,
    /// Save the application's state, then tell it it stopped.
    SaveAndStop,
    /// Save the application's state and end the loop.
    SaveAndDestroy,
}

/// The actions after a drawn frame.
#[derive(Debug, Clone, Copy, PartialEq, Eq)]
pub struct FrameActions {
    /// What to do with the keyboard.
    pub keyboard: KeyboardAction,
    /// The theme to set for the system bars, when it changed.
    pub theme: Option<SystemTheme>,
}

/// The state of the main loop's decisions.
pub struct LoopState {
    keyboard_visible: bool,
    last_theme: Option<SystemTheme>,
    destroy_requested: bool,
}

impl LoopState {
    /// Whether the keyboard is open.
    pub closed spec fn keyboard_view(&self) -> bool {
        self.keyboard_visible
    }

    /// The theme last applied to the system bars.
    pub closed spec fn theme_view(&self) -> Option<SystemTheme> {
        self.last_theme
    }

    /// Whether the loop must end.
    pub closed spec fn destroy_view(&self) -> bool {
        self.destroy_requested
    }

    /// Keyboard closed, no theme applied, not ending.
    pub fn new() -> (s: Self)
        ensures
            !s.keyboard_view(),
            s.theme_view() is None,
            !s.destroy_view(),
    {
        LoopState { keyboard_visible: false, last_theme: None, destroy_requested: false }
    }

    /// Whether the keyboard is open.
    pub fn keyboard_visible(&self) -> (r: bool)
        ensures
            r == self.keyboard_view(),
    {
        self.keyboard_visible
    }

    /// Whether the loop must end.
    pub fn destroy_requested(&self) -> (r: bool)
        ensures
            r == self.destroy_view(),
    {
        self.destroy_requested
    }

    /// A lifecycle event: what it asks for; `Destroy` also ends the loop.
    pub fn on_lifecycle(&mut self, event: LifecycleEvent) -> (a: LifecycleAction)
        ensures
            a == match event {
                LifecycleEvent::InitWindow => LifecycleAction::InitWindow,
                LifecycleEvent::Resume => LifecycleAction::Resume,
                LifecycleEvent::Pause => LifecycleAction::Pause,
                LifecycleEvent::Stop => LifecycleAction::SaveAndStop,
                LifecycleEvent::Destroy => LifecycleAction::SaveAndDestroy,
            },
            final(self).destroy_view() == (old(self).destroy_view() || event == LifecycleEvent::Destroy),
            final(self).keyboard_view() == old(self).keyboard_view(),
            final(self).theme_view() == old(self).theme_view(),
    {
        match event {
            LifecycleEvent::InitWindow => LifecycleAction::InitWindow,
            LifecycleEvent::Resume => LifecycleAction::Resume,
            LifecycleEvent::Pause => LifecycleAction::Pause,
            LifecycleEvent::Stop => LifecycleAction::SaveAndStop,
            LifecycleEvent::Destroy => {
                self.destroy_requested = true;
                LifecycleAction::SaveAndDestroy
            },
        }
    }

    /// The application asked to end.
    pub fn request_destroy(&mut self)
        ensures
            final(self).destroy_view(),
            final(self).keyboard_view() == old(self).keyboard_view(),
            final(self).theme_view() == old(self).theme_view(),
    {
        self.destroy_requested = true;
    }

    /// The input method finished editing ("Done"): the keyboard is hidden.
    pub fn on_ime_done(&mut self)
        ensures
            !final(self).keyboard_view(),
            final(self).theme_view() == old(self).theme_view(),
            final(self).destroy_view() == old(self).destroy_view(),
    {
        self.keyboard_visible = false;
    }

    /// After a drawn frame: show or hide the keyboard when a text field's
    /// focus changed, and set the system bars' theme when the background's
    /// theme changed.
    pub fn after_frame(&mut self, ime_active: bool, bg_r: u8, bg_g: u8, bg_b: u8) -> (a: FrameActions)
        ensures
            a.keyboard == keyboard_step(old(self).keyboard_view(), ime_active).0,
            final(self).keyboard_view() == keyboard_step(old(self).keyboard_view(), ime_active).1,
            a.theme == theme_step(old(self).theme_view(), background_theme(bg_r, bg_g, bg_b)).0,
            final(self).theme_view() == theme_step(old(self).theme_view(), background_theme(bg_r, bg_g, bg_b)).1,
            final(self).destroy_view() == old(self).destroy_view(),
    {
        let keyboard = if ime_active && !self.keyboard_visible {
            self.keyboard_visible = true;
            KeyboardAction::Show
        } else if !ime_active && self.keyboard_visible {
            self.keyboard_visible = false;
            KeyboardAction::Hide
        } else {
            KeyboardAction::Keep
        };
        let theme = theme_for_background(bg_r, bg_g, bg_b);
        let changed = match self.last_theme {
            Some(t) => t != theme,
            None => true,
        };
        let applied = if changed {
            self.last_theme = Some(theme);
            Some(theme)
        } else {
            None
        };
        FrameActions { keyboard, theme: applied }
    }
}

/// Keep the state the application saved on stop or destroy in the platform
/// buffer; when it saved nothing the buffer keeps what it had.
pub fn store_saved_state(platform: &mut PlatformStateInner, saved: Option<Vec<u8>>)
    ensures
        final(platform).saved_view() == match saved {
            Some(b) => Some(b@),
            None => old(platform).saved_view(),
        },
        final(platform).insets_view() == old(platform).insets_view(),
        final(platform).insets_set() == old(platform).insets_set(),
        final(platform).system_theme_view() == old(platform).system_theme_view(),
        final(platform).theme_override_view() == old(platform).theme_override_view(),
        final(platform).clear_color_view() == old(platform).clear_color_view(),
        final(platform).ime_queue() == old(platform).ime_queue(),
{
    match saved {
        Some(bytes) => platform.set_saved_state(bytes),
        None => {},
    }
}

/// Law: the keyboard is shown or hidden only on a change: a second frame
/// with the same focus leaves it alone, and after any frame the keyboard is
/// open exactly when a text field has focus.
pub proof fn lemma_keyboard_acts_once(visible: bool, ime_active: bool)
    ensures
        keyboard_step(visible, ime_active).1 == ime_active,
        keyboard_step(keyboard_step(visible, ime_active).1, ime_active).0 == KeyboardAction::Keep,
        (keyboard_step(visible, ime_active).0 == KeyboardAction::Keep) == (visible == ime_active),
{
}

/// Law: the system bars follow a theme change once: a second frame with the
/// same background sets nothing, and the remembered theme is the
/// background's.
pub proof fn lemma_theme_applied_once(last: Option<SystemTheme>, theme: SystemTheme)
    ensures
        theme_step(last, theme).1 == Some(theme),
        theme_step(theme_step(last, theme).1, theme).0 is None,
        (theme_step(last, theme).0 is None) == (last == Some(theme)),
{
}

} // verus!
