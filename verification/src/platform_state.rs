//! Platform state: system insets, theme, clear colour and the saved-state
//! buffer that carries serialized application state across a process kill.
//!
//! [`PlatformStateInner`] is the state itself, as plain data; sharing it
//! between the main loop and the bridge thread (behind a lock) is left to the
//! caller.

use vstd::prelude::*;
use crate::event::ImeCmd;
use crate::platform::SystemTheme;

verus! {

/// System insets in pixels.
#[derive(Debug, Clone, Copy)]
pub struct InsetsPx {
    /// Left inset.
    pub left: i32,
    /// Top inset.
    pub top: i32,
    /// Right inset.
    pub right: i32,
    /// Bottom inset.
    pub bottom: i32,
}

impl Default for InsetsPx {
    fn default() -> (r: Self)
        ensures
            r.left == 0 && r.top == 0 && r.right == 0 && r.bottom == 0,
    {
        InsetsPx { left: 0, top: 0, right: 0, bottom: 0 }
    }
}

impl InsetsPx {
    /// Every inset is non-negative (as the platform reports real insets).
    pub fn is_valid(&self) -> (r: bool)
        ensures
            r == (self.left >= 0 && self.top >= 0 && self.right >= 0 && self.bottom >= 0),
    {
        self.left >= 0 && self.top >= 0 && self.right >= 0 && self.bottom >= 0
    }
}

/// The clear colour of a fresh state: `0x333333`.
pub const DEFAULT_CLEAR_COLOR: u32 = 0x33_33_33;

/// `0xRRGGBB` from its three channels.
pub open spec fn pack_rgb(r: u8, g: u8, b: u8) -> u32 {
    ((r as u32) << 16u32) | ((g as u32) << 8u32) | (b as u32)
}

/// The three channels of `0xRRGGBB` (higher bits ignored).
pub open spec fn unpack_rgb(packed: u32) -> (u8, u8, u8) {
    (((packed >> 16u32) & 0xFFu32) as u8, ((packed >> 8u32) & 0xFFu32) as u8, (packed & 0xFFu32) as u8)
}

/// The state of the platform layer.
pub struct PlatformStateInner {
    insets_px: InsetsPx,
    insets_valid: bool,
    system_theme: Option<SystemTheme>,
    theme_override: Option<SystemTheme>,
    clear_color: u32,
    saved_state_buffer: Option<Vec<u8>>,
    ime_cmds: Vec<ImeCmd>,
}

impl PlatformStateInner {
    /// The insets last set.
    pub closed spec fn insets_view(&self) -> InsetsPx {
        self.insets_px
    }

    /// Whether insets were ever set.
    pub closed spec fn insets_set(&self) -> bool {
        self.insets_valid
    }

    /// The system theme, once set.
    pub closed spec fn system_theme_view(&self) -> Option<SystemTheme> {
        self.system_theme
    }

    /// The application's theme override, if any.
    pub closed spec fn theme_override_view(&self) -> Option<SystemTheme> {
        self.theme_override
    }

    /// The packed clear colour.
    pub closed spec fn clear_color_view(&self) -> u32 {
        self.clear_color
    }

    /// The saved-state bytes waiting in the buffer, if any.
    pub closed spec fn saved_view(&self) -> Option<Seq<u8>> {
        match self.saved_state_buffer {
            Some(b) => Some(b@),
            None => None,
        }
    }

    /// The input-method commands queued by the bridge, oldest first.
    pub closed spec fn ime_queue(&self) -> Seq<ImeCmd> {
        self.ime_cmds@
    }

    /// A fresh state: no insets, no theme, clear colour `0x333333`, empty
    /// buffer, no queued commands.
    pub fn new() -> (s: Self)
        ensures
            !s.insets_set(),
            s.insets_view() == (InsetsPx { left: 0, top: 0, right: 0, bottom: 0 }),
            s.system_theme_view() is None,
            s.theme_override_view() is None,
            s.clear_color_view() == DEFAULT_CLEAR_COLOR,
            s.saved_view() is None,
            s.ime_queue().len() == 0,
    {
        PlatformStateInner {
            insets_px: InsetsPx::default(),
            insets_valid: false,
            system_theme: None,
            theme_override: None,
            clear_color: DEFAULT_CLEAR_COLOR,
            saved_state_buffer: None,
            ime_cmds: Vec::new(),
        }
    }

    /// Set the insets (as reported by the platform).
    pub fn set_insets_px(&mut self, insets: InsetsPx)
        ensures
            final(self).insets_view() == insets,
            final(self).insets_set(),
            final(self).system_theme_view() == old(self).system_theme_view(),
            final(self).theme_override_view() == old(self).theme_override_view(),
            final(self).clear_color_view() == old(self).clear_color_view(),
            final(self).saved_view() == old(self).saved_view(),
            final(self).ime_queue() == old(self).ime_queue(),
    {
        self.insets_px = insets;
        self.insets_valid = true;
    }

    /// The insets.
    pub fn insets_px(&self) -> (r: InsetsPx)
        ensures
            r == self.insets_view(),
    {
        self.insets_px
    }

    /// The insets were set and are valid.
    pub fn insets_are_valid(&self) -> (r: bool)
        ensures
            r == (self.insets_set() && self.insets_view().left >= 0 && self.insets_view().top >= 0
                && self.insets_view().right >= 0 && self.insets_view().bottom >= 0),
    {
        self.insets_valid && self.insets_px.is_valid()
    }

    /// Set the system theme.
    pub fn set_system_theme(&mut self, theme: SystemTheme)
        ensures
            final(self).system_theme_view() == Some(theme),
            final(self).theme_override_view() == old(self).theme_override_view(),
            final(self).insets_view() == old(self).insets_view(),
            final(self).insets_set() == old(self).insets_set(),
            final(self).clear_color_view() == old(self).clear_color_view(),
            final(self).saved_view() == old(self).saved_view(),
            final(self).ime_queue() == old(self).ime_queue(),
    {
        self.system_theme = Some(theme);
    }

    /// Set (or, with `None`, drop) the application's theme override.
    pub fn set_theme_override(&mut self, theme: Option<SystemTheme>)
        ensures
            final(self).theme_override_view() == theme,
            final(self).system_theme_view() == old(self).system_theme_view(),
            final(self).insets_view() == old(self).insets_view(),
            final(self).insets_set() == old(self).insets_set(),
            final(self).clear_color_view() == old(self).clear_color_view(),
            final(self).saved_view() == old(self).saved_view(),
            final(self).ime_queue() == old(self).ime_queue(),
    {
        self.theme_override = theme;
    }

    /// The current theme: the override when set, otherwise the system theme,
    /// which must have been set.
    pub fn current_theme(&self) -> (r: SystemTheme)
        requires
            self.theme_override_view() is Some || self.system_theme_view() is Some,
        ensures
            r == match self.theme_override_view() {
                Some(t) => t,
                None => self.system_theme_view()->0,
            },
    {
        match self.theme_override {
            Some(t) => t,
            None => match self.system_theme {
                Some(t) => t,
                None => SystemTheme::Light,
            },
        }
    }

    /// The current theme: the override when set, otherwise the system theme,
    /// otherwise `fallback`.
    pub fn current_theme_or_fallback(&self, fallback: SystemTheme) -> (r: SystemTheme)
        ensures
            r == match self.theme_override_view() {
                Some(t) => t,
                None => match self.system_theme_view() {
                    Some(t) => t,
                    None => fallback,
                },
            },
    {
        match self.theme_override {
            Some(t) => t,
            None => match self.system_theme {
                Some(t) => t,
                None => fallback,
            },
        }
    }

    /// Set the packed clear colour `0xRRGGBB`.
    pub fn set_clear_color(&mut self, packed: u32)
        ensures
            final(self).clear_color_view() == packed,
            final(self).insets_view() == old(self).insets_view(),
            final(self).insets_set() == old(self).insets_set(),
            final(self).system_theme_view() == old(self).system_theme_view(),
            final(self).theme_override_view() == old(self).theme_override_view(),
            final(self).saved_view() == old(self).saved_view(),
            final(self).ime_queue() == old(self).ime_queue(),
    {
        self.clear_color = packed;
    }

    /// Set the clear colour from its channels.
    pub fn set_clear_color_rgb(&mut self, r: u8, g: u8, b: u8)
        ensures
            final(self).clear_color_view() == pack_rgb(r, g, b),
            final(self).insets_view() == old(self).insets_view(),
            final(self).insets_set() == old(self).insets_set(),
            final(self).system_theme_view() == old(self).system_theme_view(),
            final(self).theme_override_view() == old(self).theme_override_view(),
            final(self).saved_view() == old(self).saved_view(),
            final(self).ime_queue() == old(self).ime_queue(),
    {
        let packed = ((r as u32) << 16u32) | ((g as u32) << 8u32) | (b as u32);
        self.set_clear_color(packed);
    }

    /// The channels of the clear colour.
    pub fn clear_color_rgb(&self) -> (r: (u8, u8, u8))
        ensures
            r == unpack_rgb(self.clear_color_view()),
    {
        let packed = self.clear_color;
        (((packed >> 16u32) & 0xFFu32) as u8, ((packed >> 8u32) & 0xFFu32) as u8, (packed & 0xFFu32) as u8)
    }

    /// Put serialized state into the buffer, replacing what was there.
    pub fn set_saved_state(&mut self, bytes: Vec<u8>)
        ensures
            final(self).saved_view() == Some(bytes@),
            final(self).insets_view() == old(self).insets_view(),
            final(self).insets_set() == old(self).insets_set(),
            final(self).system_theme_view() == old(self).system_theme_view(),
            final(self).theme_override_view() == old(self).theme_override_view(),
            final(self).clear_color_view() == old(self).clear_color_view(),
            final(self).ime_queue() == old(self).ime_queue(),
    {
        self.saved_state_buffer = Some(bytes);
    }

    /// Take the serialized state out of the buffer, leaving it empty.
    pub fn take_saved_state(&mut self) -> (r: Option<Vec<u8>>)
        ensures
            match r {
                Some(b) => old(self).saved_view() == Some(b@),
                None => old(self).saved_view() is None,
            },
            final(self).saved_view() is None,
            final(self).insets_view() == old(self).insets_view(),
            final(self).insets_set() == old(self).insets_set(),
            final(self).system_theme_view() == old(self).system_theme_view(),
            final(self).theme_override_view() == old(self).theme_override_view(),
            final(self).clear_color_view() == old(self).clear_color_view(),
            final(self).ime_queue() == old(self).ime_queue(),
    {
        self.saved_state_buffer.take()
    }

    /// Queue an input-method command from the bridge.
    pub fn push_ime_cmd(&mut self, cmd: ImeCmd)
        ensures
            final(self).ime_queue() == old(self).ime_queue().push(cmd),
            final(self).saved_view() == old(self).saved_view(),
            final(self).insets_view() == old(self).insets_view(),
            final(self).insets_set() == old(self).insets_set(),
            final(self).system_theme_view() == old(self).system_theme_view(),
            final(self).theme_override_view() == old(self).theme_override_view(),
            final(self).clear_color_view() == old(self).clear_color_view(),
    {
        self.ime_cmds.push(cmd);
    }

    /// Whether commands wait in the queue.
    pub fn has_ime_cmds(&self) -> (r: bool)
        ensures
            r == (self.ime_queue().len() > 0),
    {
        self.ime_cmds.len() > 0
    }

    /// Take every queued command, oldest first, leaving the queue empty.
    pub fn take_ime_cmds(&mut self) -> (r: Vec<ImeCmd>)
        ensures
            r@ == old(self).ime_queue(),
            final(self).ime_queue().len() == 0,
            final(self).saved_view() == old(self).saved_view(),
            final(self).insets_view() == old(self).insets_view(),
            final(self).insets_set() == old(self).insets_set(),
            final(self).system_theme_view() == old(self).system_theme_view(),
            final(self).theme_override_view() == old(self).theme_override_view(),
            final(self).clear_color_view() == old(self).clear_color_view(),
    {
        let mut taken = Vec::new();
        std::mem::swap(&mut taken, &mut self.ime_cmds);
        taken
    }
}

impl Default for PlatformStateInner {
    fn default() -> (s: Self)
        ensures
            !s.insets_set(),
            s.system_theme_view() is None,
            s.theme_override_view() is None,
            s.clear_color_view() == DEFAULT_CLEAR_COLOR,
            s.saved_view() is None,
    {
        PlatformStateInner::new()
    }
}

/// Law: unpacking a packed colour gives back its channels.
pub proof fn lemma_unpack_pack(r: u8, g: u8, b: u8)
    ensures
        unpack_rgb(pack_rgb(r, g, b)) == (r, g, b),
{
    let p = pack_rgb(r, g, b);
    assert(((p >> 16u32) & 0xFFu32) as u8 == r && ((p >> 8u32) & 0xFFu32) as u8 == g && (p & 0xFFu32) as u8 == b)
        by (bit_vector)
        requires
            p == ((r as u32) << 16u32) | ((g as u32) << 8u32) | (b as u32),
    ;
}

} // verus!
