//! Input processing: from platform touch, pointer and key events to the
//! frame's UI events, tracking the pointer and the Back key.
//!
//! Positions are opaque (`P`): the caller converts platform coordinates to
//! UI points before handing them in.

use vstd::prelude::*;
use crate::event::{KeyAction, TouchPhase};

verus! {

/// The Android key code of Back.
pub const KEYCODE_BACK: i32 = 4;

/// The phase of a UI touch event.
#[derive(Debug, Clone, Copy, PartialEq, Eq)]
pub enum UiTouchPhase {
    /// A finger touched down.
    Start,
    /// A finger moved.
    Move,
    /// A finger lifted (or the touch was cancelled).
    End,
}

/// A UI input event of the frame.
#[derive(Debug, Clone, Copy, PartialEq, Eq)]
pub enum FrameEvent<P> {
    /// A touch.
    Touch { phase: UiTouchPhase, pos: P },
    /// The primary pointer button went down or up.
    PointerButton { pos: P, pressed: bool },
    /// The pointer moved.
    PointerMoved(P),
}

/// A platform motion action, as the activity reports it.
#[derive(Debug, Clone, Copy, PartialEq, Eq)]
pub enum MotionAction {
    /// The first finger touched down.
    Down,
    /// Another finger touched down.
    PointerDown,
    /// The last finger lifted.
    Up,
    /// A finger lifted.
    PointerUp,
    /// The gesture was cancelled.
    Cancel,
    /// A finger moved.
    Move,
    /// Any other action.
    Other,
}

/// A backend input event; positions of releases are placeholders (the
/// backend does not know them).
#[derive(Debug, Clone, Copy, PartialEq, Eq)]
pub enum BackendInput<P> {
    /// A touch.
    Touch { phase: TouchPhase, pos: P },
    /// The primary pointer button.
    PointerButton { pos: P, pressed: bool },
    /// A key.
    Key { key_code: i32, action: KeyAction },
}

/// The backend events for a motion event with the position of its first
/// pointer (`origin` stands for the unknown position of a release), and
/// whether it was handled: a down touches and presses, an up or cancel ends
/// the touch and releases, a move moves.
pub fn motion_to_backend<P: Copy>(action: MotionAction, pointer: Option<P>, origin: P) -> (r: (Vec<BackendInput<P>>, bool))
    ensures
        r.0@ == match action {
            MotionAction::Down | MotionAction::PointerDown => match pointer {
                Some(p) => seq![BackendInput::Touch { phase: TouchPhase::Start, pos: p }, BackendInput::PointerButton { pos: p, pressed: true }],
                None => Seq::empty(),
            },
            MotionAction::Up | MotionAction::PointerUp | MotionAction::Cancel =>
                seq![BackendInput::Touch { phase: TouchPhase::End, pos: origin }, BackendInput::PointerButton { pos: origin, pressed: false }],
            MotionAction::Move => match pointer {
                Some(p) => seq![BackendInput::Touch { phase: TouchPhase::Move, pos: p }],
                None => Seq::empty(),
            },
            MotionAction::Other => Seq::empty(),
        },
        r.1 == (r.0@.len() > 0),
{
    let mut out: Vec<BackendInput<P>> = Vec::new();
    match action {
        MotionAction::Down | MotionAction::PointerDown => match pointer {
            Some(p) => {
                out.push(BackendInput::Touch { phase: TouchPhase::Start, pos: p });
                out.push(BackendInput::PointerButton { pos: p, pressed: true });
            },
            None => {},
        },
        MotionAction::Up | MotionAction::PointerUp | MotionAction::Cancel => {
            out.push(BackendInput::Touch { phase: TouchPhase::End, pos: origin });
            out.push(BackendInput::PointerButton { pos: origin, pressed: false });
        },
        MotionAction::Move => match pointer {
            Some(p) => {
                out.push(BackendInput::Touch { phase: TouchPhase::Move, pos: p });
            },
            None => {},
        },
        MotionAction::Other => {},
    }
    proof {
        assert(out@ =~= match action {
            MotionAction::Down | MotionAction::PointerDown => match pointer {
                Some(p) => seq![BackendInput::Touch { phase: TouchPhase::Start, pos: p }, BackendInput::PointerButton { pos: p, pressed: true }],
                None => Seq::empty(),
            },
            MotionAction::Up | MotionAction::PointerUp | MotionAction::Cancel =>
                seq![BackendInput::Touch { phase: TouchPhase::End, pos: origin }, BackendInput::PointerButton { pos: origin, pressed: false }],
            MotionAction::Move => match pointer {
                Some(p) => seq![BackendInput::Touch { phase: TouchPhase::Move, pos: p }],
                None => Seq::empty(),
            },
            MotionAction::Other => Seq::<BackendInput<P>>::empty(),
        });
    }
    let handled = out.len() > 0;
    (out, handled)
}

/// The key event a backend forwards: only a press of Back.
pub fn key_to_backend<P>(key_code: i32, action: KeyAction) -> (r: Option<BackendInput<P>>)
    ensures
        r == if is_back_press(key_code, action) { Some(BackendInput::<P>::Key { key_code, action }) } else { None },
{
    match action {
        KeyAction::Down => if key_code == KEYCODE_BACK {
            Some(BackendInput::Key { key_code, action })
        } else {
            None
        },
        KeyAction::Up => None,
    }
}

/// What Back does once the press is taken.
#[derive(Debug, Clone, Copy, PartialEq, Eq)]
pub enum BackPressAction {
    /// The keyboard is open: hide it.
    HideKeyboard,
    /// Hand Back to the application (navigation).
    Navigate,
}

/// Whether a key event is a press of Back.
pub open spec fn is_back_press(key_code: i32, action: KeyAction) -> bool {
    key_code == KEYCODE_BACK && action == KeyAction::Down
}

/// The UI phase of a platform touch phase.
pub open spec fn ui_phase(phase: TouchPhase) -> UiTouchPhase {
    match phase {
        TouchPhase::Start => UiTouchPhase::Start,
        TouchPhase::Move => UiTouchPhase::Move,
        TouchPhase::End | TouchPhase::Cancel => UiTouchPhase::End,
    }
}

/// The input state of the current frame.
pub struct InputState<P> {
    /// The UI events gathered for the frame, in order.
    pub events: Vec<FrameEvent<P>>,
    /// The last known pointer position.
    pub pointer_pos: Option<P>,
    /// Back was pressed and not yet handled.
    pub back_pressed: bool,
}

impl<P: Copy> InputState<P> {
    /// No events, no pointer, no Back.
    pub fn new() -> (s: Self)
        ensures
            s.events@.len() == 0,
            s.pointer_pos is None,
            !s.back_pressed,
    {
        InputState { events: Vec::new(), pointer_pos: None, back_pressed: false }
    }

    /// A touch event from the backend. End and Cancel carry no position, so
    /// the last known one is used (`pos` when there is none); a move is also
    /// reported as a pointer move; start and move remember `pos`.
    pub fn touch(&mut self, phase: TouchPhase, pos: P)
        ensures
            ({
                let actual = match phase {
                    TouchPhase::End | TouchPhase::Cancel => match old(self).pointer_pos {
                        Some(p) => p,
                        None => pos,
                    },
                    _ => pos,
                };
                let touch = FrameEvent::Touch { phase: ui_phase(phase), pos: actual };
                &&& final(self).events@ == if phase == TouchPhase::Move {
                    old(self).events@.push(touch).push(FrameEvent::PointerMoved(actual))
                } else {
                    old(self).events@.push(touch)
                }
                &&& final(self).pointer_pos == match phase {
                    TouchPhase::Start | TouchPhase::Move => Some(pos),
                    _ => old(self).pointer_pos,
                }
                &&& final(self).back_pressed == old(self).back_pressed
            }),
    {
        let actual = match phase {
            TouchPhase::End | TouchPhase::Cancel => match self.pointer_pos {
                Some(p) => p,
                None => pos,
            },
            _ => pos,
        };
        let ui = match phase {
            TouchPhase::Start => UiTouchPhase::Start,
            TouchPhase::Move => UiTouchPhase::Move,
            TouchPhase::End | TouchPhase::Cancel => UiTouchPhase::End,
        };
        self.events.push(FrameEvent::Touch { phase: ui, pos: actual });
        match phase {
            TouchPhase::Move => {
                self.events.push(FrameEvent::PointerMoved(actual));
            },
            _ => {},
        }
        match phase {
            TouchPhase::Start | TouchPhase::Move => {
                self.pointer_pos = Some(pos);
            },
            _ => {},
        }
    }

    /// A pointer button event from the backend. A release happens at the
    /// last known position (`pos` when there is none) and forgets it; a
    /// press happens at `pos` and remembers it.
    pub fn pointer_button(&mut self, pos: P, pressed: bool)
        ensures
            ({
                let actual = if pressed {
                    pos
                } else {
                    match old(self).pointer_pos {
                        Some(p) => p,
                        None => pos,
                    }
                };
                &&& final(self).events@ == old(self).events@.push(FrameEvent::PointerButton { pos: actual, pressed })
                &&& final(self).pointer_pos == if pressed { Some(pos) } else { None }
                &&& final(self).back_pressed == old(self).back_pressed
            }),
    {
        let actual = if pressed {
            pos
        } else {
            match self.pointer_pos {
                Some(p) => p,
                None => pos,
            }
        };
        self.events.push(FrameEvent::PointerButton { pos: actual, pressed });
        if pressed {
            self.pointer_pos = Some(pos);
        } else {
            self.pointer_pos = None;
        }
    }

    /// A key event from the backend: only a press of Back counts, and it is
    /// remembered until handled.
    pub fn key(&mut self, key_code: i32, action: KeyAction)
        ensures
            final(self).back_pressed == (old(self).back_pressed || is_back_press(key_code, action)),
            final(self).events@ == old(self).events@,
            final(self).pointer_pos == old(self).pointer_pos,
    {
        let down = match action {
            KeyAction::Down => true,
            KeyAction::Up => false,
        };
        if key_code == KEYCODE_BACK && down {
            self.back_pressed = true;
        }
    }

    /// A motion event read straight from the activity, with the position of
    /// its first pointer. A down (of any finger) touches and presses at it;
    /// an up or cancel ends the touch and releases at the last position, if
    /// any, and forgets it; a move touches, moves and remembers the position.
    /// Returns whether the event was handled.
    pub fn motion(&mut self, action: MotionAction, pointer: Option<P>) -> (handled: bool)
        ensures
            handled == match action {
                MotionAction::Down | MotionAction::PointerDown | MotionAction::Move => pointer is Some,
                MotionAction::Up | MotionAction::PointerUp | MotionAction::Cancel => true,
                MotionAction::Other => false,
            },
            final(self).back_pressed == old(self).back_pressed,
            match action {
                MotionAction::Down | MotionAction::PointerDown => match pointer {
                    Some(p) => final(self).pointer_pos == Some(p) && final(self).events@ == old(self).events@
                        .push(FrameEvent::Touch { phase: UiTouchPhase::Start, pos: p })
                        .push(FrameEvent::PointerButton { pos: p, pressed: true }),
                    None => final(self).pointer_pos == old(self).pointer_pos && final(self).events@ == old(self).events@,
                },
                MotionAction::Up | MotionAction::PointerUp | MotionAction::Cancel => {
                    &&& final(self).pointer_pos is None
                    &&& final(self).events@ == match old(self).pointer_pos {
                        Some(p) => old(self).events@
                            .push(FrameEvent::Touch { phase: UiTouchPhase::End, pos: p })
                            .push(FrameEvent::PointerButton { pos: p, pressed: false }),
                        None => old(self).events@,
                    }
                },
                MotionAction::Move => match pointer {
                    Some(p) => final(self).pointer_pos == Some(p) && final(self).events@ == old(self).events@
                        .push(FrameEvent::Touch { phase: UiTouchPhase::Move, pos: p })
                        .push(FrameEvent::PointerMoved(p)),
                    None => final(self).pointer_pos == old(self).pointer_pos && final(self).events@ == old(self).events@,
                },
                MotionAction::Other => final(self).pointer_pos == old(self).pointer_pos && final(self).events@ == old(self).events@,
            },
    {
        match action {
            MotionAction::Down | MotionAction::PointerDown => match pointer {
                Some(p) => {
                    self.pointer_pos = Some(p);
                    self.events.push(FrameEvent::Touch { phase: UiTouchPhase::Start, pos: p });
                    self.events.push(FrameEvent::PointerButton { pos: p, pressed: true });
                    true
                },
                None => false,
            },
            MotionAction::Up | MotionAction::PointerUp | MotionAction::Cancel => {
                match self.pointer_pos.take() {
                    Some(p) => {
                        self.events.push(FrameEvent::Touch { phase: UiTouchPhase::End, pos: p });
                        self.events.push(FrameEvent::PointerButton { pos: p, pressed: false });
                    },
                    None => {},
                }
                true
            },
            MotionAction::Move => match pointer {
                Some(p) => {
                    self.pointer_pos = Some(p);
                    self.events.push(FrameEvent::Touch { phase: UiTouchPhase::Move, pos: p });
                    self.events.push(FrameEvent::PointerMoved(p));
                    true
                },
                None => false,
            },
            MotionAction::Other => false,
        }
    }

    /// A backend input event (see [`InputState::touch`],
    /// [`InputState::pointer_button`], [`InputState::key`]).
    pub fn apply_backend(&mut self, input: BackendInput<P>)
        ensures
            match input {
                BackendInput::Touch { phase, pos } => {
                    let actual = match phase {
                        TouchPhase::End | TouchPhase::Cancel => match old(self).pointer_pos {
                            Some(p) => p,
                            None => pos,
                        },
                        _ => pos,
                    };
                    let touch = FrameEvent::Touch { phase: ui_phase(phase), pos: actual };
                    &&& final(self).events@ == if phase == TouchPhase::Move {
                        old(self).events@.push(touch).push(FrameEvent::PointerMoved(actual))
                    } else {
                        old(self).events@.push(touch)
                    }
                    &&& final(self).pointer_pos == match phase {
                        TouchPhase::Start | TouchPhase::Move => Some(pos),
                        _ => old(self).pointer_pos,
                    }
                    &&& final(self).back_pressed == old(self).back_pressed
                },
                BackendInput::PointerButton { pos, pressed } => {
                    let actual = if pressed {
                        pos
                    } else {
                        match old(self).pointer_pos {
                            Some(p) => p,
                            None => pos,
                        }
                    };
                    &&& final(self).events@ == old(self).events@.push(FrameEvent::PointerButton { pos: actual, pressed })
                    &&& final(self).pointer_pos == if pressed { Some(pos) } else { None }
                    &&& final(self).back_pressed == old(self).back_pressed
                },
                BackendInput::Key { key_code, action } => {
                    &&& final(self).back_pressed == (old(self).back_pressed || is_back_press(key_code, action))
                    &&& final(self).events@ == old(self).events@
                    &&& final(self).pointer_pos == old(self).pointer_pos
                },
            },
    {
        match input {
            BackendInput::Touch { phase, pos } => self.touch(phase, pos),
            BackendInput::PointerButton { pos, pressed } => self.pointer_button(pos, pressed),
            BackendInput::Key { key_code, action } => self.key(key_code, action),
        }
    }

    /// Take the Back press: it is cleared, and Back hides the keyboard when
    /// it is open, otherwise it goes to the application.
    pub fn take_back_press(&mut self, keyboard_visible: bool) -> (r: BackPressAction)
        ensures
            !final(self).back_pressed,
            final(self).events@ == old(self).events@,
            final(self).pointer_pos == old(self).pointer_pos,
            r == if keyboard_visible { BackPressAction::HideKeyboard } else { BackPressAction::Navigate },
    {
        self.back_pressed = false;
        if keyboard_visible {
            BackPressAction::HideKeyboard
        } else {
            BackPressAction::Navigate
        }
    }
}

/// Input-method events delivered one frame late: what arrives during a frame
/// is handed to the next one, so that text never lands in the frame it came
/// in.
pub struct ImeDelivery<E> {
    pending: Vec<E>,
    deliver: Vec<E>,
}

impl<E> ImeDelivery<E> {
    /// Events gathered in the current frame.
    pub closed spec fn pending_view(&self) -> Seq<E> {
        self.pending@
    }

    /// Events due in the next frame.
    pub closed spec fn deliver_view(&self) -> Seq<E> {
        self.deliver@
    }

    /// Nothing pending, nothing due.
    pub fn new() -> (d: Self)
        ensures
            d.pending_view().len() == 0,
            d.deliver_view().len() == 0,
    {
        ImeDelivery { pending: Vec::new(), deliver: Vec::new() }
    }

    /// An event arrived in the current frame.
    pub fn push(&mut self, e: E)
        ensures
            final(self).pending_view() == old(self).pending_view().push(e),
            final(self).deliver_view() == old(self).deliver_view(),
    {
        self.pending.push(e);
    }

    /// Start a frame: the events due now are returned, and the ones gathered
    /// in the last frame become due in the next.
    pub fn take_for_frame(&mut self) -> (r: Vec<E>)
        ensures
            r@ == old(self).deliver_view(),
            final(self).deliver_view() == old(self).pending_view(),
            final(self).pending_view().len() == 0,
    {
        let mut due = Vec::new();
        std::mem::swap(&mut due, &mut self.deliver);
        std::mem::swap(&mut self.deliver, &mut self.pending);
        due
    }
}

} // verus!
