use egui_android::backend::{AndroidBackendKind, SystemBarsStyle};
use egui_android::event::{BackendError, ImeCmd, KeyAction, LifecycleEvent, TouchPhase};
use egui_android::frame_loop::{
    frame_had_events, frame_poll_timeout, should_render, theme_for_background, store_saved_state,
    FrameActions, KeyboardAction, LifecycleAction, LoopState,
};
use egui_android::input_processing::{
    key_to_backend, motion_to_backend, BackPressAction, BackendInput, FrameEvent, ImeDelivery,
    InputState, MotionAction, UiTouchPhase,
};
use egui_android::log_throttle::{slot_id, LogThrottle, MAX_COUNTERS};
use egui_android::platform::{PlatformConfig, SystemTheme, Waker};
use egui_android::platform_state::{InsetsPx, PlatformStateInner};
use egui_android::system_bars::{bar_appearance, bar_color, theme_from_ui_mode};
use std::time::Duration;

// ─── Saved-state buffer ────────────────────────────────────────────

#[test]
fn set_saved_state_and_take_roundtrip() {
    let mut ps = PlatformStateInner::new();
    assert!(ps.take_saved_state().is_none(), "a fresh buffer is empty");
    let data = vec![1, 2, 3, 4, 5];
    ps.set_saved_state(data.clone());
    let taken = ps.take_saved_state();
    assert_eq!(taken, Some(data), "take gives back what was set");
    assert!(ps.take_saved_state().is_none(), "after take the buffer is empty");
}

#[test]
fn set_saved_state_overwrites_previous() {
    let mut ps = PlatformStateInner::new();
    ps.set_saved_state(vec![10, 20]);
    ps.set_saved_state(vec![30, 40, 50]);
    assert_eq!(ps.take_saved_state(), Some(vec![30, 40, 50]));
}

#[test]
fn set_saved_state_empty_vec() {
    let mut ps = PlatformStateInner::new();
    ps.set_saved_state(vec![]);
    assert_eq!(ps.take_saved_state(), Some(vec![]));
    assert!(ps.take_saved_state().is_none());
}

#[test]
fn take_saved_state_idempotent() {
    let mut ps = PlatformStateInner::new();
    assert!(ps.take_saved_state().is_none());
    assert!(ps.take_saved_state().is_none());
    assert!(ps.take_saved_state().is_none());
}

#[test]
fn set_take_set_take_cycle() {
    let mut ps = PlatformStateInner::new();
    ps.set_saved_state(vec![1]);
    assert_eq!(ps.take_saved_state(), Some(vec![1]));
    assert!(ps.take_saved_state().is_none());
    ps.set_saved_state(vec![9, 8, 7]);
    assert_eq!(ps.take_saved_state(), Some(vec![9, 8, 7]));
    assert!(ps.take_saved_state().is_none());
    ps.set_saved_state(vec![42]);
    assert_eq!(ps.take_saved_state(), Some(vec![42]));
    assert!(ps.take_saved_state().is_none());
}

#[test]
fn store_saved_state_keeps_buffer_on_none() {
    let mut ps = PlatformStateInner::new();
    store_saved_state(&mut ps, Some(vec![5, 6]));
    store_saved_state(&mut ps, None);
    assert_eq!(ps.take_saved_state(), Some(vec![5, 6]));
}

// ─── Insets, theme, clear colour ───────────────────────────────────

#[test]
fn insets_validity() {
    assert!(InsetsPx::default().is_valid());
    assert!(InsetsPx { left: 0, top: 24, right: 0, bottom: 48 }.is_valid());
    assert!(!InsetsPx { left: -1, top: 0, right: 0, bottom: 0 }.is_valid());
    assert!(!InsetsPx { left: 0, top: 0, right: 0, bottom: -5 }.is_valid());
}

#[test]
fn insets_valid_only_once_set() {
    let mut ps = PlatformStateInner::new();
    assert!(!ps.insets_are_valid());
    ps.set_insets_px(InsetsPx { left: 1, top: 2, right: 3, bottom: 4 });
    assert!(ps.insets_are_valid());
    assert_eq!(ps.insets_px().bottom, 4);
    ps.set_insets_px(InsetsPx { left: 1, top: -2, right: 3, bottom: 4 });
    assert!(!ps.insets_are_valid());
}

#[test]
fn theme_override_wins_over_system_theme() {
    let mut ps = PlatformStateInner::new();
    assert_eq!(ps.current_theme_or_fallback(SystemTheme::Dark), SystemTheme::Dark);
    ps.set_system_theme(SystemTheme::Light);
    assert_eq!(ps.current_theme(), SystemTheme::Light);
    ps.set_theme_override(Some(SystemTheme::Dark));
    assert_eq!(ps.current_theme(), SystemTheme::Dark);
    ps.set_theme_override(None);
    assert_eq!(ps.current_theme_or_fallback(SystemTheme::Dark), SystemTheme::Light);
}

#[test]
fn clear_color_packs_channels() {
    let mut ps = PlatformStateInner::new();
    assert_eq!(ps.clear_color_rgb(), (0x33, 0x33, 0x33));
    ps.set_clear_color_rgb(0x12, 0xAB, 0xFE);
    assert_eq!(ps.clear_color_rgb(), (0x12, 0xAB, 0xFE));
    ps.set_clear_color(0xFF_00_80_40);
    assert_eq!(ps.clear_color_rgb(), (0x00, 0x80, 0x40));
}

// ─── Main-loop decisions ───────────────────────────────────────────

#[test]
fn frame_poll_timeout_cases() {
    assert_eq!(frame_poll_timeout(false, Duration::from_millis(16)), None);
    assert_eq!(frame_poll_timeout(true, Duration::ZERO), Some(Duration::ZERO));
    assert_eq!(frame_poll_timeout(true, Duration::from_millis(16)), Some(Duration::from_millis(16)));
    assert_eq!(frame_poll_timeout(true, Duration::from_secs(3600)), None);
    assert_eq!(
        frame_poll_timeout(true, Duration::from_secs(3599)),
        Some(Duration::from_secs(3599))
    );
}

#[test]
fn render_and_event_decisions() {
    assert!(should_render(true, false, false));
    assert!(should_render(false, true, false));
    assert!(should_render(false, false, true));
    assert!(!should_render(false, false, false));
    assert!(frame_had_events(2, false, false));
    assert!(frame_had_events(0, true, false));
    assert!(frame_had_events(0, false, true));
    assert!(!frame_had_events(0, false, false));
}

#[test]
fn keyboard_shown_and_hidden_once() {
    let mut st = LoopState::new();
    let a = st.after_frame(true, 255, 255, 255);
    assert_eq!(a.keyboard, KeyboardAction::Show);
    assert!(st.keyboard_visible());
    let a = st.after_frame(true, 255, 255, 255);
    assert_eq!(a.keyboard, KeyboardAction::Keep);
    let a = st.after_frame(false, 255, 255, 255);
    assert_eq!(a.keyboard, KeyboardAction::Hide);
    assert!(!st.keyboard_visible());
    let a = st.after_frame(false, 255, 255, 255);
    assert_eq!(a.keyboard, KeyboardAction::Keep);
}

#[test]
fn ime_done_closes_keyboard() {
    let mut st = LoopState::new();
    st.after_frame(true, 0, 0, 0);
    st.on_ime_done();
    assert!(!st.keyboard_visible());
    assert_eq!(st.after_frame(true, 0, 0, 0).keyboard, KeyboardAction::Show);
}

#[test]
fn theme_follows_background_once() {
    assert_eq!(theme_for_background(0x12, 0x12, 0x12), SystemTheme::Dark);
    assert_eq!(theme_for_background(128, 128, 127), SystemTheme::Dark);
    assert_eq!(theme_for_background(128, 128, 128), SystemTheme::Light);
    let mut st = LoopState::new();
    assert_eq!(
        st.after_frame(false, 250, 250, 250),
        FrameActions { keyboard: KeyboardAction::Keep, theme: Some(SystemTheme::Light) }
    );
    assert_eq!(st.after_frame(false, 250, 250, 250).theme, None);
    assert_eq!(st.after_frame(false, 10, 10, 10).theme, Some(SystemTheme::Dark));
    assert_eq!(st.after_frame(false, 10, 10, 10).theme, None);
}

#[test]
fn lifecycle_events_map_to_actions() {
    let mut st = LoopState::new();
    assert_eq!(st.on_lifecycle(LifecycleEvent::InitWindow), LifecycleAction::InitWindow);
    assert_eq!(st.on_lifecycle(LifecycleEvent::Resume), LifecycleAction::Resume);
    assert_eq!(st.on_lifecycle(LifecycleEvent::Pause), LifecycleAction::Pause);
    assert_eq!(st.on_lifecycle(LifecycleEvent::Stop), LifecycleAction::SaveAndStop);
    assert!(!st.destroy_requested());
    assert_eq!(st.on_lifecycle(LifecycleEvent::Destroy), LifecycleAction::SaveAndDestroy);
    assert!(st.destroy_requested());
    let mut st2 = LoopState::new();
    st2.request_destroy();
    assert!(st2.destroy_requested());
}

// ─── Input processing ──────────────────────────────────────────────

#[test]
fn touch_end_uses_last_position() {
    let mut s: InputState<(i32, i32)> = InputState::new();
    s.touch(TouchPhase::Start, (1, 1));
    s.touch(TouchPhase::Move, (2, 3));
    s.touch(TouchPhase::End, (0, 0));
    assert_eq!(
        s.events,
        vec![
            FrameEvent::Touch { phase: UiTouchPhase::Start, pos: (1, 1) },
            FrameEvent::Touch { phase: UiTouchPhase::Move, pos: (2, 3) },
            FrameEvent::PointerMoved((2, 3)),
            FrameEvent::Touch { phase: UiTouchPhase::End, pos: (2, 3) },
        ]
    );
    assert_eq!(s.pointer_pos, Some((2, 3)));
}

#[test]
fn pointer_release_goes_where_the_press_was() {
    let mut s: InputState<(i32, i32)> = InputState::new();
    s.pointer_button((5, 6), true);
    s.pointer_button((0, 0), false);
    assert_eq!(
        s.events,
        vec![
            FrameEvent::PointerButton { pos: (5, 6), pressed: true },
            FrameEvent::PointerButton { pos: (5, 6), pressed: false },
        ]
    );
    assert_eq!(s.pointer_pos, None);
    s.pointer_button((7, 7), false);
    assert_eq!(s.events[2], FrameEvent::PointerButton { pos: (7, 7), pressed: false });
}

#[test]
fn only_back_down_counts() {
    let mut s: InputState<u8> = InputState::new();
    s.key(4, KeyAction::Up);
    assert!(!s.back_pressed);
    s.key(66, KeyAction::Down);
    assert!(!s.back_pressed);
    s.key(4, KeyAction::Down);
    assert!(s.back_pressed);
    assert_eq!(s.take_back_press(true), BackPressAction::HideKeyboard);
    assert!(!s.back_pressed);
    assert_eq!(s.take_back_press(false), BackPressAction::Navigate);
}

#[test]
fn motion_events_from_the_activity() {
    let mut s: InputState<(i32, i32)> = InputState::new();
    assert!(s.motion(MotionAction::Down, Some((1, 2))));
    assert!(s.motion(MotionAction::Move, Some((3, 4))));
    assert!(s.motion(MotionAction::Up, None));
    assert!(!s.motion(MotionAction::Other, Some((9, 9))));
    assert!(!s.motion(MotionAction::Move, None));
    assert_eq!(
        s.events,
        vec![
            FrameEvent::Touch { phase: UiTouchPhase::Start, pos: (1, 2) },
            FrameEvent::PointerButton { pos: (1, 2), pressed: true },
            FrameEvent::Touch { phase: UiTouchPhase::Move, pos: (3, 4) },
            FrameEvent::PointerMoved((3, 4)),
            FrameEvent::Touch { phase: UiTouchPhase::End, pos: (3, 4) },
            FrameEvent::PointerButton { pos: (3, 4), pressed: false },
        ]
    );
    assert!(s.motion(MotionAction::Cancel, None));
    assert_eq!(s.events.len(), 6);
}

#[test]
fn backend_motion_and_key_events() {
    let (ev, handled) = motion_to_backend(MotionAction::PointerDown, Some(7), 0);
    assert!(handled);
    assert_eq!(
        ev,
        vec![
            BackendInput::Touch { phase: TouchPhase::Start, pos: 7 },
            BackendInput::PointerButton { pos: 7, pressed: true },
        ]
    );
    let (ev, handled) = motion_to_backend(MotionAction::Cancel, None, 0);
    assert!(handled);
    assert_eq!(ev.len(), 2);
    let (ev, handled) = motion_to_backend::<i32>(MotionAction::Move, None, 0);
    assert!(!handled);
    assert!(ev.is_empty());
    assert_eq!(
        key_to_backend::<i32>(4, KeyAction::Down),
        Some(BackendInput::Key { key_code: 4, action: KeyAction::Down })
    );
    assert_eq!(key_to_backend::<i32>(4, KeyAction::Up), None);

    let mut s: InputState<i32> = InputState::new();
    s.apply_backend(BackendInput::Touch { phase: TouchPhase::Start, pos: 7 });
    s.apply_backend(BackendInput::Touch { phase: TouchPhase::End, pos: 0 });
    s.apply_backend(BackendInput::Key { key_code: 4, action: KeyAction::Down });
    assert_eq!(s.events[1], FrameEvent::Touch { phase: UiTouchPhase::End, pos: 7 });
    assert!(s.back_pressed);
}

#[test]
fn ime_events_arrive_one_frame_late() {
    let mut d: ImeDelivery<&str> = ImeDelivery::new();
    d.push("a");
    d.push("b");
    assert!(d.take_for_frame().is_empty());
    d.push("c");
    assert_eq!(d.take_for_frame(), vec!["a", "b"]);
    assert_eq!(d.take_for_frame(), vec!["c"]);
    assert!(d.take_for_frame().is_empty());
}

// ─── Logging throttle ──────────────────────────────────────────────

#[test]
fn log_slots_are_stable_and_bounded() {
    assert_eq!(slot_id(""), 0);
    assert_eq!(slot_id("a"), 97 % 16);
    assert_eq!(slot_id("ab"), (97 * 31 + 98) % 16);
    assert!(slot_id("__default__") < MAX_COUNTERS);
    assert_eq!(slot_id("frame"), slot_id("frame"));
}

#[test]
fn log_throttle_once_per_interval() {
    let mut t = LogThrottle::new();
    assert!(t.should_log("x", 100, 5));
    assert_eq!(t.last_logged("x"), 100);
    assert!(!t.should_log("x", 104, 5));
    assert!(t.should_log("x", 105, 5));
    assert!(!t.should_log("x", 105, 5));
}

// ─── System bars, events, platform ─────────────────────────────────

#[test]
fn system_bar_choices() {
    assert_eq!(theme_from_ui_mode(0x21), SystemTheme::Dark);
    assert_eq!(theme_from_ui_mode(0x11), SystemTheme::Light);
    assert_eq!(bar_color(SystemTheme::Light), 0);
    assert_eq!(bar_color(SystemTheme::Dark), 0xFF_FF_FF);
    assert_eq!(bar_appearance(SystemTheme::Light), (0x18, 0x18));
    assert_eq!(bar_appearance(SystemTheme::Dark), (0, 0x18));
}

#[test]
fn backend_error_messages() {
    assert_eq!(BackendError::EglInit("x".into()).message(), "EGL init: x");
    assert_eq!(BackendError::NoNativeWindow.message(), "нет NativeWindow");
    assert_eq!(BackendError::RecreateSurface("y".into()).message(), "recreate surface: y");
    assert_eq!(BackendError::Other("z".into()).message(), "z");
}

#[test]
fn plain_platform_values() {
    assert!(!PlatformConfig::default().vsync);
    assert_ne!(SystemBarsStyle::Transparent, SystemBarsStyle::Opaque);
    assert_ne!(AndroidBackendKind::Gl, AndroidBackendKind::Native);
    assert_ne!(AndroidBackendKind::Game, AndroidBackendKind::Gl);
}

#[test]
fn waker_calls_its_handler() {
    let count = std::sync::Arc::new(std::sync::Mutex::new(0u32));
    let c = count.clone();
    let w = Waker::new(move || {
        *c.lock().unwrap() += 1;
    });
    w.wake();
    let w2 = w.clone();
    w2.wake();
    assert_eq!(*count.lock().unwrap(), 2);
}

#[test]
fn game_kind_runs_on_gl() {
    assert_eq!(AndroidBackendKind::Game.backend_in_use(), AndroidBackendKind::Gl);
    assert_eq!(AndroidBackendKind::Gl.backend_in_use(), AndroidBackendKind::Gl);
    assert_eq!(AndroidBackendKind::Native.backend_in_use(), AndroidBackendKind::Native);
}

#[test]
fn ime_queue_keeps_order_and_empties_on_take() {
    let mut ps = PlatformStateInner::new();
    assert!(!ps.has_ime_cmds());
    ps.push_ime_cmd(ImeCmd::Commit("a".into()));
    ps.push_ime_cmd(ImeCmd::Done);
    assert!(ps.has_ime_cmds());
    let cmds = ps.take_ime_cmds();
    assert_eq!(cmds.len(), 2);
    assert!(matches!(&cmds[0], ImeCmd::Commit(t) if t == "a"));
    assert!(matches!(cmds[1], ImeCmd::Done));
    assert!(!ps.has_ime_cmds());
    assert!(ps.take_ime_cmds().is_empty());
}
