use egui_android::event::ImeCmd as BridgeCmd;
use egui_android::ime_editor::{
    commit_command, composing_region_command, cursor_caps_mode, selected_text, text_after_cursor,
    text_before_cursor,
};
use egui_android::ime_logic::{translate_legacy, utf16_offset_to_char_index, utf16_substr, ImeCmd as LegacyCmd};
use egui_android::ime_service::{
    poll_timeout, DefaultImeService, ImeCmd, ImeCommand, ImeEvent, ImeService, UiCmd,
};

/// A text buffer model (no UI) on which the service's operations are
/// applied, to check positions and that nothing is duplicated or lost.
#[derive(Debug, Clone, Default, PartialEq)]
pub struct ModelTextBuffer {
    pub chars: Vec<char>,
    pub cursor: usize,
}

impl ModelTextBuffer {
    pub fn text(&self) -> String {
        self.chars.iter().collect()
    }

    /// Apply an operation; true when the buffer changed.
    pub fn apply(&mut self, ev: &ImeEvent) -> bool {
        match ev {
            ImeEvent::Insert(text) => self.insert_at_cursor(text),
            ImeEvent::Replace {
                start,
                end,
                replacement,
            } => self.replace(*start, *end, replacement),
            ImeEvent::Delete { before, after } => self.delete(*before, *after),
            ImeEvent::Cursor(idx) => {
                self.cursor = (*idx).min(self.chars.len());
                false
            }
            ImeEvent::Action(_) => false,
        }
    }

    fn insert_at_cursor(&mut self, text: &str) -> bool {
        let pos = self.cursor.min(self.chars.len());
        let mut insert: Vec<char> = text.chars().collect();
        self.chars.splice(pos..pos, insert.drain(..));
        self.cursor = pos + text.chars().count();
        !text.is_empty()
    }

    fn replace(&mut self, start: usize, end: usize, replacement: &str) -> bool {
        let s = start.min(self.chars.len());
        let e = end.min(self.chars.len()).max(s);
        self.chars.splice(s..e, replacement.chars());
        self.cursor = s + replacement.chars().count();
        true
    }

    fn delete(&mut self, before: usize, after: usize) -> bool {
        let c = self.cursor;
        let del_before = before.min(c);
        let del_after = after.min(self.chars.len().saturating_sub(c));
        let start = c - del_before;
        let end = c + del_after;
        self.chars.drain(start..end);
        self.cursor = start;
        del_before + del_after > 0
    }
}

// ─── UTF-16 offsets ────────────────────────────────────────────────

#[test]
fn utf16_offset_bmp_chars_match() {
    assert_eq!(utf16_offset_to_char_index("hello", 3), 3);
    assert_eq!(utf16_offset_to_char_index("привет", 4), 4);
}

#[test]
fn utf16_offset_zero_always_zero() {
    assert_eq!(utf16_offset_to_char_index("🎉🎉", 0), 0);
    assert_eq!(utf16_offset_to_char_index("", 0), 0);
}

#[test]
fn utf16_offset_beyond_text_maps_to_len() {
    assert_eq!(utf16_offset_to_char_index("hi", 100), 2);
    assert_eq!(utf16_offset_to_char_index("", 5), 0);
}

#[test]
fn utf16_offset_emoji_reduces_char_index() {
    assert_eq!(utf16_offset_to_char_index("a🎉b", 4), 3);
    assert_eq!(utf16_offset_to_char_index("a🎉b", 1), 1);
}

// ─── Input service ─────────────────────────────────────────────────

fn svc() -> DefaultImeService {
    DefaultImeService::default()
}

fn composing(s: &mut DefaultImeService, text: &str) -> Vec<ImeEvent> {
    s.apply(ImeCommand::Ime(ImeCmd::Composing(text.into())))
}

fn commit(s: &mut DefaultImeService, text: &str) -> Vec<ImeEvent> {
    s.apply(ImeCommand::Ime(ImeCmd::Commit(text.into())))
}

#[test]
fn service_init_is_empty() {
    let s = svc();
    assert_eq!(s.state().cursor, 0);
    assert_eq!(s.state().composition_range, None);
    assert_eq!(s.state().batch_depth, 0);
}

#[test]
fn gboard_single_char_mode_keeps_symbol() {
    let mut s = svc();
    let ev = composing(&mut s, "п");
    assert_eq!(ev, vec![ImeEvent::Insert("п".into())]);
    assert_eq!(s.state().cursor, 1);
    let ev = composing(&mut s, "");
    assert_eq!(ev, vec![], "завершение не должно дублировать текст");
    assert_eq!(s.state().cursor, 1);
    assert_eq!(s.state().composition_range, None);
}

#[test]
fn gboard_growing_composition_replaces() {
    let mut s = svc();
    let ev = composing(&mut s, "п");
    assert_eq!(ev, vec![ImeEvent::Insert("п".into())]);
    let ev = composing(&mut s, "пр");
    assert_eq!(
        ev,
        vec![ImeEvent::Replace {
            start: 0,
            end: 1,
            replacement: "пр".into()
        }]
    );
    let ev = composing(&mut s, "при");
    assert_eq!(
        ev,
        vec![ImeEvent::Replace {
            start: 0,
            end: 2,
            replacement: "при".into()
        }]
    );
    assert_eq!(s.state().cursor, 3);
}

#[test]
fn gboard_recomposition_through_region_replaces() {
    let mut s = svc();
    let ev = s.apply(ImeCommand::Ime(ImeCmd::Region { start: 0, end: 1 }));
    assert_eq!(
        ev,
        vec![],
        "Region не вставляет текст, только помечает диапазон для замены"
    );
    assert_eq!(s.state().composition_range, Some(0..1));
    let ev = composing(&mut s, "пр");
    assert_eq!(
        ev,
        vec![ImeEvent::Replace {
            start: 0,
            end: 1,
            replacement: "пр".into()
        }]
    );
    assert_eq!(s.state().cursor, 2);
    assert_eq!(s.state().composition_range, Some(0..2));
}

#[test]
fn commit_emits_insert_and_clears() {
    let mut s = svc();
    let ev = s.apply(ImeCommand::Ime(ImeCmd::Commit("привет".into())));
    assert_eq!(ev, vec![ImeEvent::Insert("привет".into())]);
    assert_eq!(s.state().cursor, 6);
}

#[test]
fn delete_resets_and_emits() {
    let mut s = svc();
    composing(&mut s, "абв");
    let ev = s.apply(ImeCommand::Ime(ImeCmd::DeleteSurrounding {
        before: 1,
        after: 0,
    }));
    assert_eq!(
        ev,
        vec![ImeEvent::Delete {
            before: 1,
            after: 0
        }]
    );
    assert_eq!(s.state().composition_range, None);
}

#[test]
fn batch_groups_events() {
    let mut s = svc();
    s.apply(ImeCommand::Ime(ImeCmd::Batch(true)));
    let evs = composing(&mut s, "а");
    assert_eq!(evs, vec![], "операции буферизуются внутри batch");
    let evs = s.apply(ImeCommand::Ime(ImeCmd::Batch(false)));
    assert_eq!(evs.len(), 1);
    assert!(matches!(evs[0], ImeEvent::Insert(ref t) if t == "а"));
}

#[test]
fn move_cursor_updates_state() {
    let mut s = svc();
    let ev = s.apply(ImeCommand::Ui(UiCmd::MoveCursor(5)));
    assert_eq!(ev, vec![ImeEvent::Cursor(5)]);
    assert_eq!(s.state().cursor, 5);
}

#[test]
fn insert_mid_word_preserves_prefix_via_sync_and_move() {
    let mut s = svc();
    let mut buf = ModelTextBuffer::default();
    buf.chars = "привет".chars().collect();
    buf.cursor = 0;

    s.apply(ImeCommand::Ui(UiCmd::SyncText("привет".into())));
    for ev in s.apply(ImeCommand::Ui(UiCmd::MoveCursor(3))) {
        buf.apply(&ev);
    }

    for ev in s.apply(ImeCommand::Ime(ImeCmd::Composing("X".into()))) {
        buf.apply(&ev);
    }

    assert_eq!(
        buf.text(),
        "приXвет",
        "ввод в середину должен сохранить префикс: {:?}",
        buf.text()
    );
}

#[test]
fn batch_delete_inside_must_not_erase_previous_events() {
    let mut s = svc();
    s.apply(ImeCommand::Ime(ImeCmd::Batch(true)));
    let inner = composing(&mut s, "п");
    assert_eq!(inner, vec![], "внутри batch операции буферизуются");
    let inner = composing(&mut s, "пр");
    assert_eq!(inner, vec![]);
    let inner = composing(&mut s, "при");
    assert_eq!(inner, vec![]);

    s.apply(ImeCommand::Ime(ImeCmd::DeleteSurrounding {
        before: 1,
        after: 0,
    }));

    let evs = s.apply(ImeCommand::Ime(ImeCmd::Batch(false)));

    let text_ops: usize = evs
        .iter()
        .filter(|e| matches!(e, ImeEvent::Insert(_) | ImeEvent::Replace { .. }))
        .count();
    assert!(
        text_ops >= 3,
        "Из batch выгружено всего {} текстовых операций (ожидали >=3); reset_composition стёр накопленное — буквы пропадают: {:?}",
        text_ops,
        evs
    );
}

#[test]
fn batch_commit_replaces_preedit_and_keeps_events() {
    let mut s = svc();
    s.apply(ImeCommand::Ime(ImeCmd::Batch(true)));
    composing(&mut s, "п");
    composing(&mut s, "пр");
    s.apply(ImeCommand::Ime(ImeCmd::Commit("и".into())));
    let evs = s.apply(ImeCommand::Ime(ImeCmd::Batch(false)));

    assert_eq!(
        s.state().text_snapshot,
        "и",
        "Commit должен заменить preedit на снапшоте: ушло {:?} (события {:?})",
        s.state().text_snapshot,
        evs
    );
    assert!(
        !s.state().text_snapshot.is_empty(),
        "Commit не должен терять подтверждённый текст: {:?}",
        evs
    );
}

#[test]
fn commit_replaces_active_preedit_on_snapshot() {
    let mut s = svc();
    composing(&mut s, "п");
    composing(&mut s, "пр");
    assert_eq!(s.state().text_snapshot, "пр");
    let evs = s.apply(ImeCommand::Ime(ImeCmd::Commit("и".into())));
    assert!(
        !evs.is_empty(),
        "Commit должен вернуть операцию замены preedit"
    );
    assert_eq!(
        s.state().text_snapshot,
        "и",
        "commitText заменяет preedit: снапшот должен стать «и», а стал {:?}",
        s.state().text_snapshot
    );
    assert_eq!(s.state().cursor, 1);
    assert_eq!(
        s.state().composition_range,
        None,
        "после commit нет живой композиции"
    );
}

#[test]
fn translate_legacy_maps_commands() {
    assert_eq!(
        translate_legacy(&LegacyCmd::Composing("пр".into())),
        Some(ImeCommand::Ime(ImeCmd::Composing("пр".into()))),
    );
    assert_eq!(
        translate_legacy(&LegacyCmd::ComposingRange {
            text: "пр".into(),
            start_char: 0,
            end_char: 2,
        }),
        Some(ImeCommand::Ime(ImeCmd::Region { start: 0, end: 2 })),
    );
    assert_eq!(
        translate_legacy(&LegacyCmd::BeginBatchEdit),
        Some(ImeCommand::Ime(ImeCmd::Batch(true)))
    );
    assert_eq!(
        translate_legacy(&LegacyCmd::EndBatchEdit),
        Some(ImeCommand::Ime(ImeCmd::Batch(false)))
    );
    assert_eq!(
        translate_legacy(&LegacyCmd::Done),
        Some(ImeCommand::Ime(ImeCmd::Done))
    );
    assert_eq!(
        translate_legacy(&LegacyCmd::SetSelection { start: 1, end: 2 }),
        None
    );
}

fn run_with_buffer(
    s: &mut DefaultImeService,
    buf: &mut ModelTextBuffer,
    cmd: ImeCommand,
) {
    for ev in s.apply(cmd) {
        buf.apply(&ev);
    }
}

#[test]
fn invariant_snapshot_matches_buffer() {
    let mut s = svc();
    let mut b = ModelTextBuffer::default();

    let seq = [
        ImeCommand::Ime(ImeCmd::Composing("п".into())),
        ImeCommand::Ime(ImeCmd::Composing(String::new())),
        ImeCommand::Ime(ImeCmd::Composing("р".into())),
        ImeCommand::Ime(ImeCmd::Composing(String::new())),
        ImeCommand::Ime(ImeCmd::Composing("рив".into())),
        ImeCommand::Ime(ImeCmd::Composing("риве".into())),
    ];
    for cmd in seq {
        run_with_buffer(&mut s, &mut b, cmd);
    }
    assert_eq!(
        s.state().text_snapshot,
        b.text(),
        "снапшот сервиса == буфер"
    );
    assert!(
        !b.text().contains("пп") && !b.text().contains("прпр"),
        "нет дубля: {:?}",
        b.text()
    );
}

#[test]
fn growing_does_not_duplicate_on_buffer() {
    let mut s = svc();
    let mut b = ModelTextBuffer::default();
    run_with_buffer(
        &mut s,
        &mut b,
        ImeCommand::Ime(ImeCmd::Composing("п".into())),
    );
    run_with_buffer(
        &mut s,
        &mut b,
        ImeCommand::Ime(ImeCmd::Composing("пр".into())),
    );
    run_with_buffer(
        &mut s,
        &mut b,
        ImeCommand::Ime(ImeCmd::Composing("при".into())),
    );
    assert_eq!(b.text(), "при", "наращивание не должно дублировать буквы");
    assert_eq!(b.cursor, 3);
    assert_eq!(s.state().text_snapshot, b.text());
}

#[test]
fn gboard_word_privet_assembles_fully_on_buffer() {
    let mut s = svc();
    let mut b = ModelTextBuffer::default();

    run_with_buffer(
        &mut s,
        &mut b,
        ImeCommand::Ime(ImeCmd::Composing("п".into())),
    );
    run_with_buffer(
        &mut s,
        &mut b,
        ImeCommand::Ime(ImeCmd::Region { start: 0, end: 1 }),
    );
    run_with_buffer(
        &mut s,
        &mut b,
        ImeCommand::Ime(ImeCmd::Composing("пр".into())),
    );
    run_with_buffer(
        &mut s,
        &mut b,
        ImeCommand::Ime(ImeCmd::Composing("при".into())),
    );
    run_with_buffer(
        &mut s,
        &mut b,
        ImeCommand::Ime(ImeCmd::Composing("прив".into())),
    );
    run_with_buffer(
        &mut s,
        &mut b,
        ImeCommand::Ime(ImeCmd::Composing("приве".into())),
    );
    run_with_buffer(
        &mut s,
        &mut b,
        ImeCommand::Ime(ImeCmd::Composing("привет".into())),
    );

    assert_eq!(
        b.text(),
        "привет",
        "слово должно собраться полностью, без дубля и потери: {:?}",
        b.text()
    );
    assert!(
        !b.text().contains("ппр") && !b.text().contains("приприв"),
        "нет дубля префикса: {:?}",
        b.text()
    );
    assert_eq!(b.cursor, 6);
    assert_eq!(s.state().text_snapshot, b.text(), "снапшот == буфер");
}

#[test]
fn real_loop_word_assembles_after_preedit_release() {
    let mut s = svc();
    let mut b = ModelTextBuffer::default();

    for cmd in [
        ImeCommand::Ime(ImeCmd::Composing("в".into())),
        ImeCommand::Ime(ImeCmd::Composing("ве".into())),
        ImeCommand::Ime(ImeCmd::Composing(String::new())),
    ] {
        run_with_buffer(&mut s, &mut b, cmd.clone());
        assert_eq!(s.state().text_snapshot, b.text(), "cmd {:?}", cmd);
    }
    assert_eq!(b.text(), "ве");

    run_with_buffer(&mut s, &mut b, ImeCommand::Ime(ImeCmd::Commit("т".into())));
    assert_eq!(
        b.text(),
        "вет",
        "после снятия preedit Commit должен вставить, а не затереть: {:?}",
        b.text()
    );
    assert_eq!(s.state().text_snapshot, b.text());
    assert_eq!(b.cursor, 3);

    run_with_buffer(&mut s, &mut b, ImeCommand::Ime(ImeCmd::Commit("!".into())));
    assert_eq!(
        b.text(),
        "вет!",
        "не потерялся следующий вывод: {:?}",
        b.text()
    );
    assert_eq!(s.state().text_snapshot, b.text());
}

#[test]
fn gboard_privet_log_repro_catches_lost_tail() {

    let mut s = svc();
    let mut b = ModelTextBuffer::default();

    fn drive(
        s: &mut DefaultImeService,
        b: &mut ModelTextBuffer,
        cmd: &LegacyCmd,
    ) {
        if let Some(svc) = translate_legacy(cmd) {
            let evs = s.apply(svc);
            for ev in &evs {
                b.apply(ev);
            }
        }
    }

    drive(&mut s, &mut b, &LegacyCmd::Composing("п".into()));
    drive(
        &mut s,
        &mut b,
        &LegacyCmd::ComposingRange {
            text: "п".into(),
            start_char: 0,
            end_char: 1,
        },
    );
    drive(&mut s, &mut b, &LegacyCmd::Composing("пр".into()));
    drive(&mut s, &mut b, &LegacyCmd::Composing("при".into()));
    drive(&mut s, &mut b, &LegacyCmd::SetSelection { start: 3, end: 3 });
    drive(&mut s, &mut b, &LegacyCmd::Composing(String::new()));
    drive(&mut s, &mut b, &LegacyCmd::Composing("в".into()));
    drive(&mut s, &mut b, &LegacyCmd::Composing("ве".into()));
    drive(&mut s, &mut b, &LegacyCmd::Composing("вет".into()));

    assert_eq!(
        b.text(),
        "привет",
        "СБОЙ ВОСПРОИЗВЕДЕНИЯ: ожидаем «привет», получено {:?} — потерян хвост/дубль",
        b.text()
    );
    assert!(
        !b.text().contains("ппр") && !b.text().contains("ппри"),
        "дубль первой буквы: {:?}",
        b.text()
    );
    assert_eq!(s.state().text_snapshot, b.text(), "снапшот == буфер");
}

#[test]
fn composing_after_reset_inserts_new_word_not_replace() {
    let mut s = svc();
    let mut b = ModelTextBuffer::default();

    run_with_buffer(
        &mut s,
        &mut b,
        ImeCommand::Ime(ImeCmd::Composing("при".into())),
    );
    run_with_buffer(
        &mut s,
        &mut b,
        ImeCommand::Ime(ImeCmd::Composing(String::new())),
    );
    assert_eq!(b.text(), "при");

    run_with_buffer(
        &mut s,
        &mut b,
        ImeCommand::Ime(ImeCmd::Composing("вет".into())),
    );
    assert_eq!(
        b.text(),
        "привет",
        "новый preedit после сброса = Insert (новое слово): {:?}",
        b.text()
    );
    assert_eq!(b.cursor, 6);
    assert_eq!(s.state().text_snapshot, b.text());
}

#[test]
fn single_char_not_lost_on_buffer() {
    let mut s = svc();
    let mut b = ModelTextBuffer::default();
    run_with_buffer(
        &mut s,
        &mut b,
        ImeCommand::Ime(ImeCmd::Composing("а".into())),
    );
    run_with_buffer(
        &mut s,
        &mut b,
        ImeCommand::Ime(ImeCmd::Composing(String::new())),
    );
    run_with_buffer(
        &mut s,
        &mut b,
        ImeCommand::Ime(ImeCmd::Composing("б".into())),
    );
    run_with_buffer(
        &mut s,
        &mut b,
        ImeCommand::Ime(ImeCmd::Composing(String::new())),
    );
    assert_eq!(b.text(), "аб", "посимвольный ввод ничего не теряет");
    assert_eq!(b.cursor, 2);
}

#[test]
fn delete_keeps_buffer_consistent() {
    let mut s = svc();
    let mut b = ModelTextBuffer::default();
    run_with_buffer(
        &mut s,
        &mut b,
        ImeCommand::Ime(ImeCmd::Composing("абвг".into())),
    );
    assert_eq!(b.text(), "абвг");
    run_with_buffer(
        &mut s,
        &mut b,
        ImeCommand::Ime(ImeCmd::DeleteSurrounding {
            before: 2,
            after: 0,
        }),
    );
    assert_eq!(b.text(), "аб", "удаление применяется к буферу");
    assert_eq!(s.state().text_snapshot, b.text());
}

#[test]
fn batch_defers_application() {
    let mut s = svc();
    let mut b = ModelTextBuffer::default();
    run_with_buffer(&mut s, &mut b, ImeCommand::Ime(ImeCmd::Batch(true)));
    let ops_inside = s.apply(ImeCommand::Ime(ImeCmd::Composing("х".into())));
    assert!(ops_inside.is_empty(), "внутри batch операции буферизуются");
    for ev in s.apply(ImeCommand::Ime(ImeCmd::Batch(false))) {
        b.apply(&ev);
    }
    assert_eq!(b.text(), "х");
}


#[test]
fn synctext_inside_live_preedit_does_not_break_growth() {
    let mut s = svc();
    let mut b = ModelTextBuffer::default();

    run_with_buffer(
        &mut s,
        &mut b,
        ImeCommand::Ime(ImeCmd::Composing("п".into())),
    );
    s.apply(ImeCommand::Ui(UiCmd::SyncText(String::new())));
    run_with_buffer(
        &mut s,
        &mut b,
        ImeCommand::Ime(ImeCmd::Composing("пр".into())),
    );
    run_with_buffer(
        &mut s,
        &mut b,
        ImeCommand::Ime(ImeCmd::Composing("при".into())),
    );

    assert_eq!(
        b.text(),
        "при",
        "SyncText с отставшим текстом не должен испортить нарастающий preedit: {:?}",
        b.text()
    );
    assert!(s.state().text_snapshot == b.text(), "снапшот==буфер");
}

#[test]
fn snapshot_invariant_while_typing_word() {
    let mut s = svc();
    let mut b = ModelTextBuffer::default();

    let seq = [
        ImeCommand::Ime(ImeCmd::Composing("п".into())),
        ImeCommand::Ime(ImeCmd::Composing("пр".into())),
        ImeCommand::Ime(ImeCmd::Composing("при".into())),
        ImeCommand::Ime(ImeCmd::Composing("прив".into())),
        ImeCommand::Ime(ImeCmd::Composing("приве".into())),
        ImeCommand::Ime(ImeCmd::Composing("привет".into())),
        ImeCommand::Ime(ImeCmd::Composing(String::new())),
        ImeCommand::Ime(ImeCmd::Batch(true)),
        ImeCommand::Ime(ImeCmd::Commit(" ".into())),
        ImeCommand::Ime(ImeCmd::Batch(false)),
    ];
    for cmd in seq {
        run_with_buffer(&mut s, &mut b, cmd.clone());
        if s.state().batch_depth == 0 {
            assert_eq!(
                s.state().text_snapshot,
                b.text(),
                "инвариант нарушен после: {:?}",
                cmd
            );
        }
    }
    assert_eq!(
        b.text(),
        "привет ",
        "слово должно собраться целиком: {:?}",
        b.text()
    );
    assert_eq!(
        s.state().text_snapshot,
        b.text(),
        "снапшот==буфер после batch"
    );
}

#[test]
fn region_out_of_bounds_clamps_safely() {
    let mut s = svc();
    let mut b = ModelTextBuffer::default();

    run_with_buffer(
        &mut s,
        &mut b,
        ImeCommand::Ime(ImeCmd::Composing("аб".into())),
    );
    run_with_buffer(
        &mut s,
        &mut b,
        ImeCommand::Ime(ImeCmd::Region { start: 0, end: 5 }),
    );
    run_with_buffer(
        &mut s,
        &mut b,
        ImeCommand::Ime(ImeCmd::Composing("абв".into())),
    );
    assert_eq!(
        b.text(),
        "абв",
        "Region за границы не должен ломать наращивание: {:?}",
        b.text()
    );
    assert_eq!(s.state().text_snapshot, b.text());
}

#[test]
fn repeated_empty_preedit_does_not_leave_ghost_region() {
    let mut s = svc();
    run_with_buffer(
        &mut s,
        &mut ModelTextBuffer::default(),
        ImeCommand::Ui(UiCmd::SyncText(String::new())),
    );
    commit(&mut s, "аб");

    composing(&mut s, "");
    composing(&mut s, "");
    assert_eq!(s.state().composition_range, None);
}

#[test]
fn poll_timeout_ime_cmds_forces_zero() {
    assert_eq!(
        poll_timeout(false, std::time::Duration::from_secs(5), true),
        Some(std::time::Duration::ZERO)
    );
}

#[test]
fn poll_timeout_no_ime_returns_repaint_delay() {
    assert_eq!(
        poll_timeout(false, std::time::Duration::from_millis(16), false),
        Some(std::time::Duration::from_millis(16))
    );
}

#[test]
fn poll_timeout_repaint_zero_forces_zero() {
    assert_eq!(
        poll_timeout(false, std::time::Duration::ZERO, false),
        Some(std::time::Duration::ZERO)
    );
}

#[test]
fn poll_timeout_large_delay_capped() {
    assert_eq!(
        poll_timeout(false, std::time::Duration::from_secs(4000), false),
        Some(std::time::Duration::from_millis(100))
    );
}

#[test]
fn poll_timeout_ime_overrides_large_delay() {
    assert_eq!(
        poll_timeout(false, std::time::Duration::from_secs(9999), true),
        Some(std::time::Duration::ZERO)
    );
}

#[test]
fn poll_timeout_no_graphics_capped() {
    assert_eq!(
        poll_timeout(true, std::time::Duration::ZERO, true),
        Some(std::time::Duration::from_millis(100))
    );
}


// ─── More input-service cases ──────────────────────────────────────

#[test]
fn editor_actions_pass_through() {
    let mut s = svc();
    assert_eq!(
        s.apply(ImeCommand::Ime(ImeCmd::Next)),
        vec![ImeEvent::Action(egui_android::ime_service::ImeActionEvent::Next)]
    );
    assert_eq!(
        s.apply(ImeCommand::Ime(ImeCmd::Done)),
        vec![ImeEvent::Action(egui_android::ime_service::ImeActionEvent::Done)]
    );
}

#[test]
fn focus_and_blur_reset_composition() {
    let mut s = svc();
    composing(&mut s, "аб");
    assert!(s.state().composition_range.is_some());
    assert_eq!(s.apply(ImeCommand::Ui(UiCmd::Blur)), vec![]);
    assert_eq!(s.state().composition_range, None);
    composing(&mut s, "в");
    assert_eq!(s.apply(ImeCommand::Ui(UiCmd::Focus)), vec![]);
    assert_eq!(s.state().composition_range, None);
}

#[test]
fn nested_batches_release_at_the_outermost_end() {
    let mut s = svc();
    s.apply(ImeCommand::Ime(ImeCmd::Batch(true)));
    s.apply(ImeCommand::Ime(ImeCmd::Batch(true)));
    commit(&mut s, "a");
    assert_eq!(s.apply(ImeCommand::Ime(ImeCmd::Batch(false))), vec![]);
    assert_eq!(s.state().batch_depth, 1);
    assert_eq!(
        s.apply(ImeCommand::Ime(ImeCmd::Batch(false))),
        vec![ImeEvent::Insert("a".into())]
    );
    assert_eq!(s.state().batch_depth, 0);
    // An unmatched end is ignored.
    assert_eq!(s.apply(ImeCommand::Ime(ImeCmd::Batch(false))), vec![]);
    assert_eq!(s.state().batch_depth, 0);
}

#[test]
fn translate_legacy_commit_and_delete() {
    assert_eq!(
        translate_legacy(&LegacyCmd::Commit("x".into())),
        Some(ImeCommand::Ime(ImeCmd::Commit("x".into())))
    );
    assert_eq!(
        translate_legacy(&LegacyCmd::DeleteSurrounding { before: 2, after: -1 }),
        Some(ImeCommand::Ime(ImeCmd::DeleteSurrounding { before: 2, after: 0 }))
    );
    assert_eq!(translate_legacy(&LegacyCmd::PrivateCommand("p".into())), None);
    assert_eq!(translate_legacy(&LegacyCmd::Next), Some(ImeCommand::Ime(ImeCmd::Next)));
}

#[test]
fn utf16_substr_cuts_by_code_units() {
    assert_eq!(utf16_substr("hello", 1, 3), "el");
    assert_eq!(utf16_substr("a🎉b", 1, 3), "🎉");
    assert_eq!(utf16_substr("a🎉b", 1, 2), "\u{FFFD}");
    assert_eq!(utf16_substr("abc", 5, 9), "");
    assert_eq!(utf16_substr("abc", 2, 1), "");
}

#[test]
fn editor_reads_around_the_cursor() {
    assert_eq!(text_before_cursor("hello world", 5, 3), "llo");
    assert_eq!(text_before_cursor("hello", 2, 10), "he");
    assert_eq!(text_after_cursor("hello world", 5, 3), " wo");
    assert_eq!(text_after_cursor("hello", 3, 100), "lo");
    assert_eq!(selected_text("hello", 1, 4), "ell");
    assert_eq!(cursor_caps_mode("anything", 0), 7);
    assert_eq!(cursor_caps_mode("Hi. ", 3), 5);
    assert_eq!(cursor_caps_mode("Hi there", 3), 2);
    assert_eq!(cursor_caps_mode("Hi there", 2), 0);
    assert_eq!(cursor_caps_mode("Wow!", 4), 5);
}

#[test]
fn bridge_commands_from_the_input_connection() {
    assert!(commit_command(String::new()).is_none());
    assert!(matches!(commit_command("ok".into()), Some(BridgeCmd::Commit(t)) if t == "ok"));
    match composing_region_command("привет", 0, 3) {
        BridgeCmd::ComposingRange { text, start, end } => {
            assert_eq!(text, "при");
            assert_eq!((start, end), (0, 3));
        }
        other => panic!("unexpected {:?}", other),
    }
}
