//! Input service: the single owner of the composition state.
//!
//! Commands from the input method (Android `InputConnection`: commit,
//! composing text, composing region, surrounding delete, batch edits) and from
//! the UI (focus, blur, text sync, cursor moves) are reduced into elementary
//! buffer operations (`Insert`, `Replace`, `Delete`, `Cursor`, `Action`) that
//! the UI applies to its text field.
//!
//! The service keeps a snapshot of the field text in step with the operations
//! it emits, so that the char indices of every `Replace` point into the text
//! the field really holds. Operations produced inside a batch edit are held
//! back and released, in order, when the outermost batch ends.

use vstd::prelude::*;
use crate::text::{clamp_end, clamp_start, min_int, splice_chars, splice_string, char_count};

verus! {

/// A command for the input service, from the input method or from the UI.
#[derive(Debug, Clone, PartialEq)]
pub enum ImeCommand {
    /// From the Android `InputConnection` (Gboard and others).
    Ime(ImeCmd),
    /// From the UI (focus, text synchronisation, cursor).
    Ui(UiCmd),
}

/// A command from the `InputConnection`, positions in char indices.
#[derive(Debug, Clone, PartialEq)]
pub enum ImeCmd {
    /// `commitText(text)`: confirm the composition (or insert when none is live).
    Commit(String),
    /// `setComposingText(text)`: intermediate preedit; empty ends the composition.
    Composing(String),
    /// `setComposingRegion(start, end)`: mark `start..end` as the composition,
    /// which the next preedit replaces.
    Region { start: usize, end: usize },
    /// `deleteSurroundingText(before, after)`: delete around the cursor.
    DeleteSurrounding { before: usize, after: usize },
    /// `beginBatchEdit()` (`true`) / `endBatchEdit()` (`false`).
    Batch(bool),
    /// `performEditorAction`: go to the next field.
    Next,
    /// `performEditorAction`: finish editing.
    Done,
}

/// A command from the UI.
#[derive(Debug, Clone, PartialEq)]
pub enum UiCmd {
    /// The field gained focus (the composition is dropped).
    Focus,
    /// The field lost focus (the composition is dropped).
    Blur,
    /// The UI publishes the current text of the field.
    SyncText(String),
    /// Move the cursor to a char index.
    MoveCursor(usize),
}

/// An elementary operation on the text field.
#[derive(Debug, Clone, PartialEq)]
pub enum ImeEvent {
    /// Insert `text` at the cursor.
    Insert(String),
    /// Replace the char range `start..end` with `replacement`.
    Replace { start: usize, end: usize, replacement: String },
    /// Delete `before` chars before the cursor and `after` chars after it.
    Delete { before: usize, after: usize },
    /// Move the cursor to char index `index`.
    Cursor(usize),
    /// A control action (not text) for the main loop.
    Action(ImeActionEvent),
}

/// A control action for the main loop.
#[derive(Debug, Clone, Copy, PartialEq, Eq)]
pub enum ImeActionEvent {
    /// Move the focus to the next field.
    Next,
    /// Finish editing, hide the keyboard.
    Done,
}

/// The composition state of the service.
#[derive(Debug, Clone, PartialEq)]
pub struct ImeServiceState {
    /// The live composition region (char indices). `None`: no live composition,
    /// the next preedit is inserted rather than replacing.
    pub composition_range: Option<std::ops::Range<usize>>,
    /// Cursor position (char index).
    pub cursor: usize,
    /// Depth of nested batch edits.
    pub batch_depth: u32,
    /// The field text as the service knows it.
    pub text_snapshot: String,
}

/// Mathematical view of an [`ImeEvent`].
pub enum ImeEventView {
    Insert(Seq<char>),
    Replace { start: usize, end: usize, replacement: Seq<char> },
    Delete { before: usize, after: usize },
    Cursor(usize),
    Action(ImeActionEvent),
}

impl View for ImeEvent {
    type V = ImeEventView;

    open spec fn view(&self) -> ImeEventView {
        match self {
            ImeEvent::Insert(t) => ImeEventView::Insert(t@),
            ImeEvent::Replace { start, end, replacement } => ImeEventView::Replace {
                start: *start,
                end: *end,
                replacement: replacement@,
            },
            ImeEvent::Delete { before, after } => ImeEventView::Delete { before: *before, after: *after },
            ImeEvent::Cursor(i) => ImeEventView::Cursor(*i),
            ImeEvent::Action(a) => ImeEventView::Action(*a),
        }
    }
}

/// The views of a sequence of events.
pub open spec fn events_view(v: Seq<ImeEvent>) -> Seq<ImeEventView> {
    v.map_values(|e: ImeEvent| e@)
}

/// Mathematical view of an [`ImeServiceState`].
pub struct ImeStateView {
    /// Composition region as `(start, end)`.
    pub range: Option<(usize, usize)>,
    pub cursor: usize,
    pub depth: u32,
    pub text: Seq<char>,
}

impl View for ImeServiceState {
    type V = ImeStateView;

    open spec fn view(&self) -> ImeStateView {
        ImeStateView {
            range: match self.composition_range {
                Some(r) => Some((r.start, r.end)),
                None => None,
            },
            cursor: self.cursor,
            depth: self.batch_depth,
            text: self.text_snapshot@,
        }
    }
}

/// Mathematical view of the whole service: its state and the operations held
/// back by the open batch edit.
pub struct ImeServiceView {
    pub state: ImeStateView,
    pub pending: Seq<ImeEventView>,
}

/// `a + b`, saturated at `usize::MAX`.
pub open spec fn sat_add(a: usize, b: nat) -> usize {
    if a + b <= usize::MAX { (a + b) as usize } else { usize::MAX }
}

/// Route an operation: held back inside a batch, emitted otherwise.
/// Returns the new pending operations and the emitted ones.
pub open spec fn route(
    depth: u32,
    pending: Seq<ImeEventView>,
    ev: ImeEventView,
) -> (Seq<ImeEventView>, Seq<ImeEventView>) {
    if depth > 0 {
        (pending.push(ev), Seq::empty())
    } else {
        (pending, seq![ev])
    }
}

/// The service after replacing the char range `start..end` of the snapshot
/// with `t`: cursor after the new text, composition as given, operation routed.
pub open spec fn replace_step(
    m: ImeServiceView,
    start: usize,
    end: usize,
    t: Seq<char>,
    range: Option<(usize, usize)>,
    ev: ImeEventView,
) -> (ImeServiceView, Seq<ImeEventView>) {
    let routed = route(m.state.depth, m.pending, ev);
    (
        ImeServiceView {
            state: ImeStateView {
                range,
                cursor: sat_add(start, t.len()),
                depth: m.state.depth,
                text: splice_chars(m.state.text, start as int, end as int, t),
            },
            pending: routed.0,
        },
        routed.1,
    )
}

/// `commitText`: replaces the live composition, or inserts at the cursor when
/// there is none; the composition ends.
pub open spec fn commit_step(m: ImeServiceView, t: Seq<char>) -> (ImeServiceView, Seq<ImeEventView>) {
    match m.state.range {
        Some((a, b)) => replace_step(
            m,
            a,
            b,
            t,
            None,
            ImeEventView::Replace { start: a, end: b, replacement: t },
        ),
        None => {
            let c = m.state.cursor;
            replace_step(m, c, c, t, None, ImeEventView::Insert(t))
        },
    }
}

/// `setComposingText`: an empty preedit ends the composition; otherwise the
/// preedit replaces a non-empty live region, or is inserted at the cursor,
/// and becomes the new composition.
pub open spec fn composing_step(m: ImeServiceView, t: Seq<char>) -> (ImeServiceView, Seq<ImeEventView>) {
    if t.len() == 0 {
        (ImeServiceView { state: ImeStateView { range: None, ..m.state }, pending: m.pending }, Seq::empty())
    } else {
        match m.state.range {
            Some((a, b)) if a < b => replace_step(
                m,
                a,
                b,
                t,
                Some((a, sat_add(a, t.len()))),
                ImeEventView::Replace { start: a, end: b, replacement: t },
            ),
            _ => {
                let c = m.state.cursor;
                replace_step(m, c, c, t, Some((c, sat_add(c, t.len()))), ImeEventView::Insert(t))
            },
        }
    }
}

/// `setComposingRegion`: the cursor goes to `end`, clamped to the snapshot;
/// the region start is clamped to the cursor; the region end is kept (it may
/// point past text the UI has not published yet).
pub open spec fn region_step(m: ImeServiceView, start: usize, end: usize) -> ImeServiceView {
    let len = m.state.text.len();
    let cursor = if end <= len { end } else { len as usize };
    let s = if start <= cursor { start } else { cursor };
    let e = if end >= s { end } else { s };
    ImeServiceView {
        state: ImeStateView { range: Some((s, e)), cursor, ..m.state },
        pending: m.pending,
    }
}

/// `deleteSurroundingText`: the composition ends; up to `before` chars before
/// and `after` chars after the cursor are removed; the cursor goes to the
/// start of the removed range.
pub open spec fn delete_step(m: ImeServiceView, before: usize, after: usize) -> (ImeServiceView, Seq<ImeEventView>) {
    let c = m.state.cursor as int;
    let len = m.state.text.len() as int;
    let db = min_int(before as int, c);
    let da = min_int(after as int, len - c);
    let routed = route(m.state.depth, m.pending, ImeEventView::Delete { before, after });
    (
        ImeServiceView {
            state: ImeStateView {
                range: None,
                cursor: (c - db) as usize,
                depth: m.state.depth,
                text: m.state.text.subrange(0, c - db) + m.state.text.subrange(c + da, len),
            },
            pending: routed.0,
        },
        routed.1,
    )
}

/// End of a batch edit: the depth drops by one (never below zero); when it
/// reaches zero the held-back operations are emitted, in order.
pub open spec fn batch_end_step(m: ImeServiceView) -> (ImeServiceView, Seq<ImeEventView>) {
    let depth: u32 = if m.state.depth > 0 { (m.state.depth - 1) as u32 } else { 0 };
    if depth == 0 {
        (ImeServiceView { state: ImeStateView { depth, ..m.state }, pending: Seq::empty() }, m.pending)
    } else {
        (ImeServiceView { state: ImeStateView { depth, ..m.state }, pending: m.pending }, Seq::empty())
    }
}

/// The reduction of one command: the new service and the emitted operations.
pub open spec fn ime_step(m: ImeServiceView, cmd: ImeCommand) -> (ImeServiceView, Seq<ImeEventView>) {
    match cmd {
        ImeCommand::Ime(c) => match c {
            ImeCmd::Commit(t) => commit_step(m, t@),
            ImeCmd::Composing(t) => composing_step(m, t@),
            ImeCmd::Region { start, end } => (region_step(m, start, end), Seq::empty()),
            ImeCmd::DeleteSurrounding { before, after } => delete_step(m, before, after),
            ImeCmd::Batch(begin) => if begin {
                (
                    ImeServiceView {
                        state: ImeStateView { depth: (m.state.depth + 1) as u32, ..m.state },
                        pending: Seq::empty(),
                    },
                    Seq::empty(),
                )
            } else {
                batch_end_step(m)
            },
            ImeCmd::Next => (m, seq![ImeEventView::Action(ImeActionEvent::Next)]),
            ImeCmd::Done => (m, seq![ImeEventView::Action(ImeActionEvent::Done)]),
        },
        ImeCommand::Ui(c) => match c {
            UiCmd::Focus | UiCmd::Blur => (
                ImeServiceView {
                    state: ImeStateView { range: None, depth: 0, ..m.state },
                    pending: m.pending,
                },
                Seq::empty(),
            ),
            UiCmd::SyncText(t) => (
                ImeServiceView { state: ImeStateView { text: t@, ..m.state }, pending: m.pending },
                Seq::empty(),
            ),
            UiCmd::MoveCursor(i) => {
                let routed = route(m.state.depth, m.pending, ImeEventView::Cursor(i));
                (
                    ImeServiceView {
                        state: ImeStateView { range: None, cursor: i, ..m.state },
                        pending: routed.0,
                    },
                    routed.1,
                )
            },
        },
    }
}

/// Commands the reducer can take in state `m`: opening a batch needs room for
/// one more level, and a surrounding delete needs the cursor inside the text.
pub open spec fn ime_step_allowed(m: ImeServiceView, cmd: ImeCommand) -> bool {
    match cmd {
        ImeCommand::Ime(ImeCmd::Batch(true)) => m.state.depth < u32::MAX,
        ImeCommand::Ime(ImeCmd::DeleteSurrounding { .. }) => m.state.cursor <= m.state.text.len(),
        _ => true,
    }
}

/// An input service: commands in, buffer operations out.
pub trait ImeService {
    /// Whether `apply` may be called with `command` in the current state.
    spec fn accepts(&self, command: ImeCommand) -> bool;

    /// Apply a command and return the buffer operations for the UI.
    fn apply(&mut self, command: ImeCommand) -> Vec<ImeEvent>
        requires
            old(self).accepts(command),
    ;

    /// The current composition state.
    fn state(&self) -> &ImeServiceState;
}

/// The reducer of commands into buffer operations.
#[derive(Debug)]
pub struct DefaultImeService {
    state: ImeServiceState,
    /// Operations produced inside a batch, released when it ends.
    batch_events: Vec<ImeEvent>,
}

impl View for DefaultImeService {
    type V = ImeServiceView;

    closed spec fn view(&self) -> ImeServiceView {
        ImeServiceView { state: self.state@, pending: events_view(self.batch_events@) }
    }
}

impl Default for DefaultImeService {
    fn default() -> (s: Self)
        ensures
            s@.state.range is None,
            s@.state.cursor == 0,
            s@.state.depth == 0,
            s@.state.text.len() == 0,
            s@.pending.len() == 0,
    {
        let s = DefaultImeService {
            state: ImeServiceState {
                composition_range: None,
                cursor: 0,
                batch_depth: 0,
                text_snapshot: String::new(),
            },
            batch_events: Vec::new(),
        };
        proof {
            assert(s@.pending =~= Seq::<ImeEventView>::empty());
        }
        s
    }
}

impl DefaultImeService {
    /// Route an operation: into the batch when one is open, into `events` otherwise.
    fn push(&mut self, events: &mut Vec<ImeEvent>, ev: ImeEvent)
        ensures
            final(self).state == old(self).state,
            (events_view(final(self).batch_events@), events_view(final(events)@))
                == ({
                let r = route(old(self).state.batch_depth, events_view(old(self).batch_events@), ev@);
                (r.0, events_view(old(events)@) + r.1)
            }),
    {
        if self.state.batch_depth > 0 {
            self.batch_events.push(ev);
            proof {
                assert(events_view(self.batch_events@) =~= events_view(old(self).batch_events@).push(ev@));
            }
        } else {
            events.push(ev);
            proof {
                assert(events_view(events@) =~= events_view(old(events)@) + seq![ev@]);
            }
        }
    }
}


/// How a preedit is applied: inserted at the cursor, or replacing the live region.
enum ComposeMode {
    /// A new composition: insert the text.
    Insert,
    /// Growth or recomposition: replace `start..end`.
    Replace { start: usize, end: usize },
}

impl DefaultImeService {
    /// Decide how to apply a new preedit: replace a non-empty live region,
    /// insert otherwise.
    fn compose_mode(&self) -> (mode: ComposeMode)
        ensures
            match mode {
                ComposeMode::Replace { start, end } => self.state@.range == Some((start, end)) && start < end,
                ComposeMode::Insert => match self.state@.range {
                    Some((a, b)) => a >= b,
                    None => true,
                },
            },
    {
        match &self.state.composition_range {
            Some(range) => {
                if range.start < range.end {
                    ComposeMode::Replace { start: range.start, end: range.end }
                } else {
                    ComposeMode::Insert
                }
            },
            None => ComposeMode::Insert,
        }
    }

    /// Replace the clamped char range `start..end` of the snapshot with `replacement`.
    fn replace_snapshot(&mut self, start: usize, end: usize, replacement: &str)
        ensures
            final(self).state.text_snapshot@ == splice_chars(
                old(self).state.text_snapshot@,
                start as int,
                end as int,
                replacement@,
            ),
            final(self).state.composition_range == old(self).state.composition_range,
            final(self).state.cursor == old(self).state.cursor,
            final(self).state.batch_depth == old(self).state.batch_depth,
            final(self).batch_events == old(self).batch_events,
    {
        let t = splice_string(self.state.text_snapshot.as_str(), start, end, replacement);
        self.state.text_snapshot = t;
    }

    /// Apply a preedit as an insertion or a replacement; an empty preedit only
    /// ends the composition.
    fn apply_composing(&mut self, text: &str, events: &mut Vec<ImeEvent>)
        ensures
            ({
                let r = composing_step(old(self)@, text@);
                &&& final(self)@ == r.0
                &&& events_view(final(events)@) == events_view(old(events)@) + r.1
            }),
    {
        let ghost m = self@;
        if text.unicode_len() == 0 {
            self.state.composition_range = None;
            proof {
                assert(events_view(events@) =~= events_view(old(events)@) + Seq::<ImeEventView>::empty());
            }
            return;
        }
        let mode = self.compose_mode();
        let new_len = char_count(text);
        match mode {
            ComposeMode::Insert => {
                let start = self.state.cursor;
                let end = start.saturating_add(new_len);
                self.state.cursor = end;
                self.state.composition_range = Some(start..end);
                self.replace_snapshot(start, start, text);
                self.push(events, ImeEvent::Insert(text.to_owned()));
            },
            ComposeMode::Replace { start, end } => {
                let new_end = start.saturating_add(new_len);
                self.state.cursor = new_end;
                self.state.composition_range = Some(start..new_end);
                self.replace_snapshot(start, end, text);
                self.push(events, ImeEvent::Replace { start, end, replacement: text.to_owned() });
            },
        }
        proof {
            let r = composing_step(m, text@);
            assert(self@.state == r.0.state);
            assert(self@.pending =~= r.0.pending);
            assert(events_view(events@) =~= events_view(old(events)@) + r.1);
        }
    }

    /// Drop the composition. The operations held by an open batch are kept.
    fn reset_composition(&mut self)
        ensures
            final(self).state.composition_range is None,
            final(self).state.cursor == old(self).state.cursor,
            final(self).state.batch_depth == old(self).state.batch_depth,
            final(self).state.text_snapshot == old(self).state.text_snapshot,
            final(self).batch_events == old(self).batch_events,
    {
        self.state.composition_range = None;
    }

    /// Insert `replacement` at the cursor (a commit without live preedit).
    fn insert_at_cursor(&mut self, events: &mut Vec<ImeEvent>, replacement: &str)
        ensures
            ({
                let c = old(self)@.state.cursor;
                let r = replace_step(old(self)@, c, c, replacement@, old(self)@.state.range, ImeEventView::Insert(replacement@));
                &&& final(self)@ == r.0
                &&& events_view(final(events)@) == events_view(old(events)@) + r.1
            }),
    {
        let ghost m = self@;
        let start = self.state.cursor;
        let end = start.saturating_add(char_count(replacement));
        self.state.cursor = end;
        self.replace_snapshot(start, start, replacement);
        self.push(events, ImeEvent::Insert(replacement.to_owned()));
        proof {
            let r = replace_step(m, start, start, replacement@, m.state.range, ImeEventView::Insert(replacement@));
            assert(self@.state == r.0.state);
            assert(self@.pending =~= r.0.pending);
        }
    }
}


impl ImeService for DefaultImeService {
    open spec fn accepts(&self, command: ImeCommand) -> bool {
        ime_step_allowed(self@, command)
    }

    /// Apply a command: the new service and the returned operations are those
    /// of [`ime_step`].
    fn apply(&mut self, command: ImeCommand) -> (out: Vec<ImeEvent>)
        ensures
            final(self)@ == ime_step(old(self)@, command).0,
            events_view(out@) == ime_step(old(self)@, command).1,
    {
        let ghost m = self@;
        let mut out: Vec<ImeEvent> = Vec::new();
        proof {
            assert(events_view(out@) =~= Seq::<ImeEventView>::empty());
        }
        match command {
            ImeCommand::Ime(cmd) => match cmd {
                ImeCmd::Commit(text) => {
                    let live = match &self.state.composition_range {
                        Some(r) => Some((r.start, r.end)),
                        None => None,
                    };
                    self.state.composition_range = None;
                    match live {
                        Some((start, end)) => {
                            let new_end = start.saturating_add(char_count(text.as_str()));
                            self.state.cursor = new_end;
                            self.replace_snapshot(start, end, text.as_str());
                            self.push(&mut out, ImeEvent::Replace { start, end, replacement: text });
                        },
                        None => {
                            self.insert_at_cursor(&mut out, text.as_str());
                        },
                    }
                    proof {
                        let r = ime_step(m, command);
                        assert(self@.state == r.0.state);
                        assert(self@.pending =~= r.0.pending);
                        assert(events_view(out@) =~= r.1);
                    }
                },
                ImeCmd::Composing(text) => {
                    self.apply_composing(text.as_str(), &mut out);
                    proof {
                        assert(events_view(out@) =~= ime_step(m, command).1);
                    }
                },
                ImeCmd::Region { start, end } => {
                    let len = char_count(self.state.text_snapshot.as_str());
                    let cursor = if end <= len { end } else { len };
                    let start = if start <= cursor { start } else { cursor };
                    let end = if end >= start { end } else { start };
                    self.state.composition_range = Some(start..end);
                    self.state.cursor = cursor;
                    proof {
                        let r = ime_step(m, command);
                        assert(self@.state == r.0.state);
                        assert(self@.pending =~= r.0.pending);
                        assert(events_view(out@) =~= r.1);
                    }
                },
                ImeCmd::DeleteSurrounding { before, after } => {
                    self.reset_composition();
                    let c = self.state.cursor;
                    let len = char_count(self.state.text_snapshot.as_str());
                    let del_before = if before <= c { before } else { c };
                    let room = len - c;
                    let del_after = if after <= room { after } else { room };
                    let s = c - del_before;
                    let e = c + del_after;
                    let mut t = self.state.text_snapshot.as_str().substring_char(0, s).to_owned();
                    t.append(self.state.text_snapshot.as_str().substring_char(e, len));
                    self.state.text_snapshot = t;
                    self.state.cursor = s;
                    self.push(&mut out, ImeEvent::Delete { before, after });
                    proof {
                        let r = ime_step(m, command);
                        assert(self@.state == r.0.state);
                        assert(self@.pending =~= r.0.pending);
                        assert(events_view(out@) =~= r.1);
                    }
                },
                ImeCmd::Batch(begin) => {
                    if begin {
                        self.state.batch_depth = self.state.batch_depth + 1;
                        self.batch_events.clear();
                    } else {
                        self.state.batch_depth = self.state.batch_depth.saturating_sub(1);
                        if self.state.batch_depth == 0 {
                            out.append(&mut self.batch_events);
                        }
                    }
                    proof {
                        let r = ime_step(m, command);
                        assert(self@.state == r.0.state);
                        assert(self@.pending =~= r.0.pending);
                        assert(events_view(out@) =~= r.1);
                    }
                },
                ImeCmd::Next => {
                    out.push(ImeEvent::Action(ImeActionEvent::Next));
                    proof {
                        assert(events_view(out@) =~= ime_step(m, command).1);
                    }
                },
                ImeCmd::Done => {
                    out.push(ImeEvent::Action(ImeActionEvent::Done));
                    proof {
                        assert(events_view(out@) =~= ime_step(m, command).1);
                    }
                },
            },
            ImeCommand::Ui(cmd) => match cmd {
                UiCmd::Focus | UiCmd::Blur => {
                    self.reset_composition();
                    self.state.batch_depth = 0;
                    proof {
                        let r = ime_step(m, command);
                        assert(self@.state == r.0.state);
                    }
                },
                UiCmd::SyncText(text) => {
                    self.state.text_snapshot = text;
                    proof {
                        let r = ime_step(m, command);
                        assert(self@.state == r.0.state);
                    }
                },
                UiCmd::MoveCursor(idx) => {
                    self.state.cursor = idx;
                    self.state.composition_range = None;
                    self.push(&mut out, ImeEvent::Cursor(idx));
                    proof {
                        let r = ime_step(m, command);
                        assert(self@.state == r.0.state);
                        assert(self@.pending =~= r.0.pending);
                        assert(events_view(out@) =~= r.1);
                    }
                },
            },
        }
        out
    }

    /// The current composition state.
    fn state(&self) -> (r: &ImeServiceState)
        ensures
            r@ == self@.state,
    {
        &self.state
    }
}


/// A text field as the operations see it: its chars and its cursor.
pub struct FieldView {
    pub text: Seq<char>,
    pub cursor: int,
}

/// What an operation does to a text field. Positions are clamped to the text:
/// `Insert` goes in at the cursor, `Replace` swaps the clamped range and puts
/// the cursor after the replacement, `Delete` removes what exists around the
/// cursor, `Cursor` moves it (at most to the end), `Action` leaves the field.
pub open spec fn field_apply(f: FieldView, ev: ImeEventView) -> FieldView {
    let len = f.text.len() as int;
    match ev {
        ImeEventView::Insert(t) => {
            let pos = min_int(f.cursor, len);
            FieldView { text: splice_chars(f.text, pos, pos, t), cursor: pos + t.len() }
        },
        ImeEventView::Replace { start, end, replacement } => FieldView {
            text: splice_chars(f.text, start as int, end as int, replacement),
            cursor: clamp_start(start as int, len) + replacement.len(),
        },
        ImeEventView::Delete { before, after } => {
            let c = f.cursor;
            let db = min_int(before as int, c);
            let da = min_int(after as int, if len >= c { len - c } else { 0 });
            FieldView {
                text: f.text.subrange(0, c - db) + f.text.subrange(c + da, len),
                cursor: c - db,
            }
        },
        ImeEventView::Cursor(i) => FieldView { text: f.text, cursor: min_int(i as int, len) },
        ImeEventView::Action(_) => f,
    }
}

/// A field after a sequence of operations, applied in order.
pub open spec fn field_apply_all(f: FieldView, evs: Seq<ImeEventView>) -> FieldView
    decreases evs.len(),
{
    if evs.len() == 0 {
        f
    } else {
        field_apply(field_apply_all(f, evs.drop_last()), evs.last())
    }
}

/// The field the service believes in: its snapshot and its cursor.
pub open spec fn field_of(m: ImeServiceView) -> FieldView {
    FieldView { text: m.state.text, cursor: m.state.cursor as int }
}

/// Well-formed service: the cursor and the start of the composition lie
/// within the snapshot, the composition is ordered, and nothing is held back
/// outside a batch.
pub open spec fn ime_wf(m: ImeServiceView) -> bool {
    &&& m.state.cursor <= m.state.text.len()
    &&& match m.state.range {
        Some((a, b)) => a <= b && a <= m.state.text.len(),
        None => true,
    }
    &&& (m.state.depth == 0 ==> m.pending.len() == 0)
}

/// The composition, if any, ends within the snapshot.
pub open spec fn composition_within(m: ImeServiceView) -> bool {
    match m.state.range {
        Some((a, b)) => b <= m.state.text.len(),
        None => true,
    }
}

/// Commands after which the snapshot still matches the field that applies the
/// emitted operations: all but a text sync, a cursor move past the text, a
/// composing region that moves the cursor, opening a batch while operations
/// are held back, and a focus change while operations are held back. Inserted
/// text must leave the snapshot length within `usize`.
pub open spec fn ime_tracked_command(m: ImeServiceView, cmd: ImeCommand) -> bool {
    let len = m.state.text.len();
    match cmd {
        ImeCommand::Ime(ImeCmd::Commit(t)) => len + t@.len() <= usize::MAX,
        ImeCommand::Ime(ImeCmd::Composing(t)) => len + t@.len() <= usize::MAX,
        ImeCommand::Ime(ImeCmd::Region { start, end }) => min_int(end as int, len as int) == m.state.cursor,
        ImeCommand::Ime(ImeCmd::Batch(true)) => m.pending.len() == 0,
        ImeCommand::Ui(UiCmd::SyncText(_)) => false,
        ImeCommand::Ui(UiCmd::MoveCursor(i)) => i <= len,
        ImeCommand::Ui(UiCmd::Focus) => m.pending.len() == 0,
        ImeCommand::Ui(UiCmd::Blur) => m.pending.len() == 0,
        _ => true,
    }
}

proof fn lemma_field_apply_all_push(f: FieldView, evs: Seq<ImeEventView>, ev: ImeEventView)
    ensures
        field_apply_all(f, evs.push(ev)) == field_apply(field_apply_all(f, evs), ev),
{
    assert(evs.push(ev).drop_last() =~= evs);
}

proof fn lemma_field_apply_all_one(f: FieldView, ev: ImeEventView)
    ensures
        field_apply_all(f, seq![ev]) == field_apply(f, ev),
{
    assert(seq![ev].drop_last() =~= Seq::<ImeEventView>::empty());
    assert(field_apply_all(f, Seq::<ImeEventView>::empty()) == f);
}

proof fn lemma_field_apply_all_concat(f: FieldView, a: Seq<ImeEventView>, b: Seq<ImeEventView>)
    ensures
        field_apply_all(f, a + b) == field_apply_all(field_apply_all(f, a), b),
    decreases b.len(),
{
    if b.len() == 0 {
        assert(a + b =~= a);
    } else {
        lemma_field_apply_all_concat(f, a, b.drop_last());
        assert((a + b).drop_last() =~= a + b.drop_last());
        assert((a + b).last() == b.last());
    }
}

/// Law: the snapshot tracks the field. When a well-formed service agrees with
/// a field once its held-back operations are applied, it still agrees after
/// any tracked command: the field that applies the emitted operations and then
/// the operations still held back holds exactly the new snapshot and cursor;
/// the service stays well-formed; and a composition that ended within the
/// snapshot still does, unless the command sets a region that ends past it.
pub proof fn lemma_snapshot_tracks_field(m: ImeServiceView, f: FieldView, cmd: ImeCommand)
    requires
        ime_wf(m),
        field_apply_all(f, m.pending) == field_of(m),
        ime_step_allowed(m, cmd),
        ime_tracked_command(m, cmd),
    ensures
        ime_wf(ime_step(m, cmd).0),
        composition_within(m) && !(cmd matches ImeCommand::Ime(ImeCmd::Region { end, .. })
            && end > m.state.text.len()) ==> composition_within(ime_step(m, cmd).0),
        field_apply_all(field_apply_all(f, ime_step(m, cmd).1), ime_step(m, cmd).0.pending)
            == field_of(ime_step(m, cmd).0),
{
    let r = ime_step(m, cmd);
    let len = m.state.text.len() as int;
    let cur = field_of(m);
    // Whatever single operation the command routes, the field after it is the
    // current field with that operation applied.
    assert forall|ev: ImeEventView| #![auto]
        field_apply_all(field_apply_all(f, route(m.state.depth, m.pending, ev).1), route(m.state.depth, m.pending, ev).0)
            == field_apply(cur, ev) by {
        let rt = route(m.state.depth, m.pending, ev);
        if m.state.depth > 0 {
            assert(rt.1 =~= Seq::<ImeEventView>::empty());
            lemma_field_apply_all_push(f, m.pending, ev);
        } else {
            assert(m.pending.len() == 0);
            assert(m.pending =~= Seq::<ImeEventView>::empty());
            lemma_field_apply_all_one(f, ev);
            assert(rt.0 =~= Seq::<ImeEventView>::empty());
        }
    }
    match cmd {
        ImeCommand::Ime(c) => match c {
            ImeCmd::Commit(t) => {
                match m.state.range {
                    Some((a, b)) => {
                        let ev = ImeEventView::Replace { start: a, end: b, replacement: t@ };
                        assert(field_apply(cur, ev) == field_of(r.0));
                    },
                    None => {
                        let ev = ImeEventView::Insert(t@);
                        assert(field_apply(cur, ev) == field_of(r.0));
                    },
                }
            },
            ImeCmd::Composing(t) => {
                if t@.len() == 0 {
                    assert(r.1 =~= Seq::<ImeEventView>::empty());
                } else {
                    match m.state.range {
                        Some((a, b)) => {
                            if a < b {
                                let ev = ImeEventView::Replace { start: a, end: b, replacement: t@ };
                                assert(field_apply(cur, ev) == field_of(r.0));
                            } else {
                                let ev = ImeEventView::Insert(t@);
                                assert(field_apply(cur, ev) == field_of(r.0));
                            }
                        },
                        None => {
                            let ev = ImeEventView::Insert(t@);
                            assert(field_apply(cur, ev) == field_of(r.0));
                        },
                    }
                }
            },
            ImeCmd::Region { start, end } => {
                assert(r.1 =~= Seq::<ImeEventView>::empty());
            },
            ImeCmd::DeleteSurrounding { before, after } => {
                let ev = ImeEventView::Delete { before, after };
                assert(field_apply(cur, ev) == field_of(r.0));
            },
            ImeCmd::Batch(begin) => {
                if begin {
                    assert(r.1 =~= Seq::<ImeEventView>::empty());
                    assert(m.pending =~= Seq::<ImeEventView>::empty());
                } else {
                    if m.state.depth <= 1 {
                        lemma_field_apply_all_concat(f, r.1, Seq::<ImeEventView>::empty());
                        assert(r.1 + Seq::<ImeEventView>::empty() =~= r.1);
                    } else {
                        assert(r.1 =~= Seq::<ImeEventView>::empty());
                    }
                }
            },
            ImeCmd::Next | ImeCmd::Done => {
                lemma_field_apply_all_concat(f, r.1, m.pending);
                lemma_field_apply_all_concat(f, Seq::<ImeEventView>::empty(), m.pending);
                assert(Seq::<ImeEventView>::empty() + m.pending =~= m.pending);
                lemma_field_apply_all_one(f, r.1[0]);
                assert(r.1 =~= seq![r.1[0]]);
                assert(field_apply(f, r.1[0]) == f);
                assert(r.1 + m.pending =~= seq![r.1[0]] + m.pending);
            },
        },
        ImeCommand::Ui(c) => match c {
            UiCmd::Focus | UiCmd::Blur => {
                assert(r.1 =~= Seq::<ImeEventView>::empty());
            },
            UiCmd::SyncText(_) => {},
            UiCmd::MoveCursor(i) => {
                let ev = ImeEventView::Cursor(i);
                assert(field_apply(cur, ev) == field_of(r.0));
            },
        },
    }
}


/// The service with nothing held back.
pub open spec fn nothing_held(m: ImeServiceView) -> ImeServiceView {
    ImeServiceView { state: m.state, pending: Seq::empty() }
}

proof fn lemma_step_ignores_held(m: ImeServiceView, cmd: ImeCommand)
    requires
        m.state.depth == 0,
        !(cmd matches ImeCommand::Ime(ImeCmd::Batch(false))),
    ensures
        ime_step(m, cmd).0.state == ime_step(nothing_held(m), cmd).0.state,
        ime_step(m, cmd).1 == ime_step(nothing_held(m), cmd).1,
        ime_step(nothing_held(m), cmd).0.state.depth == 0 ==> ime_step(nothing_held(m), cmd).0.pending.len() == 0,
{
}

/// Law: outside a batch, direct commands keep the snapshot in step with the
/// field, whatever is still held back. At batch depth 0, when the field holds
/// exactly the snapshot and cursor, applying the operations that a tracked
/// command (other than closing a batch) emits leaves the field holding
/// exactly the new snapshot and cursor; the cursor and the composition stay
/// within the snapshot as before.
pub proof fn lemma_direct_commands_track_field(m: ImeServiceView, f: FieldView, cmd: ImeCommand)
    requires
        m.state.depth == 0,
        ime_wf(nothing_held(m)),
        f == field_of(m),
        ime_step_allowed(m, cmd),
        ime_tracked_command(nothing_held(m), cmd),
        !(cmd matches ImeCommand::Ime(ImeCmd::Batch(false))),
    ensures
        field_apply_all(f, ime_step(m, cmd).1) == field_of(ime_step(m, cmd).0),
        ime_wf(nothing_held(ime_step(m, cmd).0)),
        composition_within(m) && !(cmd matches ImeCommand::Ime(ImeCmd::Region { end, .. })
            && end > m.state.text.len()) ==> composition_within(ime_step(m, cmd).0),
{
    let m0 = nothing_held(m);
    lemma_step_ignores_held(m, cmd);
    assert(field_apply_all(f, m0.pending) == f);
    lemma_snapshot_tracks_field(m0, f, cmd);
    let r0 = ime_step(m0, cmd);
    let r = ime_step(m, cmd);
    if r0.0.state.depth == 0 {
        assert(r0.0.pending =~= Seq::<ImeEventView>::empty());
    } else {
        // Only opening a batch leaves depth 0, and it emits nothing.
        assert(cmd matches ImeCommand::Ime(ImeCmd::Batch(true)));
        assert(r0.1 =~= Seq::<ImeEventView>::empty());
    }
    assert(field_of(r.0) == field_of(r0.0));
    assert(nothing_held(r.0) == nothing_held(r0.0));
}

/// Law: a text sync publishes the field's text. Afterwards the snapshot is
/// exactly the synced text; nothing is emitted; the cursor, the composition,
/// the batch depth and the held operations are as before. So a composing
/// region set next is clamped to the synced text: its cursor is `end` when
/// `end` lies within that text, and the text's length otherwise.
pub proof fn lemma_sync_text_sets_snapshot(m: ImeServiceView, t: String, start: usize, end: usize)
    ensures
        ime_step(m, ImeCommand::Ui(UiCmd::SyncText(t))).0.state.text == t@,
        ime_step(m, ImeCommand::Ui(UiCmd::SyncText(t))).1.len() == 0,
        ime_step(m, ImeCommand::Ui(UiCmd::SyncText(t))).0.state.cursor == m.state.cursor,
        ime_step(m, ImeCommand::Ui(UiCmd::SyncText(t))).0.state.range == m.state.range,
        ime_step(m, ImeCommand::Ui(UiCmd::SyncText(t))).0.state.depth == m.state.depth,
        ime_step(m, ImeCommand::Ui(UiCmd::SyncText(t))).0.pending == m.pending,
        ({
            let synced = ime_step(m, ImeCommand::Ui(UiCmd::SyncText(t))).0;
            let region = ime_step(synced, ImeCommand::Ime(ImeCmd::Region { start, end })).0;
            &&& end <= t@.len() ==> region.state.cursor == end
            &&& end > t@.len() ==> region.state.cursor == t@.len()
            &&& region.state.text == t@
        }),
{
}

/// Law: a batch holds operations back. While a batch is open, no command
/// emits a text operation; only editor actions (`Next`, `Done`) and the end
/// of the outermost batch emit anything, and that end emits exactly the held
/// operations, in order, leaving nothing held.
pub proof fn lemma_batch_holds_operations(m: ImeServiceView, cmd: ImeCommand)
    requires
        m.state.depth > 0,
    ensures
        match cmd {
            ImeCommand::Ime(ImeCmd::Next) | ImeCommand::Ime(ImeCmd::Done) => ime_step(m, cmd).1.len() == 1,
            ImeCommand::Ime(ImeCmd::Batch(false)) => if m.state.depth == 1 {
                &&& ime_step(m, cmd).1 == m.pending
                &&& ime_step(m, cmd).0.pending.len() == 0
                &&& ime_step(m, cmd).0.state.depth == 0
            } else {
                ime_step(m, cmd).1.len() == 0
            },
            _ => ime_step(m, cmd).1.len() == 0,
        },
{
}

/// Commands that a batch holds back unchanged: everything but batch
/// boundaries, editor actions and focus changes.
pub open spec fn batchable(cmd: ImeCommand) -> bool {
    match cmd {
        ImeCommand::Ime(ImeCmd::Batch(_)) | ImeCommand::Ime(ImeCmd::Next) | ImeCommand::Ime(ImeCmd::Done) => false,
        ImeCommand::Ui(UiCmd::Focus) | ImeCommand::Ui(UiCmd::Blur) => false,
        _ => true,
    }
}

/// `m` at batch depth `d` with held operations `p`.
pub open spec fn at_depth(m: ImeServiceView, d: u32, p: Seq<ImeEventView>) -> ImeServiceView {
    ImeServiceView { state: ImeStateView { depth: d, ..m.state }, pending: p }
}

/// The service and everything emitted after reducing `cmds` in order.
pub open spec fn ime_run(m: ImeServiceView, cmds: Seq<ImeCommand>) -> (ImeServiceView, Seq<ImeEventView>)
    decreases cmds.len(),
{
    if cmds.len() == 0 {
        (m, Seq::empty())
    } else {
        let r = ime_run(m, cmds.drop_last());
        let s = ime_step(r.0, cmds.last());
        (s.0, r.1 + s.1)
    }
}

proof fn lemma_batchable_step(m: ImeServiceView, cmd: ImeCommand, d: u32, p: Seq<ImeEventView>)
    requires
        batchable(cmd),
        m.state.depth == 0,
        d > 0,
    ensures
        ime_step(m, cmd).0.state.depth == 0,
        ime_step(m, cmd).0.pending == m.pending,
        ime_step(at_depth(m, d, p), cmd).0 == at_depth(ime_step(m, cmd).0, d, p + ime_step(m, cmd).1),
        ime_step(at_depth(m, d, p), cmd).1 == Seq::<ImeEventView>::empty(),
{
    let u = ime_step(m, cmd);
    let b = ime_step(at_depth(m, d, p), cmd);
    assert(b.0.pending =~= (p + u.1));
    assert(b.1 =~= Seq::<ImeEventView>::empty());
    assert(u.0.pending =~= m.pending);
}

proof fn lemma_batched_run(m: ImeServiceView, cmds: Seq<ImeCommand>, p: Seq<ImeEventView>)
    requires
        m.state.depth == 0,
        forall|i: int| 0 <= i < cmds.len() ==> batchable(#[trigger] cmds[i]),
    ensures
        ime_run(m, cmds).0.state.depth == 0,
        ime_run(m, cmds).0.pending == m.pending,
        ime_run(at_depth(m, 1, p), cmds).0 == at_depth(ime_run(m, cmds).0, 1, p + ime_run(m, cmds).1),
        ime_run(at_depth(m, 1, p), cmds).1 == Seq::<ImeEventView>::empty(),
    decreases cmds.len(),
{
    if cmds.len() == 0 {
        assert(p + Seq::<ImeEventView>::empty() =~= p);
        assert(at_depth(m, 1, p) == at_depth(ime_run(m, cmds).0, 1, p));
    } else {
        let d = cmds.drop_last();
        assert forall|i: int| 0 <= i < d.len() implies batchable(#[trigger] d[i]) by {
            assert(d[i] == cmds[i]);
        }
        lemma_batched_run(m, d, p);
        let u = ime_run(m, d);
        assert(batchable(cmds[cmds.len() - 1]));
        lemma_batchable_step(u.0, cmds.last(), 1, p + u.1);
        let s = ime_step(u.0, cmds.last());
        assert(p + u.1 + s.1 =~= p + (u.1 + s.1));
        assert(Seq::<ImeEventView>::empty() + Seq::<ImeEventView>::empty() =~= Seq::<ImeEventView>::empty());
    }
}

/// Law: a batch emits exactly what its commands would emit unbatched, in
/// the same order, and leaves the same composition state: opening a batch,
/// reducing commands that a batch holds back, and closing it gives the
/// unbatched state (with nothing held) and the unbatched operations.
pub proof fn lemma_batch_equals_unbatched(m: ImeServiceView, cmds: Seq<ImeCommand>)
    requires
        m.state.depth == 0,
        forall|i: int| 0 <= i < cmds.len() ==> batchable(#[trigger] cmds[i]),
    ensures
        ({
            let batched = ime_run(
                m,
                seq![ImeCommand::Ime(ImeCmd::Batch(true))] + cmds + seq![ImeCommand::Ime(ImeCmd::Batch(false))],
            );
            let plain = ime_run(m, cmds);
            &&& batched.0.state == plain.0.state
            &&& batched.0.pending.len() == 0
            &&& batched.1 == plain.1
        }),
{
    let open = seq![ImeCommand::Ime(ImeCmd::Batch(true))];
    let close = ImeCommand::Ime(ImeCmd::Batch(false));
    let all = open + cmds + seq![close];
    let m1 = ime_step(m, open[0]).0;
    assert(m1.pending =~= Seq::<ImeEventView>::empty());
    assert(m1 == at_depth(m, 1, Seq::empty()));
    lemma_batched_run(m, cmds, Seq::empty());
    lemma_run_after_open(m, cmds);
    assert(all.drop_last() =~= open + cmds);
    assert(all.last() == close);
    let plain = ime_run(m, cmds);
    let body = ime_run(m1, cmds);
    assert(Seq::<ImeEventView>::empty() + plain.1 =~= plain.1);
    assert(body.1 + plain.1 =~= plain.1);
}

proof fn lemma_run_after_open(m: ImeServiceView, c: Seq<ImeCommand>)
    ensures
        ime_run(m, seq![ImeCommand::Ime(ImeCmd::Batch(true))] + c).0
            == ime_run(ime_step(m, ImeCommand::Ime(ImeCmd::Batch(true))).0, c).0,
        ime_run(m, seq![ImeCommand::Ime(ImeCmd::Batch(true))] + c).1
            == ime_run(ime_step(m, ImeCommand::Ime(ImeCmd::Batch(true))).0, c).1,
    decreases c.len(),
{
    let open = seq![ImeCommand::Ime(ImeCmd::Batch(true))];
    if c.len() == 0 {
        assert(open + c =~= open);
        assert(open.drop_last() =~= Seq::<ImeCommand>::empty());
        assert(ime_step(m, ImeCommand::Ime(ImeCmd::Batch(true))).1 =~= Seq::<ImeEventView>::empty());
        assert(ime_run(m, Seq::<ImeCommand>::empty()) == (m, Seq::<ImeEventView>::empty()));
        assert(open.last() == ImeCommand::Ime(ImeCmd::Batch(true)));
        assert(ime_run(m, open).0 == ime_step(m, ImeCommand::Ime(ImeCmd::Batch(true))).0);
        assert(ime_run(m, open).1 =~= Seq::<ImeEventView>::empty());
        let m1 = ime_step(m, ImeCommand::Ime(ImeCmd::Batch(true))).0;
        assert(ime_run(m1, c) == (m1, Seq::<ImeEventView>::empty()));
    } else {
        lemma_run_after_open(m, c.drop_last());
        assert((open + c).drop_last() =~= open + c.drop_last());
        assert((open + c).last() == c.last());
    }
}

/// Law: an empty preedit only ends the composition: nothing is emitted and
/// the snapshot, cursor and held operations stay as they were.
pub proof fn lemma_empty_preedit_ends_composition(m: ImeServiceView, t: String)
    requires
        t@.len() == 0,
    ensures
        ime_step(m, ImeCommand::Ime(ImeCmd::Composing(t))).1.len() == 0,
        ime_step(m, ImeCommand::Ime(ImeCmd::Composing(t))).0.state.range is None,
        ime_step(m, ImeCommand::Ime(ImeCmd::Composing(t))).0.state.text == m.state.text,
        ime_step(m, ImeCommand::Ime(ImeCmd::Composing(t))).0.state.cursor == m.state.cursor,
        ime_step(m, ImeCommand::Ime(ImeCmd::Composing(t))).0.pending == m.pending,
{
}

/// Law: a growing preedit replaces itself. Starting without a live
/// composition, two successive non-empty preedits leave the snapshot with
/// only the second one inserted at the cursor (no duplicated prefix), the
/// cursor after it, and the second preedit as the live composition.
pub proof fn lemma_growing_preedit_replaces(m: ImeServiceView, t1: String, t2: String)
    requires
        ime_wf(m),
        m.state.range is None,
        t1@.len() > 0,
        t2@.len() > 0,
        m.state.text.len() + t1@.len() + t2@.len() <= usize::MAX,
    ensures
        ({
            let m2 = ime_step(ime_step(m, ImeCommand::Ime(ImeCmd::Composing(t1))).0, ImeCommand::Ime(ImeCmd::Composing(t2))).0;
            let c = m.state.cursor as int;
            &&& m2.state.text == splice_chars(m.state.text, c, c, t2@)
            &&& m2.state.cursor == c + t2@.len()
            &&& m2.state.range == Some((m.state.cursor, (c + t2@.len()) as usize))
        }),
{
    let c = m.state.cursor as int;
    let m1 = ime_step(m, ImeCommand::Ime(ImeCmd::Composing(t1))).0;
    let text = m.state.text;
    let t1v = text.subrange(0, c) + t1@ + text.subrange(c, text.len() as int);
    assert(m1.state.text =~= t1v);
    let m2 = ime_step(m1, ImeCommand::Ime(ImeCmd::Composing(t2))).0;
    assert(m2.state.text =~= splice_chars(text, c, c, t2@));
}

/// Law: a commit always ends the composition.
pub proof fn lemma_commit_ends_composition(m: ImeServiceView, t: String)
    ensures
        ime_step(m, ImeCommand::Ime(ImeCmd::Commit(t))).0.state.range is None,
{
}


/// Whole nanoseconds of a `Duration` (what `Duration::as_nanos` returns).
pub uninterp spec fn duration_nanos(d: std::time::Duration) -> nat;

/// `Duration::as_nanos`: the whole nanoseconds of `d`.
#[verifier::external_body]
pub(crate) fn nanos_of(d: &std::time::Duration) -> (n: u128)
    ensures
        n == duration_nanos(*d),
{
    d.as_nanos()
}

/// `Duration::from_millis`: a duration of `ms` milliseconds, that is
/// `ms * 1_000_000` nanoseconds.
#[verifier::external_body]
pub(crate) fn duration_from_millis(ms: u64) -> (d: std::time::Duration)
    ensures
        duration_nanos(d) == ms * 1_000_000,
{
    std::time::Duration::from_millis(ms)
}

/// Longest wait of the event poll, in milliseconds: commands queued by the
/// bridge thread never wait longer than this.
pub const MAX_POLL_TIMEOUT_MS: u64 = 100;

/// The poll timeout in nanoseconds: capped while the graphics are not up;
/// zero when a repaint is due now or input-method commands wait; otherwise
/// the repaint delay, capped.
pub open spec fn poll_timeout_nanos(no_graphics: bool, repaint_delay: nat, has_ime_cmds: bool) -> nat {
    let max = (MAX_POLL_TIMEOUT_MS * 1_000_000) as nat;
    if no_graphics {
        max
    } else if repaint_delay == 0 || has_ime_cmds {
        0
    } else if repaint_delay <= max {
        repaint_delay
    } else {
        max
    }
}

/// The timeout for the event poll; always `Some`, never longer than
/// [`MAX_POLL_TIMEOUT_MS`].
pub fn poll_timeout(
    no_graphics: bool,
    repaint_delay: std::time::Duration,
    has_ime_cmds: bool,
) -> (r: Option<std::time::Duration>)
    ensures
        r is Some,
        duration_nanos(r->0) == poll_timeout_nanos(no_graphics, duration_nanos(repaint_delay), has_ime_cmds),
{
    let delay = nanos_of(&repaint_delay);
    if no_graphics {
        Some(duration_from_millis(MAX_POLL_TIMEOUT_MS))
    } else if delay == 0 || has_ime_cmds {
        Some(duration_from_millis(0))
    } else if delay <= (MAX_POLL_TIMEOUT_MS as u128) * 1_000_000 {
        Some(repaint_delay)
    } else {
        Some(duration_from_millis(MAX_POLL_TIMEOUT_MS))
    }
}

} // verus!
