//! Input-method commands as the platform bridge delivers them, and the
//! UTF-16 position helpers they need.
//!
//! Android reports text positions in UTF-16 code units; the text field works
//! in chars (Unicode scalar values). A char outside the Basic Multilingual
//! Plane takes two code units (a surrogate pair), every other char one.

use vstd::prelude::*;
use vstd::string::*;
use crate::ime_service::{ImeCommand, ImeCmd as ServiceCmd};
use crate::text::push_char;

verus! {

/// An input-method command from the Kotlin `InputConnection`, as queued by
/// the bridge.
#[derive(Debug, Clone, PartialEq)]
pub enum ImeCmd {
    /// `commitText(text)`: final text.
    Commit(String),
    /// `setComposingText(text)`: intermediate preedit.
    Composing(String),
    /// `performEditorAction(Next)`.
    Next,
    /// `performEditorAction(Done/Search/Go)`.
    Done,
    /// `deleteSurroundingText(before, after)`.
    DeleteSurrounding { before: i32, after: i32 },
    /// `setComposingText` over a range; positions already in char indices.
    ComposingRange { text: String, start_char: usize, end_char: usize },
    /// `setSelection(start, end)`, in UTF-16 units.
    SetSelection { start: i32, end: i32 },
    /// `beginBatchEdit()`.
    BeginBatchEdit,
    /// `endBatchEdit()`.
    EndBatchEdit,
    /// `performPrivateCommand(action)`.
    PrivateCommand(String),
}

/// Number of UTF-16 code units of a char.
pub open spec fn utf16_width(c: char) -> nat {
    if (c as u32) >= 0x10000 { 2 } else { 1 }
}

/// Number of UTF-16 code units of the first `k` chars of `s`.
pub open spec fn utf16_units(s: Seq<char>, k: int) -> nat
    decreases k,
{
    if k <= 0 {
        0
    } else {
        utf16_units(s, k - 1) + utf16_width(s[k - 1])
    }
}

proof fn lemma_utf16_units_bounds(s: Seq<char>, k: int)
    requires
        0 <= k,
    ensures
        k <= utf16_units(s, k) <= 2 * k,
    decreases k,
{
    if k > 0 {
        lemma_utf16_units_bounds(s, k - 1);
    }
}

/// UTF-16 width of a char.
fn char_utf16_width(c: char) -> (w: usize)
    ensures
        w == utf16_width(c),
{
    if (c as u32) >= 0x10000 { 2 } else { 1 }
}

/// Convert a UTF-16 offset into a char index: the number of chars that start
/// before `utf16_offset`. Offsets past the text map to its length.
pub fn utf16_offset_to_char_index(text: &str, utf16_offset: usize) -> (r: usize)
    ensures
        r <= text@.len(),
        forall|k: int| 0 <= k < r ==> utf16_units(text@, k) < utf16_offset,
        r < text@.len() ==> utf16_units(text@, r as int) >= utf16_offset,
{
    let n = text.unicode_len();
    let mut i: usize = 0;
    let mut pos: u128 = 0;
    while i < n
        invariant
            n == text@.len(),
            i <= n,
            pos == utf16_units(text@, i as int),
            forall|k: int| 0 <= k < i ==> utf16_units(text@, k) < utf16_offset,
        decreases n - i,
    {
        proof {
            lemma_utf16_units_bounds(text@, i as int);
        }
        if pos >= utf16_offset as u128 {
            return i;
        }
        let w = char_utf16_width(text.get_char(i));
        pos = pos + w as u128;
        i = i + 1;
    }
    i
}

/// The chars that decoding the UTF-16 code units `start..end` of the first
/// `k` chars of `s` gives, lossily: a char whose units all lie in the range
/// comes out whole, a surrogate pair cut by the range comes out as one
/// U+FFFD, a char outside the range not at all.
pub open spec fn utf16_slice(s: Seq<char>, k: int, start: int, end: int) -> Seq<char>
    decreases k,
{
    if k <= 0 {
        Seq::empty()
    } else {
        let prev = utf16_slice(s, k - 1, start, end);
        let p = utf16_units(s, k - 1) as int;
        let w = utf16_width(s[k - 1]) as int;
        let lo = if p >= start { p } else { start };
        let hi = if p + w <= end { p + w } else { end };
        if hi - lo >= w {
            prev.push(s[k - 1])
        } else if hi - lo > 0 {
            prev.push('\u{FFFD}')
        } else {
            prev
        }
    }
}


/// The text of the UTF-16 code units `start..end` of `text`, the range
/// clamped to the text (an end before the start gives nothing); a surrogate
/// pair cut by the range becomes U+FFFD.
pub open spec fn utf16_substring(text: Seq<char>, start: int, end: int) -> Seq<char> {
    let total = utf16_units(text, text.len() as int) as int;
    let s = if start <= total { start } else { total };
    let e0 = if end <= total { end } else { total };
    let e = if e0 >= s { e0 } else { s };
    utf16_slice(text, text.len() as int, s, e)
}

/// The text of the UTF-16 code units `start..end` of `text`, clamped to the
/// text; a surrogate pair cut by the range becomes U+FFFD.
pub fn utf16_substr(text: &str, start: usize, end: usize) -> (r: String)
    ensures
        r@ == utf16_substring(text@, start as int, end as int),
{
    let n = text.unicode_len();
    // Total number of code units.
    let mut total: u128 = 0;
    let mut i: usize = 0;
    while i < n
        invariant
            n == text@.len(),
            i <= n,
            total == utf16_units(text@, i as int),
        decreases n - i,
    {
        proof {
            lemma_utf16_units_bounds(text@, i as int);
        }
        total = total + char_utf16_width(text.get_char(i)) as u128;
        i = i + 1;
    }
    let s: u128 = if (start as u128) <= total { start as u128 } else { total };
    let e0: u128 = if (end as u128) <= total { end as u128 } else { total };
    let e: u128 = if e0 >= s { e0 } else { s };
    let mut out = String::new();
    let mut pos: u128 = 0;
    i = 0;
    while i < n
        invariant
            n == text@.len(),
            i <= n,
            pos == utf16_units(text@, i as int),
            out@ == utf16_slice(text@, i as int, s as int, e as int),
        decreases n - i,
    {
        proof {
            lemma_utf16_units_bounds(text@, i as int);
        }
        let c = text.get_char(i);
        let w = char_utf16_width(c) as u128;
        let lo = if pos >= s { pos } else { s };
        let hi = if pos + w <= e { pos + w } else { e };
        if hi > lo {
            if hi - lo >= w {
                push_char(&mut out, c);
            } else {
                push_char(&mut out, '\u{FFFD}');
            }
        }
        pos = pos + w;
        i = i + 1;
    }
    out
}

/// Translate a bridge command into a service command. Selection changes and
/// private commands do not touch the composition and give `None`; negative
/// delete counts become zero.
pub fn translate_legacy(cmd: &ImeCmd) -> (r: Option<ImeCommand>)
    ensures
        r == match cmd {
            ImeCmd::Commit(t) => Some(ImeCommand::Ime(ServiceCmd::Commit(*t))),
            ImeCmd::Composing(t) => Some(ImeCommand::Ime(ServiceCmd::Composing(*t))),
            ImeCmd::ComposingRange { start_char, end_char, .. } => Some(
                ImeCommand::Ime(ServiceCmd::Region { start: *start_char, end: *end_char }),
            ),
            ImeCmd::DeleteSurrounding { before, after } => Some(
                ImeCommand::Ime(ServiceCmd::DeleteSurrounding {
                    before: if *before > 0 { *before as usize } else { 0 },
                    after: if *after > 0 { *after as usize } else { 0 },
                }),
            ),
            ImeCmd::BeginBatchEdit => Some(ImeCommand::Ime(ServiceCmd::Batch(true))),
            ImeCmd::EndBatchEdit => Some(ImeCommand::Ime(ServiceCmd::Batch(false))),
            ImeCmd::Next => Some(ImeCommand::Ime(ServiceCmd::Next)),
            ImeCmd::Done => Some(ImeCommand::Ime(ServiceCmd::Done)),
            ImeCmd::SetSelection { .. } | ImeCmd::PrivateCommand(_) => None,
        },
{
    let inner = match cmd {
        ImeCmd::Commit(text) => ServiceCmd::Commit(text.clone()),
        ImeCmd::Composing(text) => ServiceCmd::Composing(text.clone()),
        ImeCmd::ComposingRange { start_char, end_char, .. } => ServiceCmd::Region {
            start: *start_char,
            end: *end_char,
        },
        ImeCmd::DeleteSurrounding { before, after } => ServiceCmd::DeleteSurrounding {
            before: if *before > 0 { *before as usize } else { 0 },
            after: if *after > 0 { *after as usize } else { 0 },
        },
        ImeCmd::BeginBatchEdit => ServiceCmd::Batch(true),
        ImeCmd::EndBatchEdit => ServiceCmd::Batch(false),
        ImeCmd::Next => ServiceCmd::Next,
        ImeCmd::Done => ServiceCmd::Done,
        ImeCmd::SetSelection { .. } | ImeCmd::PrivateCommand(_) => {
            return None;
        },
    };
    Some(ImeCommand::Ime(inner))
}

} // verus!
