//! What the platform's input connection reads of the focused text field:
//! text around the cursor, the selection, and the capitalisation mode.
//!
//! Positions are UTF-16 code units, as the platform counts them.

use vstd::prelude::*;
use vstd::string::*;
use crate::event::ImeCmd;
use crate::ime_logic::{utf16_substr, utf16_substring};

verus! {

/// Capitalise the next character.
pub const CAP_MODE_CHARACTERS: i32 = 0x0001;
/// A new word starts.
pub const CAP_MODE_WORDS: i32 = 0x0002;
/// A new sentence starts.
pub const CAP_MODE_SENTENCES: i32 = 0x0004;

/// `a - b`, or 0 when `b > a`.
pub open spec fn sat_sub(a: int, b: int) -> int {
    if a >= b { a - b } else { 0 }
}

/// The `length` code units before the cursor at `selection_start`; a
/// negative `length` wraps as an unsigned size.
pub fn text_before_cursor(text: &str, selection_start: usize, length: i32) -> (r: String)
    ensures
        r@ == utf16_substring(text@, sat_sub(selection_start as int, (length as usize) as int), selection_start as int),
{
    let len = length as usize;
    let from = selection_start.saturating_sub(len);
    utf16_substr(text, from, selection_start)
}

/// The `length` code units after the cursor at `selection_end`; a negative
/// `length` wraps as an unsigned size (and the end saturates).
pub fn text_after_cursor(text: &str, selection_end: usize, length: i32) -> (r: String)
    ensures
        r@ == utf16_substring(
            text@,
            selection_end as int,
            if selection_end + (length as usize) <= usize::MAX { selection_end + (length as usize) } else { usize::MAX as int },
        ),
{
    let len = length as usize;
    utf16_substr(text, selection_end, selection_end.saturating_add(len))
}

/// The selected text.
pub fn selected_text(text: &str, selection_start: usize, selection_end: usize) -> (r: String)
    ensures
        r@ == utf16_substring(text@, selection_start as int, selection_end as int),
{
    utf16_substr(text, selection_start, selection_end)
}

/// The capitalisation mode at a cursor: all three modes at the start of the
/// field; characters and sentences after `.`, `!` or `?`; words after a
/// space; none otherwise.
pub open spec fn caps_mode(text: Seq<char>, selection_start: int) -> i32 {
    if selection_start == 0 {
        CAP_MODE_CHARACTERS | CAP_MODE_WORDS | CAP_MODE_SENTENCES
    } else {
        let before = utf16_substring(text, 0, selection_start);
        if before.len() == 0 {
            0
        } else {
            let c = before.last();
            if c == '.' || c == '!' || c == '?' {
                CAP_MODE_CHARACTERS | CAP_MODE_SENTENCES
            } else if c == ' ' {
                CAP_MODE_WORDS
            } else {
                0
            }
        }
    }
}

/// The capitalisation mode at the cursor `selection_start` of `text`.
pub fn cursor_caps_mode(text: &str, selection_start: usize) -> (r: i32)
    ensures
        r == caps_mode(text@, selection_start as int),
{
    if selection_start == 0 {
        return CAP_MODE_CHARACTERS | CAP_MODE_WORDS | CAP_MODE_SENTENCES;
    }
    let before = utf16_substr(text, 0, selection_start);
    let n = before.as_str().unicode_len();
    if n == 0 {
        return 0;
    }
    let c = before.as_str().get_char(n - 1);
    if c == '.' || c == '!' || c == '?' {
        CAP_MODE_CHARACTERS | CAP_MODE_SENTENCES
    } else if c == ' ' {
        CAP_MODE_WORDS
    } else {
        0
    }
}

/// Whether `c` ends a sentence: `.`, `!` or `?`.
pub open spec fn ends_sentence(c: char) -> bool {
    c == '.' || c == '!' || c == '?'
}

/// Law: a sentence starts, so the caps mode asks for capital characters and
/// a new sentence (and nothing else but, at the very start, a new word),
/// exactly at the start of the field and right after `.`, `!` or `?`; right
/// after a space only a new word starts; after any other character nothing
/// is capitalised.
pub proof fn lemma_caps_mode_after(text: Seq<char>, selection_start: int)
    ensures
        selection_start == 0 ==> caps_mode(text, selection_start) == 7,
        selection_start != 0 && utf16_substring(text, 0, selection_start).len() > 0
            && ends_sentence(utf16_substring(text, 0, selection_start).last())
            ==> caps_mode(text, selection_start) == 5,
        selection_start != 0 && utf16_substring(text, 0, selection_start).len() > 0
            && utf16_substring(text, 0, selection_start).last() == ' '
            ==> caps_mode(text, selection_start) == 2,
        selection_start != 0 && (utf16_substring(text, 0, selection_start).len() == 0
            || (!ends_sentence(utf16_substring(text, 0, selection_start).last())
                && utf16_substring(text, 0, selection_start).last() != ' '))
            ==> caps_mode(text, selection_start) == 0,
{
    assert(CAP_MODE_CHARACTERS | CAP_MODE_WORDS | CAP_MODE_SENTENCES == 7) by (bit_vector);
    assert(CAP_MODE_CHARACTERS | CAP_MODE_SENTENCES == 5) by (bit_vector);
}

/// The command for a `commitText` from the platform: none for empty text.
pub fn commit_command(text: String) -> (r: Option<ImeCmd>)
    ensures
        match r {
            Some(ImeCmd::Commit(t)) => t@ == text@ && text@.len() > 0,
            Some(_) => false,
            None => text@.len() == 0,
        },
{
    if text.as_str().unicode_len() == 0 {
        None
    } else {
        Some(ImeCmd::Commit(text))
    }
}

/// The command for a `setComposingRegion(start, end)` on the field text
/// `text`: the region's text (code units `start..end`, negative positions
/// wrapping as unsigned sizes) with its bounds.
pub fn composing_region_command(text: &str, start: i32, end: i32) -> (r: ImeCmd)
    ensures
        match r {
            ImeCmd::ComposingRange { text: t, start: s, end: e } =>
                t@ == utf16_substring(text@, (start as usize) as int, (end as usize) as int) && s == start && e == end,
            _ => false,
        },
{
    let region = utf16_substr(text, start as usize, end as usize);
    ImeCmd::ComposingRange { text: region, start, end }
}

} // verus!
