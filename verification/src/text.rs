//! Char-indexed text helpers shared by the input modules.
//!
//! Positions are Unicode scalar value indices (what `str::chars` yields), not
//! byte offsets. Every range is clamped to the text, so no helper can panic.

use vstd::prelude::*;
use vstd::string::*;

verus! {

/// `a` when it is at most `b`, otherwise `b`.
pub open spec fn min_int(a: int, b: int) -> int {
    if a <= b { a } else { b }
}

/// `a` when it is at least `b`, otherwise `b`.
pub open spec fn max_int(a: int, b: int) -> int {
    if a >= b { a } else { b }
}

/// Start of the clamped range `start..end` of a text of length `len`.
pub open spec fn clamp_start(start: int, len: int) -> int {
    min_int(start, len)
}

/// End of the clamped range `start..end` of a text of length `len`:
/// never past the text, never before the clamped start.
pub open spec fn clamp_end(start: int, end: int, len: int) -> int {
    max_int(min_int(end, len), clamp_start(start, len))
}

/// `text` with the chars of the clamped range `start..end` replaced by `repl`.
/// With `start == end` this is an insertion at `start`.
pub open spec fn splice_chars(text: Seq<char>, start: int, end: int, repl: Seq<char>) -> Seq<char> {
    let s = clamp_start(start, text.len() as int);
    let e = clamp_end(start, end, text.len() as int);
    text.subrange(0, s) + repl + text.subrange(e, text.len() as int)
}

/// Number of chars of `s`.
pub fn char_count(s: &str) -> (n: usize)
    ensures
        n == s@.len(),
{
    s.unicode_len()
}

/// `text` with the clamped char range `start..end` replaced by `repl`.
pub fn splice_string(text: &str, start: usize, end: usize, repl: &str) -> (r: String)
    ensures
        r@ == splice_chars(text@, start as int, end as int, repl@),
{
    let len = text.unicode_len();
    let s = if start <= len { start } else { len };
    let e0 = if end <= len { end } else { len };
    let e = if e0 >= s { e0 } else { s };
    let mut r = text.substring_char(0, s).to_owned();
    r.append(repl);
    r.append(text.substring_char(e, len));
    r
}

/// Appends one char to a `String` (`String::push`); the string's chars gain
/// that char at the end.
#[verifier::external_body]
pub(crate) fn push_char(s: &mut String, c: char)
    ensures
        final(s)@ == old(s)@.push(c),
{
    s.push(c)
}

/// The ASCII digit for `d < 10`.
pub open spec fn digit_char(d: nat) -> char {
    (d + 48) as char
}

/// The decimal digits of `n`, most significant first, without leading zeros
/// (`"0"` for zero).
pub open spec fn decimal(n: nat) -> Seq<char>
    decreases n,
{
    if n < 10 {
        seq![digit_char(n)]
    } else {
        decimal(n / 10).push(digit_char(n % 10))
    }
}

/// Append the decimal digits of `n` to `s`.
pub fn push_decimal(s: &mut String, n: usize)
    ensures
        final(s)@ == old(s)@ + decimal(n as nat),
    decreases n,
{
    if n >= 10 {
        push_decimal(s, n / 10);
    }
    let d: u8 = (n % 10) as u8;
    let c = (d + 48u8) as char;
    push_char(s, c);
    proof {
        if n >= 10 {
            assert(s@ =~= old(s)@ + decimal(n as nat));
        } else {
            assert(s@ =~= old(s)@ + decimal(n as nat));
        }
    }
}

} // verus!
