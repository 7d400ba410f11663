//! Display width of text in terminal columns.
//!
//! The printer is a fixed-width device, but a character does not always
//! occupy one cell: wide CJK characters take two columns and combining marks
//! take none. All layout decisions are made against the per-character cell
//! width, so that indentation stays aligned whatever the text holds.
use vstd::prelude::*;

verus! {

/// Largest character count accepted by the width and layout functions, so
/// that column arithmetic stays far from the integer limits.
pub const MAX_TEXT_LEN: usize = 0xff_ffff;

/// Display width in columns that the Unicode width tables assign to one
/// character.
pub uninterp spec fn char_cell_width(c: char) -> nat;

/// Relies on unicode_width's `UnicodeWidthChar::width`: the displayed column
/// width of a character, a function of the character alone. A control
/// character (reported as `None`) counts as zero columns, and the crate's
/// documented rules assign at most three columns to any single character.
#[verifier::external_body]
pub fn cell_width(c: char) -> (r: usize)
    ensures
        r == char_cell_width(c),
        r <= 3,
{
    unicode_width::UnicodeWidthChar::width(c).unwrap_or(0)
}

/// Display width of a sequence of characters: the sum of its characters'
/// cell widths.
pub open spec fn str_width(s: Seq<char>) -> nat
    decreases s.len(),
{
    if s.len() == 0 {
        0
    } else {
        str_width(s.drop_last()) + char_cell_width(s.last())
    }
}

/// The width of a concatenation is the sum of the widths.
pub proof fn lemma_str_width_concat(a: Seq<char>, b: Seq<char>)
    ensures
        str_width(a + b) == str_width(a) + str_width(b),
    decreases b.len(),
{
    if b.len() == 0 {
        assert(a + b =~= a);
    } else {
        lemma_str_width_concat(a, b.drop_last());
        assert((a + b).drop_last() =~= a + b.drop_last());
        assert((a + b).last() == b.last());
    }
}

/// Display width of a string, measured character by character.
pub fn display_width(s: &str) -> (r: usize)
    requires
        s@.len() <= MAX_TEXT_LEN,
    ensures
        r == str_width(s@),
        r <= 3 * s@.len(),
{
    let n = s.unicode_len();
    let mut total: usize = 0;
    let mut i: usize = 0;
    while i < n
        invariant
            n == s@.len() <= MAX_TEXT_LEN,
            0 <= i <= n,
            total == str_width(s@.take(i as int)),
            total <= 3 * i,
        decreases n - i,
    {
        let c = s.get_char(i);
        let w = cell_width(c);
        proof {
            assert(s@.take(i + 1).drop_last() =~= s@.take(i as int));
            assert(s@.take(i + 1).last() == s@[i as int]);
        }
        total = total + w;
        i = i + 1;
    }
    proof {
        assert(s@.take(n as int) =~= s@);
    }
    total
}

} // verus!
