//! Display widths of characters and text, in terminal columns.

use vstd::prelude::*;

verus! {

/// What `unicode_width::UnicodeWidthChar::width` returns for a character
/// outside the ranges whose width its source fixes directly.
pub uninterp spec fn unicode_width_of(c: char) -> Option<usize>;

/// A control character: general category `Cc` (U+0000..U+001F, U+007F..U+009F).
pub open spec fn is_control_char(c: char) -> bool {
    c <= '\u{1f}' || ('\u{7f}' <= c && c <= '\u{9f}')
}

/// Columns that a character occupies; control characters count as zero.
pub open spec fn char_cols(c: char) -> nat {
    if is_control_char(c) {
        0
    } else if c < '\u{7f}' || c == '\u{2026}' {
        1
    } else {
        match unicode_width_of(c) {
            Some(w) => w as nat,
            None => 0,
        }
    }
}

/// Relies on `unicode_width::UnicodeWidthChar::width`: the display width of a
/// single character. Its source answers `None` for control characters and
/// one column for printable ASCII; every width it returns is at most three;
/// ambiguous characters such as `…` (U+2026) count as narrow.
#[verifier::external_body]
pub(crate) fn unicode_char_width(c: char) -> (r: Option<usize>)
    ensures
        r == None::<usize> <==> is_control_char(c),
        r matches Some(w) ==> w as nat == char_cols(c) && w <= 3,
        !is_control_char(c) && c >= '\u{7f}' && c != '\u{2026}' ==> r == unicode_width_of(c),
{
    unicode_width::UnicodeWidthChar::width(c)
}

/// Columns of a character as the rest of the library counts them: its width,
/// or zero where it has none.
pub fn char_width(c: char) -> (r: usize)
    ensures
        r as nat == char_cols(c),
        r <= 3,
{
    match unicode_char_width(c) {
        Some(w) => w,
        None => 0,
    }
}

/// Columns that a text occupies: the sum of its characters' widths.
pub open spec fn text_cols(s: Seq<char>) -> nat
    decreases s.len(),
{
    if s.len() == 0 {
        0
    } else {
        text_cols(s.drop_last()) + char_cols(s.last())
    }
}

/// A text without control characters.
pub open spec fn has_no_control(s: Seq<char>) -> bool {
    forall|i: int| 0 <= i < s.len() ==> !is_control_char(#[trigger] s[i])
}

pub proof fn lemma_text_cols_concat(a: Seq<char>, b: Seq<char>)
    ensures
        text_cols(a + b) == text_cols(a) + text_cols(b),
    decreases b.len(),
{
    if b.len() == 0 {
        assert(a + b =~= a);
    } else {
        lemma_text_cols_concat(a, b.drop_last());
        assert((a + b).drop_last() =~= a + b.drop_last());
    }
}

pub proof fn lemma_text_cols_push(a: Seq<char>, c: char)
    ensures
        text_cols(a.push(c)) == text_cols(a) + char_cols(c),
{
    assert(a.push(c).drop_last() =~= a);
}

pub proof fn lemma_text_cols_prefix(s: Seq<char>, i: int)
    requires
        0 <= i <= s.len(),
    ensures
        text_cols(s.subrange(0, i)) <= text_cols(s),
{
    lemma_text_cols_concat(s.subrange(0, i), s.subrange(i, s.len() as int));
    assert(s.subrange(0, i) + s.subrange(i, s.len() as int) =~= s);
}

} // verus!
