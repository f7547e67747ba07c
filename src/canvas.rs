//! The drawing surface: styled spans of text, rows built from them by
//! column-exact overwrites, frames of rows with diffing, and a canvas that
//! draws into a frame with scrolling and clipping.

use vstd::prelude::*;
use crate::terminal::{TerminalPosition, TerminalSize};
use crate::text::{
    chars_of, escape_control, escape_text, hex_digit_char, is_printable_ascii, lemma_escape_text_push,
    push_char,
};
use crate::width::{
    char_cols, char_width, has_no_control, is_control_char, lemma_text_cols_concat,
    lemma_text_cols_prefix, lemma_text_cols_push, text_cols,
};

verus! {

/// Display attributes of a span.
#[derive(Debug, Clone, Copy, PartialEq, Eq, Structural)]
pub struct TerminalStyle {
    pub bold: bool,
    pub dim: bool,
    pub underline: bool,
    pub reverse: bool,
}

impl TerminalStyle {
    /// No attribute set.
    pub fn new() -> (r: Self)
        ensures
            !r.bold && !r.dim && !r.underline && !r.reverse,
    {
        TerminalStyle { bold: false, dim: false, underline: false, reverse: false }
    }

    pub fn bold(self) -> (r: Self)
        ensures
            r == (TerminalStyle { bold: true, ..self }),
    {
        TerminalStyle { bold: true, ..self }
    }

    pub fn dim(self) -> (r: Self)
        ensures
            r == (TerminalStyle { dim: true, ..self }),
    {
        TerminalStyle { dim: true, ..self }
    }

    pub fn underline(self) -> (r: Self)
        ensures
            r == (TerminalStyle { underline: true, ..self }),
    {
        TerminalStyle { underline: true, ..self }
    }

    pub fn reverse(self) -> (r: Self)
        ensures
            r == (TerminalStyle { reverse: true, ..self }),
    {
        TerminalStyle { reverse: true, ..self }
    }
}

/// Display widths of characters for terminal frames: a character's width,
/// zero for control characters.
#[derive(Debug, Default)]
pub struct UnicodeCharWidthEstimator;

impl UnicodeCharWidthEstimator {
    pub fn estimate_char_width(&self, c: char) -> (r: usize)
        ensures
            r as nat == char_cols(c),
    {
        char_width(c)
    }
}

/// The plain style.
pub open spec fn plain_style() -> TerminalStyle {
    TerminalStyle { bold: false, dim: false, underline: false, reverse: false }
}

/// What a span holds: its (escaped) text and its style.
pub struct SpanView {
    pub text: Seq<char>,
    pub style: TerminalStyle,
}

/// Columns of a span.
pub open spec fn span_cols(s: SpanView) -> nat {
    text_cols(s.text)
}

/// A run of text with one style. Its text holds no control characters:
/// they are escaped when the span is made.
#[derive(Debug)]
pub struct Token {
    text: String,
    style: TerminalStyle,
    cols: usize,
}

impl View for Token {
    type V = SpanView;

    closed spec fn view(&self) -> SpanView {
        SpanView { text: self.text@, style: self.style }
    }
}

/// The filler that stands for the covered part of a character cut by a split.
pub open spec fn filler(n: nat) -> Seq<char> {
    Seq::new(n, |i: int| '\u{2026}')
}

/// Splitting a text at display column `col`, scanning from character `i`,
/// where the characters before `i` take `acc` columns.
pub open spec fn split_text_from(s: Seq<char>, col: nat, i: nat, acc: nat) -> (Seq<char>, Seq<char>)
    decreases s.len() - i,
{
    if i >= s.len() {
        (s, Seq::empty())
    } else if acc == col {
        (s.subrange(0, i as int), s.subrange(i as int, s.len() as int))
    } else if acc + char_cols(s[i as int]) > col {
        (s.subrange(0, i as int) + filler((col - acc) as nat), s.subrange(i as int + 1, s.len() as int))
    } else {
        split_text_from(s, col, i + 1, acc + char_cols(s[i as int]))
    }
}

/// Splitting a text at display column `col`: the characters before the
/// column go left, the others right. A character that straddles the column
/// is dropped, and the left side is padded with `…` up to the column.
/// A column past the end leaves everything on the left.
pub open spec fn split_text(s: Seq<char>, col: nat) -> (Seq<char>, Seq<char>) {
    split_text_from(s, col, 0, 0)
}

impl Token {
    #[verifier::type_invariant]
    spec fn inv(&self) -> bool {
        &&& has_no_control(self.text@)
        &&& self.cols as nat == text_cols(self.text@)
    }

    /// A plain span of `text`.
    pub fn new(text: &str) -> (r: Self)
        requires
            text@.len() <= usize::MAX / 6,
        ensures
            r@.text == escape_text(text@),
            r@.style == plain_style(),
    {
        Self::with_style(text, TerminalStyle::new())
    }

    /// An equal span.
    pub fn duplicate(&self) -> (r: Self)
        ensures
            r@ == self@,
    {
        proof {
            use_type_invariant(self);
        }
        Token { text: self.text.as_str().to_owned(), style: self.style, cols: self.cols }
    }

    /// A plain span of `n` spaces.
    fn spaces(n: usize) -> (r: Self)
        ensures
            r@ == (SpanView { text: spaces(n as nat), style: plain_style() }),
    {
        let mut text = String::new();
        let mut k: usize = 0;
        proof {
            assert(text@ =~= spaces(0));
        }
        while k < n
            invariant
                k <= n,
                text@ == spaces(k as nat),
            decreases n - k,
        {
            proof {
                assert(spaces((k + 1) as nat) =~= spaces(k as nat).push(' '));
            }
            push_char(&mut text, ' ');
            k = k + 1;
        }
        proof {
            lemma_spaces(n as nat);
        }
        Token { text, style: TerminalStyle::new(), cols: n }
    }

    pub fn text(&self) -> (r: &str)
        ensures
            r@ == self@.text,
    {
        self.text.as_str()
    }

    pub fn style(&self) -> (r: TerminalStyle)
        ensures
            r == self@.style,
    {
        self.style
    }

    /// Width of the span in columns.
    pub fn cols(&self) -> (r: usize)
        ensures
            r as nat == span_cols(self@),
    {
        proof {
            use_type_invariant(self);
        }
        self.cols
    }

    /// A span of `text` in `style`; each control character in `text` is
    /// replaced by its escape (`\n`, `\u{1b}`, ...). The text may hold at
    /// most a sixth of `usize::MAX` characters, so that the escaped span's
    /// width fits in `usize`.
    pub fn with_style(text: &str, style: TerminalStyle) -> (r: Self)
        requires
            text@.len() <= usize::MAX / 6,
        ensures
            r@.text == escape_text(text@),
            r@.style == style,
    {
        let chars = chars_of(text);
        let mut out = String::new();
        let mut cols: usize = 0;
        let mut i: usize = 0;
        proof {
            assert(text@.subrange(0, 0) =~= Seq::<char>::empty());
            assert(out@ =~= Seq::<char>::empty());
        }
        while i < chars.len()
            invariant
                chars@ == text@,
                chars@.len() <= usize::MAX / 6,
                i <= chars@.len(),
                out@ == escape_text(chars@.subrange(0, i as int)),
                has_no_control(out@),
                cols as nat == text_cols(out@),
                cols <= 6 * i,
            decreases chars@.len() - i,
        {
            let c = chars[i];
            let ghost prev = out@;
            if is_control(c) {
                let esc = escape_control_chars(c);
                let mut j: usize = 0;
                while j < esc.len()
                    invariant
                        esc@ == escape_control(c),
                        is_printable_ascii(esc@),
                        esc@.len() <= 6,
                        j <= esc@.len(),
                        out@ == prev + esc@.subrange(0, j as int),
                        has_no_control(out@),
                        cols as nat == text_cols(out@),
                        cols <= 6 * i + j,
                        i < chars@.len(),
                        chars@.len() <= usize::MAX / 6,
                    decreases esc@.len() - j,
                {
                    let e = esc[j];
                    proof {
                        lemma_text_cols_push(out@, e);
                        assert(prev + esc@.subrange(0, j + 1) =~= (prev + esc@.subrange(0, j as int)).push(e));
                    }
                    push_char(&mut out, e);
                    cols = cols + 1;
                    j = j + 1;
                }
                proof {
                    assert(esc@.subrange(0, esc@.len() as int) =~= esc@);
                }
            } else {
                let w = char_width(c);
                proof {
                    lemma_text_cols_push(out@, c);
                }
                push_char(&mut out, c);
                cols = cols + w;
            }
            proof {
                lemma_escape_text_push(chars@.subrange(0, i as int), c);
                assert(chars@.subrange(0, i + 1) =~= chars@.subrange(0, i as int).push(c));
            }
            i = i + 1;
        }
        proof {
            assert(chars@.subrange(0, i as int) =~= text@);
        }
        Token { text: out, style, cols }
    }

    /// Cuts the span at display column `col`: the part before the column is
    /// returned and `self` keeps the rest (see `split_text`). Both parts keep
    /// the style.
    pub fn split_prefix_off(&mut self, col: usize) -> (prefix: Self)
        ensures
            (prefix@.text, final(self)@.text) == split_text(old(self)@.text, col as nat),
            prefix@.style == old(self)@.style,
            final(self)@.style == old(self)@.style,
    {
        proof {
            use_type_invariant(&*self);
        }
        let ghost s = self.text@;
        let chars = chars_of(self.text.as_str());
        let n = chars.len();
        let mut acc: usize = 0;
        let mut i: usize = 0;
        let mut cut: bool = false;
        let mut cut_width: usize = 0;
        proof {
            assert(s.subrange(0, 0) =~= Seq::<char>::empty());
        }
        while i < n
            invariant_except_break
                !cut,
            invariant
                chars@ == s,
                s == self.text@,
                n == s.len(),
                i <= n,
                acc as nat == text_cols(s.subrange(0, i as int)),
                acc <= col,
                split_text(s, col as nat) == split_text_from(s, col as nat, i as nat, acc as nat),
            ensures
                i <= n,
                acc <= col,
                acc as nat == text_cols(s.subrange(0, i as int)),
                !cut ==> (i == n || acc == col),
                !cut ==> split_text(s, col as nat) == split_text_from(s, col as nat, i as nat, acc as nat),
                cut ==> i < n && cut_width as nat == char_cols(s[i as int]) && acc + cut_width > col
                    && split_text(s, col as nat) == (s.subrange(0, i as int) + filler((col - acc) as nat), s.subrange(i + 1, n as int)),
            decreases n - i,
        {
            if acc == col {
                break;
            }
            let w = char_width(chars[i]);
            if w > col - acc {
                cut = true;
                cut_width = w;
                break;
            }
            proof {
                assert(s.subrange(0, i + 1) =~= s.subrange(0, i as int).push(s[i as int]));
                lemma_text_cols_push(s.subrange(0, i as int), s[i as int]);
            }
            acc = acc + w;
            i = i + 1;
        }
        proof {
            lemma_text_cols_concat(s.subrange(0, i as int), s.subrange(i as int, n as int));
            assert(s.subrange(0, i as int) + s.subrange(i as int, n as int) =~= s);
        }
        let style = self.style;
        if cut {
            let mut left = self.text.as_str().substring_char(0, i).to_owned();
            let mut k: usize = acc;
            proof {
                assert(filler(0) =~= Seq::<char>::empty());
                assert(left@ =~= s.subrange(0, i as int) + filler(0));
            }
            while k < col
                invariant
                    acc <= k <= col,
                    i < n,
                    n == s.len(),
                    left@ == s.subrange(0, i as int) + filler((k - acc) as nat),
                decreases col - k,
            {
                proof {
                    assert(filler((k + 1 - acc) as nat) =~= filler((k - acc) as nat).push('\u{2026}'));
                    assert(s.subrange(0, i as int) + filler((k + 1 - acc) as nat) =~= (s.subrange(0, i as int) + filler((k - acc) as nat)).push('\u{2026}'));
                }
                push_char(&mut left, '\u{2026}');
                k = k + 1;
            }
            let right = self.text.as_str().substring_char(i + 1, n).to_owned();
            proof {
                let head = s.subrange(0, i as int);
                let tail = s.subrange(i as int, n as int);
                assert(tail =~= seq![s[i as int]] + s.subrange(i + 1, n as int));
                lemma_text_cols_concat(seq![s[i as int]], s.subrange(i + 1, n as int));
                assert(seq![s[i as int]] =~= Seq::<char>::empty().push(s[i as int]));
                lemma_text_cols_push(Seq::<char>::empty(), s[i as int]);
                lemma_filler((col - acc) as nat);
                lemma_text_cols_concat(head, filler((col - acc) as nat));
                assert(has_no_control(left@)) by {
                    assert forall|j: int| 0 <= j < left@.len() implies !is_control_char(#[trigger] left@[j]) by {
                        if j < i {
                            assert(left@[j] == s[j]);
                        } else {
                            assert(left@[j] == filler((col - acc) as nat)[j - i]);
                        }
                    }
                }
                assert(has_no_control(right@)) by {
                    assert forall|j: int| 0 <= j < right@.len() implies !is_control_char(#[trigger] right@[j]) by {
                        assert(right@[j] == s[i + 1 + j]);
                    }
                }
            }
            let rest_cols = self.cols - acc - cut_width;
            *self = Token { text: right, style, cols: rest_cols };
            Token { text: left, style, cols: col }
        } else {
            let left = self.text.as_str().substring_char(0, i).to_owned();
            let right = self.text.as_str().substring_char(i, n).to_owned();
            proof {
                assert(has_no_control(left@)) by {
                    assert forall|j: int| 0 <= j < left@.len() implies !is_control_char(#[trigger] left@[j]) by {
                        assert(left@[j] == s[j]);
                    }
                }
                assert(has_no_control(right@)) by {
                    assert forall|j: int| 0 <= j < right@.len() implies !is_control_char(#[trigger] right@[j]) by {
                        assert(right@[j] == s[i + j]);
                    }
                }
                if i == n {
                    assert(left@ =~= s);
                    assert(right@ =~= Seq::<char>::empty());
                }
            }
            let rest_cols = self.cols - acc;
            *self = Token { text: right, style, cols: rest_cols };
            Token { text: left, style, cols: acc }
        }
    }
}

/// `n` spaces.
pub open spec fn spaces(n: nat) -> Seq<char> {
    Seq::new(n, |i: int| ' ')
}

proof fn lemma_spaces(n: nat)
    ensures
        text_cols(spaces(n)) == n,
        has_no_control(spaces(n)),
    decreases n,
{
    if n > 0 {
        lemma_spaces((n - 1) as nat);
        assert(spaces(n).drop_last() =~= spaces((n - 1) as nat));
    }
}

/// `…` is one column wide and no control character.
proof fn lemma_filler(n: nat)
    ensures
        text_cols(filler(n)) == n,
        has_no_control(filler(n)),
    decreases n,
{
    if n > 0 {
        lemma_filler((n - 1) as nat);
        assert(filler(n).drop_last() =~= filler((n - 1) as nat));
    }
}

/// The scan of `split_text` from character `i` on, where the characters
/// before `i` take `acc <= col` columns.
proof fn lemma_split_text_from(s: Seq<char>, col: nat, i: nat, acc: nat)
    requires
        i <= s.len(),
        acc == text_cols(s.subrange(0, i as int)),
        acc <= col,
    ensures
        ({
            let (l, r) = split_text_from(s, col, i, acc);
            &&& text_cols(l) == if col <= text_cols(s) { col } else { text_cols(s) }
            &&& ((l + r == s && text_cols(l) + text_cols(r) == text_cols(s)) || exists|k: int|
                #![trigger s.subrange(0, k)]
                i <= k < s.len() && text_cols(s.subrange(0, k)) < col && col < text_cols(
                    s.subrange(0, k + 1),
                ) && l == s.subrange(0, k) + filler((col - text_cols(s.subrange(0, k))) as nat)
                    && r == s.subrange(k + 1, s.len() as int))
        }),
    decreases s.len() - i,
{
    let n = s.len() as int;
    lemma_text_cols_concat(s.subrange(0, i as int), s.subrange(i as int, n));
    assert(s.subrange(0, i as int) + s.subrange(i as int, n) =~= s);
    if i >= s.len() {
        assert(s.subrange(0, i as int) =~= s);
        assert(s + Seq::<char>::empty() =~= s);
    } else if acc == col {
        lemma_text_cols_prefix(s, i as int);
    } else {
        let c = s[i as int];
        assert(s.subrange(0, i as int + 1) =~= s.subrange(0, i as int).push(c));
        lemma_text_cols_push(s.subrange(0, i as int), c);
        lemma_text_cols_prefix(s, i as int + 1);
        if acc + char_cols(c) > col {
            lemma_filler((col - acc) as nat);
            lemma_text_cols_concat(s.subrange(0, i as int), filler((col - acc) as nat));
            let k = i as int;
            assert(text_cols(s.subrange(0, k)) < col && col < text_cols(s.subrange(0, k + 1)));
        } else {
            lemma_split_text_from(s, col, i + 1, acc + char_cols(c));
        }
    }
}

/// Splitting a text at a column never breaks the column count: the left
/// side is exactly `col` columns wide (the whole text where it is narrower),
/// and the sides together take no more columns than the text. Either the
/// sides are the text cut in two, or the column falls inside a character:
/// then the left side ends in `…` filler up to the column, and that
/// character is in neither side.
pub proof fn lemma_split_text(s: Seq<char>, col: nat)
    ensures
        ({
            let (l, r) = split_text(s, col);
            &&& text_cols(l) == if col <= text_cols(s) { col } else { text_cols(s) }
            &&& text_cols(l) + text_cols(r) <= text_cols(s)
            &&& ((l + r == s) || exists|k: int|
                #![trigger s.subrange(0, k)]
                0 <= k < s.len() && text_cols(s.subrange(0, k)) < col && col < text_cols(
                    s.subrange(0, k + 1),
                ) && l == s.subrange(0, k) + filler((col - text_cols(s.subrange(0, k))) as nat)
                    && r == s.subrange(k + 1, s.len() as int))
        }),
{
    assert(s.subrange(0, 0) =~= Seq::<char>::empty());
    lemma_split_text_from(s, col, 0, 0);
    let (l, r) = split_text(s, col);
    if !(l + r == s && text_cols(l) + text_cols(r) == text_cols(s)) {
        let k = choose|k: int|
            #![trigger s.subrange(0, k)]
            0 <= k < s.len() && text_cols(s.subrange(0, k)) < col && col < text_cols(
                s.subrange(0, k + 1),
            ) && l == s.subrange(0, k) + filler((col - text_cols(s.subrange(0, k))) as nat)
                && r == s.subrange(k + 1, s.len() as int);
        let n = s.len() as int;
        assert(s.subrange(0, k + 1) + s.subrange(k + 1, n) =~= s);
        lemma_text_cols_concat(s.subrange(0, k + 1), s.subrange(k + 1, n));
    }
}

/// Whether `c` is a control character (`char::is_control`).
pub fn is_control(c: char) -> (r: bool)
    ensures
        r == is_control_char(c),
{
    c <= '\u{1f}' || ('\u{7f}' <= c && c <= '\u{9f}')
}

/// The escape of a control character, as `char::escape_default` writes it.
fn escape_control_chars(c: char) -> (r: Vec<char>)
    requires
        is_control_char(c),
    ensures
        r@ == escape_control(c),
        is_printable_ascii(r@),
        r@.len() <= 6,
{
    if c == '\t' {
        vec!['\\', 't']
    } else if c == '\r' {
        vec!['\\', 'r']
    } else if c == '\n' {
        vec!['\\', 'n']
    } else {
        let v = c as u32;
        if v < 16 {
            let r = vec!['\\', 'u', '{', hex_digit_char(v), '}'];
            proof {
                assert(r@ =~= escape_control(c));
            }
            r
        } else {
            let r = vec!['\\', 'u', '{', hex_digit_char(v / 16), hex_digit_char(v % 16), '}'];
            proof {
                assert(r@ =~= escape_control(c));
            }
            r
        }
    }
}


impl PartialEq for Token {
    fn eq(&self, other: &Self) -> (r: bool)
        ensures
            r == (self@ == other@),
    {
        let r = self.text == other.text && self.style == other.style;
        proof {
            if r {
                assert(self@ == other@);
            }
        }
        r
    }
}

impl vstd::std_specs::cmp::PartialEqSpecImpl for Token {
    open spec fn obeys_eq_spec() -> bool {
        true
    }

    open spec fn eq_spec(&self, other: &Self) -> bool {
        self@ == other@
    }
}

/// What a sequence of spans holds.
pub open spec fn spans_of(ts: Seq<Token>) -> Seq<SpanView> {
    ts.map_values(|t: Token| t@)
}

/// Columns of a row of spans.
pub open spec fn line_cols(ts: Seq<SpanView>) -> nat
    decreases ts.len(),
{
    if ts.len() == 0 {
        0
    } else {
        line_cols(ts.drop_last()) + span_cols(ts.last())
    }
}

/// The text of a row of spans, without styles.
pub open spec fn line_text(ts: Seq<SpanView>) -> Seq<char>
    decreases ts.len(),
{
    if ts.len() == 0 {
        Seq::empty()
    } else {
        line_text(ts.drop_last()) + ts.last().text
    }
}

/// A span split at a column, as `split_text` splits its text.
pub open spec fn split_span(t: SpanView, col: nat) -> (SpanView, SpanView) {
    (
        SpanView { text: split_text(t.text, col).0, style: t.style },
        SpanView { text: split_text(t.text, col).1, style: t.style },
    )
}

/// Splitting a row at display column `col`, scanning from span `i`, where
/// the spans before `i` take `acc` columns.
pub open spec fn split_row_from(ts: Seq<SpanView>, col: nat, i: nat, acc: nat) -> (
    Seq<SpanView>,
    Seq<SpanView>,
)
    decreases ts.len() - i,
{
    if i >= ts.len() {
        (ts, Seq::empty())
    } else if acc == col {
        (ts.take(i as int), ts.skip(i as int))
    } else if acc + span_cols(ts[i as int]) <= col {
        split_row_from(ts, col, i + 1, acc + span_cols(ts[i as int]))
    } else {
        (
            ts.take(i as int).push(split_span(ts[i as int], (col - acc) as nat).0),
            seq![split_span(ts[i as int], (col - acc) as nat).1] + ts.skip(i as int + 1),
        )
    }
}

/// Splitting a row at display column `col`: the spans before the column go
/// left, the others right, and a span across the column is split by
/// `split_span`. A column past the end leaves the whole row on the left.
pub open spec fn split_row(ts: Seq<SpanView>, col: nat) -> (Seq<SpanView>, Seq<SpanView>) {
    split_row_from(ts, col, 0, 0)
}

/// A row padded with one plain span of spaces up to column `col`, where it
/// is narrower.
pub open spec fn pad_row(ts: Seq<SpanView>, col: nat) -> Seq<SpanView> {
    if col > line_cols(ts) {
        ts.push(SpanView { text: spaces((col - line_cols(ts)) as nat), style: plain_style() })
    } else {
        ts
    }
}

/// A row after `t` is drawn over columns `[col, col + width of t)`: the
/// row, padded to `col`, keeps what lies left of `col` and right of the
/// drawn range, with `t` between.
pub open spec fn draw_span(ts: Seq<SpanView>, col: nat, t: SpanView) -> Seq<SpanView> {
    split_row(pad_row(ts, col), col).0.push(t) + split_row(pad_row(ts, col), col + span_cols(t)).1
}

pub proof fn lemma_line_cols_concat(a: Seq<SpanView>, b: Seq<SpanView>)
    ensures
        line_cols(a + b) == line_cols(a) + line_cols(b),
    decreases b.len(),
{
    if b.len() == 0 {
        assert(a + b =~= a);
    } else {
        lemma_line_cols_concat(a, b.drop_last());
        assert((a + b).drop_last() =~= a + b.drop_last());
    }
}

proof fn lemma_line_cols_single(t: SpanView)
    ensures
        line_cols(seq![t]) == span_cols(t),
{
    assert(seq![t].drop_last() =~= Seq::<SpanView>::empty());
    assert(line_cols(seq![t].drop_last()) == 0);
    assert(seq![t].last() == t);
}

proof fn lemma_split_row_from(ts: Seq<SpanView>, col: nat, i: nat, acc: nat)
    requires
        i <= ts.len(),
        acc == line_cols(ts.take(i as int)),
        acc <= col,
    ensures
        line_cols(split_row_from(ts, col, i, acc).0) == if col <= line_cols(ts) {
            col
        } else {
            line_cols(ts)
        },
        line_cols(split_row_from(ts, col, i, acc).0) + line_cols(split_row_from(ts, col, i, acc).1)
            <= line_cols(ts),
    decreases ts.len() - i,
{
    let n = ts.len() as int;
    lemma_line_cols_concat(ts.take(i as int), ts.skip(i as int));
    assert(ts.take(i as int) + ts.skip(i as int) =~= ts);
    if i >= ts.len() {
        assert(ts.take(i as int) =~= ts);
        lemma_line_cols_concat(ts, Seq::empty());
        assert(ts + Seq::<SpanView>::empty() =~= ts);
    } else {
        let t = ts[i as int];
        assert(ts.take(i as int + 1) =~= ts.take(i as int).push(t));
        assert(ts.take(i as int + 1).drop_last() =~= ts.take(i as int));
        assert(ts.skip(i as int) =~= seq![t] + ts.skip(i as int + 1));
        lemma_line_cols_concat(seq![t], ts.skip(i as int + 1));
        lemma_line_cols_single(t);
        if acc == col {
        } else if acc + span_cols(t) <= col {
            lemma_split_row_from(ts, col, i + 1, acc + span_cols(t));
        } else {
            let (p, q) = split_span(t, (col - acc) as nat);
            lemma_split_text(t.text, (col - acc) as nat);
            assert(ts.take(i as int).push(p).drop_last() =~= ts.take(i as int));
            lemma_line_cols_concat(seq![q], ts.skip(i as int + 1));
            lemma_line_cols_single(q);
        }
    }
}

/// Splitting a row at a column: the left part is exactly `col` columns
/// wide (the whole row where it is narrower), and the parts together take
/// no more columns than the row.
pub proof fn lemma_split_row(ts: Seq<SpanView>, col: nat)
    ensures
        line_cols(split_row(ts, col).0) == if col <= line_cols(ts) { col } else { line_cols(ts) },
        line_cols(split_row(ts, col).0) + line_cols(split_row(ts, col).1) <= line_cols(ts),
{
    assert(ts.take(0) =~= Seq::<SpanView>::empty());
    lemma_split_row_from(ts, col, 0, 0);
}

/// Drawing a span over a row (`draw_span`) leaves the span in place: the
/// spans before it fill exactly `col` columns, the span itself follows
/// them unchanged, and the row is at least `col` plus the span's width
/// wide, and no wider than the padded row or the end of the span.
pub proof fn lemma_draw_span(ts: Seq<SpanView>, col: nat, t: SpanView)
    ensures
        ({
            let left = split_row(pad_row(ts, col), col).0;
            let r = draw_span(ts, col, t);
            &&& line_cols(left) == col
            &&& r[left.len() as int] == t
            &&& r.take(left.len() as int) == left
            &&& line_cols(r) >= col + span_cols(t)
            &&& line_cols(r) <= if col + span_cols(t) >= line_cols(ts) { col + span_cols(t) } else {
                line_cols(ts)
            }
        }),
{
    let p = pad_row(ts, col);
    if col > line_cols(ts) {
        let pad = SpanView { text: spaces((col - line_cols(ts)) as nat), style: plain_style() };
        lemma_spaces((col - line_cols(ts)) as nat);
        assert(p.drop_last() =~= ts);
    }
    assert(line_cols(p) >= col);
    let left = split_row(p, col).0;
    let right = split_row(p, col + span_cols(t)).1;
    lemma_split_row(p, col);
    lemma_split_row(p, col + span_cols(t));
    let r = draw_span(ts, col, t);
    assert(r.take(left.len() as int) =~= left);
    assert(left.push(t).drop_last() =~= left);
    lemma_line_cols_concat(left.push(t), right);
}


/// Cuts `tokens` at display column `col`: `tokens` keeps the part left of
/// the column and the rest is returned (see `split_row`).
fn split_tokens(tokens: &mut Vec<Token>, col: usize) -> (rest: Vec<Token>)
    requires
        line_cols(spans_of(old(tokens)@)) <= usize::MAX,
    ensures
        (spans_of(final(tokens)@), spans_of(rest@)) == split_row(spans_of(old(tokens)@), col as nat),
{
    let ghost ts = spans_of(tokens@);
    let n = tokens.len();
    let mut acc: usize = 0;
    let mut i: usize = 0;
    proof {
        assert(ts.take(0) =~= Seq::<SpanView>::empty());
    }
    while i < n
        invariant
            spans_of(tokens@) == ts,
            ts == spans_of(old(tokens)@),
            n == tokens@.len(),
            i <= n,
            acc as nat == line_cols(ts.take(i as int)),
            acc <= col,
            line_cols(ts) <= usize::MAX,
            split_row(ts, col as nat) == split_row_from(ts, col as nat, i as nat, acc as nat),
        decreases n - i,
    {
        if acc == col {
            let rest = tokens.split_off(i);
            proof {
                assert(split_row_from(ts, col as nat, i as nat, acc as nat) == (ts.take(i as int), ts.skip(i as int)));
                assert(spans_of(tokens@) =~= ts.take(i as int));
                assert(spans_of(rest@) =~= ts.skip(i as int));
            }
            return rest;
        }
        let tc = tokens[i].cols();
        proof {
            assert(ts[i as int] == tokens@[i as int]@);
            assert(ts.take(i + 1) =~= ts.take(i as int).push(ts[i as int]));
            assert(ts.take(i + 1).drop_last() =~= ts.take(i as int));
            lemma_line_cols_concat(ts.take(i + 1), ts.skip(i + 1));
            assert(ts.take(i + 1) + ts.skip(i + 1) =~= ts);
        }
        if tc <= col - acc {
            acc = acc + tc;
            i = i + 1;
        } else {
            let mut rest = tokens.split_off(i);
            let mut first = rest.remove(0);
            let prefix = first.split_prefix_off(col - acc);
            rest.insert(0, first);
            tokens.push(prefix);
            proof {
                assert(split_row_from(ts, col as nat, i as nat, acc as nat) == (
                    ts.take(i as int).push(split_span(ts[i as int], (col - acc) as nat).0),
                    seq![split_span(ts[i as int], (col - acc) as nat).1] + ts.skip(i + 1),
                ));
                assert(spans_of(tokens@) =~= ts.take(i as int).push(split_span(ts[i as int], (col - acc) as nat).0));
                assert(spans_of(rest@) =~= seq![split_span(ts[i as int], (col - acc) as nat).1] + ts.skip(i + 1));
            }
            return rest;
        }
    }
    let rest: Vec<Token> = Vec::new();
    proof {
        assert(spans_of(rest@) =~= Seq::<SpanView>::empty());
    }
    rest
}

/// One row of the display: spans laid out left to right.
#[derive(Debug)]
pub struct FrameLine {
    tokens: Vec<Token>,
}

impl View for FrameLine {
    type V = Seq<SpanView>;

    closed spec fn view(&self) -> Seq<SpanView> {
        spans_of(self.tokens@)
    }
}

impl FrameLine {
    #[verifier::type_invariant]
    spec fn inv(&self) -> bool {
        line_cols(spans_of(self.tokens@)) <= usize::MAX
    }

    /// An empty row.
    pub fn new() -> (r: Self)
        ensures
            r@ == Seq::<SpanView>::empty(),
    {
        let r = FrameLine { tokens: Vec::new() };
        proof {
            assert(r@ =~= Seq::<SpanView>::empty());
        }
        r
    }

    /// An equal row.
    pub fn duplicate(&self) -> (r: Self)
        ensures
            r@ == self@,
    {
        proof {
            use_type_invariant(self);
        }
        let mut tokens: Vec<Token> = Vec::new();
        let mut i: usize = 0;
        while i < self.tokens.len()
            invariant
                i <= self.tokens@.len(),
                spans_of(tokens@) == spans_of(self.tokens@).take(i as int),
            decreases self.tokens@.len() - i,
        {
            let d = self.tokens[i].duplicate();
            let ghost before = tokens@;
            tokens.push(d);
            proof {
                assert(tokens@ == before.push(d));
                assert(spans_of(tokens@) =~= spans_of(before).push(d@));
                assert(spans_of(tokens@) =~= spans_of(self.tokens@).take(i + 1));
            }
            i = i + 1;
        }
        proof {
            assert(spans_of(self.tokens@).take(i as int) =~= spans_of(self.tokens@));
        }
        FrameLine { tokens }
    }

    pub fn tokens(&self) -> (r: &[Token])
        ensures
            spans_of(r@) == self@,
    {
        self.tokens.as_slice()
    }

    /// The row's text, without styles.
    pub fn text(&self) -> (r: String)
        ensures
            r@ == line_text(self@),
    {
        let mut r = String::new();
        let mut i: usize = 0;
        proof {
            assert(spans_of(self.tokens@).take(0) =~= Seq::<SpanView>::empty());
            assert(r@ =~= line_text(Seq::<SpanView>::empty()));
        }
        while i < self.tokens.len()
            invariant
                i <= self.tokens@.len(),
                r@ == line_text(spans_of(self.tokens@).take(i as int)),
            decreases self.tokens@.len() - i,
        {
            let t = self.tokens[i].text();
            r.append(t);
            proof {
                let ts = spans_of(self.tokens@);
                assert(ts.take(i + 1).drop_last() =~= ts.take(i as int));
                assert(ts.take(i + 1).last() == self.tokens@[i as int]@);
            }
            i = i + 1;
        }
        proof {
            assert(spans_of(self.tokens@).take(i as int) =~= spans_of(self.tokens@));
        }
        r
    }

    /// Width of the row in columns.
    pub fn cols(&self) -> (r: usize)
        ensures
            r as nat == line_cols(self@),
    {
        proof {
            use_type_invariant(self);
        }
        let ghost ts = spans_of(self.tokens@);
        let mut acc: usize = 0;
        let mut i: usize = 0;
        proof {
            assert(ts.take(0) =~= Seq::<SpanView>::empty());
        }
        while i < self.tokens.len()
            invariant
                ts == spans_of(self.tokens@),
                line_cols(ts) <= usize::MAX,
                i <= self.tokens@.len(),
                acc as nat == line_cols(ts.take(i as int)),
            decreases self.tokens@.len() - i,
        {
            let tc = self.tokens[i].cols();
            proof {
                assert(ts.take(i + 1).drop_last() =~= ts.take(i as int));
                assert(ts.take(i + 1).last() == self.tokens@[i as int]@);
                lemma_line_cols_concat(ts.take(i + 1), ts.skip(i + 1));
                assert(ts.take(i + 1) + ts.skip(i + 1) =~= ts);
            }
            acc = acc + tc;
            i = i + 1;
        }
        proof {
            assert(ts.take(i as int) =~= ts);
        }
        acc
    }

    /// Cuts the row at display column `col`: `self` keeps what lies left of
    /// it and the rest is returned.
    pub fn split_off(&mut self, col: usize) -> (rest: Self)
        ensures
            (final(self)@, rest@) == split_row(old(self)@, col as nat),
    {
        proof {
            use_type_invariant(&*self);
        }
        let mut tokens: Vec<Token> = Vec::new();
        std::mem::swap(&mut tokens, &mut self.tokens);
        let rest = split_tokens(&mut tokens, col);
        proof {
            lemma_split_row(spans_of(old(self).tokens@), col as nat);
        }
        self.tokens = tokens;
        FrameLine { tokens: rest }
    }

    /// Draws `token` over columns `[col, col + width of token)`: what was
    /// there is overwritten, and a gap before `col` is filled with spaces.
    pub fn draw_token(&mut self, col: usize, token: Token)
        requires
            col + span_cols(token@) <= usize::MAX,
        ensures
            final(self)@ == draw_span(old(self)@, col as nat, token@),
    {
        proof {
            use_type_invariant(&*self);
            lemma_draw_span(old(self)@, col as nat, token@);
        }
        let w = token.cols();
        let cur = self.cols();
        let mut tokens: Vec<Token> = Vec::new();
        std::mem::swap(&mut tokens, &mut self.tokens);
        if col > cur {
            let pad = Token::spaces(col - cur);
            tokens.push(pad);
            proof {
                lemma_spaces((col - cur) as nat);
                assert(spans_of(tokens@).drop_last() =~= spans_of(old(self).tokens@));
            }
        }
        proof {
            assert(spans_of(tokens@) =~= pad_row(old(self)@, col as nat));
            lemma_split_row(spans_of(tokens@), col as nat);
        }
        let mut whole: Vec<Token> = Vec::new();
        let mut k: usize = 0;
        while k < tokens.len()
            invariant
                k <= tokens@.len(),
                spans_of(whole@) == spans_of(tokens@).take(k as int),
            decreases tokens@.len() - k,
        {
            let d = tokens[k].duplicate();
            let ghost before = whole@;
            whole.push(d);
            proof {
                assert(spans_of(whole@) =~= spans_of(before).push(d@));
                assert(spans_of(whole@) =~= spans_of(tokens@).take(k + 1));
            }
            k = k + 1;
        }
        proof {
            assert(spans_of(whole@) =~= spans_of(tokens@));
        }
        let mut right = split_tokens(&mut whole, col + w);
        let _ = split_tokens(&mut tokens, col);
        tokens.push(token);
        tokens.append(&mut right);
        proof {
            assert(spans_of(tokens@) =~= draw_span(old(self)@, col as nat, token@));
        }
        self.tokens = tokens;
    }
}


impl FrameLine {
    /// Whether two rows hold the same spans.
    pub fn same_as(&self, other: &Self) -> (r: bool)
        ensures
            r == (self@ == other@),
    {
        if self.tokens.len() != other.tokens.len() {
            proof {
                assert(self@.len() != other@.len());
            }
            return false;
        }
        let mut i: usize = 0;
        while i < self.tokens.len()
            invariant
                self.tokens@.len() == other.tokens@.len(),
                i <= self.tokens@.len(),
                forall|j: int| 0 <= j < i ==> self@[j] == other@[j],
            decreases self.tokens@.len() - i,
        {
            if !(self.tokens[i] == other.tokens[i]) {
                proof {
                    assert(self@[i as int] != other@[i as int]);
                }
                return false;
            }
            i = i + 1;
        }
        proof {
            assert(self@ =~= other@);
        }
        true
    }
}

impl PartialEq for FrameLine {
    fn eq(&self, other: &Self) -> (r: bool)
        ensures
            r == (self@ == other@),
    {
        self.same_as(other)
    }
}

impl vstd::std_specs::cmp::PartialEqSpecImpl for FrameLine {
    open spec fn obeys_eq_spec() -> bool {
        true
    }

    open spec fn eq_spec(&self, other: &Self) -> bool {
        self@ == other@
    }
}

/// What a frame holds: its size and its rows.
pub struct FrameView {
    pub size: TerminalSize,
    pub lines: Seq<Seq<SpanView>>,
}

/// What a sequence of rows holds.
pub open spec fn rows_of(ls: Seq<FrameLine>) -> Seq<Seq<SpanView>> {
    ls.map_values(|l: FrameLine| l@)
}

/// `n` empty rows.
pub open spec fn empty_rows(n: nat) -> Seq<Seq<SpanView>> {
    Seq::new(n, |i: int| Seq::<SpanView>::empty())
}

/// The indices below `n` at which `a` has a row that `b` lacks or holds
/// otherwise, in increasing order.
pub open spec fn dirty_rows_below(a: Seq<Seq<SpanView>>, b: Seq<Seq<SpanView>>, n: nat) -> Seq<nat>
    decreases n,
{
    if n == 0 {
        Seq::empty()
    } else {
        let i = (n - 1) as nat;
        if i >= b.len() || a[i as int] != b[i as int] {
            dirty_rows_below(a, b, i).push(i)
        } else {
            dirty_rows_below(a, b, i)
        }
    }
}

/// The indices of the rows of `a` that must be redrawn over `b`.
pub open spec fn dirty_rows(a: Seq<Seq<SpanView>>, b: Seq<Seq<SpanView>>) -> Seq<nat> {
    dirty_rows_below(a, b, a.len())
}

proof fn lemma_dirty_rows_below(a: Seq<Seq<SpanView>>, b: Seq<Seq<SpanView>>, n: nat)
    requires
        n <= a.len(),
    ensures
        forall|k: int| 0 <= k < dirty_rows_below(a, b, n).len() ==> #[trigger] dirty_rows_below(a, b, n)[k] < n,
        forall|j: int, k: int|
            0 <= j < k < dirty_rows_below(a, b, n).len() ==> dirty_rows_below(a, b, n)[j] < dirty_rows_below(a, b, n)[k],
        forall|i: nat|
            i < n ==> ((i >= b.len() || a[i as int] != b[i as int]) <==> #[trigger] dirty_rows_below(a, b, n).contains(i)),
    decreases n,
{
    if n > 0 {
        lemma_dirty_rows_below(a, b, (n - 1) as nat);
        let m = (n - 1) as nat;
        let prev = dirty_rows_below(a, b, m);
        let cur = dirty_rows_below(a, b, n);
        let cond = m >= b.len() || a[m as int] != b[m as int];
        if cond {
            assert(cur == prev.push(m));
        } else {
            assert(cur == prev);
        }
        assert forall|i: nat| i < n implies ((i >= b.len() || a[i as int] != b[i as int]) <==> cur.contains(i)) by {
            if i < m {
                assert((i >= b.len() || a[i as int] != b[i as int]) <==> prev.contains(i));
                if cur.contains(i) {
                    let k = choose|k: int| 0 <= k < cur.len() && cur[k] == i;
                    if cond && k == prev.len() {
                        assert(cur[k] == m);
                    } else {
                        assert(prev[k] == i);
                        assert(prev.contains(i));
                    }
                }
                if prev.contains(i) {
                    let k = choose|k: int| 0 <= k < prev.len() && prev[k] == i;
                    assert(cur[k] == i);
                }
            } else {
                assert(i == m);
                if cur.contains(i) && !cond {
                    let k = choose|k: int| 0 <= k < cur.len() && cur[k] == i;
                    assert(prev[k] < m);
                }
                if cond {
                    assert(cur[cur.len() - 1] == i);
                }
            }
        }
    }
}

/// Redrawing is exact: the rows to redraw are, in increasing order and each
/// once, those where the new frame's row differs from the old one's or the
/// old frame has none; there are none exactly when the frames hold the same
/// rows.
pub proof fn lemma_dirty_rows(a: Seq<Seq<SpanView>>, b: Seq<Seq<SpanView>>)
    ensures
        forall|k: int| 0 <= k < dirty_rows(a, b).len() ==> #[trigger] dirty_rows(a, b)[k] < a.len(),
        forall|j: int, k: int| 0 <= j < k < dirty_rows(a, b).len() ==> dirty_rows(a, b)[j] < dirty_rows(a, b)[k],
        forall|i: nat|
            i < a.len() ==> ((i >= b.len() || a[i as int] != b[i as int]) <==> #[trigger] dirty_rows(a, b).contains(i)),
        a.len() == b.len() ==> (dirty_rows(a, b).len() == 0 <==> a == b),
{
    lemma_dirty_rows_below(a, b, a.len());
    if a.len() == b.len() {
        let d = dirty_rows(a, b);
        if d.len() == 0 {
            assert forall|i: int| 0 <= i < a.len() implies a[i] == b[i] by {
                assert(!d.contains(i as nat));
            }
            assert(a =~= b);
        }
        if a == b && d.len() > 0 {
            assert(d[0] < a.len());
            assert(d.contains(d[0]));
        }
    }
}

/// A full screen of rows.
#[derive(Debug)]
pub struct Frame {
    size: TerminalSize,
    lines: Vec<FrameLine>,
}

impl FrameView {
    /// A frame has one row for each row of its size.
    pub open spec fn wf(self) -> bool {
        self.lines.len() == self.size.rows
    }
}

impl View for Frame {
    type V = FrameView;

    closed spec fn view(&self) -> FrameView {
        FrameView { size: self.size, lines: rows_of(self.lines@) }
    }
}

impl Frame {
    #[verifier::type_invariant]
    spec fn inv(&self) -> bool {
        self.lines@.len() == self.size.rows
    }

    /// A frame of `size.rows` empty rows.
    pub fn new(size: TerminalSize) -> (r: Self)
        ensures
            r@.size == size,
            r@.lines == empty_rows(size.rows as nat),
            r@.wf(),
    {
        let mut lines: Vec<FrameLine> = Vec::new();
        let mut i: usize = 0;
        while i < size.rows
            invariant
                i <= size.rows,
                rows_of(lines@) == empty_rows(i as nat),
            decreases size.rows - i,
        {
            let l = FrameLine::new();
            let ghost before = lines@;
            lines.push(l);
            proof {
                assert(rows_of(lines@) =~= rows_of(before).push(l@));
                assert(rows_of(lines@) =~= empty_rows((i + 1) as nat));
            }
            i = i + 1;
        }
        Frame { size, lines }
    }

    pub fn size(&self) -> (r: TerminalSize)
        ensures
            r == self@.size,
            self@.wf(),
    {
        proof {
            use_type_invariant(self);
        }
        self.size
    }

    /// The frame's rows.
    pub fn into_lines(self) -> (r: Vec<FrameLine>)
        ensures
            rows_of(r@) == self@.lines,
    {
        self.lines
    }

    /// The rows to send to the terminal when it shows `prev`: each row of
    /// this frame that differs from `prev`'s row at the same index, or that
    /// `prev` lacks, with its index, in increasing order.
    pub fn diff(&self, prev: &Frame) -> (r: Vec<(usize, FrameLine)>)
        ensures
            r@.len() == dirty_rows(self@.lines, prev@.lines).len(),
            forall|k: int|
                0 <= k < r@.len() ==> #[trigger] r@[k].0 as nat == dirty_rows(self@.lines, prev@.lines)[k]
                    && r@[k].1@ == self@.lines[r@[k].0 as int],
    {
        let ghost a = self@.lines;
        let ghost b = prev@.lines;
        let mut r: Vec<(usize, FrameLine)> = Vec::new();
        let mut i: usize = 0;
        while i < self.lines.len()
            invariant
                a == rows_of(self.lines@),
                b == rows_of(prev.lines@),
                i <= a.len(),
                r@.len() == dirty_rows_below(a, b, i as nat).len(),
                forall|k: int|
                    0 <= k < r@.len() ==> #[trigger] r@[k].0 as nat == dirty_rows_below(a, b, i as nat)[k]
                        && r@[k].1@ == a[r@[k].0 as int],
            decreases a.len() - i,
        {
            let dirty = if i >= prev.lines.len() {
                true
            } else {
                !self.lines[i].same_as(&prev.lines[i])
            };
            if dirty {
                let line = self.lines[i].duplicate();
                r.push((i, line));
            }
            i = i + 1;
        }
        r
    }
}


/// What a canvas holds: the frame it draws into, the drawing cursor, the
/// column offset added to every column drawn, the number of rows scrolled
/// past, and whether drawing below the frame scrolls it.
pub struct CanvasView {
    pub frame: FrameView,
    pub cursor: TerminalPosition,
    pub col_offset: usize,
    pub row_offset: usize,
    pub auto_scroll: bool,
}

/// `a + b`, or `usize::MAX` where that does not fit.
pub open spec fn sat_add(a: usize, b: usize) -> usize {
    if a + b <= usize::MAX {
        (a + b) as usize
    } else {
        usize::MAX
    }
}

/// `a - b`, or zero where `b` is larger.
pub open spec fn sat_sub(a: usize, b: usize) -> usize {
    if a >= b {
        (a - b) as usize
    } else {
        0
    }
}

/// The rows of a frame after scrolling `n` rows: the top rows leave, as many
/// empty rows come in at the bottom.
pub open spec fn scrolled_rows(lines: Seq<Seq<SpanView>>, n: nat) -> Seq<Seq<SpanView>> {
    let k = if n <= lines.len() { n } else { lines.len() };
    lines.skip(k as int) + empty_rows(k)
}

/// A canvas after scrolling `n` rows.
pub open spec fn scroll_spec(c: CanvasView, n: usize) -> CanvasView {
    CanvasView {
        frame: FrameView { size: c.frame.size, lines: scrolled_rows(c.frame.lines, n as nat) },
        row_offset: sat_add(c.row_offset, n),
        ..c
    }
}

/// A row after drawing `t` at column `col`, clipped to `cols` columns.
pub open spec fn draw_clipped(row: Seq<SpanView>, col: nat, t: SpanView, cols: nat) -> Seq<SpanView> {
    split_row(draw_span(row, col, t), cols).0
}

/// A canvas after drawing `t` at absolute position `pos`: rows scrolled past
/// and, without auto-scroll, rows below the frame are dropped; with
/// auto-scroll the frame first scrolls just far enough to show the row. The
/// column offset is added to the column, and the row is clipped to the
/// frame's width. Nothing is drawn into a frame without rows, nor where the
/// span would end past `usize::MAX`.
pub open spec fn draw_at_spec(c: CanvasView, pos: TerminalPosition, t: SpanView) -> CanvasView {
    let rows = c.frame.size.rows;
    if pos.row < c.row_offset || rows == 0 {
        c
    } else {
        let rel = pos.row - c.row_offset;
        if rel >= rows && !c.auto_scroll {
            c
        } else {
            let c1 = if rel >= rows { scroll_spec(c, (rel - rows + 1) as usize) } else { c };
            let col = sat_add(pos.col, c.col_offset);
            let i = pos.row - c1.row_offset;
            if col + span_cols(t) > usize::MAX {
                c1
            } else {
                CanvasView {
                    frame: FrameView {
                        size: c1.frame.size,
                        lines: c1.frame.lines.update(
                            i,
                            draw_clipped(c1.frame.lines[i], col as nat, t, c1.frame.size.cols as nat),
                        ),
                    },
                    ..c1
                }
            }
        }
    }
}

/// A canvas after drawing `t` at its cursor, the cursor moved right by the
/// span's width.
pub open spec fn draw_spec(c: CanvasView, t: SpanView) -> CanvasView {
    CanvasView {
        cursor: TerminalPosition { col: sat_add(c.cursor.col, span_cols(t) as usize), ..c.cursor },
        ..draw_at_spec(c, c.cursor, t)
    }
}

/// A surface that draws spans into a frame at a moving cursor.
#[derive(Debug)]
pub struct Canvas {
    frame: Frame,
    cursor: TerminalPosition,
    col_offset: usize,
    row_offset: usize,
    auto_scroll: bool,
}

impl View for Canvas {
    type V = CanvasView;

    closed spec fn view(&self) -> CanvasView {
        CanvasView {
            frame: self.frame@,
            cursor: self.cursor,
            col_offset: self.col_offset,
            row_offset: self.row_offset,
            auto_scroll: self.auto_scroll,
        }
    }
}

impl Canvas {
    /// A canvas over an empty frame of `frame_size`, cursor at the top left.
    pub fn new(frame_size: TerminalSize) -> (r: Self)
        ensures
            r@.frame.size == frame_size,
            r@.frame.lines == empty_rows(frame_size.rows as nat),
            r@.cursor == (TerminalPosition { row: 0, col: 0 }),
            r@.col_offset == 0,
            r@.row_offset == 0,
            !r@.auto_scroll,
            r@.frame.wf(),
    {
        Canvas {
            frame: Frame::new(frame_size),
            cursor: TerminalPosition::zero(),
            col_offset: 0,
            row_offset: 0,
            auto_scroll: false,
        }
    }

    pub fn frame_size(&self) -> (r: TerminalSize)
        ensures
            r == self@.frame.size,
            self@.frame.wf(),
    {
        proof {
            use_type_invariant(&self.frame);
        }
        self.frame.size()
    }

    /// Whether the cursor has left the frame at the bottom while the canvas
    /// does not scroll: its row, counted from the rows scrolled past (zero
    /// where it lies above them), is at or past the frame's row count.
    pub fn is_frame_exceeded(&self) -> (r: bool)
        ensures
            r == (!self@.auto_scroll && sat_sub(self@.cursor.row, self@.row_offset) >= self@.frame.size.rows),
    {
        if self.auto_scroll {
            false
        } else {
            let rows = self.frame.size().rows;
            self.cursor.row.saturating_sub(self.row_offset) >= rows
        }
    }

    pub fn cursor(&self) -> (r: TerminalPosition)
        ensures
            r == self@.cursor,
    {
        self.cursor
    }

    pub fn set_cursor(&mut self, position: TerminalPosition)
        ensures
            final(self)@ == (CanvasView { cursor: position, ..old(self)@ }),
            final(self)@.frame.wf(),
    {
        proof {
            use_type_invariant(&self.frame);
        }
        self.cursor = position;
    }

    pub fn set_cursor_col(&mut self, col: usize)
        ensures
            final(self)@ == (CanvasView { cursor: TerminalPosition { col, ..old(self)@.cursor }, ..old(self)@ }),
            final(self)@.frame.wf(),
    {
        proof {
            use_type_invariant(&self.frame);
        }
        self.cursor.col = col;
    }

    pub fn set_col_offset(&mut self, offset: usize)
        ensures
            final(self)@ == (CanvasView { col_offset: offset, ..old(self)@ }),
            final(self)@.frame.wf(),
    {
        proof {
            use_type_invariant(&self.frame);
        }
        self.col_offset = offset;
    }

    pub fn set_auto_scroll(&mut self, auto: bool)
        ensures
            final(self)@ == (CanvasView { auto_scroll: auto, ..old(self)@ }),
            final(self)@.frame.wf(),
    {
        proof {
            use_type_invariant(&self.frame);
        }
        self.auto_scroll = auto;
    }

    /// Draws `token` at the cursor and moves the cursor right by its width.
    pub fn draw(&mut self, token: Token)
        ensures
            final(self)@ == draw_spec(old(self)@, token@),
            final(self)@.frame.wf(),
    {
        proof {
            use_type_invariant(&self.frame);
        }
        let cols = token.cols();
        let pos = self.cursor;
        self.draw_at(pos, token);
        self.cursor.col = self.cursor.col.saturating_add(cols);
    }

    /// Draws `token` at the cursor, then moves to the start of the next row.
    pub fn drawln(&mut self, token: Token)
        ensures
            final(self)@ == (CanvasView {
                cursor: TerminalPosition { row: sat_add(old(self)@.cursor.row, 1), col: 0 },
                ..draw_at_spec(old(self)@, old(self)@.cursor, token@)
            }),
            final(self)@.frame.wf(),
    {
        proof {
            use_type_invariant(&self.frame);
        }
        self.draw(token);
        self.newline();
    }

    /// Moves the cursor to the start of the next row.
    pub fn newline(&mut self)
        ensures
            final(self)@ == (CanvasView {
                cursor: TerminalPosition { row: sat_add(old(self)@.cursor.row, 1), col: 0 },
                ..old(self)@
            }),
            final(self)@.frame.wf(),
    {
        proof {
            use_type_invariant(&self.frame);
        }
        self.cursor.row = self.cursor.row.saturating_add(1);
        self.cursor.col = 0;
    }

    /// Draws `token` at the absolute position `position` (see `draw_at_spec`).
    pub fn draw_at(&mut self, position: TerminalPosition, token: Token)
        ensures
            final(self)@ == draw_at_spec(old(self)@, position, token@),
            final(self)@.frame.wf(),
    {
        proof {
            use_type_invariant(&self.frame);
        }
        let rows = self.frame.size().rows;
        if position.row < self.row_offset || rows == 0 {
            return;
        }
        let rel = position.row - self.row_offset;
        if rel >= rows {
            if self.auto_scroll {
                self.scroll(rel - rows + 1);
            } else {
                return;
            }
        }
        let col = position.col.saturating_add(self.col_offset);
        let w = token.cols();
        if w > usize::MAX - col {
            return;
        }
        let i = position.row - self.row_offset;
        let cols = self.frame.size().cols;
        proof {
            use_type_invariant(&self.frame);
        }
        self.frame.draw_into_line(i, col, token, cols);
    }

    /// Puts `line` in the cursor's row of the frame, counted from the top of
    /// the frame, and moves the cursor down a row; past the frame's last row
    /// it does nothing.
    pub fn draw_frame_line(&mut self, line: FrameLine)
        ensures
            old(self)@.cursor.row < old(self)@.frame.lines.len() ==> final(self)@ == (CanvasView {
                frame: FrameView {
                    lines: old(self)@.frame.lines.update(old(self)@.cursor.row as int, line@),
                    ..old(self)@.frame
                },
                cursor: TerminalPosition { row: (old(self)@.cursor.row + 1) as usize, ..old(self)@.cursor },
                ..old(self)@
            }),
            old(self)@.cursor.row >= old(self)@.frame.lines.len() ==> final(self)@ == old(self)@,
            final(self)@.frame.wf(),
    {
        proof {
            use_type_invariant(&self.frame);
        }
        proof {
            use_type_invariant(&self.frame);
        }
        let row = self.cursor.row;
        if self.frame.set_line(row, line) {
            self.cursor.row = row + 1;
        }
    }

    pub fn into_frame(self) -> (r: Frame)
        ensures
            r@ == self@.frame,
            r@.wf(),
    {
        proof {
            use_type_invariant(&self.frame);
        }
        self.frame
    }

    /// Scrolls `n` rows: the top rows of the frame leave, empty rows come in
    /// at the bottom, and the row offset grows by `n`.
    pub fn scroll(&mut self, n: usize)
        ensures
            final(self)@ == scroll_spec(old(self)@, n),
            final(self)@.frame.wf(),
    {
        proof {
            use_type_invariant(&self.frame);
        }
        self.frame.scroll_rows(n);
        self.row_offset = self.row_offset.saturating_add(n);
    }
}

impl Frame {
    /// Draws `token` at column `col` of row `i`, clipped to `cols` columns.
    fn draw_into_line(&mut self, i: usize, col: usize, token: Token, cols: usize)
        requires
            i < old(self)@.lines.len(),
            col + span_cols(token@) <= usize::MAX,
        ensures
            final(self)@ == (FrameView {
                lines: old(self)@.lines.update(i as int, draw_clipped(old(self)@.lines[i as int], col as nat, token@, cols as nat)),
                ..old(self)@
            }),
    {
        proof {
            use_type_invariant(&*self);
        }
        let mut tmp = Frame { size: TerminalSize { rows: 0, cols: 0 }, lines: Vec::new() };
        std::mem::swap(self, &mut tmp);
        let Frame { size, mut lines } = tmp;
        let mut line = lines.remove(i);
        line.draw_token(col, token);
        let _ = line.split_off(cols);
        lines.insert(i, line);
        proof {
            assert(rows_of(lines@) =~= old(self)@.lines.update(i as int, draw_clipped(old(self)@.lines[i as int], col as nat, token@, cols as nat)));
        }
        *self = Frame { size, lines };
    }

    /// Replaces row `i` with `line`; `false`, and nothing changed, where the
    /// frame has no such row.
    fn set_line(&mut self, i: usize, line: FrameLine) -> (r: bool)
        ensures
            r == (i < old(self)@.lines.len()),
            r ==> final(self)@ == (FrameView { lines: old(self)@.lines.update(i as int, line@), ..old(self)@ }),
            !r ==> final(self)@ == old(self)@,
    {
        proof {
            use_type_invariant(&*self);
        }
        if i >= self.lines.len() {
            return false;
        }
        let mut tmp = Frame { size: TerminalSize { rows: 0, cols: 0 }, lines: Vec::new() };
        std::mem::swap(self, &mut tmp);
        let Frame { size, mut lines } = tmp;
        let _ = lines.remove(i);
        lines.insert(i, line);
        proof {
            assert(rows_of(lines@) =~= old(self)@.lines.update(i as int, line@));
        }
        *self = Frame { size, lines };
        true
    }

    /// Drops the top `n` rows (all of them where `n` is larger) and adds as
    /// many empty rows at the bottom.
    fn scroll_rows(&mut self, n: usize)
        ensures
            final(self)@ == (FrameView { lines: scrolled_rows(old(self)@.lines, n as nat), ..old(self)@ }),
    {
        proof {
            use_type_invariant(&*self);
        }
        let mut tmp = Frame { size: TerminalSize { rows: 0, cols: 0 }, lines: Vec::new() };
        std::mem::swap(self, &mut tmp);
        let Frame { size, mut lines } = tmp;
        let len = lines.len();
        let k = if n <= len { n } else { len };
        let mut kept = lines.split_off(k);
        let mut j: usize = 0;
        let ghost ls = rows_of(old(self).lines@);
        proof {
            assert(rows_of(kept@) =~= ls.skip(k as int));
            assert(ls.skip(k as int) + empty_rows(0) =~= ls.skip(k as int));
        }
        while j < k
            invariant
                j <= k,
                k <= ls.len(),
                rows_of(kept@) == ls.skip(k as int) + empty_rows(j as nat),
            decreases k - j,
        {
            let l = FrameLine::new();
            let ghost before = kept@;
            kept.push(l);
            proof {
                assert(rows_of(kept@) =~= rows_of(before).push(l@));
                assert(ls.skip(k as int) + empty_rows((j + 1) as nat) =~= (ls.skip(k as int) + empty_rows(j as nat)).push(l@));
            }
            j = j + 1;
        }
        *self = Frame { size, lines: kept };
    }
}

} // verus!
