//! The result tree view: the navigation cursor, and the renderer that
//! draws files and lines onto a canvas.

use vstd::prelude::*;
use crate::action::{applicable, Action};
use crate::app::{
    down_spec, flipped, left_spec, path_set, paths_contain, right_spec, toggle_all_spec, toggle_spec, up_spec, AppState,
    Focus, GrepFlag,
};
use crate::terminal::TerminalPosition;
use crate::canvas::{draw_spec, empty_rows, rows_of, FrameView, plain_style, sat_add, sat_sub, scroll_spec, Canvas, CanvasView, SpanView, TerminalStyle};
use crate::text::escape_text;
use crate::widget_command_editor::{draw_text, draw_text_spec, newline_spec};
use crate::git::{mame_str_cols, mame_str_cols_of, ContextLines, GrepOptions, Line, SearchResult};
use crate::terminal::TerminalSize;
use crate::text::{chars_of, decimal, decimal_string, push_char, same_text, texts_of};

verus! {

/// Where the cursor stands: on no file, on a file, or on a line of a file.
#[derive(Debug)]
pub struct Cursor {
    pub file: Option<String>,
    pub line_number: Option<usize>,
}

/// What a cursor holds.
pub struct CursorView {
    pub file: Option<Seq<char>>,
    pub line_number: Option<usize>,
}

impl View for Cursor {
    type V = CursorView;

    open spec fn view(&self) -> CursorView {
        CursorView {
            file: match self.file {
                Some(f) => Some(f@),
                None => None,
            },
            line_number: self.line_number,
        }
    }
}

impl CursorView {
    /// A line is selected only within a selected file.
    pub open spec fn wf(self) -> bool {
        self.line_number is Some ==> self.file is Some
    }

    pub open spec fn is_file_level(self) -> bool {
        self.file is Some && self.line_number is None
    }

    pub open spec fn is_line_level(self) -> bool {
        self.line_number is Some
    }
}

impl Cursor {
    /// No selection.
    pub fn new() -> (r: Self)
        ensures
            r@.file is None,
            r@.line_number is None,
    {
        Cursor { file: None, line_number: None }
    }

    /// A file selected, no line.
    pub fn is_file_level(&self) -> (r: bool)
        ensures
            r == self@.is_file_level(),
    {
        self.file.is_some() && self.line_number.is_none()
    }

    /// A line selected.
    pub fn is_line_level(&self) -> (r: bool)
        ensures
            r == self@.is_line_level(),
    {
        self.line_number.is_some()
    }

    /// Whether the cursor is on line `line_number` of `file`.
    pub fn is_line_focused(&self, file: &str, line_number: usize) -> (r: bool)
        ensures
            r == (self@.file == Some(file@) && self@.line_number == Some(line_number)),
    {
        match &self.file {
            Some(f) => same_text(f.as_str(), file) && self.line_number == Some(line_number),
            None => false,
        }
    }

    /// Whether the cursor is on `file` itself, not on one of its lines.
    pub fn is_file_focused(&self, file: &str) -> (r: bool)
        ensures
            r == (self@.is_file_level() && self@.file == Some(file@)),
    {
        if !self.is_file_level() {
            return false;
        }
        match &self.file {
            Some(f) => same_text(f.as_str(), file),
            None => false,
        }
    }
}


/// The first index at or after `i` where `pat` occurs in `text`.
pub open spec fn find_from(text: Seq<char>, pat: Seq<char>, i: nat) -> Option<int>
    decreases text.len() + 1 - i,
{
    if i + pat.len() > text.len() {
        None
    } else if text.subrange(i as int, (i + pat.len()) as int) == pat {
        Some(i as int)
    } else {
        find_from(text, pat, i + 1)
    }
}

/// Finds the first occurrence of `pat` in `text` (`str::find`, by
/// character index).
pub fn find_text(text: &Vec<char>, pat: &Vec<char>) -> (r: Option<usize>)
    ensures
        r matches Some(i) ==> Some(i as int) == find_from(text@, pat@, 0) && i + pat@.len() <= text@.len(),
        r is None ==> find_from(text@, pat@, 0) is None,
{
    let n = text.len();
    let m = pat.len();
    if m > n {
        return None;
    }
    let mut i: usize = 0;
    while i <= n - m
        invariant
            n == text@.len(),
            m == pat@.len(),
            m <= n,
            i <= n - m + 1,
            find_from(text@, pat@, 0) == find_from(text@, pat@, i as nat),
        decreases n - m + 1 - i,
    {
        let mut j: usize = 0;
        while j < m && text[i + j] == pat[j]
            invariant
                n == text@.len(),
                m == pat@.len(),
                i + m <= n,
                j <= m,
                forall|k: int| 0 <= k < j ==> text@[i + k] == pat@[k],
            decreases m - j,
        {
            j = j + 1;
        }
        if j == m {
            proof {
                assert(text@.subrange(i as int, i + m) =~= pat@);
            }
            return Some(i);
        }
        proof {
            assert(text@.subrange(i as int, i + m)[j as int] != pat@[j as int]);
        }
        i = i + 1;
    }
    None
}

/// A canvas after drawing `t` at its cursor and moving to the next row.
pub open spec fn drawln_spec(c: CanvasView, t: SpanView) -> CanvasView {
    CanvasView { cursor: TerminalPosition { row: sat_add(c.cursor.row, 1), col: 0 }, ..draw_spec(c, t) }
}

/// Draws `s` in `style` at the cursor, then moves to the next row.
fn drawln_str(canvas: &mut Canvas, s: &str, style: TerminalStyle)
    ensures
        final(canvas)@.frame.size == old(canvas)@.frame.size,
        s@.len() <= usize::MAX / 6 ==> final(canvas)@ == drawln_spec(old(canvas)@, SpanView { text: escape_text(s@), style }),
{
    draw_text(canvas, s, style);
    canvas.newline();
}

/// `n` in decimal, right-justified in `width` columns.
pub open spec fn justified(n: usize, width: usize) -> Seq<char> {
    if decimal(n as nat).len() < width {
        Seq::new((width - decimal(n as nat).len()) as nat, |i: int| ' ') + decimal(n as nat)
    } else {
        decimal(n as nat)
    }
}

/// `n` in decimal, right-justified in `width` columns.
fn right_justified(n: usize, width: usize) -> (r: String)
    ensures
        r@ == justified(n, width),
{
    let digits = decimal_string(n);
    let len = digits.as_str().unicode_len();
    if len >= width {
        return digits;
    }
    let mut r = String::new();
    let mut k: usize = 0;
    while k < width - len
        invariant
            len < width,
            k <= width - len,
            r@ == Seq::new(k as nat, |i: int| ' '),
        decreases width - len - k,
    {
        proof {
            assert(Seq::new((k + 1) as nat, |i: int| ' ') =~= Seq::new(k as nat, |i: int| ' ').push(' '));
        }
        push_char(&mut r, ' ');
        k = k + 1;
    }
    r.append(digits.as_str());
    r
}

/// `n` spaces.
fn spaces_string(n: usize) -> (r: String)
    ensures
        r@ == Seq::new(n as nat, |i: int| ' '),
{
    let mut r = String::new();
    let mut k: usize = 0;
    while k < n
        invariant
            k <= n,
            r@ == Seq::new(k as nat, |i: int| ' '),
        decreases n - k,
    {
        proof {
            assert(Seq::new((k + 1) as nat, |i: int| ' ') =~= Seq::new(k as nat, |i: int| ' ').push(' '));
        }
        push_char(&mut r, ' ');
        k = k + 1;
    }
    r
}

impl Cursor {
    /// Draws the file-level cursor mark, `-> `, before `file` where the
    /// cursor is on it, else three spaces; says whether it is.
    pub fn render_for_file(&self, canvas: &mut Canvas, file: &str) -> (r: bool)
        ensures
            r == (self@.is_file_level() && self@.file == Some(file@)),
            final(canvas)@ == draw_spec(
                old(canvas)@,
                SpanView { text: escape_text(if r { "-> "@ } else { "   "@ }), style: plain_style() },
            ),
    {
        proof {
            reveal_strlit("-> ");
            reveal_strlit("   ");
        }
        if self.is_file_focused(file) {
            draw_text(canvas, "-> ", TerminalStyle::new());
            true
        } else {
            draw_text(canvas, "   ", TerminalStyle::new());
            false
        }
    }

    /// Draws the line-level cursor mark, `---> `, before line `line_number`
    /// of `file` where the cursor is on it, else five spaces; says whether it
    /// is.
    pub fn render_for_line(&self, canvas: &mut Canvas, file: &str, line_number: usize) -> (r: bool)
        ensures
            r == (self@.file == Some(file@) && self@.line_number == Some(line_number)),
            final(canvas)@ == draw_spec(
                old(canvas)@,
                SpanView { text: escape_text(if r { "---> "@ } else { "     "@ }), style: plain_style() },
            ),
    {
        proof {
            reveal_strlit("---> ");
            reveal_strlit("     ");
        }
        if self.is_line_focused(file, line_number) {
            draw_text(canvas, "---> ", TerminalStyle::new());
            true
        } else {
            draw_text(canvas, "     ", TerminalStyle::new());
            false
        }
    }
}

/// The style of a title row: bold while the result tree has the focus.
pub open spec fn header_style(f: Focus) -> TerminalStyle {
    if f is SearchResult {
        TerminalStyle { bold: true, ..plain_style() }
    } else {
        plain_style()
    }
}

/// The canvas after the matched texts `hits[k..]` are drawn over a line
/// whose unsearched rest starts at character `start` of `text`, the next
/// search starting at column `col`: each text found in the rest is drawn
/// in reverse video at the column where it occurs, and the search goes on
/// after it; a text not found is skipped.
pub open spec fn highlight_spec(
    c: CanvasView,
    text: Seq<char>,
    hits: Seq<Seq<char>>,
    k: nat,
    start: nat,
    col: usize,
) -> CanvasView
    decreases hits.len() - k,
{
    if k >= hits.len() || start > text.len() {
        c
    } else {
        let rest = text.subrange(start as int, text.len() as int);
        match find_from(rest, hits[k as int], 0) {
            None => highlight_spec(c, text, hits, k + 1, start, col),
            Some(i) => {
                let at = sat_add(col, mame_str_cols_of(rest.subrange(0, i)));
                let c1 = draw_text_spec(
                    CanvasView { cursor: TerminalPosition { col: at, ..c.cursor }, ..c },
                    hits[k as int],
                    TerminalStyle { reverse: true, ..plain_style() },
                );
                highlight_spec(c1, text, hits, k + 1, (start + i + hits[k as int].len()) as nat, sat_add(at, mame_str_cols_of(hits[k as int])))
            },
        }
    }
}

/// The canvas cursor has left the frame at the bottom, without auto-scroll.
pub open spec fn exceeded(c: CanvasView) -> bool {
    !c.auto_scroll && sat_sub(c.cursor.row, c.row_offset) >= c.frame.size.rows
}

/// The scroll that brings the canvas cursor's row to the middle of the
/// frame, at most half a frame.
pub open spec fn recenter_rows(c: CanvasView) -> usize {
    let half = c.frame.size.rows / 2;
    if sat_sub(c.cursor.row, half) <= half {
        sat_sub(c.cursor.row, half)
    } else {
        half
    }
}

/// The style of context rows: dim.
pub open spec fn dim_style() -> TerminalStyle {
    TerminalStyle { dim: true, ..plain_style() }
}

/// A context row (drawn dim): indented past the line-number column, then `| ` and the
/// line's text.
pub open spec fn context_text(l: Line, width: usize) -> Seq<char> {
    Seq::new(6, |i: int| ' ') + Seq::new(width as nat, |i: int| ' ') + "| "@ + l.text@
}

/// The canvas after the context rows of `lines[i..end]`.
pub open spec fn context_rows(c: CanvasView, lines: Seq<Line>, i: nat, end: nat, width: usize) -> CanvasView
    decreases end - i,
{
    if i >= end {
        c
    } else {
        context_rows(
            newline_spec(draw_text_spec(c, context_text(lines[i as int], width), dim_style())),
            lines,
            i + 1,
            end,
            width,
        )
    }
}

/// The canvas after the context before line `end`: a blank row, then up to
/// `ctx` lines before it; nothing without context.
pub open spec fn before_spec(c: CanvasView, lines: Seq<Line>, end: nat, ctx: usize, width: usize) -> CanvasView {
    if ctx == 0 {
        c
    } else {
        context_rows(newline_spec(c), lines, if end >= ctx { (end - ctx) as nat } else { 0 }, end, width)
    }
}

/// The canvas after the context after line `cur`: up to `ctx` lines after
/// it, then a blank row; nothing without context.
pub open spec fn after_spec(c: CanvasView, lines: Seq<Line>, cur: nat, ctx: usize, width: usize) -> CanvasView {
    if ctx == 0 {
        c
    } else {
        let end: int = if cur + 1 + ctx <= lines.len() { cur + 1 + ctx } else { lines.len() as int };
        newline_spec(context_rows(c, lines, cur + 1, end as nat, width))
    }
}

/// The canvas after one hit line is drawn (see `render_line`).
pub open spec fn line_spec(c: CanvasView, state: AppState, file: Seq<char>, line: Line) -> CanvasView {
    let on = state.cursor@.file == Some(file) && state.cursor@.line_number == Some(line.number);
    let c1 = draw_spec(c, SpanView { text: escape_text(if on { "---> "@ } else { "     "@ }), style: plain_style() });
    let c2 = if on { recentered(c1) } else { c1 };
    let c3 = draw_text_spec(c2, "["@ + justified(line.number, state.search_result.max_line_width) + "] "@, plain_style());
    let c4 = draw_text_spec(c3, line.text@, plain_style());
    newline_spec(
        highlight_spec(c4, line.text@, texts_of(state.search_result.hit_texts_in_line_spec(file, line.number)), 0, 0, c3.cursor.col),
    )
}

/// The canvas after the hit lines of `lines[i..]` of `file` are drawn,
/// with context around the selected one, until the canvas is exceeded.
pub open spec fn lines_spec(c: CanvasView, state: AppState, file: Seq<char>, lines: Seq<Line>, i: nat) -> CanvasView
    decreases lines.len() - i,
{
    if i >= lines.len() {
        c
    } else if !lines[i as int].hit {
        lines_spec(c, state, file, lines, i + 1)
    } else if exceeded(c) {
        c
    } else {
        let l = lines[i as int];
        let focused = state.cursor@.file == Some(file) && state.cursor@.line_number == Some(l.number);
        let ctx = state.grep.context_lines.0;
        let width = state.search_result.max_line_width;
        let c1 = if focused { before_spec(c, lines, i, ctx, width) } else { c };
        let c2 = line_spec(c1, state, file, l);
        let c3 = if focused { after_spec(c2, lines, i, ctx, width) } else { c2 };
        lines_spec(c3, state, file, lines, i + 1)
    }
}

/// The canvas after the files `files[i..]` of the result are drawn, each
/// with its cursor mark, number, path and counts, then either `…` where it
/// is collapsed or its hit lines, until the canvas is exceeded.
pub open spec fn files_spec(c: CanvasView, state: AppState, i: nat) -> CanvasView
    decreases state.search_result.files@.len() - i,
{
    let files = state.search_result.files@;
    if i >= files.len() || exceeded(c) {
        c
    } else {
        let f = files[i as int];
        let p = f.path@;
        let on = state.cursor@.is_file_level() && state.cursor@.file == Some(p);
        let c1 = draw_spec(c, SpanView { text: escape_text(if on { "-> "@ } else { "   "@ }), style: plain_style() });
        let c2 = if on { recentered(c1) } else { c1 };
        let c3 = draw_text_spec(c2, decimal(i + 1) + "# "@, plain_style());
        let c4 = draw_text_spec(c3, p, TerminalStyle { underline: true, ..plain_style() });
        let c5 = draw_text_spec(
            c4,
            " ("@ + decimal(state.search_result.hit_texts_in_file_spec(p) as nat) + " hits, "@ + decimal(
                state.search_result.hit_lines_in_file_spec(p) as nat,
            ) + " lines)"@,
            plain_style(),
        );
        let c6 = if path_set(state.collapsed@).contains(p) {
            newline_spec(draw_text_spec(c5, "\u{2026}"@, plain_style()))
        } else {
            lines_spec(newline_spec(c5), state, p, f.lines@, 0)
        };
        files_spec(c6, state, i + 1)
    }
}

proof fn lemma_files_spec_done(c: CanvasView, state: AppState, i: nat)
    requires
        i >= state.search_result.files@.len() || exceeded(c),
    ensures
        files_spec(c, state, i) == c,
{
}

/// The header text: the numbers of matched texts, lines and files.
pub open spec fn header_text(r: SearchResult) -> Seq<char> {
    "[RESULT]: "@ + decimal(r.hit_texts_spec() as nat) + " hits, "@ + decimal(r.hit_lines_spec() as nat) + " lines, "@
        + decimal(r.files@.len()) + " files"@
}

/// The canvas after rows `rows[k..]` are put into it from its cursor row
/// down, each moving the cursor a row down; rows past its frame are lost.
pub open spec fn copy_rows(c: CanvasView, rows: Seq<Seq<SpanView>>, k: nat) -> CanvasView
    decreases rows.len() - k,
{
    if k >= rows.len() {
        c
    } else if c.cursor.row < c.frame.lines.len() {
        copy_rows(
            CanvasView {
                frame: FrameView { lines: c.frame.lines.update(c.cursor.row as int, rows[k as int]), ..c.frame },
                cursor: TerminalPosition { row: (c.cursor.row + 1) as usize, ..c.cursor },
                ..c
            },
            rows,
            k + 1,
        )
    } else {
        copy_rows(c, rows, k + 1)
    }
}

/// The scrolling canvas that the tree is drawn into: as wide as `c`'s
/// frame, as high as what is left below `c`'s cursor.
pub open spec fn tree_canvas(c: CanvasView) -> CanvasView {
    let size = TerminalSize { rows: sat_sub(c.frame.size.rows, c.cursor.row), cols: c.frame.size.cols };
    CanvasView {
        frame: FrameView { size, lines: empty_rows(size.rows as nat) },
        cursor: TerminalPosition { row: 0, col: 0 },
        col_offset: 0,
        row_offset: 0,
        auto_scroll: true,
    }
}

/// A canvas scrolled to bring its cursor's row to the middle of the frame,
/// no longer scrolling by itself.
pub open spec fn recentered(c: CanvasView) -> CanvasView {
    scroll_spec(CanvasView { auto_scroll: false, ..c }, recenter_rows(c))
}

/// Draws the result tree: files in order, each with its cursor mark,
/// number, path and counts, then (unless collapsed) its hit lines with
/// their matched texts in reverse video, and context around the selected
/// line.
#[derive(Debug)]
pub struct SearchResultWidget {}

/// What the application must do after an action on the result tree.
#[derive(Debug, Clone, Copy, PartialEq, Eq, Structural)]
pub enum ResultOutcome {
    /// Nothing more.
    Done,
    /// Run the search again with the changed options.
    Search,
}

impl SearchResultWidget {
    pub fn new() -> (r: Self) {
        SearchResultWidget {}
    }

    /// Draws the search result below the canvas cursor: the error where the
    /// search failed, else a header row and the tree, which scrolls to keep
    /// the selection in view.
    pub fn render(&self, state: &AppState, canvas: &mut Canvas)
        ensures
            final(canvas)@.frame.size == old(canvas)@.frame.size,
            state.search_result.error is None ==> ({
                let c1 = newline_spec(draw_text_spec(old(canvas)@, header_text(state.search_result), header_style(state.focus)));
                final(canvas)@ == copy_rows(c1, files_spec(tree_canvas(c1), *state, 0).frame.lines, 0)
            }),
            state.search_result.error matches Some(e) ==> (e@.len() <= usize::MAX / 6 ==> final(canvas)@ == drawln_spec(
                drawln_spec(
                    old(canvas)@,
                    SpanView { text: escape_text("[RESULT]: error"@), style: header_style(state.focus) },
                ),
                SpanView { text: escape_text(e@), style: plain_style() },
            )),
    {
        if let Some(error) = &state.search_result.error {
            self.render_error(state, canvas, error.as_str());
            return;
        }
        self.render_header_line(state, canvas);
        let ghost c1 = canvas@;
        let mut size = canvas.frame_size();
        let row = canvas.cursor().row;
        size.rows = size.rows.saturating_sub(row);
        let mut tmp = Canvas::new(size);
        tmp.set_auto_scroll(true);
        proof {
            assert(tmp@ == tree_canvas(c1));
        }
        self.render_files(state, &mut tmp);
        let mut lines = tmp.into_frame().into_lines();
        let ghost rows = rows_of(lines@);
        let ghost mut k: nat = 0;
        while lines.len() > 0
            invariant
                canvas@.frame.size == old(canvas)@.frame.size,
                k <= rows.len(),
                lines@.len() == rows.len() - k,
                rows_of(lines@) == rows.skip(k as int),
                copy_rows(c1, rows, 0) == copy_rows(canvas@, rows, k),
            decreases lines@.len(),
        {
            let ghost before = lines@;
            let line = lines.remove(0);
            proof {
                assert(rows_of(before)[0] == rows.skip(k as int)[0]);
                assert(line@ == rows[k as int]);
                assert(lines@ =~= before.subrange(1, before.len() as int));
                assert forall|j: int| 0 <= j < lines@.len() implies rows_of(lines@)[j] == rows.skip(k as int + 1)[j] by {
                    assert(rows_of(before)[j + 1] == rows.skip(k as int)[j + 1]);
                }
                assert(rows_of(lines@) =~= rows.skip(k as int + 1));
            }
            canvas.draw_frame_line(line);
            proof {
                k = k + 1;
            }
        }
        proof {
            assert(k == rows.len());
        }
    }

    /// Draws the error row: a title, bold outside editing, then the message.
    fn render_error(&self, state: &AppState, canvas: &mut Canvas, error: &str)
        ensures
            final(canvas)@.frame.size == old(canvas)@.frame.size,
            error@.len() <= usize::MAX / 6 ==> final(canvas)@ == drawln_spec(
                drawln_spec(
                    old(canvas)@,
                    SpanView { text: escape_text("[RESULT]: error"@), style: header_style(state.focus) },
                ),
                SpanView { text: escape_text(error@), style: plain_style() },
            ),
    {
        proof {
            reveal_strlit("[RESULT]: error");
        }
        let style = if state.focus.is_editing() {
            TerminalStyle::new()
        } else {
            TerminalStyle::new().bold()
        };
        drawln_str(canvas, "[RESULT]: error", style);
        drawln_str(canvas, error, TerminalStyle::new());
    }

    /// Draws the header row: the numbers of matched texts, lines and files.
    fn render_header_line(&self, state: &AppState, canvas: &mut Canvas)
        ensures
            final(canvas)@.frame.size == old(canvas)@.frame.size,
            final(canvas)@ == newline_spec(
                draw_text_spec(old(canvas)@, header_text(state.search_result), header_style(state.focus)),
            ),
    {
        let style = if state.focus.is_editing() {
            TerminalStyle::new()
        } else {
            TerminalStyle::new().bold()
        };
        let mut s = "[RESULT]: ".to_owned();
        s.append(decimal_string(state.search_result.hit_texts()).as_str());
        s.append(" hits, ");
        s.append(decimal_string(state.search_result.hit_lines()).as_str());
        s.append(" lines, ");
        s.append(decimal_string(state.search_result.hit_files()).as_str());
        s.append(" files");
        draw_text(canvas, s.as_str(), style);
        canvas.newline();
    }

    /// Draws the files in order, each with its hit lines unless collapsed;
    /// once the cursor has left the frame (without auto-scroll) it draws
    /// nothing more.
    fn render_files(&self, state: &AppState, canvas: &mut Canvas)
        ensures
            final(canvas)@.frame.size == old(canvas)@.frame.size,
            exceeded(old(canvas)@) ==> final(canvas)@ == old(canvas)@,
            final(canvas)@ == files_spec(old(canvas)@, *state, 0),
    {
        let n = state.search_result.files.len();
        let mut i: usize = 0;
        while i < n
            invariant
                n == state.search_result.files@.len(),
                i <= n,
                canvas@.frame.size == old(canvas)@.frame.size,
                exceeded(old(canvas)@) ==> canvas@ == old(canvas)@,
                files_spec(old(canvas)@, *state, 0) == files_spec(canvas@, *state, i as nat),
            ensures
                canvas@.frame.size == old(canvas)@.frame.size,
                exceeded(old(canvas)@) ==> canvas@ == old(canvas)@,
                files_spec(old(canvas)@, *state, 0) == canvas@,
            decreases n - i,
        {
            if canvas.is_frame_exceeded() {
                proof {
                    lemma_files_spec_done(canvas@, *state, i as nat);
                }
                break;
            }
            let f = &state.search_result.files[i];
            let path = f.path.as_str();
            if state.cursor.render_for_file(canvas, path) {
                self.recenter(canvas);
            }
            let mut head = decimal_string(i + 1);
            head.append("# ");
            draw_text(canvas, head.as_str(), TerminalStyle::new());
            draw_text(canvas, path, TerminalStyle::new().underline());
            let mut counts = " (".to_owned();
            counts.append(decimal_string(state.search_result.hit_texts_in_file(path)).as_str());
            counts.append(" hits, ");
            counts.append(decimal_string(state.search_result.hit_lines_in_file(path)).as_str());
            counts.append(" lines)");
            draw_text(canvas, counts.as_str(), TerminalStyle::new());
            if paths_contain(&state.collapsed, path) {
                draw_text(canvas, "\u{2026}", TerminalStyle::new());
                canvas.newline();
            } else {
                canvas.newline();
                self.render_lines(state, canvas, path, &f.lines);
            }
            i = i + 1;
            proof {
                if i == n {
                    lemma_files_spec_done(canvas@, *state, i as nat);
                }
            }
        }
    }

    /// Draws the hit lines of a file, with context around the selected
    /// one; once the cursor has left the frame (without auto-scroll) it
    /// draws nothing more.
    fn render_lines(&self, state: &AppState, canvas: &mut Canvas, file: &str, lines: &Vec<Line>)
        ensures
            final(canvas)@.frame.size == old(canvas)@.frame.size,
            exceeded(old(canvas)@) ==> final(canvas)@ == old(canvas)@,
            final(canvas)@ == lines_spec(old(canvas)@, *state, file@, lines@, 0),
    {
        let mut i: usize = 0;
        while i < lines.len()
            invariant
                i <= lines@.len(),
                canvas@.frame.size == old(canvas)@.frame.size,
                exceeded(old(canvas)@) ==> canvas@ == old(canvas)@,
                lines_spec(old(canvas)@, *state, file@, lines@, 0) == lines_spec(canvas@, *state, file@, lines@, i as nat),
            ensures
                canvas@.frame.size == old(canvas)@.frame.size,
                exceeded(old(canvas)@) ==> canvas@ == old(canvas)@,
                lines_spec(old(canvas)@, *state, file@, lines@, 0) == canvas@,
            decreases lines@.len() - i,
        {
            let line = &lines[i];
            if line.hit {
                if canvas.is_frame_exceeded() {
                    break;
                }
                let focused = state.cursor.is_line_focused(file, line.number);
                if focused {
                    self.render_before_lines(state, canvas, lines, i);
                }
                self.render_line(state, canvas, file, line);
                if focused {
                    self.render_after_lines(state, canvas, lines, i);
                }
            }
            i = i + 1;
        }
    }

    /// Draws one hit line: the line cursor mark (recentering where the
    /// line is selected), the number in brackets, the text, and the matched
    /// texts over it in reverse video.
    fn render_line(&self, state: &AppState, canvas: &mut Canvas, file: &str, line: &Line)
        ensures
            final(canvas)@.frame.size == old(canvas)@.frame.size,
            final(canvas)@ == line_spec(old(canvas)@, *state, file@, *line),
    {
        if state.cursor.render_for_line(canvas, file, line.number) {
            self.recenter(canvas);
        }
        let mut mark = "[".to_owned();
        mark.append(right_justified(line.number, state.search_result.max_line_width).as_str());
        mark.append("] ");
        draw_text(canvas, mark.as_str(), TerminalStyle::new());
        let col_offset = canvas.cursor().col;
        draw_text(canvas, line.text.as_str(), TerminalStyle::new());
        self.highlight_line(state, canvas, file, line, col_offset);
        canvas.newline();
    }

    /// Scrolls so that the cursor's row comes to the middle of the frame,
    /// and stops further scrolling for this pass.
    pub fn recenter(&self, canvas: &mut Canvas)
        ensures
            final(canvas)@ == recentered(old(canvas)@),
    {
        canvas.set_auto_scroll(false);
        let current_row = canvas.cursor().row;
        let frame_rows = canvas.frame_size().rows;
        let half = frame_rows / 2;
        let up = current_row.saturating_sub(half);
        let n = if up <= half { up } else { half };
        canvas.scroll(n);
    }

    /// Draws each matched text of the line again, in reverse video, where it
    /// occurs in the line (see `highlight_spec`); the line's text starts at
    /// column `col_offset`.
    fn highlight_line(&self, state: &AppState, canvas: &mut Canvas, file: &str, line: &Line, col_offset: usize)
        ensures
            final(canvas)@.frame.size == old(canvas)@.frame.size,
            final(canvas)@ == highlight_spec(
                old(canvas)@,
                line.text@,
                texts_of(state.search_result.hit_texts_in_line_spec(file@, line.number)),
                0,
                0,
                col_offset,
            ),
    {
        let hit_texts = state.search_result.hit_texts_in_line(file, line.number);
        let ghost hits = texts_of(hit_texts@);
        let text = chars_of(line.text.as_str());
        let n = text.len();
        let mut start: usize = 0;
        let mut col = col_offset;
        let mut k: usize = 0;
        while k < hit_texts.len()
            invariant
                hits == texts_of(hit_texts@),
                k <= hit_texts@.len(),
                n == line.text@.len(),
                start <= n,
                canvas@.frame.size == old(canvas)@.frame.size,
                highlight_spec(old(canvas)@, line.text@, hits, 0, 0, col_offset) == highlight_spec(
                    canvas@,
                    line.text@,
                    hits,
                    k as nat,
                    start as nat,
                    col,
                ),
            decreases hit_texts@.len() - k,
        {
            let hit = hit_texts[k].as_str();
            let pat = chars_of(hit);
            let rest = line.text.as_str().substring_char(start, n);
            let rest_chars = chars_of(rest);
            proof {
                assert(hits[k as int] == hit@);
            }
            match find_text(&rest_chars, &pat) {
                Some(i) => {
                    let before = rest.substring_char(0, i);
                    col = col.saturating_add(mame_str_cols(before));
                    canvas.set_cursor_col(col);
                    draw_text(canvas, hit, TerminalStyle::new().reverse());
                    col = col.saturating_add(mame_str_cols(hit));
                    start = start + i + pat.len();
                },
                None => {},
            }
            k = k + 1;
        }
    }

    fn render_before_lines(&self, state: &AppState, canvas: &mut Canvas, lines: &Vec<Line>, end: usize)
        requires
            end < lines@.len(),
        ensures
            final(canvas)@.frame.size == old(canvas)@.frame.size,
            final(canvas)@ == before_spec(
                old(canvas)@,
                lines@,
                end as nat,
                state.grep.context_lines.0,
                state.search_result.max_line_width,
            ),
    {
        let context = state.grep.context_lines.0;
        if context == 0 {
            return;
        }
        canvas.newline();
        let start = end.saturating_sub(context);
        let mut i = start;
        let ghost width = state.search_result.max_line_width;
        while i < end
            invariant
                start <= i <= end,
                end < lines@.len(),
                width == state.search_result.max_line_width,
                canvas@.frame.size == old(canvas)@.frame.size,
                before_spec(old(canvas)@, lines@, end as nat, context, width) == context_rows(
                    canvas@,
                    lines@,
                    i as nat,
                    end as nat,
                    width,
                ),
            decreases end - i,
        {
            self.render_context_line(state, canvas, &lines[i]);
            i = i + 1;
        }
    }

    fn render_after_lines(&self, state: &AppState, canvas: &mut Canvas, lines: &Vec<Line>, current: usize)
        requires
            current < lines@.len(),
        ensures
            final(canvas)@.frame.size == old(canvas)@.frame.size,
            final(canvas)@ == after_spec(
                old(canvas)@,
                lines@,
                current as nat,
                state.grep.context_lines.0,
                state.search_result.max_line_width,
            ),
    {
        let context = state.grep.context_lines.0;
        if context == 0 {
            return;
        }
        let n = lines.len();
        let start = current + 1;
        let end = if context <= n - start { start + context } else { n };
        let mut i = start;
        let ghost width = state.search_result.max_line_width;
        let ghost c0 = canvas@;
        while i < end
            invariant
                start <= i <= end,
                end <= lines@.len(),
                width == state.search_result.max_line_width,
                canvas@.frame.size == old(canvas)@.frame.size,
                context_rows(c0, lines@, start as nat, end as nat, width) == context_rows(
                    canvas@,
                    lines@,
                    i as nat,
                    end as nat,
                    width,
                ),
            decreases end - i,
        {
            self.render_context_line(state, canvas, &lines[i]);
            i = i + 1;
        }
        canvas.newline();
    }

    /// One context line: indented past the line-number column, then `| `
    /// and the text.
    fn render_context_line(&self, state: &AppState, canvas: &mut Canvas, line: &Line)
        ensures
            final(canvas)@.frame.size == old(canvas)@.frame.size,
            final(canvas)@ == newline_spec(
                draw_text_spec(old(canvas)@, context_text(*line, state.search_result.max_line_width), dim_style()),
            ),
    {
        let mut s = spaces_string(6);
        s.append(spaces_string(state.search_result.max_line_width).as_str());
        s.append("| ");
        s.append(line.text.as_str());
        draw_text(canvas, s.as_str(), TerminalStyle::new().dim());
        canvas.newline();
    }

    /// Carries out an action on the result tree: the cursor moves and
    /// folding act on the state (see `AppState`); flag flips and context
    /// changes, where they apply, change the options and ask for a new
    /// search; any other action does nothing.
    #[verifier::rlimit(60)]
    pub fn handle_action(&mut self, state: &mut AppState, action: Action) -> (r: ResultOutcome)
        ensures
            match action {
                Action::CursorUp => r == ResultOutcome::Done && final(state).nav() == up_spec(
                    old(state).search_result.files@,
                    old(state).nav(),
                ) && final(state).same_but_nav(old(state)),
                Action::CursorDown => r == ResultOutcome::Done && final(state).nav() == down_spec(
                    old(state).search_result.files@,
                    old(state).nav(),
                ) && final(state).same_but_nav(old(state)),
                Action::CursorRight => r == ResultOutcome::Done && final(state).nav() == right_spec(
                    old(state).search_result.files@,
                    old(state).nav(),
                ) && final(state).same_but_nav(old(state)),
                Action::CursorLeft => r == ResultOutcome::Done && final(state).nav() == left_spec(old(state).nav())
                    && final(state).same_but_nav(old(state)),
                Action::SetFocus(f) => r == ResultOutcome::Done && *final(state) == (AppState { focus: f, ..*old(state) }),
                Action::ToggleExpansion => r == ResultOutcome::Done && final(state).nav() == toggle_spec(old(state).nav())
                    && final(state).same_but_nav(old(state)),
                Action::ToggleAllExpansion => r == ResultOutcome::Done && final(state).nav() == toggle_all_spec(
                    old(state).search_result.files@,
                    old(state).nav(),
                ) && final(state).same_but_nav(old(state)),
                Action::FlipIgnoreCase => r == ResultOutcome::Search && *final(state) == (AppState {
                    grep: flipped(old(state).grep, GrepFlag::IgnoreCase),
                    ..*old(state)
                }),
                Action::FlipWholeWord => r == ResultOutcome::Search && *final(state) == (AppState {
                    grep: flipped(old(state).grep, GrepFlag::WordRegexp),
                    ..*old(state)
                }),
                Action::FlipUntracked => r == ResultOutcome::Search && *final(state) == (AppState {
                    grep: flipped(old(state).grep, GrepFlag::Untracked),
                    ..*old(state)
                }),
                Action::FlipNoIndex => r == ResultOutcome::Search && *final(state) == (AppState {
                    grep: flipped(old(state).grep, GrepFlag::NoIndex),
                    ..*old(state)
                }),
                Action::FlipNoRecursive => r == ResultOutcome::Search && *final(state) == (AppState {
                    grep: flipped(old(state).grep, GrepFlag::NoRecursive),
                    ..*old(state)
                }),
                Action::FlipExtendedRegexp | Action::FlipFixedStrings | Action::FlipPerlRegexp
                | Action::IncreaseContext | Action::DecreaseContext => if applicable(action, *old(state)) {
                    r == ResultOutcome::Search && *final(state) == (AppState {
                        grep: match action {
                            Action::FlipExtendedRegexp => GrepOptions {
                                extended_regexp: !old(state).grep.extended_regexp,
                                ..old(state).grep
                            },
                            Action::FlipFixedStrings => GrepOptions {
                                fixed_strings: !old(state).grep.fixed_strings,
                                ..old(state).grep
                            },
                            Action::FlipPerlRegexp => GrepOptions {
                                perl_regexp: !old(state).grep.perl_regexp,
                                ..old(state).grep
                            },
                            Action::IncreaseContext => GrepOptions {
                                context_lines: ContextLines((old(state).grep.context_lines.0 + 1) as usize),
                                ..old(state).grep
                            },
                            _ => GrepOptions {
                                context_lines: ContextLines((old(state).grep.context_lines.0 - 1) as usize),
                                ..old(state).grep
                            },
                        },
                        ..*old(state)
                    })
                } else {
                    r == ResultOutcome::Done && *final(state) == *old(state)
                },
                _ => r == ResultOutcome::Done && *final(state) == *old(state),
            },
    {
        match action {
            Action::CursorUp => state.cursor_up(),
            Action::CursorDown => state.cursor_down(),
            Action::CursorRight => state.cursor_right(),
            Action::CursorLeft => state.cursor_left(),
            Action::SetFocus(focus) => state.focus = focus,
            Action::ToggleExpansion => state.toggle_expansion(),
            Action::ToggleAllExpansion => state.toggle_all_expansion(),
            Action::FlipIgnoreCase => {
                state.flip_grep_flag(GrepFlag::IgnoreCase);
                return ResultOutcome::Search;
            },
            Action::FlipWholeWord => {
                state.flip_grep_flag(GrepFlag::WordRegexp);
                return ResultOutcome::Search;
            },
            Action::FlipUntracked => {
                state.flip_grep_flag(GrepFlag::Untracked);
                return ResultOutcome::Search;
            },
            Action::FlipNoIndex => {
                state.flip_grep_flag(GrepFlag::NoIndex);
                return ResultOutcome::Search;
            },
            Action::FlipNoRecursive => {
                state.flip_grep_flag(GrepFlag::NoRecursive);
                return ResultOutcome::Search;
            },
            Action::FlipExtendedRegexp => {
                if !(state.grep.fixed_strings || state.grep.perl_regexp) {
                    state.grep.extended_regexp = !state.grep.extended_regexp;
                    return ResultOutcome::Search;
                }
            },
            Action::FlipFixedStrings => {
                if !(state.grep.perl_regexp || state.grep.extended_regexp) {
                    state.grep.fixed_strings = !state.grep.fixed_strings;
                    return ResultOutcome::Search;
                }
            },
            Action::FlipPerlRegexp => {
                if !(state.grep.fixed_strings || state.grep.extended_regexp) {
                    state.grep.perl_regexp = !state.grep.perl_regexp;
                    return ResultOutcome::Search;
                }
            },
            Action::IncreaseContext => {
                if state.cursor.is_line_level() && state.grep.context_lines.0 < ContextLines::max().0 {
                    state.grep.context_lines = ContextLines(state.grep.context_lines.0 + 1);
                    return ResultOutcome::Search;
                }
            },
            Action::DecreaseContext => {
                if state.cursor.is_line_level() && state.grep.context_lines.0 > ContextLines::min().0 {
                    state.grep.context_lines = ContextLines(state.grep.context_lines.0 - 1);
                    return ResultOutcome::Search;
                }
            },
            _ => {},
        }
        ResultOutcome::Done
    }
}

} // verus!
