//! The command-line editor: the `git grep` command shown at the top of the
//! screen, and the editing of its arguments.

use vstd::prelude::*;
use crate::action::Action;
use crate::app::{AppState, Focus};
use crate::canvas::{draw_spec, plain_style, sat_add, Canvas, CanvasView, SpanView, TerminalStyle, Token};
use crate::text::escape_text;
use crate::git::{arg_view, args_view, focused_kind, grep_args, mame_str_cols, mame_str_cols_of, shown_view, ArgView, GrepArg, Mode};
use crate::terminal::TerminalPosition;

verus! {

/// Where the arguments start on the command line: after `$ git`.
pub const COL_OFFSET: usize = 5;

/// The screen row of the command line.
pub const ROW_OFFSET: usize = 1;

/// What the application must do after an editing action.
#[derive(Debug, Clone, Copy, PartialEq, Eq, Structural)]
pub enum EditOutcome {
    /// Nothing more.
    Done,
    /// Run the search again with the edited arguments.
    Search,
}

/// Why an editing action could not be carried out.
#[derive(Debug, Clone, Copy, PartialEq, Eq, Structural)]
pub enum EditError {
    /// The action edits an argument, and none has the focus.
    NotEditing,
}

/// The state of the command-line editor: the text of the argument before
/// editing began, the cursor index in the argument (in characters), and the
/// columns the command line may take.
#[derive(Debug)]
pub struct CommandEditorWidget {
    pub text_before_edit: String,
    pub index: usize,
    pub available_cols: usize,
}

/// `new` is `old` with the focused argument's text replaced by `t`.
pub open spec fn edited(old: AppState, new: AppState, t: Seq<char>) -> bool {
    &&& old.focused_arg() matches Some(a)
    &&& new.focused_arg() matches Some(b)
    &&& b.text@ == t
    &&& b.kind == a.kind
    &&& b.multiline_head == a.multiline_head
    &&& new == old.with_focused_arg(b)
}

/// Columns that the arguments take on one line, each after a space.
pub open spec fn args_cols(args: Seq<ArgView>, focus: Focus) -> nat
    decreases args.len(),
{
    if args.len() == 0 {
        0
    } else {
        args_cols(args.drop_last(), focus) + mame_str_cols_of(shown_view(args.last(), focus)) as nat + 1
    }
}

/// Where the terminal cursor goes: scanning the arguments from `i` at
/// position `pos`, the first focused argument gets the cursor after the
/// first `index` characters of its text.
pub open spec fn cursor_scan(
    args: Seq<ArgView>,
    focus: Focus,
    multiline: bool,
    index: usize,
    i: nat,
    pos: TerminalPosition,
) -> Option<TerminalPosition>
    decreases args.len() - i,
{
    if i >= args.len() {
        None
    } else {
        let a = args[i as int];
        let p1 = if multiline && a.multiline_head {
            TerminalPosition { row: sat_add(pos.row, 1), col: COL_OFFSET }
        } else {
            pos
        };
        let p2 = TerminalPosition { col: sat_add(p1.col, 1), ..p1 };
        if focused_kind(a.kind, focus) {
            let end = if index <= a.text.len() { index as int } else { a.text.len() as int };
            Some(TerminalPosition { col: sat_add(p2.col, mame_str_cols_of(a.text.subrange(0, end))), ..p2 })
        } else {
            cursor_scan(args, focus, multiline, index, i + 1, TerminalPosition { col: sat_add(p2.col, mame_str_cols_of(shown_view(a, focus))), ..p2 })
        }
    }
}

impl CommandEditorWidget {
    /// An editor at the start of an empty argument, with no room.
    pub fn new() -> (r: Self)
        ensures
            r.text_before_edit@.len() == 0,
            r.index == 0,
            r.available_cols == 0,
    {
        CommandEditorWidget { text_before_edit: String::new(), index: 0, available_cols: 0 }
    }

    pub fn set_available_cols(&mut self, cols: usize)
        ensures
            final(self).available_cols == cols,
            final(self).index == old(self).index,
            final(self).text_before_edit == old(self).text_before_edit,
    {
        self.available_cols = cols;
    }

    /// When an argument takes the focus: remember its text, and put the
    /// cursor at its end.
    pub fn handle_focus_change(&mut self, state: &AppState)
        ensures
            state.focused_arg() matches Some(a) ==> final(self).text_before_edit@ == a.text@ && final(self).index
                == a.text@.len() && final(self).available_cols == old(self).available_cols,
            state.focused_arg() is None ==> *final(self) == *old(self),
    {
        let arg = match state.focus {
            Focus::SearchResult => return,
            Focus::Pattern => &state.grep.pattern,
            Focus::AndPattern => &state.grep.and_pattern,
            Focus::NotPattern => &state.grep.not_pattern,
            Focus::Revision => &state.grep.revision,
            Focus::Path => &state.grep.path,
        };
        self.text_before_edit = arg.text.clone();
        self.index = arg.len();
    }

    /// Carries out an editing action on the focused argument (see
    /// `edit_step`).
    ///
    /// `AcceptInput` ends editing and asks for a new search. An action that
    /// edits fails where no argument has the focus; any other action does
    /// nothing.
    pub fn handle_action(&mut self, state: &mut AppState, action: Action) -> (r: Result<EditOutcome, EditError>)
        requires
            old(state).focused_arg() matches Some(a) ==> old(self).index <= a.text@.len() && a.text@.len()
                < usize::MAX,
        ensures
            final(self).available_cols == old(self).available_cols,
            final(self).text_before_edit == old(self).text_before_edit,
            match action {
                Action::AcceptInput => r == Ok::<EditOutcome, EditError>(EditOutcome::Search) && *final(state)
                    == (AppState { focus: Focus::SearchResult, ..*old(state) }) && final(self).index == old(self).index,
                Action::MoveToStart => r == Ok::<EditOutcome, EditError>(EditOutcome::Done) && *final(state)
                    == *old(state) && final(self).index == 0,
                _ => if edits(action) {
                    match old(state).focused_arg() {
                        None => r == Err::<EditOutcome, EditError>(EditError::NotEditing) && *final(state)
                            == *old(state) && final(self).index == old(self).index,
                        Some(a) => r == Ok::<EditOutcome, EditError>(EditOutcome::Done) && edit_step(
                            action,
                            a.text@,
                            *old(state),
                            *final(state),
                            old(self).index,
                            final(self).index,
                        ),
                    }
                } else {
                    r == Ok::<EditOutcome, EditError>(EditOutcome::Done) && *final(state) == *old(state)
                        && final(self).index == old(self).index
                },
            },
    {
        match action {
            Action::AcceptInput => {
                state.focus = Focus::SearchResult;
                Ok(EditOutcome::Search)
            },
            Action::MoveToStart => {
                self.index = 0;
                Ok(EditOutcome::Done)
            },
            Action::InsertChar => self.insert_char(state),
            Action::DeleteBackward => self.delete_backward(state),
            Action::DeleteChar => self.delete_char(state),
            Action::MoveBackward | Action::CursorLeft => self.move_backward(state),
            Action::MoveForward | Action::CursorRight => self.move_forward(state),
            Action::MoveToEnd => self.move_to_end(state),
            _ => Ok(EditOutcome::Done),
        }
    }

    fn insert_char(&mut self, state: &mut AppState) -> (r: Result<EditOutcome, EditError>)
        requires
            old(state).focused_arg() matches Some(a) ==> old(self).index <= a.text@.len() && a.text@.len()
                < usize::MAX,
        ensures
            final(self).available_cols == old(self).available_cols,
            final(self).text_before_edit == old(self).text_before_edit,
            step_result(Action::InsertChar, r, *old(state), *final(state), old(self).index, final(self).index),
    {
        let c = state.last_input_char;
        let i = self.index;
        match state.focused_arg_mut() {
            Some(arg) => {
                arg.insert(i, c);
            },
            None => return Err(EditError::NotEditing),
        }
        self.index = i + 1;
        Ok(EditOutcome::Done)
    }

    fn delete_backward(&mut self, state: &mut AppState) -> (r: Result<EditOutcome, EditError>)
        requires
            old(state).focused_arg() matches Some(a) ==> old(self).index <= a.text@.len(),
        ensures
            final(self).available_cols == old(self).available_cols,
            final(self).text_before_edit == old(self).text_before_edit,
            step_result(Action::DeleteBackward, r, *old(state), *final(state), old(self).index, final(self).index),
    {
        let i = self.index;
        match state.focused_arg_mut() {
            Some(arg) => {
                if arg.prev_char(i).is_some() {
                    let _ = arg.remove(i - 1);
                    self.index = i - 1;
                }
            },
            None => return Err(EditError::NotEditing),
        }
        Ok(EditOutcome::Done)
    }

    fn delete_char(&mut self, state: &mut AppState) -> (r: Result<EditOutcome, EditError>)
        ensures
            final(self).available_cols == old(self).available_cols,
            final(self).text_before_edit == old(self).text_before_edit,
            step_result(Action::DeleteChar, r, *old(state), *final(state), old(self).index, final(self).index),
    {
        let i = self.index;
        match state.focused_arg_mut() {
            Some(arg) => {
                if i < arg.len() {
                    let _ = arg.remove(i);
                }
            },
            None => return Err(EditError::NotEditing),
        }
        Ok(EditOutcome::Done)
    }

    fn move_backward(&mut self, state: &mut AppState) -> (r: Result<EditOutcome, EditError>)
        requires
            old(state).focused_arg() matches Some(a) ==> old(self).index <= a.text@.len(),
        ensures
            final(self).available_cols == old(self).available_cols,
            final(self).text_before_edit == old(self).text_before_edit,
            step_result(Action::MoveBackward, r, *old(state), *final(state), old(self).index, final(self).index),
    {
        let i = self.index;
        match state.focused_arg_mut() {
            Some(arg) => {
                if arg.prev_char(i).is_some() {
                    self.index = i - 1;
                }
            },
            None => return Err(EditError::NotEditing),
        }
        Ok(EditOutcome::Done)
    }

    fn move_forward(&mut self, state: &mut AppState) -> (r: Result<EditOutcome, EditError>)
        requires
            old(state).focused_arg() matches Some(a) ==> old(self).index <= a.text@.len() && a.text@.len()
                < usize::MAX,
        ensures
            final(self).available_cols == old(self).available_cols,
            final(self).text_before_edit == old(self).text_before_edit,
            step_result(Action::MoveForward, r, *old(state), *final(state), old(self).index, final(self).index),
    {
        let i = self.index;
        match state.focused_arg_mut() {
            Some(arg) => {
                if arg.next_char(i).is_some() {
                    self.index = i + 1;
                }
            },
            None => return Err(EditError::NotEditing),
        }
        Ok(EditOutcome::Done)
    }

    fn move_to_end(&mut self, state: &mut AppState) -> (r: Result<EditOutcome, EditError>)
        ensures
            final(self).available_cols == old(self).available_cols,
            final(self).text_before_edit == old(self).text_before_edit,
            step_result(Action::MoveToEnd, r, *old(state), *final(state), old(self).index, final(self).index),
    {
        let i = self.index;
        match state.focused_arg_mut() {
            Some(arg) => {
                let n = arg.len();
                if i < n {
                    self.index = n;
                }
            },
            None => return Err(EditError::NotEditing),
        }
        Ok(EditOutcome::Done)
    }
}

/// Actions that edit the focused argument or move in it.
pub open spec fn edits(a: Action) -> bool {
    a is InsertChar || a is DeleteBackward || a is DeleteChar || a is MoveBackward || a is CursorLeft
        || a is MoveForward || a is CursorRight || a is MoveToEnd
}

/// One editing step on an argument with text `t` and cursor index `i`:
/// inserting the last typed character at the cursor and moving past it;
/// deleting the character before the cursor (moving back) or at it; moving
/// one character back or forward, or to the end; where there is no such
/// character, nothing changes.
pub open spec fn edit_step(a: Action, t: Seq<char>, old: AppState, new: AppState, i: usize, j: usize) -> bool {
    match a {
        Action::InsertChar => edited(old, new, t.insert(i as int, old.last_input_char)) && j == i + 1,
        Action::DeleteBackward => if i > 0 {
            edited(old, new, t.remove(i - 1)) && j == i - 1
        } else {
            new == old && j == i
        },
        Action::DeleteChar => if i < t.len() {
            edited(old, new, t.remove(i as int)) && j == i
        } else {
            new == old && j == i
        },
        Action::MoveBackward | Action::CursorLeft => new == old && j == if i > 0 { (i - 1) as usize } else { i },
        Action::MoveForward | Action::CursorRight => new == old && j == if i < t.len() { (i + 1) as usize } else { i },
        _ => new == old && j == if i < t.len() { t.len() as usize } else { i },
    }
}

/// The outcome of an editing step: it fails, changing nothing, where no
/// argument has the focus, else it is `edit_step`.
pub open spec fn step_result(
    a: Action,
    r: Result<EditOutcome, EditError>,
    old: AppState,
    new: AppState,
    i: usize,
    j: usize,
) -> bool {
    match old.focused_arg() {
        None => r == Err::<EditOutcome, EditError>(EditError::NotEditing) && new == old && j == i,
        Some(x) => r == Ok::<EditOutcome, EditError>(EditOutcome::Done) && edit_step(a, x.text@, old, new, i, j),
    }
}


/// A canvas moved to the start of its next row.
pub open spec fn newline_spec(c: CanvasView) -> CanvasView {
    CanvasView { cursor: TerminalPosition { row: sat_add(c.cursor.row, 1), col: 0 }, ..c }
}

/// The canvas after the arguments `args[k..]` are drawn, each after a
/// space and in bold where it is the focused one; where the line wraps, an
/// argument that allows it starts a new row at the argument column.
pub open spec fn args_render_spec(c: CanvasView, args: Seq<ArgView>, focus: Focus, multiline: bool, k: nat) -> CanvasView
    decreases args.len() - k,
{
    if k >= args.len() {
        c
    } else {
        let a = args[k as int];
        let c1 = if multiline && a.multiline_head {
            CanvasView { cursor: TerminalPosition { col: COL_OFFSET, ..newline_spec(c).cursor }, ..newline_spec(c) }
        } else {
            c
        };
        let style = if focused_kind(a.kind, focus) { TerminalStyle { bold: true, ..plain_style() } } else { plain_style() };
        args_render_spec(draw_text_spec(c1, " "@ + shown_view(a, focus), style), args, focus, multiline, k + 1)
    }
}

impl CommandEditorWidget {
    /// Whether the command line is wider than the room it has, so that it
    /// wraps before the arguments that allow it.
    pub fn is_multiline(&self, state: &AppState) -> (r: bool)
        ensures
            r == (COL_OFFSET + args_cols(grep_args(state.grep, Mode::External, state.focus), state.focus) > self.available_cols),
    {
        let args = state.grep.args(state.focus);
        let ghost av = args_view(args@);
        let mut cols: usize = COL_OFFSET;
        let mut big = false;
        let mut i: usize = 0;
        proof {
            assert(av.take(0) =~= Seq::<ArgView>::empty());
        }
        while i < args.len()
            invariant
                av == args_view(args@),
                i <= av.len(),
                !big ==> cols as nat == COL_OFFSET + args_cols(av.take(i as int), state.focus),
                big ==> COL_OFFSET + args_cols(av.take(i as int), state.focus) > usize::MAX,
            decreases av.len() - i,
        {
            proof {
                assert(av.take(i + 1).drop_last() =~= av.take(i as int));
                assert(av.take(i + 1).last() == av[i as int]);
                assert(av[i as int] == arg_view(args@[i as int]));
            }
            let w = args[i].width(state.focus);
            if !big {
                if w >= usize::MAX - cols {
                    big = true;
                } else {
                    cols = cols + w + 1;
                }
            }
            i = i + 1;
        }
        proof {
            assert(av.take(i as int) =~= av);
        }
        big || cols > self.available_cols
    }

    /// Shows the terminal cursor in the focused argument while editing,
    /// hides it otherwise (see `cursor_scan`).
    pub fn update_cursor_position(&self, state: &mut AppState)
        ensures
            final(state).show_terminal_cursor == if old(state).focus is SearchResult {
                None
            } else {
                match cursor_scan(
                    grep_args(old(state).grep, Mode::External, old(state).focus),
                    old(state).focus,
                    COL_OFFSET + args_cols(grep_args(old(state).grep, Mode::External, old(state).focus), old(state).focus)
                        > self.available_cols,
                    self.index,
                    0,
                    TerminalPosition { row: ROW_OFFSET, col: COL_OFFSET },
                ) {
                    Some(p) => Some(p),
                    None => old(state).show_terminal_cursor,
                }
            },
            final(state).grep == old(state).grep,
            final(state).focus == old(state).focus,
            final(state).nav() == old(state).nav(),
            final(state).search_result == old(state).search_result,
    {
        if !state.focus.is_editing() {
            state.show_terminal_cursor = None;
            return;
        }
        let multiline = self.is_multiline(state);
        let args = state.grep.args(state.focus);
        let ghost av = args_view(args@);
        let mut pos = TerminalPosition::row_col(ROW_OFFSET, COL_OFFSET);
        let mut i: usize = 0;
        while i < args.len()
            invariant
                av == args_view(args@),
                av == grep_args(old(state).grep, Mode::External, old(state).focus),
                state.grep == old(state).grep,
                state.focus == old(state).focus,
                state.nav() == old(state).nav(),
                state.search_result == old(state).search_result,
                state.show_terminal_cursor == old(state).show_terminal_cursor,
                multiline == (COL_OFFSET + args_cols(av, state.focus) > self.available_cols),
                i <= av.len(),
                cursor_scan(av, state.focus, multiline, self.index, 0, TerminalPosition { row: ROW_OFFSET, col: COL_OFFSET })
                    == cursor_scan(av, state.focus, multiline, self.index, i as nat, pos),
            decreases av.len() - i,
        {
            let arg = &args[i];
            proof {
                assert(av[i as int] == arg_view(args@[i as int]));
            }
            if multiline && arg.multiline_head {
                pos.row = pos.row.saturating_add(1);
                pos.col = COL_OFFSET;
            }
            pos.col = pos.col.saturating_add(1);
            if arg.kind.is_focused(state.focus) {
                let n = arg.len();
                let end = if self.index <= n { self.index } else { n };
                let head = arg.text.as_str().substring_char(0, end);
                pos.col = pos.col.saturating_add(mame_str_cols(head));
                state.show_terminal_cursor = Some(pos);
                return;
            } else {
                pos.col = pos.col.saturating_add(arg.width(state.focus));
            }
            i = i + 1;
        }
    }

    /// Draws the command line: a title row, then `$ git` and the arguments,
    /// the focused one in bold, wrapping where the line is too wide (see
    /// `args_render_spec`).
    pub fn render(&self, state: &AppState, canvas: &mut Canvas)
        ensures
            final(canvas)@.frame.size == old(canvas)@.frame.size,
            final(canvas)@ == newline_spec(
                args_render_spec(
                    draw_text_spec(
                        newline_spec(
                            if state.focus is SearchResult {
                                draw_text_spec(old(canvas)@, "[COMMAND]"@, plain_style())
                            } else {
                                draw_text_spec(
                                    old(canvas)@,
                                    "[COMMAND]: editing\u{2026}"@,
                                    TerminalStyle { bold: true, ..plain_style() },
                                )
                            },
                        ),
                        "$ git"@,
                        plain_style(),
                    ),
                    grep_args(state.grep, Mode::External, state.focus),
                    state.focus,
                    COL_OFFSET + args_cols(grep_args(state.grep, Mode::External, state.focus), state.focus)
                        > self.available_cols,
                    0,
                ),
            ),
    {
        if state.focus.is_editing() {
            draw_text(canvas, "[COMMAND]: editing\u{2026}", TerminalStyle::new().bold());
        } else {
            draw_text(canvas, "[COMMAND]", TerminalStyle::new());
        }
        canvas.newline();
        draw_text(canvas, "$ git", TerminalStyle::new());
        let args = state.grep.args(state.focus);
        self.render_grep_args(state, canvas, &args);
    }

    fn render_grep_args(&self, state: &AppState, canvas: &mut Canvas, args: &Vec<GrepArg>)
        ensures
            final(canvas)@.frame.size == old(canvas)@.frame.size,
            final(canvas)@ == newline_spec(
                args_render_spec(
                    old(canvas)@,
                    args_view(args@),
                    state.focus,
                    COL_OFFSET + args_cols(grep_args(state.grep, Mode::External, state.focus), state.focus)
                        > self.available_cols,
                    0,
                ),
            ),
    {
        let multiline = self.is_multiline(state);
        let ghost av = args_view(args@);
        let mut i: usize = 0;
        while i < args.len()
            invariant
                av == args_view(args@),
                i <= args@.len(),
                canvas@.frame.size == old(canvas)@.frame.size,
                args_render_spec(old(canvas)@, av, state.focus, multiline, 0) == args_render_spec(
                    canvas@,
                    av,
                    state.focus,
                    multiline,
                    i as nat,
                ),
            decreases args@.len() - i,
        {
            let arg = &args[i];
            proof {
                assert(av[i as int] == arg_view(args@[i as int]));
            }
            let focused = arg.kind.is_focused(state.focus);
            if multiline && arg.multiline_head {
                canvas.newline();
                canvas.set_cursor_col(COL_OFFSET);
            }
            let style = if focused {
                TerminalStyle::new().bold()
            } else {
                TerminalStyle::new()
            };
            let mut text = " ".to_owned();
            let shown = arg.maybe_quoted_text(state.focus);
            text.append(shown.as_str());
            draw_text(canvas, text.as_str(), style);
            i = i + 1;
        }
        canvas.newline();
    }
}

/// Draws `s` in `style` at the cursor (see `draw_text_spec`).
pub fn draw_text(canvas: &mut Canvas, s: &str, style: TerminalStyle)
    ensures
        final(canvas)@.frame.size == old(canvas)@.frame.size,
        final(canvas)@ == draw_text_spec(old(canvas)@, s@, style),
{
    if s.unicode_len() <= usize::MAX / 6 {
        canvas.draw(Token::with_style(s, style));
    }
}

/// A canvas after drawing text `s` in `style` at its cursor; text too
/// long for a span is not drawn.
pub open spec fn draw_text_spec(c: CanvasView, s: Seq<char>, style: TerminalStyle) -> CanvasView {
    if s.len() <= usize::MAX / 6 {
        draw_spec(c, SpanView { text: escape_text(s), style })
    } else {
        c
    }
}

} // verus!
