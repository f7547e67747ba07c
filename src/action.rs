//! The actions that key bindings trigger, and when each applies.

use vstd::prelude::*;
use crate::app::{down_file, down_line, up_file, up_line, AppState, Focus};

verus! {

/// What a key binding asks for.
#[derive(Debug)]
pub enum Action {
    Quit,
    ToggleLegend,
    InitLegend { hide: bool, label_show: String, label_hide: String },
    SetFocus(Focus),
    CursorUp,
    CursorDown,
    CursorLeft,
    CursorRight,
    ToggleExpansion,
    ToggleAllExpansion,
    FlipCaseSensitive,
    FlipWholeWord,
    FlipIgnoreCase,
    FlipUntracked,
    FlipNoIndex,
    FlipNoRecursive,
    FlipExtendedRegexp,
    FlipFixedStrings,
    FlipPerlRegexp,
    DecreaseContext,
    IncreaseContext,
    DeleteChar,
    DeleteBackward,
    InsertChar,
    MoveToStart,
    MoveToEnd,
    MoveForward,
    MoveBackward,
    DeleteToEnd,
    AcceptInput,
}

impl Clone for Action {
    fn clone(&self) -> (r: Self)
        ensures
            r == *self,
    {
        match self {
            Action::Quit => Action::Quit,
            Action::ToggleLegend => Action::ToggleLegend,
            Action::InitLegend { hide, label_show, label_hide } => Action::InitLegend {
                hide: *hide,
                label_show: label_show.clone(),
                label_hide: label_hide.clone(),
            },
            Action::SetFocus(f) => Action::SetFocus(*f),
            Action::CursorUp => Action::CursorUp,
            Action::CursorDown => Action::CursorDown,
            Action::CursorLeft => Action::CursorLeft,
            Action::CursorRight => Action::CursorRight,
            Action::ToggleExpansion => Action::ToggleExpansion,
            Action::ToggleAllExpansion => Action::ToggleAllExpansion,
            Action::FlipCaseSensitive => Action::FlipCaseSensitive,
            Action::FlipWholeWord => Action::FlipWholeWord,
            Action::FlipIgnoreCase => Action::FlipIgnoreCase,
            Action::FlipUntracked => Action::FlipUntracked,
            Action::FlipNoIndex => Action::FlipNoIndex,
            Action::FlipNoRecursive => Action::FlipNoRecursive,
            Action::FlipExtendedRegexp => Action::FlipExtendedRegexp,
            Action::FlipFixedStrings => Action::FlipFixedStrings,
            Action::FlipPerlRegexp => Action::FlipPerlRegexp,
            Action::DecreaseContext => Action::DecreaseContext,
            Action::IncreaseContext => Action::IncreaseContext,
            Action::DeleteChar => Action::DeleteChar,
            Action::DeleteBackward => Action::DeleteBackward,
            Action::InsertChar => Action::InsertChar,
            Action::MoveToStart => Action::MoveToStart,
            Action::MoveToEnd => Action::MoveToEnd,
            Action::MoveForward => Action::MoveForward,
            Action::MoveBackward => Action::MoveBackward,
            Action::DeleteToEnd => Action::DeleteToEnd,
            Action::AcceptInput => Action::AcceptInput,
        }
    }
}

/// Whether the flag that `a` flips is set; `false` for an action that
/// flips no flag.
pub open spec fn flag_set(a: Action, s: AppState) -> bool {
    match a {
        Action::FlipIgnoreCase => s.grep.ignore_case,
        Action::FlipUntracked => s.grep.untracked,
        Action::FlipNoIndex => s.grep.no_index,
        Action::FlipNoRecursive => s.grep.no_recursive,
        Action::FlipWholeWord => s.grep.word_regexp,
        Action::FlipFixedStrings => s.grep.fixed_strings,
        Action::FlipExtendedRegexp => s.grep.extended_regexp,
        Action::FlipPerlRegexp => s.grep.perl_regexp,
        _ => false,
    }
}

/// Whether the cursor can move up.
pub open spec fn can_move_up(s: AppState) -> bool {
    s.cursor@.is_file_level() && up_file(s.search_result.files@, s.cursor@.file->0) is Some || s.cursor@.is_line_level()
        && s.cursor@.file is Some && up_line(s.search_result.files@, s.cursor@.file->0, s.cursor@.line_number->0) is Some
}

/// Whether the cursor can move down.
pub open spec fn can_move_down(s: AppState) -> bool {
    s.cursor@.is_file_level() && down_file(s.search_result.files@, s.cursor@.file->0) is Some || s.cursor@.is_line_level()
        && s.cursor@.file is Some && down_line(s.search_result.files@, s.cursor@.file->0, s.cursor@.line_number->0) is Some
}

/// Whether `a` does anything in state `s`: editing actions while editing,
/// moves where the cursor can move, context changes at line level within
/// their bounds, and regular-expression flavours that exclude each other
/// only while the others are off.
pub open spec fn applicable(a: Action, s: AppState) -> bool {
    match a {
        Action::Quit | Action::ToggleLegend | Action::InitLegend { .. } | Action::SetFocus(_)
        | Action::FlipIgnoreCase | Action::FlipUntracked | Action::FlipNoIndex | Action::FlipNoRecursive
        | Action::FlipWholeWord => true,
        Action::AcceptInput | Action::InsertChar | Action::DeleteBackward | Action::DeleteChar
        | Action::DeleteToEnd | Action::MoveToStart | Action::MoveToEnd | Action::MoveForward
        | Action::MoveBackward => !(s.focus is SearchResult),
        Action::CursorUp => can_move_up(s),
        Action::CursorDown => can_move_down(s),
        Action::CursorLeft => s.cursor@.is_line_level(),
        Action::CursorRight => s.cursor@.is_file_level(),
        Action::ToggleExpansion => s.cursor@.is_file_level(),
        Action::ToggleAllExpansion => s.search_result.files@.len() > 0,
        Action::IncreaseContext => s.cursor@.is_line_level() && s.grep.context_lines.0 < 9,
        Action::DecreaseContext => s.cursor@.is_line_level() && s.grep.context_lines.0 > 0,
        Action::FlipFixedStrings => !(s.grep.perl_regexp || s.grep.extended_regexp),
        Action::FlipExtendedRegexp => !(s.grep.fixed_strings || s.grep.perl_regexp),
        Action::FlipPerlRegexp => !(s.grep.fixed_strings || s.grep.extended_regexp),
        Action::FlipCaseSensitive => false,
    }
}

impl Action {
    /// Whether the flag that this action flips is set (see `flag_set`).
    pub fn is_flag_set(&self, state: &AppState) -> (r: bool)
        ensures
            r == flag_set(*self, *state),
    {
        match self {
            Action::FlipIgnoreCase => state.grep.ignore_case,
            Action::FlipUntracked => state.grep.untracked,
            Action::FlipNoIndex => state.grep.no_index,
            Action::FlipNoRecursive => state.grep.no_recursive,
            Action::FlipWholeWord => state.grep.word_regexp,
            Action::FlipFixedStrings => state.grep.fixed_strings,
            Action::FlipExtendedRegexp => state.grep.extended_regexp,
            Action::FlipPerlRegexp => state.grep.perl_regexp,
            _ => false,
        }
    }

    /// Whether this action does anything in `state` (see `applicable`).
    pub fn is_applicable(&self, state: &AppState) -> (r: bool)
        ensures
            r == applicable(*self, *state),
    {
        match self {
            Action::Quit | Action::ToggleLegend | Action::InitLegend { .. } | Action::SetFocus(_)
            | Action::FlipIgnoreCase | Action::FlipUntracked | Action::FlipNoIndex
            | Action::FlipNoRecursive | Action::FlipWholeWord => true,
            Action::AcceptInput | Action::InsertChar | Action::DeleteBackward | Action::DeleteChar
            | Action::DeleteToEnd | Action::MoveToStart | Action::MoveToEnd | Action::MoveForward
            | Action::MoveBackward => state.focus.is_editing(),
            Action::CursorUp => state.can_cursor_up(),
            Action::CursorDown => state.can_cursor_down(),
            Action::CursorLeft => state.cursor.is_line_level(),
            Action::CursorRight => state.cursor.is_file_level(),
            Action::ToggleExpansion => state.cursor.is_file_level(),
            Action::ToggleAllExpansion => !state.search_result.is_empty(),
            Action::IncreaseContext => state.cursor.is_line_level() && state.grep.context_lines.0
                < crate::git::ContextLines::max().0,
            Action::DecreaseContext => state.cursor.is_line_level() && state.grep.context_lines.0
                > crate::git::ContextLines::min().0,
            Action::FlipFixedStrings => !(state.grep.perl_regexp || state.grep.extended_regexp),
            Action::FlipExtendedRegexp => !(state.grep.fixed_strings || state.grep.perl_regexp),
            Action::FlipPerlRegexp => !(state.grep.fixed_strings || state.grep.extended_regexp),
            Action::FlipCaseSensitive => false,
        }
    }
}

} // verus!
