use mamegrep::action::Action;
use mamegrep::app::{AppState, Focus};
use mamegrep::canvas::Canvas;
use mamegrep::git::{ContextLines, FileLines, Highlight, Line, SearchResult};
use mamegrep::terminal::TerminalSize;
use mamegrep::widget_command_editor::{CommandEditorWidget, EditError, EditOutcome};
use mamegrep::widget_legend::LegendWidget;
use mamegrep::widget_search_result::{ResultOutcome, SearchResultWidget};

fn sample_state() -> AppState {
    let mut state = AppState::new();
    let mut r = SearchResult::empty();
    r.files = vec![FileLines {
        path: "x.rs".to_string(),
        lines: vec![
            Line { number: 1, text: "foo".to_string(), hit: true },
            Line { number: 2, text: "bar".to_string(), hit: false },
            Line { number: 3, text: "foo".to_string(), hit: true },
        ],
    }];
    state.search_result = r;
    state.cursor.file = Some("x.rs".to_string());
    state
}

fn rendered(state: &AppState, rows: usize) -> Vec<String> {
    let mut canvas = Canvas::new(TerminalSize::rows_cols(rows, 40));
    SearchResultWidget::new().render(state, &mut canvas);
    canvas.into_frame().into_lines().iter().map(|l| l.text()).collect()
}

#[test]
fn renders_files_and_hit_lines() {
    let state = sample_state();
    let rows = rendered(&state, 6);
    assert_eq!(rows[0], "[RESULT]: 0 hits, 0 lines, 1 files");
    assert_eq!(rows[1], "-> 1# x.rs (0 hits, 2 lines)");
    assert_eq!(rows[2], "     [1] foo");
    assert_eq!(rows[3], "     [3] foo");
    assert_eq!(rows[4], "");
}

#[test]
fn renders_context_around_selected_line() {
    let mut state = sample_state();
    state.cursor.line_number = Some(3);
    state.grep.context_lines = ContextLines(1);
    let rows = rendered(&state, 6);
    assert_eq!(rows[0], "[RESULT]: 0 hits, 0 lines, 1 files");
    assert_eq!(rows[2], "       | bar");
    assert_eq!(rows[3], "---> [3] foo");

    let mut canvas = Canvas::new(TerminalSize::rows_cols(6, 40));
    SearchResultWidget::new().render(&state, &mut canvas);
    let lines = canvas.into_frame().into_lines();
    assert!(lines[2].tokens().iter().all(|t| t.style().dim));
    assert!(lines[3].tokens().iter().all(|t| !t.style().dim));
}

#[test]
fn renders_collapsed_file_and_error() {
    let mut state = sample_state();
    state.collapsed = vec!["x.rs".to_string()];
    let rows = rendered(&state, 4);
    assert_eq!(rows[1], "-> 1# x.rs (0 hits, 2 lines)\u{2026}");
    assert_eq!(rows[2], "");

    state.search_result = SearchResult::failed("fatal: bad revision".to_string());
    let rows = rendered(&state, 4);
    assert_eq!(rows[0], "[RESULT]: error");
    assert_eq!(rows[1], "fatal: bad revision");
}

#[test]
fn highlights_matched_texts_in_reverse() {
    let mut state = sample_state();
    let h = Highlight::parse("x.rs\n1:o\n1:o\n").unwrap();
    let mut r = SearchResult::parse("x.rs\n1:foo boo\n", h).unwrap();
    r.max_line_width = 1;
    state.search_result = r;
    let mut canvas = Canvas::new(TerminalSize::rows_cols(4, 40));
    SearchResultWidget::new().render(&state, &mut canvas);
    let lines = canvas.into_frame().into_lines();
    assert_eq!(lines[2].text(), "     [1] foo boo");
    let reversed: Vec<(String, usize)> = {
        let mut col = 0;
        let mut v = Vec::new();
        for t in lines[2].tokens() {
            if t.style().reverse {
                v.push((t.text().to_string(), col));
            }
            col += t.cols();
        }
        v
    };
    assert_eq!(reversed, vec![("o".to_string(), 10), ("o".to_string(), 11)]);
}

#[test]
fn result_actions_flip_flags_and_move() {
    let mut state = sample_state();
    let mut w = SearchResultWidget::new();
    assert_eq!(w.handle_action(&mut state, Action::FlipIgnoreCase), ResultOutcome::Search);
    assert!(state.grep.ignore_case);
    state.grep.fixed_strings = true;
    assert_eq!(w.handle_action(&mut state, Action::FlipPerlRegexp), ResultOutcome::Done);
    assert!(!state.grep.perl_regexp);
    assert_eq!(w.handle_action(&mut state, Action::IncreaseContext), ResultOutcome::Done);
    assert_eq!(w.handle_action(&mut state, Action::CursorRight), ResultOutcome::Done);
    assert_eq!(state.cursor.line_number, Some(1));
    assert_eq!(w.handle_action(&mut state, Action::IncreaseContext), ResultOutcome::Search);
    assert_eq!(state.grep.context_lines, ContextLines(5));
    assert_eq!(w.handle_action(&mut state, Action::SetFocus(Focus::Pattern)), ResultOutcome::Done);
    assert_eq!(state.focus, Focus::Pattern);
}

#[test]
fn editor_inserts_moves_and_deletes() {
    let mut state = AppState::new();
    let mut e = CommandEditorWidget::new();
    assert_eq!(e.handle_action(&mut state, Action::InsertChar), Err(EditError::NotEditing));
    state.focus = Focus::Pattern;
    e.handle_focus_change(&state);
    for c in ['a', 'b', 'c'] {
        state.last_input_char = c;
        assert_eq!(e.handle_action(&mut state, Action::InsertChar), Ok(EditOutcome::Done));
    }
    assert_eq!(state.grep.pattern.text, "abc");
    assert_eq!(e.index, 3);
    e.handle_action(&mut state, Action::MoveBackward).unwrap();
    e.handle_action(&mut state, Action::DeleteBackward).unwrap();
    assert_eq!(state.grep.pattern.text, "ac");
    assert_eq!(e.index, 1);
    e.handle_action(&mut state, Action::DeleteChar).unwrap();
    assert_eq!(state.grep.pattern.text, "a");
    e.handle_action(&mut state, Action::MoveToStart).unwrap();
    assert_eq!(e.index, 0);
    e.handle_action(&mut state, Action::MoveToEnd).unwrap();
    assert_eq!(e.index, 1);
    assert_eq!(e.handle_action(&mut state, Action::AcceptInput), Ok(EditOutcome::Search));
    assert_eq!(state.focus, Focus::SearchResult);
}

#[test]
fn editor_cursor_position_and_wrapping() {
    let mut state = AppState::new();
    state.grep.pattern.text = "foo".to_string();
    state.grep.path.text = "src".to_string();
    state.focus = Focus::Pattern;
    let mut e = CommandEditorWidget::new();
    e.handle_focus_change(&state);
    e.set_available_cols(80);
    assert!(!e.is_multiline(&state));
    e.update_cursor_position(&mut state);
    let p = state.show_terminal_cursor.unwrap();
    assert_eq!((p.row, p.col), (1, 5 + 1 + 4 + 1 + 3 + 1 + 3));
    e.set_available_cols(10);
    assert!(e.is_multiline(&state));
    e.update_cursor_position(&mut state);
    let p = state.show_terminal_cursor.unwrap();
    assert_eq!((p.row, p.col), (2, 5 + 1 + 3));
    state.focus = Focus::SearchResult;
    e.update_cursor_position(&mut state);
    assert!(state.show_terminal_cursor.is_none());

    let mut canvas = Canvas::new(TerminalSize::rows_cols(4, 40));
    e.set_available_cols(80);
    e.render(&state, &mut canvas);
    let rows: Vec<String> = canvas.into_frame().into_lines().iter().map(|l| l.text()).collect();
    assert_eq!(rows[0], "[COMMAND]");
    assert_eq!(rows[1], "$ git grep -nI foo -- src");
}

#[test]
fn action_applicability() {
    let mut state = sample_state();
    assert!(Action::CursorRight.is_applicable(&state));
    assert!(!Action::CursorLeft.is_applicable(&state));
    assert!(!Action::CursorDown.is_applicable(&state));
    assert!(!Action::InsertChar.is_applicable(&state));
    assert!(!Action::FlipCaseSensitive.is_applicable(&state));
    state.cursor_right();
    assert!(Action::CursorDown.is_applicable(&state));
    assert!(Action::IncreaseContext.is_applicable(&state));
    state.grep.extended_regexp = true;
    assert!(!Action::FlipFixedStrings.is_applicable(&state));
    assert!(Action::FlipExtendedRegexp.is_flag_set(&state));
    assert!(!Action::Quit.is_flag_set(&state));
}

#[test]
fn legend_title_and_room() {
    let mut l = LegendWidget::new();
    l.label_show = "show".to_string();
    l.label_hide = "hide".to_string();
    assert_eq!(l.title(), "hide");
    assert_eq!(l.remaining_cols(80, 20), 60);
    assert_eq!(l.remaining_cols(10, 20), 10);
    l.toggle();
    assert_eq!(l.title(), "show");
    assert_eq!(l.remaining_cols(80, 20), 80);
}
