use mamegrep::app::AppState;
use mamegrep::git::{FileLines, Line, SearchResult};

fn line(number: usize, text: &str, hit: bool) -> Line {
    Line { number, text: text.to_string(), hit }
}

fn file(path: &str, lines: Vec<Line>) -> FileLines {
    FileLines { path: path.to_string(), lines }
}

fn result(files: Vec<FileLines>) -> SearchResult {
    let mut r = SearchResult::empty();
    r.files = files;
    r
}

fn at(state: &AppState) -> (Option<String>, Option<usize>) {
    (state.cursor.file.clone(), state.cursor.line_number)
}

fn select_file(state: &mut AppState, path: &str) {
    state.cursor.file = Some(path.to_string());
    state.cursor.line_number = None;
}

#[test]
fn end_to_end_cursor_scenario() {
    let mut state = AppState::new();
    state.search_result = result(vec![file(
        "x.rs",
        vec![line(1, "foo", true), line(2, "bar", false), line(3, "foo", true)],
    )]);
    select_file(&mut state, "x.rs");
    state.cursor_right();
    assert_eq!(at(&state), (Some("x.rs".to_string()), Some(1)));
    state.cursor_down();
    assert_eq!(at(&state), (Some("x.rs".to_string()), Some(3)));
    state.cursor_down();
    assert_eq!(at(&state), (Some("x.rs".to_string()), Some(3)));
    assert!(!state.can_cursor_down());
    assert!(state.can_cursor_up());
}

#[test]
fn refresh_prefers_nearest_predecessor() {
    let mut state = AppState::new();
    state.cursor.file = Some("b.txt".to_string());
    state.cursor.line_number = Some(10);
    state.set_search_result(result(vec![
        file("a.txt", vec![line(1, "x", true)]),
        file("c.txt", vec![line(1, "x", true)]),
    ]));
    assert_eq!(at(&state), (Some("a.txt".to_string()), None));
}

#[test]
fn refresh_falls_back_to_successor_and_keeps_lines_close() {
    let mut state = AppState::new();
    state.cursor.file = Some("0.txt".to_string());
    state.set_search_result(result(vec![file("a.txt", vec![line(1, "x", true)])]));
    assert_eq!(at(&state), (Some("a.txt".to_string()), None));

    state.cursor.line_number = Some(7);
    state.set_search_result(result(vec![file(
        "a.txt",
        vec![line(3, "x", true), line(6, "y", false), line(9, "z", true)],
    )]));
    assert_eq!(at(&state), (Some("a.txt".to_string()), Some(3)));

    state.cursor.line_number = Some(2);
    state.reset_cursor();
    assert_eq!(at(&state), (Some("a.txt".to_string()), Some(3)));

    state.set_search_result(result(vec![]));
    assert_eq!(at(&state), (None, None));

    state.set_search_result(result(vec![file("q.txt", vec![line(1, "x", true)])]));
    assert_eq!(at(&state), (Some("q.txt".to_string()), None));
}

#[test]
fn down_visits_every_hit_in_order_and_up_retraces() {
    let mut state = AppState::new();
    state.search_result = result(vec![
        file("a", vec![line(1, "", true), line(2, "", false), line(5, "", true)]),
        file("b", vec![line(4, "", false)]),
        file("c", vec![line(2, "", true)]),
    ]);
    select_file(&mut state, "a");
    state.cursor_right();
    let mut seen = vec![at(&state)];
    for _ in 0..5 {
        state.cursor_down();
        seen.push(at(&state));
    }
    let s = |f: &str, n: usize| (Some(f.to_string()), Some(n));
    assert_eq!(seen, vec![s("a", 1), s("a", 5), s("c", 2), s("c", 2), s("c", 2), s("c", 2)]);
    state.cursor_up();
    assert_eq!(at(&state), s("a", 5));
    state.cursor_up();
    assert_eq!(at(&state), s("a", 1));
    state.cursor_up();
    assert_eq!(at(&state), s("a", 1));
}

#[test]
fn file_level_moves_and_collapse_transparency() {
    let mut state = AppState::new();
    state.search_result = result(vec![
        file("a", vec![line(1, "", true)]),
        file("b", vec![line(2, "", true)]),
    ]);
    select_file(&mut state, "a");
    state.cursor_up();
    assert_eq!(at(&state), (Some("a".to_string()), None));
    state.cursor_down();
    assert_eq!(at(&state), (Some("b".to_string()), None));
    state.cursor_down();
    assert_eq!(at(&state), (Some("b".to_string()), None));

    state.collapsed = vec!["a".to_string(), "b".to_string()];
    state.cursor_right();
    assert_eq!(at(&state), (Some("b".to_string()), Some(2)));
    assert_eq!(state.collapsed, vec!["a".to_string()]);
    state.cursor_left();
    assert_eq!(at(&state), (Some("b".to_string()), None));
    assert_eq!(state.collapsed, vec!["a".to_string()]);

    state.cursor_up();
    state.cursor_right();
    state.cursor_down();
    assert_eq!(at(&state), (Some("b".to_string()), Some(2)));
}

#[test]
fn toggles() {
    let mut state = AppState::new();
    state.search_result = result(vec![
        file("a", vec![line(1, "", true)]),
        file("b", vec![line(2, "", true)]),
    ]);
    select_file(&mut state, "a");
    state.toggle_expansion();
    assert_eq!(state.collapsed, vec!["a".to_string()]);
    state.toggle_expansion();
    assert!(state.collapsed.is_empty());

    state.toggle_all_expansion();
    assert_eq!(state.collapsed.len(), 2);
    state.toggle_all_expansion();
    assert!(state.collapsed.is_empty());

    state.cursor_right();
    state.toggle_expansion();
    assert!(state.collapsed.is_empty());
    state.toggle_all_expansion();
    assert_eq!(state.collapsed, vec!["b".to_string()]);
    state.toggle_all_expansion();
    assert!(state.collapsed.is_empty());
}
