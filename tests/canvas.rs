use mamegrep::canvas::{Frame, FrameLine, TerminalStyle, Token};
use mamegrep::terminal::{TerminalPosition, TerminalSize};
use mamegrep::canvas::Canvas;

#[test]
fn frame_line() {
    let mut line = FrameLine::new();

    line.draw_token(2, Token::new("foo"));
    assert_eq!(line.text(), "  foo");

    line.draw_token(4, Token::new("bar"));
    assert_eq!(line.text(), "  fobar");

    line.draw_token(7, Token::new("baz"));
    assert_eq!(line.text(), "  fobarbaz");

    line.draw_token(6, Token::new("qux"));
    assert_eq!(line.text(), "  fobaquxz");

    // Control chars are escaped.
    line.draw_token(0, Token::new("0\n1"));
    assert_eq!(line.text(), "0\\n1baquxz");
}

#[test]
fn escapes_other_control_chars() {
    let t = Token::new("a\u{1b}b\tc\u{7f}");
    assert_eq!(t.text(), "a\\u{1b}b\\tc\\u{7f}");
    assert_eq!(t.cols(), 17);
}

#[test]
fn wide_chars_count_two_columns() {
    assert_eq!(Token::new("あい").cols(), 4);
    assert_eq!(Token::new("abc").cols(), 3);
    assert_eq!(Token::new("").cols(), 0);
}

#[test]
fn split_inside_wide_char_pads_with_filler() {
    let mut t = Token::with_style("aあb", TerminalStyle::new().bold());
    let prefix = t.split_prefix_off(2);
    assert_eq!(prefix.text(), "a…");
    assert_eq!(prefix.cols(), 2);
    assert_eq!(t.text(), "b");
    assert_eq!(t.cols(), 1);
    assert!(prefix.style().bold);
    assert!(t.style().bold);
}

#[test]
fn split_on_boundary_and_out_of_range() {
    let mut t = Token::new("aあb");
    let prefix = t.split_prefix_off(3);
    assert_eq!(prefix.text(), "aあ");
    assert_eq!(t.text(), "b");

    let mut t = Token::new("abc");
    let prefix = t.split_prefix_off(10);
    assert_eq!(prefix.text(), "abc");
    assert_eq!(t.text(), "");

    let mut t = Token::new("abc");
    let prefix = t.split_prefix_off(0);
    assert_eq!(prefix.text(), "");
    assert_eq!(t.text(), "abc");
}

#[test]
fn draw_over_wide_chars_keeps_columns() {
    let mut line = FrameLine::new();
    line.draw_token(0, Token::new("あいう"));
    assert_eq!(line.cols(), 6);
    line.draw_token(1, Token::new("x"));
    assert_eq!(line.text(), "…xいう");
    assert_eq!(line.cols(), 6);
    line.draw_token(3, Token::new("yz"));
    assert_eq!(line.text(), "…x…yz");
    assert_eq!(line.cols(), 5);
}

#[test]
fn draw_past_end_pads_with_spaces() {
    let mut line = FrameLine::new();
    line.draw_token(3, Token::new("a"));
    assert_eq!(line.text(), "   a");
    assert_eq!(line.cols(), 4);
    assert_eq!(line.tokens().len(), 2);
}

#[test]
fn split_off_row() {
    let mut line = FrameLine::new();
    line.draw_token(0, Token::new("abc"));
    line.draw_token(3, Token::new("def"));
    let rest = line.split_off(4);
    assert_eq!(line.text(), "abcd");
    assert_eq!(rest.text(), "ef");
}

#[test]
fn diff_yields_changed_rows_only() {
    let size = TerminalSize::rows_cols(3, 10);
    let mut a = Canvas::new(size);
    a.draw_at(TerminalPosition::row_col(1, 0), Token::new("x"));
    let a = a.into_frame();
    let b = Frame::new(size);
    let d = a.diff(&b);
    assert_eq!(d.len(), 1);
    assert_eq!(d[0].0, 1);
    assert_eq!(d[0].1.text(), "x");

    let same = Frame::new(size);
    assert!(same.diff(&b).is_empty());

    let small = Frame::new(TerminalSize::rows_cols(1, 10));
    let grown = Frame::new(size).diff(&small);
    let rows: Vec<usize> = grown.iter().map(|(i, _)| *i).collect();
    assert_eq!(rows, vec![1, 2]);
}

#[test]
fn style_changes_count_as_differences() {
    let size = TerminalSize::rows_cols(1, 10);
    let mut a = Canvas::new(size);
    a.draw(Token::new("x"));
    let mut b = Canvas::new(size);
    b.draw(Token::with_style("x", TerminalStyle::new().reverse()));
    assert_eq!(a.into_frame().diff(&b.into_frame()).len(), 1);
}

#[test]
fn canvas_clips_and_scrolls() {
    let mut c = Canvas::new(TerminalSize::rows_cols(2, 4));
    c.drawln(Token::new("abcdef"));
    assert_eq!(c.cursor(), TerminalPosition::row_col(1, 0));
    c.draw(Token::new("xy"));
    assert_eq!(c.cursor().col, 2);
    assert!(!c.is_frame_exceeded());
    c.newline();
    assert!(c.is_frame_exceeded());
    c.draw(Token::new("lost"));
    let lines = c.into_frame().into_lines();
    assert_eq!(lines[0].text(), "abcd");
    assert_eq!(lines[1].text(), "xy");

    let mut c = Canvas::new(TerminalSize::rows_cols(2, 4));
    c.set_auto_scroll(true);
    c.draw_at(TerminalPosition::row_col(0, 0), Token::new("a"));
    c.draw_at(TerminalPosition::row_col(3, 0), Token::new("d"));
    let lines = c.into_frame().into_lines();
    assert_eq!(lines[0].text(), "");
    assert_eq!(lines[1].text(), "d");
}

#[test]
fn canvas_col_offset_and_frame_lines() {
    let mut c = Canvas::new(TerminalSize::rows_cols(2, 10));
    c.set_col_offset(3);
    c.draw(Token::new("a"));
    let mut line = FrameLine::new();
    line.draw_token(0, Token::new("row"));
    c.set_cursor(TerminalPosition::row_col(1, 0));
    c.draw_frame_line(line);
    assert_eq!(c.cursor().row, 2);
    let lines = c.into_frame().into_lines();
    assert_eq!(lines[0].text(), "   a");
    assert_eq!(lines[1].text(), "row");
}

#[test]
fn exceeded_when_scrolled_past_cursor() {
    let mut c = Canvas::new(TerminalSize::rows_cols(0, 10));
    c.scroll(1);
    assert!(c.is_frame_exceeded());
    let mut c = Canvas::new(TerminalSize::rows_cols(2, 10));
    assert!(!c.is_frame_exceeded());
    c.set_auto_scroll(true);
    c.newline();
    c.newline();
    assert!(!c.is_frame_exceeded());
}
