use mamegrep::app::Focus;
use mamegrep::git::{GrepArg, GrepArgKind, GrepOptions, Highlight, Line, Mode, SearchResult};

#[test]
fn parse_search_result() {
    let output = r#"src/canvas.rs
315:        line.draw_token(2, Token::new("foo"));
316:        assert_eq!(line.text(), "  foo");
"#;
    let result = SearchResult::parse(output, Highlight::default()).unwrap();
    assert_eq!(result.files.len(), 1);

    let lines = result.lines_in_file("src/canvas.rs").unwrap();
    assert_eq!(lines.len(), 2);

    assert_eq!(lines[0].number, 315);
    assert_eq!(
        lines[0].text,
        r#"        line.draw_token(2, Token::new("foo"));"#
    );

    assert_eq!(lines[1].number, 316);
    assert_eq!(
        lines[1].text,
        r#"        assert_eq!(line.text(), "  foo");"#
    );
}

#[test]
fn parse_highlight() {
    let output = r#"src/canvas.rs
315:40:foo
316:36:foo
src/git.rs
151:44:foo
152:40:foo
166:55:foo
172:51:foo"#;
    let highlight = Highlight::parse(output).unwrap();
    assert_eq!(highlight.files.len(), 2);
}

#[test]
fn parse_context_lines_and_separators() {
    let output = "b.rs\n1-ctx\n2:hit\n--\n10:again\na.rs\n3:x\n";
    let r = SearchResult::parse(output, Highlight::default()).unwrap();
    assert_eq!(r.files.len(), 2);
    assert_eq!(r.files[0].path, "a.rs");
    assert_eq!(r.files[1].path, "b.rs");
    let b = r.lines_in_file("b.rs").unwrap();
    assert_eq!(b.len(), 3);
    assert!(!b[0].hit);
    assert!(b[1].hit);
    assert_eq!(b[2].number, 10);
    assert_eq!(r.max_line_width, 2);
    assert_eq!(r.hit_lines_in_file("b.rs"), 2);
    assert_eq!(r.hit_lines_in_file("c.rs"), 0);
}

#[test]
fn parse_fails_on_line_before_any_file() {
    assert!(SearchResult::parse("1:x\n", Highlight::default()).is_err());
    assert!(Highlight::parse("1:x\n").is_err());
}

#[test]
fn parse_line_forms() {
    let l = Line::parse("12:a:b").unwrap();
    assert_eq!((l.number, l.text.as_str(), l.hit), (12, "a:b", true));
    let l = Line::parse("007-x").unwrap();
    assert_eq!((l.number, l.hit), (7, false));
    assert!(Line::parse("0:x").is_none());
    assert!(Line::parse(":x").is_none());
    assert!(Line::parse("12").is_none());
    assert!(Line::parse("1a:x").is_none());
    assert!(Line::parse("99999999999999999999999:x").is_none());
}

#[test]
fn highlight_counts() {
    let h = Highlight::parse("a.rs\n1:foo\n1:bar\n2:foo\nb.rs\n5:x\n").unwrap();
    let r = SearchResult::parse("a.rs\n1:foo bar\n2:foo\nb.rs\n5:x\n", h).unwrap();
    assert_eq!(r.hit_files(), 2);
    assert_eq!(r.hit_lines(), 3);
    assert_eq!(r.hit_texts(), 4);
    assert_eq!(r.hit_texts_in_file("a.rs"), 3);
    assert_eq!(r.hit_texts_in_line("a.rs", 1).len(), 2);
    assert_eq!(r.hit_texts_in_line("a.rs", 3).len(), 0);
    assert_eq!(r.hit_texts_in_line("z.rs", 1).len(), 0);
}

#[test]
fn quoting_for_the_shell() {
    let mut a = GrepArg::new(GrepArgKind::Pattern);
    assert_eq!(a.quoted_text(), "''");
    a.text = "foo".to_string();
    assert_eq!(a.quoted_text(), "foo");
    a.text = "a b".to_string();
    assert_eq!(a.quoted_text(), "'a b'");
    a.text = "it's".to_string();
    assert_eq!(a.quoted_text(), "'it'\\'s'");
    assert_eq!(a.maybe_quoted_text(Focus::Pattern), "it's");
    assert_eq!(a.maybe_quoted_text(Focus::SearchResult), "'it'\\'s'");
}

#[test]
fn editing_an_argument() {
    let mut a = GrepArg::new(GrepArgKind::Pattern);
    a.insert(0, 'b');
    a.insert(0, 'あ');
    a.insert(2, 'c');
    assert_eq!(a.text, "あbc");
    assert_eq!(a.len(), 3);
    assert_eq!(a.next_char(0), Some('あ'));
    assert_eq!(a.prev_char(1), Some('あ'));
    assert_eq!(a.next_char(3), None);
    assert_eq!(a.remove(1), Some('b'));
    assert_eq!(a.remove(5), None);
    assert_eq!(a.text, "あc");
    assert_eq!(a.width(Focus::Pattern), 3);
}

#[test]
fn grep_args_for_each_mode() {
    let mut o = GrepOptions::default();
    o.pattern.text = "foo".to_string();
    o.ignore_case = true;
    let texts = |m: Mode, f: Focus| -> Vec<String> {
        o.build_grep_args(m, f).into_iter().map(|a| a.text).collect()
    };
    assert_eq!(texts(Mode::External, Focus::SearchResult), vec!["grep", "-nIi", "foo"]);
    assert_eq!(
        texts(Mode::Parsing, Focus::SearchResult),
        vec!["grep", "-nIi", "--heading", "-C", "4", "foo"]
    );
    assert_eq!(
        texts(Mode::Highlight, Focus::SearchResult),
        vec!["grep", "-nIi", "-o", "--heading", "foo"]
    );
    assert_eq!(
        texts(Mode::External, Focus::Path),
        vec!["grep", "-nIi", "foo", "--", ""]
    );
    let args = o.args(Focus::SearchResult);
    assert!(args[2].multiline_head);
}

#[test]
fn grep_args_with_and_not_revision() {
    let mut o = GrepOptions::default();
    o.pattern.text = "a".to_string();
    o.and_pattern.text = "b".to_string();
    o.not_pattern.text = "c".to_string();
    o.revision.text = "HEAD".to_string();
    o.word_regexp = true;
    o.untracked = true;
    let texts: Vec<String> = o.args(Focus::SearchResult).into_iter().map(|a| a.text).collect();
    assert_eq!(
        texts,
        vec![
            "grep", "-nIw", "--untracked", "-e", "a", "--and", "-e", "b", "--and", "--not", "-e",
            "c", "HEAD", "--"
        ]
    );
}

#[test]
fn files_are_ordered_by_path_components() {
    let r = SearchResult::parse("src-b/x\n1:a\nsrc/a\n2:b\nsrc\n3:c\n", Highlight::default()).unwrap();
    let paths: Vec<&str> = r.files.iter().map(|f| f.path.as_str()).collect();
    assert_eq!(paths, vec!["src", "src/a", "src-b/x"]);
}

#[test]
fn highlight_lines_are_one_per_number() {
    let h = Highlight::parse("a.rs\n3:x\n1:y\n3:z\n").unwrap();
    let numbers: Vec<usize> = h.files[0].lines.iter().map(|l| l.number).collect();
    assert_eq!(numbers, vec![1, 3]);
    assert_eq!(h.files[0].lines[1].texts, vec!["x".to_string(), "z".to_string()]);
}
