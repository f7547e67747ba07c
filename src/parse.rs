//! Reading the output of `git grep --heading`: a line holding a path starts
//! a file, and each following `number:text` (hit) or `number-text`
//! (context) line belongs to it.

use vstd::prelude::*;
use crate::git::{paths_sorted, FileLines, Highlight, HighlightFile, HighlightLine, Line, SearchResult};
use crate::text::{chars_of, decimal, decimal_string, lines_of, same_text, split_lines, path_less, path_lt, texts_of};

verus! {

/// What a result line holds.
pub struct LineView {
    pub number: usize,
    pub text: Seq<char>,
    pub hit: bool,
}

impl View for Line {
    type V = LineView;

    open spec fn view(&self) -> LineView {
        LineView { number: self.number, text: self.text@, hit: self.hit }
    }
}

/// A decimal digit.
pub open spec fn is_digit(c: char) -> bool {
    '0' <= c && c <= '9'
}

/// The number that a run of decimal digits writes (leading zeros allowed).
pub open spec fn digits_value(d: Seq<char>) -> nat
    decreases d.len(),
{
    if d.len() == 0 {
        0
    } else {
        digits_value(d.drop_last()) * 10 + ((d.last() as u32) - ('0' as u32)) as nat
    }
}

/// The index of the first character at or after `i` that is no digit.
pub open spec fn first_non_digit(l: Seq<char>, i: nat) -> Option<int>
    decreases l.len() - i,
{
    if i >= l.len() {
        None
    } else if !is_digit(l[i as int]) {
        Some(i as int)
    } else {
        first_non_digit(l, i + 1)
    }
}

/// A result line: digits, then `:` for a hit or `-` for a context line,
/// then the text. The number is positive and fits in `usize`.
pub open spec fn parse_line(l: Seq<char>) -> Option<LineView> {
    match first_non_digit(l, 0) {
        None => None,
        Some(i) => {
            let v = digits_value(l.subrange(0, i));
            if (l[i] == ':' || l[i] == '-') && 1 <= v <= usize::MAX {
                Some(LineView { number: v as usize, text: l.subrange(i + 1, l.len() as int), hit: l[i] == ':' })
            } else {
                None
            }
        }
    }
}

proof fn lemma_digits_value_push(d: Seq<char>, c: char)
    ensures
        digits_value(d.push(c)) == digits_value(d) * 10 + ((c as u32) - ('0' as u32)) as nat,
{
    assert(d.push(c).drop_last() =~= d);
}

impl Line {
    /// Reads a result line (see `parse_line`); `None` for any other line.
    pub fn parse(line: &str) -> (r: Option<Line>)
        ensures
            r matches Some(l) ==> parse_line(line@) == Some(l@),
            r is None ==> parse_line(line@) is None,
    {
        let chars = chars_of(line);
        let n = chars.len();
        let mut acc: usize = 0;
        let mut big = false;
        let mut i: usize = 0;
        proof {
            assert(line@.subrange(0, 0) =~= Seq::<char>::empty());
        }
        while i < n
            invariant
                chars@ == line@,
                n == line@.len(),
                i <= n,
                first_non_digit(line@, 0) == first_non_digit(line@, i as nat),
                forall|j: int| 0 <= j < i ==> is_digit(#[trigger] line@[j]),
                !big ==> acc as nat == digits_value(line@.subrange(0, i as int)),
                big ==> digits_value(line@.subrange(0, i as int)) > usize::MAX,
            decreases n - i,
        {
            let c = chars[i];
            if c == ':' || c == '-' {
                if i == 0 || big || acc == 0 {
                    return None;
                }
                let text = line.substring_char(i + 1, n).to_owned();
                return Some(Line { number: acc, text, hit: c == ':' });
            }
            if !('0' <= c && c <= '9') {
                return None;
            }
            let d = (c as u32 - '0' as u32) as usize;
            proof {
                assert(line@.subrange(0, i + 1) =~= line@.subrange(0, i as int).push(c));
                lemma_digits_value_push(line@.subrange(0, i as int), c);
            }
            if !big {
                if acc > (usize::MAX - d) / 10 {
                    big = true;
                } else {
                    acc = acc * 10 + d;
                }
            }
            i = i + 1;
        }
        None
    }
}

/// A result tree as plain values: each file's path and lines.
pub open spec fn tree_of(files: Seq<FileLines>) -> Seq<(Seq<char>, Seq<LineView>)> {
    files.map_values(|f: FileLines| (f.path@, f.lines@.map_values(|l: Line| l@)))
}

/// Where path `p` goes in a tree kept in path order: the first entry whose
/// path does not come before `p`.
pub open spec fn slot_from<T>(t: Seq<(Seq<char>, T)>, p: Seq<char>, k: nat) -> nat
    decreases t.len() - k,
{
    if k >= t.len() {
        t.len()
    } else if !path_lt(t[k as int].0, p) {
        k
    } else {
        slot_from(t, p, k + 1)
    }
}

/// The tree with an empty entry for `p` at its place in path order; an
/// entry already there for `p` is emptied.
pub open spec fn start_entry<T>(t: Seq<(Seq<char>, Seq<T>)>, p: Seq<char>) -> Seq<(Seq<char>, Seq<T>)> {
    let k = slot_from(t, p, 0) as int;
    if k < t.len() && t[k].0 == p {
        t.update(k, (p, Seq::empty()))
    } else {
        t.insert(k, (p, Seq::empty()))
    }
}

/// The index of the first entry for path `p`.
pub open spec fn entry_from<T>(t: Seq<(Seq<char>, T)>, p: Seq<char>, k: nat) -> Option<int>
    decreases t.len() - k,
{
    if k >= t.len() {
        None
    } else if t[k as int].0 == p {
        Some(k as int)
    } else {
        entry_from(t, p, k + 1)
    }
}

/// Reading result lines in order: the tree so far, the current path and the
/// widest line number (in digits); `None` once a line belongs to no file.
pub open spec fn parse_result_lines(ls: Seq<Seq<char>>) -> Option<(Seq<(Seq<char>, Seq<LineView>)>, Seq<char>, nat)>
    decreases ls.len(),
{
    if ls.len() == 0 {
        Some((Seq::empty(), Seq::empty(), 1))
    } else {
        match parse_result_lines(ls.drop_last()) {
            None => None,
            Some((t, cur, w)) => {
                let l = ls.last();
                if l == "--"@ {
                    Some((t, cur, w))
                } else {
                    match parse_line(l) {
                        Some(x) => match entry_from(t, cur, 0) {
                            Some(k) => Some((
                                t.update(k, (cur, t[k].1.push(x))),
                                cur,
                                if decimal(x.number as nat).len() > w { decimal(x.number as nat).len() } else { w },
                            )),
                            None => None,
                        },
                        None => Some((start_entry(t, l), l, w)),
                    }
                }
            }
        }
    }
}

proof fn lemma_entry_from<T>(t: Seq<(Seq<char>, T)>, p: Seq<char>, k: nat)
    ensures
        entry_from(t, p, k) matches Some(i) ==> k <= i < t.len() && t[i].0 == p,
    decreases t.len() - k,
{
    if k < t.len() {
        lemma_entry_from(t, p, k + 1);
    }
}

/// Once reading fails, reading more lines fails too.
proof fn lemma_parse_fails_on(ls: Seq<Seq<char>>, j: nat)
    requires
        j <= ls.len(),
        parse_result_lines(ls.take(j as int)) is None,
    ensures
        parse_result_lines(ls) is None,
    decreases ls.len() - j,
{
    if j < ls.len() {
        assert(ls.take(j as int + 1).drop_last() =~= ls.take(j as int));
        lemma_parse_fails_on(ls, j + 1);
    } else {
        assert(ls.take(j as int) =~= ls);
    }
}

/// Entries in strictly increasing path order.
pub open spec fn keys_sorted<T>(t: Seq<(Seq<char>, T)>) -> bool {
    forall|i: int, j: int| 0 <= i < j < t.len() ==> path_lt(#[trigger] t[i].0, #[trigger] t[j].0)
}

proof fn lemma_slot_from<T>(t: Seq<(Seq<char>, T)>, p: Seq<char>, k: nat)
    requires
        k <= t.len(),
    ensures
        k <= slot_from(t, p, k) <= t.len(),
        forall|j: int| k <= j < slot_from(t, p, k) ==> path_lt((#[trigger] t[j]).0, p),
        slot_from(t, p, k) < t.len() ==> !path_lt(t[slot_from(t, p, k) as int].0, p),
    decreases t.len() - k,
{
    if k < t.len() && path_lt(t[k as int].0, p) {
        lemma_slot_from(t, p, k + 1);
    }
}

/// Starting an entry keeps the entries in path order.
proof fn lemma_start_entry_sorted<T>(t: Seq<(Seq<char>, Seq<T>)>, p: Seq<char>)
    requires
        keys_sorted(t),
    ensures
        keys_sorted(start_entry(t, p)),
{
    lemma_slot_from(t, p, 0);
    let k = slot_from(t, p, 0) as int;
    if k < t.len() && t[k].0 == p {
        let u = start_entry(t, p);
        assert forall|i: int, j: int| 0 <= i < j < u.len() implies path_lt(#[trigger] u[i].0, #[trigger] u[j].0) by {
            assert(u[i].0 == t[i].0 && u[j].0 == t[j].0);
        }
    } else {
        let u = start_entry(t, p);
        if k < t.len() {
            crate::text::lemma_path_lt_total(t[k].0, p);
        }
        assert forall|i: int, j: int| 0 <= i < j < u.len() implies path_lt(#[trigger] u[i].0, #[trigger] u[j].0) by {
            if j < k {
                assert(u[i] == t[i] && u[j] == t[j]);
            } else if j == k {
                assert(u[i] == t[i]);
            } else if i == k {
                assert(u[j] == t[j - 1]);
                if j - 1 > k {
                    crate::text::lemma_path_lt_transitive(p, t[k].0, t[j - 1].0);
                }
            } else if i < k {
                assert(u[i] == t[i] && u[j] == t[j - 1]);
            } else {
                assert(u[i] == t[i - 1] && u[j] == t[j - 1]);
            }
        }
    }
}

/// Reading result lines keeps the files in path order.
pub proof fn lemma_parse_result_sorted(ls: Seq<Seq<char>>)
    ensures
        parse_result_lines(ls) matches Some((t, cur, w)) ==> keys_sorted(t),
    decreases ls.len(),
{
    if ls.len() > 0 {
        lemma_parse_result_sorted(ls.drop_last());
        match parse_result_lines(ls.drop_last()) {
            Some((t, cur, w)) => {
                let l = ls.last();
                if l != "--"@ {
                    match parse_line(l) {
                        Some(x) => match entry_from(t, cur, 0) {
                            Some(k) => {
                                let u = t.update(k, (cur, t[k].1.push(x)));
                                lemma_entry_from(t, cur, 0);
                                assert forall|i: int, j: int| 0 <= i < j < u.len() implies path_lt(#[trigger] u[i].0, #[trigger] u[j].0) by {
                                    assert(u[i].0 == t[i].0 && u[j].0 == t[j].0);
                                }
                            },
                            None => {},
                        },
                        None => {
                            lemma_start_entry_sorted(t, l);
                        },
                    }
                }
            },
            None => {},
        }
    }
}

/// Why output of `git grep` could not be read.
#[derive(Debug, Clone, Copy, PartialEq, Eq, Structural)]
pub enum ParseError {
    /// A numbered line came before any line naming its file.
    LineOutsideFile,
}

/// Finds where path `p` goes in `files`.
fn file_slot(files: &Vec<FileLines>, p: &str) -> (r: usize)
    ensures
        r as nat == slot_from(tree_of(files@), p@, 0),
        r <= files@.len(),
{
    let ghost t = tree_of(files@);
    let mut k: usize = 0;
    while k < files.len()
        invariant
            t == tree_of(files@),
            k <= files@.len(),
            slot_from(t, p@, 0) == slot_from(t, p@, k as nat),
        decreases files@.len() - k,
    {
        if !path_less(files[k].path.as_str(), p) {
            return k;
        }
        k = k + 1;
    }
    k
}

/// Finds the entry for path `p` in `files`.
fn file_entry(files: &Vec<FileLines>, p: &str) -> (r: Option<usize>)
    ensures
        r matches Some(k) ==> entry_from(tree_of(files@), p@, 0) == Some(k as int) && k < files@.len(),
        r is None ==> entry_from(tree_of(files@), p@, 0) is None,
{
    let ghost t = tree_of(files@);
    let mut k: usize = 0;
    while k < files.len()
        invariant
            t == tree_of(files@),
            k <= files@.len(),
            entry_from(t, p@, 0) == entry_from(t, p@, k as nat),
        decreases files@.len() - k,
    {
        if same_text(files[k].path.as_str(), p) {
            return Some(k);
        }
        k = k + 1;
    }
    None
}

impl SearchResult {
    /// Reads the output of `git grep --heading -C n` (see
    /// `parse_result_lines`); `--` separator lines are skipped. The result
    /// carries `highlight` and no error.
    pub fn parse(s: &str, highlight: Highlight) -> (r: Result<SearchResult, ParseError>)
        ensures
            r matches Ok(res) ==> parse_result_lines(lines_of(s@)) matches Some((t, cur, w)) && tree_of(res.files@) == t
                && res.max_line_width == w && res.highlight == highlight && res.error is None,
            r matches Ok(res) ==> paths_sorted(res.files@),
            r is Err ==> parse_result_lines(lines_of(s@)) is None,
    {
        let lines = split_lines(s);
        let ghost ls = texts_of(lines@);
        let mut files: Vec<FileLines> = Vec::new();
        let mut current = String::new();
        let mut width: usize = 1;
        let mut i: usize = 0;
        proof {
            assert(ls.take(0) =~= Seq::<Seq<char>>::empty());
            assert(tree_of(files@) =~= Seq::<(Seq<char>, Seq<LineView>)>::empty());
        }
        while i < lines.len()
            invariant
                ls == texts_of(lines@),
                ls == lines_of(s@),
                i <= lines@.len(),
                parse_result_lines(ls.take(i as int)) == Some((tree_of(files@), current@, width as nat)),
            decreases lines@.len() - i,
        {
            let l = lines[i].as_str();
            proof {
                assert(ls.take(i + 1).drop_last() =~= ls.take(i as int));
                assert(ls.take(i + 1).last() == l@);
            }
            if same_text(l, "--") {
                i = i + 1;
                continue;
            }
            match Line::parse(l) {
                Some(line) => {
                    let k = match file_entry(&files, current.as_str()) {
                        Some(k) => k,
                        None => {
                            proof {
                                lemma_parse_fails_on(ls, (i + 1) as nat);
                            }
                            return Err(ParseError::LineOutsideFile);
                        },
                    };
                    let digits = decimal_string(line.number).as_str().unicode_len();
                    if digits > width {
                        width = digits;
                    }
                    let ghost before = tree_of(files@);
                    let ghost old_files = files@;
                    proof {
                        lemma_entry_from(before, current@, 0);
                    }
                    let mut f = files.remove(k);
                    let ghost lv = line@;
                    let ghost old_lines = f.lines@;
                    proof {
                        assert(before[k as int] == (f.path@, old_lines.map_values(|l: Line| l@)));
                    }
                    f.lines.push(line);
                    proof {
                        assert(f.lines@.map_values(|l: Line| l@) =~= old_lines.map_values(|l: Line| l@).push(lv));
                    }
                    let ghost nf = f;
                    files.insert(k, f);
                    proof {
                        assert(files@ =~= old_files.update(k as int, nf));
                        assert(tree_of(files@) =~= before.update(k as int, (current@, before[k as int].1.push(lv))));
                    }
                },
                None => {
                    let k = file_slot(&files, l);
                    let ghost before = tree_of(files@);
                    let ghost old_files = files@;
                    let fresh = FileLines { path: l.to_owned(), lines: Vec::new() };
                    let ghost nf = fresh;
                    proof {
                        assert(fresh.lines@.map_values(|x: Line| x@) =~= Seq::<LineView>::empty());
                    }
                    if k < files.len() && same_text(files[k].path.as_str(), l) {
                        let _ = files.remove(k);
                        files.insert(k, fresh);
                        proof {
                            assert(files@ =~= old_files.update(k as int, nf));
                            assert(tree_of(files@) =~= before.update(k as int, (l@, Seq::<LineView>::empty())));
                        }
                    } else {
                        files.insert(k, fresh);
                        proof {
                            assert(files@ =~= old_files.insert(k as int, nf));
                            assert(tree_of(files@) =~= before.insert(k as int, (l@, Seq::<LineView>::empty())));
                        }
                    }
                    current = l.to_owned();
                },
            }
            i = i + 1;
        }
        proof {
            assert(ls.take(i as int) =~= ls);
            lemma_parse_result_sorted(ls);
            let t = tree_of(files@);
            assert forall|a: int, b: int| 0 <= a < b < files@.len() implies path_lt(#[trigger] files@[a].path@, #[trigger] files@[b].path@) by {
                assert(t[a].0 == files@[a].path@ && t[b].0 == files@[b].path@);
            }
        }
        Ok(SearchResult { files, max_line_width: width, highlight, error: None })
    }
}


/// The matched texts as plain values: each file's path, and each line's
/// number and texts.
pub open spec fn highlight_tree_of(files: Seq<HighlightFile>) -> Seq<(Seq<char>, Seq<(usize, Seq<Seq<char>>)>)> {
    files.map_values(|f: HighlightFile| (f.path@, highlight_lines_of(f.lines@)))
}

pub open spec fn highlight_lines_of(lines: Seq<HighlightLine>) -> Seq<(usize, Seq<Seq<char>>)> {
    lines.map_values(|h: HighlightLine| (h.number, texts_of(h.texts@)))
}

/// Where line number `n` goes in entries kept in number order.
pub open spec fn number_slot(ls: Seq<(usize, Seq<Seq<char>>)>, n: usize, k: nat) -> nat
    decreases ls.len() - k,
{
    if k >= ls.len() {
        ls.len()
    } else if ls[k as int].0 >= n {
        k
    } else {
        number_slot(ls, n, k + 1)
    }
}

/// The entries with `text` added to line `n`'s texts, a new entry for `n`
/// at its place where there is none.
pub open spec fn add_text(ls: Seq<(usize, Seq<Seq<char>>)>, n: usize, text: Seq<char>) -> Seq<(usize, Seq<Seq<char>>)> {
    let k = number_slot(ls, n, 0) as int;
    if k < ls.len() && ls[k].0 == n {
        ls.update(k, (n, ls[k].1.push(text)))
    } else {
        ls.insert(k, (n, seq![text]))
    }
}

/// Reading `git grep -o --heading` output in order: the matched texts so
/// far and the current path; `None` once a line belongs to no file.
pub open spec fn parse_highlight_lines(ls: Seq<Seq<char>>) -> Option<(Seq<(Seq<char>, Seq<(usize, Seq<Seq<char>>)>)>, Seq<char>)>
    decreases ls.len(),
{
    if ls.len() == 0 {
        Some((Seq::empty(), Seq::empty()))
    } else {
        match parse_highlight_lines(ls.drop_last()) {
            None => None,
            Some((t, cur)) => {
                let l = ls.last();
                match parse_line(l) {
                    Some(x) => match entry_from(t, cur, 0) {
                        Some(k) => Some((t.update(k, (cur, add_text(t[k].1, x.number, x.text))), cur)),
                        None => None,
                    },
                    None => Some((start_entry(t, l), l)),
                }
            }
        }
    }
}

proof fn lemma_highlight_fails_on(ls: Seq<Seq<char>>, j: nat)
    requires
        j <= ls.len(),
        parse_highlight_lines(ls.take(j as int)) is None,
    ensures
        parse_highlight_lines(ls) is None,
    decreases ls.len() - j,
{
    if j < ls.len() {
        assert(ls.take(j as int + 1).drop_last() =~= ls.take(j as int));
        lemma_highlight_fails_on(ls, j + 1);
    } else {
        assert(ls.take(j as int) =~= ls);
    }
}

/// Line entries in strictly increasing number order, hence one per number.
pub open spec fn numbers_sorted(ls: Seq<(usize, Seq<Seq<char>>)>) -> bool {
    forall|i: int, j: int| 0 <= i < j < ls.len() ==> (#[trigger] ls[i]).0 < (#[trigger] ls[j]).0
}

/// Every file's line entries are in number order.
pub open spec fn entries_sorted(t: Seq<(Seq<char>, Seq<(usize, Seq<Seq<char>>)>)>) -> bool {
    forall|i: int| 0 <= i < t.len() ==> numbers_sorted((#[trigger] t[i]).1)
}

proof fn lemma_number_slot(ls: Seq<(usize, Seq<Seq<char>>)>, n: usize, k: nat)
    requires
        k <= ls.len(),
    ensures
        k <= number_slot(ls, n, k) <= ls.len(),
        forall|j: int| k <= j < number_slot(ls, n, k) ==> (#[trigger] ls[j]).0 < n,
        number_slot(ls, n, k) < ls.len() ==> ls[number_slot(ls, n, k) as int].0 >= n,
    decreases ls.len() - k,
{
    if k < ls.len() && ls[k as int].0 < n {
        lemma_number_slot(ls, n, k + 1);
    }
}

/// Adding a text keeps the line entries in number order.
proof fn lemma_add_text_sorted(ls: Seq<(usize, Seq<Seq<char>>)>, n: usize, text: Seq<char>)
    requires
        numbers_sorted(ls),
    ensures
        numbers_sorted(add_text(ls, n, text)),
{
    lemma_number_slot(ls, n, 0);
    let k = number_slot(ls, n, 0) as int;
    let u = add_text(ls, n, text);
    if k < ls.len() && ls[k].0 == n {
        assert forall|i: int, j: int| 0 <= i < j < u.len() implies (#[trigger] u[i]).0 < (#[trigger] u[j]).0 by {
            assert(u[i].0 == ls[i].0 && u[j].0 == ls[j].0);
        }
    } else {
        assert forall|i: int, j: int| 0 <= i < j < u.len() implies (#[trigger] u[i]).0 < (#[trigger] u[j]).0 by {
            if j < k {
                assert(u[i] == ls[i] && u[j] == ls[j]);
            } else if j == k {
                assert(u[i] == ls[i]);
            } else if i == k {
                assert(u[j] == ls[j - 1]);
                assert(ls[k].0 >= n);
                if j - 1 > k {
                    assert(ls[k].0 < ls[j - 1].0);
                }
            } else if i < k {
                assert(u[i] == ls[i] && u[j] == ls[j - 1]);
            } else {
                assert(u[i] == ls[i - 1] && u[j] == ls[j - 1]);
            }
        }
    }
}

/// Reading matched texts keeps the files in path order, and each file's
/// lines in number order, one entry per line number.
pub proof fn lemma_parse_highlight_sorted(ls: Seq<Seq<char>>)
    ensures
        parse_highlight_lines(ls) matches Some((t, cur)) ==> keys_sorted(t) && entries_sorted(t),
    decreases ls.len(),
{
    if ls.len() > 0 {
        lemma_parse_highlight_sorted(ls.drop_last());
        match parse_highlight_lines(ls.drop_last()) {
            Some((t, cur)) => {
                let l = ls.last();
                match parse_line(l) {
                    Some(x) => match entry_from(t, cur, 0) {
                        Some(k) => {
                            let u = t.update(k, (cur, add_text(t[k].1, x.number, x.text)));
                            lemma_entry_from(t, cur, 0);
                            assert forall|i: int, j: int| 0 <= i < j < u.len() implies path_lt(#[trigger] u[i].0, #[trigger] u[j].0) by {
                                assert(u[i].0 == t[i].0 && u[j].0 == t[j].0);
                            }
                            lemma_add_text_sorted(t[k].1, x.number, x.text);
                            assert forall|i: int| 0 <= i < u.len() implies numbers_sorted((#[trigger] u[i]).1) by {
                                if i != k {
                                    assert(u[i] == t[i]);
                                }
                            }
                        },
                        None => {},
                    },
                    None => {
                        lemma_start_entry_sorted(t, l);
                        lemma_slot_from(t, l, 0);
                        let u = start_entry(t, l);
                        let k = slot_from(t, l, 0) as int;
                        assert forall|i: int| 0 <= i < u.len() implies numbers_sorted((#[trigger] u[i]).1) by {
                            if k < t.len() && t[k].0 == l {
                                if i != k {
                                    assert(u[i] == t[i]);
                                }
                            } else if i < k {
                                assert(u[i] == t[i]);
                            } else if i > k {
                                assert(u[i] == t[i - 1]);
                            }
                        }
                    },
                }
            },
            None => {},
        }
    }
}

/// Adds `text` to line `n` of `lines` (see `add_text`).
fn add_highlight_text(lines: &mut Vec<HighlightLine>, n: usize, text: String)
    ensures
        highlight_lines_of(final(lines)@) == add_text(highlight_lines_of(old(lines)@), n, text@),
{
    let ghost before = highlight_lines_of(lines@);
    let ghost old_lines = lines@;
    let mut k: usize = 0;
    while k < lines.len() && lines[k].number < n
        invariant
            lines@ == old_lines,
            before == highlight_lines_of(lines@),
            k <= lines@.len(),
            number_slot(before, n, 0) == number_slot(before, n, k as nat),
        decreases lines@.len() - k,
    {
        k = k + 1;
    }
    proof {
        if k < lines@.len() {
            assert(before[k as int].0 == lines@[k as int].number);
        }
        assert(number_slot(before, n, 0) == k as nat);
    }
    if k < lines.len() && lines[k].number == n {
        let mut h = lines.remove(k);
        let ghost old_texts = h.texts@;
        let ghost tv = text@;
        h.texts.push(text);
        proof {
            assert(texts_of(h.texts@) =~= texts_of(old_texts).push(tv));
        }
        let ghost nh = h;
        lines.insert(k, h);
        proof {
            assert(lines@ =~= old_lines.update(k as int, nh));
            assert(highlight_lines_of(lines@) =~= add_text(before, n, tv));
        }
    } else {
        let ghost tv = text@;
        let mut texts: Vec<String> = Vec::new();
        texts.push(text);
        proof {
            assert(texts_of(texts@) =~= seq![tv]);
        }
        let h = HighlightLine { number: n, texts };
        let ghost nh = h;
        lines.insert(k, h);
        proof {
            assert(lines@ =~= old_lines.insert(k as int, nh));
            assert(highlight_lines_of(lines@) =~= add_text(before, n, tv));
        }
    }
}

/// Finds the entry for path `p` among highlighted files.
fn highlight_entry(files: &Vec<HighlightFile>, p: &str) -> (r: Option<usize>)
    ensures
        r matches Some(k) ==> entry_from(highlight_tree_of(files@), p@, 0) == Some(k as int) && k < files@.len(),
        r is None ==> entry_from(highlight_tree_of(files@), p@, 0) is None,
{
    let ghost t = highlight_tree_of(files@);
    let mut k: usize = 0;
    while k < files.len()
        invariant
            t == highlight_tree_of(files@),
            k <= files@.len(),
            entry_from(t, p@, 0) == entry_from(t, p@, k as nat),
        decreases files@.len() - k,
    {
        if same_text(files[k].path.as_str(), p) {
            return Some(k);
        }
        k = k + 1;
    }
    None
}

/// Finds where path `p` goes among highlighted files.
fn highlight_slot(files: &Vec<HighlightFile>, p: &str) -> (r: usize)
    ensures
        r as nat == slot_from(highlight_tree_of(files@), p@, 0),
        r <= files@.len(),
{
    let ghost t = highlight_tree_of(files@);
    let mut k: usize = 0;
    while k < files.len()
        invariant
            t == highlight_tree_of(files@),
            k <= files@.len(),
            slot_from(t, p@, 0) == slot_from(t, p@, k as nat),
        decreases files@.len() - k,
    {
        if !path_less(files[k].path.as_str(), p) {
            return k;
        }
        k = k + 1;
    }
    k
}

impl Highlight {
    /// Reads the output of `git grep -o --heading` (see
    /// `parse_highlight_lines`).
    pub fn parse(s: &str) -> (r: Result<Highlight, ParseError>)
        ensures
            r matches Ok(h) ==> parse_highlight_lines(lines_of(s@)) matches Some((t, cur)) && highlight_tree_of(h.files@) == t,
            r matches Ok(h) ==> forall|i: int, j: int|
                0 <= i < j < h.files@.len() ==> path_lt(#[trigger] h.files@[i].path@, #[trigger] h.files@[j].path@),
            r matches Ok(h) ==> forall|f: int, i: int, j: int|
                0 <= f < h.files@.len() && 0 <= i < j < h.files@[f].lines@.len() ==> (#[trigger] h.files@[f].lines@[i]).number
                    < (#[trigger] h.files@[f].lines@[j]).number,
            r is Err ==> parse_highlight_lines(lines_of(s@)) is None,
    {
        let lines = split_lines(s);
        let ghost ls = texts_of(lines@);
        let mut files: Vec<HighlightFile> = Vec::new();
        let mut current = String::new();
        let mut i: usize = 0;
        proof {
            assert(ls.take(0) =~= Seq::<Seq<char>>::empty());
            assert(highlight_tree_of(files@) =~= Seq::<(Seq<char>, Seq<(usize, Seq<Seq<char>>)>)>::empty());
        }
        while i < lines.len()
            invariant
                ls == texts_of(lines@),
                ls == lines_of(s@),
                i <= lines@.len(),
                parse_highlight_lines(ls.take(i as int)) == Some((highlight_tree_of(files@), current@)),
            decreases lines@.len() - i,
        {
            let l = lines[i].as_str();
            proof {
                assert(ls.take(i + 1).drop_last() =~= ls.take(i as int));
                assert(ls.take(i + 1).last() == l@);
            }
            match Line::parse(l) {
                Some(line) => {
                    let k = match highlight_entry(&files, current.as_str()) {
                        Some(k) => k,
                        None => {
                            proof {
                                lemma_highlight_fails_on(ls, (i + 1) as nat);
                            }
                            return Err(ParseError::LineOutsideFile);
                        },
                    };
                    let ghost before = highlight_tree_of(files@);
                    let ghost old_files = files@;
                    proof {
                        lemma_entry_from(before, current@, 0);
                    }
                    let mut f = files.remove(k);
                    let Line { number, text, hit } = line;
                    add_highlight_text(&mut f.lines, number, text);
                    let ghost nf = f;
                    files.insert(k, f);
                    proof {
                        assert(files@ =~= old_files.update(k as int, nf));
                        assert(highlight_tree_of(files@) =~= before.update(k as int, (current@, add_text(before[k as int].1, number, text@))));
                    }
                },
                None => {
                    let k = highlight_slot(&files, l);
                    let ghost before = highlight_tree_of(files@);
                    let ghost old_files = files@;
                    let fresh = HighlightFile { path: l.to_owned(), lines: Vec::new() };
                    let ghost nf = fresh;
                    proof {
                        assert(highlight_lines_of(fresh.lines@) =~= Seq::<(usize, Seq<Seq<char>>)>::empty());
                    }
                    if k < files.len() && same_text(files[k].path.as_str(), l) {
                        let _ = files.remove(k);
                        files.insert(k, fresh);
                        proof {
                            assert(files@ =~= old_files.update(k as int, nf));
                            assert(highlight_tree_of(files@) =~= before.update(k as int, (l@, Seq::<(usize, Seq<Seq<char>>)>::empty())));
                        }
                    } else {
                        files.insert(k, fresh);
                        proof {
                            assert(files@ =~= old_files.insert(k as int, nf));
                            assert(highlight_tree_of(files@) =~= before.insert(k as int, (l@, Seq::<(usize, Seq<Seq<char>>)>::empty())));
                        }
                    }
                    current = l.to_owned();
                },
            }
            i = i + 1;
        }
        proof {
            assert(ls.take(i as int) =~= ls);
            lemma_parse_highlight_sorted(ls);
            let t = highlight_tree_of(files@);
            assert forall|a: int, b: int| 0 <= a < b < files@.len() implies path_lt(#[trigger] files@[a].path@, #[trigger] files@[b].path@) by {
                assert(t[a].0 == files@[a].path@ && t[b].0 == files@[b].path@);
            }
            assert forall|f: int, i: int, j: int|
                0 <= f < files@.len() && 0 <= i < j < files@[f].lines@.len() implies (#[trigger] files@[f].lines@[i]).number
                    < (#[trigger] files@[f].lines@[j]).number by {
                assert(numbers_sorted(t[f].1));
                assert(t[f].1 == highlight_lines_of(files@[f].lines@));
                assert(t[f].1[i].0 == files@[f].lines@[i].number);
                assert(t[f].1[j].0 == files@[f].lines@[j].number);
            }
        }
        Ok(Highlight { files })
    }
}

} // verus!
