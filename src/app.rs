//! The application state and the navigation over the result tree: moving
//! the cursor, folding files, and keeping the cursor near its place when a
//! new result replaces the old one.

use vstd::prelude::*;
use crate::git::{
    file_index, find_file, numbers_ascending, paths_sorted, tree_wf, FileLines, GrepArg, GrepOptions, SearchResult,
};
use crate::nav::{
    find_hit_above, find_hit_below, find_next_hit_file, find_prev_hit_file, first_hit,
    first_hit_from, last_hit, last_hit_under, next_hit_file, prev_hit_file,
};
use crate::terminal::TerminalPosition;
use crate::text::{same_text, path_less, path_lt};
use crate::widget_search_result::{Cursor, CursorView};

verus! {

/// Which part of the screen takes the keys: the result tree, or one of the
/// query's arguments.
#[derive(Debug, Clone, Copy, PartialEq, Eq, Structural)]
pub enum Focus {
    SearchResult,
    Pattern,
    AndPattern,
    NotPattern,
    Revision,
    Path,
}

impl Focus {
    /// Whether an argument of the query is being edited.
    pub fn is_editing(self) -> (r: bool)
        ensures
            r == !(self is SearchResult),
    {
        !matches!(self, Focus::SearchResult)
    }
}

/// A yes-or-no option of the search.
#[derive(Debug, Clone, Copy, PartialEq, Eq, Structural)]
pub enum GrepFlag {
    IgnoreCase,
    Untracked,
    NoIndex,
    NoRecursive,
    WordRegexp,
    ExtendedRegexp,
    FixedStrings,
    PerlRegexp,
}

/// The options with `flag` turned over.
pub open spec fn flipped(o: GrepOptions, flag: GrepFlag) -> GrepOptions {
    match flag {
        GrepFlag::IgnoreCase => GrepOptions { ignore_case: !o.ignore_case, ..o },
        GrepFlag::Untracked => GrepOptions { untracked: !o.untracked, ..o },
        GrepFlag::NoIndex => GrepOptions { no_index: !o.no_index, ..o },
        GrepFlag::NoRecursive => GrepOptions { no_recursive: !o.no_recursive, ..o },
        GrepFlag::WordRegexp => GrepOptions { word_regexp: !o.word_regexp, ..o },
        GrepFlag::ExtendedRegexp => GrepOptions { extended_regexp: !o.extended_regexp, ..o },
        GrepFlag::FixedStrings => GrepOptions { fixed_strings: !o.fixed_strings, ..o },
        GrepFlag::PerlRegexp => GrepOptions { perl_regexp: !o.perl_regexp, ..o },
    }
}

/// The paths that a list of collapsed files names.
pub open spec fn path_set(v: Seq<String>) -> Set<Seq<char>> {
    Set::new(|p: Seq<char>| exists|i: int| 0 <= i < v.len() && #[trigger] v[i]@ == p)
}

/// What the navigation acts on: the cursor and the collapsed files.
pub struct NavView {
    pub cursor: CursorView,
    pub collapsed: Set<Seq<char>>,
}

/// The cursor on line `li` of file `fi`, with that file unfolded.
pub open spec fn on_line(files: Seq<FileLines>, s: NavView, fi: int, li: int) -> NavView {
    NavView {
        cursor: CursorView { file: Some(files[fi].path@), line_number: Some(files[fi].lines@[li].number) },
        collapsed: s.collapsed.remove(files[fi].path@),
    }
}

/// The cursor on file `fi`, no line.
pub open spec fn on_file(files: Seq<FileLines>, s: NavView, fi: int) -> NavView {
    NavView { cursor: CursorView { file: Some(files[fi].path@), line_number: None }, ..s }
}

/// The hit line below line number `n` of file `path`: the next hit line of
/// that file, else the first hit line of the next file that has one.
pub open spec fn down_line(files: Seq<FileLines>, path: Seq<char>, n: usize) -> Option<(int, int)> {
    match file_index(files, path) {
        None => None,
        Some(fi) => match first_hit_from(files[fi].lines@, Some(n), 0) {
            Some(li) => Some((fi, li)),
            None => match next_hit_file(files, (fi + 1) as nat) {
                Some(fj) => Some((fj, first_hit(files[fj].lines@)->0)),
                None => None,
            },
        },
    }
}

/// The hit line above line number `n` of file `path`: the previous hit line
/// of that file, else the last hit line of the previous file that has one.
pub open spec fn up_line(files: Seq<FileLines>, path: Seq<char>, n: usize) -> Option<(int, int)> {
    match file_index(files, path) {
        None => None,
        Some(fi) => match last_hit_under(files[fi].lines@, Some(n), files[fi].lines@.len()) {
            Some(li) => Some((fi, li)),
            None => match prev_hit_file(files, fi as nat) {
                Some(fj) => Some((fj, last_hit(files[fj].lines@)->0)),
                None => None,
            },
        },
    }
}

/// Indices as integers.
pub open spec fn pair_of(r: Option<(usize, usize)>) -> Option<(int, int)> {
    match r {
        Some((a, b)) => Some((a as int, b as int)),
        None => None,
    }
}

/// The line below the cursor's line.
pub open spec fn down_target(files: Seq<FileLines>, c: CursorView) -> Option<(int, int)> {
    match (c.file, c.line_number) {
        (Some(p), Some(n)) => down_line(files, p, n),
        _ => None,
    }
}

/// The line above the cursor's line.
pub open spec fn up_target(files: Seq<FileLines>, c: CursorView) -> Option<(int, int)> {
    match (c.file, c.line_number) {
        (Some(p), Some(n)) => up_line(files, p, n),
        _ => None,
    }
}

/// The file below `path`.
pub open spec fn down_file(files: Seq<FileLines>, path: Seq<char>) -> Option<int> {
    match file_index(files, path) {
        Some(fi) => if fi + 1 < files.len() { Some(fi + 1) } else { None },
        None => None,
    }
}

/// The file above `path`.
pub open spec fn up_file(files: Seq<FileLines>, path: Seq<char>) -> Option<int> {
    match file_index(files, path) {
        Some(fi) => if fi > 0 { Some(fi - 1) } else { None },
        None => None,
    }
}

/// Moving the cursor down: to the next file at file level, to the next hit
/// line (across files) at line level; unchanged where there is none.
pub open spec fn down_spec(files: Seq<FileLines>, s: NavView) -> NavView {
    match s.cursor.file {
        None => s,
        Some(p) => match s.cursor.line_number {
            None => match down_file(files, p) {
                Some(fj) => on_file(files, s, fj),
                None => s,
            },
            Some(n) => match down_line(files, p, n) {
                Some((fj, lj)) => on_line(files, s, fj, lj),
                None => s,
            },
        },
    }
}

/// Moving the cursor up, the mirror of `down_spec`.
pub open spec fn up_spec(files: Seq<FileLines>, s: NavView) -> NavView {
    match s.cursor.file {
        None => s,
        Some(p) => match s.cursor.line_number {
            None => match up_file(files, p) {
                Some(fj) => on_file(files, s, fj),
                None => s,
            },
            Some(n) => match up_line(files, p, n) {
                Some((fj, lj)) => on_line(files, s, fj, lj),
                None => s,
            },
        },
    }
}

/// Entering a file: from file level to its first hit line, unfolding it.
pub open spec fn right_spec(files: Seq<FileLines>, s: NavView) -> NavView {
    if files.len() == 0 || s.cursor.is_line_level() {
        s
    } else {
        match s.cursor.file {
            None => s,
            Some(p) => match file_index(files, p) {
                None => s,
                Some(fi) => match first_hit(files[fi].lines@) {
                    Some(li) => on_line(files, s, fi, li),
                    None => s,
                },
            },
        }
    }
}

/// Leaving a line for its file.
pub open spec fn left_spec(s: NavView) -> NavView {
    if s.cursor.is_line_level() {
        NavView { cursor: CursorView { line_number: None, ..s.cursor }, ..s }
    } else {
        s
    }
}

/// Folding or unfolding the file under the cursor, at file level.
pub open spec fn toggle_spec(s: NavView) -> NavView {
    if s.cursor.is_line_level() {
        s
    } else {
        match s.cursor.file {
            None => s,
            Some(p) => if s.collapsed.contains(p) {
                NavView { collapsed: s.collapsed.remove(p), ..s }
            } else {
                NavView { collapsed: s.collapsed.insert(p), ..s }
            },
        }
    }
}

/// The files that folding all may fold: all of them, but the file of the
/// selected line at line level.
pub open spec fn foldable(files: Seq<FileLines>, c: CursorView) -> Set<Seq<char>> {
    Set::new(
        |p: Seq<char>|
            (exists|i: int| 0 <= i < files.len() && #[trigger] files[i].path@ == p) && (c.is_file_level()
                || c.file != Some(p)),
    )
}

/// Folding all: where every foldable file is folded, unfold everything;
/// else fold every foldable file.
pub open spec fn toggle_all_spec(files: Seq<FileLines>, s: NavView) -> NavView {
    if foldable(files, s.cursor).subset_of(s.collapsed) {
        NavView { collapsed: Set::empty(), ..s }
    } else {
        NavView { collapsed: s.collapsed.union(foldable(files, s.cursor)), ..s }
    }
}

/// The last file before index `k` whose path comes before `p`.
pub open spec fn last_file_before(files: Seq<FileLines>, p: Seq<char>, k: nat) -> Option<int>
    decreases k,
{
    if k == 0 {
        None
    } else if (k - 1) < files.len() && path_lt(files[k - 1].path@, p) {
        Some(k - 1)
    } else {
        last_file_before(files, p, (k - 1) as nat)
    }
}

/// The first file at or after index `k` whose path does not come before `p`.
pub open spec fn first_file_from(files: Seq<FileLines>, p: Seq<char>, k: nat) -> Option<int>
    decreases files.len() - k,
{
    if k >= files.len() {
        None
    } else if !path_lt(files[k as int].path@, p) {
        Some(k as int)
    } else {
        first_file_from(files, p, k + 1)
    }
}

/// The bound below which a line number is at most `n`.
pub open spec fn at_most(n: usize) -> Option<usize> {
    if n < usize::MAX {
        Some((n + 1) as usize)
    } else {
        None
    }
}

/// The cursor after a new result `files` replaced the old one: nothing on
/// an empty result; the first file where no file was selected; the nearest
/// file before the old one (else the nearest after it) where the old file
/// is gone; at line level, the last hit line at or above the old line
/// number, else the file's first hit line.
pub open spec fn reset_spec(files: Seq<FileLines>, c: CursorView) -> CursorView {
    if files.len() == 0 {
        CursorView { file: None, line_number: None }
    } else {
        match c.file {
            None => CursorView { file: Some(files[0].path@), ..c },
            Some(p) => match file_index(files, p) {
                None => CursorView {
                    file: match last_file_before(files, p, files.len()) {
                        Some(j) => Some(files[j].path@),
                        None => match first_file_from(files, p, 0) {
                            Some(j) => Some(files[j].path@),
                            None => None,
                        },
                    },
                    line_number: None,
                },
                Some(fi) => match c.line_number {
                    None => c,
                    Some(n) => CursorView {
                        line_number: match last_hit_under(files[fi].lines@, at_most(n), files[fi].lines@.len()) {
                            Some(li) => Some(files[fi].lines@[li].number),
                            None => match first_hit(files[fi].lines@) {
                                Some(li) => Some(files[fi].lines@[li].number),
                                None => None,
                            },
                        },
                        ..c
                    },
                },
            },
        }
    }
}

/// Finds the last file whose path comes before `p`.
fn find_last_file_before(files: &Vec<FileLines>, p: &str) -> (r: Option<usize>)
    ensures
        r matches Some(j) ==> Some(j as int) == last_file_before(files@, p@, files@.len()) && j < files@.len(),
        r is None ==> last_file_before(files@, p@, files@.len()) is None,
{
    let mut k: usize = files.len();
    while k > 0
        invariant
            k <= files@.len(),
            last_file_before(files@, p@, files@.len()) == last_file_before(files@, p@, k as nat),
        decreases k,
    {
        if path_less(files[k - 1].path.as_str(), p) {
            return Some(k - 1);
        }
        k = k - 1;
    }
    None
}

/// Finds the first file whose path does not come before `p`.
fn find_first_file_from(files: &Vec<FileLines>, p: &str) -> (r: Option<usize>)
    ensures
        r matches Some(j) ==> Some(j as int) == first_file_from(files@, p@, 0) && j < files@.len(),
        r is None ==> first_file_from(files@, p@, 0) is None,
{
    let mut j: usize = 0;
    while j < files.len()
        invariant
            j <= files@.len(),
            first_file_from(files@, p@, 0) == first_file_from(files@, p@, j as nat),
        decreases files@.len() - j,
    {
        if !path_less(files[j].path.as_str(), p) {
            return Some(j);
        }
        j = j + 1;
    }
    None
}

/// Whether `v` names `p`.
pub fn paths_contain(v: &Vec<String>, p: &str) -> (r: bool)
    ensures
        r == path_set(v@).contains(p@),
{
    let mut i: usize = 0;
    while i < v.len()
        invariant
            i <= v@.len(),
            forall|j: int| 0 <= j < i ==> v@[j]@ != p@,
        decreases v@.len() - i,
    {
        if same_text(v[i].as_str(), p) {
            return true;
        }
        i = i + 1;
    }
    false
}

/// Takes `p` out of `v`.
fn paths_remove(v: &mut Vec<String>, p: &str)
    ensures
        path_set(final(v)@) == path_set(old(v)@).remove(p@),
{
    let mut kept: Vec<String> = Vec::new();
    let mut old_v: Vec<String> = Vec::new();
    std::mem::swap(&mut old_v, v);
    let mut i: usize = 0;
    while i < old_v.len()
        invariant
            i <= old_v@.len(),
            old_v@ == old(v)@,
            forall|j: int| 0 <= j < kept@.len() ==> #[trigger] kept@[j]@ != p@,
            forall|j: int| 0 <= j < kept@.len() ==> exists|k: int| 0 <= k < i && #[trigger] old_v@[k]@ == #[trigger] kept@[j]@,
            forall|k: int| 0 <= k < i && #[trigger] old_v@[k]@ != p@ ==> exists|j: int| 0 <= j < kept@.len() && kept@[j]@ == old_v@[k]@,
        decreases old_v@.len() - i,
    {
        if !same_text(old_v[i].as_str(), p) {
            let s = old_v[i].clone();
            let ghost before = kept@;
            kept.push(s);
            proof {
                assert(kept@[kept@.len() - 1]@ == old_v@[i as int]@);
                assert forall|j: int| 0 <= j < kept@.len() implies exists|k: int| 0 <= k < i + 1 && #[trigger] old_v@[k]@ == #[trigger] kept@[j]@ by {
                    if j < before.len() {
                        assert(kept@[j] == before[j]);
                    } else {
                        assert(old_v@[i as int]@ == kept@[j]@);
                    }
                }
                assert forall|k: int| 0 <= k < i + 1 && #[trigger] old_v@[k]@ != p@ implies exists|j: int| 0 <= j < kept@.len() && kept@[j]@ == old_v@[k]@ by {
                    if k < i {
                        let j = choose|j: int| 0 <= j < before.len() && before[j]@ == old_v@[k]@;
                        assert(kept@[j] == before[j]);
                    } else {
                        assert(kept@[kept@.len() - 1]@ == old_v@[k]@);
                    }
                }
            }
        }
        i = i + 1;
    }
    proof {
        assert(path_set(kept@) =~= path_set(old(v)@).remove(p@)) by {
            assert forall|q: Seq<char>| path_set(kept@).contains(q) implies path_set(old(v)@).remove(p@).contains(q) by {
                let j = choose|j: int| 0 <= j < kept@.len() && #[trigger] kept@[j]@ == q;
                let k = choose|k: int| 0 <= k < i && #[trigger] old_v@[k]@ == kept@[j]@;
            }
            assert forall|q: Seq<char>| path_set(old(v)@).remove(p@).contains(q) implies path_set(kept@).contains(q) by {
                let k = choose|k: int| 0 <= k < old_v@.len() && #[trigger] old_v@[k]@ == q;
                let j = choose|j: int| 0 <= j < kept@.len() && kept@[j]@ == old_v@[k]@;
            }
        }
    }
    *v = kept;
}

/// Adds `p` to `v`, where it is not there yet.
fn paths_insert(v: &mut Vec<String>, p: &str)
    ensures
        path_set(final(v)@) == path_set(old(v)@).insert(p@),
{
    if !paths_contain(v, p) {
        let s = p.to_owned();
        let ghost before = v@;
        v.push(s);
        proof {
            assert(path_set(v@) =~= path_set(before).insert(p@)) by {
                assert forall|q: Seq<char>| path_set(before).insert(p@).contains(q) implies path_set(v@).contains(q) by {
                    if q == p@ {
                        assert(v@[v@.len() - 1]@ == q);
                    } else {
                        let k = choose|k: int| 0 <= k < before.len() && #[trigger] before[k]@ == q;
                        assert(v@[k] == before[k]);
                    }
                }
                assert forall|q: Seq<char>| path_set(v@).contains(q) implies path_set(before).insert(p@).contains(q) by {
                    let k = choose|k: int| 0 <= k < v@.len() && #[trigger] v@[k]@ == q;
                    if k < before.len() {
                        assert(v@[k] == before[k]);
                    }
                }
            }
        }
    } else {
        proof {
            assert(path_set(old(v)@).insert(p@) =~= path_set(old(v)@));
        }
    }
}

/// The state of the application: the search result, the cursor over it,
/// the collapsed files, where the terminal cursor shows, and the focus.
#[derive(Debug)]
pub struct AppState {
    pub grep: GrepOptions,
    pub search_result: SearchResult,
    pub cursor: Cursor,
    pub collapsed: Vec<String>,
    pub show_terminal_cursor: Option<TerminalPosition>,
    pub focus: Focus,
    pub last_input_char: char,
}

impl AppState {
    /// What the navigation acts on.
    pub open spec fn nav(&self) -> NavView {
        NavView { cursor: self.cursor@, collapsed: path_set(self.collapsed@) }
    }

    /// All but the cursor and the collapsed files are as in `other`.
    pub open spec fn same_but_nav(&self, other: &AppState) -> bool {
        &&& self.grep == other.grep
        &&& self.search_result == other.search_result
        &&& self.show_terminal_cursor == other.show_terminal_cursor
        &&& self.focus == other.focus
        &&& self.last_input_char == other.last_input_char
    }

    /// A state with an empty result, nothing selected, on the result tree.
    pub fn new() -> (r: Self)
        ensures
            r.search_result.files@.len() == 0,
            r.cursor@.file is None,
            r.cursor@.line_number is None,
            r.collapsed@.len() == 0,
            r.focus == Focus::SearchResult,
    {
        AppState {
            grep: GrepOptions::default(),
            search_result: SearchResult::empty(),
            cursor: Cursor::new(),
            collapsed: Vec::new(),
            show_terminal_cursor: None,
            focus: Focus::SearchResult,
            last_input_char: ' ',
        }
    }

    /// The argument that `focus` edits, if any.
    pub open spec fn focused_arg(&self) -> Option<GrepArg> {
        match self.focus {
            Focus::SearchResult => None,
            Focus::Pattern => Some(self.grep.pattern),
            Focus::AndPattern => Some(self.grep.and_pattern),
            Focus::NotPattern => Some(self.grep.not_pattern),
            Focus::Revision => Some(self.grep.revision),
            Focus::Path => Some(self.grep.path),
        }
    }

    /// The state with the focused argument replaced by `a`.
    pub open spec fn with_focused_arg(&self, a: GrepArg) -> AppState {
        match self.focus {
            Focus::SearchResult => *self,
            Focus::Pattern => AppState { grep: GrepOptions { pattern: a, ..self.grep }, ..*self },
            Focus::AndPattern => AppState { grep: GrepOptions { and_pattern: a, ..self.grep }, ..*self },
            Focus::NotPattern => AppState { grep: GrepOptions { not_pattern: a, ..self.grep }, ..*self },
            Focus::Revision => AppState { grep: GrepOptions { revision: a, ..self.grep }, ..*self },
            Focus::Path => AppState { grep: GrepOptions { path: a, ..self.grep }, ..*self },
        }
    }

    /// The argument being edited, if the focus is on one.
    pub fn focused_arg_mut(&mut self) -> (r: Option<&mut GrepArg>)
        ensures
            old(self).focused_arg() is None ==> r is None && *final(self) == *old(self),
            old(self).focused_arg() matches Some(a) ==> r matches Some(x) && *x == a && *final(self)
                == old(self).with_focused_arg(*final(x)),
    {
        match self.focus {
            Focus::SearchResult => None,
            Focus::Pattern => Some(&mut self.grep.pattern),
            Focus::AndPattern => Some(&mut self.grep.and_pattern),
            Focus::NotPattern => Some(&mut self.grep.not_pattern),
            Focus::Revision => Some(&mut self.grep.revision),
            Focus::Path => Some(&mut self.grep.path),
        }
    }

    /// Turns over one option of the search; the caller searches again.
    pub fn flip_grep_flag(&mut self, flag: GrepFlag)
        ensures
            *final(self) == (AppState { grep: flipped(old(self).grep, flag), ..*old(self) }),
    {
        match flag {
            GrepFlag::IgnoreCase => self.grep.ignore_case = !self.grep.ignore_case,
            GrepFlag::Untracked => self.grep.untracked = !self.grep.untracked,
            GrepFlag::NoIndex => self.grep.no_index = !self.grep.no_index,
            GrepFlag::NoRecursive => self.grep.no_recursive = !self.grep.no_recursive,
            GrepFlag::WordRegexp => self.grep.word_regexp = !self.grep.word_regexp,
            GrepFlag::ExtendedRegexp => self.grep.extended_regexp = !self.grep.extended_regexp,
            GrepFlag::FixedStrings => self.grep.fixed_strings = !self.grep.fixed_strings,
            GrepFlag::PerlRegexp => self.grep.perl_regexp = !self.grep.perl_regexp,
        }
    }

    pub fn set_focus(&mut self, focus: Focus)
        ensures
            final(self).focus == focus,
            final(self).nav() == old(self).nav(),
            final(self).search_result == old(self).search_result,
    {
        self.focus = focus;
    }

    fn peek_down_line(&self) -> (r: Option<(usize, usize)>)
        ensures
            down_target(self.search_result.files@, self.cursor@) == pair_of(r),
            r matches Some((a, b)) ==> a < self.search_result.files@.len() && b < self.search_result.files@[a as int].lines@.len(),
    {
        let file = match &self.cursor.file {
            Some(f) => f,
            None => return None,
        };
        let n = match self.cursor.line_number {
            Some(n) => n,
            None => return None,
        };
        let files = &self.search_result.files;
        let fi = match find_file(files, file.as_str()) {
            Some(fi) => fi,
            None => return None,
        };
        proof {
            crate::nav::lemma_next_hit_file(files@, (fi + 1) as nat);
        }
        let n_files = files.len();
        match find_hit_above(&files[fi].lines, Some(n)) {
            Some(li) => Some((fi, li)),
            None => match find_next_hit_file(files, if fi < n_files { fi + 1 } else { fi }) {
                Some(fj) => {
                    let li = find_hit_above(&files[fj].lines, None);
                    match li {
                        Some(li) => Some((fj, li)),
                        None => None,
                    }
                },
                None => None,
            },
        }
    }

    fn peek_up_line(&self) -> (r: Option<(usize, usize)>)
        ensures
            up_target(self.search_result.files@, self.cursor@) == pair_of(r),
            r matches Some((a, b)) ==> a < self.search_result.files@.len() && b < self.search_result.files@[a as int].lines@.len(),
    {
        let file = match &self.cursor.file {
            Some(f) => f,
            None => return None,
        };
        let n = match self.cursor.line_number {
            Some(n) => n,
            None => return None,
        };
        let files = &self.search_result.files;
        let fi = match find_file(files, file.as_str()) {
            Some(fi) => fi,
            None => return None,
        };
        proof {
            crate::nav::lemma_prev_hit_file(files@, fi as nat);
        }
        match find_hit_below(&files[fi].lines, Some(n)) {
            Some(li) => Some((fi, li)),
            None => match find_prev_hit_file(files, fi) {
                Some(fj) => {
                    let li = find_hit_below(&files[fj].lines, None);
                    match li {
                        Some(li) => Some((fj, li)),
                        None => None,
                    }
                },
                None => None,
            },
        }
    }

    fn peek_down_file(&self) -> (r: Option<usize>)
        ensures
            match self.cursor@.file {
                Some(p) => match down_file(self.search_result.files@, p) {
                    Some(j) => r matches Some(x) && x as int == j,
                    None => r is None,
                },
                None => r is None,
            },
            self.cursor@.file matches Some(p) ==> (down_file(self.search_result.files@, p) matches Some(j) ==> 0 <= j < self.search_result.files@.len()),
            r matches Some(j) ==> j < self.search_result.files@.len(),
    {
        let file = match &self.cursor.file {
            Some(f) => f,
            None => return None,
        };
        proof {
            crate::git::lemma_file_index_from(self.search_result.files@, file@, 0);
        }
        match find_file(&self.search_result.files, file.as_str()) {
            Some(fi) => if fi < self.search_result.files.len() - 1 {
                Some(fi + 1)
            } else {
                None
            },
            None => None,
        }
    }

    fn peek_up_file(&self) -> (r: Option<usize>)
        ensures
            match self.cursor@.file {
                Some(p) => match up_file(self.search_result.files@, p) {
                    Some(j) => r matches Some(x) && x as int == j,
                    None => r is None,
                },
                None => r is None,
            },
            self.cursor@.file matches Some(p) ==> (up_file(self.search_result.files@, p) matches Some(j) ==> 0 <= j < self.search_result.files@.len()),
            r matches Some(j) ==> j < self.search_result.files@.len(),
    {
        let file = match &self.cursor.file {
            Some(f) => f,
            None => return None,
        };
        proof {
            crate::git::lemma_file_index_from(self.search_result.files@, file@, 0);
        }
        match find_file(&self.search_result.files, file.as_str()) {
            Some(fi) => if fi > 0 {
                Some(fi - 1)
            } else {
                None
            },
            None => None,
        }
    }

    /// Puts the cursor on line `li` of file `fi` and unfolds that file.
    fn select_line(&mut self, fi: usize, li: usize)
        requires
            fi < old(self).search_result.files@.len(),
            li < old(self).search_result.files@[fi as int].lines@.len(),
        ensures
            final(self).nav() == on_line(old(self).search_result.files@, old(self).nav(), fi as int, li as int),
            final(self).same_but_nav(old(self)),
    {
        let path = self.search_result.files[fi].path.clone();
        let number = self.search_result.files[fi].lines[li].number;
        paths_remove(&mut self.collapsed, path.as_str());
        self.cursor.file = Some(path);
        self.cursor.line_number = Some(number);
    }

    /// Puts the cursor on file `fi`, no line.
    fn select_file(&mut self, fi: usize)
        requires
            fi < old(self).search_result.files@.len(),
        ensures
            final(self).nav() == on_file(old(self).search_result.files@, old(self).nav(), fi as int),
            final(self).same_but_nav(old(self)),
    {
        let path = self.search_result.files[fi].path.clone();
        self.cursor.file = Some(path);
        self.cursor.line_number = None;
    }

    /// Whether moving up would move the cursor.
    pub fn can_cursor_up(&self) -> (r: bool)
        ensures
            r == (self.cursor@.is_file_level() && up_file(self.search_result.files@, self.cursor@.file->0) is Some
                || self.cursor@.is_line_level() && self.cursor@.file is Some && up_line(
                self.search_result.files@,
                self.cursor@.file->0,
                self.cursor@.line_number->0,
            ) is Some),
    {
        if self.cursor.is_file_level() {
            self.peek_up_file().is_some()
        } else if self.cursor.is_line_level() {
            self.peek_up_line().is_some()
        } else {
            false
        }
    }

    /// Whether moving down would move the cursor.
    pub fn can_cursor_down(&self) -> (r: bool)
        ensures
            r == (self.cursor@.is_file_level() && down_file(self.search_result.files@, self.cursor@.file->0) is Some
                || self.cursor@.is_line_level() && self.cursor@.file is Some && down_line(
                self.search_result.files@,
                self.cursor@.file->0,
                self.cursor@.line_number->0,
            ) is Some),
    {
        if self.cursor.is_file_level() {
            self.peek_down_file().is_some()
        } else if self.cursor.is_line_level() {
            self.peek_down_line().is_some()
        } else {
            false
        }
    }

    /// Moves the cursor down (see `down_spec`).
    pub fn cursor_down(&mut self)
        ensures
            final(self).nav() == down_spec(old(self).search_result.files@, old(self).nav()),
            final(self).same_but_nav(old(self)),
            old(self).cursor@.wf() ==> final(self).cursor@.wf(),
    {
        if self.cursor.is_file_level() {
            if let Some(fj) = self.peek_down_file() {
                self.select_file(fj);
            }
        } else if self.cursor.is_line_level() {
            if let Some((fj, lj)) = self.peek_down_line() {
                self.select_line(fj, lj);
            }
        }
    }

    /// Moves the cursor up (see `up_spec`).
    pub fn cursor_up(&mut self)
        ensures
            final(self).nav() == up_spec(old(self).search_result.files@, old(self).nav()),
            final(self).same_but_nav(old(self)),
            old(self).cursor@.wf() ==> final(self).cursor@.wf(),
    {
        if self.cursor.is_file_level() {
            if let Some(fj) = self.peek_up_file() {
                self.select_file(fj);
            }
        } else if self.cursor.is_line_level() {
            if let Some((fj, lj)) = self.peek_up_line() {
                self.select_line(fj, lj);
            }
        }
    }

    /// Enters the selected file at its first hit line (see `right_spec`).
    pub fn cursor_right(&mut self)
        ensures
            final(self).nav() == right_spec(old(self).search_result.files@, old(self).nav()),
            final(self).same_but_nav(old(self)),
            old(self).cursor@.wf() ==> final(self).cursor@.wf(),
    {
        if self.search_result.is_empty() || self.cursor.is_line_level() {
            return;
        }
        let fi = match &self.cursor.file {
            Some(f) => match find_file(&self.search_result.files, f.as_str()) {
                Some(fi) => fi,
                None => return,
            },
            None => return,
        };
        if let Some(li) = find_hit_above(&self.search_result.files[fi].lines, None) {
            self.select_line(fi, li);
        }
    }

    /// Leaves the selected line for its file.
    pub fn cursor_left(&mut self)
        ensures
            final(self).nav() == left_spec(old(self).nav()),
            final(self).same_but_nav(old(self)),
            old(self).cursor@.wf() ==> final(self).cursor@.wf(),
    {
        if self.cursor.is_line_level() {
            self.cursor.line_number = None;
        }
    }

    /// Folds or unfolds the selected file (see `toggle_spec`).
    pub fn toggle_expansion(&mut self)
        ensures
            final(self).nav() == toggle_spec(old(self).nav()),
            final(self).same_but_nav(old(self)),
            old(self).cursor@.wf() ==> final(self).cursor@.wf(),
    {
        if self.cursor.is_line_level() {
            return;
        }
        match &self.cursor.file {
            Some(f) => {
                if paths_contain(&self.collapsed, f.as_str()) {
                    paths_remove(&mut self.collapsed, f.as_str());
                } else {
                    paths_insert(&mut self.collapsed, f.as_str());
                }
            },
            None => {},
        }
    }
}


impl AppState {
    /// Whether folding all may fold `file`.
    fn can_collapse(&self, file: &str) -> (r: bool)
        ensures
            r == (self.cursor@.is_file_level() || self.cursor@.file != Some(file@)),
    {
        if self.cursor.is_file_level() {
            return true;
        }
        match &self.cursor.file {
            Some(f) => !same_text(f.as_str(), file),
            None => true,
        }
    }

    /// Folds every foldable file, or unfolds all where they all are folded
    /// (see `toggle_all_spec`).
    pub fn toggle_all_expansion(&mut self)
        ensures
            final(self).nav() == toggle_all_spec(old(self).search_result.files@, old(self).nav()),
            final(self).same_but_nav(old(self)),
            old(self).cursor@.wf() ==> final(self).cursor@.wf(),
    {
        let ghost files = self.search_result.files@;
        let ghost c = self.cursor@;
        let ghost target = foldable(files, c);
        let n = self.search_result.files.len();
        let mut all = true;
        let mut i: usize = 0;
        while i < n
            invariant
                n == files.len(),
                files == self.search_result.files@,
                c == self.cursor@,
                i <= n,
                all == (forall|j: int| 0 <= j < i && (c.is_file_level() || c.file != Some(#[trigger] files[j].path@))
                    ==> path_set(self.collapsed@).contains(files[j].path@)),
            decreases n - i,
        {
            let p = self.search_result.files[i].path.as_str();
            if self.can_collapse(p) && !paths_contain(&self.collapsed, p) {
                all = false;
            }
            i = i + 1;
        }
        proof {
            assert(all == target.subset_of(path_set(self.collapsed@))) by {
                if all {
                    assert forall|q: Seq<char>| target.contains(q) implies path_set(self.collapsed@).contains(q) by {
                        let j = choose|j: int| 0 <= j < files.len() && #[trigger] files[j].path@ == q;
                    }
                } else {
                    let j = choose|j: int| 0 <= j < n && (c.is_file_level() || c.file != Some(#[trigger] files[j].path@))
                        && !path_set(self.collapsed@).contains(files[j].path@);
                    assert(target.contains(files[j].path@));
                }
            }
        }
        if all {
            self.collapsed.clear();
            proof {
                assert(path_set(self.collapsed@) =~= Set::<Seq<char>>::empty());
            }
            return;
        }
        let ghost start = path_set(self.collapsed@);
        let mut i: usize = 0;
        while i < n
            invariant
                n == files.len(),
                files == self.search_result.files@,
                c == self.cursor@,
                i <= n,
                self.grep == old(self).grep,
                self.search_result == old(self).search_result,
                self.show_terminal_cursor == old(self).show_terminal_cursor,
                self.focus == old(self).focus,
                self.last_input_char == old(self).last_input_char,
                path_set(self.collapsed@) == start.union(Set::new(|q: Seq<char>|
                    (exists|j: int| 0 <= j < i && #[trigger] files[j].path@ == q) && (c.is_file_level() || c.file != Some(q)))),
            decreases n - i,
        {
            let ghost before = path_set(self.collapsed@);
            if self.can_collapse(self.search_result.files[i].path.as_str()) {
                let p = self.search_result.files[i].path.clone();
                paths_insert(&mut self.collapsed, p.as_str());
            }
            proof {
                let next = Set::new(|q: Seq<char>|
                    (exists|j: int| 0 <= j < i + 1 && #[trigger] files[j].path@ == q) && (c.is_file_level() || c.file != Some(q)));
                let prev = Set::new(|q: Seq<char>|
                    (exists|j: int| 0 <= j < i && #[trigger] files[j].path@ == q) && (c.is_file_level() || c.file != Some(q)));
                assert(path_set(self.collapsed@) =~= start.union(next)) by {
                    assert forall|q: Seq<char>| next.contains(q) implies path_set(self.collapsed@).contains(q) by {
                        let j = choose|j: int| 0 <= j < i + 1 && #[trigger] files[j].path@ == q;
                        if j < i {
                            assert(prev.contains(q));
                        }
                    }
                    assert forall|q: Seq<char>| path_set(self.collapsed@).contains(q) && !start.contains(q) implies next.contains(q) by {
                        if before.contains(q) {
                            assert(prev.contains(q));
                            let j = choose|j: int| 0 <= j < i && #[trigger] files[j].path@ == q;
                            assert(0 <= j < i + 1 && files[j].path@ == q);
                        } else {
                            assert(files[i as int].path@ == q);
                        }
                    }
                }
            }
            i = i + 1;
        }
        proof {
            assert(Set::new(|q: Seq<char>|
                (exists|j: int| 0 <= j < n && #[trigger] files[j].path@ == q) && (c.is_file_level() || c.file != Some(q))) =~= target);
        }
    }

    /// Moves the cursor after a new result replaced the old one (see
    /// `reset_spec`).
    pub fn reset_cursor(&mut self)
        ensures
            final(self).cursor@ == reset_spec(old(self).search_result.files@, old(self).cursor@),
            final(self).collapsed == old(self).collapsed,
            final(self).same_but_nav(old(self)),
            final(self).cursor@.wf(),
    {
        let n = self.search_result.files.len();
        if n == 0 {
            self.cursor = Cursor::new();
            return;
        }
        let old_file = match &self.cursor.file {
            Some(f) => f.clone(),
            None => {
                self.cursor.file = Some(self.search_result.files[0].path.clone());
                return;
            },
        };
        let fi = match find_file(&self.search_result.files, old_file.as_str()) {
            Some(fi) => fi,
            None => {
                let files = &self.search_result.files;
                let new_file = match find_last_file_before(files, old_file.as_str()) {
                    Some(j) => Some(files[j].path.clone()),
                    None => match find_first_file_from(files, old_file.as_str()) {
                        Some(j) => Some(files[j].path.clone()),
                        None => None,
                    },
                };
                self.cursor.file = new_file;
                self.cursor.line_number = None;
                return;
            },
        };
        proof {
            crate::git::lemma_file_index_from(self.search_result.files@, old_file@, 0);
        }
        let n0 = match self.cursor.line_number {
            Some(n0) => n0,
            None => return,
        };
        let bound = if n0 < usize::MAX { Some(n0 + 1) } else { None };
        let lines = &self.search_result.files[fi].lines;
        let new_line = match find_hit_below(lines, bound) {
            Some(li) => Some(lines[li].number),
            None => match find_hit_above(lines, None) {
                Some(li) => Some(lines[li].number),
                None => None,
            },
        };
        self.cursor.line_number = new_line;
    }

    /// Takes in a new search result and moves the cursor near its old place.
    pub fn set_search_result(&mut self, result: SearchResult)
        ensures
            final(self).search_result == result,
            final(self).cursor@ == reset_spec(result.files@, old(self).cursor@),
            final(self).collapsed == old(self).collapsed,
            final(self).focus == old(self).focus,
            final(self).cursor@.wf(),
    {
        self.search_result = result;
        self.reset_cursor();
    }
}


/// Position `a` (file index, line index) comes before position `b`.
pub open spec fn pos_lt(a: (int, int), b: (int, int)) -> bool {
    a.0 < b.0 || (a.0 == b.0 && a.1 < b.1)
}

/// Position `p` is a hit line of the tree.
pub open spec fn is_hit_pos(files: Seq<FileLines>, p: (int, int)) -> bool {
    &&& 0 <= p.0 < files.len()
    &&& 0 <= p.1 < files[p.0].lines@.len()
    &&& files[p.0].lines@[p.1].hit
}

/// `q` is the first hit line after `p`.
pub open spec fn is_next_hit(files: Seq<FileLines>, p: (int, int), q: (int, int)) -> bool {
    &&& is_hit_pos(files, q)
    &&& pos_lt(p, q)
    &&& forall|x: (int, int)| is_hit_pos(files, x) && pos_lt(p, x) ==> !pos_lt(x, q)
}

/// `q` is the last hit line before `p`.
pub open spec fn is_prev_hit(files: Seq<FileLines>, p: (int, int), q: (int, int)) -> bool {
    &&& is_hit_pos(files, q)
    &&& pos_lt(q, p)
    &&& forall|x: (int, int)| is_hit_pos(files, x) && pos_lt(x, p) ==> !pos_lt(q, x)
}

/// The cursor on the line at position `q`.
pub open spec fn cursor_at(files: Seq<FileLines>, q: (int, int)) -> CursorView {
    CursorView { file: Some(files[q.0].path@), line_number: Some(files[q.0].lines@[q.1].number) }
}

/// In a well-formed tree the file of a path is found at its own index.
proof fn lemma_file_index_of(files: Seq<FileLines>, fi: int)
    requires
        tree_wf(files),
        0 <= fi < files.len(),
    ensures
        file_index(files, files[fi].path@) == Some(fi),
{
    crate::git::lemma_file_index_from(files, files[fi].path@, 0);
    let i = file_index(files, files[fi].path@)->0;
    if i < fi {
        assert(path_lt(files[i].path@, files[fi].path@));
        crate::text::lemma_path_lt_irreflexive(files[fi].path@);
    }
}

/// In a tree whose lines are in number order, stepping down from a hit line
/// reaches the first hit line after it, over files in order; where there
/// is none, the cursor stays. Hence repeated steps down from the first hit
/// line visit every hit line once, in (path, line number) order.
pub proof fn lemma_down_is_next_hit(files: Seq<FileLines>, s: NavView, fi: int, li: int)
    requires
        tree_wf(files),
        is_hit_pos(files, (fi, li)),
        s.cursor == cursor_at(files, (fi, li)),
    ensures
        down_line(files, files[fi].path@, files[fi].lines@[li].number) matches Some(q) ==> is_next_hit(files, (fi, li), q)
            && down_spec(files, s).cursor == cursor_at(files, q),
        down_line(files, files[fi].path@, files[fi].lines@[li].number) is None ==> (forall|x: (int, int)|
            is_hit_pos(files, x) ==> !pos_lt((fi, li), x)) && down_spec(files, s) == s,
{
    lemma_file_index_of(files, fi);
    let lines = files[fi].lines@;
    let n = lines[li].number;
    crate::nav::lemma_first_hit_from(lines, Some(n), 0);
    assert(numbers_ascending(lines));
    match first_hit_from(lines, Some(n), 0) {
        Some(x) => {
            assert(x > li) by {
                if x <= li {
                    if x < li {
                        assert(lines[x].number < lines[li].number);
                    }
                }
            }
            assert forall|y: (int, int)| is_hit_pos(files, y) && pos_lt((fi, li), y) implies !pos_lt(y, (fi, x)) by {
                if y.0 == fi && y.1 < x {
                    assert(lines[li].number < lines[y.1].number);
                    assert(!(lines[y.1].hit && crate::nav::above(lines[y.1], Some(n))));
                }
            }
        },
        None => {
            assert forall|b: int| 0 <= b < lines.len() && lines[b].hit implies b <= li by {
                if b > li {
                    assert(lines[li].number < lines[b].number);
                    assert(!(lines[b].hit && crate::nav::above(lines[b], Some(n))));
                }
            }
            crate::nav::lemma_next_hit_file(files, (fi + 1) as nat);
            match next_hit_file(files, (fi + 1) as nat) {
                Some(fj) => {
                    let ls = files[fj].lines@;
                    crate::nav::lemma_first_hit_from(ls, None, 0);
                    let x = first_hit(ls)->0;
                    assert forall|y: (int, int)| is_hit_pos(files, y) && pos_lt((fi, li), y) implies !pos_lt(y, (fj, x)) by {
                        if y.0 == fi {
                            assert(y.1 <= li);
                        } else if y.0 < fj {
                            crate::nav::lemma_first_hit_from(files[y.0].lines@, None, 0);
                            assert(first_hit(files[y.0].lines@) is None);
                            assert(files[y.0].lines@[y.1].hit && crate::nav::above(files[y.0].lines@[y.1], None));
                        } else if y.0 == fj && y.1 < x {
                            assert(ls[y.1].hit && crate::nav::above(ls[y.1], None));
                        }
                    }
                },
                None => {
                    assert forall|y: (int, int)| is_hit_pos(files, y) implies !pos_lt((fi, li), y) by {
                        if y.0 == fi {
                            assert(y.1 <= li);
                        } else if y.0 > fi {
                            crate::nav::lemma_first_hit_from(files[y.0].lines@, None, 0);
                            assert(first_hit(files[y.0].lines@) is None);
                            assert(files[y.0].lines@[y.1].hit && crate::nav::above(files[y.0].lines@[y.1], None));
                        }
                    }
                },
            }
        },
    }
}

/// Stepping up from a hit line reaches the last hit line before it, the
/// mirror of `lemma_down_is_next_hit`: repeated steps up from the last hit
/// line retrace the same lines in reverse.
pub proof fn lemma_up_is_prev_hit(files: Seq<FileLines>, s: NavView, fi: int, li: int)
    requires
        tree_wf(files),
        is_hit_pos(files, (fi, li)),
        s.cursor == cursor_at(files, (fi, li)),
    ensures
        up_line(files, files[fi].path@, files[fi].lines@[li].number) matches Some(q) ==> is_prev_hit(files, (fi, li), q)
            && up_spec(files, s).cursor == cursor_at(files, q),
        up_line(files, files[fi].path@, files[fi].lines@[li].number) is None ==> (forall|x: (int, int)|
            is_hit_pos(files, x) ==> !pos_lt(x, (fi, li))) && up_spec(files, s) == s,
{
    lemma_file_index_of(files, fi);
    let lines = files[fi].lines@;
    let n = lines[li].number;
    crate::nav::lemma_last_hit_under(lines, Some(n), lines.len());
    assert(numbers_ascending(lines));
    match last_hit_under(lines, Some(n), lines.len()) {
        Some(x) => {
            assert(x < li) by {
                if x >= li {
                    if x > li {
                        assert(lines[li].number < lines[x].number);
                    }
                }
            }
            assert forall|y: (int, int)| is_hit_pos(files, y) && pos_lt(y, (fi, li)) implies !pos_lt((fi, x), y) by {
                if y.0 == fi && y.1 > x {
                    assert(lines[y.1].number < lines[li].number);
                    assert(!(lines[y.1].hit && crate::nav::below(lines[y.1], Some(n))));
                }
            }
        },
        None => {
            assert forall|b: int| 0 <= b < lines.len() && lines[b].hit implies b >= li by {
                if b < li {
                    assert(lines[b].number < lines[li].number);
                    assert(!(lines[b].hit && crate::nav::below(lines[b], Some(n))));
                }
            }
            crate::nav::lemma_prev_hit_file(files, fi as nat);
            match prev_hit_file(files, fi as nat) {
                Some(fj) => {
                    let ls = files[fj].lines@;
                    crate::nav::lemma_last_hit_under(ls, None, ls.len());
                    let x = last_hit(ls)->0;
                    assert forall|y: (int, int)| is_hit_pos(files, y) && pos_lt(y, (fi, li)) implies !pos_lt((fj, x), y) by {
                        if y.0 == fi {
                            assert(y.1 >= li);
                        } else if y.0 > fj {
                            crate::nav::lemma_last_hit_under(files[y.0].lines@, None, files[y.0].lines@.len());
                            assert(last_hit(files[y.0].lines@) is None);
                            assert(files[y.0].lines@[y.1].hit && crate::nav::below(files[y.0].lines@[y.1], None));
                        } else if y.0 == fj && y.1 > x {
                            assert(ls[y.1].hit && crate::nav::below(ls[y.1], None));
                        }
                    }
                },
                None => {
                    assert forall|y: (int, int)| is_hit_pos(files, y) implies !pos_lt(y, (fi, li)) by {
                        if y.0 == fi {
                            assert(y.1 >= li);
                        } else if y.0 < fi {
                            crate::nav::lemma_last_hit_under(files[y.0].lines@, None, files[y.0].lines@.len());
                            assert(last_hit(files[y.0].lines@) is None);
                            assert(files[y.0].lines@[y.1].hit && crate::nav::below(files[y.0].lines@[y.1], None));
                        }
                    }
                },
            }
        },
    }
}

/// Entering a collapsed file unfolds it and selects its first hit line;
/// leaving that line returns to the file, and no other file's folding has
/// changed on the way.
pub proof fn lemma_collapse_transparency(files: Seq<FileLines>, s: NavView, fi: int)
    requires
        tree_wf(files),
        0 <= fi < files.len(),
        s.cursor == (CursorView { file: Some(files[fi].path@), line_number: None }),
        s.collapsed.contains(files[fi].path@),
        first_hit(files[fi].lines@) is Some,
    ensures
        ({
            let r = right_spec(files, s);
            let l = left_spec(r);
            &&& r.cursor == cursor_at(files, (fi, first_hit(files[fi].lines@)->0))
            &&& !r.collapsed.contains(files[fi].path@)
            &&& l.cursor == s.cursor
            &&& forall|q: Seq<char>| q != files[fi].path@ ==> (l.collapsed.contains(q) == s.collapsed.contains(q))
        }),
{
    lemma_file_index_of(files, fi);
}


proof fn lemma_last_file_before(files: Seq<FileLines>, p: Seq<char>, k: nat)
    requires
        k <= files.len(),
    ensures
        last_file_before(files, p, k) matches Some(j) ==> 0 <= j < k && path_lt(files[j].path@, p) && forall|i: int|
            j < i < k ==> !path_lt((#[trigger] files[i]).path@, p),
        last_file_before(files, p, k) is None ==> forall|i: int| 0 <= i < k ==> !path_lt((#[trigger] files[i]).path@, p),
    decreases k,
{
    if k > 0 {
        lemma_last_file_before(files, p, (k - 1) as nat);
    }
}

/// After a new result where the selected file is gone, the cursor moves to
/// the file with the greatest path before the old one, or, where there is
/// none, to the file with the least path (which comes after it), at file
/// level.
pub proof fn lemma_reset_nearest_file(files: Seq<FileLines>, c: CursorView)
    requires
        paths_sorted(files),
        files.len() > 0,
        c.file matches Some(p) && file_index(files, p) is None,
    ensures
        ({
            let p = c.file->0;
            let r = reset_spec(files, c);
            &&& r.line_number is None
            &&& r.file matches Some(q) && (exists|j: int| 0 <= j < files.len() && files[j].path@ == q)
            &&& (exists|i: int| 0 <= i < files.len() && path_lt((#[trigger] files[i]).path@, p)) ==> (path_lt(
                r.file->0,
                p,
            ) && forall|i: int| 0 <= i < files.len() && path_lt((#[trigger] files[i]).path@, p) ==> !path_lt(r.file->0, files[i].path@))
            &&& !(exists|i: int| 0 <= i < files.len() && path_lt((#[trigger] files[i]).path@, p)) ==> (path_lt(
                p,
                r.file->0,
            ) && forall|i: int| 0 <= i < files.len() ==> !path_lt((#[trigger] files[i]).path@, r.file->0))
        }),
{
    let p = c.file->0;
    let n = files.len();
    lemma_last_file_before(files, p, n);
    crate::git::lemma_file_index_from(files, p, 0);
    match last_file_before(files, p, n) {
        Some(j) => {
            assert forall|i: int| 0 <= i < n && path_lt((#[trigger] files[i]).path@, p) implies !path_lt(files[j].path@, files[i].path@) by {
                if i < j {
                    crate::text::lemma_path_lt_total(files[i].path@, files[j].path@);
                } else if i == j {
                    crate::text::lemma_path_lt_irreflexive(files[j].path@);
                }
            }
        },
        None => {
            assert(first_file_from(files, p, 0) == Some(0int));
            crate::text::lemma_path_lt_total(files[0].path@, p);
            assert forall|i: int| 0 <= i < n implies !path_lt((#[trigger] files[i]).path@, files[0].path@) by {
                if i > 0 {
                    crate::text::lemma_path_lt_total(files[0].path@, files[i].path@);
                } else {
                    crate::text::lemma_path_lt_irreflexive(files[0].path@);
                }
            }
        },
    }
}


/// The hit lines of file `fi` from line `li` on, as positions, in order.
pub open spec fn hits_in_file(files: Seq<FileLines>, fi: int, li: nat) -> Seq<(int, int)>
    decreases files[fi].lines@.len() - li,
{
    if li >= files[fi].lines@.len() {
        Seq::empty()
    } else if files[fi].lines@[li as int].hit {
        seq![(fi, li as int)] + hits_in_file(files, fi, li + 1)
    } else {
        hits_in_file(files, fi, li + 1)
    }
}

/// The hit lines of the files from `fi` on, as positions, in order.
pub open spec fn hits_from(files: Seq<FileLines>, fi: nat) -> Seq<(int, int)>
    decreases files.len() - fi,
{
    if fi >= files.len() {
        Seq::empty()
    } else {
        hits_in_file(files, fi as int, 0) + hits_from(files, fi + 1)
    }
}

/// All hit lines of the tree, in (file, line) order.
pub open spec fn all_hits(files: Seq<FileLines>) -> Seq<(int, int)> {
    hits_from(files, 0)
}

proof fn lemma_hits_in_file(files: Seq<FileLines>, fi: int, li: nat)
    requires
        0 <= fi < files.len(),
    ensures
        forall|k: int|
            0 <= k < hits_in_file(files, fi, li).len() ==> is_hit_pos(files, #[trigger] hits_in_file(files, fi, li)[k])
                && hits_in_file(files, fi, li)[k].0 == fi && hits_in_file(files, fi, li)[k].1 >= li,
        forall|a: int, b: int|
            0 <= a < b < hits_in_file(files, fi, li).len() ==> #[trigger] hits_in_file(files, fi, li)[a].1
                < #[trigger] hits_in_file(files, fi, li)[b].1,
        forall|x: (int, int)|
            is_hit_pos(files, x) && x.0 == fi && x.1 >= li ==> #[trigger] hits_in_file(files, fi, li).contains(x),
    decreases files[fi].lines@.len() - li,
{
    if li < files[fi].lines@.len() {
        lemma_hits_in_file(files, fi, li + 1);
        let rest = hits_in_file(files, fi, li + 1);
        let h = hits_in_file(files, fi, li);
        if files[fi].lines@[li as int].hit {
            assert(h == seq![(fi, li as int)] + rest);
            assert forall|x: (int, int)| is_hit_pos(files, x) && x.0 == fi && x.1 >= li implies #[trigger] h.contains(x) by {
                if x.1 == li {
                    assert(h[0] == x);
                } else {
                    assert(rest.contains(x));
                    let k = choose|k: int| 0 <= k < rest.len() && rest[k] == x;
                    assert(h[k + 1] == x);
                }
            }
            assert forall|a: int, b: int| 0 <= a < b < h.len() implies #[trigger] h[a].1 < #[trigger] h[b].1 by {
                if a > 0 {
                    assert(h[a] == rest[a - 1] && h[b] == rest[b - 1]);
                } else {
                    assert(h[b] == rest[b - 1]);
                }
            }
            assert forall|k: int| 0 <= k < h.len() implies is_hit_pos(files, #[trigger] h[k]) && h[k].0 == fi && h[k].1 >= li by {
                if k > 0 {
                    assert(h[k] == rest[k - 1]);
                }
            }
        }
    }
}

proof fn lemma_hits_from(files: Seq<FileLines>, fi: nat)
    ensures
        forall|k: int| 0 <= k < hits_from(files, fi).len() ==> is_hit_pos(files, #[trigger] hits_from(files, fi)[k])
            && hits_from(files, fi)[k].0 >= fi,
        forall|a: int, b: int|
            0 <= a < b < hits_from(files, fi).len() ==> pos_lt(#[trigger] hits_from(files, fi)[a], #[trigger] hits_from(files, fi)[b]),
        forall|x: (int, int)| is_hit_pos(files, x) && x.0 >= fi ==> #[trigger] hits_from(files, fi).contains(x),
    decreases files.len() - fi,
{
    if fi < files.len() {
        lemma_hits_from(files, fi + 1);
        lemma_hits_in_file(files, fi as int, 0);
        let a_ = hits_in_file(files, fi as int, 0);
        let r = hits_from(files, fi + 1);
        let h = hits_from(files, fi);
        assert(h == a_ + r);
        assert forall|k: int| 0 <= k < h.len() implies is_hit_pos(files, #[trigger] h[k]) && h[k].0 >= fi by {
            if k < a_.len() {
                assert(h[k] == a_[k]);
            } else {
                assert(h[k] == r[k - a_.len()]);
            }
        }
        assert forall|a: int, b: int| 0 <= a < b < h.len() implies pos_lt(#[trigger] h[a], #[trigger] h[b]) by {
            if b < a_.len() {
                assert(h[a] == a_[a] && h[b] == a_[b]);
            } else if a < a_.len() {
                assert(h[a] == a_[a] && h[b] == r[b - a_.len()]);
            } else {
                assert(h[a] == r[a - a_.len()] && h[b] == r[b - a_.len()]);
            }
        }
        assert forall|x: (int, int)| is_hit_pos(files, x) && x.0 >= fi implies #[trigger] h.contains(x) by {
            if x.0 == fi {
                assert(a_.contains(x));
                let k = choose|k: int| 0 <= k < a_.len() && a_[k] == x;
                assert(h[k] == x);
            } else {
                assert(r.contains(x));
                let k = choose|k: int| 0 <= k < r.len() && r[k] == x;
                assert(h[k + a_.len()] == x);
            }
        }
    } else {
        assert forall|x: (int, int)| is_hit_pos(files, x) && x.0 >= fi implies #[trigger] hits_from(files, fi).contains(x) by {
        }
    }
}

/// The list of all hit lines holds every hit line once, in (file, line)
/// order: strictly increasing, nothing else.
pub proof fn lemma_all_hits(files: Seq<FileLines>)
    ensures
        forall|k: int| 0 <= k < all_hits(files).len() ==> is_hit_pos(files, #[trigger] all_hits(files)[k]),
        forall|a: int, b: int| 0 <= a < b < all_hits(files).len() ==> pos_lt(#[trigger] all_hits(files)[a], #[trigger] all_hits(files)[b]),
        forall|x: (int, int)| is_hit_pos(files, x) ==> #[trigger] all_hits(files).contains(x),
{
    lemma_hits_from(files, 0);
}

/// `n` steps down.
pub open spec fn down_steps(files: Seq<FileLines>, s: NavView, n: nat) -> NavView
    decreases n,
{
    if n == 0 {
        s
    } else {
        down_spec(files, down_steps(files, s, (n - 1) as nat))
    }
}

/// `n` steps up.
pub open spec fn up_steps(files: Seq<FileLines>, s: NavView, n: nat) -> NavView
    decreases n,
{
    if n == 0 {
        s
    } else {
        up_spec(files, up_steps(files, s, (n - 1) as nat))
    }
}

/// Walking down from the first hit line of a well-formed tree visits every
/// hit line exactly once, in (path, line number) order: after `k` steps the
/// cursor is on the `k`-th hit line, and once on the last one it stays.
pub proof fn lemma_down_walk(files: Seq<FileLines>, s: NavView, k: nat)
    requires
        tree_wf(files),
        all_hits(files).len() > 0,
        s.cursor == cursor_at(files, all_hits(files)[0]),
    ensures
        down_steps(files, s, k).cursor == cursor_at(
            files,
            all_hits(files)[if k < all_hits(files).len() { k as int } else { all_hits(files).len() - 1 }],
        ),
    decreases k,
{
    let h = all_hits(files);
    lemma_all_hits(files);
    if k > 0 {
        lemma_down_walk(files, s, (k - 1) as nat);
        let j = if k - 1 < h.len() { (k - 1) as int } else { h.len() - 1 };
        let p = h[j];
        let prev = down_steps(files, s, (k - 1) as nat);
        assert(is_hit_pos(files, p));
        lemma_down_is_next_hit(files, prev, p.0, p.1);
        if j + 1 < h.len() {
            let q = h[j + 1];
            assert(pos_lt(p, q));
            match down_line(files, files[p.0].path@, files[p.0].lines@[p.1].number) {
                Some(r) => {
                    assert(is_next_hit(files, p, r));
                    assert(h.contains(r));
                    let m = choose|m: int| 0 <= m < h.len() && h[m] == r;
                    if m <= j {
                        if m < j {
                            assert(pos_lt(h[m], h[j]));
                        }
                    }
                    if m > j + 1 {
                        assert(pos_lt(h[j + 1], h[m]));
                    }
                    assert(m == j + 1);
                },
                None => {
                    assert(!pos_lt(p, q));
                },
            }
        } else {
            match down_line(files, files[p.0].path@, files[p.0].lines@[p.1].number) {
                Some(r) => {
                    assert(h.contains(r));
                    let m = choose|m: int| 0 <= m < h.len() && h[m] == r;
                    assert(is_next_hit(files, p, r));
                    if m < j {
                        assert(pos_lt(h[m], h[j]));
                    }
                },
                None => {},
            }
        }
    }
}

/// Walking up from the last hit line retraces the walk down in reverse:
/// after `k` steps the cursor is on the hit line `k` places before the
/// last, and once on the first one it stays.
pub proof fn lemma_up_walk(files: Seq<FileLines>, s: NavView, k: nat)
    requires
        tree_wf(files),
        all_hits(files).len() > 0,
        s.cursor == cursor_at(files, all_hits(files)[all_hits(files).len() - 1]),
    ensures
        up_steps(files, s, k).cursor == cursor_at(
            files,
            all_hits(files)[if k < all_hits(files).len() { all_hits(files).len() - 1 - k } else { 0 }],
        ),
    decreases k,
{
    let h = all_hits(files);
    lemma_all_hits(files);
    if k > 0 {
        lemma_up_walk(files, s, (k - 1) as nat);
        let j = if k - 1 < h.len() { h.len() - 1 - (k - 1) } else { 0 };
        let p = h[j];
        let prev = up_steps(files, s, (k - 1) as nat);
        lemma_up_is_prev_hit(files, prev, p.0, p.1);
        if j > 0 {
            let q = h[j - 1];
            assert(pos_lt(q, p));
            match up_line(files, files[p.0].path@, files[p.0].lines@[p.1].number) {
                Some(r) => {
                    assert(is_prev_hit(files, p, r));
                    assert(h.contains(r));
                    let m = choose|m: int| 0 <= m < h.len() && h[m] == r;
                    if m >= j {
                        if m > j {
                            assert(pos_lt(h[j], h[m]));
                        }
                    }
                    if m < j - 1 {
                        assert(pos_lt(h[m], h[j - 1]));
                    }
                    assert(m == j - 1);
                },
                None => {
                    assert(!pos_lt(q, p));
                },
            }
        } else {
            match up_line(files, files[p.0].path@, files[p.0].lines@[p.1].number) {
                Some(r) => {
                    assert(h.contains(r));
                    let m = choose|m: int| 0 <= m < h.len() && h[m] == r;
                    assert(is_prev_hit(files, p, r));
                    if m > j {
                        assert(pos_lt(h[j], h[m]));
                    }
                },
                None => {},
            }
        }
    }
}

} // verus!
