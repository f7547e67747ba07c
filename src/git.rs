//! The search result tree: files in path order, each with its numbered
//! lines (hits and context), and the matched texts of each hit line.

use vstd::prelude::*;
use crate::app::Focus;
use crate::text::{chars_of, decimal, decimal_string, push_char, same_text, path_lt};

verus! {

/// One line of a search result.
#[derive(Debug)]
pub struct Line {
    /// Line number in the file, from one.
    pub number: usize,
    pub text: String,
    /// A line that matched, as opposed to a context line.
    pub hit: bool,
}

/// A file of a search result and its lines.
#[derive(Debug)]
pub struct FileLines {
    pub path: String,
    pub lines: Vec<Line>,
}

/// The matched texts of one line.
#[derive(Debug)]
pub struct HighlightLine {
    pub number: usize,
    pub texts: Vec<String>,
}

/// The matched texts of one file, by line.
#[derive(Debug)]
pub struct HighlightFile {
    pub path: String,
    pub lines: Vec<HighlightLine>,
}

/// The matched texts of a search, by file and line.
#[derive(Debug)]
pub struct Highlight {
    pub files: Vec<HighlightFile>,
}

/// The result of a search: the files with their lines, the width of the
/// widest line number, the matched texts, and the search's error message
/// where it failed.
#[derive(Debug)]
pub struct SearchResult {
    pub files: Vec<FileLines>,
    pub max_line_width: usize,
    pub highlight: Highlight,
    pub error: Option<String>,
}

/// Paths in strictly increasing order, hence all different.
pub open spec fn paths_sorted(files: Seq<FileLines>) -> bool {
    forall|i: int, j: int| 0 <= i < j < files.len() ==> path_lt(#[trigger] files[i].path@, #[trigger] files[j].path@)
}

/// Line numbers in strictly increasing order.
pub open spec fn numbers_ascending(lines: Seq<Line>) -> bool {
    forall|i: int, j: int| 0 <= i < j < lines.len() ==> #[trigger] lines[i].number < #[trigger] lines[j].number
}

/// The shape of a result tree: files in path order, each file's lines in
/// line-number order.
pub open spec fn tree_wf(files: Seq<FileLines>) -> bool {
    &&& paths_sorted(files)
    &&& forall|i: int| 0 <= i < files.len() ==> numbers_ascending(#[trigger] files[i].lines@)
}

/// The index of the first file whose path is `key`, scanning from `k`.
pub open spec fn file_index_from(xs: Seq<FileLines>, key: Seq<char>, k: nat) -> Option<int>
    decreases xs.len() - k,
{
    if k >= xs.len() {
        None
    } else if xs[k as int].path@ == key {
        Some(k as int)
    } else {
        file_index_from(xs, key, k + 1)
    }
}

pub open spec fn file_index(xs: Seq<FileLines>, key: Seq<char>) -> Option<int> {
    file_index_from(xs, key, 0)
}

pub proof fn lemma_file_index_from(xs: Seq<FileLines>, key: Seq<char>, k: nat)
    ensures
        file_index_from(xs, key, k) matches Some(i) ==> k <= i < xs.len() && xs[i].path@ == key
            && forall|j: int| k <= j < i ==> (#[trigger] xs[j]).path@ != key,
        file_index_from(xs, key, k) is None ==> forall|j: int| k <= j < xs.len() ==> (#[trigger] xs[j]).path@ != key,
    decreases xs.len() - k,
{
    if k < xs.len() {
        lemma_file_index_from(xs, key, k + 1);
    }
}

/// The index of the first highlighted file whose path is `key`, scanning from `k`.
pub open spec fn highlight_index_from(xs: Seq<HighlightFile>, key: Seq<char>, k: nat) -> Option<int>
    decreases xs.len() - k,
{
    if k >= xs.len() {
        None
    } else if xs[k as int].path@ == key {
        Some(k as int)
    } else {
        highlight_index_from(xs, key, k + 1)
    }
}

pub open spec fn highlight_index(xs: Seq<HighlightFile>, key: Seq<char>) -> Option<int> {
    highlight_index_from(xs, key, 0)
}

/// Number of hit lines among `lines`.
pub open spec fn count_hits(lines: Seq<Line>) -> nat
    decreases lines.len(),
{
    if lines.len() == 0 {
        0
    } else {
        count_hits(lines.drop_last()) + if lines.last().hit { 1nat } else { 0 }
    }
}

/// Number of lines that have matched texts.
pub open spec fn highlighted_lines(files: Seq<HighlightFile>) -> nat
    decreases files.len(),
{
    if files.len() == 0 {
        0
    } else {
        highlighted_lines(files.drop_last()) + files.last().lines@.len()
    }
}

/// Number of matched texts in the lines of one file.
pub open spec fn texts_in_lines(lines: Seq<HighlightLine>) -> nat
    decreases lines.len(),
{
    if lines.len() == 0 {
        0
    } else {
        texts_in_lines(lines.drop_last()) + lines.last().texts@.len()
    }
}

/// Number of matched texts in all files.
pub open spec fn texts_in_files(files: Seq<HighlightFile>) -> nat
    decreases files.len(),
{
    if files.len() == 0 {
        0
    } else {
        texts_in_files(files.drop_last()) + texts_in_lines(files.last().lines@)
    }
}

/// `n`, or `usize::MAX` where `n` does not fit.
pub open spec fn clamp_usize(n: nat) -> usize {
    if n <= usize::MAX {
        n as usize
    } else {
        usize::MAX
    }
}

/// Finds the file whose path is `key`.
pub fn find_file(xs: &Vec<FileLines>, key: &str) -> (r: Option<usize>)
    ensures
        r matches Some(i) ==> Some(i as int) == file_index(xs@, key@) && i < xs@.len(),
        r is None ==> file_index(xs@, key@) is None,
{
    let mut i: usize = 0;
    while i < xs.len()
        invariant
            i <= xs@.len(),
            file_index(xs@, key@) == file_index_from(xs@, key@, i as nat),
        decreases xs@.len() - i,
    {
        if same_text(xs[i].path.as_str(), key) {
            return Some(i);
        }
        i = i + 1;
    }
    None
}

/// Finds the highlighted file whose path is `key`.
fn find_highlight(xs: &Vec<HighlightFile>, key: &str) -> (r: Option<usize>)
    ensures
        r matches Some(i) ==> Some(i as int) == highlight_index(xs@, key@) && i < xs@.len(),
        r is None ==> highlight_index(xs@, key@) is None,
{
    let mut i: usize = 0;
    while i < xs.len()
        invariant
            i <= xs@.len(),
            highlight_index(xs@, key@) == highlight_index_from(xs@, key@, i as nat),
        decreases xs@.len() - i,
    {
        if same_text(xs[i].path.as_str(), key) {
            return Some(i);
        }
        i = i + 1;
    }
    None
}

impl Default for Highlight {
    fn default() -> (r: Self)
        ensures
            r.files@.len() == 0,
    {
        Highlight { files: Vec::new() }
    }
}

impl SearchResult {
    /// An empty result.
    pub fn empty() -> (r: Self)
        ensures
            r.files@.len() == 0,
            r.highlight.files@.len() == 0,
            r.max_line_width == 1,
            r.error is None,
    {
        SearchResult {
            files: Vec::new(),
            max_line_width: 1,
            highlight: Highlight { files: Vec::new() },
            error: None,
        }
    }

    /// A result that holds only the search's error message.
    pub fn failed(message: String) -> (r: Self)
        ensures
            r.files@.len() == 0,
            r.highlight.files@.len() == 0,
            r.error == Some(message),
    {
        SearchResult { error: Some(message), ..Self::empty() }
    }

    pub fn is_empty(&self) -> (r: bool)
        ensures
            r == (self.files@.len() == 0),
    {
        self.files.len() == 0
    }

    /// The lines of `file`, where the result holds it.
    pub fn lines_in_file(&self, file: &str) -> (r: Option<&Vec<Line>>)
        ensures
            r matches Some(v) ==> file_index(self.files@, file@) matches Some(i) && *v == self.files@[i].lines,
            r is None ==> file_index(self.files@, file@) is None,
    {
        match find_file(&self.files, file) {
            Some(i) => Some(&self.files[i].lines),
            None => None,
        }
    }

    /// Number of files.
    pub fn hit_files(&self) -> (r: usize)
        ensures
            r == self.files@.len(),
    {
        self.files.len()
    }

    /// Number of lines with matched texts, saturating.
    pub open spec fn hit_lines_spec(&self) -> usize {
        clamp_usize(highlighted_lines(self.highlight.files@))
    }

    /// Number of matched texts, saturating.
    pub open spec fn hit_texts_spec(&self) -> usize {
        clamp_usize(texts_in_files(self.highlight.files@))
    }

    /// Number of lines with matched texts.
    pub fn hit_lines(&self) -> (r: usize)
        ensures
            r == clamp_usize(highlighted_lines(self.highlight.files@)),
    {
        let fs = &self.highlight.files;
        let mut acc: usize = 0;
        let mut i: usize = 0;
        while i < fs.len()
            invariant
                i <= fs@.len(),
                acc == clamp_usize(highlighted_lines(fs@.take(i as int))),
            decreases fs@.len() - i,
        {
            proof {
                assert(fs@.take(i + 1).drop_last() =~= fs@.take(i as int));
            }
            acc = acc.saturating_add(fs[i].lines.len());
            i = i + 1;
        }
        proof {
            assert(fs@.take(i as int) =~= fs@);
        }
        acc
    }

    /// Number of matched texts.
    pub fn hit_texts(&self) -> (r: usize)
        ensures
            r == clamp_usize(texts_in_files(self.highlight.files@)),
    {
        let fs = &self.highlight.files;
        let mut acc: usize = 0;
        let mut i: usize = 0;
        while i < fs.len()
            invariant
                i <= fs@.len(),
                acc == clamp_usize(texts_in_files(fs@.take(i as int))),
            decreases fs@.len() - i,
        {
            proof {
                assert(fs@.take(i + 1).drop_last() =~= fs@.take(i as int));
            }
            let n = count_texts(&fs[i].lines);
            acc = acc.saturating_add(n);
            i = i + 1;
        }
        proof {
            assert(fs@.take(i as int) =~= fs@);
        }
        acc
    }

    /// Number of matched texts in `file`, saturating.
    pub open spec fn hit_texts_in_file_spec(&self, file: Seq<char>) -> usize {
        match highlight_index(self.highlight.files@, file) {
            Some(i) => clamp_usize(texts_in_lines(self.highlight.files@[i].lines@)),
            None => 0,
        }
    }

    /// Number of hit lines in `file`.
    pub open spec fn hit_lines_in_file_spec(&self, file: Seq<char>) -> usize {
        match file_index(self.files@, file) {
            Some(i) => count_hits(self.files@[i].lines@) as usize,
            None => 0,
        }
    }

    /// Number of matched texts in `file`; zero for a file without any.
    pub fn hit_texts_in_file(&self, file: &str) -> (r: usize)
        ensures
            r == self.hit_texts_in_file_spec(file@),
    {
        match find_highlight(&self.highlight.files, file) {
            Some(i) => count_texts(&self.highlight.files[i].lines),
            None => 0,
        }
    }

    /// Number of hit lines in `file`; zero for a file that is not in the
    /// result.
    pub fn hit_lines_in_file(&self, file: &str) -> (r: usize)
        ensures
            r == self.hit_lines_in_file_spec(file@),
    {
        match find_file(&self.files, file) {
            Some(i) => {
                let lines = &self.files[i].lines;
                let mut acc: usize = 0;
                let mut k: usize = 0;
                while k < lines.len()
                    invariant
                        k <= lines@.len(),
                        acc as nat == count_hits(lines@.take(k as int)),
                        acc <= k,
                    decreases lines@.len() - k,
                {
                    proof {
                        assert(lines@.take(k + 1).drop_last() =~= lines@.take(k as int));
                    }
                    if lines[k].hit {
                        acc = acc + 1;
                    }
                    k = k + 1;
                }
                proof {
                    assert(lines@.take(k as int) =~= lines@);
                }
                acc
            },
            None => 0,
        }
    }

    /// The matched texts of line `line_number` of `file`.
    pub open spec fn hit_texts_in_line_spec(&self, file: Seq<char>, line_number: usize) -> Seq<String> {
        match highlight_index(self.highlight.files@, file) {
            Some(i) => match highlight_line_index(self.highlight.files@[i].lines@, line_number) {
                Some(k) => self.highlight.files@[i].lines@[k].texts@,
                None => Seq::empty(),
            },
            None => Seq::empty(),
        }
    }

    /// The matched texts of line `line_number` of `file`, in order; none
    /// where there are none.
    pub fn hit_texts_in_line(&self, file: &str, line_number: usize) -> (r: &[String])
        ensures
            r@ == self.hit_texts_in_line_spec(file@, line_number),
    {
        match find_highlight(&self.highlight.files, file) {
            Some(i) => {
                let lines = &self.highlight.files[i].lines;
                match find_highlight_line(lines, line_number) {
                    Some(k) => lines[k].texts.as_slice(),
                    None => empty_texts(),
                }
            },
            None => empty_texts(),
        }
    }
}

/// An empty list of texts.
fn empty_texts() -> (r: &'static [String])
    ensures
        r@ == Seq::<String>::empty(),
{
    &[]
}

/// The index of the first entry for line `key`, scanning from `k`.
pub open spec fn highlight_line_index_from(xs: Seq<HighlightLine>, key: usize, k: nat) -> Option<int>
    decreases xs.len() - k,
{
    if k >= xs.len() {
        None
    } else if xs[k as int].number == key {
        Some(k as int)
    } else {
        highlight_line_index_from(xs, key, k + 1)
    }
}

pub open spec fn highlight_line_index(xs: Seq<HighlightLine>, key: usize) -> Option<int> {
    highlight_line_index_from(xs, key, 0)
}

fn find_highlight_line(xs: &Vec<HighlightLine>, key: usize) -> (r: Option<usize>)
    ensures
        r matches Some(i) ==> Some(i as int) == highlight_line_index(xs@, key) && i < xs@.len(),
        r is None ==> highlight_line_index(xs@, key) is None,
{
    let mut i: usize = 0;
    while i < xs.len()
        invariant
            i <= xs@.len(),
            highlight_line_index(xs@, key) == highlight_line_index_from(xs@, key, i as nat),
        decreases xs@.len() - i,
    {
        if xs[i].number == key {
            return Some(i);
        }
        i = i + 1;
    }
    None
}

/// Number of matched texts in `lines`, saturating.
fn count_texts(lines: &Vec<HighlightLine>) -> (r: usize)
    ensures
        r == clamp_usize(texts_in_lines(lines@)),
{
    let mut acc: usize = 0;
    let mut i: usize = 0;
    while i < lines.len()
        invariant
            i <= lines@.len(),
            acc == clamp_usize(texts_in_lines(lines@.take(i as int))),
        decreases lines@.len() - i,
    {
        proof {
            assert(lines@.take(i + 1).drop_last() =~= lines@.take(i as int));
        }
        acc = acc.saturating_add(lines[i].texts.len());
        i = i + 1;
    }
    proof {
        assert(lines@.take(i as int) =~= lines@);
    }
    acc
}


/// What `mame::terminal::str_cols` returns for a text.
pub uninterp spec fn mame_str_cols_of(s: Seq<char>) -> usize;

/// Relies on `mame::terminal::str_cols`: the display width of a string in
/// terminal columns (as `unicode_width::UnicodeWidthStr::width` counts it),
/// a function of the text alone; the empty string is zero columns wide.
#[verifier::external_body]
pub(crate) fn mame_str_cols(s: &str) -> (r: usize)
    ensures
        r == mame_str_cols_of(s@),
        s@.len() == 0 ==> r == 0,
{
    mame::terminal::str_cols(s)
}

/// How many lines of context a search shows around each hit.
#[derive(Debug, Clone, Copy, PartialEq, Eq, Structural)]
pub struct ContextLines(pub usize);

impl ContextLines {
    /// The fewest: no context.
    pub fn min() -> (r: Self)
        ensures
            r.0 == 0,
    {
        ContextLines(0)
    }

    /// The most.
    pub fn max() -> (r: Self)
        ensures
            r.0 == 9,
    {
        ContextLines(9)
    }
}

impl Default for ContextLines {
    fn default() -> (r: Self)
        ensures
            r.0 == 4,
    {
        ContextLines(4)
    }
}

/// What an argument of the query is.
#[derive(Debug, Clone, Copy, PartialEq, Eq, Structural)]
pub enum GrepArgKind {
    Pattern,
    AndPattern,
    NotPattern,
    Revision,
    Path,
    Other,
}

/// The argument kind that focus `f` edits.
pub open spec fn focused_kind(k: GrepArgKind, f: Focus) -> bool {
    ||| (k is Pattern && f is Pattern)
    ||| (k is AndPattern && f is AndPattern)
    ||| (k is NotPattern && f is NotPattern)
    ||| (k is Revision && f is Revision)
    ||| (k is Path && f is Path)
}

impl GrepArgKind {
    /// Whether `focus` edits arguments of this kind.
    pub fn is_focused(self, focus: Focus) -> (r: bool)
        ensures
            r == focused_kind(self, focus),
    {
        matches!(
            (self, focus),
            (GrepArgKind::Pattern, Focus::Pattern) | (GrepArgKind::AndPattern, Focus::AndPattern) | (
                GrepArgKind::NotPattern,
                Focus::NotPattern,
            ) | (GrepArgKind::Revision, Focus::Revision) | (GrepArgKind::Path, Focus::Path)
        )
    }
}

/// One argument of the `git grep` command line.
#[derive(Debug)]
pub struct GrepArg {
    pub kind: GrepArgKind,
    pub text: String,
    /// Where the command line wraps, it may wrap before this argument.
    pub multiline_head: bool,
}

impl Clone for GrepArg {
    fn clone(&self) -> (r: Self)
        ensures
            r == *self,
    {
        GrepArg { kind: self.kind, text: self.text.clone(), multiline_head: self.multiline_head }
    }
}

/// A character that the shell would read specially.
pub open spec fn is_shell_special(c: char) -> bool {
    c == ' ' || c == '\'' || c == '$' || c == '|' || c == '&' || c == '(' || c == ')' || c == '>' || c == '<'
        || c == '*' || c == '?' || c == '!' || c == ';' || c == '\\' || c == '"'
}

/// The text inside single quotes: each `'` becomes `'\'`.
pub open spec fn quote_body(s: Seq<char>) -> Seq<char>
    decreases s.len(),
{
    if s.len() == 0 {
        Seq::empty()
    } else {
        quote_body(s.drop_last()) + if s.last() == '\'' {
            seq!['\'', '\\', '\'']
        } else {
            seq![s.last()]
        }
    }
}

/// A text as written for the shell: `''` for the empty text, the text
/// itself where no character is special, else the text in single quotes.
pub open spec fn shell_quoted(s: Seq<char>) -> Seq<char> {
    if s.len() == 0 {
        seq!['\'', '\'']
    } else if !(exists|i: int| 0 <= i < s.len() && is_shell_special(s[i])) {
        s
    } else {
        seq!['\''] + quote_body(s) + seq!['\'']
    }
}

/// An argument as shown on the command line under `focus`: as typed where it
/// is the one being edited or a fixed word, else quoted for the shell.
pub open spec fn shown_text(a: GrepArg, focus: Focus) -> Seq<char> {
    if focused_kind(a.kind, focus) || a.kind is Other {
        a.text@
    } else {
        shell_quoted(a.text@)
    }
}

/// An argument's text as shown under `focus`, from its view.
pub open spec fn shown_view(a: ArgView, focus: Focus) -> Seq<char> {
    if focused_kind(a.kind, focus) || a.kind is Other {
        a.text
    } else {
        shell_quoted(a.text)
    }
}

impl GrepArg {
    /// An empty argument of `kind`.
    pub fn new(kind: GrepArgKind) -> (r: Self)
        ensures
            r.kind == kind,
            r.text@.len() == 0,
            !r.multiline_head,
    {
        GrepArg { kind, text: String::new(), multiline_head: false }
    }

    /// A fixed word of the command line.
    pub fn other(s: &str) -> (r: Self)
        ensures
            r.kind == GrepArgKind::Other,
            r.text@ == s@,
            !r.multiline_head,
    {
        GrepArg { kind: GrepArgKind::Other, text: s.to_owned(), multiline_head: false }
    }

    /// The same argument, which the command line may wrap before.
    pub fn line_breakable(self) -> (r: Self)
        ensures
            r == (GrepArg { multiline_head: true, ..self }),
    {
        GrepArg { multiline_head: true, ..self }
    }

    /// Inserts `c` before the character at index `i`.
    pub fn insert(&mut self, i: usize, c: char)
        requires
            i <= old(self).text@.len(),
        ensures
            final(self).text@ == old(self).text@.insert(i as int, c),
            final(self).kind == old(self).kind,
            final(self).multiline_head == old(self).multiline_head,
    {
        let n = self.text.as_str().unicode_len();
        let mut t = self.text.as_str().substring_char(0, i).to_owned();
        push_char(&mut t, c);
        let rest = self.text.as_str().substring_char(i, n);
        t.append(rest);
        proof {
            assert(t@ =~= old(self).text@.insert(i as int, c));
        }
        self.text = t;
    }

    /// Removes and returns the character at index `i`; `None`, and nothing
    /// changed, where there is none.
    pub fn remove(&mut self, i: usize) -> (r: Option<char>)
        ensures
            i < old(self).text@.len() ==> r == Some(old(self).text@[i as int]) && final(self).text@
                == old(self).text@.remove(i as int),
            i >= old(self).text@.len() ==> r is None && final(self).text@ == old(self).text@,
            final(self).kind == old(self).kind,
            final(self).multiline_head == old(self).multiline_head,
    {
        let n = self.text.as_str().unicode_len();
        if i >= n {
            return None;
        }
        let c = self.text.as_str().get_char(i);
        let mut t = self.text.as_str().substring_char(0, i).to_owned();
        let rest = self.text.as_str().substring_char(i + 1, n);
        t.append(rest);
        proof {
            assert(t@ =~= old(self).text@.remove(i as int));
        }
        self.text = t;
        Some(c)
    }

    /// The character at index `i`, if any.
    pub fn next_char(&self, i: usize) -> (r: Option<char>)
        requires
            i <= self.text@.len(),
        ensures
            r == if i < self.text@.len() { Some(self.text@[i as int]) } else { None },
    {
        if i < self.text.as_str().unicode_len() {
            Some(self.text.as_str().get_char(i))
        } else {
            None
        }
    }

    /// The character before index `i`, if any.
    pub fn prev_char(&self, i: usize) -> (r: Option<char>)
        requires
            i <= self.text@.len(),
        ensures
            r == if i > 0 { Some(self.text@[i - 1]) } else { None },
    {
        if i > 0 {
            Some(self.text.as_str().get_char(i - 1))
        } else {
            None
        }
    }

    /// Whether the argument shows on the command line under `focus`: it has
    /// text, or it is the one being edited.
    pub fn is_enabled(&self, focus: Focus) -> (r: bool)
        ensures
            r == (self.text@.len() > 0 || focused_kind(self.kind, focus)),
    {
        !self.is_empty() || self.kind.is_focused(focus)
    }

    pub fn is_empty(&self) -> (r: bool)
        ensures
            r == (self.text@.len() == 0),
    {
        self.text.as_str().unicode_len() == 0
    }

    /// Number of characters.
    pub fn len(&self) -> (r: usize)
        ensures
            r == self.text@.len(),
    {
        self.text.as_str().unicode_len()
    }

    /// The text as shown under `focus` (see `shown_text`).
    pub fn maybe_quoted_text(&self, focus: Focus) -> (r: String)
        ensures
            r@ == shown_text(*self, focus),
    {
        if self.kind.is_focused(focus) || self.kind == GrepArgKind::Other {
            self.text.clone()
        } else {
            self.quoted_text()
        }
    }

    /// Width in columns of the text as shown under `focus`.
    pub fn width(&self, focus: Focus) -> (r: usize)
        ensures
            r == mame_str_cols_of(shown_text(*self, focus)),
    {
        let t = self.maybe_quoted_text(focus);
        mame_str_cols(t.as_str())
    }

    /// The text quoted for the shell (see `shell_quoted`).
    pub fn quoted_text(&self) -> (r: String)
        ensures
            r@ == shell_quoted(self.text@),
    {
        let chars = chars_of(self.text.as_str());
        if chars.len() == 0 {
            let mut r = String::new();
            push_char(&mut r, '\'');
            push_char(&mut r, '\'');
            proof {
                assert(r@ =~= seq!['\'', '\'']);
            }
            return r;
        }
        let mut special = false;
        let mut i: usize = 0;
        while i < chars.len()
            invariant
                chars@ == self.text@,
                i <= chars@.len(),
                special == (exists|j: int| 0 <= j < i && is_shell_special(chars@[j])),
            decreases chars@.len() - i,
        {
            let c = chars[i];
            if c == ' ' || c == '\'' || c == '$' || c == '|' || c == '&' || c == '(' || c == ')' || c == '>'
                || c == '<' || c == '*' || c == '?' || c == '!' || c == ';' || c == '\\' || c == '"' {
                special = true;
            }
            i = i + 1;
        }
        if !special {
            return self.text.clone();
        }
        let mut r = String::new();
        push_char(&mut r, '\'');
        let mut i: usize = 0;
        proof {
            assert(chars@.take(0) =~= Seq::<char>::empty());
            assert(r@ =~= seq!['\''] + quote_body(chars@.take(0)));
        }
        while i < chars.len()
            invariant
                chars@ == self.text@,
                i <= chars@.len(),
                r@ == seq!['\''] + quote_body(chars@.take(i as int)),
            decreases chars@.len() - i,
        {
            let c = chars[i];
            proof {
                assert(chars@.take(i + 1).drop_last() =~= chars@.take(i as int));
                assert(chars@.take(i + 1).last() == c);
            }
            if c == '\'' {
                push_char(&mut r, '\'');
                push_char(&mut r, '\\');
                push_char(&mut r, '\'');
                proof {
                    assert(r@ =~= seq!['\''] + quote_body(chars@.take(i + 1)));
                }
            } else {
                push_char(&mut r, c);
                proof {
                    assert(r@ =~= seq!['\''] + quote_body(chars@.take(i + 1)));
                }
            }
            i = i + 1;
        }
        push_char(&mut r, '\'');
        proof {
            assert(chars@.take(i as int) =~= self.text@);
            assert(r@ =~= seq!['\''] + quote_body(self.text@) + seq!['\'']);
        }
        r
    }
}


/// What the `git grep` call is for: the command shown to the user, the
/// result lines with context, or the matched texts alone.
#[derive(Debug, Clone, Copy, PartialEq, Eq, Structural)]
pub enum Mode {
    External,
    Parsing,
    Highlight,
}

/// What a command-line argument holds.
pub struct ArgView {
    pub kind: GrepArgKind,
    pub text: Seq<char>,
    pub multiline_head: bool,
}

pub open spec fn arg_view(a: GrepArg) -> ArgView {
    ArgView { kind: a.kind, text: a.text@, multiline_head: a.multiline_head }
}

pub open spec fn args_view(v: Seq<GrepArg>) -> Seq<ArgView> {
    v.map_values(|a: GrepArg| arg_view(a))
}

/// A fixed word.
pub open spec fn word(s: Seq<char>) -> ArgView {
    ArgView { kind: GrepArgKind::Other, text: s, multiline_head: false }
}

/// The same argument, which the command line may wrap before.
pub open spec fn breakable(a: ArgView) -> ArgView {
    ArgView { multiline_head: true, ..a }
}

/// `s` where `b` holds, else nothing.
pub open spec fn when<T>(b: bool, s: Seq<T>) -> Seq<T> {
    if b {
        s
    } else {
        Seq::empty()
    }
}

/// The options of a search.
#[derive(Debug)]
pub struct GrepOptions {
    pub pattern: GrepArg,
    pub and_pattern: GrepArg,
    pub not_pattern: GrepArg,
    pub revision: GrepArg,
    pub path: GrepArg,
    pub ignore_case: bool,
    pub untracked: bool,
    pub no_index: bool,
    pub no_recursive: bool,
    pub word_regexp: bool,
    pub extended_regexp: bool,
    pub fixed_strings: bool,
    pub perl_regexp: bool,
    pub context_lines: ContextLines,
}

impl Default for GrepOptions {
    fn default() -> (r: Self)
        ensures
            r.pattern.kind == GrepArgKind::Pattern && r.pattern.text@.len() == 0 && !r.pattern.multiline_head,
            r.and_pattern.kind == GrepArgKind::AndPattern && r.and_pattern.text@.len() == 0 && !r.and_pattern.multiline_head,
            r.not_pattern.kind == GrepArgKind::NotPattern && r.not_pattern.text@.len() == 0 && !r.not_pattern.multiline_head,
            r.revision.kind == GrepArgKind::Revision && r.revision.text@.len() == 0 && !r.revision.multiline_head,
            r.path.kind == GrepArgKind::Path && r.path.text@.len() == 0 && !r.path.multiline_head,
            !r.ignore_case && !r.untracked && !r.no_index && !r.no_recursive,
            !r.word_regexp && !r.extended_regexp && !r.fixed_strings && !r.perl_regexp,
            r.context_lines.0 == 4,
    {
        GrepOptions {
            pattern: GrepArg::new(GrepArgKind::Pattern),
            and_pattern: GrepArg::new(GrepArgKind::AndPattern),
            not_pattern: GrepArg::new(GrepArgKind::NotPattern),
            revision: GrepArg::new(GrepArgKind::Revision),
            path: GrepArg::new(GrepArgKind::Path),
            ignore_case: false,
            untracked: false,
            no_index: false,
            no_recursive: false,
            word_regexp: false,
            extended_regexp: false,
            fixed_strings: false,
            perl_regexp: false,
            context_lines: ContextLines::default(),
        }
    }
}

/// Whether `a` shows on the command line under `focus`.
pub open spec fn arg_enabled(a: GrepArg, focus: Focus) -> bool {
    a.text@.len() > 0 || focused_kind(a.kind, focus)
}

/// The short flags word: `-nI`, then `i`, `w`, `E`, `F`, `P` for the flags
/// that are set.
pub open spec fn flags_word(o: GrepOptions) -> Seq<char> {
    "-nI"@ + when(o.ignore_case, seq!['i']) + when(o.word_regexp, seq!['w']) + when(o.extended_regexp, seq!['E'])
        + when(o.fixed_strings, seq!['F']) + when(o.perl_regexp, seq!['P'])
}

/// The long options that are set.
pub open spec fn long_options(o: GrepOptions) -> Seq<ArgView> {
    when(o.untracked, seq![word("--untracked"@)]) + when(o.no_index, seq![word("--no-index"@)]) + when(
        o.no_recursive,
        seq![word("--no-recursive"@)],
    )
}

/// The words that `mode` needs: the heading and context for the result
/// lines, the heading and matched texts alone for the highlights.
pub open spec fn mode_words(o: GrepOptions, mode: Mode) -> Seq<ArgView> {
    match mode {
        Mode::External => Seq::empty(),
        Mode::Parsing => seq![word("--heading"@), word("-C"@), word(decimal(o.context_lines.0 as nat))],
        Mode::Highlight => seq![word("-o"@), word("--heading"@)],
    }
}

/// The leading arguments: `grep`, the flags, the long options that are
/// set, and the words that `mode` needs.
pub open spec fn head_args(o: GrepOptions, mode: Mode) -> Seq<ArgView> {
    seq![word("grep"@), word(flags_word(o))] + long_options(o) + mode_words(o, mode)
}

/// The pattern arguments: the pattern, then the `--and` and `--and --not`
/// patterns where they show.
pub open spec fn pattern_args(o: GrepOptions, focus: Focus) -> Seq<ArgView> {
    let and_on = arg_enabled(o.and_pattern, focus);
    let not_on = arg_enabled(o.not_pattern, focus);
    (if not_on || and_on {
        seq![breakable(word("-e"@)), arg_view(o.pattern)]
    } else {
        seq![breakable(arg_view(o.pattern))]
    }) + when(and_on, seq![breakable(word("--and"@)), word("-e"@), arg_view(o.and_pattern)]) + when(
        not_on,
        seq![breakable(word("--and"@)), word("--not"@), word("-e"@), arg_view(o.not_pattern)],
    )
}

/// The revision and path arguments, where they show.
pub open spec fn target_args(o: GrepOptions, focus: Focus) -> Seq<ArgView> {
    let rev_on = arg_enabled(o.revision, focus);
    let path_on = arg_enabled(o.path, focus);
    when(rev_on, seq![breakable(arg_view(o.revision))] + when(!path_on, seq![word("--"@)])) + when(
        path_on,
        seq![breakable(word("--"@)), arg_view(o.path)],
    )
}

/// The arguments of `git` for a search under `focus`.
pub open spec fn grep_args(o: GrepOptions, mode: Mode, focus: Focus) -> Seq<ArgView> {
    head_args(o, mode) + pattern_args(o, focus) + target_args(o, focus)
}

/// Pushes `a` onto `v`.
fn push_arg(v: &mut Vec<GrepArg>, a: GrepArg)
    ensures
        args_view(final(v)@) == args_view(old(v)@).push(arg_view(a)),
{
    v.push(a);
    proof {
        assert(args_view(v@) =~= args_view(old(v)@).push(arg_view(a)));
    }
}

impl GrepOptions {
    /// The arguments of the command as the user sees it under `focus`.
    pub fn args(&self, focus: Focus) -> (r: Vec<GrepArg>)
        ensures
            args_view(r@) == grep_args(*self, Mode::External, focus),
    {
        self.build_grep_args(Mode::External, focus)
    }

    /// The arguments of `git` for a search in `mode` (see `grep_args`).
    pub fn build_grep_args(&self, mode: Mode, focus: Focus) -> (r: Vec<GrepArg>)
        ensures
            args_view(r@) == grep_args(*self, mode, focus),
    {
        let mut args: Vec<GrepArg> = Vec::new();
        proof {
            assert(args_view(args@) =~= Seq::<ArgView>::empty());
        }
        self.push_head_args(&mut args, mode);
        self.push_pattern_args(&mut args, focus);
        self.push_target_args(&mut args, focus);
        proof {
            assert(Seq::<ArgView>::empty() + head_args(*self, mode) =~= head_args(*self, mode));
        }
        args
    }

    /// The short flags word (see `flags_word`).
    fn flags_text(&self) -> (r: String)
        ensures
            r@ == flags_word(*self),
    {
        let mut flags = "-nI".to_owned();
        let ghost f0 = flags@;
        if self.ignore_case {
            push_char(&mut flags, 'i');
        }
        let ghost f1 = flags@;
        if self.word_regexp {
            push_char(&mut flags, 'w');
        }
        let ghost f2 = flags@;
        if self.extended_regexp {
            push_char(&mut flags, 'E');
        }
        let ghost f3 = flags@;
        if self.fixed_strings {
            push_char(&mut flags, 'F');
        }
        let ghost f4 = flags@;
        if self.perl_regexp {
            push_char(&mut flags, 'P');
        }
        proof {
            assert(f1 =~= f0 + when(self.ignore_case, seq!['i']));
            assert(f2 =~= f1 + when(self.word_regexp, seq!['w']));
            assert(f3 =~= f2 + when(self.extended_regexp, seq!['E']));
            assert(f4 =~= f3 + when(self.fixed_strings, seq!['F']));
            assert(flags@ =~= f4 + when(self.perl_regexp, seq!['P']));
        }
        flags
    }

    fn push_head_args(&self, args: &mut Vec<GrepArg>, mode: Mode)
        ensures
            args_view(final(args)@) == args_view(old(args)@) + head_args(*self, mode),
    {
        let ghost s0 = args_view(args@);
        push_arg(args, GrepArg::other("grep"));
        let flags = self.flags_text();
        push_arg(args, GrepArg::other(flags.as_str()));
        let ghost a0 = args_view(args@);
        self.push_long_options(args);
        let ghost a1 = args_view(args@);
        self.push_mode_words(args, mode);
        proof {
            assert(a0 =~= s0 + seq![word("grep"@), word(flags_word(*self))]);
            assert(args_view(args@) =~= s0 + head_args(*self, mode));
        }
    }

    fn push_long_options(&self, args: &mut Vec<GrepArg>)
        ensures
            args_view(final(args)@) == args_view(old(args)@) + long_options(*self),
    {
        let ghost s0 = args_view(args@);
        if self.untracked {
            push_arg(args, GrepArg::other("--untracked"));
        }
        let ghost a1 = args_view(args@);
        if self.no_index {
            push_arg(args, GrepArg::other("--no-index"));
        }
        let ghost a2 = args_view(args@);
        if self.no_recursive {
            push_arg(args, GrepArg::other("--no-recursive"));
        }
        proof {
            let o = *self;
            assert(a1 =~= s0 + when(o.untracked, seq![word("--untracked"@)]));
            assert(a2 =~= a1 + when(o.no_index, seq![word("--no-index"@)]));
            assert(args_view(args@) =~= a2 + when(o.no_recursive, seq![word("--no-recursive"@)]));
            assert(args_view(args@) =~= s0 + long_options(o));
        }
    }

    fn push_mode_words(&self, args: &mut Vec<GrepArg>, mode: Mode)
        ensures
            args_view(final(args)@) == args_view(old(args)@) + mode_words(*self, mode),
    {
        let ghost s0 = args_view(args@);
        match mode {
            Mode::External => {
                proof {
                    assert(s0 + Seq::<ArgView>::empty() =~= s0);
                }
            },
            Mode::Parsing => {
                push_arg(args, GrepArg::other("--heading"));
                push_arg(args, GrepArg::other("-C"));
                let n = decimal_string(self.context_lines.0);
                push_arg(args, GrepArg::other(n.as_str()));
                proof {
                    assert(args_view(args@) =~= s0 + mode_words(*self, mode));
                }
            },
            Mode::Highlight => {
                push_arg(args, GrepArg::other("-o"));
                push_arg(args, GrepArg::other("--heading"));
                proof {
                    assert(args_view(args@) =~= s0 + mode_words(*self, mode));
                }
            },
        }
    }

    fn push_pattern_args(&self, args: &mut Vec<GrepArg>, focus: Focus)
        ensures
            args_view(final(args)@) == args_view(old(args)@) + pattern_args(*self, focus),
    {
        let ghost s0 = args_view(args@);
        let and_on = self.and_pattern.is_enabled(focus);
        let not_on = self.not_pattern.is_enabled(focus);
        if not_on || and_on {
            push_arg(args, GrepArg::other("-e").line_breakable());
            push_arg(args, self.pattern.clone());
        } else {
            push_arg(args, self.pattern.clone().line_breakable());
        }
        let ghost a6 = args_view(args@);
        if and_on {
            push_arg(args, GrepArg::other("--and").line_breakable());
            push_arg(args, GrepArg::other("-e"));
            push_arg(args, self.and_pattern.clone());
        }
        let ghost a7 = args_view(args@);
        if not_on {
            push_arg(args, GrepArg::other("--and").line_breakable());
            push_arg(args, GrepArg::other("--not"));
            push_arg(args, GrepArg::other("-e"));
            push_arg(args, self.not_pattern.clone());
        }
        proof {
            let o = *self;
            assert(a6 =~= s0 + (if not_on || and_on {
                seq![breakable(word("-e"@)), arg_view(o.pattern)]
            } else {
                seq![breakable(arg_view(o.pattern))]
            }));
            assert(a7 =~= a6 + when(and_on, seq![breakable(word("--and"@)), word("-e"@), arg_view(o.and_pattern)]));
            assert(args_view(args@) =~= a7 + when(not_on, seq![breakable(word("--and"@)), word("--not"@), word("-e"@), arg_view(o.not_pattern)]));
            assert(args_view(args@) =~= s0 + pattern_args(o, focus));
        }
    }

    fn push_target_args(&self, args: &mut Vec<GrepArg>, focus: Focus)
        ensures
            args_view(final(args)@) == args_view(old(args)@) + target_args(*self, focus),
    {
        let ghost s0 = args_view(args@);
        let path_on = self.path.is_enabled(focus);
        if self.revision.is_enabled(focus) {
            push_arg(args, self.revision.clone().line_breakable());
            if !path_on {
                push_arg(args, GrepArg::other("--"));
            }
        }
        let ghost a9 = args_view(args@);
        if path_on {
            push_arg(args, GrepArg::other("--").line_breakable());
            push_arg(args, self.path.clone());
        }
        proof {
            let o = *self;
            assert(a9 =~= s0 + when(arg_enabled(o.revision, focus), seq![breakable(arg_view(o.revision))] + when(!path_on, seq![word("--"@)])));
            assert(args_view(args@) =~= a9 + when(path_on, seq![breakable(word("--"@)), arg_view(o.path)]));
            assert(args_view(args@) =~= s0 + target_args(o, focus));
        }
    }
}

} // verus!
