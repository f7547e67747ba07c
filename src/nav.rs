//! Searches over a result tree that the navigation uses: hit lines by line
//! number and files that hold hit lines.

use vstd::prelude::*;
use crate::git::{FileLines, Line};

verus! {

/// `l` lies above the bound, where there is one.
pub open spec fn above(l: Line, bound: Option<usize>) -> bool {
    match bound {
        Some(n) => l.number > n,
        None => true,
    }
}

/// `l` lies below the bound, where there is one.
pub open spec fn below(l: Line, bound: Option<usize>) -> bool {
    match bound {
        Some(n) => l.number < n,
        None => true,
    }
}

/// The first hit line at or after index `k` whose number lies above `bound`.
pub open spec fn first_hit_from(lines: Seq<Line>, bound: Option<usize>, k: nat) -> Option<int>
    decreases lines.len() - k,
{
    if k >= lines.len() {
        None
    } else if lines[k as int].hit && above(lines[k as int], bound) {
        Some(k as int)
    } else {
        first_hit_from(lines, bound, k + 1)
    }
}

/// The last hit line before index `k` whose number lies below `bound`.
pub open spec fn last_hit_under(lines: Seq<Line>, bound: Option<usize>, k: nat) -> Option<int>
    decreases k,
{
    if k == 0 {
        None
    } else if (k - 1) < lines.len() && lines[k - 1].hit && below(lines[k - 1], bound) {
        Some(k - 1)
    } else {
        last_hit_under(lines, bound, (k - 1) as nat)
    }
}

/// The first hit line of a file.
pub open spec fn first_hit(lines: Seq<Line>) -> Option<int> {
    first_hit_from(lines, None, 0)
}

/// The last hit line of a file.
pub open spec fn last_hit(lines: Seq<Line>) -> Option<int> {
    last_hit_under(lines, None, lines.len())
}

/// The first file at or after index `k` that holds a hit line.
pub open spec fn next_hit_file(files: Seq<FileLines>, k: nat) -> Option<int>
    decreases files.len() - k,
{
    if k >= files.len() {
        None
    } else if first_hit(files[k as int].lines@) is Some {
        Some(k as int)
    } else {
        next_hit_file(files, k + 1)
    }
}

/// The last file before index `k` that holds a hit line.
pub open spec fn prev_hit_file(files: Seq<FileLines>, k: nat) -> Option<int>
    decreases k,
{
    if k == 0 {
        None
    } else if (k - 1) < files.len() && last_hit(files[k - 1].lines@) is Some {
        Some(k - 1)
    } else {
        prev_hit_file(files, (k - 1) as nat)
    }
}

pub proof fn lemma_first_hit_from(lines: Seq<Line>, bound: Option<usize>, k: nat)
    ensures
        first_hit_from(lines, bound, k) matches Some(i) ==> k <= i < lines.len() && lines[i].hit
            && above(lines[i], bound) && forall|j: int| k <= j < i ==> !(#[trigger] lines[j].hit && above(lines[j], bound)),
        first_hit_from(lines, bound, k) is None ==> forall|j: int|
            k <= j < lines.len() ==> !(#[trigger] lines[j].hit && above(lines[j], bound)),
    decreases lines.len() - k,
{
    if k < lines.len() {
        lemma_first_hit_from(lines, bound, k + 1);
    }
}

pub proof fn lemma_last_hit_under(lines: Seq<Line>, bound: Option<usize>, k: nat)
    requires
        k <= lines.len(),
    ensures
        last_hit_under(lines, bound, k) matches Some(i) ==> 0 <= i < k && lines[i].hit && below(lines[i], bound)
            && forall|j: int| i < j < k ==> !(#[trigger] lines[j].hit && below(lines[j], bound)),
        last_hit_under(lines, bound, k) is None ==> forall|j: int|
            0 <= j < k ==> !(#[trigger] lines[j].hit && below(lines[j], bound)),
    decreases k,
{
    if k > 0 {
        lemma_last_hit_under(lines, bound, (k - 1) as nat);
    }
}

pub proof fn lemma_next_hit_file(files: Seq<FileLines>, k: nat)
    ensures
        next_hit_file(files, k) matches Some(i) ==> k <= i < files.len() && first_hit(files[i].lines@) is Some
            && forall|j: int| k <= j < i ==> first_hit(#[trigger] files[j].lines@) is None,
        next_hit_file(files, k) is None ==> forall|j: int|
            k <= j < files.len() ==> first_hit(#[trigger] files[j].lines@) is None,
    decreases files.len() - k,
{
    if k < files.len() {
        lemma_next_hit_file(files, k + 1);
    }
}

pub proof fn lemma_prev_hit_file(files: Seq<FileLines>, k: nat)
    requires
        k <= files.len(),
    ensures
        prev_hit_file(files, k) matches Some(i) ==> 0 <= i < k && last_hit(files[i].lines@) is Some
            && forall|j: int| i < j < k ==> last_hit(#[trigger] files[j].lines@) is None,
        prev_hit_file(files, k) is None ==> forall|j: int|
            0 <= j < k ==> last_hit(#[trigger] files[j].lines@) is None,
    decreases k,
{
    if k > 0 {
        lemma_prev_hit_file(files, (k - 1) as nat);
    }
}

/// Finds the first hit line whose number lies above `bound`.
pub fn find_hit_above(lines: &Vec<Line>, bound: Option<usize>) -> (r: Option<usize>)
    ensures
        r matches Some(i) ==> Some(i as int) == first_hit_from(lines@, bound, 0) && i < lines@.len(),
        r is None ==> first_hit_from(lines@, bound, 0) is None,
{
    let mut i: usize = 0;
    while i < lines.len()
        invariant
            i <= lines@.len(),
            first_hit_from(lines@, bound, 0) == first_hit_from(lines@, bound, i as nat),
        decreases lines@.len() - i,
    {
        let ok = match bound {
            Some(n) => lines[i].number > n,
            None => true,
        };
        if lines[i].hit && ok {
            return Some(i);
        }
        i = i + 1;
    }
    None
}

/// Finds the last hit line whose number lies below `bound`.
pub fn find_hit_below(lines: &Vec<Line>, bound: Option<usize>) -> (r: Option<usize>)
    ensures
        r matches Some(i) ==> Some(i as int) == last_hit_under(lines@, bound, lines@.len()) && i < lines@.len(),
        r is None ==> last_hit_under(lines@, bound, lines@.len()) is None,
{
    let mut k: usize = lines.len();
    while k > 0
        invariant
            k <= lines@.len(),
            last_hit_under(lines@, bound, lines@.len()) == last_hit_under(lines@, bound, k as nat),
        decreases k,
    {
        let ok = match bound {
            Some(n) => lines[k - 1].number < n,
            None => true,
        };
        if lines[k - 1].hit && ok {
            return Some(k - 1);
        }
        k = k - 1;
    }
    None
}

/// Finds the first file at or after index `k` that holds a hit line.
pub fn find_next_hit_file(files: &Vec<FileLines>, k: usize) -> (r: Option<usize>)
    ensures
        r matches Some(i) ==> Some(i as int) == next_hit_file(files@, k as nat) && i < files@.len(),
        r is None ==> next_hit_file(files@, k as nat) is None,
{
    let mut i: usize = k;
    while i < files.len()
        invariant
            k <= i,
            next_hit_file(files@, k as nat) == next_hit_file(files@, i as nat),
        decreases files@.len() - i,
    {
        if find_hit_above(&files[i].lines, None).is_some() {
            return Some(i);
        }
        i = i + 1;
    }
    None
}

/// Finds the last file before index `k` that holds a hit line.
pub fn find_prev_hit_file(files: &Vec<FileLines>, k: usize) -> (r: Option<usize>)
    requires
        k <= files@.len(),
    ensures
        r matches Some(i) ==> Some(i as int) == prev_hit_file(files@, k as nat) && i < files@.len(),
        r is None ==> prev_hit_file(files@, k as nat) is None,
{
    let mut i: usize = k;
    while i > 0
        invariant
            i <= k <= files@.len(),
            prev_hit_file(files@, k as nat) == prev_hit_file(files@, i as nat),
        decreases i,
    {
        if find_hit_below(&files[i - 1].lines, None).is_some() {
            return Some(i - 1);
        }
        i = i - 1;
    }
    None
}

} // verus!
