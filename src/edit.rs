//! Choosing which files a generated pull request changes, and the change
//! itself: one line moved to another place in its file.
use vstd::prelude::*;
use crate::bridge::{lower_of, random_below, to_lower};
use crate::config::{dependency_count_spec, Conf};
use crate::text::{owned, trim, trim_seq};

verus! {

/// `count` distinct indices below `n`, drawn at random.
pub fn pick_files(n: usize, count: usize) -> (r: Vec<usize>)
    requires
        count <= n,
    ensures
        r@.len() == count,
        forall|j: int| 0 <= j < r@.len() ==> r@[j] < n,
        forall|j: int, k: int| 0 <= j < k < r@.len() ==> r@[j] != r@[k],
{
    let mut idx: Vec<usize> = Vec::new();
    let mut i: usize = 0;
    while i < n
        invariant
            i <= n,
            idx@.len() == i,
            forall|j: int| 0 <= j < i ==> idx@[j] == j,
        decreases n - i,
    {
        idx.push(i);
        i = i + 1;
    }
    let mut i: usize = 0;
    while i < count
        invariant
            count <= n,
            i <= count,
            idx@.len() == n,
            forall|j: int| 0 <= j < n ==> idx@[j] < n,
            forall|j: int, k: int| 0 <= j < k < n ==> idx@[j] != idx@[k],
        decreases count - i,
    {
        let j = i + random_below((n - i) as u64) as usize;
        let a = idx[i];
        let b = idx[j];
        idx.set(i, b);
        idx.set(j, a);
        i = i + 1;
    }
    idx.truncate(count);
    idx
}

/// Moves one line of `lines` to another place: the line at `from` is removed
/// and put back at `to` of what remains.
pub open spec fn moved(lines: Seq<String>, from: int, to: int) -> Seq<String> {
    lines.remove(from).insert(to, lines[from])
}

/// Moves a line chosen at random to a place chosen at random, and returns
/// that line trimmed and in lowercase.
pub fn move_random_line(lines: &mut Vec<String>) -> (word: String)
    requires
        old(lines)@.len() >= 2,
    ensures
        exists|from: int, to: int|
            0 <= from < old(lines)@.len() && 0 <= to < old(lines)@.len() && final(lines)@ == moved(
                old(lines)@,
                from,
                to,
            ) && word@ == lower_of(trim_seq(old(lines)@[from]@)),
{
    let from = random_below(lines.len() as u64) as usize;
    let line = lines.remove(from);
    let word = to_lower(trim(line.as_str()));
    let to = random_below(lines.len() as u64) as usize;
    lines.insert(to, line);
    assert(final(lines)@ == moved(old(lines)@, from as int, to as int));
    word
}

/// The files a pull request may change and how many of them it changes.
/// With a dependency distribution every file is a candidate; without one the
/// first `max_deps` files are. Either way the count is the dependency count of
/// `pr_number` on all `filenames` (drawn from the distribution, or
/// `min(max_deps, max_impacted_deps, available)`), never more than the
/// candidates.
pub fn files_for_pr(filenames: &Vec<String>, pr_number: u64, config: &Conf) -> (r: (Vec<String>, usize))
    ensures
        config.pullrequest.deps_distribution is Some ==> r.0@ == filenames@,
        config.pullrequest.deps_distribution is None ==> r.0@ == filenames@.take(
            if config.pullrequest.max_deps < filenames@.len() {
                config.pullrequest.max_deps as int
            } else {
                filenames@.len() as int
            },
        ),
        r.1 == dependency_count_spec(config.pullrequest, pr_number, filenames@.len() as usize),
        r.1 <= r.0@.len(),
{
    let keep = if config.pullrequest.deps_distribution.is_some() {
        filenames.len()
    } else if config.pullrequest.max_deps < filenames.len() {
        config.pullrequest.max_deps
    } else {
        filenames.len()
    };
    let mut files: Vec<String> = Vec::new();
    let mut i: usize = 0;
    while i < keep
        invariant
            keep <= filenames@.len(),
            i <= keep,
            files@ == filenames@.take(i as int),
        decreases keep - i,
    {
        files.push(filenames[i].clone());
        assert(files@ =~= filenames@.take(i + 1));
        i = i + 1;
    }
    if config.pullrequest.deps_distribution.is_some() {
        assert(filenames@.take(keep as int) =~= filenames@);
    }
    let count = config.get_dependency_count(pr_number, filenames.len());
    (files, count)
}

} // verus!
