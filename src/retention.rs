//! Retention of old log files: which files a pruning step deletes.

use vstd::prelude::*;
use crate::text::{str_eq, occurs_at, occurs_at_exec};

verus! {

/// A file found in the log directory.
pub struct LogFileEntry {
    pub name: String,
    /// Modification time, in any unit that orders the files by age.
    pub modified: u64,
}

/// Whether `.log` occurs in `n` at position `i`.
pub open spec fn log_ext_at(n: Seq<char>, i: int) -> bool {
    occurs_at(n, seq!['.', 'l', 'o', 'g'], i)
}

/// `app_*.log*`: the name starts with `app_` and `.log` occurs after that prefix.
pub open spec fn is_artifact_name(n: Seq<char>) -> bool {
    &&& occurs_at(n, seq!['a', 'p', 'p', '_'], 0)
    &&& exists|i: int| 4 <= i && #[trigger] log_ext_at(n, i)
}

/// Whether a file name is a log artifact of this library (`app_*.log*`).
pub fn is_log_artifact(name: &str) -> (r: bool)
    ensures
        r == is_artifact_name(name@),
{
    proof {
        reveal_strlit("app_");
        reveal_strlit(".log");
        assert("app_"@ =~= seq!['a', 'p', 'p', '_']);
        assert(".log"@ =~= seq!['.', 'l', 'o', 'g']);
    }
    let n = name.unicode_len();
    if !occurs_at_exec(name, n, "app_", 0) {
        return false;
    }
    let mut i: usize = 4;
    while i < n
        invariant
            n == name@.len(),
            4 <= i,
            forall|k: int| 4 <= k < i ==> !#[trigger] log_ext_at(name@, k),
            ".log"@ == seq!['.', 'l', 'o', 'g'],
            occurs_at(name@, seq!['a', 'p', 'p', '_'], 0),
        decreases n - i,
    {
        if occurs_at_exec(name, n, ".log", i) {
            assert(log_ext_at(name@, i as int));
            return true;
        }
        i = i + 1;
    }
    assert forall|k: int| 4 <= k implies !#[trigger] log_ext_at(name@, k) by {
        if k >= i {
            assert(k + 4 > name@.len());
        }
    }
    false
}

/// Number of indices below `n` that satisfy `p`.
pub open spec fn count_where(n: nat, p: spec_fn(int) -> bool) -> nat
    decreases n,
{
    if n == 0 {
        0
    } else {
        count_where((n - 1) as nat, p) + if p(n - 1) {
            1nat
        } else {
            0nat
        }
    }
}

proof fn lemma_count_mono(n: nat, p: spec_fn(int) -> bool, q: spec_fn(int) -> bool)
    requires
        forall|i: int| 0 <= i < n && #[trigger] p(i) ==> q(i),
    ensures
        count_where(n, p) <= count_where(n, q),
    decreases n,
{
    if n > 0 {
        lemma_count_mono((n - 1) as nat, p, q);
    }
}

proof fn lemma_count_ext(n: nat, p: spec_fn(int) -> bool, q: spec_fn(int) -> bool)
    requires
        forall|i: int| 0 <= i < n ==> #[trigger] p(i) == q(i),
    ensures
        count_where(n, p) == count_where(n, q),
    decreases n,
{
    if n > 0 {
        lemma_count_ext((n - 1) as nat, p, q);
    }
}

proof fn lemma_count_flip(n: nat, p: spec_fn(int) -> bool, q: spec_fn(int) -> bool, j: int)
    requires
        0 <= j < n,
        !p(j),
        q(j),
        forall|i: int| 0 <= i < n && i != j ==> #[trigger] p(i) == q(i),
    ensures
        count_where(n, q) == count_where(n, p) + 1,
    decreases n,
{
    if j == n - 1 {
        lemma_count_ext((n - 1) as nat, p, q);
    } else {
        lemma_count_flip((n - 1) as nat, p, q, j);
    }
}

proof fn lemma_count_split(n: nat, a: spec_fn(int) -> bool, m: spec_fn(int) -> bool, r: spec_fn(int) -> bool)
    requires
        forall|i: int| 0 <= i < n ==> (#[trigger] m(i) ==> a(i)),
        forall|i: int| 0 <= i < n ==> #[trigger] r(i) == (a(i) && !m(i)),
    ensures
        count_where(n, r) + count_where(n, m) == count_where(n, a),
    decreases n,
{
    if n > 0 {
        lemma_count_split((n - 1) as nat, a, m, r);
    }
}

proof fn lemma_count_at_most_one(n: nat, p: spec_fn(int) -> bool, j: int)
    requires
        forall|i: int| 0 <= i < n && #[trigger] p(i) ==> i == j,
    ensures
        count_where(n, p) <= 1,
    decreases n,
{
    if n > 0 {
        if n - 1 != j {
            lemma_count_at_most_one((n - 1) as nat, p, j);
        } else {
            lemma_count_mono((n - 1) as nat, p, |i: int| false);
            lemma_count_zero((n - 1) as nat);
        }
    }
}

proof fn lemma_count_zero(n: nat)
    ensures
        count_where(n, |i: int| false) == 0,
    decreases n,
{
    if n > 0 {
        lemma_count_zero((n - 1) as nat);
    }
}

/// The file at index `i` is a log artifact.
pub open spec fn artifact_at(files: Seq<LogFileEntry>, i: int) -> bool {
    is_artifact_name(files[i].name@)
}

/// The file at index `i` may be deleted: a log artifact that is not the active file.
pub open spec fn candidate_at(files: Seq<LogFileEntry>, active: Seq<char>, i: int) -> bool {
    artifact_at(files, i) && files[i].name@ != active
}

/// The number of log artifacts that a deletion plan leaves.
pub open spec fn remaining_after(files: Seq<LogFileEntry>, marks: Seq<bool>) -> nat {
    count_where(files.len(), |i: int| artifact_at(files, i) && !marks[i])
}

/// What a pruning plan promises: it deletes only artifacts other than the
/// active file, oldest first, no more than needed, and leaves at most
/// `max_retained` artifacts unless every deletable one is already deleted.
pub open spec fn prune_spec(
    files: Seq<LogFileEntry>,
    active: Seq<char>,
    max_retained: nat,
    marks: Seq<bool>,
) -> bool {
    &&& marks.len() == files.len()
    &&& forall|i: int| 0 <= i < marks.len() && #[trigger] marks[i] ==> candidate_at(files, active, i)
    &&& forall|d: int, k: int|
        0 <= d < marks.len() && 0 <= k < marks.len() && #[trigger] marks[d] && candidate_at(
            files,
            active,
            k,
        ) && !#[trigger] marks[k] ==> files[d].modified <= files[k].modified
    &&& count_where(files.len(), |i: int| marks[i]) + max_retained <= count_where(
        files.len(),
        |i: int| artifact_at(files, i),
    ) || count_where(files.len(), |i: int| marks[i]) == 0
    &&& remaining_after(files, marks) <= max_retained || forall|i: int|
        0 <= i < marks.len() && candidate_at(files, active, i) ==> #[trigger] marks[i]
}

/// Chooses which log files to delete so that at most `max_retained` remain:
/// oldest first, never the active file. `r[i]` says whether `files[i]` goes.
pub fn prune_plan(files: &Vec<LogFileEntry>, active: &str, max_retained: usize) -> (r: Vec<bool>)
    ensures
        prune_spec(files@, active@, max_retained as nat, r@),
{
    let n = files.len();
    let ghost fs = files@;
    let ghost art = |i: int| artifact_at(fs, i);
    let mut cand: Vec<bool> = Vec::new();
    let mut marks: Vec<bool> = Vec::new();
    let mut n_art: usize = 0;
    let mut i: usize = 0;
    while i < n
        invariant
            n == fs.len(),
            fs == files@,
            art == (|i: int| artifact_at(fs, i)),
            i <= n,
            cand@.len() == i,
            marks@.len() == i,
            forall|k: int| 0 <= k < i ==> #[trigger] cand@[k] == candidate_at(fs, active@, k),
            forall|k: int| 0 <= k < i ==> !#[trigger] marks@[k],
            n_art as nat == count_where(i as nat, art),
            n_art <= i,
        decreases n - i,
    {
        let is_art = is_log_artifact(files[i].name.as_str());
        let is_cand = is_art && !str_eq(files[i].name.as_str(), active);
        cand.push(is_cand);
        marks.push(false);
        if is_art {
            n_art = n_art + 1;
        }
        i = i + 1;
    }
    let ghost m0 = marks@;
    proof {
        lemma_count_ext(n as nat, |k: int| m0[k], |k: int| false);
        lemma_count_zero(n as nat);
    }
    let excess: usize = n_art.saturating_sub(max_retained);
    let mut removed: usize = 0;
    let mut exhausted = false;
    while removed < excess && !exhausted
        invariant
            n == fs.len(),
            fs == files@,
            art == (|i: int| artifact_at(fs, i)),
            cand@.len() == n,
            marks@.len() == n,
            forall|k: int| 0 <= k < n ==> #[trigger] cand@[k] == candidate_at(fs, active@, k),
            forall|k: int| 0 <= k < n && #[trigger] marks@[k] ==> candidate_at(fs, active@, k),
            forall|d: int, k: int|
                0 <= d < n && 0 <= k < n && #[trigger] marks@[d] && candidate_at(fs, active@, k)
                    && !#[trigger] marks@[k] ==> fs[d].modified <= fs[k].modified,
            removed as nat == count_where(n as nat, |k: int| marks@[k]),
            removed <= excess,
            n_art as nat == count_where(n as nat, art),
            excess == if n_art > max_retained { n_art - max_retained } else { 0 },
            exhausted ==> forall|k: int| 0 <= k < n && candidate_at(fs, active@, k) ==> #[trigger] marks@[k],
        decreases (excess - removed) as int + if exhausted { 0int } else { 1int },
    {
        let mut best: usize = n;
        let mut j: usize = 0;
        while j < n
            invariant
                n == fs.len(),
                fs == files@,
                cand@.len() == n,
                marks@.len() == n,
                forall|k: int| 0 <= k < n ==> #[trigger] cand@[k] == candidate_at(fs, active@, k),
                j <= n,
                best == n || (best < j && candidate_at(fs, active@, best as int) && !marks@[best as int]),
                best < n ==> forall|k: int|
                    0 <= k < j && candidate_at(fs, active@, k) && !#[trigger] marks@[k]
                        ==> fs[best as int].modified <= fs[k].modified,
                best == n ==> forall|k: int| 0 <= k < j && candidate_at(fs, active@, k) ==> #[trigger] marks@[k],
            decreases n - j,
        {
            if cand[j] && !marks[j] && (best == n || files[j].modified < files[best].modified) {
                best = j;
            }
            j = j + 1;
        }
        if best == n {
            exhausted = true;
        } else {
            let ghost old_marks = marks@;
            marks.set(best, true);
            proof {
                lemma_count_flip(n as nat, |k: int| old_marks[k], |k: int| marks@[k], best as int);
            }
            removed = removed + 1;
        }
    }
    proof {
        let mk = |k: int| marks@[k];
        let rem = |i: int| artifact_at(fs, i) && !marks@[i];
        lemma_count_split(n as nat, art, mk, rem);
        lemma_count_ext(n as nat, rem, |i: int| artifact_at(files@, i) && !marks@[i]);
        lemma_count_ext(n as nat, art, |i: int| artifact_at(files@, i));
    }
    marks
}

/// After a pruning step, a directory holds at most `max_retained` log
/// artifacts, provided at least one may be kept (the active file is never
/// deleted) and names in the directory are distinct.
pub proof fn lemma_retention_bound(
    files: Seq<LogFileEntry>,
    active: Seq<char>,
    max_retained: nat,
    marks: Seq<bool>,
)
    requires
        prune_spec(files, active, max_retained, marks),
        max_retained >= 1,
        forall|i: int, j: int|
            0 <= i < j < files.len() ==> #[trigger] files[i].name@ != #[trigger] files[j].name@,
    ensures
        remaining_after(files, marks) <= max_retained,
{
    if remaining_after(files, marks) > max_retained {
        let rem = |i: int| artifact_at(files, i) && !marks[i];
        // every survivor is the active file, and at most one entry has its name
        if exists|j: int| 0 <= j < files.len() && #[trigger] rem(j) {
            let j = choose|j: int| 0 <= j < files.len() && #[trigger] rem(j);
            assert forall|i: int| 0 <= i < files.len() && #[trigger] rem(i) implies i == j by {
                assert(!candidate_at(files, active, i));
                assert(!candidate_at(files, active, j));
                if i != j {
                    if i < j {
                        assert(files[i].name@ != files[j].name@);
                    } else {
                        assert(files[j].name@ != files[i].name@);
                    }
                }
            }
            lemma_count_at_most_one(files.len(), rem, j);
        } else {
            lemma_count_mono(files.len(), rem, |i: int| false);
            lemma_count_zero(files.len());
        }
    }
}

} // verus!
