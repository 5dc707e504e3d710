//! Keyword scanner: the maximal runs of ASCII upper-case letters in a
//! pattern.

use crate::model::{CompileError, ErrorView, PatternFault};
use crate::text::{chars_of, is_upper, lemma_seek, seek, seek_class, string_of, CharClass};
use vstd::prelude::*;

verus! {

/// An upper-case run begins at `i`: an upper-case letter that no upper-case
/// letter precedes.
pub open spec fn is_run_start(s: Seq<char>, i: int) -> bool {
    &&& 0 <= i < s.len()
    &&& is_upper(s[i])
    &&& (i == 0 || !is_upper(s[i - 1]))
}

/// Where the run that begins at `start` ends: the first position past
/// `start` that holds no upper-case letter.
pub open spec fn run_end(s: Seq<char>, start: int) -> int {
    seek(s, start, CharClass::NotUpper)
}

/// The starts of the upper-case runs among the first `n` positions, in
/// ascending order.
pub open spec fn run_starts(s: Seq<char>, n: int) -> Seq<int>
    decreases n,
{
    if n <= 0 {
        Seq::empty()
    } else if is_run_start(s, n - 1) {
        run_starts(s, n - 1).push(n - 1)
    } else {
        run_starts(s, n - 1)
    }
}

/// The starts of all upper-case runs of `s`.
pub open spec fn all_run_starts(s: Seq<char>) -> Seq<int> {
    run_starts(s, s.len() as int)
}

/// No run starts among positions `m..n`, so the runs up to `n` are those
/// up to `m`.
pub proof fn lemma_no_start_between(s: Seq<char>, m: int, n: int)
    requires
        0 <= m <= n,
        forall|k: int| m <= k < n ==> !is_run_start(s, k),
    ensures
        run_starts(s, n) == run_starts(s, m),
    decreases n - m,
{
    if m < n {
        lemma_no_start_between(s, m, n - 1);
    }
}

/// Every listed start is the start of a run, they ascend, and every start
/// of a run below `n` is listed.
pub proof fn lemma_run_starts(s: Seq<char>, n: int)
    requires
        0 <= n <= s.len(),
    ensures
        forall|i: int|
            0 <= i < run_starts(s, n).len() ==> is_run_start(s, #[trigger] run_starts(s, n)[i])
                && run_starts(s, n)[i] < n,
        forall|i: int, j: int|
            0 <= i < j < run_starts(s, n).len() ==> run_starts(s, n)[i] < run_starts(s, n)[j],
        forall|k: int|
            0 <= k < n && is_run_start(s, k) ==> run_starts(s, n).contains(k),
    decreases n,
{
    if n > 0 {
        lemma_run_starts(s, n - 1);
        let prev = run_starts(s, n - 1);
        let cur = run_starts(s, n);
        if is_run_start(s, n - 1) {
            assert(cur[cur.len() - 1] == n - 1);
        }
        assert forall|k: int| 0 <= k < n && is_run_start(s, k) implies cur.contains(k) by {
            if k < n - 1 {
                let w = choose|w: int| 0 <= w < prev.len() && prev[w] == k;
                assert(cur[w] == k);
            } else {
                assert(cur[cur.len() - 1] == k);
            }
        }
    }
}

/// The upper-case runs of `var`, each with the position of its first
/// character, in the order in which they stand.
pub fn uppercase_runs(var: &Vec<char>) -> (runs: Vec<(String, usize)>)
    ensures
        runs.len() == all_run_starts(var@).len(),
        forall|i: int|
            0 <= i < runs.len() ==> (#[trigger] runs[i]).1 == all_run_starts(var@)[i]
                && runs[i].0@ == var@.subrange(
                all_run_starts(var@)[i],
                run_end(var@, all_run_starts(var@)[i]),
            ),
{
    let mut runs: Vec<(String, usize)> = Vec::new();
    let mut pos: usize = 0;
    loop
        invariant_except_break
            pos <= var.len(),
            pos == 0 || !is_upper(var@[pos - 1]),
            runs.len() == run_starts(var@, pos as int).len(),
            forall|i: int|
                0 <= i < runs.len() ==> (#[trigger] runs[i]).1 == run_starts(var@, pos as int)[i]
                    && runs[i].0@ == var@.subrange(
                    run_starts(var@, pos as int)[i],
                    run_end(var@, run_starts(var@, pos as int)[i]),
                ),
        ensures
            runs.len() == all_run_starts(var@).len(),
            forall|i: int|
                0 <= i < runs.len() ==> (#[trigger] runs[i]).1 == all_run_starts(var@)[i]
                    && runs[i].0@ == var@.subrange(
                    all_run_starts(var@)[i],
                    run_end(var@, all_run_starts(var@)[i]),
                ),
        decreases var.len() - pos,
    {
        let a = seek_class(var, pos, CharClass::Upper);
        proof {
            lemma_seek(var@, pos as int, CharClass::Upper);
            lemma_no_start_between(var@, pos as int, a as int);
        }
        if a >= var.len() {
            break;
        }
        let b = seek_class(var, a, CharClass::NotUpper);
        proof {
            lemma_seek(var@, a as int, CharClass::NotUpper);
            assert(is_run_start(var@, a as int));
            lemma_no_start_between(var@, a + 1, b as int);
            assert(run_starts(var@, a + 1) == run_starts(var@, a as int).push(a as int));
        }
        runs.push((string_of(var, a, b), a));
        if b >= var.len() {
            break;
        }
        pos = b + 1;
        proof {
            assert(!is_run_start(var@, b as int));
            lemma_no_start_between(var@, b as int, b + 1);
        }
    }
    runs
}

/// Finds the upper-case run of a pattern: the run with the position of
/// its first character, or nothing where the pattern has no upper-case
/// letter. A pattern with more than one run names more than one keyword
/// and is refused.
pub fn get_uppers(var: &str) -> (r: Result<Vec<(String, usize)>, CompileError>)
    ensures
        match r {
            Ok(runs) => {
                &&& all_run_starts(var@).len() <= 1
                &&& runs.len() == all_run_starts(var@).len()
                &&& forall|i: int|
                    0 <= i < runs.len() ==> (#[trigger] runs[i]).1 == all_run_starts(var@)[i]
                        && runs[i].0@ == var@.subrange(
                        all_run_starts(var@)[i],
                        run_end(var@, all_run_starts(var@)[i]),
                    )
            },
            Err(e) => all_run_starts(var@).len() > 1 && e@ == (ErrorView::MalformedPattern {
                pattern: var@,
                fault: PatternFault::MultipleKeywordRuns,
            }),
        },
{
    let runs = uppercase_runs(&chars_of(var));
    if runs.len() > 1 {
        Err(
            CompileError::MalformedPattern {
                pattern: var.to_owned(),
                fault: PatternFault::MultipleKeywordRuns,
            },
        )
    } else {
        Ok(runs)
    }
}

} // verus!
