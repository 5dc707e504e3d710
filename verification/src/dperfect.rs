//! Longest perfect match of a D gene inside a junction region.

use vstd::prelude::*;

verus! {

/// With `d` laid over `x` at offset `s` (entirely inside `x`), the `len`
/// positions of `d` that start at `j` all agree with `x`.
pub open spec fn run_matches(x: Seq<u8>, d: Seq<u8>, s: int, j: int, len: int) -> bool {
    &&& 0 <= s && s + d.len() <= x.len()
    &&& 0 <= j && 0 <= len && j + len <= d.len()
    &&& forall|t: int| j <= t < j + len ==> x[s + t] == #[trigger] d[t]
}

/// `best` bounds every run of agreeing positions over the first `upto` genes.
pub open spec fn bounds_runs(x: Seq<u8>, ds: Seq<Vec<u8>>, upto: int, best: int) -> bool {
    forall|i: int, s: int, j: int, len: int|
        0 <= i < upto && #[trigger] run_matches(x, ds[i]@, s, j, len) ==> len <= best
}

/// `best` is the length of some run of agreeing positions, or zero.
pub open spec fn attained(x: Seq<u8>, ds: Seq<Vec<u8>>, best: int) -> bool {
    best == 0 || exists|i: int, s: int, j: int|
        0 <= i < ds.len() && #[trigger] run_matches(x, ds[i]@, s, j, best)
}

/// Given a junction region `x` and a list of D genes, the length of the
/// longest stretch of consecutive positions on which some gene, placed
/// anywhere entirely within the region, agrees with the region.
pub fn dperfect(x: &[u8], ds: &Vec<Vec<u8>>) -> (best: usize)
    ensures
        bounds_runs(x@, ds@, ds.len() as int, best as int),
        attained(x@, ds@, best as int),
        best <= x.len(),
{
    let mut best: usize = 0;
    let mut i: usize = 0;
    while i < ds.len()
        invariant
            i <= ds.len(),
            bounds_runs(x@, ds@, i as int, best as int),
            attained(x@, ds@, best as int),
        decreases ds.len() - i,
    {
        let d = &ds[i];
        if d.len() > 0 && x.len() >= d.len() {
            let last: usize = x.len() - d.len();
            let mut s: usize = 0;
            while s <= last
                invariant
                    i < ds.len(),
                    d@ == ds@[i as int]@,
                    last == x.len() - d.len(),
                    last < usize::MAX,
                    s <= last + 1,
                    bounds_runs(x@, ds@, i as int, best as int),
                    forall|s0: int, j: int, len: int|
                        0 <= s0 < s && #[trigger] run_matches(x@, d@, s0, j, len) ==> len <= best,
                    attained(x@, ds@, best as int),
                decreases last + 1 - s,
            {
                let mut m: usize = 0;
                let mut j: usize = 0;
                while j < d.len()
                    invariant
                        i < ds.len(),
                        d@ == ds@[i as int]@,
                        last == x.len() - d.len(),
                        s <= last,
                        j <= d.len(),
                        m <= j,
                        m <= best,
                        forall|t: int| j - m <= t < j ==> x@[s + t] == #[trigger] d@[t],
                        m < j ==> x@[s + j - m - 1] != d@[j - m - 1],
                        bounds_runs(x@, ds@, i as int, best as int),
                        forall|s0: int, j0: int, len: int|
                            0 <= s0 < s && #[trigger] run_matches(x@, d@, s0, j0, len) ==> len
                                <= best,
                        forall|j0: int, len: int|
                            j0 + len <= j && #[trigger] run_matches(x@, d@, s as int, j0, len)
                                ==> len <= best,
                        attained(x@, ds@, best as int),
                    decreases d.len() - j,
                {
                    if x[s + j] == d[j] {
                        m = m + 1;
                        if m > best {
                            best = m;
                            assert(run_matches(x@, ds@[i as int]@, s as int, j + 1 - m, m as int));
                        }
                    } else {
                        m = 0;
                    }
                    assert forall|j0: int, len: int|
                        j0 + len <= j + 1 && #[trigger] run_matches(
                            x@,
                            d@,
                            s as int,
                            j0,
                            len,
                        ) implies len <= best by {
                        if j0 + len == j + 1 && len > 0 {
                            assert(x@[s + j] == d@[j as int]);
                            if len > m {
                                assert(x@[s + (j + 1 - m - 1)] == d@[j + 1 - m - 1]);
                            }
                        } else if len > 0 {
                            assert(run_matches(x@, d@, s as int, j0, len));
                        }
                    }
                    j = j + 1;
                }
                s = s + 1;
            }
        }
        assert forall|i0: int, s0: int, j0: int, len: int|
            0 <= i0 < i + 1 && #[trigger] run_matches(x@, ds@[i0]@, s0, j0, len) implies len
            <= best by {
            if i0 == i {
                if len > 0 {
                    assert(d.len() > 0 && x.len() >= d.len());
                }
            }
        }
        i = i + 1;
    }
    best
}

} // verus!
