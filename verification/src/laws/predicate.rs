//! Laws of the clause compiler: which tests a predicate holds.

use crate::classify::{classification, keyword_of};
use crate::clause::{
    front_tests, keyword_tests, range_tests, separator_tests, slot_tests, tests_of, Test,
};
use crate::compile::{clause_head, head_of};
use crate::laws::classifier::lemma_one_run_without_braces;
use crate::model::{ErrorView, Keyword, PatternView, RangeSlot, TargetClass};
use crate::scan::all_run_starts;
use crate::text::count_of;
use vstd::prelude::*;

verus! {

/// How many of the tests ask that a range slot parses.
pub open spec fn parse_tests(tests: Seq<Test>) -> nat
    decreases tests.len(),
{
    if tests.len() == 0 {
        0
    } else {
        parse_tests(tests.drop_last()) + if tests.last() is Parses {
            1nat
        } else {
            0nat
        }
    }
}

/// How many of the tests compare a range slot with a bound.
pub open spec fn bound_tests(tests: Seq<Test>) -> nat
    decreases tests.len(),
{
    if tests.len() == 0 {
        0
    } else {
        bound_tests(tests.drop_last()) + if tests.last() is AtLeast || tests.last() is AtMost {
            1nat
        } else {
            0nat
        }
    }
}

/// How many bounds the first `n` slots state.
pub open spec fn stated_bounds(slots: Seq<RangeSlot>, n: int) -> nat
    decreases n,
{
    if n <= 0 {
        0
    } else {
        stated_bounds(slots, n - 1) + if slots[n - 1].lower is Some {
            1nat
        } else {
            0nat
        } + if slots[n - 1].upper is Some {
            1nat
        } else {
            0nat
        }
    }
}

proof fn lemma_counts_add(a: Seq<Test>, b: Seq<Test>)
    ensures
        parse_tests(a + b) == parse_tests(a) + parse_tests(b),
        bound_tests(a + b) == bound_tests(a) + bound_tests(b),
    decreases b.len(),
{
    if b.len() == 0 {
        assert(a + b =~= a);
    } else {
        lemma_counts_add(a, b.drop_last());
        assert((a + b).drop_last() =~= a + b.drop_last());
    }
}

proof fn lemma_counts_of_others(tests: Seq<Test>)
    requires
        forall|i: int|
            0 <= i < tests.len() ==> !(tests[i] is Parses) && !(tests[i] is AtLeast) && !(
            tests[i] is AtMost),
    ensures
        parse_tests(tests) == 0,
        bound_tests(tests) == 0,
    decreases tests.len(),
{
    if tests.len() > 0 {
        lemma_counts_of_others(tests.drop_last());
    }
}

proof fn lemma_counts_of_slot(i: int, slot: RangeSlot)
    ensures
        parse_tests(slot_tests(i, slot)) == 1,
        bound_tests(slot_tests(i, slot)) == if slot.lower is Some {
            1nat
        } else {
            0nat
        } + if slot.upper is Some {
            1nat
        } else {
            0nat
        },
{
    let first = seq![Test::Parses(i as usize)];
    let low = match slot.lower {
        Some(v) => seq![Test::AtLeast(i as usize, v)],
        None => Seq::empty(),
    };
    let high = match slot.upper {
        Some(v) => seq![Test::AtMost(i as usize, v)],
        None => Seq::empty(),
    };
    lemma_counts_add(first, low);
    lemma_counts_add(first + low, high);
    reveal_with_fuel(parse_tests, 2);
    reveal_with_fuel(bound_tests, 2);
    assert(first.drop_last() =~= Seq::<Test>::empty());
    if slot.lower is Some {
        assert(low.drop_last() =~= Seq::<Test>::empty());
    }
    if slot.upper is Some {
        assert(high.drop_last() =~= Seq::<Test>::empty());
    }
}

proof fn lemma_counts_of_ranges(slots: Seq<RangeSlot>, n: int)
    requires
        0 <= n <= slots.len(),
    ensures
        parse_tests(range_tests(slots, n)) == n,
        bound_tests(range_tests(slots, n)) == stated_bounds(slots, n),
    decreases n,
{
    if n > 0 {
        lemma_counts_of_ranges(slots, n - 1);
        lemma_counts_of_slot(n - 1, slots[n - 1]);
        lemma_counts_add(range_tests(slots, n - 1), slot_tests(n - 1, slots[n - 1]));
    }
}

/// The predicate of a pattern with one, two or three ranges asks of each
/// range once that it parses, and holds one comparison for each bound that
/// a range states: a bound left out gives no comparison.
pub proof fn lemma_tests_per_range(p: PatternView)
    requires
        p.wf(),
        1 <= p.slots.len() <= 3,
    ensures
        parse_tests(tests_of(p)) == p.slots.len(),
        bound_tests(tests_of(p)) == stated_bounds(p.slots, p.slots.len() as int),
{
    let front = front_tests(p);
    let ranges = range_tests(p.slots, p.slots.len() as int);
    let back = keyword_tests(p.keyword);
    lemma_counts_of_others(front);
    lemma_counts_of_others(back);
    lemma_counts_of_ranges(p.slots, p.slots.len() as int);
    lemma_counts_add(front, ranges);
    lemma_counts_add(front + ranges, back);
}

proof fn lemma_contains_add(a: Seq<Test>, b: Seq<Test>, t: Test)
    ensures
        (a + b).contains(t) <==> a.contains(t) || b.contains(t),
{
    if a.contains(t) {
        let k = choose|k: int| 0 <= k < a.len() && a[k] == t;
        assert((a + b)[k] == t);
    }
    if b.contains(t) {
        let k = choose|k: int| 0 <= k < b.len() && b[k] == t;
        assert((a + b)[a.len() + k] == t);
    }
    if (a + b).contains(t) {
        let k = choose|k: int| 0 <= k < (a + b).len() && (a + b)[k] == t;
        if k < a.len() {
            assert(a[k] == t);
        } else {
            assert(b[k - a.len()] == t);
        }
    }
}

proof fn lemma_comparisons_of_slot(j: int, slot: RangeSlot, i: usize, v: i64)
    requires
        0 <= j <= usize::MAX,
    ensures
        slot_tests(j, slot).contains(Test::AtLeast(i, v)) <==> (i == j && slot.lower == Some(v)),
        slot_tests(j, slot).contains(Test::AtMost(i, v)) <==> (i == j && slot.upper == Some(v)),
{
    let first = seq![Test::Parses(j as usize)];
    let low = match slot.lower {
        Some(w) => seq![Test::AtLeast(j as usize, w)],
        None => Seq::empty(),
    };
    let high = match slot.upper {
        Some(w) => seq![Test::AtMost(j as usize, w)],
        None => Seq::empty(),
    };
    let least = Test::AtLeast(i, v);
    let most = Test::AtMost(i, v);
    lemma_contains_add(first, low, least);
    lemma_contains_add(first + low, high, least);
    lemma_contains_add(first, low, most);
    lemma_contains_add(first + low, high, most);
    if i == j && slot.lower == Some(v) {
        assert(low[0] == least);
    }
    if i == j && slot.upper == Some(v) {
        assert(high[0] == most);
    }
}

/// Where the comparisons of the first `n` range slots stand: slot `i` is
/// compared with a lower bound `v` exactly where it states `v` as its lower
/// bound, and likewise for its upper bound.
pub proof fn lemma_comparisons_of_ranges(slots: Seq<RangeSlot>, n: int, i: usize, v: i64)
    requires
        0 <= n <= slots.len() <= usize::MAX,
    ensures
        range_tests(slots, n).contains(Test::AtLeast(i, v)) <==> (i < n && slots[i as int].lower
            == Some(v)),
        range_tests(slots, n).contains(Test::AtMost(i, v)) <==> (i < n && slots[i as int].upper
            == Some(v)),
    decreases n,
{
    if n > 0 {
        lemma_comparisons_of_ranges(slots, n - 1, i, v);
        let before = range_tests(slots, n - 1);
        let here = slot_tests(n - 1, slots[n - 1]);
        let all = range_tests(slots, n);
        assert(all == before + here);
        let low = Test::AtLeast(i, v);
        let high = Test::AtMost(i, v);
        lemma_contains_add(before, here, low);
        lemma_contains_add(before, here, high);
        lemma_comparisons_of_slot(n - 1, slots[n - 1], i, v);
    } else {
        assert(range_tests(slots, n) =~= Seq::<Test>::empty());
    }
}

/// In the predicate of a pattern with one, two or three ranges, range `i`
/// is compared with a lower bound exactly where the pattern states one for
/// it, and with that bound; likewise for the upper bound.
pub proof fn lemma_comparison_per_bound(p: PatternView, i: usize, v: i64)
    requires
        p.wf(),
        1 <= p.slots.len() <= 3,
    ensures
        tests_of(p).contains(Test::AtLeast(i, v)) <==> (i < p.slots.len() && p.slots[i as int].lower
            == Some(v)),
        tests_of(p).contains(Test::AtMost(i, v)) <==> (i < p.slots.len() && p.slots[i as int].upper
            == Some(v)),
{
    let front = front_tests(p);
    let ranges = range_tests(p.slots, p.slots.len() as int);
    let back = keyword_tests(p.keyword);
    let low = Test::AtLeast(i, v);
    let high = Test::AtMost(i, v);
    lemma_comparisons_of_ranges(p.slots, p.slots.len() as int, i, v);
    lemma_contains_add(front, ranges, low);
    lemma_contains_add(front + ranges, back, low);
    lemma_contains_add(front, ranges, high);
    lemma_contains_add(front + ranges, back, high);
    assert(!front.contains(low) && !front.contains(high));
    assert(!back.contains(low) && !back.contains(high));
}

/// The tests of a pattern without range, by its keyword.
pub open spec fn unranged_tests(keyword: Keyword) -> Seq<Test> {
    match keyword {
        Keyword::Plain => seq![Test::NameIs],
        Keyword::Bc => seq![Test::InAltBarcodes],
        Keyword::Info => seq![Test::InInfoFields],
        Keyword::Rega => seq![
            Test::StartsWith,
            Test::EndsWith,
            Test::NoUnderscore,
            Test::Compiles,
        ],
        Keyword::Dataset => seq![Test::StartsWith, Test::EndsWith, Test::IsDataset],
        Keyword::Name => seq![Test::StartsWith, Test::EndsWith, Test::IsKnownName],
    }
}

/// A pattern with exactly one run of upper-case letters and no brace gives
/// one branch header, and its predicate has the one form that the
/// pattern's keyword names: a comparison with the whole name, a lookup of
/// the whole name, or prefix and suffix tests with the keyword's own test.
/// This holds for either target class.
pub proof fn lemma_one_run_header(s: Seq<char>, class: TargetClass)
    requires
        all_run_starts(s).len() == 1,
        count_of(s, '{') == 0,
        count_of(s, '}') == 0,
    ensures
        classification(s) is Ok,
        tests_of(classification(s)->Ok_0) == unranged_tests(keyword_of(s)),
        head_of(s, class) == Ok::<Seq<char>, ErrorView>(clause_head(classification(s)->Ok_0)),
{
    lemma_one_run_without_braces(s);
    let p = classification(s)->Ok_0;
    if p.keyword.captures() {
        assert(p.holes() == 1);
        assert(separator_tests(0) =~= Seq::<Test>::empty());
        assert(range_tests(p.slots, 0) =~= Seq::<Test>::empty());
        assert(tests_of(p) =~= unranged_tests(p.keyword));
    } else {
        assert(tests_of(p) =~= unranged_tests(p.keyword));
    }
}

} // verus!
