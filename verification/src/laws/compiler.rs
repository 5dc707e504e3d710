//! The compiled predicate decides what the reference interpreter decides.

use crate::clause::{
    front_tests, keyword_tests, range_tests, separator_tests, slot_tests, tests_of, Test,
};
use crate::matcher::{
    decompose, interiors_from, outcome, regex_compiles, slots_admit, ListsView,
};
use crate::meaning::{
    cursor_pos, cursor_value, find_last, interior_value, overlapped, predicate_value, test_value,
    text_after, text_between2, text_ends_with,
};
use crate::model::{Keyword, PatternView, RangeSlot};
use crate::number::parse_i64;
use crate::text::{find_from, lemma_find_from, occurs_at};
use vstd::prelude::*;

verus! {

proof fn lemma_occurs_in_suffix(s: Seq<char>, a: int, t: Seq<char>, j: int)
    requires
        0 <= a <= s.len(),
    ensures
        occurs_at(s.subrange(a, s.len() as int), t, j) <==> (0 <= j && occurs_at(s, t, a + j)),
{
    let tail = s.subrange(a, s.len() as int);
    if 0 <= j && j + t.len() <= tail.len() {
        assert(tail.subrange(j, j + t.len()) =~= s.subrange(a + j, a + j + t.len()));
    }
}

proof fn lemma_find_in_suffix(s: Seq<char>, a: int, t: Seq<char>, from: int)
    requires
        0 <= a <= s.len(),
        0 <= from,
    ensures
        find_from(s.subrange(a, s.len() as int), t, from) == match find_from(s, t, a + from) {
            Some(i) => Some(i - a),
            None => None::<int>,
        },
    decreases s.len() + 1 - a - from,
{
    let tail = s.subrange(a, s.len() as int);
    lemma_occurs_in_suffix(s, a, t, from);
    if from + t.len() <= tail.len() && !occurs_at(tail, t, from) {
        lemma_find_in_suffix(s, a, t, from + 1);
    }
}

proof fn lemma_find_last_is(hay: Seq<char>, needle: Seq<char>, upto: int, at: int)
    requires
        0 <= at <= upto,
        occurs_at(hay, needle, at),
        forall|i: int| at < i <= upto ==> !occurs_at(hay, needle, i),
    ensures
        find_last(hay, needle, upto) == Some(at),
    decreases upto - at,
{
    if at < upto {
        lemma_find_last_is(hay, needle, upto - 1, at);
    }
}

/// The value of a cursor is the name from the cursor's position on.
proof fn lemma_cursor(segments: Seq<Seq<char>>, name: Seq<char>, k: int)
    requires
        0 <= k <= segments.len(),
    ensures
        cursor_pos(segments, name, k) matches Some(q) ==> 0 <= q <= name.len(),
        cursor_value(segments, name, k) == match cursor_pos(segments, name, k) {
            Some(q) => Some(name.subrange(q, name.len() as int)),
            None => None::<Seq<char>>,
        },
    decreases k,
{
    if k <= 0 {
        assert(name.subrange(0, name.len() as int) =~= name);
    } else {
        lemma_cursor(segments, name, k - 1);
        match cursor_pos(segments, name, k - 1) {
            Some(q) => {
                let rest = name.subrange(q, name.len() as int);
                let segment = segments[k - 1];
                lemma_find_in_suffix(name, q, segment, 0);
                lemma_find_from(name, segment, q);
                match find_from(name, segment, q) {
                    Some(i) => {
                        assert(rest.subrange(i - q + segment.len(), rest.len() as int)
                            =~= name.subrange(i + segment.len(), name.len() as int));
                    },
                    None => {},
                }
            },
            None => {},
        }
    }
}

proof fn lemma_predicate_of_joined(
    p: PatternView,
    a: Seq<Test>,
    b: Seq<Test>,
    name: Seq<char>,
    lists: ListsView,
)
    ensures
        predicate_value(p, a + b, name, lists) == match predicate_value(p, a, name, lists) {
            Some(true) => predicate_value(p, b, name, lists),
            other => other,
        },
    decreases a.len(),
{
    if a.len() == 0 {
        assert(a + b =~= b);
    } else {
        assert((a + b)[0] == a[0]);
        assert((a + b).drop_first() =~= a.drop_first() + b);
        lemma_predicate_of_joined(p, a.drop_first(), b, name, lists);
    }
}

proof fn lemma_predicate_of_one(p: PatternView, t: Test, name: Seq<char>, lists: ListsView)
    ensures
        predicate_value(p, seq![t], name, lists) == test_value(p, t, name, lists),
{
    reveal_with_fuel(predicate_value, 2);
    assert(seq![t].drop_first() =~= Seq::<Test>::empty());
}

proof fn lemma_cursor_stays_lost(segments: Seq<Seq<char>>, name: Seq<char>, k: int, later: int)
    requires
        0 <= k <= later,
        cursor_pos(segments, name, k) is None,
    ensures
        cursor_pos(segments, name, later) is None,
    decreases later - k,
{
    if k < later {
        lemma_cursor_stays_lost(segments, name, k, later - 1);
    }
}

proof fn lemma_cursor_past_prefix(segments: Seq<Seq<char>>, name: Seq<char>)
    requires
        segments.len() >= 1,
        occurs_at(name, segments[0], 0),
    ensures
        cursor_pos(segments, name, 1) == Some(segments[0].len() as int),
{
    reveal_with_fuel(cursor_pos, 2);
}

/// The last literal segment closes the name behind the cursor that has
/// passed all segments before it.
pub open spec fn closes(segments: Seq<Seq<char>>, name: Seq<char>, h: int) -> bool {
    match cursor_pos(segments, name, h) {
        Some(q) => q + segments[h].len() <= name.len() && occurs_at(
            name,
            segments[h],
            name.len() - segments[h].len(),
        ),
        None => false,
    }
}

/// What stands in placeholder `k` of `h`, by the positions of the cursors.
pub open spec fn interior_at(segments: Seq<Seq<char>>, name: Seq<char>, h: int, k: int) -> Seq<
    char,
> {
    name.subrange(
        cursor_pos(segments, name, k + 1)->0,
        if k + 1 == h {
            name.len() - segments[h].len()
        } else {
            cursor_pos(segments, name, k + 2)->0 - segments[k + 1].len()
        },
    )
}

proof fn lemma_separators_value(p: PatternView, m: int, name: Seq<char>, lists: ListsView)
    requires
        0 <= m < p.segments.len(),
        m <= 4,
        cursor_pos(p.segments, name, 1) is Some,
    ensures
        predicate_value(p, separator_tests(m), name, lists) == Some(
            cursor_pos(p.segments, name, m + 1) is Some,
        ),
    decreases m,
{
    if m == 0 {
        assert(separator_tests(0) =~= Seq::<Test>::empty());
    } else {
        lemma_separators_value(p, m - 1, name, lists);
        let t = Test::Contains(m as usize);
        assert(separator_tests(m) =~= separator_tests(m - 1) + seq![t]);
        lemma_predicate_of_joined(p, separator_tests(m - 1), seq![t], name, lists);
        lemma_predicate_of_one(p, t, name, lists);
        lemma_cursor(p.segments, name, m);
        match cursor_pos(p.segments, name, m) {
            Some(q) => {
                lemma_find_in_suffix(name, q, p.segments[m], 0);
            },
            None => {},
        }
    }
}

proof fn lemma_ends_value(p: PatternView, name: Seq<char>, lists: ListsView)
    requires
        p.segments.len() == p.holes() + 1,
        cursor_pos(p.segments, name, p.holes()) is Some,
    ensures
        test_value(p, Test::EndsWith, name, lists) == Some(closes(p.segments, name, p.holes())),
{
    let h = p.holes();
    lemma_cursor(p.segments, name, h);
    let q = cursor_pos(p.segments, name, h)->0;
    let rest = name.subrange(q, name.len() as int);
    lemma_occurs_in_suffix(name, q, p.segments[h], rest.len() - p.segments[h].len());
}

proof fn lemma_interiors_by_position(
    segments: Seq<Seq<char>>,
    name: Seq<char>,
    h: int,
    k: int,
)
    requires
        segments.len() == h + 1,
        0 <= k < h,
        cursor_pos(segments, name, k + 1) is Some,
    ensures
        interiors_from(segments, name, k, cursor_pos(segments, name, k + 1)->0) is Some
            <==> closes(segments, name, h),
        interiors_from(
            segments,
            name,
            k,
            cursor_pos(segments, name, k + 1)->0,
        ) matches Some(rest) ==> rest.len() == h - k && forall|j: int|
            k <= j < h ==> #[trigger] rest[j - k] == interior_at(segments, name, h, j),
    decreases h - k,
{
    let pos = cursor_pos(segments, name, k + 1)->0;
    if k + 1 < h {
        match find_from(name, segments[k + 1], pos) {
            Some(q) => {
                lemma_interiors_by_position(segments, name, h, k + 1);
                let next = q + segments[k + 1].len();
                match interiors_from(segments, name, k + 1, next) {
                    Some(tail) => {
                        let rest = seq![name.subrange(pos, q)] + tail;
                        assert forall|j: int| k <= j < h implies #[trigger] rest[j - k]
                            == interior_at(segments, name, h, j) by {
                            if j > k {
                                assert(rest[j - k] == tail[j - (k + 1)]);
                            }
                        }
                    },
                    None => {},
                }
            },
            None => {
                lemma_cursor_stays_lost(segments, name, k + 2, h);
            },
        }
    }
}

proof fn lemma_general_front_value(p: PatternView, name: Seq<char>, lists: ListsView)
    requires
        p.wf(),
        p.holes() >= 1,
        p.slots.len() != 1,
    ensures
        predicate_value(p, front_tests(p), name, lists) == Some(
            decompose(p.segments, name) is Some,
        ),
{
    let h = p.holes();
    let first = seq![Test::StartsWith];
    let middle = separator_tests(h - 1);
    let last = seq![Test::EndsWith];
    lemma_predicate_of_joined(p, first + middle, last, name, lists);
    lemma_predicate_of_joined(p, first, middle, name, lists);
    lemma_predicate_of_one(p, Test::StartsWith, name, lists);
    lemma_predicate_of_one(p, Test::EndsWith, name, lists);
    if occurs_at(name, p.segments[0], 0) {
        lemma_cursor_past_prefix(p.segments, name);
        lemma_separators_value(p, h - 1, name, lists);
        lemma_interiors_by_position(p.segments, name, h, 0);
        if cursor_pos(p.segments, name, h) is Some {
            lemma_ends_value(p, name, lists);
        }
    }
}

proof fn lemma_occurs_in_window(s: Seq<char>, a: int, b: int, t: Seq<char>, j: int)
    requires
        0 <= a <= b <= s.len(),
    ensures
        occurs_at(s.subrange(a, b), t, j) <==> (0 <= j && a + j + t.len() <= b && occurs_at(
            s,
            t,
            a + j,
        )),
{
    let window = s.subrange(a, b);
    if 0 <= j && j + t.len() <= window.len() {
        assert(window.subrange(j, j + t.len()) =~= s.subrange(a + j, a + j + t.len()));
    }
}

proof fn lemma_find_in_window(s: Seq<char>, a: int, b: int, t: Seq<char>)
    requires
        0 <= a <= b <= s.len(),
    ensures
        find_from(s.subrange(a, b), t, 0) is Some <==> (find_from(s, t, a) is Some && find_from(
            s,
            t,
            a,
        )->0 + t.len() <= b),
{
    let window = s.subrange(a, b);
    lemma_find_from(window, t, 0);
    lemma_find_from(s, t, a);
    match find_from(window, t, 0) {
        Some(j) => {
            lemma_occurs_in_window(s, a, b, t, j);
            assert(occurs_at(s, t, a + j));
        },
        None => {
            if find_from(s, t, a) is Some && find_from(s, t, a)->0 + t.len() <= b {
                let q = find_from(s, t, a)->0;
                lemma_occurs_in_window(s, a, b, t, q - a);
                assert(occurs_at(window, t, q - a));
            }
        },
    }
}

proof fn lemma_find_last_none(hay: Seq<char>, needle: Seq<char>, upto: int)
    requires
        forall|i: int| 0 <= i <= upto ==> !occurs_at(hay, needle, i),
    ensures
        find_last(hay, needle, upto) is None,
    decreases upto + 1,
{
    if upto >= 0 {
        lemma_find_last_none(hay, needle, upto - 1);
    }
}

/// What `between2` gives for a name that starts with the one text and
/// ends with the other: what stands between them, and nothing where the
/// two overlap.
proof fn lemma_between2_of_name(name: Seq<char>, first: Seq<char>, last: Seq<char>)
    requires
        occurs_at(name, first, 0),
        text_ends_with(name, last),
    ensures
        text_between2(name, first, last) == if name.len() < first.len() + last.len() {
            None::<Seq<char>>
        } else {
            Some(name.subrange(first.len() as int, name.len() - last.len()))
        },
{
    let rest = name.subrange(first.len() as int, name.len() as int);
    assert(find_from(name, first, 0) == Some(0int));
    assert(text_after(name, first) == Some(rest));
    if name.len() < first.len() + last.len() {
        assert forall|i: int| 0 <= i <= rest.len() implies !occurs_at(rest, last, i) by {}
        lemma_find_last_none(rest, last, rest.len() as int);
    } else {
        let at = rest.len() - last.len();
        lemma_occurs_in_suffix(name, first.len() as int, last, at);
        assert forall|i: int| at < i <= rest.len() implies !occurs_at(rest, last, i) by {}
        lemma_find_last_is(rest, last, rest.len() as int, at);
        assert(rest.subrange(0, at) =~= name.subrange(
            first.len() as int,
            name.len() - last.len(),
        ));
    }
}

proof fn lemma_closes_after_prefix(p: PatternView, name: Seq<char>)
    requires
        p.wf(),
        p.holes() >= 1,
        occurs_at(name, p.segments[0], 0),
        closes(p.segments, name, p.holes()),
    ensures
        name.len() >= p.segments[0].len() + p.segments[p.holes()].len(),
        text_ends_with(name, p.segments[p.holes()]),
{
    let h = p.holes();
    lemma_cursor_past_prefix(p.segments, name);
    lemma_cursor_grows(p.segments, name, 1, h);
}

proof fn lemma_cursor_grows(segments: Seq<Seq<char>>, name: Seq<char>, k: int, later: int)
    requires
        0 <= k <= later,
        cursor_pos(segments, name, later) is Some,
    ensures
        cursor_pos(segments, name, k) is Some,
        cursor_pos(segments, name, k)->0 <= cursor_pos(segments, name, later)->0,
    decreases later - k,
{
    if k < later {
        lemma_cursor_grows(segments, name, k, later - 1);
        let q = cursor_pos(segments, name, later - 1)->0;
        lemma_find_from(name, segments[later - 1], q);
    }
}

proof fn lemma_front_value(p: PatternView, name: Seq<char>, lists: ListsView)
    requires
        p.wf(),
        p.holes() >= 1,
        !overlapped(p, name),
    ensures
        predicate_value(p, front_tests(p), name, lists) == Some(
            decompose(p.segments, name) is Some,
        ),
{
    let h = p.holes();
    if p.slots.len() != 1 {
        lemma_general_front_value(p, name, lists);
    } else {
        let starts = occurs_at(name, p.segments[0], 0);
        let ends = text_ends_with(name, p.segments[h]);
        let two = seq![Test::StartsWith, Test::NameEndsWith];
        assert(two =~= seq![Test::StartsWith] + seq![Test::NameEndsWith]);
        lemma_predicate_of_joined(
            p,
            seq![Test::StartsWith],
            seq![Test::NameEndsWith],
            name,
            lists,
        );
        lemma_predicate_of_one(p, Test::StartsWith, name, lists);
        lemma_predicate_of_one(p, Test::NameEndsWith, name, lists);
        assert(predicate_value(p, two, name, lists) == Some(starts && ends));
        if starts {
            lemma_cursor_past_prefix(p.segments, name);
            lemma_interiors_by_position(p.segments, name, h, 0);
            if closes(p.segments, name, h) {
                lemma_closes_after_prefix(p, name);
            }
        }
        if p.keyword is Rega {
            assert(front_tests(p) =~= two + seq![Test::Encloses]);
            lemma_predicate_of_joined(p, two, seq![Test::Encloses], name, lists);
            lemma_predicate_of_one(p, Test::Encloses, name, lists);
            if starts && ends {
                lemma_between2_of_name(name, p.segments[0], p.segments[2]);
                lemma_find_in_window(
                    name,
                    p.segments[0].len() as int,
                    name.len() - p.segments[2].len(),
                    p.segments[1],
                );
                reveal_with_fuel(cursor_pos, 3);
            }
        } else {
            assert(front_tests(p) =~= two);
            if starts && ends {
                assert(closes(p.segments, name, h));
            }
        }
    }
}

/// Where first and last segment overlap in a name, the tests of a pattern
/// of one range abort, and the interpreter finds no match.
proof fn lemma_overlap_aborts(p: PatternView, name: Seq<char>, lists: ListsView)
    requires
        p.wf(),
        overlapped(p, name),
    ensures
        predicate_value(p, tests_of(p), name, lists) is None,
        outcome(p, name, lists) is None,
{
    let h = p.holes();
    let two = seq![Test::StartsWith, Test::NameEndsWith];
    let ranges = range_tests(p.slots, p.slots.len() as int);
    let back = keyword_tests(p.keyword);
    assert(two =~= seq![Test::StartsWith] + seq![Test::NameEndsWith]);
    lemma_predicate_of_joined(p, seq![Test::StartsWith], seq![Test::NameEndsWith], name, lists);
    lemma_predicate_of_one(p, Test::StartsWith, name, lists);
    lemma_predicate_of_one(p, Test::NameEndsWith, name, lists);
    lemma_between2_of_name(name, p.segments[0], p.segments[h]);
    lemma_predicate_of_joined(p, front_tests(p) + ranges, back, name, lists);
    lemma_predicate_of_joined(p, front_tests(p), ranges, name, lists);
    if p.keyword is Rega {
        assert(front_tests(p) =~= two + seq![Test::Encloses]);
        lemma_predicate_of_joined(p, two, seq![Test::Encloses], name, lists);
        lemma_predicate_of_one(p, Test::Encloses, name, lists);
    } else {
        assert(front_tests(p) =~= two);
        reveal_with_fuel(range_tests, 2);
        assert(ranges[0] == Test::Parses(0usize));
        assert(cursor_value(p.segments, name, 0) == Some(name));
        assert(interior_value(p, name, 0) is None);
        assert(test_value(p, ranges[0], name, lists) is None);
    }
    lemma_cursor_past_prefix(p.segments, name);
    lemma_interiors_by_position(p.segments, name, h, 0);
    if closes(p.segments, name, h) {
        lemma_closes_after_prefix(p, name);
    }
}

proof fn lemma_cursor_was_found(segments: Seq<Seq<char>>, name: Seq<char>, k: int, later: int)
    requires
        0 <= k <= later,
        cursor_pos(segments, name, later) is Some,
    ensures
        cursor_pos(segments, name, k) is Some,
{
    if cursor_pos(segments, name, k) is None {
        lemma_cursor_stays_lost(segments, name, k, later);
    }
}

proof fn lemma_interior_value(p: PatternView, name: Seq<char>, k: int)
    requires
        p.segments.len() == p.holes() + 1,
        0 <= k < p.holes(),
        occurs_at(name, p.segments[0], 0),
        closes(p.segments, name, p.holes()),
    ensures
        interior_value(p, name, k) == Some(interior_at(p.segments, name, p.holes(), k)),
{
    let h = p.holes();
    let segments = p.segments;
    lemma_cursor_was_found(segments, name, k, h);
    lemma_cursor_was_found(segments, name, k + 1, h);
    lemma_cursor(segments, name, k);
    lemma_cursor(segments, name, k + 1);
    let here = cursor_pos(segments, name, k)->0;
    let next = cursor_pos(segments, name, k + 1)->0;
    let value = name.subrange(here, name.len() as int);
    let rest = name.subrange(next, name.len() as int);
    lemma_find_in_suffix(name, here, segments[k], 0);
    lemma_find_from(name, segments[k], here);
    let found = find_from(name, segments[k], here)->0;
    assert(next == found + segments[k].len());
    assert(value.subrange(found - here + segments[k].len(), value.len() as int) =~= rest);
    assert(text_after(value, segments[k]) == Some(rest));
    if k + 1 == h {
        let at = rest.len() - segments[h].len();
        lemma_occurs_in_suffix(name, next, segments[h], at);
        assert forall|i: int| at < i <= rest.len() implies !occurs_at(rest, segments[h], i) by {}
        lemma_find_last_is(rest, segments[h], rest.len() as int, at);
        assert(rest.subrange(0, at) =~= interior_at(segments, name, h, k));
    } else {
        lemma_cursor_was_found(segments, name, k + 2, h);
        lemma_find_in_suffix(name, next, segments[k + 1], 0);
        lemma_find_from(name, segments[k + 1], next);
        let after = find_from(name, segments[k + 1], next)->0;
        assert(rest.subrange(0, after - next) =~= interior_at(segments, name, h, k));
    }
}

/// Every one of the first `n` range slots holds an integer that its bounds
/// admit.
pub open spec fn admitted(slots: Seq<RangeSlot>, interiors: Seq<Seq<char>>, n: int) -> bool {
    forall|i: int|
        0 <= i < n ==> parse_i64(#[trigger] interiors[i]) is Some && slots[i].admits(
            parse_i64(interiors[i])->0 as int,
        )
}

proof fn lemma_slot_value(
    p: PatternView,
    i: int,
    x: Seq<char>,
    name: Seq<char>,
    lists: ListsView,
)
    requires
        0 <= i < p.slots.len() <= 3,
        interior_value(p, name, i) == Some(x),
    ensures
        predicate_value(p, slot_tests(i, p.slots[i]), name, lists) == Some(
            parse_i64(x) is Some && p.slots[i].admits(parse_i64(x)->0 as int),
        ),
{
    let slot = p.slots[i];
    let first = seq![Test::Parses(i as usize)];
    let low = match slot.lower {
        Some(v) => seq![Test::AtLeast(i as usize, v)],
        None => Seq::empty(),
    };
    let high = match slot.upper {
        Some(v) => seq![Test::AtMost(i as usize, v)],
        None => Seq::empty(),
    };
    lemma_predicate_of_joined(p, first + low, high, name, lists);
    lemma_predicate_of_joined(p, first, low, name, lists);
    lemma_predicate_of_one(p, Test::Parses(i as usize), name, lists);
    match slot.lower {
        Some(v) => lemma_predicate_of_one(p, Test::AtLeast(i as usize, v), name, lists),
        None => {},
    }
    match slot.upper {
        Some(v) => lemma_predicate_of_one(p, Test::AtMost(i as usize, v), name, lists),
        None => {},
    }
}

proof fn lemma_ranges_value(
    p: PatternView,
    n: int,
    interiors: Seq<Seq<char>>,
    name: Seq<char>,
    lists: ListsView,
)
    requires
        0 <= n <= p.slots.len() <= 3,
        forall|i: int| 0 <= i < n ==> interior_value(p, name, i) == Some(#[trigger] interiors[i]),
    ensures
        predicate_value(p, range_tests(p.slots, n), name, lists) == Some(
            admitted(p.slots, interiors, n),
        ),
    decreases n,
{
    if n > 0 {
        lemma_ranges_value(p, n - 1, interiors, name, lists);
        lemma_slot_value(p, n - 1, interiors[n - 1], name, lists);
        lemma_predicate_of_joined(
            p,
            range_tests(p.slots, n - 1),
            slot_tests(n - 1, p.slots[n - 1]),
            name,
            lists,
        );
        if admitted(p.slots, interiors, n - 1) && parse_i64(interiors[n - 1]) is Some
            && p.slots[n - 1].admits(parse_i64(interiors[n - 1])->0 as int) {
            assert(admitted(p.slots, interiors, n));
        }
        if admitted(p.slots, interiors, n) {
            assert(admitted(p.slots, interiors, n - 1));
            assert(parse_i64(interiors[n - 1]) is Some);
        }
    }
}

/// What the tests of a keyword ask of the text that stands for it.
pub open spec fn keyword_holds(keyword: Keyword, x: Seq<char>, lists: ListsView) -> bool {
    match keyword {
        Keyword::Rega => !x.contains('_') && regex_compiles(x),
        Keyword::Dataset => lists.datasets.contains(x),
        Keyword::Name => lists.knows(x),
        _ => true,
    }
}

proof fn lemma_keyword_value(p: PatternView, x: Seq<char>, name: Seq<char>, lists: ListsView)
    requires
        p.keyword.captures() ==> interior_value(p, name, p.holes() - 1) == Some(x),
    ensures
        predicate_value(p, keyword_tests(p.keyword), name, lists) == Some(
            keyword_holds(p.keyword, x, lists),
        ),
{
    match p.keyword {
        Keyword::Rega => {
            let a = seq![Test::NoUnderscore];
            let b = seq![Test::Compiles];
            assert(keyword_tests(p.keyword) =~= a + b);
            lemma_predicate_of_joined(p, a, b, name, lists);
            lemma_predicate_of_one(p, Test::NoUnderscore, name, lists);
            lemma_predicate_of_one(p, Test::Compiles, name, lists);
        },
        Keyword::Dataset => {
            lemma_predicate_of_one(p, Test::IsDataset, name, lists);
        },
        Keyword::Name => {
            lemma_predicate_of_one(p, Test::IsKnownName, name, lists);
        },
        _ => {},
    }
}

/// The compiled predicate decides the match: evaluated from the left, the
/// tests of a pattern hold together exactly where the pattern matches the
/// name, and they do not abort. The one exception is a pattern of one range
/// and a name in which its first and last segment overlap: there the tests
/// abort, and the interpreter finds no match.
pub proof fn lemma_predicate_decides_match(p: PatternView, name: Seq<char>, lists: ListsView)
    requires
        p.wf(),
    ensures
        predicate_value(p, tests_of(p), name, lists) == if overlapped(p, name) {
            None::<bool>
        } else {
            Some(outcome(p, name, lists) is Some)
        },
        overlapped(p, name) ==> outcome(p, name, lists) is None,
{
    let h = p.holes();
    if overlapped(p, name) {
        lemma_overlap_aborts(p, name, lists);
    } else if h == 0 {
        match p.keyword {
            Keyword::Bc => lemma_predicate_of_one(p, Test::InAltBarcodes, name, lists),
            Keyword::Info => lemma_predicate_of_one(p, Test::InInfoFields, name, lists),
            _ => {
                lemma_predicate_of_one(p, Test::NameIs, name, lists);
                if name == p.segments[0] {
                    assert(name.subrange(0, name.len() as int) =~= name);
                    assert(slots_admit(p.slots, decompose(p.segments, name)->0));
                }
                if decompose(p.segments, name) is Some {
                    assert(name.subrange(0, p.segments[0].len() as int) =~= name);
                    assert(slots_admit(p.slots, decompose(p.segments, name)->0));
                }
            },
        }
    } else {
        let front = front_tests(p);
        let ranges = range_tests(p.slots, p.slots.len() as int);
        let back = keyword_tests(p.keyword);
        lemma_front_value(p, name, lists);
        lemma_predicate_of_joined(p, front + ranges, back, name, lists);
        lemma_predicate_of_joined(p, front, ranges, name, lists);
        match decompose(p.segments, name) {
            Some(interiors) => {
                lemma_cursor_past_prefix(p.segments, name);
                lemma_interiors_by_position(p.segments, name, h, 0);
                assert forall|k: int| 0 <= k < h implies interior_value(p, name, k) == Some(
                    #[trigger] interiors[k],
                ) by {
                    lemma_interior_value(p, name, k);
                    assert(interiors[k - 0] == interior_at(p.segments, name, h, k));
                }
                lemma_ranges_value(p, p.slots.len() as int, interiors, name, lists);
                lemma_keyword_value(p, interiors[h - 1], name, lists);
                assert(admitted(p.slots, interiors, p.slots.len() as int) == slots_admit(
                    p.slots,
                    interiors,
                ));
            },
            None => {},
        }
    }
}

} // verus!
