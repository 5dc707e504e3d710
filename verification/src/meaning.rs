//! What the emitted tests mean: the value that each test, and the
//! predicate as a whole, comes to for a name.
//!
//! The emitted expressions call text operations that abort where they do
//! not find what they look for. A value of `None` stands for such an abort;
//! the conjuncts of a predicate are evaluated from the left, and the first
//! that fails ends the evaluation.

use crate::clause::Test;
use crate::matcher::{regex_compiles, ListsView};
use crate::model::PatternView;
use crate::number::parse_i64;
use crate::text::{find_from, occurs_at};
use vstd::prelude::*;

verus! {

/// The last position at or before `upto` where `needle` stands in `hay`.
pub open spec fn find_last(hay: Seq<char>, needle: Seq<char>, upto: int) -> Option<int>
    decreases upto + 1,
{
    if upto < 0 {
        None
    } else if occurs_at(hay, needle, upto) {
        Some(upto)
    } else {
        find_last(hay, needle, upto - 1)
    }
}

/// `s.after(t)`: what follows the first occurrence of `t` in `s`.
pub open spec fn text_after(s: Seq<char>, t: Seq<char>) -> Option<Seq<char>> {
    match find_from(s, t, 0) {
        Some(i) => Some(s.subrange(i + t.len(), s.len() as int)),
        None => None,
    }
}

/// `s.between(t, u)`: what stands after the first occurrence of `t` in `s`
/// and before the first occurrence of `u` after that.
pub open spec fn text_between(s: Seq<char>, t: Seq<char>, u: Seq<char>) -> Option<Seq<char>> {
    match text_after(s, t) {
        Some(rest) => match find_from(rest, u, 0) {
            Some(j) => Some(rest.subrange(0, j)),
            None => None,
        },
        None => None,
    }
}

/// `s.between2(t, u)`: what stands after the first occurrence of `t` in
/// `s` and before the last occurrence of `u` after that.
pub open spec fn text_between2(s: Seq<char>, t: Seq<char>, u: Seq<char>) -> Option<Seq<char>> {
    match text_after(s, t) {
        Some(rest) => match find_last(rest, u, rest.len() as int) {
            Some(j) => Some(rest.subrange(0, j)),
            None => None,
        },
        None => None,
    }
}

/// `s.ends_with(t)`.
pub open spec fn text_ends_with(s: Seq<char>, t: Seq<char>) -> bool {
    occurs_at(s, t, s.len() - t.len())
}

/// The value of the expression `cursor(segments, k)`: the name, with
/// `after` applied for each of the first `k` literal segments in turn.
pub open spec fn cursor_value(segments: Seq<Seq<char>>, name: Seq<char>, k: int) -> Option<
    Seq<char>,
>
    decreases k,
{
    if k <= 0 {
        Some(name)
    } else {
        match cursor_value(segments, name, k - 1) {
            Some(rest) => text_after(rest, segments[k - 1]),
            None => None,
        }
    }
}

/// The value of the expression `interior(p, k)`.
pub open spec fn interior_value(p: PatternView, name: Seq<char>, k: int) -> Option<Seq<char>> {
    match cursor_value(p.segments, name, k) {
        Some(rest) => if k + 1 == p.holes() {
            text_between2(rest, p.segments[k], p.segments[k + 1])
        } else {
            text_between(rest, p.segments[k], p.segments[k + 1])
        },
        None => None,
    }
}

/// The position in the name at which the value of `cursor(segments, k)`
/// begins: past the first occurrence of each of the first `k` literal
/// segments, each looked for behind the one before.
pub open spec fn cursor_pos(segments: Seq<Seq<char>>, name: Seq<char>, k: int) -> Option<int>
    decreases k,
{
    if k <= 0 {
        Some(0)
    } else {
        match cursor_pos(segments, name, k - 1) {
            Some(q) => match find_from(name, segments[k - 1], q) {
                Some(i) => Some(i + segments[k - 1].len()),
                None => None,
            },
            None => None,
        }
    }
}

/// The value of one emitted test for `name`.
pub open spec fn test_value(p: PatternView, t: Test, name: Seq<char>, lists: ListsView) -> Option<
    bool,
> {
    match t {
        Test::NameIs => Some(name == p.segments[0]),
        Test::InAltBarcodes => Some(lists.alt_barcodes.contains(name)),
        Test::InInfoFields => Some(lists.info_fields.contains(name)),
        Test::StartsWith => Some(occurs_at(name, p.segments[0], 0)),
        Test::Contains(k) => match cursor_value(p.segments, name, k as int) {
            Some(rest) => Some(find_from(rest, p.segments[k as int], 0) is Some),
            None => None,
        },
        Test::EndsWith => match cursor_value(p.segments, name, p.holes()) {
            Some(rest) => Some(text_ends_with(rest, p.segments[p.holes()])),
            None => None,
        },
        Test::NameEndsWith => Some(text_ends_with(name, p.segments[p.holes()])),
        Test::Encloses => match text_between2(name, p.segments[0], p.segments[p.holes()]) {
            Some(inside) => Some(find_from(inside, p.segments[1], 0) is Some),
            None => None,
        },
        Test::Parses(i) => match interior_value(p, name, i as int) {
            Some(x) => Some(parse_i64(x) is Some),
            None => None,
        },
        Test::AtLeast(i, v) => match interior_value(p, name, i as int) {
            Some(x) => match parse_i64(x) {
                Some(n) => Some(n >= v),
                None => None,
            },
            None => None,
        },
        Test::AtMost(i, v) => match interior_value(p, name, i as int) {
            Some(x) => match parse_i64(x) {
                Some(n) => Some(n <= v),
                None => None,
            },
            None => None,
        },
        Test::NoUnderscore => match interior_value(p, name, p.holes() - 1) {
            Some(x) => Some(!x.contains('_')),
            None => None,
        },
        Test::Compiles => match interior_value(p, name, p.holes() - 1) {
            Some(x) => Some(regex_compiles(x)),
            None => None,
        },
        Test::IsDataset => match interior_value(p, name, p.holes() - 1) {
            Some(x) => Some(lists.datasets.contains(x)),
            None => None,
        },
        Test::IsKnownName => match interior_value(p, name, p.holes() - 1) {
            Some(x) => Some(lists.knows(x)),
            None => None,
        },
    }
}

/// A name in which the first and the last literal segment of a pattern of
/// one range overlap: it starts with the one and ends with the other, and
/// is shorter than both together. The tests of such a pattern look for the
/// last segment behind the first and abort where they do not find it.
pub open spec fn overlapped(p: PatternView, name: Seq<char>) -> bool {
    &&& p.slots.len() == 1
    &&& occurs_at(name, p.segments[0], 0)
    &&& text_ends_with(name, p.segments[p.holes()])
    &&& name.len() < p.segments[0].len() + p.segments[p.holes()].len()
}

/// The value of the conjunction of `tests`, evaluated from the left: the
/// first test that fails makes it false, and one that aborts leaves it
/// without value.
pub open spec fn predicate_value(
    p: PatternView,
    tests: Seq<Test>,
    name: Seq<char>,
    lists: ListsView,
) -> Option<bool>
    decreases tests.len(),
{
    if tests.len() == 0 {
        Some(true)
    } else {
        match test_value(p, tests[0], name, lists) {
            Some(true) => predicate_value(p, tests.drop_first(), name, lists),
            other => other,
        }
    }
}

} // verus!
