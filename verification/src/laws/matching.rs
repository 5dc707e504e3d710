//! Laws of the reference interpreter: which names a pattern matches.

use crate::matcher::{
    decompose, interiors_from, outcome, regex_compiles, slot_values, slots_admit, CaptureView,
    ListsView,
};
use crate::model::PatternView;
use crate::number::{is_digit, is_numeral, parse_i64, unsigned_part};
use crate::text::{find_from, lemma_find_from, occurs_at};
use vstd::prelude::*;

verus! {

/// The name that literal segments and what stands between them spell:
/// the first segment, then each interior followed by the next segment.
pub open spec fn interleaved(segments: Seq<Seq<char>>, interiors: Seq<Seq<char>>, n: int) -> Seq<
    char,
>
    decreases n,
{
    if n <= 0 {
        segments[0]
    } else {
        interleaved(segments, interiors, n - 1) + interiors[n - 1] + segments[n]
    }
}

proof fn lemma_interleaved_prefix(
    segments: Seq<Seq<char>>,
    a: Seq<Seq<char>>,
    b: Seq<Seq<char>>,
    n: int,
)
    requires
        0 <= n <= a.len(),
        n <= b.len(),
        forall|i: int| 0 <= i < n ==> a[i] == b[i],
    ensures
        interleaved(segments, a, n) == interleaved(segments, b, n),
    decreases n,
{
    if n > 0 {
        lemma_interleaved_prefix(segments, a, b, n - 1);
    }
}

proof fn lemma_interiors_spell(
    segments: Seq<Seq<char>>,
    name: Seq<char>,
    k: int,
    pos: int,
    before: Seq<Seq<char>>,
)
    requires
        0 <= k,
        k + 2 <= segments.len(),
        0 <= pos <= name.len(),
        before.len() == k,
        interleaved(segments, before, k) == name.subrange(0, pos),
        interiors_from(segments, name, k, pos) is Some,
    ensures
        (before + interiors_from(segments, name, k, pos)->0).len() + 1 == segments.len(),
        interleaved(
            segments,
            before + interiors_from(segments, name, k, pos)->0,
            segments.len() - 1,
        ) == name,
    decreases segments.len() - k,
{
    let rest = interiors_from(segments, name, k, pos)->0;
    if k + 2 == segments.len() {
        let end = name.len() - segments[k + 1].len();
        let piece = name.subrange(pos, end);
        let all = before + rest;
        assert(all =~= before.push(piece));
        lemma_interleaved_prefix(segments, before, all, k);
        assert(name.subrange(0, pos) + piece + segments[k + 1] =~= name);
    } else {
        lemma_find_from(name, segments[k + 1], pos);
        let q = find_from(name, segments[k + 1], pos)->0;
        let piece = name.subrange(pos, q);
        let next = before.push(piece);
        lemma_interleaved_prefix(segments, before, next, k);
        assert(name.subrange(0, pos) + piece + segments[k + 1] =~= name.subrange(
            0,
            q + segments[k + 1].len(),
        ));
        lemma_interiors_spell(segments, name, k + 1, q + segments[k + 1].len(), next);
        let tail = interiors_from(segments, name, k + 1, q + segments[k + 1].len())->0;
        assert(before + rest =~= next + tail);
    }
}

/// Where a name can be laid against the literal segments of a pattern,
/// there is one interior for each placeholder, and segments and interiors,
/// taken in turn, spell the name.
pub proof fn lemma_decomposition_spells_name(segments: Seq<Seq<char>>, name: Seq<char>)
    requires
        decompose(segments, name) is Some,
    ensures
        decompose(segments, name)->0.len() + 1 == segments.len(),
        interleaved(segments, decompose(segments, name)->0, segments.len() - 1) == name,
{
    if segments.len() == 1 {
        assert(name.subrange(0, segments[0].len() as int) =~= name);
    } else {
        let none = Seq::<Seq<char>>::empty();
        lemma_interiors_spell(segments, name, 0, segments[0].len() as int, none);
        assert(none + decompose(segments, name)->0 =~= decompose(segments, name)->0);
    }
}

/// With one placeholder, a name lies against the two literal segments
/// exactly where it is the first segment, what stands in the placeholder,
/// and the second segment.
pub proof fn lemma_single_placeholder(segments: Seq<Seq<char>>, name: Seq<char>, x: Seq<char>)
    requires
        segments.len() == 2,
    ensures
        decompose(segments, name) == Some(seq![x]) <==> name == segments[0] + x + segments[1],
{
    let first = segments[0];
    let last = segments[1];
    if name == first + x + last {
        assert(name.subrange(0, first.len() as int) =~= first);
        let end = name.len() - last.len();
        assert(name.subrange(end, end + last.len()) =~= last);
        assert(name.subrange(first.len() as int, end) =~= x);
    }
    if decompose(segments, name) == Some(seq![x]) {
        let end = name.len() - last.len();
        assert(seq![name.subrange(first.len() as int, end)][0] == seq![x][0]);
        assert(first + x + last =~= name);
    }
}

/// A name matches a pattern without placeholders exactly where it is the
/// pattern's text.
pub proof fn lemma_plain_matches_itself(p: PatternView, name: Seq<char>, lists: ListsView)
    requires
        p.wf(),
        p.keyword is Plain,
        p.slots.len() == 0,
    ensures
        outcome(p, name, lists) is Some <==> name == p.segments[0],
{
    if name == p.segments[0] {
        assert(name.subrange(0, name.len() as int) =~= name);
        let found = decompose(p.segments, name)->0;
        assert(slots_admit(p.slots, found));
    }
    if outcome(p, name, lists) is Some {
        assert(name.subrange(0, p.segments[0].len() as int) =~= name);
    }
}

/// A name matches a pattern of one range and no keyword exactly where it
/// is the pattern's first segment, a signed 64-bit integer that the bounds
/// admit, and the pattern's second segment; it then binds that integer.
pub proof fn lemma_one_range_match(p: PatternView, name: Seq<char>, lists: ListsView)
    requires
        p.wf(),
        p.keyword is Plain,
        p.slots.len() == 1,
    ensures
        outcome(p, name, lists) is Some <==> exists|n: Seq<char>|
            #![trigger parse_i64(n)]
            name == p.segments[0] + n + p.segments[1] && parse_i64(n) is Some
                && p.slots[0].admits(parse_i64(n)->0 as int),
        forall|n: Seq<char>|
            #![trigger parse_i64(n)]
            name == p.segments[0] + n + p.segments[1] && parse_i64(n) is Some
                && p.slots[0].admits(parse_i64(n)->0 as int) ==> outcome(p, name, lists)
                == Some(CaptureView { args: seq![parse_i64(n)->0], text: None }),
{
    assert forall|n: Seq<char>|
        #![trigger parse_i64(n)]
        name == p.segments[0] + n + p.segments[1] && parse_i64(n) is Some && p.slots[0].admits(
            parse_i64(n)->0 as int,
        ) implies outcome(p, name, lists) == Some(
        CaptureView { args: seq![parse_i64(n)->0], text: None },
    ) by {
        lemma_single_placeholder(p.segments, name, n);
        let found = decompose(p.segments, name)->0;
        assert(found[0] == n);
        assert(slots_admit(p.slots, found));
        assert(slot_values(p.slots, found) =~= seq![parse_i64(n)->0]);
    }
    if outcome(p, name, lists) is Some {
        let found = decompose(p.segments, name)->0;
        assert(slots_admit(p.slots, found));
        assert(parse_i64(found[0]) is Some);
        assert(found =~= seq![found[0]]);
        lemma_single_placeholder(p.segments, name, found[0]);
    }
}

/// A name matches a pattern of one range followed by a regular expression
/// only if what stands in the range is an integer that the bounds admit,
/// and what stands for the keyword holds no underscore and is a valid
/// regular expression.
pub proof fn lemma_regex_match_needs(p: PatternView, name: Seq<char>, lists: ListsView)
    requires
        p.wf(),
        p.keyword is Rega,
        p.slots.len() == 1,
        outcome(p, name, lists) is Some,
    ensures
        decompose(p.segments, name) is Some,
        parse_i64(decompose(p.segments, name)->0[0]) is Some,
        p.slots[0].admits(parse_i64(decompose(p.segments, name)->0[0])->0 as int),
        !decompose(p.segments, name)->0[1].contains('_'),
        regex_compiles(decompose(p.segments, name)->0[1]),
        outcome(p, name, lists)->0.args == seq![parse_i64(decompose(p.segments, name)->0[0])->0],
        outcome(p, name, lists)->0.text == Some(decompose(p.segments, name)->0[1]),
{
    let found = decompose(p.segments, name)->0;
    assert(slots_admit(p.slots, found));
    assert(parse_i64(found[0]) is Some);
    assert(slot_values(p.slots, found) =~= seq![parse_i64(found[0])->0]);
}

/// A literal segment that cannot begin inside a numeral: it is not empty
/// and begins with neither a digit nor a sign.
pub open spec fn safe_separator(t: Seq<char>) -> bool {
    t.len() > 0 && !is_digit(t[0]) && t[0] != '-' && t[0] != '+'
}

/// A text of digits and signs.
pub open spec fn numeral_like(t: Seq<char>) -> bool {
    forall|i: int| 0 <= i < t.len() ==> is_digit(#[trigger] t[i]) || t[i] == '-' || t[i] == '+'
}

/// What denotes an integer is a text of digits and signs.
pub proof fn lemma_numerals_are_numeral_like(t: Seq<char>)
    requires
        parse_i64(t) is Some,
    ensures
        numeral_like(t),
{
    let digits = unsigned_part(t);
    assert(is_numeral(t));
    assert forall|i: int| 0 <= i < t.len() implies is_digit(#[trigger] t[i]) || t[i] == '-' || t[i]
        == '+' by {
        if digits.len() == t.len() {
            assert(is_digit(digits[i]));
        } else if i > 0 {
            assert(is_digit(digits[i - 1]));
        }
    }
}

proof fn lemma_interleaved_grows(
    segments: Seq<Seq<char>>,
    interiors: Seq<Seq<char>>,
    j: int,
    m: int,
)
    requires
        0 <= j <= m,
    ensures
        interleaved(segments, interiors, j).len() <= interleaved(segments, interiors, m).len(),
        interleaved(segments, interiors, m).subrange(
            0,
            interleaved(segments, interiors, j).len() as int,
        ) == interleaved(segments, interiors, j),
    decreases m - j,
{
    let whole = interleaved(segments, interiors, m);
    if j == m {
        assert(whole.subrange(0, whole.len() as int) =~= whole);
    } else {
        lemma_interleaved_grows(segments, interiors, j, m - 1);
        let shorter = interleaved(segments, interiors, m - 1);
        let part = interleaved(segments, interiors, j);
        assert(whole == shorter + interiors[m - 1] + segments[m]);
        assert(whole.subrange(0, part.len() as int) =~= shorter.subrange(0, part.len() as int));
    }
}

proof fn lemma_interiors_are_found(
    segments: Seq<Seq<char>>,
    interiors: Seq<Seq<char>>,
    name: Seq<char>,
    k: int,
)
    requires
        segments.len() == interiors.len() + 1,
        0 <= k < interiors.len(),
        name == interleaved(segments, interiors, interiors.len() as int),
        forall|i: int|
            0 <= i < interiors.len() - 1 ==> numeral_like(#[trigger] interiors[i])
                && safe_separator(segments[i + 1]),
    ensures
        interiors_from(
            segments,
            name,
            k,
            interleaved(segments, interiors, k).len() as int,
        ) == Some(interiors.subrange(k, interiors.len() as int)),
    decreases interiors.len() - k,
{
    let m = interiors.len() as int;
    let before = interleaved(segments, interiors, k);
    let pos = before.len() as int;
    let next = interleaved(segments, interiors, k + 1);
    lemma_interleaved_grows(segments, interiors, k, m);
    lemma_interleaved_grows(segments, interiors, k + 1, m);
    assert(next == before + interiors[k] + segments[k + 1]);
    let stop = pos + interiors[k].len();
    let here = name.subrange(pos, stop);
    assert(here =~= interiors[k]) by {
        assert(name.subrange(0, next.len() as int) == next);
        assert forall|i: int| 0 <= i < interiors[k].len() implies #[trigger] here[i]
            == interiors[k][i] by {
            assert(name[pos + i] == name.subrange(0, next.len() as int)[pos + i]);
        }
    }
    let separator = segments[k + 1];
    let behind = name.subrange(stop, stop + separator.len());
    assert(behind =~= separator) by {
        assert forall|i: int| 0 <= i < separator.len() implies #[trigger] behind[i]
            == separator[i] by {
            assert(name[stop + i] == name.subrange(0, next.len() as int)[stop + i]);
        }
    }
    if k + 1 == m {
        assert(next == name);
        assert(interiors.subrange(k, m) =~= seq![interiors[k]]);
    } else {
        assert(numeral_like(interiors[k]) && safe_separator(segments[k + 1]));
        lemma_find_from(name, segments[k + 1], pos);
        assert(occurs_at(name, segments[k + 1], stop));
        let found = find_from(name, segments[k + 1], pos)->0;
        if found < stop {
            let seen = name.subrange(found, found + segments[k + 1].len());
            assert(seen[0] == name[found]);
            assert(name[found] == name.subrange(pos, stop)[found - pos]);
        }
        assert(found == stop);
        lemma_interiors_are_found(segments, interiors, name, k + 1);
        assert(seq![interiors[k]] + interiors.subrange(k + 1, m) =~= interiors.subrange(k, m));
    }
}

/// A name that literal segments spell around interiors is laid against
/// the segments just so, where every interior but the last is a text of
/// digits and signs and the segment behind it cannot begin in such a text.
pub proof fn lemma_spelled_name_decomposes(
    segments: Seq<Seq<char>>,
    interiors: Seq<Seq<char>>,
    name: Seq<char>,
)
    requires
        segments.len() == interiors.len() + 1,
        name == interleaved(segments, interiors, interiors.len() as int),
        forall|i: int|
            0 <= i < interiors.len() - 1 ==> numeral_like(#[trigger] interiors[i])
                && safe_separator(segments[i + 1]),
    ensures
        decompose(segments, name) == Some(interiors),
{
    let m = interiors.len() as int;
    lemma_interleaved_grows(segments, interiors, 0, m);
    assert(interleaved(segments, interiors, 0) == segments[0]);
    if m == 0 {
        assert(name.subrange(0, name.len() as int) =~= name);
        assert(interiors =~= Seq::<Seq<char>>::empty());
    } else {
        lemma_interiors_are_found(segments, interiors, name, 0);
        assert(interiors.subrange(0, m) =~= interiors);
    }
}

/// A name matches a pattern of ranges and no keyword where it is spelled
/// by the pattern's literal segments around integers that the ranges
/// admit, provided that every segment between two ranges is a safe
/// separator; it then binds those integers, in order.
pub proof fn lemma_ranges_match(
    p: PatternView,
    numerals: Seq<Seq<char>>,
    name: Seq<char>,
    lists: ListsView,
)
    requires
        p.wf(),
        p.keyword is Plain,
        numerals.len() == p.slots.len(),
        name == interleaved(p.segments, numerals, numerals.len() as int),
        forall|i: int|
            0 <= i < numerals.len() ==> parse_i64(#[trigger] numerals[i]) is Some
                && p.slots[i].admits(parse_i64(numerals[i])->0 as int),
        forall|i: int| 1 <= i < p.slots.len() ==> safe_separator(#[trigger] p.segments[i]),
    ensures
        outcome(p, name, lists) == Some(
            CaptureView { args: slot_values(p.slots, numerals), text: None },
        ),
{
    assert forall|i: int| 0 <= i < numerals.len() - 1 implies numeral_like(#[trigger] numerals[i])
        && safe_separator(p.segments[i + 1]) by {
        lemma_numerals_are_numeral_like(numerals[i]);
        assert(safe_separator(p.segments[i + 1]));
    }
    lemma_spelled_name_decomposes(p.segments, numerals, name);
    assert(slots_admit(p.slots, numerals));
}

} // verus!
