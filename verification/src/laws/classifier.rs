//! Laws of the pattern classifier.

use crate::classify::{
    around_keyword, classification, keyword_of, slot_of, slots_of, split_from,
};
use crate::model::{Keyword, RangeSlot};
use crate::scan::{all_run_starts, is_run_start, lemma_run_starts, run_end};
use crate::spell::{braced, with_keyword};
use crate::text::{count_of, is_brace, is_upper, lemma_seek, seek, CharClass};
use vstd::prelude::*;

verus! {

/// A text that counts no `c` holds no `c`.
pub proof fn lemma_count_zero(s: Seq<char>, c: char)
    requires
        count_of(s, c) == 0,
    ensures
        forall|i: int| 0 <= i < s.len() ==> s[i] != c,
    decreases s.len(),
{
    if s.len() > 0 {
        lemma_count_zero(s.drop_last(), c);
        assert forall|i: int| 0 <= i < s.len() implies s[i] != c by {
            if i < s.len() - 1 {
                assert(s.drop_last()[i] == s[i]);
            }
        }
    }
}

/// A pattern with exactly one run of upper-case letters and no brace is
/// accepted, has no range, and has the one keyword that its run or its
/// whole text spells: `Rega`, `Dataset`, `Name`, `Bc`, `Info`, or `Plain`
/// where it spells none. Its literal text is the whole pattern, or, where
/// the keyword captures, what precedes the run and what follows it.
pub proof fn lemma_one_run_without_braces(s: Seq<char>)
    requires
        all_run_starts(s).len() == 1,
        count_of(s, '{') == 0,
        count_of(s, '}') == 0,
    ensures
        classification(s) is Ok,
        classification(s)->Ok_0.slots.len() == 0,
        classification(s)->Ok_0.keyword == keyword_of(s),
        classification(s)->Ok_0.wf(),
        classification(s)->Ok_0.segments == if keyword_of(s).captures() {
            seq![
                s.subrange(0, all_run_starts(s)[0]),
                s.subrange(run_end(s, all_run_starts(s)[0]), s.len() as int),
            ]
        } else {
            seq![s]
        },
{
    lemma_count_zero(s, '{');
    lemma_count_zero(s, '}');
    lemma_seek(s, 0, CharClass::Brace);
    assert(seek(s, 0, CharClass::Brace) == s.len());
    let whole = s.subrange(0, s.len() as int);
    assert(whole =~= s);
    assert(split_from(s, 0) == Some((seq![whole], Seq::<Seq<char>>::empty())));
    let none = Seq::<Seq<char>>::empty();
    assert(slots_of(none) == Some(Seq::new(0nat, |i: int| slot_of(none[i])->0)));
    assert(slots_of(none)->0 =~= Seq::<RangeSlot>::empty());
    lemma_run_starts(s, s.len() as int);
    let a = all_run_starts(s)[0];
    assert(is_run_start(s, a));
    lemma_seek(s, 0, CharClass::Upper);
    let first = seek(s, 0, CharClass::Upper);
    assert(first < s.len()) by {
        if first >= s.len() {
            assert(!CharClass::Upper.holds(s[a]));
        }
    }
    assert(is_run_start(s, first)) by {
        if first > 0 {
            assert(!CharClass::Upper.holds(s[first - 1]));
        }
    }
    assert(all_run_starts(s).contains(first));
    assert(first == a);
    assert(seq![whole].last() == s);
    if keyword_of(s).captures() {
        assert(seq![whole].drop_last() =~= Seq::<Seq<char>>::empty());
        assert(around_keyword(seq![whole]) =~= seq![
            s.subrange(0, a),
            s.subrange(run_end(s, a), s.len() as int),
        ]);
    }
}

/// No character of `t` is a brace.
pub open spec fn brace_free(t: Seq<char>) -> bool {
    forall|i: int| 0 <= i < t.len() ==> !is_brace(#[trigger] t[i])
}

/// Segments and bodies hold no brace, and there is one segment more than
/// there are bodies.
pub open spec fn well_split(segments: Seq<Seq<char>>, bodies: Seq<Seq<char>>) -> bool {
    &&& segments.len() == bodies.len() + 1
    &&& forall|i: int| 0 <= i < segments.len() ==> brace_free(#[trigger] segments[i])
    &&& forall|i: int| 0 <= i < bodies.len() ==> brace_free(#[trigger] bodies[i])
}

/// The literal segments of the text from `pos` on, where it splits.
pub open spec fn segments_from(s: Seq<char>, pos: int) -> Seq<Seq<char>> {
    match split_from(s, pos) {
        Some((segments, _)) => segments,
        None => Seq::empty(),
    }
}

/// The brace bodies of the text from `pos` on, where it splits.
pub open spec fn bodies_from(s: Seq<char>, pos: int) -> Seq<Seq<char>> {
    match split_from(s, pos) {
        Some((_, bodies)) => bodies,
        None => Seq::empty(),
    }
}

/// The first position of a class is the one that nothing of the class
/// precedes.
pub proof fn lemma_seek_is(s: Seq<char>, from: int, class: CharClass, at: int)
    requires
        0 <= from <= at <= s.len(),
        forall|k: int| from <= k < at ==> !class.holds(#[trigger] s[k]),
        at < s.len() ==> class.holds(s[at]),
    ensures
        seek(s, from, class) == at,
{
    lemma_seek(s, from, class);
    let r = seek(s, from, class);
    if r < at {
        assert(!class.holds(s[r]));
    }
}

/// Where a text splits at its braces, its parts hold no brace and spell
/// the text.
pub proof fn lemma_split_spells(s: Seq<char>, pos: int)
    requires
        0 <= pos <= s.len(),
        split_from(s, pos) is Some,
    ensures
        well_split(segments_from(s, pos), bodies_from(s, pos)),
        braced(segments_from(s, pos), bodies_from(s, pos)) == s.subrange(pos, s.len() as int),
    decreases s.len() - pos,
{
    lemma_seek(s, pos, CharClass::Brace);
    let open = seek(s, pos, CharClass::Brace);
    let (segments, bodies) = split_from(s, pos)->0;
    if open >= s.len() {
        assert(segments[0] == s.subrange(pos, s.len() as int));
        assert(brace_free(segments[0]));
    } else {
        lemma_seek(s, open + 1, CharClass::Brace);
        let close = seek(s, open + 1, CharClass::Brace);
        lemma_split_spells(s, close + 1);
        let (more_segments, more_bodies) = split_from(s, close + 1)->0;
        let segment = s.subrange(pos, open);
        let body = s.subrange(open + 1, close);
        assert(segments == seq![segment] + more_segments);
        assert(bodies == seq![body] + more_bodies);
        assert(segments.drop_first() =~= more_segments);
        assert(bodies.drop_first() =~= more_bodies);
        assert(brace_free(segment));
        assert(brace_free(body));
        assert forall|i: int| 0 <= i < segments.len() implies brace_free(
            #[trigger] segments[i],
        ) by {
            if i > 0 {
                assert(segments[i] == more_segments[i - 1]);
            }
        }
        assert forall|i: int| 0 <= i < bodies.len() implies brace_free(#[trigger] bodies[i]) by {
            if i > 0 {
                assert(bodies[i] == more_bodies[i - 1]);
            }
        }
        assert(segment + seq!['{'] + body + seq!['}'] + s.subrange(close + 1, s.len() as int)
            =~= s.subrange(pos, s.len() as int));
    }
}

/// A text that brace-free segments spell around brace-free bodies splits
/// into just these: the split is the only such way to write the text, and
/// it fails exactly where there is none.
pub proof fn lemma_split_finds(
    s: Seq<char>,
    pos: int,
    segments: Seq<Seq<char>>,
    bodies: Seq<Seq<char>>,
)
    requires
        0 <= pos <= s.len(),
        well_split(segments, bodies),
        braced(segments, bodies) == s.subrange(pos, s.len() as int),
    ensures
        split_from(s, pos) == Some((segments, bodies)),
    decreases bodies.len(),
{
    let rest = s.subrange(pos, s.len() as int);
    if bodies.len() == 0 {
        assert(brace_free(segments[0]));
        assert forall|k: int| pos <= k < s.len() implies !CharClass::Brace.holds(
            #[trigger] s[k],
        ) by {
            assert(s[k] == rest[k - pos]);
        }
        lemma_seek_is(s, pos, CharClass::Brace, s.len() as int);
        assert(segments =~= seq![rest]);
        assert(bodies =~= Seq::<Seq<char>>::empty());
    } else {
        let segment = segments[0];
        let body = bodies[0];
        let tail = braced(segments.drop_first(), bodies.drop_first());
        let open = pos + segment.len();
        let close = open + 1 + body.len();
        assert(rest == segment + seq!['{'] + body + seq!['}'] + tail);
        assert(rest.len() == segment.len() + 1 + body.len() + 1 + tail.len());
        assert(brace_free(segment));
        assert(brace_free(body));
        assert forall|k: int| pos <= k < open implies !CharClass::Brace.holds(#[trigger] s[k]) by {
            assert(s[k] == rest[k - pos]);
            assert(rest[k - pos] == segment[k - pos]);
        }
        assert(s[open] == rest[open - pos]);
        assert(s[open] == '{');
        lemma_seek_is(s, pos, CharClass::Brace, open);
        assert forall|k: int| open + 1 <= k < close implies !CharClass::Brace.holds(
            #[trigger] s[k],
        ) by {
            assert(s[k] == rest[k - pos]);
            assert(rest[k - pos] == body[k - open - 1]);
        }
        assert(s[close] == rest[close - pos]);
        assert(s[close] == '}');
        lemma_seek_is(s, open + 1, CharClass::Brace, close);
        assert(s.subrange(close + 1, s.len() as int) =~= tail) by {
            assert(s.subrange(close + 1, s.len() as int).len() == tail.len());
            assert forall|i: int| 0 <= i < tail.len() implies s.subrange(
                close + 1,
                s.len() as int,
            )[i] == tail[i] by {
                assert(s[close + 1 + i] == rest[close + 1 + i - pos]);
            }
        }
        assert(well_split(segments.drop_first(), bodies.drop_first())) by {
            assert forall|i: int| 0 <= i < segments.drop_first().len() implies brace_free(
                #[trigger] segments.drop_first()[i],
            ) by {
                assert(segments.drop_first()[i] == segments[i + 1]);
            }
            assert forall|i: int| 0 <= i < bodies.drop_first().len() implies brace_free(
                #[trigger] bodies.drop_first()[i],
            ) by {
                assert(bodies.drop_first()[i] == bodies[i + 1]);
            }
        }
        lemma_split_finds(s, close + 1, segments.drop_first(), bodies.drop_first());
        assert(s.subrange(pos, open) =~= segment) by {
            assert forall|i: int| 0 <= i < segment.len() implies s.subrange(pos, open)[i]
                == segment[i] by {
                assert(s[pos + i] == rest[i]);
            }
        }
        assert(s.subrange(open + 1, close) =~= body) by {
            assert forall|i: int| 0 <= i < body.len() implies s.subrange(open + 1, close)[i]
                == body[i] by {
                assert(s[open + 1 + i] == rest[open + 1 + i - pos]);
            }
        }
        assert(seq![segment] + segments.drop_first() =~= segments);
        assert(seq![body] + bodies.drop_first() =~= bodies);
    }
}

proof fn lemma_seek_in_suffix(s: Seq<char>, start: int, from: int, class: CharClass)
    requires
        0 <= start <= from <= s.len(),
    ensures
        seek(s.subrange(start, s.len() as int), from - start, class) == seek(s, from, class)
            - start,
    decreases s.len() - from,
{
    let tail = s.subrange(start, s.len() as int);
    if from < s.len() {
        assert(tail[from - start] == s[from]);
        if !class.holds(s[from]) {
            lemma_seek_in_suffix(s, start, from + 1, class);
        }
    }
}

/// What segments spell around bodies ends with the last segment, and a
/// closing brace stands before it where there is a body.
pub proof fn lemma_braced_ends(segments: Seq<Seq<char>>, bodies: Seq<Seq<char>>)
    requires
        segments.len() == bodies.len() + 1,
    ensures
        braced(segments, bodies).len() >= segments.last().len(),
        braced(segments, bodies).subrange(
            braced(segments, bodies).len() - segments.last().len(),
            braced(segments, bodies).len() as int,
        ) == segments.last(),
        bodies.len() > 0 ==> braced(segments, bodies).len() > segments.last().len() && braced(
            segments,
            bodies,
        )[braced(segments, bodies).len() - segments.last().len() - 1] == '}',
    decreases bodies.len(),
{
    let whole = braced(segments, bodies);
    let last = segments.last();
    if bodies.len() == 0 {
        assert(whole.subrange(0, whole.len() as int) =~= whole);
    } else {
        let rest = braced(segments.drop_first(), bodies.drop_first());
        lemma_braced_ends(segments.drop_first(), bodies.drop_first());
        assert(segments.drop_first().last() == last);
        let front = segments[0] + seq!['{'] + bodies[0] + seq!['}'];
        assert(whole == front + rest);
        assert(whole.subrange(whole.len() - last.len(), whole.len() as int) =~= rest.subrange(
            rest.len() - last.len(),
            rest.len() as int,
        ));
        if bodies.len() == 1 {
            assert(rest == last);
            assert(whole[whole.len() - last.len() - 1] == front[front.len() - 1]);
        } else {
            assert(whole[whole.len() - last.len() - 1] == rest[rest.len() - last.len() - 1]);
        }
    }
}

proof fn lemma_keyword_in_tail(s: Seq<char>, segments: Seq<Seq<char>>, bodies: Seq<Seq<char>>)
    requires
        all_run_starts(s).len() == 1,
        well_split(segments, bodies),
        braced(segments, bodies) == s,
        seek(segments.last(), 0, CharClass::Upper) < segments.last().len(),
    ensures
        ({
            let tail = segments.last();
            let from = seek(tail, 0, CharClass::Upper);
            let to = seek(tail, from, CharClass::NotUpper);
            let start = all_run_starts(s)[0];
            &&& 0 <= from <= to <= tail.len()
            &&& tail.subrange(from, to) == s.subrange(start, run_end(s, start))
        }),
{
    let tail = segments.last();
    let start = s.len() - tail.len();
    lemma_braced_ends(segments, bodies);
    assert(tail == s.subrange(start, s.len() as int));
    let from = seek(tail, 0, CharClass::Upper);
    let to = seek(tail, from, CharClass::NotUpper);
    lemma_seek(tail, 0, CharClass::Upper);
    lemma_seek(tail, from, CharClass::NotUpper);
    lemma_seek_in_suffix(s, start, start, CharClass::Upper);
    lemma_seek_in_suffix(s, start, start + from, CharClass::NotUpper);
    lemma_seek(s, start, CharClass::Upper);
    let g = start + from;
    assert(is_upper(s[g])) by {
        assert(tail[from] == s[g]);
    }
    assert(is_run_start(s, g)) by {
        if g > 0 {
            if from > 0 {
                assert(!CharClass::Upper.holds(s[g - 1]));
            } else {
                assert(bodies.len() > 0);
                assert(s[g - 1] == '}');
            }
        }
    }
    lemma_run_starts(s, s.len() as int);
    assert(all_run_starts(s).contains(g));
    assert(all_run_starts(s)[0] == g);
    assert(to == run_end(s, g) - start);
    assert(tail.subrange(from, to) =~= s.subrange(g, run_end(s, g)));
}

proof fn lemma_whole_pattern_keyword_has_no_brace(s: Seq<char>)
    requires
        s == Keyword::Bc.word() || s == Keyword::Info.word(),
    ensures
        seek(s, 0, CharClass::Brace) == s.len(),
{
    reveal_with_fuel(seek, 5);
}

/// A pattern that the classifier accepts is spelled by its shape: its
/// literal segments, with the keyword's word put back, stand around the
/// brace bodies of the pattern, and the bodies denote the shape's ranges.
/// The shape is well formed and its keyword is the pattern's.
pub proof fn lemma_classification_spells(s: Seq<char>)
    requires
        classification(s) is Ok,
    ensures
        classification(s)->Ok_0.wf(),
        classification(s)->Ok_0.keyword == keyword_of(s),
        slots_of(bodies_from(s, 0)) == Some(classification(s)->Ok_0.slots),
        braced(with_keyword(classification(s)->Ok_0), bodies_from(s, 0)) == s,
{
    let p = classification(s)->Ok_0;
    let segments = segments_from(s, 0);
    let bodies = bodies_from(s, 0);
    lemma_split_spells(s, 0);
    assert(s.subrange(0, s.len() as int) =~= s);
    assert(p.slots.len() == bodies.len());
    if p.keyword is Bc || p.keyword is Info {
        lemma_whole_pattern_keyword_has_no_brace(s);
        assert(bodies.len() == 0);
    }
    if p.keyword.captures() {
        let tail = segments.last();
        let from = seek(tail, 0, CharClass::Upper);
        let to = seek(tail, from, CharClass::NotUpper);
        lemma_keyword_in_tail(s, segments, bodies);
        let n = p.segments.len() as int;
        assert(p.segments == around_keyword(segments));
        assert(tail.subrange(from, to) == p.keyword.word());
        assert(p.segments.take(n - 2) =~= segments.drop_last());
        assert(tail.subrange(0, from) + p.keyword.word() + tail.subrange(to, tail.len() as int)
            =~= tail);
        assert(with_keyword(p) =~= segments);
    }
}

} // verus!
