//! The classifier reads back what spells a shape.

use crate::classify::{
    around_keyword, bound_of, classification, keyword_of, slot_of, slots_of, split_from, two_dots,
};
use crate::laws::classifier::{
    brace_free, lemma_braced_ends, lemma_seek_is, lemma_split_finds, well_split,
};
use crate::spell::{bodies_text, body_text, bound_text, braced, pattern_text, with_keyword};
use crate::model::{Keyword, PatternFault, PatternView, RangeSlot};
use crate::number::{
    decimal, is_digit, lemma_decimal_denotes, lemma_numeral_reads_back, numeral,
};
use crate::scan::{all_run_starts, is_run_start, lemma_no_start_between, run_end, run_starts};
use crate::text::{
    count_of, find_from, is_brace, is_upper, lemma_find_from, occurs_at, seek, CharClass,
};
use vstd::prelude::*;

verus! {

/// No character of `t` is an upper-case letter.
pub open spec fn upper_free(t: Seq<char>) -> bool {
    forall|i: int| 0 <= i < t.len() ==> !is_upper(#[trigger] t[i])
}

/// Every character of `t` is an upper-case letter.
pub open spec fn all_upper(t: Seq<char>) -> bool {
    forall|i: int| 0 <= i < t.len() ==> is_upper(#[trigger] t[i])
}

proof fn lemma_count_adds(a: Seq<char>, b: Seq<char>, c: char)
    ensures
        count_of(a + b, c) == count_of(a, c) + count_of(b, c),
    decreases b.len(),
{
    if b.len() == 0 {
        assert(a + b =~= a);
    } else {
        lemma_count_adds(a, b.drop_last(), c);
        assert((a + b).drop_last() =~= a + b.drop_last());
    }
}

proof fn lemma_count_without(t: Seq<char>, c: char)
    requires
        forall|i: int| 0 <= i < t.len() ==> t[i] != c,
    ensures
        count_of(t, c) == 0,
    decreases t.len(),
{
    if t.len() > 0 {
        lemma_count_without(t.drop_last(), c);
    }
}

proof fn lemma_no_runs(s: Seq<char>)
    requires
        upper_free(s),
    ensures
        all_run_starts(s) == Seq::<int>::empty(),
{
    lemma_no_start_between(s, 0, s.len() as int);
}

proof fn lemma_single_word_run(x: Seq<char>, w: Seq<char>, y: Seq<char>)
    requires
        upper_free(x),
        upper_free(y),
        all_upper(w),
        w.len() > 0,
    ensures
        all_run_starts(x + w + y) == seq![x.len() as int],
        run_end(x + w + y, x.len() as int) == x.len() + w.len(),
        seek(x + w + y, 0, CharClass::Upper) == x.len(),
{
    let s = x + w + y;
    let a = x.len() as int;
    let b = a + w.len();
    assert forall|k: int| 0 <= k < a implies !is_upper(#[trigger] s[k]) by {
        assert(s[k] == x[k]);
    }
    assert forall|k: int| a <= k < b implies is_upper(#[trigger] s[k]) by {
        assert(s[k] == w[k - a]);
    }
    assert forall|k: int| b <= k < s.len() implies !is_upper(#[trigger] s[k]) by {
        assert(s[k] == y[k - b]);
    }
    lemma_no_start_between(s, 0, a);
    assert(is_run_start(s, a));
    assert(run_starts(s, a + 1) == run_starts(s, a).push(a));
    lemma_no_start_between(s, a + 1, s.len() as int);
    assert(run_starts(s, a) =~= Seq::<int>::empty());
    assert(all_run_starts(s) =~= seq![a]);
    lemma_seek_is(s, a, CharClass::NotUpper, b);
    lemma_seek_is(s, 0, CharClass::Upper, a);
}

/// A text of digits and minus signs.
pub open spec fn sign_or_digits(t: Seq<char>) -> bool {
    forall|i: int| 0 <= i < t.len() ==> is_digit(#[trigger] t[i]) || t[i] == '-'
}

proof fn lemma_bound_text(bound: Option<i64>)
    ensures
        sign_or_digits(bound_text(bound)),
        bound_of(bound_text(bound)) == Some(bound),
{
    match bound {
        Some(v) => {
            lemma_numeral_reads_back(v);
            let t = numeral(v as int);
            if v < 0 {
                let digits = decimal((-v) as nat);
                lemma_decimal_denotes((-v) as nat);
                assert forall|i: int| 0 <= i < t.len() implies is_digit(#[trigger] t[i]) || t[i]
                    == '-' by {
                    if i > 0 {
                        assert(t[i] == digits[i - 1]);
                    }
                }
            } else {
                lemma_decimal_denotes(v as nat);
            }
        },
        None => {},
    }
}

/// The body that states a range denotes that range, and holds neither a
/// brace nor an upper-case letter.
pub proof fn lemma_body_reads_back(slot: RangeSlot)
    ensures
        slot_of(body_text(slot)) == Some(slot),
        brace_free(body_text(slot)),
        upper_free(body_text(slot)),
{
    let low = bound_text(slot.lower);
    let high = bound_text(slot.upper);
    let body = body_text(slot);
    let at = low.len() as int;
    lemma_bound_text(slot.lower);
    lemma_bound_text(slot.upper);
    assert forall|i: int| 0 <= i < body.len() implies !is_brace(#[trigger] body[i]) && !is_upper(
        body[i],
    ) by {
        if i < at {
            assert(body[i] == low[i]);
        } else if i >= at + 2 {
            assert(body[i] == high[i - at - 2]);
        }
    }
    assert(body.subrange(at, at + 2) =~= two_dots());
    assert(occurs_at(body, two_dots(), at));
    lemma_find_from(body, two_dots(), 0);
    let found = find_from(body, two_dots(), 0)->0;
    if found < at {
        assert(body.subrange(found, found + 2)[0] == body[found]);
        assert(body[found] == low[found]);
    }
    assert(found == at);
    assert(body.subrange(0, at) =~= low);
    assert(body.subrange(at + 2, body.len() as int) =~= high);
}

proof fn lemma_bodies_read_back(slots: Seq<RangeSlot>)
    ensures
        slots_of(bodies_text(slots)) == Some(slots),
        forall|i: int|
            0 <= i < slots.len() ==> brace_free(#[trigger] bodies_text(slots)[i]) && upper_free(
                bodies_text(slots)[i],
            ),
{
    let bodies = bodies_text(slots);
    assert forall|i: int| 0 <= i < bodies.len() implies slot_of(#[trigger] bodies[i]) == Some(
        slots[i],
    ) && brace_free(bodies[i]) && upper_free(bodies[i]) by {
        lemma_body_reads_back(slots[i]);
    }
    assert(slots_of(bodies)->0 =~= slots);
}

proof fn lemma_braced_counts(segments: Seq<Seq<char>>, bodies: Seq<Seq<char>>)
    requires
        well_split(segments, bodies),
    ensures
        count_of(braced(segments, bodies), '{') == bodies.len(),
        count_of(braced(segments, bodies), '}') == bodies.len(),
    decreases bodies.len(),
{
    assert(brace_free(segments[0]));
    lemma_count_without(segments[0], '{');
    lemma_count_without(segments[0], '}');
    if bodies.len() > 0 {
        let rest_segments = segments.drop_first();
        let rest_bodies = bodies.drop_first();
        assert(well_split(rest_segments, rest_bodies)) by {
            assert forall|i: int| 0 <= i < rest_segments.len() implies brace_free(
                #[trigger] rest_segments[i],
            ) by {
                assert(rest_segments[i] == segments[i + 1]);
            }
            assert forall|i: int| 0 <= i < rest_bodies.len() implies brace_free(
                #[trigger] rest_bodies[i],
            ) by {
                assert(rest_bodies[i] == bodies[i + 1]);
            }
        }
        lemma_braced_counts(rest_segments, rest_bodies);
        let rest = braced(rest_segments, rest_bodies);
        let open = seq!['{'];
        let close = seq!['}'];
        assert(brace_free(bodies[0]));
        lemma_count_without(bodies[0], '{');
        lemma_count_without(bodies[0], '}');
        reveal_with_fuel(count_of, 2);
        assert(open.drop_last() =~= Seq::<char>::empty());
        assert(close.drop_last() =~= Seq::<char>::empty());
        lemma_count_adds(segments[0], open, '{');
        lemma_count_adds(segments[0] + open, bodies[0], '{');
        lemma_count_adds(segments[0] + open + bodies[0], close, '{');
        lemma_count_adds(segments[0] + open + bodies[0] + close, rest, '{');
        lemma_count_adds(segments[0], open, '}');
        lemma_count_adds(segments[0] + open, bodies[0], '}');
        lemma_count_adds(segments[0] + open + bodies[0], close, '}');
        lemma_count_adds(segments[0] + open + bodies[0] + close, rest, '}');
    }
}

proof fn lemma_braced_front_upper_free(segments: Seq<Seq<char>>, bodies: Seq<Seq<char>>)
    requires
        segments.len() == bodies.len() + 1,
        forall|i: int| 0 <= i < bodies.len() ==> upper_free(#[trigger] bodies[i]),
        forall|i: int| 0 <= i < segments.len() - 1 ==> upper_free(#[trigger] segments[i]),
    ensures
        braced(segments, bodies).len() >= segments.last().len(),
        forall|i: int|
            0 <= i < braced(segments, bodies).len() - segments.last().len() ==> !is_upper(
                #[trigger] braced(segments, bodies)[i],
            ),
    decreases bodies.len(),
{
    if bodies.len() > 0 {
        let rest_segments = segments.drop_first();
        let rest_bodies = bodies.drop_first();
        assert forall|i: int| 0 <= i < rest_segments.len() - 1 implies upper_free(
            #[trigger] rest_segments[i],
        ) by {
            assert(rest_segments[i] == segments[i + 1]);
        }
        assert forall|i: int| 0 <= i < rest_bodies.len() implies upper_free(
            #[trigger] rest_bodies[i],
        ) by {
            assert(rest_bodies[i] == bodies[i + 1]);
        }
        lemma_braced_front_upper_free(rest_segments, rest_bodies);
        let rest = braced(rest_segments, rest_bodies);
        let front = segments[0] + seq!['{'] + bodies[0] + seq!['}'];
        let whole = braced(segments, bodies);
        let last = segments.last();
        assert(rest_segments.last() == last);
        assert(whole == front + rest);
        assert(upper_free(segments[0]));
        assert(upper_free(bodies[0]));
        assert forall|i: int| 0 <= i < whole.len() - last.len() implies !is_upper(
            #[trigger] whole[i],
        ) by {
            if i < front.len() {
                assert(whole[i] == front[i]);
                let a = segments[0].len() as int;
                let b = bodies[0].len() as int;
                if i < a {
                    assert(front[i] == segments[0][i]);
                } else if i == a {
                } else if i < a + 1 + b {
                    assert(front[i] == bodies[0][i - a - 1]);
                } else {
                }
            } else {
                assert(whole[i] == rest[i - front.len()]);
            }
        }
    }
}

proof fn lemma_keyword_word(keyword: Keyword)
    requires
        keyword.captures(),
    ensures
        all_upper(keyword.word()),
        brace_free(keyword.word()),
        keyword.word().len() >= 4,
        keyword.word()[0] != 'B',
        keyword.word()[0] != 'I',
        keyword is Rega <==> keyword.word()[0] == 'R',
        keyword is Dataset <==> keyword.word()[0] == 'D',
        keyword is Name <==> keyword.word()[0] == 'N',
{
}

/// Text without braces and without upper-case letters.
pub open spec fn plain_text(t: Seq<char>) -> bool {
    brace_free(t) && upper_free(t)
}

/// A well-formed shape whose keyword, if it has one, captures, and whose
/// literal segments are plain text.
pub open spec fn canonical(p: PatternView) -> bool {
    &&& p.wf()
    &&& !(p.keyword is Bc)
    &&& !(p.keyword is Info)
    &&& forall|i: int| 0 <= i < p.segments.len() ==> plain_text(#[trigger] p.segments[i])
}

proof fn lemma_spelling_is_well_split(p: PatternView)
    requires
        canonical(p),
    ensures
        well_split(with_keyword(p), bodies_text(p.slots)),
        forall|i: int|
            0 <= i < bodies_text(p.slots).len() ==> upper_free(#[trigger] bodies_text(p.slots)[i]),
        forall|i: int|
            0 <= i < with_keyword(p).len() - 1 ==> upper_free(#[trigger] with_keyword(p)[i]),
        !p.keyword.captures() ==> upper_free(with_keyword(p).last()),
        p.keyword.captures() ==> with_keyword(p).last() == p.segments[p.segments.len() - 2]
            + p.keyword.word() + p.segments[p.segments.len() - 1],
        slots_of(bodies_text(p.slots)) == Some(p.slots),
{
    let segments = with_keyword(p);
    let n = p.segments.len() as int;
    lemma_bodies_read_back(p.slots);
    if p.keyword.captures() {
        lemma_keyword_word(p.keyword);
        let before = p.segments[n - 2];
        let word = p.keyword.word();
        let after = p.segments[n - 1];
        let tail = before + word + after;
        assert(plain_text(before) && plain_text(after));
        assert(segments.last() == tail);
        assert forall|i: int| 0 <= i < tail.len() implies !is_brace(#[trigger] tail[i]) by {
            if i < before.len() {
                assert(tail[i] == before[i]);
            } else if i < before.len() + word.len() {
                assert(tail[i] == word[i - before.len()]);
            } else {
                assert(tail[i] == after[i - before.len() - word.len()]);
            }
        }
        assert forall|i: int| 0 <= i < segments.len() implies brace_free(
            #[trigger] segments[i],
        ) by {
            if i < n - 2 {
                assert(segments[i] == p.segments[i]);
                assert(plain_text(p.segments[i]));
            }
        }
        assert forall|i: int| 0 <= i < segments.len() - 1 implies upper_free(
            #[trigger] segments[i],
        ) by {
            assert(segments[i] == p.segments[i]);
            assert(plain_text(p.segments[i]));
        }
    } else {
        assert forall|i: int| 0 <= i < segments.len() implies brace_free(#[trigger] segments[i])
            && upper_free(segments[i]) by {
            assert(plain_text(p.segments[i]));
        }
    }
}

proof fn lemma_spelling_without_keyword(p: PatternView)
    requires
        canonical(p),
        !p.keyword.captures(),
    ensures
        all_run_starts(pattern_text(p)).len() == 0,
        keyword_of(pattern_text(p)) == Keyword::Plain,
{
    let segments = with_keyword(p);
    let bodies = bodies_text(p.slots);
    let s = pattern_text(p);
    lemma_spelling_is_well_split(p);
    lemma_braced_front_upper_free(segments, bodies);
    lemma_braced_ends(segments, bodies);
    let tail = segments.last();
    let start = s.len() - tail.len();
    assert forall|i: int| 0 <= i < s.len() implies !is_upper(#[trigger] s[i]) by {
        if i >= start {
            assert(s[i] == s.subrange(start, s.len() as int)[i - start]);
        }
    }
    lemma_no_runs(s);
    if s == Keyword::Bc.word() || s == Keyword::Info.word() {
        assert(is_upper(s[0]));
    }
}

proof fn lemma_spelling_with_keyword(p: PatternView)
    requires
        canonical(p),
        p.keyword.captures(),
    ensures
        all_run_starts(pattern_text(p)).len() == 1,
        keyword_of(pattern_text(p)) == p.keyword,
        seek(with_keyword(p).last(), 0, CharClass::Upper) < with_keyword(p).last().len(),
        around_keyword(with_keyword(p)) == p.segments,
{
    let segments = with_keyword(p);
    let bodies = bodies_text(p.slots);
    let s = pattern_text(p);
    let n = p.segments.len() as int;
    lemma_spelling_is_well_split(p);
    lemma_braced_front_upper_free(segments, bodies);
    lemma_braced_ends(segments, bodies);
    lemma_keyword_word(p.keyword);
    let tail = segments.last();
    let start = s.len() - tail.len();
    let before = p.segments[n - 2];
    let word = p.keyword.word();
    let after = p.segments[n - 1];
    assert(plain_text(before) && plain_text(after));
    let x = s.subrange(0, start) + before;
    assert forall|i: int| 0 <= i < x.len() implies !is_upper(#[trigger] x[i]) by {
        if i < start {
            assert(x[i] == s[i]);
        } else {
            assert(x[i] == before[i - start]);
        }
    }
    assert(s =~= x + word + after) by {
        assert(s =~= s.subrange(0, start) + s.subrange(start, s.len() as int));
    }
    lemma_single_word_run(x, word, after);
    lemma_single_word_run(before, word, after);
    let g = x.len() as int;
    assert(s.subrange(g, g + word.len()) =~= word);
    lemma_keyword_named(s, g, p.keyword);
    assert(tail.subrange(0, before.len() as int) =~= before);
    assert(tail.subrange((before.len() + word.len()) as int, tail.len() as int) =~= after);
    assert(segments.drop_last() =~= p.segments.take(n - 2));
    assert(around_keyword(segments) =~= p.segments);
}

proof fn lemma_keyword_named(s: Seq<char>, g: int, keyword: Keyword)
    requires
        keyword.captures(),
        all_run_starts(s) == seq![g],
        0 <= g,
        g + keyword.word().len() <= s.len(),
        run_end(s, g) == g + keyword.word().len(),
        s.subrange(g, g + keyword.word().len()) == keyword.word(),
    ensures
        keyword_of(s) == keyword,
{
    lemma_keyword_word(keyword);
    let word = keyword.word();
    assert(s[g] == s.subrange(g, g + word.len())[0]);
    if s == Keyword::Info.word() {
        assert(g == 0);
    }
    assert(word[0] == s.subrange(all_run_starts(s)[0], run_end(s, all_run_starts(s)[0]))[0]);
}

/// Every shape with a capturing keyword or none, and with plain literal
/// segments, is what the classifier makes of the pattern that spells it.
pub proof fn lemma_classifier_reads_back(p: PatternView)
    requires
        canonical(p),
    ensures
        classification(pattern_text(p)) == Ok::<PatternView, PatternFault>(p),
{
    let segments = with_keyword(p);
    let bodies = bodies_text(p.slots);
    let s = pattern_text(p);
    lemma_spelling_is_well_split(p);
    assert(s.subrange(0, s.len() as int) =~= s);
    lemma_split_finds(s, 0, segments, bodies);
    lemma_braced_counts(segments, bodies);
    if p.keyword.captures() {
        lemma_spelling_with_keyword(p);
    } else {
        lemma_spelling_without_keyword(p);
    }
    assert(split_from(s, 0) == Some((segments, bodies)));
    assert(keyword_of(s) == p.keyword);
    assert(bodies.len() == p.slots.len());
}

/// A shape without keyword whose literal segments hold no brace is what
/// the classifier makes of the pattern that spells it, unless that pattern
/// has more than one upper-case run or spells a keyword.
pub proof fn lemma_plain_spelling_reads_back(p: PatternView)
    requires
        p.wf(),
        p.keyword is Plain,
        forall|i: int| 0 <= i < p.segments.len() ==> brace_free(#[trigger] p.segments[i]),
        all_run_starts(pattern_text(p)).len() <= 1,
        keyword_of(pattern_text(p)) is Plain,
    ensures
        classification(pattern_text(p)) == Ok::<PatternView, PatternFault>(p),
{
    let bodies = bodies_text(p.slots);
    let s = pattern_text(p);
    lemma_bodies_read_back(p.slots);
    assert(well_split(p.segments, bodies));
    assert(s.subrange(0, s.len() as int) =~= s);
    lemma_split_finds(s, 0, p.segments, bodies);
    lemma_braced_counts(p.segments, bodies);
    assert(split_from(s, 0) == Some((p.segments, bodies)));
}

/// The patterns `BC` and `INFO` are accepted whole, with their keyword and
/// without a range.
pub proof fn lemma_whole_pattern_keywords(keyword: Keyword)
    requires
        keyword is Bc || keyword is Info,
    ensures
        classification(keyword.word()) == Ok::<PatternView, PatternFault>(
            PatternView { segments: seq![keyword.word()], keyword, slots: Seq::empty() },
        ),
{
    let s = keyword.word();
    let none = Seq::<char>::empty();
    assert(all_upper(s));
    assert(s =~= none + s + none);
    lemma_single_word_run(none, s, none);
    assert forall|i: int| 0 <= i < s.len() implies !is_brace(#[trigger] s[i]) by {}
    lemma_count_without(s, '{');
    lemma_count_without(s, '}');
    lemma_seek_is(s, 0, CharClass::Brace, s.len() as int);
    assert(s.subrange(0, s.len() as int) =~= s);
    let bodies = Seq::<Seq<char>>::empty();
    assert(split_from(s, 0) == Some((seq![s], bodies)));
    assert(slots_of(bodies)->0 =~= Seq::<RangeSlot>::empty());
}

} // verus!
