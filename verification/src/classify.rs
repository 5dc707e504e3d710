//! Pattern classifier: from the text of a pattern to its shape.

use crate::model::{Keyword, ParsedPattern, PatternFault, PatternView, RangeSlot};
use crate::number::{parse_i64, read_i64};
use crate::scan::{all_run_starts, run_end, uppercase_runs};
use crate::text::{
    chars_of, count_char, count_of, find_from, find_text, lemma_seek, same_text, seek, seek_class,
    slice_of, string_of, texts, views, CharClass,
};
use vstd::prelude::*;

verus! {

/// What parts the two bounds of a range.
pub open spec fn two_dots() -> Seq<char> {
    seq!['.', '.']
}

/// The keyword of a pattern: `Bc` and `Info` by the whole pattern, `Rega`,
/// `Dataset` and `Name` by the pattern's only upper-case run.
pub open spec fn keyword_of(s: Seq<char>) -> Keyword {
    let starts = all_run_starts(s);
    if s == Keyword::Bc.word() {
        Keyword::Bc
    } else if s == Keyword::Info.word() {
        Keyword::Info
    } else if starts.len() == 1 {
        let word = s.subrange(starts[0], run_end(s, starts[0]));
        if word == Keyword::Rega.word() {
            Keyword::Rega
        } else if word == Keyword::Dataset.word() {
            Keyword::Dataset
        } else if word == Keyword::Name.word() {
            Keyword::Name
        } else {
            Keyword::Plain
        }
    } else {
        Keyword::Plain
    }
}

/// The literal segments and the brace bodies of the text from `pos` on:
/// a segment runs up to the next brace, which must open a body that the
/// brace after it closes.
pub open spec fn split_from(s: Seq<char>, pos: int) -> Option<(Seq<Seq<char>>, Seq<Seq<char>>)>
    decreases s.len() - pos,
{
    if pos < 0 || pos > s.len() {
        None
    } else {
        let open = seek(s, pos, CharClass::Brace);
        if open >= s.len() {
            Some((seq![s.subrange(pos, s.len() as int)], Seq::empty()))
        } else if s[open] != '{' {
            None
        } else {
            let close = seek(s, open + 1, CharClass::Brace);
            if close >= s.len() || s[close] != '}' {
                None
            } else {
                proof {
                    lemma_seek(s, pos, CharClass::Brace);
                    lemma_seek(s, open + 1, CharClass::Brace);
                }
                prepend(s.subrange(pos, open), s.subrange(open + 1, close), split_from(s, close + 1))
            }
        }
    }
}

/// Puts one segment and one body in front of what follows them.
pub open spec fn prepend(
    segment: Seq<char>,
    body: Seq<char>,
    rest: Option<(Seq<Seq<char>>, Seq<Seq<char>>)>,
) -> Option<(Seq<Seq<char>>, Seq<Seq<char>>)> {
    match rest {
        Some((segments, bodies)) => Some((seq![segment] + segments, seq![body] + bodies)),
        None => None,
    }
}

/// Puts segments and bodies already read in front of what follows them.
pub open spec fn prepend_all(
    segments: Seq<Seq<char>>,
    bodies: Seq<Seq<char>>,
    rest: Option<(Seq<Seq<char>>, Seq<Seq<char>>)>,
) -> Option<(Seq<Seq<char>>, Seq<Seq<char>>)> {
    match rest {
        Some((more_segments, more_bodies)) => Some((segments + more_segments, bodies + more_bodies)),
        None => None,
    }
}

/// One bound of a range: empty text is no bound, other text must be a
/// signed 64-bit integer.
pub open spec fn bound_of(t: Seq<char>) -> Option<Option<i64>> {
    if t.len() == 0 {
        Some(None)
    } else if parse_i64(t) is Some {
        Some(parse_i64(t))
    } else {
        None
    }
}

/// The range that a brace body denotes: the bound before the first `..`
/// and the bound after it.
pub open spec fn slot_of(body: Seq<char>) -> Option<RangeSlot> {
    match find_from(body, two_dots(), 0) {
        Some(i) => {
            let lower = bound_of(body.subrange(0, i));
            let upper = bound_of(body.subrange(i + 2, body.len() as int));
            if lower is Some && upper is Some {
                Some(RangeSlot { lower: lower->0, upper: upper->0 })
            } else {
                None
            }
        },
        None => None,
    }
}

/// The ranges that the brace bodies denote, if each denotes one.
pub open spec fn slots_of(bodies: Seq<Seq<char>>) -> Option<Seq<RangeSlot>> {
    if forall|i: int| 0 <= i < bodies.len() ==> slot_of(#[trigger] bodies[i]) is Some {
        Some(Seq::new(bodies.len(), |i: int| slot_of(bodies[i])->0))
    } else {
        None
    }
}

/// Ranges exclude `Dataset` and `Name`; more than one range excludes
/// `Rega`.
pub open spec fn excluded(keyword: Keyword, ranges: int) -> bool {
    ||| (ranges > 1 && keyword is Rega)
    ||| (ranges > 0 && (keyword is Dataset || keyword is Name))
}

/// The literal segments once the keyword is taken out of the last of
/// them: what precedes its first upper-case run, and what follows the run.
pub open spec fn around_keyword(segments: Seq<Seq<char>>) -> Seq<Seq<char>> {
    let tail = segments.last();
    let from = seek(tail, 0, CharClass::Upper);
    let to = seek(tail, from, CharClass::NotUpper);
    segments.drop_last().push(tail.subrange(0, from)).push(tail.subrange(to, tail.len() as int))
}

/// The shape of pattern `s`, or the first fault found in it.
pub open spec fn classification(s: Seq<char>) -> Result<PatternView, PatternFault> {
    if all_run_starts(s).len() > 1 {
        Err(PatternFault::MultipleKeywordRuns)
    } else if count_of(s, '{') != count_of(s, '}') {
        Err(PatternFault::BraceMismatch)
    } else {
        match split_from(s, 0) {
            None => Err(PatternFault::BadRange),
            Some((segments, bodies)) => {
                let keyword = keyword_of(s);
                if excluded(keyword, bodies.len() as int) {
                    Err(PatternFault::IllegalCombination)
                } else if bodies.len() > 3 {
                    Err(PatternFault::TooManyRanges)
                } else {
                    match slots_of(bodies) {
                        None => Err(PatternFault::BadRange),
                        Some(slots) => {
                            if !keyword.captures() {
                                Ok(PatternView { segments, keyword, slots })
                            } else if seek(segments.last(), 0, CharClass::Upper)
                                >= segments.last().len() {
                                Err(PatternFault::IllegalCombination)
                            } else {
                                Ok(
                                    PatternView {
                                        segments: around_keyword(segments),
                                        keyword,
                                        slots,
                                    },
                                )
                            }
                        },
                    }
                }
            },
        }
    }
}

fn identify_keyword(s: &Vec<char>, runs: &Vec<(String, usize)>) -> (keyword: Keyword)
    requires
        runs.len() == all_run_starts(s@).len(),
        forall|i: int|
            0 <= i < runs.len() ==> (#[trigger] runs[i]).0@ == s@.subrange(
                all_run_starts(s@)[i],
                run_end(s@, all_run_starts(s@)[i]),
            ),
    ensures
        keyword == keyword_of(s@),
{
    if same_text(s, &Keyword::Bc.letters()) {
        Keyword::Bc
    } else if same_text(s, &Keyword::Info.letters()) {
        Keyword::Info
    } else if runs.len() == 1 {
        let word = chars_of(runs[0].0.as_str());
        if same_text(&word, &Keyword::Rega.letters()) {
            Keyword::Rega
        } else if same_text(&word, &Keyword::Dataset.letters()) {
            Keyword::Dataset
        } else if same_text(&word, &Keyword::Name.letters()) {
            Keyword::Name
        } else {
            Keyword::Plain
        }
    } else {
        Keyword::Plain
    }
}

fn split_braces(s: &Vec<char>) -> (r: Option<(Vec<Vec<char>>, Vec<Vec<char>>)>)
    ensures
        match r {
            Some((segments, bodies)) => split_from(s@, 0) == Some(
                (texts(segments@), texts(bodies@)),
            ) && segments.len() == bodies.len() + 1,
            None => split_from(s@, 0) is None,
        },
{
    let mut segments: Vec<Vec<char>> = Vec::new();
    let mut bodies: Vec<Vec<char>> = Vec::new();
    let mut pos: usize = 0;
    loop
        invariant
            pos <= s.len(),
            segments.len() == bodies.len(),
            split_from(s@, 0) == prepend_all(
                texts(segments@),
                texts(bodies@),
                split_from(s@, pos as int),
            ),
        decreases s.len() - pos,
    {
        let open = seek_class(s, pos, CharClass::Brace);
        let ghost before_segments = texts(segments@);
        let ghost before_bodies = texts(bodies@);
        if open >= s.len() {
            segments.push(slice_of(s, pos, s.len()));
            assert(texts(segments@) =~= before_segments + seq![
                s@.subrange(pos as int, s.len() as int),
            ]);
            assert(texts(bodies@) =~= before_bodies + Seq::<Seq<char>>::empty());
            return Some((segments, bodies));
        }
        if s[open] != '{' {
            return None;
        }
        let close = seek_class(s, open + 1, CharClass::Brace);
        if close >= s.len() || s[close] != '}' {
            return None;
        }
        segments.push(slice_of(s, pos, open));
        bodies.push(slice_of(s, open + 1, close));
        proof {
            let segment = s@.subrange(pos as int, open as int);
            let body = s@.subrange(open + 1, close as int);
            assert(texts(segments@) =~= before_segments.push(segment));
            assert(texts(bodies@) =~= before_bodies.push(body));
            match split_from(s@, close + 1) {
                Some((more_segments, more_bodies)) => {
                    assert(before_segments + (seq![segment] + more_segments)
                        =~= before_segments.push(segment) + more_segments);
                    assert(before_bodies + (seq![body] + more_bodies) =~= before_bodies.push(body)
                        + more_bodies);
                },
                None => {},
            }
        }
        pos = close + 1;
    }
}

fn read_bound(s: &Vec<char>, from: usize, to: usize) -> (r: Option<Option<i64>>)
    requires
        from <= to <= s.len(),
    ensures
        r == bound_of(s@.subrange(from as int, to as int)),
{
    if from == to {
        return Some(None);
    }
    let t = slice_of(s, from, to);
    match read_i64(&t) {
        Some(v) => Some(Some(v)),
        None => None,
    }
}

fn read_slot(body: &Vec<char>) -> (r: Option<RangeSlot>)
    ensures
        r == slot_of(body@),
{
    match find_text(body, &vec!['.', '.'], 0) {
        None => None,
        Some(i) => {
            let lower = read_bound(body, 0, i);
            let upper = read_bound(body, i + 2, body.len());
            match (lower, upper) {
                (Some(lower), Some(upper)) => Some(RangeSlot { lower, upper }),
                _ => None,
            }
        },
    }
}

fn read_slots(bodies: &Vec<Vec<char>>) -> (r: Option<Vec<RangeSlot>>)
    ensures
        match r {
            Some(slots) => slots_of(texts(bodies@)) == Some(slots@) && slots.len() == bodies.len(),
            None => slots_of(texts(bodies@)) is None,
        },
{
    let mut slots: Vec<RangeSlot> = Vec::new();
    let mut i: usize = 0;
    while i < bodies.len()
        invariant
            i <= bodies.len(),
            slots.len() == i,
            forall|k: int|
                0 <= k < i ==> slot_of(#[trigger] texts(bodies@)[k]) == Some(slots@[k]),
        decreases bodies.len() - i,
    {
        match read_slot(&bodies[i]) {
            Some(slot) => {
                slots.push(slot);
            },
            None => {
                assert(slot_of(texts(bodies@)[i as int]) is None);
                return None;
            },
        }
        i += 1;
    }
    assert(slots@ =~= Seq::new(
        texts(bodies@).len(),
        |k: int| slot_of(texts(bodies@)[k])->0,
    ));
    Some(slots)
}

fn strings_of(list: &Vec<Vec<char>>, upto: usize) -> (r: Vec<String>)
    requires
        upto <= list.len(),
    ensures
        views(r@) == texts(list@).take(upto as int),
{
    let mut r: Vec<String> = Vec::new();
    let mut i: usize = 0;
    while i < upto
        invariant
            i <= upto <= list.len(),
            views(r@) == texts(list@).take(i as int),
        decreases upto - i,
    {
        let ghost before = views(r@);
        let t = &list[i];
        r.push(string_of(t, 0, t.len()));
        assert(t@.subrange(0, t.len() as int) =~= t@);
        assert(views(r@) =~= before.push(t@));
        assert(texts(list@).take(i + 1) =~= texts(list@).take(i as int).push(t@));
        i += 1;
    }
    r
}

/// Classifies a pattern: finds its keyword, its literal segments and its
/// ranges, or the first fault in it.
pub fn classify(pattern: &str) -> (r: Result<ParsedPattern, PatternFault>)
    ensures
        match r {
            Ok(p) => classification(pattern@) == Ok::<PatternView, PatternFault>(p@) && p.wf(),
            Err(fault) => classification(pattern@) == Err::<PatternView, PatternFault>(fault),
        },
{
    let s = chars_of(pattern);
    let runs = uppercase_runs(&s);
    if runs.len() > 1 {
        return Err(PatternFault::MultipleKeywordRuns);
    }
    if count_char(&s, '{') != count_char(&s, '}') {
        return Err(PatternFault::BraceMismatch);
    }
    let (segments, bodies) = match split_braces(&s) {
        Some(parts) => parts,
        None => {
            return Err(PatternFault::BadRange);
        },
    };
    let keyword = identify_keyword(&s, &runs);
    let ranges = bodies.len();
    proof {
        if keyword is Bc || keyword is Info {
            reveal_with_fuel(seek, 5);
            assert(seek(s@, 0, CharClass::Brace) == s.len());
            assert(ranges == 0);
        }
    }
    if (ranges > 1 && matches!(keyword, Keyword::Rega)) || (ranges > 0 && matches!(
        keyword,
        Keyword::Dataset | Keyword::Name
    )) {
        return Err(PatternFault::IllegalCombination);
    }
    if ranges > 3 {
        return Err(PatternFault::TooManyRanges);
    }
    let slots = match read_slots(&bodies) {
        Some(slots) => slots,
        None => {
            return Err(PatternFault::BadRange);
        },
    };
    if !keyword.takes_text() {
        let all = strings_of(&segments, segments.len());
        assert(texts(segments@).take(segments.len() as int) =~= texts(segments@));
        return Ok(ParsedPattern { segments: all, keyword, slots });
    }
    let tail = &segments[segments.len() - 1];
    let from = seek_class(tail, 0, CharClass::Upper);
    if from >= tail.len() {
        return Err(PatternFault::IllegalCombination);
    }
    let to = seek_class(tail, from, CharClass::NotUpper);
    let mut all = strings_of(&segments, segments.len() - 1);
    let ghost head = views(all@);
    all.push(string_of(tail, 0, from));
    let ghost middle = views(all@);
    all.push(string_of(tail, to, tail.len()));
    proof {
        assert(texts(segments@).last() == tail@);
        assert(head =~= texts(segments@).drop_last());
        assert(middle =~= head.push(tail@.subrange(0, from as int)));
        assert(views(all@) =~= middle.push(tail@.subrange(to as int, tail.len() as int)));
    }
    Ok(ParsedPattern { segments: all, keyword, slots })
}

} // verus!
