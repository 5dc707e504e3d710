//! The pattern that spells a shape.

use crate::classify::two_dots;
use crate::model::{ParsedPattern, PatternView, RangeSlot};
use crate::number::{numeral, write_i64};
use crate::text::string_of;
use vstd::prelude::*;

verus! {

/// The text that literal segments spell with a brace body between each two
/// neighbours: the first segment, then each body between braces followed
/// by the next segment.
pub open spec fn braced(segments: Seq<Seq<char>>, bodies: Seq<Seq<char>>) -> Seq<char>
    decreases bodies.len(),
{
    if bodies.len() == 0 {
        segments[0]
    } else {
        segments[0] + seq!['{'] + bodies[0] + seq!['}'] + braced(
            segments.drop_first(),
            bodies.drop_first(),
        )
    }
}

/// The literal segments of a shape as they stand between the ranges of
/// its pattern: where the keyword captures, its word is put back between
/// the last two segments.
pub open spec fn with_keyword(p: PatternView) -> Seq<Seq<char>> {
    if p.keyword.captures() {
        let n = p.segments.len() as int;
        p.segments.take(n - 2).push(
            p.segments[n - 2] + p.keyword.word() + p.segments[n - 1],
        )
    } else {
        p.segments
    }
}

/// The text of a bound: nothing where the bound is not stated, else the
/// bound's numeral.
pub open spec fn bound_text(bound: Option<i64>) -> Seq<char> {
    match bound {
        Some(v) => numeral(v as int),
        None => Seq::empty(),
    }
}

/// The brace body that states a range.
pub open spec fn body_text(slot: RangeSlot) -> Seq<char> {
    bound_text(slot.lower) + two_dots() + bound_text(slot.upper)
}

/// The brace bodies that state the ranges of a shape.
pub open spec fn bodies_text(slots: Seq<RangeSlot>) -> Seq<Seq<char>> {
    Seq::new(slots.len(), |i: int| body_text(slots[i]))
}

/// The pattern that spells a shape: its literal segments, the keyword's
/// word put back, around the bodies that state its ranges.
pub open spec fn pattern_text(p: PatternView) -> Seq<char> {
    braced(with_keyword(p), bodies_text(p.slots))
}

proof fn lemma_braced_unfolds(segments: Seq<Seq<char>>, bodies: Seq<Seq<char>>, i: int)
    requires
        0 <= i < bodies.len(),
        segments.len() == bodies.len() + 1,
    ensures
        braced(segments.skip(i), bodies.skip(i)) == segments[i] + seq!['{'] + bodies[i] + seq![
            '}',
        ] + braced(segments.skip(i + 1), bodies.skip(i + 1)),
{
    assert(segments.skip(i).drop_first() =~= segments.skip(i + 1));
    assert(bodies.skip(i).drop_first() =~= bodies.skip(i + 1));
}

fn write_bound(out: &mut String, bound: Option<i64>)
    ensures
        final(out)@ == old(out)@ + bound_text(bound),
{
    match bound {
        Some(v) => write_i64(out, v),
        None => {
            assert(out@ + bound_text(bound) =~= out@);
        },
    }
}

/// Writes out the pattern that spells shape `p`: its literal segments
/// around its ranges, with the keyword's word in its place.
pub fn spell(p: &ParsedPattern) -> (r: String)
    requires
        p.wf(),
    ensures
        r@ == pattern_text(p@),
{
    let ghost segments = with_keyword(p@);
    let ghost bodies = bodies_text(p@.slots);
    let ranges = p.slots.len();
    let mut out = String::new();
    let mut i: usize = 0;
    assert(segments.skip(0) =~= segments);
    assert(bodies.skip(0) =~= bodies);
    assert(out@ + braced(segments, bodies) =~= braced(segments, bodies));
    while i < ranges
        invariant
            i <= ranges,
            ranges == p.slots.len(),
            p.wf(),
            segments == with_keyword(p@),
            bodies == bodies_text(p@.slots),
            out@ + braced(segments.skip(i as int), bodies.skip(i as int)) == pattern_text(p@),
        decreases ranges - i,
    {
        let ghost before = out@;
        let slot = p.slots[i];
        proof {
            lemma_braced_unfolds(segments, bodies, i as int);
            assert(segments[i as int] == p.segments@[i as int]@);
            assert(bodies[i as int] == body_text(slot));
        }
        out.append(p.segments[i].as_str());
        out.push('{');
        write_bound(&mut out, slot.lower);
        out.push('.');
        out.push('.');
        write_bound(&mut out, slot.upper);
        out.push('}');
        assert(out@ =~= before + (segments[i as int] + seq!['{'] + bodies[i as int] + seq!['}']));
        assert(out@ + braced(segments.skip(i + 1), bodies.skip(i + 1)) =~= before + braced(
            segments.skip(i as int),
            bodies.skip(i as int),
        ));
        i += 1;
    }
    let ghost before = out@;
    assert(braced(segments.skip(ranges as int), bodies.skip(ranges as int)) == segments[ranges as int]);
    out.append(p.segments[ranges].as_str());
    if p.keyword.takes_text() {
        let word = p.keyword.letters();
        let text = string_of(&word, 0, word.len());
        assert(word@.subrange(0, word.len() as int) =~= word@);
        out.append(text.as_str());
        out.append(p.segments[ranges + 1].as_str());
        assert(out@ =~= before + segments[ranges as int]);
    }
    out
}

} // verus!
