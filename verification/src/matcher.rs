//! Reference interpreter: what the compiled predicate of a pattern decides
//! for a candidate name, and which clause of a module a name reaches.
//!
//! The interpreter never aborts. Where the emitted tests of a pattern of one
//! range would abort, because first and last segment overlap in the name,
//! it finds no match.

use crate::integrate::{clause_views, ClauseView, CompiledClause};
use crate::model::{Keyword, ParsedPattern, PatternView, RangeSlot};
use crate::number::{parse_i64, read_i64};
use crate::text::{
    chars_of, find_from, find_text, has_char, occurs_at, same_text, slice_of, stands_at,
    string_of, texts, views,
};
use vstd::prelude::*;

verus! {

/// The identifier lists that the generated code looks names up in.
#[derive(Clone, Debug, PartialEq, Eq)]
pub struct NameLists {
    pub datasets: Vec<String>,
    pub origins: Vec<String>,
    pub donors: Vec<String>,
    pub tags: Vec<String>,
    pub info_fields: Vec<String>,
    pub alt_barcodes: Vec<String>,
}

/// The mathematical content of `NameLists`.
pub ghost struct ListsView {
    pub datasets: Seq<Seq<char>>,
    pub origins: Seq<Seq<char>>,
    pub donors: Seq<Seq<char>>,
    pub tags: Seq<Seq<char>>,
    pub info_fields: Seq<Seq<char>>,
    pub alt_barcodes: Seq<Seq<char>>,
}

impl View for NameLists {
    type V = ListsView;

    open spec fn view(&self) -> ListsView {
        ListsView {
            datasets: views(self.datasets@),
            origins: views(self.origins@),
            donors: views(self.donors@),
            tags: views(self.tags@),
            info_fields: views(self.info_fields@),
            alt_barcodes: views(self.alt_barcodes@),
        }
    }
}

impl ListsView {
    /// Whether `t` names a dataset, an origin, a donor or a tag.
    pub open spec fn knows(self, t: Seq<char>) -> bool {
        self.datasets.contains(t) || self.origins.contains(t) || self.donors.contains(t)
            || self.tags.contains(t)
    }
}

/// What a matching name binds: the integers of the range slots, in order,
/// and what stood for the keyword.
#[derive(Clone, Debug, PartialEq, Eq)]
pub struct Capture {
    pub args: Vec<i64>,
    pub text: Option<String>,
}

/// The mathematical content of a `Capture`.
pub ghost struct CaptureView {
    pub args: Seq<i64>,
    pub text: Option<Seq<char>>,
}

impl View for Capture {
    type V = CaptureView;

    open spec fn view(&self) -> CaptureView {
        CaptureView {
            args: self.args@,
            text: match self.text {
                Some(t) => Some(t@),
                None => None,
            },
        }
    }
}

/// What all tests but the regular expression's decide.
#[derive(Clone, Debug, PartialEq, Eq)]
pub enum Verdict {
    /// Some test fails.
    NoMatch,
    /// Every test holds.
    Match(Capture),
    /// Every other test holds, and the name matches if the captured text is
    /// a valid regular expression.
    IfRegex(Capture),
}

/// The mathematical content of a `Verdict`.
pub ghost enum VerdictView {
    NoMatch,
    Match(CaptureView),
    IfRegex(CaptureView),
}

impl View for Verdict {
    type V = VerdictView;

    open spec fn view(&self) -> VerdictView {
        match self {
            Verdict::NoMatch => VerdictView::NoMatch,
            Verdict::Match(c) => VerdictView::Match(c@),
            Verdict::IfRegex(c) => VerdictView::IfRegex(c@),
        }
    }
}

/// What stands in placeholder `k` and in those after it, where
/// placeholder `k` begins at `pos`. A placeholder ends where the literal
/// segment after it first occurs; the last one ends where the last
/// segment closes the name.
pub open spec fn interiors_from(segments: Seq<Seq<char>>, name: Seq<char>, k: int, pos: int)
    -> Option<Seq<Seq<char>>>
    decreases segments.len() - k,
{
    if k < 0 || k + 2 > segments.len() {
        None
    } else if k + 2 == segments.len() {
        let end = name.len() - segments[k + 1].len();
        if pos <= end && occurs_at(name, segments[k + 1], end) {
            Some(seq![name.subrange(pos, end)])
        } else {
            None
        }
    } else {
        match find_from(name, segments[k + 1], pos) {
            None => None,
            Some(q) => match interiors_from(segments, name, k + 1, q + segments[k + 1].len()) {
                None => None,
                Some(rest) => Some(seq![name.subrange(pos, q)] + rest),
            },
        }
    }
}

/// What stands in each placeholder when `name` is laid against the
/// literal segments: the name starts with the first segment, and with no
/// placeholder it is that segment.
pub open spec fn decompose(segments: Seq<Seq<char>>, name: Seq<char>) -> Option<Seq<Seq<char>>> {
    if segments.len() == 0 || !occurs_at(name, segments[0], 0) {
        None
    } else if segments.len() == 1 {
        if name.len() == segments[0].len() {
            Some(Seq::empty())
        } else {
            None
        }
    } else {
        interiors_from(segments, name, 0, segments[0].len() as int)
    }
}

/// Every range slot holds a signed 64-bit integer that its bounds admit.
pub open spec fn slots_admit(slots: Seq<RangeSlot>, interiors: Seq<Seq<char>>) -> bool {
    forall|i: int|
        0 <= i < slots.len() ==> parse_i64(#[trigger] interiors[i]) is Some && slots[i].admits(
            parse_i64(interiors[i])->0 as int,
        )
}

/// The integers that stand in the range slots.
pub open spec fn slot_values(slots: Seq<RangeSlot>, interiors: Seq<Seq<char>>) -> Seq<i64> {
    Seq::new(slots.len(), |i: int| parse_i64(interiors[i])->0)
}

/// What the predicate of pattern `p` decides for `name`, short of
/// compiling a regular expression.
pub open spec fn verdict(p: PatternView, name: Seq<char>, lists: ListsView) -> VerdictView {
    let nothing = CaptureView { args: Seq::empty(), text: None };
    match p.keyword {
        Keyword::Bc => if lists.alt_barcodes.contains(name) {
            VerdictView::Match(nothing)
        } else {
            VerdictView::NoMatch
        },
        Keyword::Info => if lists.info_fields.contains(name) {
            VerdictView::Match(nothing)
        } else {
            VerdictView::NoMatch
        },
        _ => match decompose(p.segments, name) {
            None => VerdictView::NoMatch,
            Some(interiors) => if !slots_admit(p.slots, interiors) {
                VerdictView::NoMatch
            } else {
                let args = slot_values(p.slots, interiors);
                let last = interiors[p.slots.len() as int];
                let bound = CaptureView { args, text: Some(last) };
                match p.keyword {
                    Keyword::Rega => if last.contains('_') {
                        VerdictView::NoMatch
                    } else {
                        VerdictView::IfRegex(bound)
                    },
                    Keyword::Dataset => if lists.datasets.contains(last) {
                        VerdictView::Match(bound)
                    } else {
                        VerdictView::NoMatch
                    },
                    Keyword::Name => if lists.knows(last) {
                        VerdictView::Match(bound)
                    } else {
                        VerdictView::NoMatch
                    },
                    _ => VerdictView::Match(CaptureView { args, text: None }),
                }
            },
        },
    }
}

/// What a verdict comes to once it is known whether the captured text is
/// a valid regular expression.
pub open spec fn settled(v: VerdictView, valid: bool) -> Option<CaptureView> {
    match v {
        VerdictView::NoMatch => None,
        VerdictView::Match(c) => Some(c),
        VerdictView::IfRegex(c) => if valid {
            Some(c)
        } else {
            None
        },
    }
}

/// Whether `regex::Regex::new` accepts `text`: the text is a valid regular
/// expression, and its compiled form stays within the size limit that the
/// engine sets by default.
pub uninterp spec fn regex_compiles(text: Seq<char>) -> bool;

/// Calls `regex::Regex::new` on `text` and tells whether it gave back a
/// compiled expression rather than an error. Taken on trust: the answer
/// depends on the text alone, and `regex_compiles` is its name.
#[verifier::external_body]
fn compiles_as_regex(text: &str) -> (ok: bool)
    ensures
        ok == regex_compiles(text@),
{
    regex::Regex::new(text).is_ok()
}

/// What pattern `p` binds for `name`, if its predicate holds of it.
pub open spec fn outcome(p: PatternView, name: Seq<char>, lists: ListsView) -> Option<
    CaptureView,
> {
    let v = verdict(p, name, lists);
    settled(
        v,
        match v {
            VerdictView::IfRegex(c) => regex_compiles(c.text->0),
            _ => false,
        },
    )
}

fn chars_of_all(list: &Vec<String>) -> (r: Vec<Vec<char>>)
    ensures
        texts(r@) == views(list@),
        r.len() == list.len(),
{
    let mut r: Vec<Vec<char>> = Vec::new();
    let mut i: usize = 0;
    while i < list.len()
        invariant
            i <= list.len(),
            r.len() == i,
            forall|k: int| 0 <= k < i ==> (#[trigger] r@[k])@ == list@[k]@,
        decreases list.len() - i,
    {
        r.push(chars_of(list[i].as_str()));
        i += 1;
    }
    assert(texts(r@) =~= views(list@));
    r
}

/// Whether `t` is one of the names in `list`.
pub fn listed(list: &Vec<String>, t: &Vec<char>) -> (r: bool)
    ensures
        r == views(list@).contains(t@),
{
    let mut i: usize = 0;
    while i < list.len()
        invariant
            i <= list.len(),
            forall|k: int| 0 <= k < i ==> views(list@)[k] != t@,
        decreases list.len() - i,
    {
        if same_text(&chars_of(list[i].as_str()), t) {
            assert(views(list@)[i as int] == t@);
            return true;
        }
        i += 1;
    }
    false
}

fn interiors(segments: &Vec<Vec<char>>, name: &Vec<char>) -> (r: Option<Vec<Vec<char>>>)
    ensures
        match r {
            Some(found) => decompose(texts(segments@), name@) == Some(texts(found@))
                && found.len() + 1 == segments.len(),
            None => decompose(texts(segments@), name@) is None,
        },
{
    if segments.len() == 0 || !stands_at(name, &segments[0], 0) {
        return None;
    }
    let mut found: Vec<Vec<char>> = Vec::new();
    if segments.len() == 1 {
        if name.len() == segments[0].len() {
            assert(texts(found@) =~= Seq::<Seq<char>>::empty());
            return Some(found);
        }
        return None;
    }
    let ghost segs = texts(segments@);
    let mut pos: usize = segments[0].len();
    let mut k: usize = 0;
    while k + 2 < segments.len()
        invariant
            k + 2 <= segments.len(),
            pos <= name.len(),
            found.len() == k,
            segs == texts(segments@),
            decompose(segs, name@) == match interiors_from(segs, name@, k as int, pos as int) {
                Some(rest) => Some(texts(found@) + rest),
                None => None,
            },
        decreases segments.len() - k,
    {
        let next = &segments[k + 1];
        assert(segs[k + 1] == next@);
        let ghost before = texts(found@);
        match find_text(name, next, pos) {
            None => {
                return None;
            },
            Some(q) => {
                found.push(slice_of(name, pos, q));
                proof {
                    let piece = name@.subrange(pos as int, q as int);
                    assert(texts(found@) =~= before.push(piece));
                    match interiors_from(segs, name@, k + 1, q + next.len()) {
                        Some(rest) => {
                            assert(before + (seq![piece] + rest) =~= before.push(piece) + rest);
                        },
                        None => {},
                    }
                }
                pos = q + next.len();
                k += 1;
            },
        }
    }
    let last = &segments[k + 1];
    assert(segs[k + 1] == last@);
    if name.len() < last.len() {
        return None;
    }
    let end = name.len() - last.len();
    if pos <= end && stands_at(name, last, end) {
        let ghost before = texts(found@);
        found.push(slice_of(name, pos, end));
        assert(texts(found@) =~= before + seq![name@.subrange(pos as int, end as int)]);
        Some(found)
    } else {
        None
    }
}

fn read_slots(slots: &Vec<RangeSlot>, found: &Vec<Vec<char>>) -> (r: Option<Vec<i64>>)
    requires
        slots.len() <= found.len(),
    ensures
        match r {
            Some(args) => slots_admit(slots@, texts(found@)) && args@ == slot_values(
                slots@,
                texts(found@),
            ),
            None => !slots_admit(slots@, texts(found@)),
        },
{
    let mut args: Vec<i64> = Vec::new();
    let mut i: usize = 0;
    while i < slots.len()
        invariant
            i <= slots.len() <= found.len(),
            args.len() == i,
            forall|k: int|
                0 <= k < i ==> parse_i64(#[trigger] texts(found@)[k]) == Some(args@[k])
                    && slots@[k].admits(args@[k] as int),
        decreases slots.len() - i,
    {
        assert(texts(found@)[i as int] == found@[i as int]@);
        let v = match read_i64(&found[i]) {
            Some(v) => v,
            None => {
                return None;
            },
        };
        let low_ok = match slots[i].lower {
            Some(lo) => lo <= v,
            None => true,
        };
        let high_ok = match slots[i].upper {
            Some(hi) => v <= hi,
            None => true,
        };
        if !(low_ok && high_ok) {
            return None;
        }
        args.push(v);
        i += 1;
    }
    assert(args@ =~= slot_values(slots@, texts(found@)));
    Some(args)
}

/// Decides every test of the predicate of `p` for `name` but the one that
/// compiles a regular expression.
pub fn judge(p: &ParsedPattern, name: &str, lists: &NameLists) -> (r: Verdict)
    requires
        p.wf(),
    ensures
        r@ == verdict(p@, name@, lists@),
{
    let s = chars_of(name);
    match p.keyword {
        Keyword::Bc => {
            return if listed(&lists.alt_barcodes, &s) {
                Verdict::Match(Capture { args: Vec::new(), text: None })
            } else {
                Verdict::NoMatch
            };
        },
        Keyword::Info => {
            return if listed(&lists.info_fields, &s) {
                Verdict::Match(Capture { args: Vec::new(), text: None })
            } else {
                Verdict::NoMatch
            };
        },
        _ => {},
    }
    let segments = chars_of_all(&p.segments);
    let found = match interiors(&segments, &s) {
        Some(found) => found,
        None => {
            return Verdict::NoMatch;
        },
    };
    let args = match read_slots(&p.slots, &found) {
        Some(args) => args,
        None => {
            return Verdict::NoMatch;
        },
    };
    if !p.keyword.takes_text() {
        return Verdict::Match(Capture { args, text: None });
    }
    let last = &found[p.slots.len()];
    assert(texts(found@)[p.slots.len() as int] == last@);
    let text = string_of(last, 0, last.len());
    assert(last@.subrange(0, last.len() as int) =~= last@);
    match p.keyword {
        Keyword::Rega => if has_char(last, '_') {
            Verdict::NoMatch
        } else {
            Verdict::IfRegex(Capture { args, text: Some(text) })
        },
        Keyword::Dataset => if listed(&lists.datasets, last) {
            Verdict::Match(Capture { args, text: Some(text) })
        } else {
            Verdict::NoMatch
        },
        _ => if listed(&lists.datasets, last) || listed(&lists.origins, last) || listed(
            &lists.donors,
            last,
        ) || listed(&lists.tags, last) {
            Verdict::Match(Capture { args, text: Some(text) })
        } else {
            Verdict::NoMatch
        },
    }
}

/// Closes a verdict, given whether the captured text is a valid regular
/// expression: what the name binds, or nothing where it does not match.
pub fn settle(v: Verdict, valid: bool) -> (r: Option<Capture>)
    ensures
        match r {
            Some(c) => settled(v@, valid) == Some(c@),
            None => settled(v@, valid) is None,
        },
{
    match v {
        Verdict::NoMatch => None,
        Verdict::Match(c) => Some(c),
        Verdict::IfRegex(c) => if valid {
            Some(c)
        } else {
            None
        },
    }
}

/// Matches `name` against pattern `p`: what the name binds, or nothing
/// where the predicate of `p` does not hold of it.
pub fn match_name(p: &ParsedPattern, name: &str, lists: &NameLists) -> (r: Option<Capture>)
    requires
        p.wf(),
    ensures
        match r {
            Some(c) => outcome(p@, name@, lists@) == Some(c@),
            None => outcome(p@, name@, lists@) is None,
        },
{
    let v = judge(p, name, lists);
    let valid = match &v {
        Verdict::IfRegex(c) => match &c.text {
            Some(t) => compiles_as_regex(t.as_str()),
            None => false,
        },
        _ => false,
    };
    settle(v, valid)
}

/// Clause `r` is the one that `name` reaches in a chain of clauses: its
/// predicate holds of the name, and that of no clause before it does.
pub open spec fn reaches(clauses: Seq<ClauseView>, name: Seq<char>, lists: ListsView, r: int)
    -> bool {
    &&& 0 <= r < clauses.len()
    &&& outcome(clauses[r].shape, name, lists) is Some
    &&& forall|k: int| 0 <= k < r ==> outcome((#[trigger] clauses[k]).shape, name, lists) is None
}

/// The name reaches no clause of the chain: the result is undefined.
pub open spec fn reaches_none(clauses: Seq<ClauseView>, name: Seq<char>, lists: ListsView)
    -> bool {
    forall|k: int|
        0 <= k < clauses.len() ==> outcome((#[trigger] clauses[k]).shape, name, lists) is None
}

/// The clause that `name` reaches: clauses are tried in order and the
/// first whose predicate holds wins. `None` stands for the undefined
/// result of a name that no clause matches.
pub fn dispatch(clauses: &Vec<CompiledClause>, name: &str, lists: &NameLists) -> (r: Option<
    (usize, Capture),
>)
    requires
        forall|i: int| 0 <= i < clauses.len() ==> (#[trigger] clauses[i]).shape.wf(),
    ensures
        match r {
            Some((i, c)) => reaches(clause_views(clauses@), name@, lists@, i as int) && outcome(
                clauses[i as int]@.shape,
                name@,
                lists@,
            ) == Some(c@),
            None => reaches_none(clause_views(clauses@), name@, lists@),
        },
{
    let mut i: usize = 0;
    while i < clauses.len()
        invariant
            i <= clauses.len(),
            forall|k: int| 0 <= k < clauses.len() ==> (#[trigger] clauses[k]).shape.wf(),
            forall|j: int|
                0 <= j < i ==> outcome(
                    (#[trigger] clause_views(clauses@)[j]).shape,
                    name@,
                    lists@,
                ) is None,
        decreases clauses.len() - i,
    {
        assert(clause_views(clauses@)[i as int] == clauses[i as int]@);
        match match_name(&clauses[i].shape, name, lists) {
            Some(c) => {
                return Some((i, c));
            },
            None => {},
        }
        i += 1;
    }
    None
}

} // verus!
