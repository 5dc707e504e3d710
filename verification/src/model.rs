//! The data that the compiler works on: declarations, parsed patterns and
//! the faults that end a run.

use crate::text::{chars_of, same_text, views};
use vstd::prelude::*;

verus! {

/// The keyword placeholder that a pattern names, if it names one.
#[derive(Clone, Copy, Debug, PartialEq, Eq, Structural)]
pub enum Keyword {
    /// No keyword: literal text and numeric ranges only.
    Plain,
    /// `REGA`: stands for a regular expression.
    Rega,
    /// `DATASET`: stands for the name of a dataset.
    Dataset,
    /// `NAME`: stands for the name of a dataset, origin, donor or tag.
    Name,
    /// The whole pattern is `BC`: any alternate barcode field.
    Bc,
    /// The whole pattern is `INFO`: any declared info field.
    Info,
}

impl Keyword {
    /// Whether the keyword stands for a stretch of the matched name.
    pub open spec fn captures(self) -> bool {
        self is Rega || self is Dataset || self is Name
    }

    /// Tells whether the keyword stands for a stretch of the matched
    /// name.
    pub fn takes_text(self) -> (b: bool)
        ensures
            b == self.captures(),
    {
        matches!(self, Keyword::Rega | Keyword::Dataset | Keyword::Name)
    }

    /// The word that spells the keyword in a pattern; `Plain` has none.
    pub open spec fn word(self) -> Seq<char> {
        match self {
            Keyword::Plain => Seq::empty(),
            Keyword::Rega => seq!['R', 'E', 'G', 'A'],
            Keyword::Dataset => seq!['D', 'A', 'T', 'A', 'S', 'E', 'T'],
            Keyword::Name => seq!['N', 'A', 'M', 'E'],
            Keyword::Bc => seq!['B', 'C'],
            Keyword::Info => seq!['I', 'N', 'F', 'O'],
        }
    }

    /// The letters of the keyword's word.
    pub fn letters(self) -> (r: Vec<char>)
        ensures
            r@ == self.word(),
    {
        match self {
            Keyword::Plain => Vec::new(),
            Keyword::Rega => vec!['R', 'E', 'G', 'A'],
            Keyword::Dataset => vec!['D', 'A', 'T', 'A', 'S', 'E', 'T'],
            Keyword::Name => vec!['N', 'A', 'M', 'E'],
            Keyword::Bc => vec!['B', 'C'],
            Keyword::Info => vec!['I', 'N', 'F', 'O'],
        }
    }
}

/// One `{lower..upper}` placeholder; an omitted bound leaves that side
/// unconstrained.
#[derive(Clone, Copy, Debug, PartialEq, Eq)]
pub struct RangeSlot {
    pub lower: Option<i64>,
    pub upper: Option<i64>,
}

impl RangeSlot {
    /// Whether `v` satisfies both bounds.
    pub open spec fn admits(self, v: int) -> bool {
        &&& (self.lower matches Some(lo) ==> lo <= v)
        &&& (self.upper matches Some(hi) ==> v <= hi)
    }
}

/// The shape of a pattern: its literal segments, in order, with one
/// placeholder between each two neighbours. The range slots come first and
/// the keyword's placeholder, where the keyword captures, comes last.
#[derive(Clone, Debug, PartialEq, Eq)]
pub struct ParsedPattern {
    pub segments: Vec<String>,
    pub keyword: Keyword,
    pub slots: Vec<RangeSlot>,
}

/// The mathematical content of a `ParsedPattern`.
pub ghost struct PatternView {
    pub segments: Seq<Seq<char>>,
    pub keyword: Keyword,
    pub slots: Seq<RangeSlot>,
}

impl PatternView {
    /// The number of placeholders: range slots, and the keyword's if it
    /// captures.
    pub open spec fn holes(self) -> int {
        self.slots.len() + if self.keyword.captures() {
            1int
        } else {
            0int
        }
    }

    /// There are at most three range slots, a range excludes every keyword
    /// but `Rega`, more than one range excludes `Rega` too, and the literal
    /// segments enclose the placeholders.
    pub open spec fn wf(self) -> bool {
        &&& self.slots.len() <= 3
        &&& self.segments.len() == self.holes() + 1
        &&& (self.slots.len() > 0 ==> self.keyword is Plain || self.keyword is Rega)
        &&& (self.slots.len() > 1 ==> self.keyword is Plain)
    }
}

impl View for ParsedPattern {
    type V = PatternView;

    open spec fn view(&self) -> PatternView {
        PatternView {
            segments: views(self.segments@),
            keyword: self.keyword,
            slots: self.slots@,
        }
    }
}

impl ParsedPattern {
    /// The parts fit together as the shape of a pattern.
    pub open spec fn wf(&self) -> bool {
        self@.wf()
    }

    /// Whether the parts fit together as the shape of a pattern.
    pub fn is_well_formed(&self) -> (b: bool)
        ensures
            b == self.wf(),
    {
        let ranges = self.slots.len();
        if ranges > 3 {
            return false;
        }
        let holes = if self.keyword.takes_text() {
            ranges + 1
        } else {
            ranges
        };
        let plain = matches!(self.keyword, Keyword::Plain);
        let regex = matches!(self.keyword, Keyword::Rega);
        self.segments.len() == holes + 1 && (ranges == 0 || plain || regex) && (ranges <= 1
            || plain)
    }

    /// The shape made of these parts, where they fit together.
    pub fn new(segments: Vec<String>, keyword: Keyword, slots: Vec<RangeSlot>) -> (r: Option<
        ParsedPattern,
    >)
        ensures
            match r {
                Some(p) => p.wf() && p.segments == segments && p.keyword == keyword && p.slots
                    == slots,
                None => !(PatternView { segments: views(segments@), keyword, slots: slots@ }).wf(),
            },
    {
        let p = ParsedPattern { segments, keyword, slots };
        if p.is_well_formed() {
            Some(p)
        } else {
            None
        }
    }

    /// Whether a regular expression closes the pattern's placeholders.
    pub fn has_trailing_regex(&self) -> (b: bool)
        ensures
            b == (self.keyword is Rega),
    {
        matches!(self.keyword, Keyword::Rega)
    }
}

/// Why a pattern was refused.
#[derive(Clone, Copy, Debug, PartialEq, Eq, Structural)]
pub enum PatternFault {
    /// More than one run of upper-case letters.
    MultipleKeywordRuns,
    /// The numbers of `{` and `}` differ.
    BraceMismatch,
    /// A keyword stands with ranges that exclude it, or before a range.
    IllegalCombination,
    /// More than three ranges.
    TooManyRanges,
    /// The braces do not pair up, a range lacks `..`, or a bound is no
    /// signed 64-bit integer.
    BadRange,
}

/// The result markers that a declaration's body may end with.
#[derive(Clone, Copy, Debug, PartialEq, Eq, Structural)]
pub enum Marker {
    /// `exact: `, before the value for the whole unit.
    Exact,
    /// `cell: `, before the values per cell.
    Cell,
}

/// What a declaration yields: one value for the whole unit, one value per
/// cell, or both.
#[derive(Clone, Copy, Debug, PartialEq, Eq, Structural)]
pub enum Level {
    /// One value for the whole unit.
    Exact,
    /// One value per cell.
    Cell,
    /// Both.
    CellExact,
}

impl Level {
    /// The tag that the catalog writes for the level.
    pub open spec fn tag_text(self) -> Seq<char> {
        match self {
            Level::Exact => "exact"@,
            Level::Cell => "cell"@,
            Level::CellExact => "cell-exact"@,
        }
    }

    /// The tag that the catalog writes for the level.
    pub fn tag(self) -> (r: &'static str)
        ensures
            r@ == self.tag_text(),
    {
        match self {
            Level::Exact => "exact",
            Level::Cell => "cell",
            Level::CellExact => "cell-exact",
        }
    }

    /// The level that a tag of the catalog names.
    pub fn from_tag(tag: &str) -> (r: Option<Level>)
        ensures
            r == if tag@ == Level::CellExact.tag_text() {
                Some(Level::CellExact)
            } else if tag@ == Level::Cell.tag_text() {
                Some(Level::Cell)
            } else if tag@ == Level::Exact.tag_text() {
                Some(Level::Exact)
            } else {
                None
            },
    {
        let t = chars_of(tag);
        if same_text(&t, &chars_of(Level::CellExact.tag())) {
            Some(Level::CellExact)
        } else if same_text(&t, &chars_of(Level::Cell.tag())) {
            Some(Level::Cell)
        } else if same_text(&t, &chars_of(Level::Exact.tag())) {
            Some(Level::Exact)
        } else {
            None
        }
    }

    /// Whether a declaration of this level must state the marker's value.
    pub open spec fn requires_marker(self, marker: Marker) -> bool {
        match marker {
            Marker::Exact => self is CellExact,
            Marker::Cell => self is CellExact || self is Cell,
        }
    }
}

/// The two consumers that modules are generated for.
#[derive(Clone, Copy, Debug, PartialEq, Eq, Structural)]
pub enum TargetClass {
    /// The per-chain processor.
    Cvar,
    /// The per-clonotype processor.
    Lvar,
}

impl TargetClass {
    /// The tag by which a declaration names the class.
    pub open spec fn tag_text(self) -> Seq<char> {
        match self {
            TargetClass::Cvar => "cvar_vdj"@,
            TargetClass::Lvar => "lvar_vdj"@,
        }
    }

    /// The tag by which a declaration names the class.
    pub fn tag(self) -> (r: &'static str)
        ensures
            r@ == self.tag_text(),
    {
        match self {
            TargetClass::Cvar => "cvar_vdj",
            TargetClass::Lvar => "lvar_vdj",
        }
    }
}

/// A fault that ends the run before any text is produced.
#[derive(Clone, Debug, PartialEq, Eq)]
pub enum CompileError {
    /// The pattern of a declaration is refused.
    MalformedPattern { pattern: String, fault: PatternFault },
    /// The body of the declaration named by `pattern` does not state the
    /// value of a marker that its level requires.
    MissingResultMarker { pattern: String, marker: Marker },
}

impl PatternFault {
    /// What the fault is, in words.
    pub open spec fn words(self) -> Seq<char> {
        match self {
            PatternFault::MultipleKeywordRuns => "has more than one uppercase string in it"@,
            PatternFault::BraceMismatch => "has unequal numbers of { and }"@,
            PatternFault::IllegalCombination => "combines a keyword with what excludes it"@,
            PatternFault::TooManyRanges => "has more than three ranges"@,
            PatternFault::BadRange => "has a malformed range"@,
        }
    }

    /// What the fault is, in words.
    pub fn describe(self) -> (r: &'static str)
        ensures
            r@ == self.words(),
    {
        match self {
            PatternFault::MultipleKeywordRuns => "has more than one uppercase string in it",
            PatternFault::BraceMismatch => "has unequal numbers of { and }",
            PatternFault::IllegalCombination => "combines a keyword with what excludes it",
            PatternFault::TooManyRanges => "has more than three ranges",
            PatternFault::BadRange => "has a malformed range",
        }
    }
}

impl Marker {
    /// The word that introduces the marker's value in a body.
    pub open spec fn word(self) -> Seq<char> {
        match self {
            Marker::Exact => "exact"@,
            Marker::Cell => "cell"@,
        }
    }

    /// The word that introduces the marker's value in a body.
    pub fn name(self) -> (r: &'static str)
        ensures
            r@ == self.word(),
    {
        match self {
            Marker::Exact => "exact",
            Marker::Cell => "cell",
        }
    }
}

impl ErrorView {
    /// The diagnostic for the fault: it names the offending pattern.
    pub open spec fn diagnostic(self) -> Seq<char> {
        match self {
            ErrorView::MalformedPattern { pattern, fault } => "Illegal variable "@ + pattern
                + ", "@ + fault.words() + "."@,
            ErrorView::MissingResultMarker { pattern, marker } => "Variable "@ + pattern
                + " lacks the value of its "@ + marker.word() + " marker."@,
        }
    }
}

impl CompileError {
    /// The diagnostic for the fault: it names the offending pattern.
    pub fn message(&self) -> (r: String)
        ensures
            r@ == self@.diagnostic(),
    {
        let mut r = String::new();
        let ghost none = r@;
        match self {
            CompileError::MalformedPattern { pattern, fault } => {
                r.append("Illegal variable ");
                r.append(pattern.as_str());
                r.append(", ");
                r.append(fault.describe());
                r.append(".");
            },
            CompileError::MissingResultMarker { pattern, marker } => {
                r.append("Variable ");
                r.append(pattern.as_str());
                r.append(" lacks the value of its ");
                r.append(marker.name());
                r.append(" marker.");
            },
        }
        assert(r@ =~= none + self@.diagnostic());
        assert(r@ =~= self@.diagnostic());
        r
    }
}

/// The mathematical content of a `CompileError`.
pub ghost enum ErrorView {
    MalformedPattern { pattern: Seq<char>, fault: PatternFault },
    MissingResultMarker { pattern: Seq<char>, marker: Marker },
}

impl View for CompileError {
    type V = ErrorView;

    open spec fn view(&self) -> ErrorView {
        match self {
            CompileError::MalformedPattern { pattern, fault } => ErrorView::MalformedPattern {
                pattern: pattern@,
                fault: *fault,
            },
            CompileError::MissingResultMarker { pattern, marker } => ErrorView::MissingResultMarker {
                pattern: pattern@,
                marker: *marker,
            },
        }
    }
}

/// One entry of the catalog.
#[derive(Clone, Debug, PartialEq, Eq)]
pub struct Declaration {
    pub pattern: String,
    pub target_class: String,
    pub level: Level,
    pub body: String,
}

/// The mathematical content of a `Declaration`.
pub ghost struct DeclarationView {
    pub pattern: Seq<char>,
    pub target_class: Seq<char>,
    pub level: Level,
    pub body: Seq<char>,
}

impl View for Declaration {
    type V = DeclarationView;

    open spec fn view(&self) -> DeclarationView {
        DeclarationView {
            pattern: self.pattern@,
            target_class: self.target_class@,
            level: self.level,
            body: self.body@,
        }
    }
}

} // verus!
