//! Clause compiler: from the shape of a pattern to the tests of its match
//! predicate, the bindings that extract its values, and their text.
//!
//! The text is what the consumers compile, so part of its form is forced:
//!
//! * `after`, `between` and `between2` take strings, so a literal segment
//!   always stands between double quotes there; `starts_with`, `ends_with`
//!   and `contains` take a character as well, and a segment of one ASCII
//!   character is written as one where [`first_quoted`] and
//!   [`last_quoted`] say so.
//! * The middle segment of a range followed by a regular expression is
//!   written as a character only where it is one character: an empty or
//!   longer text between single quotes would not compile.
//! * The list lookups take a reference to a `String`, so what stands for
//!   `DATASET` or `NAME` is converted before it is looked up.
//! * The regular expression that is tested is the text that is bound: both
//!   are what follows the middle segment behind the first.
//! * With two or three ranges every range but the last is read with
//!   `between`, up to the first occurrence of the segment behind it, and
//!   the last with `between2`, up to the segment that closes the name.
//!   Read with `between2`, a range before the last would reach past the
//!   segment behind it; read with `between`, the last would be empty
//!   wherever nothing follows it.
//! * Every range has its parse test, also the second of three.
//!
//! The predicate of a pattern is the same for both target classes. The
//! lookup for `BC` names `alt_bcs`, which the fixed text binds for the
//! per-clonotype processor only; the info fields are reached through `ctl`
//! in both.
//!
//! Nothing in a literal segment is escaped: a segment with a quote or a
//! backslash in it gives text that does not compile.
//!
//! With one range the suffix is tested on the whole name, and the range is
//! then read between the first segment and the last. Where the two overlap
//! in a name (pattern `ab{1..}b`, name `ab`) the emitted `between2` finds
//! no last segment behind the first and aborts; see
//! [`crate::meaning::overlapped`].

use crate::model::{Keyword, ParsedPattern, PatternView, RangeSlot};
use crate::number::{numeral, write_i64};
use crate::text::chars_of;
use vstd::prelude::*;

verus! {

/// One conjunct of a match predicate.
#[derive(Clone, Copy, Debug, PartialEq, Eq)]
pub enum Test {
    /// The name is the pattern's text.
    NameIs,
    /// The name is one of the alternate barcode fields.
    InAltBarcodes,
    /// The name is one of the declared info fields.
    InInfoFields,
    /// The name starts with the first literal segment.
    StartsWith,
    /// Past the segments before it, literal segment `k` occurs.
    Contains(usize),
    /// Past the segments before it, the name ends with the last literal
    /// segment.
    EndsWith,
    /// The name ends with the last literal segment.
    NameEndsWith,
    /// Between the first and the last literal segment, the middle one
    /// occurs.
    Encloses,
    /// What stands in range slot `i` is a signed 64-bit integer.
    Parses(usize),
    /// The integer in range slot `i` is at least the bound.
    AtLeast(usize, i64),
    /// The integer in range slot `i` is at most the bound.
    AtMost(usize, i64),
    /// What stands for the keyword holds no underscore.
    NoUnderscore,
    /// What stands for the keyword is a valid regular expression.
    Compiles,
    /// What stands for the keyword is the name of a dataset.
    IsDataset,
    /// What stands for the keyword is the name of a dataset, an origin, a
    /// donor or a tag.
    IsKnownName,
}

/// One extraction statement of a clause.
#[derive(Clone, Copy, Debug, PartialEq, Eq)]
pub enum Binding {
    /// The integer in range slot `i`, bound as `arg` followed by `i + 1`.
    Arg(usize),
    /// The compiled regular expression, bound as `reg`.
    Regex,
    /// The matched name, bound as `name`.
    Name,
    /// The matched dataset, bound as `dataset`.
    Dataset,
}

impl Test {
    /// Whether the test speaks of places that pattern `p` has.
    pub open spec fn fits(self, p: PatternView) -> bool {
        match self {
            Test::NameIs | Test::InAltBarcodes | Test::InInfoFields => true,
            Test::StartsWith | Test::EndsWith | Test::NameEndsWith => p.holes() >= 1,
            Test::Encloses => p.holes() == 2,
            Test::Contains(k) => 1 <= k < p.holes(),
            Test::Parses(i) | Test::AtLeast(i, _) | Test::AtMost(i, _) => i < p.slots.len(),
            Test::NoUnderscore | Test::Compiles | Test::IsDataset | Test::IsKnownName => p.holes()
                >= 1,
        }
    }
}

impl Binding {
    /// Whether the binding speaks of places that pattern `p` has.
    pub open spec fn fits(self, p: PatternView) -> bool {
        match self {
            Binding::Arg(i) => i < p.slots.len(),
            _ => p.holes() >= 1,
        }
    }
}

/// A text between quotes: single quotes where it is one ASCII character,
/// double quotes otherwise.
pub open spec fn quoted(s: Seq<char>) -> Seq<char> {
    if s.len() == 1 && (s[0] as u32) < 0x80 {
        "'"@ + s + "'"@
    } else {
        "\""@ + s + "\""@
    }
}

/// A text between double quotes.
pub open spec fn doubled(s: Seq<char>) -> Seq<char> {
    "\""@ + s + "\""@
}

/// A text between single quotes where it is one character, between double
/// quotes otherwise.
pub open spec fn char_quoted(s: Seq<char>) -> Seq<char> {
    if s.len() == 1 {
        "'"@ + s + "'"@
    } else {
        doubled(s)
    }
}

/// The first literal segment as the prefix test quotes it: by its length
/// where the pattern has no range or one range and no keyword, between
/// double quotes otherwise.
pub open spec fn first_quoted(p: PatternView) -> Seq<char> {
    if p.slots.len() == 0 || (p.slots.len() == 1 && p.keyword is Plain) {
        quoted(p.segments[0])
    } else {
        doubled(p.segments[0])
    }
}

/// The last literal segment as the suffix test quotes it: between double
/// quotes where the pattern has two ranges or a range and a keyword, by its
/// length otherwise.
pub open spec fn last_quoted(p: PatternView) -> Seq<char> {
    if p.slots.len() == 2 || (p.slots.len() == 1 && p.keyword is Rega) {
        doubled(p.segments[p.holes()])
    } else {
        quoted(p.segments[p.holes()])
    }
}

/// The expression for what is left of the name once the first `k` literal
/// segments, and what stands before each, are passed.
pub open spec fn cursor(segments: Seq<Seq<char>>, k: int) -> Seq<char>
    decreases k,
{
    if k <= 0 {
        "vname"@
    } else {
        cursor(segments, k - 1) + ".after(\""@ + segments[k - 1] + "\")"@
    }
}

/// The expression for what stands in placeholder `k`: up to the first
/// occurrence of the next literal segment, and for the last placeholder up
/// to the last occurrence.
pub open spec fn interior(p: PatternView, k: int) -> Seq<char> {
    cursor(p.segments, k) + if k + 1 == p.holes() {
        ".between2(\""@
    } else {
        ".between(\""@
    } + p.segments[k] + "\", \""@ + p.segments[k + 1] + "\")"@
}

/// The expression text of one test.
pub open spec fn test_text(p: PatternView, t: Test) -> Seq<char> {
    match t {
        Test::NameIs => "vname == \""@ + p.segments[0] + "\""@,
        Test::InAltBarcodes => "bin_member(alt_bcs, var)"@,
        Test::InInfoFields => "bin_member(&ctl.gen_opt.info_fields, var)"@,
        Test::StartsWith => "vname.starts_with("@ + first_quoted(p) + ")"@,
        Test::Contains(k) => cursor(p.segments, k as int) + ".contains("@ + quoted(
            p.segments[k as int],
        ) + ")"@,
        Test::EndsWith => cursor(p.segments, p.holes()) + ".ends_with("@ + last_quoted(p) + ")"@,
        Test::NameEndsWith => "vname.ends_with("@ + last_quoted(p) + ")"@,
        Test::Encloses => "vname.between2(\""@ + p.segments[0] + "\", \""@ + p.segments[p.holes()]
            + "\").contains("@ + char_quoted(p.segments[1]) + ")"@,
        Test::Parses(i) => interior(p, i as int) + ".parse::<i64>().is_ok()"@,
        Test::AtLeast(i, v) => interior(p, i as int) + ".force_i64() >= "@ + numeral(v as int),
        Test::AtMost(i, v) => interior(p, i as int) + ".force_i64() <= "@ + numeral(v as int),
        Test::NoUnderscore => "!"@ + interior(p, p.holes() - 1) + ".contains('_')"@,
        Test::Compiles => "Regex::new("@ + interior(p, p.holes() - 1) + ").is_ok()"@,
        Test::IsDataset => "bin_member(&ctl.origin_info.dataset_list, \n                        &"@
            + interior(p, p.holes() - 1) + ".to_string())"@,
        Test::IsKnownName => "( bin_member(&ctl.origin_info.dataset_list, \n                        &"@
            + interior(p, p.holes() - 1)
            + ".to_string())\n                        || bin_member(&ctl.origin_info.origin_list, \n                        &"@
            + interior(p, p.holes() - 1)
            + ".to_string())\n                        || bin_member(&ctl.origin_info.donor_list, \n                        &"@
            + interior(p, p.holes() - 1)
            + ".to_string())\n                        || bin_member(&ctl.origin_info.tag_list, \n                        &"@
            + interior(p, p.holes() - 1) + ".to_string()) \n                       )"@,
    }
}

/// The statement text of one binding.
pub open spec fn binding_text(p: PatternView, b: Binding) -> Seq<char> {
    match b {
        Binding::Arg(i) => "let arg"@ + numeral(i + 1) + " = "@ + interior(p, i as int)
            + ".force_i64();"@,
        Binding::Regex => "let reg = Regex::new("@ + interior(p, p.holes() - 1) + ").unwrap();"@,
        Binding::Name => "let name = "@ + interior(p, p.holes() - 1) + ";"@,
        Binding::Dataset => "let dataset = "@ + interior(p, p.holes() - 1) + ";"@,
    }
}

/// The tests of one range slot: that it parses, then each bound that the
/// slot states.
pub open spec fn slot_tests(i: int, slot: RangeSlot) -> Seq<Test> {
    seq![Test::Parses(i as usize)] + match slot.lower {
        Some(v) => seq![Test::AtLeast(i as usize, v)],
        None => Seq::empty(),
    } + match slot.upper {
        Some(v) => seq![Test::AtMost(i as usize, v)],
        None => Seq::empty(),
    }
}

/// The tests of the first `n` range slots, slot by slot.
pub open spec fn range_tests(slots: Seq<RangeSlot>, n: int) -> Seq<Test>
    decreases n,
{
    if n <= 0 {
        Seq::empty()
    } else {
        range_tests(slots, n - 1) + slot_tests(n - 1, slots[n - 1])
    }
}

/// The tests that a capturing keyword adds.
pub open spec fn keyword_tests(keyword: Keyword) -> Seq<Test> {
    match keyword {
        Keyword::Rega => seq![Test::NoUnderscore, Test::Compiles],
        Keyword::Dataset => seq![Test::IsDataset],
        Keyword::Name => seq![Test::IsKnownName],
        _ => Seq::empty(),
    }
}

/// The tests that every literal segment past the first and before the
/// last occurs: `Contains(1)` up to `Contains(n)`.
pub open spec fn separator_tests(n: int) -> Seq<Test> {
    Seq::new(
        if n > 0 {
            n as nat
        } else {
            0nat
        },
        |k: int| Test::Contains((k + 1) as usize),
    )
}

/// The tests on the literal segments of a pattern with placeholders. With
/// one range the suffix is looked for in the whole name, and a keyword
/// behind the range adds that the middle segment stands between the other
/// two; otherwise each segment is looked for behind the one before it.
pub open spec fn front_tests(p: PatternView) -> Seq<Test> {
    if p.slots.len() == 1 {
        if p.keyword is Rega {
            seq![Test::StartsWith, Test::NameEndsWith, Test::Encloses]
        } else {
            seq![Test::StartsWith, Test::NameEndsWith]
        }
    } else {
        seq![Test::StartsWith] + separator_tests(p.holes() - 1) + seq![Test::EndsWith]
    }
}

/// The conjuncts of the match predicate of pattern `p`, in order.
pub open spec fn tests_of(p: PatternView) -> Seq<Test> {
    if p.holes() == 0 {
        match p.keyword {
            Keyword::Bc => seq![Test::InAltBarcodes],
            Keyword::Info => seq![Test::InInfoFields],
            _ => seq![Test::NameIs],
        }
    } else {
        front_tests(p) + range_tests(p.slots, p.slots.len() as int) + keyword_tests(p.keyword)
    }
}

/// The bindings of pattern `p`, in the order in which the placeholders
/// stand.
pub open spec fn bindings_of(p: PatternView) -> Seq<Binding> {
    Seq::new(p.slots.len(), |i: int| Binding::Arg(i as usize)) + match p.keyword {
        Keyword::Rega => seq![Binding::Regex],
        Keyword::Dataset => seq![Binding::Dataset],
        Keyword::Name => seq![Binding::Name],
        _ => Seq::empty(),
    }
}

/// The texts, joined by `sep`.
pub open spec fn join_all(parts: Seq<Seq<char>>, sep: Seq<char>) -> Seq<char>
    decreases parts.len(),
{
    if parts.len() == 0 {
        Seq::empty()
    } else if parts.len() == 1 {
        parts[0]
    } else {
        join_all(parts.drop_last(), sep) + sep + parts.last()
    }
}

/// The texts, each followed by a line break.
pub open spec fn lines_text(parts: Seq<Seq<char>>) -> Seq<char>
    decreases parts.len(),
{
    if parts.len() == 0 {
        Seq::empty()
    } else {
        lines_text(parts.drop_last()) + parts.last() + "\n"@
    }
}

/// What stands between two tests of a predicate: `&&`, at the start of a
/// line of its own where the pattern has no range.
pub open spec fn conjunction(p: PatternView) -> Seq<char> {
    if p.slots.len() == 0 {
        "\n                    && "@
    } else {
        " && "@
    }
}

/// The expression text of the whole predicate: the tests joined by `&&`.
pub open spec fn predicate_text(p: PatternView, tests: Seq<Test>) -> Seq<char> {
    join_all(Seq::new(tests.len(), |i: int| test_text(p, tests[i])), conjunction(p))
}

/// The statement texts of the bindings.
pub open spec fn binding_texts(p: PatternView, bindings: Seq<Binding>) -> Seq<Seq<char>> {
    Seq::new(bindings.len(), |i: int| binding_text(p, bindings[i]))
}

/// The branch that opens a clause: the predicate, the opening brace, with
/// a blank behind it where the pattern has a range, and one line for each
/// binding.
pub open spec fn head_text(ranged: bool, predicate: Seq<char>, bindings: Seq<Seq<char>>) -> Seq<
    char,
> {
    "} else if "@ + predicate + if ranged {
        " { \n"@
    } else {
        " {\n"@
    } + lines_text(bindings)
}

/// Puts `s` between quotes: single quotes where it is one ASCII character,
/// double quotes otherwise.
pub fn quote_str_or_char(s: &str) -> (r: String)
    ensures
        r@ == quoted(s@),
{
    let v = chars_of(s);
    let mut r = String::new();
    assert(r@ + "'"@ =~= "'"@);
    assert(r@ + "\""@ =~= "\""@);
    if v.len() == 1 && (v[0] as u32) < 0x80 {
        r.append("'");
        r.append(s);
        r.append("'");
    } else {
        r.append("\"");
        r.append(s);
        r.append("\"");
    }
    r
}

/// Puts `s` between double quotes.
pub fn double_quote(s: &str) -> (r: String)
    ensures
        r@ == doubled(s@),
{
    let mut r = String::new();
    assert(r@ + "\""@ =~= "\""@);
    r.append("\"");
    r.append(s);
    r.append("\"");
    r
}

/// Puts `s` between single quotes where it is one character, between
/// double quotes otherwise.
pub fn quote_char_or_str(s: &str) -> (r: String)
    ensures
        r@ == char_quoted(s@),
{
    if s.unicode_len() == 1 {
        let mut r = String::new();
        assert(r@ + "'"@ =~= "'"@);
        r.append("'");
        r.append(s);
        r.append("'");
        r
    } else {
        double_quote(s)
    }
}

fn quote_first(p: &ParsedPattern) -> (r: String)
    requires
        p.wf(),
    ensures
        r@ == first_quoted(p@),
{
    if p.slots.len() == 0 || (p.slots.len() == 1 && matches!(p.keyword, Keyword::Plain)) {
        quote_str_or_char(p.segments[0].as_str())
    } else {
        double_quote(p.segments[0].as_str())
    }
}

fn quote_last(p: &ParsedPattern) -> (r: String)
    requires
        p.wf(),
    ensures
        r@ == last_quoted(p@),
{
    let h = holes_of(p);
    if p.slots.len() == 2 || (p.slots.len() == 1 && matches!(p.keyword, Keyword::Rega)) {
        double_quote(p.segments[h].as_str())
    } else {
        quote_str_or_char(p.segments[h].as_str())
    }
}

fn holes_of(p: &ParsedPattern) -> (h: usize)
    requires
        p.wf(),
    ensures
        h == p@.holes(),
        h + 1 == p.segments.len(),
{
    if p.keyword.takes_text() {
        p.slots.len() + 1
    } else {
        p.slots.len()
    }
}

fn write_cursor(out: &mut String, p: &ParsedPattern, k: usize)
    requires
        k <= p.segments.len(),
    ensures
        final(out)@ == old(out)@ + cursor(p@.segments, k as int),
{
    let ghost base = out@;
    out.append("vname");
    let mut j: usize = 0;
    while j < k
        invariant
            j <= k <= p.segments.len(),
            out@ == base + cursor(p@.segments, j as int),
        decreases k - j,
    {
        let ghost before = out@;
        out.append(".after(\"");
        out.append(p.segments[j].as_str());
        out.append("\")");
        j += 1;
        assert(out@ =~= base + cursor(p@.segments, j as int));
    }
}

fn write_interior(out: &mut String, p: &ParsedPattern, k: usize)
    requires
        p.wf(),
        k < p@.holes(),
    ensures
        final(out)@ == old(out)@ + interior(p@, k as int),
{
    let ghost base = out@;
    let h = holes_of(p);
    write_cursor(out, p, k);
    if k + 1 == h {
        out.append(".between2(\"");
    } else {
        out.append(".between(\"");
    }
    out.append(p.segments[k].as_str());
    out.append("\", \"");
    out.append(p.segments[k + 1].as_str());
    out.append("\")");
    assert(out@ =~= base + interior(p@, k as int));
}

/// The expression text of test `t` of pattern `p`.
pub fn render_test(p: &ParsedPattern, t: Test) -> (r: String)
    requires
        p.wf(),
        t.fits(p@),
    ensures
        r@ == test_text(p@, t),
{
    let mut r = String::new();
    let ghost none = r@;
    let h = holes_of(p);
    match t {
        Test::NameIs => {
            r.append("vname == \"");
            r.append(p.segments[0].as_str());
            r.append("\"");
        },
        Test::InAltBarcodes => {
            r.append("bin_member(alt_bcs, var)");
        },
        Test::InInfoFields => {
            r.append("bin_member(&ctl.gen_opt.info_fields, var)");
        },
        Test::StartsWith => {
            r.append("vname.starts_with(");
            let q = quote_first(p);
            r.append(q.as_str());
            r.append(")");
        },
        Test::Contains(k) => {
            write_cursor(&mut r, p, k);
            r.append(".contains(");
            let q = quote_str_or_char(p.segments[k].as_str());
            r.append(q.as_str());
            r.append(")");
        },
        Test::EndsWith => {
            write_cursor(&mut r, p, h);
            r.append(".ends_with(");
            let q = quote_last(p);
            r.append(q.as_str());
            r.append(")");
        },
        Test::NameEndsWith => {
            r.append("vname.ends_with(");
            let q = quote_last(p);
            r.append(q.as_str());
            r.append(")");
        },
        Test::Encloses => {
            r.append("vname.between2(\"");
            r.append(p.segments[0].as_str());
            r.append("\", \"");
            r.append(p.segments[h].as_str());
            r.append("\").contains(");
            let q = quote_char_or_str(p.segments[1].as_str());
            r.append(q.as_str());
            r.append(")");
        },
        Test::Parses(i) => {
            write_interior(&mut r, p, i);
            r.append(".parse::<i64>().is_ok()");
        },
        Test::AtLeast(i, v) => {
            write_interior(&mut r, p, i);
            r.append(".force_i64() >= ");
            write_i64(&mut r, v);
        },
        Test::AtMost(i, v) => {
            write_interior(&mut r, p, i);
            r.append(".force_i64() <= ");
            write_i64(&mut r, v);
        },
        Test::NoUnderscore => {
            r.append("!");
            write_interior(&mut r, p, h - 1);
            r.append(".contains('_')");
        },
        Test::Compiles => {
            r.append("Regex::new(");
            write_interior(&mut r, p, h - 1);
            r.append(").is_ok()");
        },
        Test::IsDataset => {
            r.append("bin_member(&ctl.origin_info.dataset_list, \n                        &");
            write_interior(&mut r, p, h - 1);
            r.append(".to_string())");
        },
        Test::IsKnownName => {
            r.append("( bin_member(&ctl.origin_info.dataset_list, \n                        &");
            write_interior(&mut r, p, h - 1);
            r.append(
                ".to_string())\n                        || bin_member(&ctl.origin_info.origin_list, \n                        &",
            );
            write_interior(&mut r, p, h - 1);
            r.append(
                ".to_string())\n                        || bin_member(&ctl.origin_info.donor_list, \n                        &",
            );
            write_interior(&mut r, p, h - 1);
            r.append(
                ".to_string())\n                        || bin_member(&ctl.origin_info.tag_list, \n                        &",
            );
            write_interior(&mut r, p, h - 1);
            r.append(".to_string()) \n                       )");
        },
    }
    assert(r@ =~= none + test_text(p@, t));
    assert(r@ =~= test_text(p@, t));
    r
}

/// The statement text of binding `b` of pattern `p`.
pub fn render_binding(p: &ParsedPattern, b: Binding) -> (r: String)
    requires
        p.wf(),
        b.fits(p@),
    ensures
        r@ == binding_text(p@, b),
{
    let mut r = String::new();
    let ghost none = r@;
    let h = holes_of(p);
    match b {
        Binding::Arg(i) => {
            r.append("let arg");
            write_i64(&mut r, (i + 1) as i64);
            r.append(" = ");
            write_interior(&mut r, p, i);
            r.append(".force_i64();");
        },
        Binding::Regex => {
            r.append("let reg = Regex::new(");
            write_interior(&mut r, p, h - 1);
            r.append(").unwrap();");
        },
        Binding::Name => {
            r.append("let name = ");
            write_interior(&mut r, p, h - 1);
            r.append(";");
        },
        Binding::Dataset => {
            r.append("let dataset = ");
            write_interior(&mut r, p, h - 1);
            r.append(";");
        },
    }
    assert(r@ =~= none + binding_text(p@, b));
    assert(r@ =~= binding_text(p@, b));
    r
}

} // verus!
