//! Body integrator: takes the result markers off a declaration's body and
//! splices predicate, bindings, body and result into compiled clauses.

use crate::classify::classification;
use crate::clause::{
    binding_texts, bindings_of, head_text, lines_text, predicate_text, tests_of,
    Test,
};
use crate::compile::{
    bindings_for, parse_pattern, render_bindings, render_predicate, tests_for, write_head,
};
use crate::model::{
    CompileError, Declaration, DeclarationView, ErrorView, Level, Marker,
    ParsedPattern, PatternView, TargetClass,
};
use crate::text::{
    chars_of, contains_text, find_from, find_text, lemma_seek, seek, seek_class, slice_of,
    string_of, texts, views, CharClass,
};
use vstd::prelude::*;

verus! {

/// The lines of `s` from `pos` on. A line ends at a line feed, and a
/// carriage return just before that line feed is no part of the line; a
/// last line need not end in a line feed.
pub open spec fn lines_from(s: Seq<char>, pos: int) -> Seq<Seq<char>>
    decreases s.len() + 1 - pos,
{
    if pos < 0 || pos >= s.len() {
        Seq::empty()
    } else {
        let end = seek(s, pos, CharClass::Newline);
        proof {
            lemma_seek(s, pos, CharClass::Newline);
        }
        seq![line_between(s, pos, end)] + lines_from(s, end + 1)
    }
}

/// The line that starts at `pos` and whose line feed, if it has one, is at
/// `end`.
pub open spec fn line_between(s: Seq<char>, pos: int, end: int) -> Seq<char> {
    if end < s.len() && pos < end && s[end - 1] == '\r' {
        s.subrange(pos, end - 1)
    } else {
        s.subrange(pos, end)
    }
}

/// The text that introduces a marker's value.
pub open spec fn marker_text(marker: Marker) -> Seq<char> {
    match marker {
        Marker::Exact => seq!['e', 'x', 'a', 'c', 't', ':', ' '],
        Marker::Cell => seq!['c', 'e', 'l', 'l', ':', ' '],
    }
}

/// The marker that a line carries: `exact: ` wherever it occurs in the
/// line, else `cell: `.
pub open spec fn marks(line: Seq<char>) -> Option<Marker> {
    if contains_text(line, marker_text(Marker::Exact)) {
        Some(Marker::Exact)
    } else if contains_text(line, marker_text(Marker::Cell)) {
        Some(Marker::Cell)
    } else {
        None
    }
}

/// What follows the first occurrence of the marker in the line.
pub open spec fn marker_value(line: Seq<char>, marker: Marker) -> Seq<char> {
    match find_from(line, marker_text(marker), 0) {
        Some(i) => line.subrange(i + marker_text(marker).len(), line.len() as int),
        None => Seq::empty(),
    }
}

/// The last of the first `n` lines that carries `marker`.
pub open spec fn last_marked(lines: Seq<Seq<char>>, marker: Marker, n: int) -> Option<int>
    decreases n,
{
    if n <= 0 {
        None
    } else if marks(lines[n - 1]) == Some(marker) {
        Some(n - 1)
    } else {
        last_marked(lines, marker, n - 1)
    }
}

/// The first `n` lines without the two at `skip_a` and `skip_b`.
pub open spec fn kept_lines(
    lines: Seq<Seq<char>>,
    skip_a: Option<int>,
    skip_b: Option<int>,
    n: int,
) -> Seq<Seq<char>>
    decreases n,
{
    if n <= 0 {
        Seq::empty()
    } else if skip_a == Some(n - 1) || skip_b == Some(n - 1) {
        kept_lines(lines, skip_a, skip_b, n - 1)
    } else {
        kept_lines(lines, skip_a, skip_b, n - 1).push(lines[n - 1])
    }
}

/// A body without its result markers, and the two result expressions.
#[derive(Clone, Debug, PartialEq, Eq)]
pub struct ReturnLines {
    pub code: String,
    pub exact: String,
    pub cell: String,
}

/// The mathematical content of `ReturnLines`.
pub ghost struct ReturnView {
    pub code: Seq<char>,
    pub exact: Seq<char>,
    pub cell: Seq<char>,
}

impl View for ReturnLines {
    type V = ReturnView;

    open spec fn view(&self) -> ReturnView {
        ReturnView { code: self.code@, exact: self.exact@, cell: self.cell@ }
    }
}

/// The value that the last line carrying `marker` states, if a line
/// carries it.
pub open spec fn stated(lines: Seq<Seq<char>>, marker: Marker) -> Option<Seq<char>> {
    match last_marked(lines, marker, lines.len() as int) {
        Some(i) => Some(marker_value(lines[i], marker)),
        None => None,
    }
}

/// A marker's value is missing where no line carries the marker or where
/// nothing follows it.
pub open spec fn missing(lines: Seq<Seq<char>>, marker: Marker) -> bool {
    match stated(lines, marker) {
        Some(value) => value.len() == 0,
        None => true,
    }
}

/// The result of taking the markers off `body` for a declaration of
/// `level`: the remaining lines, each closed by a line feed, and the two
/// result expressions, an unstated one being the empty value of its kind;
/// or the first marker that the level requires and the body lacks.
pub open spec fn return_lines(body: Seq<char>, level: Level) -> Result<ReturnView, Marker> {
    let lines = lines_from(body, 0);
    if level.requires_marker(Marker::Exact) && missing(lines, Marker::Exact) {
        Err(Marker::Exact)
    } else if level.requires_marker(Marker::Cell) && missing(lines, Marker::Cell) {
        Err(Marker::Cell)
    } else {
        Ok(
            ReturnView {
                code: lines_text(
                    kept_lines(
                        lines,
                        last_marked(lines, Marker::Exact, lines.len() as int),
                        last_marked(lines, Marker::Cell, lines.len() as int),
                        lines.len() as int,
                    ),
                ),
                exact: match stated(lines, Marker::Exact) {
                    Some(value) => value,
                    None => "String::new()"@,
                },
                cell: match stated(lines, Marker::Cell) {
                    Some(value) => value,
                    None => "Vec::new()"@,
                },
            },
        )
    }
}

fn split_lines(s: &Vec<char>) -> (lines: Vec<Vec<char>>)
    ensures
        texts(lines@) == lines_from(s@, 0),
{
    let mut lines: Vec<Vec<char>> = Vec::new();
    let mut pos: usize = 0;
    assert(texts(lines@) + lines_from(s@, 0) =~= lines_from(s@, 0));
    while pos < s.len()
        invariant
            lines_from(s@, 0) == texts(lines@) + lines_from(s@, pos as int),
        decreases s.len() - pos,
    {
        let ghost before = texts(lines@);
        let end = seek_class(s, pos, CharClass::Newline);
        let stop: usize = if end < s.len() && pos < end && s[end - 1] == '\r' {
            end - 1
        } else {
            end
        };
        lines.push(slice_of(s, pos, stop));
        proof {
            let line = line_between(s@, pos as int, end as int);
            assert(texts(lines@) =~= before.push(line));
            assert(before + (seq![line] + lines_from(s@, end + 1)) =~= before.push(line)
                + lines_from(s@, end + 1));
        }
        if end >= s.len() {
            assert(lines_from(s@, end + 1) =~= Seq::<Seq<char>>::empty());
            assert(texts(lines@) + lines_from(s@, end + 1) =~= texts(lines@));
            return lines;
        }
        pos = end + 1;
    }
    assert(texts(lines@) + lines_from(s@, pos as int) =~= texts(lines@));
    lines
}

fn marker_chars(marker: Marker) -> (r: Vec<char>)
    ensures
        r@ == marker_text(marker),
{
    match marker {
        Marker::Exact => vec!['e', 'x', 'a', 'c', 't', ':', ' '],
        Marker::Cell => vec!['c', 'e', 'l', 'l', ':', ' '],
    }
}

fn marker_of(line: &Vec<char>) -> (r: Option<Marker>)
    ensures
        r == marks(line@),
{
    if find_text(line, &marker_chars(Marker::Exact), 0).is_some() {
        Some(Marker::Exact)
    } else if find_text(line, &marker_chars(Marker::Cell), 0).is_some() {
        Some(Marker::Cell)
    } else {
        None
    }
}

fn find_last_marked(lines: &Vec<Vec<char>>, marker: Marker) -> (r: Option<usize>)
    ensures
        match r {
            Some(i) => last_marked(texts(lines@), marker, lines.len() as int) == Some(i as int)
                && i < lines.len() && marks(lines@[i as int]@) == Some(marker),
            None => last_marked(texts(lines@), marker, lines.len() as int) is None,
        },
{
    let mut n: usize = lines.len();
    while n > 0
        invariant
            n <= lines.len(),
            last_marked(texts(lines@), marker, lines.len() as int) == last_marked(
                texts(lines@),
                marker,
                n as int,
            ),
        decreases n,
    {
        let found = marker_of(&lines[n - 1]);
        let hit = match (found, marker) {
            (Some(Marker::Exact), Marker::Exact) => true,
            (Some(Marker::Cell), Marker::Cell) => true,
            _ => false,
        };
        if hit {
            return Some(n - 1);
        }
        n -= 1;
    }
    None
}

fn value_after(line: &Vec<char>, marker: Marker) -> (r: String)
    ensures
        r@ == marker_value(line@, marker),
{
    let word = marker_chars(marker);
    match find_text(line, &word, 0) {
        Some(i) => string_of(line, i + word.len(), line.len()),
        None => String::new(),
    }
}

fn same_index(skip: Option<usize>, i: usize) -> (r: bool)
    ensures
        r == (skip == Some(i)),
{
    match skip {
        Some(k) => k == i,
        None => false,
    }
}

/// A position as a mathematical integer.
pub open spec fn position_of(at: Option<usize>) -> Option<int> {
    match at {
        Some(k) => Some(k as int),
        None => None,
    }
}

fn write_kept(lines: &Vec<Vec<char>>, skip_a: Option<usize>, skip_b: Option<usize>) -> (r: String)
    ensures
        r@ == lines_text(
            kept_lines(texts(lines@), position_of(skip_a), position_of(skip_b), lines.len() as int),
        ),
{
    let ghost a = position_of(skip_a);
    let ghost b = position_of(skip_b);
    let mut r = String::new();
    let mut i: usize = 0;
    while i < lines.len()
        invariant
            i <= lines.len(),
            a == position_of(skip_a),
            b == position_of(skip_b),
            r@ == lines_text(kept_lines(texts(lines@), a, b, i as int)),
        decreases lines.len() - i,
    {
        if !same_index(skip_a, i) && !same_index(skip_b, i) {
            let ghost before = kept_lines(texts(lines@), a, b, i as int);
            let line = &lines[i];
            let text = string_of(line, 0, line.len());
            assert(line@.subrange(0, line.len() as int) =~= line@);
            r.append(text.as_str());
            r.append("\n");
            assert(before.push(line@).drop_last() =~= before);
        }
        i += 1;
    }
    r
}

/// Finds the last line of `code` that states the exact value and the last
/// that states the per-cell value, takes those lines out, and hands back
/// what is left with the two values. Fails with the marker whose value the
/// level requires and the body does not state.
pub fn parse_value_return_lines(code: &str, level: Level) -> (r: Result<ReturnLines, Marker>)
    ensures
        match r {
            Ok(found) => return_lines(code@, level) == Ok::<ReturnView, Marker>(found@),
            Err(marker) => return_lines(code@, level) == Err::<ReturnView, Marker>(marker),
        },
{
    let s = chars_of(code);
    let lines = split_lines(&s);
    let exact_at = find_last_marked(&lines, Marker::Exact);
    let cell_at = find_last_marked(&lines, Marker::Cell);
    let exact = match exact_at {
        Some(i) => Some(value_after(&lines[i], Marker::Exact)),
        None => None,
    };
    let cell = match cell_at {
        Some(i) => Some(value_after(&lines[i], Marker::Cell)),
        None => None,
    };
    let exact_missing = match &exact {
        Some(value) => value.as_str().unicode_len() == 0,
        None => true,
    };
    let cell_missing = match &cell {
        Some(value) => value.as_str().unicode_len() == 0,
        None => true,
    };
    if matches!(level, Level::CellExact) && exact_missing {
        return Err(Marker::Exact);
    }
    if matches!(level, Level::CellExact | Level::Cell) && cell_missing {
        return Err(Marker::Cell);
    }
    let code = write_kept(&lines, exact_at, cell_at);
    let exact = match exact {
        Some(value) => value,
        None => String::from_str("String::new()"),
    };
    let cell = match cell {
        Some(value) => value,
        None => String::from_str("Vec::new()"),
    };
    Ok(ReturnLines { code, exact, cell })
}

/// One compiled branch: the shape it tests for, the predicate as tests and
/// as text, the binding statements, and the body with its result.
#[derive(Clone, Debug, PartialEq, Eq)]
pub struct CompiledClause {
    pub shape: ParsedPattern,
    pub tests: Vec<Test>,
    pub match_predicate: String,
    pub bindings: Vec<String>,
    pub body: String,
    pub level: Level,
}

/// The mathematical content of a `CompiledClause`.
pub ghost struct ClauseView {
    pub shape: PatternView,
    pub tests: Seq<Test>,
    pub match_predicate: Seq<char>,
    pub bindings: Seq<Seq<char>>,
    pub body: Seq<char>,
    pub level: Level,
}

impl ClauseView {
    /// Tests, predicate and bindings are those of the shape.
    pub open spec fn wf(self) -> bool {
        &&& self.shape.wf()
        &&& self.tests == tests_of(self.shape)
        &&& self.match_predicate == predicate_text(self.shape, self.tests)
        &&& self.bindings == binding_texts(self.shape, bindings_of(self.shape))
    }

    /// The text of the clause: the branch that opens it, then its body.
    pub open spec fn text(self) -> Seq<char> {
        head_text(self.shape.slots.len() > 0, self.match_predicate, self.bindings) + self.body
    }
}

impl View for CompiledClause {
    type V = ClauseView;

    open spec fn view(&self) -> ClauseView {
        ClauseView {
            shape: self.shape@,
            tests: self.tests@,
            match_predicate: self.match_predicate@,
            bindings: views(self.bindings@),
            body: self.body@,
            level: self.level,
        }
    }
}

impl CompiledClause {
    /// Tests, predicate and bindings are those of the shape.
    pub open spec fn wf(&self) -> bool {
        self@.wf()
    }

    /// Appends the text of the clause.
    pub fn write(&self, out: &mut String)
        ensures
            final(out)@ == old(out)@ + self@.text(),
    {
        let ghost base = out@;
        write_head(out, self.shape.slots.len() > 0, self.match_predicate.as_str(), &self.bindings);
        out.append(self.body.as_str());
        assert(out@ =~= base + self@.text());
    }
}

/// The literal that closes a clause: the two result expressions and the
/// level's tag.
pub open spec fn result_tuple(first: Seq<char>, cell: Seq<char>, level: Level) -> Seq<char> {
    "("@ + first + ", "@ + cell + ", \""@ + level.tag_text() + "\".to_string())"@
}

/// The body of a clause under the declaration's own name: the stripped
/// code, then the result.
pub open spec fn base_body(found: ReturnView, level: Level) -> Seq<char> {
    found.code + "\n"@ + result_tuple(found.exact, found.cell, level) + "\n"@
}

/// The body of the per-cell clause of a declaration that yields both
/// values: the exact expression is still evaluated, and the result holds
/// an empty exact value.
pub open spec fn cell_body(found: ReturnView, level: Level) -> Seq<char> {
    found.code + "\n"@ + "let _exact = "@ + found.exact + ";\n"@ + result_tuple(
        "String::new()"@,
        found.cell,
        level,
    ) + "\n"@
}

/// The clause for pattern text `var` with the given body, or the fault in
/// the pattern. The class makes no difference to it.
pub open spec fn compiled(var: Seq<char>, class: TargetClass, body: Seq<char>, level: Level)
    -> Result<ClauseView, ErrorView> {
    match classification(var) {
        Err(fault) => Err(ErrorView::MalformedPattern { pattern: var, fault }),
        Ok(p) => Ok(
            ClauseView {
                shape: p,
                tests: tests_of(p),
                match_predicate: predicate_text(p, tests_of(p)),
                bindings: binding_texts(p, bindings_of(p)),
                body,
                level,
            },
        ),
    }
}

/// The suffix of the name under which a declaration that yields both
/// values is compiled a second time.
pub open spec fn cell_suffix() -> Seq<char> {
    "_cell"@
}

/// The clauses of a declaration whose markers are taken off: one under
/// its own name and, where it yields both values, a second one under the
/// suffixed name.
pub open spec fn passes(d: DeclarationView, found: ReturnView, class: TargetClass) -> Result<
    Seq<ClauseView>,
    ErrorView,
> {
    match compiled(d.pattern, class, base_body(found, d.level), d.level) {
        Err(e) => Err(e),
        Ok(first) => if d.level is CellExact {
            match compiled(
                d.pattern + cell_suffix(),
                class,
                cell_body(found, d.level),
                d.level,
            ) {
                Err(e) => Err(e),
                Ok(second) => Ok(seq![first, second]),
            }
        } else {
            Ok(seq![first])
        },
    }
}

/// The clauses of a declaration, or the first fault: a missing marker
/// comes before a malformed pattern.
pub open spec fn clauses_of(d: DeclarationView, class: TargetClass) -> Result<
    Seq<ClauseView>,
    ErrorView,
> {
    match return_lines(d.body, d.level) {
        Err(marker) => Err(ErrorView::MissingResultMarker { pattern: d.pattern, marker }),
        Ok(found) => passes(d, found, class),
    }
}

/// The views of a list of clauses.
pub open spec fn clause_views(clauses: Seq<CompiledClause>) -> Seq<ClauseView> {
    Seq::new(clauses.len(), |i: int| clauses[i]@)
}

fn write_result_tuple(out: &mut String, first: &str, cell: &str, level: Level)
    ensures
        final(out)@ == old(out)@ + result_tuple(first@, cell@, level),
{
    let ghost base = out@;
    out.append("(");
    out.append(first);
    out.append(", ");
    out.append(cell);
    out.append(", \"");
    out.append(level.tag());
    out.append("\".to_string())");
    assert(out@ =~= base + result_tuple(first@, cell@, level));
}

/// Compiles the clause for pattern text `var` and gives it `body`.
pub fn compile_clause(var: &str, class: TargetClass, body: String, level: Level) -> (r: Result<
    CompiledClause,
    CompileError,
>)
    ensures
        match r {
            Ok(c) => compiled(var@, class, body@, level) == Ok::<ClauseView, ErrorView>(c@)
                && c.wf(),
            Err(e) => compiled(var@, class, body@, level) == Err::<ClauseView, ErrorView>(e@),
        },
{
    let shape = match parse_pattern(var, class) {
        Ok(p) => p,
        Err(e) => {
            return Err(e);
        },
    };
    let tests = tests_for(&shape);
    let kinds = bindings_for(&shape);
    let match_predicate = render_predicate(&shape, &tests);
    let bindings = render_bindings(&shape, &kinds);
    Ok(CompiledClause { shape, tests, match_predicate, bindings, body, level })
}

/// Compiles the clauses of declaration `v`, whose body gave `found`: one
/// under the declaration's name and, for a declaration that yields both an
/// exact and a per-cell value, one more under the name with `_cell` behind
/// it.
pub fn process_var(v: &Declaration, found: &ReturnLines, class: TargetClass) -> (r: Result<
    Vec<CompiledClause>,
    CompileError,
>)
    ensures
        match r {
            Ok(clauses) => passes(v@, found@, class) == Ok::<Seq<ClauseView>, ErrorView>(
                clause_views(clauses@),
            ) && forall|i: int| 0 <= i < clauses.len() ==> (#[trigger] clauses[i]).wf(),
            Err(e) => passes(v@, found@, class) == Err::<Seq<ClauseView>, ErrorView>(e@),
        },
{
    let mut clauses: Vec<CompiledClause> = Vec::new();
    let mut body = String::new();
    let ghost none = body@;
    body.append(found.code.as_str());
    body.append("\n");
    write_result_tuple(&mut body, found.exact.as_str(), found.cell.as_str(), v.level);
    body.append("\n");
    assert(body@ =~= none + base_body(found@, v.level));
    assert(body@ =~= base_body(found@, v.level));
    let first = match compile_clause(v.pattern.as_str(), class, body, v.level) {
        Ok(c) => c,
        Err(e) => {
            return Err(e);
        },
    };
    let ghost first_view = first@;
    clauses.push(first);
    if matches!(v.level, Level::CellExact) {
        let mut name = v.pattern.clone();
        name.append("_cell");
        let mut body = String::new();
        body.append(found.code.as_str());
        body.append("\n");
        body.append("let _exact = ");
        body.append(found.exact.as_str());
        body.append(";\n");
        write_result_tuple(&mut body, "String::new()", found.cell.as_str(), v.level);
        body.append("\n");
        assert(body@ =~= none + cell_body(found@, v.level));
        assert(body@ =~= cell_body(found@, v.level));
        let second = match compile_clause(name.as_str(), class, body, v.level) {
            Ok(c) => c,
            Err(e) => {
                return Err(e);
            },
        };
        let ghost second_view = second@;
        clauses.push(second);
        assert(clause_views(clauses@) =~= seq![first_view, second_view]);
    } else {
        assert(clause_views(clauses@) =~= seq![first_view]);
    }
    Ok(clauses)
}

/// Compiles one declaration: takes the result markers off its body, then
/// compiles its clause or clauses.
pub fn compile_declaration(v: &Declaration, class: TargetClass) -> (r: Result<
    Vec<CompiledClause>,
    CompileError,
>)
    ensures
        match r {
            Ok(clauses) => clauses_of(v@, class) == Ok::<Seq<ClauseView>, ErrorView>(
                clause_views(clauses@),
            ) && forall|i: int| 0 <= i < clauses.len() ==> (#[trigger] clauses[i]).wf(),
            Err(e) => clauses_of(v@, class) == Err::<Seq<ClauseView>, ErrorView>(e@),
        },
{
    match parse_value_return_lines(v.body.as_str(), v.level) {
        Err(marker) => Err(
            CompileError::MissingResultMarker { pattern: v.pattern.clone(), marker },
        ),
        Ok(found) => process_var(v, &found, class),
    }
}

} // verus!
