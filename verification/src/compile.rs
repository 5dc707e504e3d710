//! From a pattern to the branch that opens its clause.

use crate::classify::{classification, classify};
use crate::clause::{
    binding_text, binding_texts, bindings_of, front_tests, head_text, join_all,
    keyword_tests, lines_text, predicate_text, range_tests, render_binding, render_test,
    separator_tests, slot_tests, test_text, tests_of, Binding, Test,
};
use crate::model::{
    CompileError, ErrorView, Keyword, ParsedPattern, PatternFault, PatternView, TargetClass,
};
use crate::text::views;
use vstd::prelude::*;

verus! {

/// The conjuncts of the match predicate of `p`, in order.
pub fn tests_for(p: &ParsedPattern) -> (tests: Vec<Test>)
    requires
        p.wf(),
    ensures
        tests@ == tests_of(p@),
        forall|i: int| 0 <= i < tests.len() ==> (#[trigger] tests[i]).fits(p@),
{
    let holes: usize = if p.keyword.takes_text() {
        p.slots.len() + 1
    } else {
        p.slots.len()
    };
    let mut tests: Vec<Test> = Vec::new();
    if holes == 0 {
        match p.keyword {
            Keyword::Bc => tests.push(Test::InAltBarcodes),
            Keyword::Info => tests.push(Test::InInfoFields),
            _ => tests.push(Test::NameIs),
        }
        assert(tests@ =~= tests_of(p@));
        return tests;
    }
    tests.push(Test::StartsWith);
    if p.slots.len() == 1 {
        tests.push(Test::NameEndsWith);
        if matches!(p.keyword, Keyword::Rega) {
            tests.push(Test::Encloses);
        }
    } else {
        let mut k: usize = 1;
        while k < holes
            invariant
                1 <= k <= holes,
                holes == p@.holes(),
                holes <= 4,
                tests@ == seq![Test::StartsWith] + separator_tests(k - 1),
                forall|i: int| 0 <= i < tests.len() ==> (#[trigger] tests[i]).fits(p@),
            decreases holes - k,
        {
            tests.push(Test::Contains(k));
            assert(tests@ =~= seq![Test::StartsWith] + separator_tests(k as int));
            k += 1;
        }
        tests.push(Test::EndsWith);
    }
    let ghost front = tests@;
    assert(front =~= front_tests(p@));
    let mut i: usize = 0;
    while i < p.slots.len()
        invariant
            i <= p.slots.len(),
            tests@ == front + range_tests(p@.slots, i as int),
            forall|j: int| 0 <= j < tests.len() ==> (#[trigger] tests[j]).fits(p@),
        decreases p.slots.len() - i,
    {
        let ghost before = tests@;
        let slot = p.slots[i];
        tests.push(Test::Parses(i));
        match slot.lower {
            Some(v) => tests.push(Test::AtLeast(i, v)),
            None => {},
        }
        match slot.upper {
            Some(v) => tests.push(Test::AtMost(i, v)),
            None => {},
        }
        assert(tests@ =~= before + slot_tests(i as int, slot));
        assert(tests@ =~= front + range_tests(p@.slots, i + 1));
        i += 1;
    }
    let ghost ranged = tests@;
    match p.keyword {
        Keyword::Rega => {
            tests.push(Test::NoUnderscore);
            tests.push(Test::Compiles);
        },
        Keyword::Dataset => tests.push(Test::IsDataset),
        Keyword::Name => tests.push(Test::IsKnownName),
        _ => {},
    }
    assert(tests@ =~= ranged + keyword_tests(p.keyword));
    tests
}

/// The bindings of `p`, in the order in which its placeholders stand.
pub fn bindings_for(p: &ParsedPattern) -> (bindings: Vec<Binding>)
    requires
        p.wf(),
    ensures
        bindings@ == bindings_of(p@),
        forall|i: int| 0 <= i < bindings.len() ==> (#[trigger] bindings[i]).fits(p@),
{
    let mut bindings: Vec<Binding> = Vec::new();
    let mut i: usize = 0;
    while i < p.slots.len()
        invariant
            i <= p.slots.len(),
            bindings@ == Seq::new(i as nat, |k: int| Binding::Arg(k as usize)),
            forall|j: int| 0 <= j < bindings.len() ==> (#[trigger] bindings[j]).fits(p@),
        decreases p.slots.len() - i,
    {
        bindings.push(Binding::Arg(i));
        assert(bindings@ =~= Seq::new((i + 1) as nat, |k: int| Binding::Arg(k as usize)));
        i += 1;
    }
    let ghost args = bindings@;
    match p.keyword {
        Keyword::Rega => bindings.push(Binding::Regex),
        Keyword::Dataset => bindings.push(Binding::Dataset),
        Keyword::Name => bindings.push(Binding::Name),
        _ => {},
    }
    assert(bindings@ =~= bindings_of(p@));
    bindings
}

/// The texts of `parts`, joined by `sep`.
pub fn join_texts(parts: &Vec<String>, sep: &str) -> (r: String)
    ensures
        r@ == join_all(views(parts@), sep@),
{
    let mut r = String::new();
    let mut i: usize = 0;
    while i < parts.len()
        invariant
            i <= parts.len(),
            r@ == join_all(views(parts@).take(i as int), sep@),
        decreases parts.len() - i,
    {
        let ghost before = views(parts@).take(i as int);
        let ghost now = views(parts@).take(i + 1);
        assert(now.drop_last() =~= before);
        assert(now.last() == parts@[i as int]@);
        if i > 0 {
            r.append(sep);
        } else {
            assert(r@ + parts@[i as int]@ =~= parts@[i as int]@);
        }
        r.append(parts[i].as_str());
        i += 1;
    }
    assert(views(parts@).take(parts.len() as int) =~= views(parts@));
    r
}

/// Appends each of `parts`, followed by a line break.
pub fn write_lines(out: &mut String, parts: &Vec<String>)
    ensures
        final(out)@ == old(out)@ + lines_text(views(parts@)),
{
    let ghost base = out@;
    let mut i: usize = 0;
    assert(out@ =~= base + lines_text(views(parts@).take(0)));
    while i < parts.len()
        invariant
            i <= parts.len(),
            out@ == base + lines_text(views(parts@).take(i as int)),
        decreases parts.len() - i,
    {
        let ghost before = views(parts@).take(i as int);
        let ghost now = views(parts@).take(i + 1);
        assert(now.drop_last() =~= before);
        assert(now.last() == parts@[i as int]@);
        out.append(parts[i].as_str());
        out.append("\n");
        assert(out@ =~= base + lines_text(now));
        i += 1;
    }
    assert(views(parts@).take(parts.len() as int) =~= views(parts@));
}

/// The expression text of the predicate made of `tests`.
pub fn render_predicate(p: &ParsedPattern, tests: &Vec<Test>) -> (r: String)
    requires
        p.wf(),
        forall|i: int| 0 <= i < tests.len() ==> (#[trigger] tests[i]).fits(p@),
    ensures
        r@ == predicate_text(p@, tests@),
{
    let mut parts: Vec<String> = Vec::new();
    let mut i: usize = 0;
    while i < tests.len()
        invariant
            i <= tests.len(),
            p.wf(),
            forall|j: int| 0 <= j < tests.len() ==> (#[trigger] tests[j]).fits(p@),
            parts.len() == i,
            forall|j: int| 0 <= j < i ==> (#[trigger] parts@[j])@ == test_text(p@, tests@[j]),
        decreases tests.len() - i,
    {
        parts.push(render_test(p, tests[i]));
        i += 1;
    }
    assert(views(parts@) =~= Seq::new(tests@.len(), |j: int| test_text(p@, tests@[j])));
    if p.slots.len() == 0 {
        join_texts(&parts, "\n                    && ")
    } else {
        join_texts(&parts, " && ")
    }
}

/// The statement texts of `bindings`.
pub fn render_bindings(p: &ParsedPattern, bindings: &Vec<Binding>) -> (r: Vec<String>)
    requires
        p.wf(),
        forall|i: int| 0 <= i < bindings.len() ==> (#[trigger] bindings[i]).fits(p@),
    ensures
        views(r@) == binding_texts(p@, bindings@),
{
    let mut parts: Vec<String> = Vec::new();
    let mut i: usize = 0;
    while i < bindings.len()
        invariant
            i <= bindings.len(),
            p.wf(),
            forall|j: int| 0 <= j < bindings.len() ==> (#[trigger] bindings[j]).fits(p@),
            parts.len() == i,
            forall|j: int|
                0 <= j < i ==> (#[trigger] parts@[j])@ == binding_text(p@, bindings@[j]),
        decreases bindings.len() - i,
    {
        parts.push(render_binding(p, bindings[i]));
        i += 1;
    }
    assert(views(parts@) =~= binding_texts(p@, bindings@));
    parts
}

/// The branch that opens the clause of pattern `p`.
pub open spec fn clause_head(p: PatternView) -> Seq<char> {
    head_text(p.slots.len() > 0, predicate_text(p, tests_of(p)), binding_texts(p, bindings_of(p)))
}

/// What compiling the pattern text `var` for `class` gives: the branch
/// that opens its clause, or the fault in the pattern. The class makes no
/// difference to it.
pub open spec fn head_of(var: Seq<char>, class: TargetClass) -> Result<Seq<char>, ErrorView> {
    match classification(var) {
        Err(fault) => Err(ErrorView::MalformedPattern { pattern: var, fault }),
        Ok(p) => Ok(clause_head(p)),
    }
}

/// Appends the branch that opens a clause.
pub fn write_head(out: &mut String, ranged: bool, predicate: &str, bindings: &Vec<String>)
    ensures
        final(out)@ == old(out)@ + head_text(ranged, predicate@, views(bindings@)),
{
    let ghost base = out@;
    out.append("} else if ");
    out.append(predicate);
    if ranged {
        out.append(" { \n");
    } else {
        out.append(" {\n");
    }
    write_lines(out, bindings);
    assert(out@ =~= base + head_text(ranged, predicate@, views(bindings@)));
}

/// Classifies `var` for `class`: its shape, or the fault that refuses it.
pub fn parse_pattern(var: &str, class: TargetClass) -> (r: Result<ParsedPattern, CompileError>)
    ensures
        match r {
            Ok(p) => classification(var@) == Ok::<PatternView, PatternFault>(p@) && p.wf(),
            Err(e) => head_of(var@, class) == Err::<Seq<char>, ErrorView>(e@),
        },
{
    match classify(var) {
        Err(fault) => Err(CompileError::MalformedPattern { pattern: var.to_owned(), fault }),
        Ok(p) => Ok(p),
    }
}

/// Emits the code that tests a name against the pattern `var` and binds
/// what the pattern's placeholders stand for: the predicate as the
/// condition of a chained branch, then one line for each binding.
pub fn emit_code_to_test_for_var(var: &str, class: TargetClass) -> (r: Result<
    String,
    CompileError,
>)
    ensures
        match r {
            Ok(text) => head_of(var@, class) == Ok::<Seq<char>, ErrorView>(text@),
            Err(e) => head_of(var@, class) == Err::<Seq<char>, ErrorView>(e@),
        },
{
    let p = match parse_pattern(var, class) {
        Ok(p) => p,
        Err(e) => {
            return Err(e);
        },
    };
    let tests = tests_for(&p);
    let bindings = bindings_for(&p);
    let predicate = render_predicate(&p, &tests);
    let lines = render_bindings(&p, &bindings);
    let mut out = String::new();
    write_head(&mut out, p.slots.len() > 0, predicate.as_str(), &lines);
    assert(out@ =~= clause_head(p@));
    Ok(out)
}

} // verus!
