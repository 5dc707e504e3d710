//! Laws of the body integrator and the module assembler.

use crate::assemble::{
    catalog_clauses, catalog_view, export_of, lemma_fault_stays, module_of, module_text,
};
use crate::integrate::{cell_suffix, clauses_of, lines_from, stated, ClauseView};
use crate::laws::classifier::lemma_classification_spells;
use crate::matcher::{outcome, reaches, ListsView};
use crate::model::{Declaration, DeclarationView, ErrorView, Marker, TargetClass};
use vstd::prelude::*;

verus! {

/// A declaration that yields both values and whose body has no line with
/// a per-cell marker is refused for a missing result marker.
pub proof fn lemma_missing_cell_marker(d: DeclarationView, class: TargetClass)
    requires
        d.level is CellExact,
        stated(lines_from(d.body, 0), Marker::Cell) is None,
    ensures
        clauses_of(d, class) matches Err(e) && e is MissingResultMarker && e->MissingResultMarker_pattern
            == d.pattern,
{
}

/// A catalog in which a declaration of the class has a fault gives no
/// module for that class.
pub proof fn lemma_fault_refuses_module(decls: Seq<DeclarationView>, class: TargetClass, i: int)
    requires
        0 <= i < decls.len(),
        decls[i].target_class == class.tag_text(),
        clauses_of(decls[i], class) is Err,
    ensures
        module_of(decls, class) is Err,
{
    assert(catalog_clauses(decls, class, i + 1) is Err);
    lemma_fault_stays(decls, class, i + 1, decls.len() as int);
}

/// Catalogs that hold the same declarations give the same two modules,
/// character for character, or the same fault.
pub proof fn lemma_generation_repeats(first: Seq<Declaration>, second: Seq<Declaration>)
    requires
        catalog_view(first) == catalog_view(second),
    ensures
        export_of(catalog_view(first)) == export_of(catalog_view(second)),
        module_of(catalog_view(first), TargetClass::Cvar) == module_of(
            catalog_view(second),
            TargetClass::Cvar,
        ),
        module_of(catalog_view(first), TargetClass::Lvar) == module_of(
            catalog_view(second),
            TargetClass::Lvar,
        ),
{
}

/// A declaration gives one clause, or two where it yields both an exact and
/// a per-cell value; both carry the declaration's level, and the second is
/// compiled for the name with `_cell` behind it.
pub proof fn lemma_clauses_per_declaration(d: DeclarationView, class: TargetClass)
    requires
        clauses_of(d, class) is Ok,
    ensures
        clauses_of(d, class)->Ok_0.len() == if d.level is CellExact {
            2int
        } else {
            1int
        },
        forall|i: int|
            0 <= i < clauses_of(d, class)->Ok_0.len() ==> (#[trigger] clauses_of(
                d,
                class,
            )->Ok_0[i]).level == d.level && clauses_of(d, class)->Ok_0[i].wf(),
{
    let clauses = clauses_of(d, class)->Ok_0;
    assert forall|i: int| 0 <= i < clauses.len() implies (#[trigger] clauses[i]).level == d.level
        && clauses[i].wf() by {
        lemma_classification_spells(d.pattern);
        if d.level is CellExact {
            lemma_classification_spells(
                d.pattern + cell_suffix(),
            );
        }
    }
}

/// Catalog order is kept: the clauses of a longer stretch of the catalog
/// begin with the clauses of every shorter stretch, so a later declaration
/// only ever adds behind the earlier ones.
pub proof fn lemma_catalog_order(decls: Seq<DeclarationView>, class: TargetClass, m: int, n: int)
    requires
        0 <= m <= n,
        catalog_clauses(decls, class, n) is Ok,
    ensures
        catalog_clauses(decls, class, m) is Ok,
        catalog_clauses(decls, class, m)->Ok_0.is_prefix_of(catalog_clauses(decls, class, n)->Ok_0),
    decreases n - m,
{
    if m < n {
        lemma_catalog_order(decls, class, m, n - 1);
        let shorter = catalog_clauses(decls, class, n - 1)->Ok_0;
        let longer = catalog_clauses(decls, class, n)->Ok_0;
        assert(shorter.is_prefix_of(longer)) by {
            if decls[n - 1].target_class == class.tag_text() {
                let more = clauses_of(decls[n - 1], class)->Ok_0;
                assert(longer == shorter + more);
                assert(longer.subrange(0, shorter.len() as int) =~= shorter);
            } else {
                assert(longer.subrange(0, shorter.len() as int) =~= shorter);
            }
        }
        let first = catalog_clauses(decls, class, m)->Ok_0;
        assert(first.is_prefix_of(longer)) by {
            assert(first =~= shorter.subrange(0, first.len() as int));
            assert(shorter =~= longer.subrange(0, shorter.len() as int));
            assert(first =~= longer.subrange(0, first.len() as int));
        }
    } else {
        let all = catalog_clauses(decls, class, n)->Ok_0;
        assert(all.subrange(0, all.len() as int) =~= all);
    }
}

/// Where the clauses of declaration `i` begin among the clauses of the
/// module: behind the clauses of all declarations before it.
pub open spec fn clause_offset(decls: Seq<DeclarationView>, class: TargetClass, i: int) -> int {
    match catalog_clauses(decls, class, i) {
        Ok(clauses) => clauses.len() as int,
        Err(_) => 0,
    }
}

/// The clauses of the module that a catalog gives for `class`.
pub open spec fn module_clauses(decls: Seq<DeclarationView>, class: TargetClass) -> Seq<
    ClauseView,
> {
    match catalog_clauses(decls, class, decls.len() as int) {
        Ok(clauses) => clauses,
        Err(_) => Seq::empty(),
    }
}

/// In the module of its class, the clauses of a declaration stand at the
/// declaration's offset, one after the other.
pub proof fn lemma_clauses_in_place(decls: Seq<DeclarationView>, class: TargetClass, i: int)
    requires
        0 <= i < decls.len(),
        decls[i].target_class == class.tag_text(),
        catalog_clauses(decls, class, decls.len() as int) is Ok,
    ensures
        clauses_of(decls[i], class) is Ok,
        clauses_of(decls[i], class)->Ok_0.len() >= 1,
        clause_offset(decls, class, i) + clauses_of(decls[i], class)->Ok_0.len()
            <= module_clauses(decls, class).len(),
        forall|k: int|
            0 <= k < clauses_of(decls[i], class)->Ok_0.len() ==> module_clauses(
                decls,
                class,
            )[clause_offset(decls, class, i) + k] == #[trigger] clauses_of(decls[i], class)->Ok_0[k],
{
    let all = module_clauses(decls, class);
    lemma_catalog_order(decls, class, i + 1, decls.len() as int);
    let upto = catalog_clauses(decls, class, i + 1)->Ok_0;
    let before = catalog_clauses(decls, class, i)->Ok_0;
    let own = clauses_of(decls[i], class)->Ok_0;
    assert(upto == before + own);
    lemma_clauses_per_declaration(decls[i], class);
    assert forall|k: int| 0 <= k < own.len() implies all[clause_offset(decls, class, i) + k]
        == #[trigger] own[k] by {
        assert(all.subrange(0, upto.len() as int)[before.len() + k] == upto[before.len() + k]);
    }
}

/// In the module of its class, the clauses of a declaration end before
/// those of every declaration that follows it in the catalog begin.
pub proof fn lemma_earlier_stands_first(
    decls: Seq<DeclarationView>,
    class: TargetClass,
    i: int,
    j: int,
)
    requires
        0 <= i < j < decls.len(),
        decls[i].target_class == class.tag_text(),
        catalog_clauses(decls, class, decls.len() as int) is Ok,
    ensures
        clauses_of(decls[i], class) is Ok,
        clause_offset(decls, class, i) + clauses_of(decls[i], class)->Ok_0.len() <= clause_offset(
            decls,
            class,
            j,
        ),
{
    lemma_catalog_order(decls, class, j, decls.len() as int);
    lemma_catalog_order(decls, class, i + 1, j);
    let upto = catalog_clauses(decls, class, i + 1)->Ok_0;
    let before = catalog_clauses(decls, class, i)->Ok_0;
    let own = clauses_of(decls[i], class)->Ok_0;
    assert(upto == before + own);
}

/// Catalog order is precedence. Where a catalog gives a module, a name
/// that the first clause of a declaration matches reaches that clause or
/// one before it in the branch chain of the module; it never reaches a
/// clause of a declaration that stands later in the catalog. Where no
/// clause before it matches the name, the name reaches just that clause.
pub proof fn lemma_earlier_declaration_wins(
    decls: Seq<DeclarationView>,
    class: TargetClass,
    i: int,
    j: int,
    name: Seq<char>,
    lists: ListsView,
    r: int,
)
    requires
        0 <= i < j < decls.len(),
        decls[i].target_class == class.tag_text(),
        module_of(decls, class) is Ok,
        outcome(clauses_of(decls[i], class)->Ok_0[0].shape, name, lists) is Some,
        reaches(module_clauses(decls, class), name, lists, r),
    ensures
        module_of(decls, class) == Ok::<Seq<char>, ErrorView>(
            module_text(module_clauses(decls, class), class),
        ),
        r <= clause_offset(decls, class, i),
        r < clause_offset(decls, class, j),
        (forall|k: int|
            0 <= k < clause_offset(decls, class, i) ==> outcome(
                (#[trigger] module_clauses(decls, class)[k]).shape,
                name,
                lists,
            ) is None) ==> r == clause_offset(decls, class, i),
{
    lemma_clauses_in_place(decls, class, i);
    lemma_earlier_stands_first(decls, class, i, j);
    let all = module_clauses(decls, class);
    let at = clause_offset(decls, class, i);
    assert(all[at + 0] == clauses_of(decls[i], class)->Ok_0[0]);
    if r > at {
        assert(outcome(all[at].shape, name, lists) is None);
    }
}

/// What the export hands out are the two modules: the text of each is
/// made of the clauses of its class in catalog order, to which the laws of
/// precedence above apply.
pub proof fn lemma_export_gives_modules(decls: Seq<DeclarationView>)
    requires
        export_of(decls) is Ok,
    ensures
        export_of(decls)->Ok_0.len() == 2,
        export_of(decls)->Ok_0[0].1 == module_text(
            module_clauses(decls, TargetClass::Cvar),
            TargetClass::Cvar,
        ),
        export_of(decls)->Ok_0[1].1 == module_text(
            module_clauses(decls, TargetClass::Lvar),
            TargetClass::Lvar,
        ),
        module_of(decls, TargetClass::Cvar) is Ok,
        module_of(decls, TargetClass::Lvar) is Ok,
{
}

} // verus!
