//! Module assembler: the clauses of the declarations of one target class,
//! in catalog order, between the fixed text that opens and closes the
//! module.

use crate::integrate::{clause_views, clauses_of, compile_declaration, ClauseView, CompiledClause};
use crate::model::{CompileError, Declaration, DeclarationView, ErrorView, TargetClass};
use crate::templates::{
    CVAR_EPILOGUE_HEAD, CVAR_EPILOGUE_TAIL, CVAR_PROLOGUE, ESCAPE, LVAR_EPILOGUE, LVAR_PROLOGUE,
};
use crate::text::same_str;
use vstd::prelude::*;

verus! {

/// The text that opens the module of `class`.
pub open spec fn prologue(class: TargetClass) -> Seq<char> {
    match class {
        TargetClass::Cvar => CVAR_PROLOGUE@,
        TargetClass::Lvar => LVAR_PROLOGUE@,
    }
}

/// The text that closes the module of `class`.
pub open spec fn epilogue(class: TargetClass) -> Seq<char> {
    match class {
        TargetClass::Cvar => CVAR_EPILOGUE_HEAD@ + ESCAPE@ + CVAR_EPILOGUE_TAIL@,
        TargetClass::Lvar => LVAR_EPILOGUE@,
    }
}

/// The file that the module of `class` is kept in.
pub open spec fn output_file(class: TargetClass) -> Seq<char> {
    match class {
        TargetClass::Cvar => "enclone_print/src/proc_cvar_auto.rs"@,
        TargetClass::Lvar => "enclone_print/src/proc_lvar_auto.rs"@,
    }
}

/// The views of a catalog's declarations.
pub open spec fn catalog_view(decls: Seq<Declaration>) -> Seq<DeclarationView> {
    Seq::new(decls.len(), |i: int| decls[i]@)
}

/// The clauses of the first `n` declarations that belong to `class`, in
/// catalog order, or the fault of the first declaration that has one.
pub open spec fn catalog_clauses(decls: Seq<DeclarationView>, class: TargetClass, n: int)
    -> Result<Seq<ClauseView>, ErrorView>
    decreases n,
{
    if n <= 0 {
        Ok(Seq::empty())
    } else {
        match catalog_clauses(decls, class, n - 1) {
            Err(e) => Err(e),
            Ok(clauses) => if decls[n - 1].target_class != class.tag_text() {
                Ok(clauses)
            } else {
                match clauses_of(decls[n - 1], class) {
                    Err(e) => Err(e),
                    Ok(more) => Ok(clauses + more),
                }
            },
        }
    }
}

/// The texts of the clauses, one after the other.
pub open spec fn clauses_text(clauses: Seq<ClauseView>) -> Seq<char>
    decreases clauses.len(),
{
    if clauses.len() == 0 {
        Seq::empty()
    } else {
        clauses_text(clauses.drop_last()) + clauses.last().text()
    }
}

/// The text of a module: what opens it, its clauses in order, what closes
/// it.
pub open spec fn module_text(clauses: Seq<ClauseView>, class: TargetClass) -> Seq<char> {
    prologue(class) + clauses_text(clauses) + epilogue(class)
}

/// The text of the module that a catalog gives for `class`, or the first
/// fault.
pub open spec fn module_of(decls: Seq<DeclarationView>, class: TargetClass) -> Result<
    Seq<char>,
    ErrorView,
> {
    match catalog_clauses(decls, class, decls.len() as int) {
        Err(e) => Err(e),
        Ok(clauses) => Ok(module_text(clauses, class)),
    }
}

/// Compiles the declarations of `class`, in catalog order. Stops at the
/// first fault, with no clause to show.
pub fn compile_catalog(decls: &Vec<Declaration>, class: TargetClass) -> (r: Result<
    Vec<CompiledClause>,
    CompileError,
>)
    ensures
        match r {
            Ok(clauses) => catalog_clauses(catalog_view(decls@), class, decls.len() as int) == Ok::<
                Seq<ClauseView>,
                ErrorView,
            >(clause_views(clauses@)) && forall|i: int|
                0 <= i < clauses.len() ==> (#[trigger] clauses[i]).wf(),
            Err(e) => catalog_clauses(catalog_view(decls@), class, decls.len() as int) == Err::<
                Seq<ClauseView>,
                ErrorView,
            >(e@),
        },
{
    let mut clauses: Vec<CompiledClause> = Vec::new();
    let mut n: usize = 0;
    assert(clause_views(clauses@) =~= Seq::<ClauseView>::empty());
    while n < decls.len()
        invariant
            n <= decls.len(),
            catalog_clauses(catalog_view(decls@), class, n as int) == Ok::<
                Seq<ClauseView>,
                ErrorView,
            >(clause_views(clauses@)),
            forall|i: int| 0 <= i < clauses.len() ==> (#[trigger] clauses[i]).wf(),
        decreases decls.len() - n,
    {
        let v = &decls[n];
        assert(catalog_view(decls@)[n as int] == v@);
        if same_str(v.target_class.as_str(), class.tag()) {
            let mut more = match compile_declaration(v, class) {
                Ok(more) => more,
                Err(e) => {
                    proof {
                        lemma_fault_stays(catalog_view(decls@), class, n + 1, decls.len() as int);
                    }
                    return Err(e);
                },
            };
            let ghost before = clause_views(clauses@);
            let ghost added = clause_views(more@);
            let ghost old_clauses = clauses@;
            let ghost old_more = more@;
            clauses.append(&mut more);
            assert(clauses@ == old_clauses + old_more);
            assert(clause_views(clauses@) =~= before + added);
        }
        n += 1;
    }
    Ok(clauses)
}

/// Once the first `m` declarations hold a fault, every longer stretch of the
/// catalog gives that fault.
pub proof fn lemma_fault_stays(decls: Seq<DeclarationView>, class: TargetClass, m: int, n: int)
    requires
        0 <= m <= n,
        catalog_clauses(decls, class, m) is Err,
    ensures
        catalog_clauses(decls, class, n) == catalog_clauses(decls, class, m),
    decreases n - m,
{
    if m < n {
        lemma_fault_stays(decls, class, m, n - 1);
    }
}

/// The text that opens the module of `class`.
pub fn prologue_text(class: TargetClass) -> (r: String)
    ensures
        r@ == prologue(class),
{
    match class {
        TargetClass::Cvar => String::from_str(CVAR_PROLOGUE),
        TargetClass::Lvar => String::from_str(LVAR_PROLOGUE),
    }
}

/// The text that closes the module of `class`.
pub fn epilogue_text(class: TargetClass) -> (r: String)
    ensures
        r@ == epilogue(class),
{
    match class {
        TargetClass::Cvar => {
            let mut r = String::from_str(CVAR_EPILOGUE_HEAD);
            r.append(ESCAPE);
            r.append(CVAR_EPILOGUE_TAIL);
            r
        },
        TargetClass::Lvar => String::from_str(LVAR_EPILOGUE),
    }
}

/// Writes a module out: the opening text, the clauses in the order given,
/// the closing text.
pub fn render_module(clauses: &Vec<CompiledClause>, class: TargetClass) -> (r: String)
    ensures
        r@ == module_text(clause_views(clauses@), class),
{
    let mut out = prologue_text(class);
    let mut i: usize = 0;
    assert(out@ =~= prologue(class) + clauses_text(clause_views(clauses@).take(0)));
    while i < clauses.len()
        invariant
            i <= clauses.len(),
            out@ == prologue(class) + clauses_text(clause_views(clauses@).take(i as int)),
        decreases clauses.len() - i,
    {
        let ghost now = clause_views(clauses@).take(i + 1);
        assert(now.drop_last() =~= clause_views(clauses@).take(i as int));
        assert(now.last() == clauses@[i as int]@);
        clauses[i].write(&mut out);
        assert(out@ =~= prologue(class) + clauses_text(now));
        i += 1;
    }
    assert(clause_views(clauses@).take(clauses.len() as int) =~= clause_views(clauses@));
    let close = epilogue_text(class);
    out.append(close.as_str());
    out
}

/// The module of one target class: its clauses in catalog order, to stand
/// between the text that opens and the text that closes the module.
#[derive(Clone, Debug, PartialEq, Eq)]
pub struct GeneratedModule {
    pub class: TargetClass,
    pub clauses: Vec<CompiledClause>,
}

impl GeneratedModule {
    /// Every clause is the compiled form of its shape.
    pub open spec fn wf(&self) -> bool {
        forall|i: int| 0 <= i < self.clauses.len() ==> (#[trigger] self.clauses[i]).wf()
    }

    /// The text of the module.
    pub fn text(&self) -> (r: String)
        ensures
            r@ == module_text(clause_views(self.clauses@), self.class),
    {
        render_module(&self.clauses, self.class)
    }
}

/// Compiles the module of `class` from the catalog, or finds the first
/// fault.
pub fn generate_module(decls: &Vec<Declaration>, class: TargetClass) -> (r: Result<
    GeneratedModule,
    CompileError,
>)
    ensures
        match r {
            Ok(m) => m.class == class && m.wf() && catalog_clauses(
                catalog_view(decls@),
                class,
                decls.len() as int,
            ) == Ok::<Seq<ClauseView>, ErrorView>(clause_views(m.clauses@)),
            Err(e) => catalog_clauses(catalog_view(decls@), class, decls.len() as int) == Err::<
                Seq<ClauseView>,
                ErrorView,
            >(e@),
        },
{
    match compile_catalog(decls, class) {
        Ok(clauses) => Ok(GeneratedModule { class, clauses }),
        Err(e) => Err(e),
    }
}

/// Generates the text of the module of `class` from the catalog: the text,
/// or the first fault and no text.
pub fn assemble_module(decls: &Vec<Declaration>, class: TargetClass) -> (r: Result<
    String,
    CompileError,
>)
    ensures
        match r {
            Ok(text) => module_of(catalog_view(decls@), class) == Ok::<Seq<char>, ErrorView>(
                text@,
            ),
            Err(e) => module_of(catalog_view(decls@), class) == Err::<Seq<char>, ErrorView>(e@),
        },
{
    match generate_module(decls, class) {
        Ok(m) => Ok(m.text()),
        Err(e) => Err(e),
    }
}

/// What generating both modules gives: for the per-chain processor and
/// then for the per-clonotype processor, the file that the module is kept
/// in and the module's text; or the first fault, the per-chain module's
/// coming first.
pub open spec fn export_of(decls: Seq<DeclarationView>) -> Result<
    Seq<(Seq<char>, Seq<char>)>,
    ErrorView,
> {
    match module_of(decls, TargetClass::Cvar) {
        Err(e) => Err(e),
        Ok(cvar) => match module_of(decls, TargetClass::Lvar) {
            Err(e) => Err(e),
            Ok(lvar) => Ok(
                seq![
                    (output_file(TargetClass::Cvar), cvar),
                    (output_file(TargetClass::Lvar), lvar),
                ],
            ),
        },
    }
}

/// The texts that a list of named modules holds.
pub open spec fn outputs_view(outs: Seq<(String, String)>) -> Seq<(Seq<char>, Seq<char>)> {
    Seq::new(outs.len(), |i: int| (outs[i].0@, outs[i].1@))
}

/// Generates both modules from the catalog. Gives, for the per-chain
/// processor and then for the per-clonotype processor, the file that the
/// module is kept in and the module's text; or the first fault, and then
/// neither module.
pub fn export_code(decls: &Vec<Declaration>) -> (r: Result<Vec<(String, String)>, CompileError>)
    ensures
        match r {
            Ok(outs) => export_of(catalog_view(decls@)) == Ok::<
                Seq<(Seq<char>, Seq<char>)>,
                ErrorView,
            >(outputs_view(outs@)),
            Err(e) => export_of(catalog_view(decls@)) == Err::<
                Seq<(Seq<char>, Seq<char>)>,
                ErrorView,
            >(e@),
        },
{
    let cvar = match assemble_module(decls, TargetClass::Cvar) {
        Ok(text) => text,
        Err(e) => {
            return Err(e);
        },
    };
    let lvar = match assemble_module(decls, TargetClass::Lvar) {
        Ok(text) => text,
        Err(e) => {
            return Err(e);
        },
    };
    let mut outs: Vec<(String, String)> = Vec::new();
    outs.push((String::from_str("enclone_print/src/proc_cvar_auto.rs"), cvar));
    outs.push((String::from_str("enclone_print/src/proc_lvar_auto.rs"), lvar));
    assert(outputs_view(outs@) =~= seq![
        (output_file(TargetClass::Cvar), cvar@),
        (output_file(TargetClass::Lvar), lvar@),
    ]);
    Ok(outs)
}

} // verus!
