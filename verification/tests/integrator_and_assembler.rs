use enclone_vars::assemble::{
    assemble_module, compile_catalog, epilogue_text, export_code, generate_module, prologue_text,
    render_module,
};
use enclone_vars::integrate::{
    compile_clause, compile_declaration, parse_value_return_lines, process_var, ReturnLines,
};
use enclone_vars::model::{
    CompileError, Declaration, Keyword, Level, Marker, PatternFault, TargetClass,
};
use enclone_vars::templates::{
    CVAR_EPILOGUE_HEAD, CVAR_EPILOGUE_TAIL, CVAR_PROLOGUE, ESCAPE, LVAR_EPILOGUE, LVAR_PROLOGUE,
};
use enclone_vars::text::same_str;

fn decl(pattern: &str, class: &str, level: Level, body: &str) -> Declaration {
    Declaration {
        pattern: pattern.to_string(),
        target_class: class.to_string(),
        level,
        body: body.to_string(),
    }
}

fn found(code: &str, exact: &str, cell: &str) -> ReturnLines {
    ReturnLines { code: code.to_string(), exact: exact.to_string(), cell: cell.to_string() }
}

#[test]
fn markers_are_taken_off_the_body() {
    assert_eq!(
        parse_value_return_lines(
            "let x = 1;\nexact: x.to_string()\ncell: vec![x]\n",
            Level::CellExact
        ),
        Ok(found("let x = 1;\n", "x.to_string()", "vec![x]"))
    );
}

#[test]
fn unstated_values_are_empty_values() {
    assert_eq!(
        parse_value_return_lines("let x = 1;\nlet y = 2;", Level::Exact),
        Ok(found("let x = 1;\nlet y = 2;\n", "String::new()", "Vec::new()"))
    );
    assert_eq!(
        parse_value_return_lines("", Level::Exact),
        Ok(found("", "String::new()", "Vec::new()"))
    );
    assert_eq!(
        parse_value_return_lines("f();\ncell: c\n", Level::Cell),
        Ok(found("f();\n", "String::new()", "c"))
    );
}

#[test]
fn value_follows_the_marker_wherever_it_stands() {
    assert_eq!(
        parse_value_return_lines("    exact: a + b\n", Level::Exact),
        Ok(found("", "a + b", "Vec::new()"))
    );
    assert_eq!(
        parse_value_return_lines("exact: x // cell: y\n", Level::Exact),
        Ok(found("", "x // cell: y", "Vec::new()"))
    );
}

#[test]
fn last_marker_of_each_kind_counts() {
    assert_eq!(
        parse_value_return_lines("exact: first\nf();\nexact: second\ncell: c\ng();\n", Level::CellExact),
        Ok(found("exact: first\nf();\ng();\n", "second", "c"))
    );
}

#[test]
fn line_endings_are_normalised() {
    assert_eq!(
        parse_value_return_lines("a\r\n\r\nexact: b\r\nc\r", Level::Exact),
        Ok(found("a\n\nc\r\n", "b", "Vec::new()"))
    );
    assert_eq!(
        parse_value_return_lines("a\n\n", Level::Exact),
        Ok(found("a\n\n", "String::new()", "Vec::new()"))
    );
}

#[test]
fn required_marker_must_be_stated() {
    assert_eq!(parse_value_return_lines("cell: c\n", Level::CellExact), Err(Marker::Exact));
    assert_eq!(parse_value_return_lines("exact: e\n", Level::CellExact), Err(Marker::Cell));
    assert_eq!(parse_value_return_lines("f();\n", Level::CellExact), Err(Marker::Exact));
    assert_eq!(parse_value_return_lines("exact: e\n", Level::Cell), Err(Marker::Cell));
    assert_eq!(parse_value_return_lines("", Level::Cell), Err(Marker::Cell));
}

#[test]
fn required_marker_must_have_a_value() {
    assert_eq!(parse_value_return_lines("exact: \ncell: c\n", Level::CellExact), Err(Marker::Exact));
    assert_eq!(parse_value_return_lines("exact: e\ncell: \n", Level::CellExact), Err(Marker::Cell));
    assert_eq!(
        parse_value_return_lines("exact: \n", Level::Exact),
        Ok(found("", "", "Vec::new()"))
    );
}

#[test]
fn marker_needs_its_blank() {
    assert_eq!(parse_value_return_lines("exact:e\ncell:c\n", Level::CellExact), Err(Marker::Exact));
}

#[test]
fn exact_declaration_gives_one_clause() {
    let v = decl("q{0..}_", "cvar_vdj", Level::Exact, "let n = arg1;\nexact: n.to_string()\n");
    let clauses = compile_declaration(&v, TargetClass::Cvar).unwrap();
    assert_eq!(clauses.len(), 1);
    let c = &clauses[0];
    assert_eq!(c.level, Level::Exact);
    assert_eq!(c.shape.keyword, Keyword::Plain);
    assert_eq!(c.bindings, vec!["let arg1 = vname.between2(\"q\", \"_\").force_i64();".to_string()]);
    assert_eq!(
        c.match_predicate,
        "vname.starts_with('q') && vname.ends_with('_') && \
         vname.between2(\"q\", \"_\").parse::<i64>().is_ok() && \
         vname.between2(\"q\", \"_\").force_i64() >= 0"
    );
    assert_eq!(
        c.body,
        "let n = arg1;\n\n(n.to_string(), Vec::new(), \"exact\".to_string())\n"
    );
    let mut text = String::new();
    c.write(&mut text);
    assert_eq!(
        text,
        format!("}} else if {} {{ \n{}\n{}", c.match_predicate, c.bindings[0], c.body)
    );
}

#[test]
fn cell_exact_declaration_gives_two_clauses() {
    let v = decl("u_Σ", "lvar_vdj", Level::CellExact, "f();\nexact: e\ncell: c\n");
    let clauses = compile_declaration(&v, TargetClass::Lvar).unwrap();
    assert_eq!(clauses.len(), 2);
    assert_eq!(clauses[0].match_predicate, "vname == \"u_Σ\"");
    assert_eq!(clauses[0].body, "f();\n\n(e, c, \"cell-exact\".to_string())\n");
    assert_eq!(clauses[1].match_predicate, "vname == \"u_Σ_cell\"");
    assert_eq!(
        clauses[1].body,
        "f();\n\nlet _exact = e;\n(String::new(), c, \"cell-exact\".to_string())\n"
    );
    assert_eq!(clauses[0].level, Level::CellExact);
    assert_eq!(clauses[1].level, Level::CellExact);
}

#[test]
fn cell_declaration_gives_one_clause() {
    let v = decl("w", "lvar_vdj", Level::Cell, "cell: c\n");
    let clauses = compile_declaration(&v, TargetClass::Lvar).unwrap();
    assert_eq!(clauses.len(), 1);
    assert_eq!(clauses[0].body, "\n(String::new(), c, \"cell\".to_string())\n");
}

#[test]
fn suffix_joins_the_last_segment() {
    let v = decl("g{1..}", "lvar_vdj", Level::CellExact, "exact: e\ncell: c\n");
    let rl = parse_value_return_lines(&v.body, v.level).unwrap();
    let clauses = process_var(&v, &rl, TargetClass::Lvar).unwrap();
    assert_eq!(clauses[0].shape.segments, vec!["g".to_string(), "".to_string()]);
    assert_eq!(clauses[1].shape.segments, vec!["g".to_string(), "_cell".to_string()]);
}

#[test]
fn suffix_turns_whole_pattern_keyword_plain() {
    let v = decl("BC", "lvar_vdj", Level::CellExact, "exact: e\ncell: c\n");
    let clauses = compile_declaration(&v, TargetClass::Lvar).unwrap();
    assert_eq!(clauses[0].match_predicate, "bin_member(alt_bcs, var)");
    assert_eq!(clauses[1].match_predicate, "vname == \"BC_cell\"");
}

#[test]
fn missing_marker_comes_before_malformed_pattern() {
    let v = decl("A_B", "lvar_vdj", Level::Cell, "exact: e\n");
    assert_eq!(
        compile_declaration(&v, TargetClass::Lvar),
        Err(CompileError::MissingResultMarker { pattern: "A_B".to_string(), marker: Marker::Cell })
    );
    let v = decl("A_B", "lvar_vdj", Level::Cell, "cell: c\n");
    assert_eq!(
        compile_declaration(&v, TargetClass::Lvar),
        Err(CompileError::MalformedPattern {
            pattern: "A_B".to_string(),
            fault: PatternFault::MultipleKeywordRuns
        })
    );
}

#[test]
fn clause_keeps_the_body_it_is_given() {
    let c = compile_clause("abc", TargetClass::Cvar, "body\n".to_string(), Level::Cell).unwrap();
    assert_eq!(c.body, "body\n");
    assert_eq!(c.level, Level::Cell);
    assert_eq!(
        compile_clause("a}{", TargetClass::Cvar, String::new(), Level::Cell),
        Err(CompileError::MalformedPattern {
            pattern: "a}{".to_string(),
            fault: PatternFault::BadRange
        })
    );
}

#[test]
fn module_is_clauses_between_fixed_text() {
    let catalog = vec![
        decl("one", "cvar_vdj", Level::Exact, "exact: a\n"),
        decl("two", "lvar_vdj", Level::Exact, "exact: b\n"),
        decl("three", "cvar_vdj", Level::Exact, "exact: c\n"),
    ];
    let text = assemble_module(&catalog, TargetClass::Cvar).unwrap();
    let one = "} else if vname == \"one\" {\n\n(a, Vec::new(), \"exact\".to_string())\n";
    let three = "} else if vname == \"three\" {\n\n(c, Vec::new(), \"exact\".to_string())\n";
    assert_eq!(text, format!("{CVAR_PROLOGUE}{one}{three}{CVAR_EPILOGUE_HEAD}{ESCAPE}{CVAR_EPILOGUE_TAIL}"));
    let text = assemble_module(&catalog, TargetClass::Lvar).unwrap();
    let two = "} else if vname == \"two\" {\n\n(b, Vec::new(), \"exact\".to_string())\n";
    assert_eq!(text, format!("{LVAR_PROLOGUE}{two}{LVAR_EPILOGUE}"));
}

#[test]
fn empty_catalog_gives_fixed_text_only() {
    assert_eq!(
        assemble_module(&vec![], TargetClass::Cvar),
        Ok(format!("{CVAR_PROLOGUE}{CVAR_EPILOGUE_HEAD}{ESCAPE}{CVAR_EPILOGUE_TAIL}"))
    );
    assert_eq!(render_module(&vec![], TargetClass::Lvar), format!("{LVAR_PROLOGUE}{LVAR_EPILOGUE}"));
}

#[test]
fn fixed_text_opens_with_never_matching_branch_and_closes_with_sentinel() {
    let closes = [epilogue_text(TargetClass::Cvar), epilogue_text(TargetClass::Lvar)];
    for (prologue, epilogue, name) in [
        (CVAR_PROLOGUE, closes[0].as_str(), "pub fn proc_cvar_auto("),
        (LVAR_PROLOGUE, closes[1].as_str(), "pub fn proc_lvar_auto("),
    ] {
        assert!(prologue.contains(name));
        assert!(prologue.trim_end().ends_with("(String::new(), Vec::<String>::new(), String::new())"));
        assert!(prologue.contains("if false {"));
        assert!(epilogue.trim_start().starts_with("} else {"));
        assert!(epilogue.contains("(\"$UNDEFINED\".to_string(), Vec::<String>::new(), String::new())"));
        assert!(epilogue.contains("if val.0 == \"$UNDEFINED\" {"));
    }
}

#[test]
fn fixed_text_is_handed_out_whole() {
    assert_eq!(prologue_text(TargetClass::Cvar), CVAR_PROLOGUE);
    assert_eq!(prologue_text(TargetClass::Lvar), LVAR_PROLOGUE);
    assert_eq!(epilogue_text(TargetClass::Lvar), LVAR_EPILOGUE);
    assert_eq!(
        epilogue_text(TargetClass::Cvar),
        format!("{CVAR_EPILOGUE_HEAD}{ESCAPE}{CVAR_EPILOGUE_TAIL}")
    );
    assert_eq!(ESCAPE.as_bytes(), [0x1b]);
    assert!(epilogue_text(TargetClass::Cvar).contains("if chars[l] == '\u{1b}' {"));
}

#[test]
fn catalog_order_is_kept() {
    let catalog = vec![
        decl("zz", "lvar_vdj", Level::Exact, "exact: 1\n"),
        decl("aa", "lvar_vdj", Level::CellExact, "exact: 2\ncell: 3\n"),
        decl("mm", "lvar_vdj", Level::Cell, "cell: 4\n"),
    ];
    let m = generate_module(&catalog, TargetClass::Lvar).unwrap();
    assert_eq!(m.class, TargetClass::Lvar);
    let names: Vec<&str> = m.clauses.iter().map(|c| c.match_predicate.as_str()).collect();
    assert_eq!(
        names,
        vec!["vname == \"zz\"", "vname == \"aa\"", "vname == \"aa_cell\"", "vname == \"mm\""]
    );
    let text = m.text();
    let at = |s: &str| text.find(s).unwrap();
    assert!(at("\"zz\"") < at("\"aa\""));
    assert!(at("\"aa\"") < at("\"aa_cell\""));
    assert!(at("\"aa_cell\"") < at("\"mm\""));
    assert_eq!(Ok(text), assemble_module(&catalog, TargetClass::Lvar));
}

#[test]
fn declarations_of_other_classes_are_left_out() {
    let catalog = vec![
        decl("A_B", "other", Level::Exact, ""),
        decl("x", "cvar_vdj", Level::Exact, "exact: 1\n"),
    ];
    assert_eq!(compile_catalog(&catalog, TargetClass::Cvar).unwrap().len(), 1);
    assert_eq!(compile_catalog(&catalog, TargetClass::Lvar).unwrap().len(), 0);
}

#[test]
fn first_fault_in_catalog_order_ends_the_run() {
    let catalog = vec![
        decl("fine", "lvar_vdj", Level::Exact, "exact: 1\n"),
        decl("a{1..2", "lvar_vdj", Level::Exact, "exact: 1\n"),
        decl("A_B", "lvar_vdj", Level::Exact, "exact: 1\n"),
    ];
    let fault = CompileError::MalformedPattern {
        pattern: "a{1..2".to_string(),
        fault: PatternFault::BraceMismatch,
    };
    assert_eq!(assemble_module(&catalog, TargetClass::Lvar), Err(fault.clone()));
    assert_eq!(export_code(&catalog), Err(fault));
    assert!(assemble_module(&catalog, TargetClass::Cvar).is_ok());
}

#[test]
fn cell_exact_without_cell_marker_is_refused() {
    let catalog = vec![decl("both", "cvar_vdj", Level::CellExact, "let x = 1;\nexact: x\n")];
    assert_eq!(
        assemble_module(&catalog, TargetClass::Cvar),
        Err(CompileError::MissingResultMarker { pattern: "both".to_string(), marker: Marker::Cell })
    );
    assert_eq!(
        export_code(&catalog),
        Err(CompileError::MissingResultMarker { pattern: "both".to_string(), marker: Marker::Cell })
    );
}

#[test]
fn export_names_both_modules() {
    let catalog = vec![
        decl("q{0..}_", "cvar_vdj", Level::CellExact, "let n = arg1;\nexact: a\ncell: b\n"),
        decl("count_REGA", "lvar_vdj", Level::Exact, "exact: reg.as_str().to_string()\n"),
    ];
    let outs = export_code(&catalog).unwrap();
    assert_eq!(outs.len(), 2);
    assert_eq!(outs[0].0, "enclone_print/src/proc_cvar_auto.rs");
    assert_eq!(outs[1].0, "enclone_print/src/proc_lvar_auto.rs");
    assert_eq!(Ok(outs[0].1.clone()), assemble_module(&catalog, TargetClass::Cvar));
    assert_eq!(Ok(outs[1].1.clone()), assemble_module(&catalog, TargetClass::Lvar));
    assert!(outs[0].1.contains("vname.between2(\"q\", \"__cell\")"));
    assert!(outs[1].1.contains("let reg = Regex::new(vname.between2(\"count_\", \"\")).unwrap();"));
}

#[test]
fn generation_is_repeatable() {
    let catalog = vec![
        decl("q{0..}_", "cvar_vdj", Level::CellExact, "let n = arg1;\nexact: a\ncell: b\n"),
        decl("count_REGA", "lvar_vdj", Level::Exact, "exact: reg.as_str().to_string()\n"),
    ];
    let first = export_code(&catalog);
    let second = export_code(&catalog.clone());
    assert!(first.is_ok());
    assert_eq!(first, second);
}

#[test]
fn class_tags() {
    assert_eq!(TargetClass::Cvar.tag(), "cvar_vdj");
    assert_eq!(TargetClass::Lvar.tag(), "lvar_vdj");
    assert!(same_str("cvar_vdj", TargetClass::Cvar.tag()));
    assert!(!same_str("cvar_vdj ", TargetClass::Cvar.tag()));
}
