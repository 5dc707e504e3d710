use enclone_vars::assemble::{assemble_module, compile_catalog, export_code, generate_module};
use enclone_vars::classify::classify;
use enclone_vars::dperfect::dperfect;
use enclone_vars::matcher::{dispatch, judge, listed, match_name, settle, Capture, NameLists, Verdict};
use enclone_vars::model::{Declaration, Keyword, Level, ParsedPattern, RangeSlot, TargetClass};

fn no_lists() -> NameLists {
    NameLists {
        datasets: vec![],
        origins: vec![],
        donors: vec![],
        tags: vec![],
        info_fields: vec![],
        alt_barcodes: vec![],
    }
}

fn some_lists() -> NameLists {
    let names = |v: &[&str]| v.iter().map(|s| s.to_string()).collect::<Vec<String>>();
    NameLists {
        datasets: names(&["d1", "d2"]),
        origins: names(&["o1"]),
        donors: names(&["donor"]),
        tags: names(&["t"]),
        info_fields: names(&["field"]),
        alt_barcodes: names(&["bc1", "bc2"]),
    }
}

fn args(v: &[i64]) -> Option<Capture> {
    Some(Capture { args: v.to_vec(), text: None })
}

fn bound(v: &[i64], text: &str) -> Option<Capture> {
    Some(Capture { args: v.to_vec(), text: Some(text.to_string()) })
}

fn decl(pattern: &str, class: &str, level: Level, body: &str) -> Declaration {
    Declaration {
        pattern: pattern.to_string(),
        target_class: class.to_string(),
        level,
        body: body.to_string(),
    }
}

#[test]
fn bounded_range_between_upper_case_segments() {
    let p = ParsedPattern::new(
        vec!["AB".to_string(), "CD".to_string()],
        Keyword::Plain,
        vec![RangeSlot { lower: Some(3), upper: Some(7) }],
    )
    .unwrap();
    let lists = no_lists();
    assert_eq!(match_name(&p, "AB5CD", &lists), args(&[5]));
    assert_eq!(match_name(&p, "AB9CD", &lists), None);
    assert_eq!(match_name(&p, "ABxCD", &lists), None);
}

#[test]
fn bounded_range_through_the_classifier() {
    let p = classify("ab{3..7}cd").unwrap();
    let lists = no_lists();
    assert_eq!(match_name(&p, "ab5cd", &lists), args(&[5]));
    assert_eq!(match_name(&p, "ab9cd", &lists), None);
    assert_eq!(match_name(&p, "abxcd", &lists), None);
    assert_eq!(match_name(&p, "ab2cd", &lists), None);
    assert_eq!(match_name(&p, "ab3cd", &lists), args(&[3]));
    assert_eq!(match_name(&p, "ab7cd", &lists), args(&[7]));
    assert_eq!(match_name(&p, "ab8cd", &lists), None);
    assert_eq!(match_name(&p, "abcd", &lists), None);
    assert_eq!(match_name(&p, "ab5cde", &lists), None);
    assert_eq!(match_name(&p, "xab5cd", &lists), None);
}

#[test]
fn range_then_regex_between_upper_case_segments() {
    let p = ParsedPattern::new(
        vec!["X".to_string(), "".to_string(), "Y".to_string()],
        Keyword::Rega,
        vec![RangeSlot { lower: Some(1), upper: None }],
    )
    .unwrap();
    let lists = no_lists();
    // With nothing between the range and the expression, the range is empty and holds no number.
    assert_eq!(match_name(&p, "X5abY", &lists), None);
    assert_eq!(match_name(&p, "XY", &lists), None);
}

#[test]
fn range_then_separated_regex_between_upper_case_segments() {
    let p = ParsedPattern::new(
        vec!["X".to_string(), "_".to_string(), "Y".to_string()],
        Keyword::Rega,
        vec![RangeSlot { lower: Some(1), upper: None }],
    )
    .unwrap();
    let lists = no_lists();
    assert_eq!(match_name(&p, "X5_a.bY", &lists), bound(&[5], "a.b"));
    assert_eq!(match_name(&p, "X1_Y", &lists), bound(&[1], ""));
    assert_eq!(match_name(&p, "X0_a.bY", &lists), None);
    assert_eq!(match_name(&p, "X5_a(bY", &lists), None);
    assert_eq!(match_name(&p, "X5_a_bY", &lists), None);
    assert_eq!(match_name(&p, "X5_a.b", &lists), None);
}

#[test]
fn range_then_regex_needs_number_and_valid_expression() {
    let p = classify("x{1..}_REGA_y").unwrap();
    let lists = no_lists();
    assert_eq!(match_name(&p, "x5_a.*b_y", &lists), bound(&[5], "a.*b"));
    assert_eq!(match_name(&p, "x1_[0-9]+_y", &lists), bound(&[1], "[0-9]+"));
    assert_eq!(match_name(&p, "x0_a.*b_y", &lists), None);
    assert_eq!(match_name(&p, "x5_a(b_y", &lists), None);
    assert_eq!(match_name(&p, "x5_a_b_y", &lists), None);
    assert_eq!(match_name(&p, "xq_ab_y", &lists), None);
    assert_eq!(match_name(&p, "x5_ab_z", &lists), None);
}

#[test]
fn regex_test_is_left_to_the_caller_by_judge() {
    let p = classify("count_REGA").unwrap();
    let lists = no_lists();
    let v = judge(&p, "count_a(b", &lists);
    assert_eq!(v, Verdict::IfRegex(Capture { args: vec![], text: Some("a(b".to_string()) }));
    assert_eq!(settle(v.clone(), false), None);
    assert_eq!(settle(v, true), bound(&[], "a(b"));
    assert_eq!(judge(&p, "count_a_b", &lists), Verdict::NoMatch);
    assert_eq!(settle(Verdict::NoMatch, true), None);
    assert_eq!(settle(Verdict::Match(Capture { args: vec![1], text: None }), false), args(&[1]));
    assert_eq!(match_name(&p, "count_a(b", &lists), None);
    assert_eq!(match_name(&p, "count_a|b", &lists), bound(&[], "a|b"));
    assert_eq!(match_name(&p, "count_", &lists), bound(&[], ""));
}

#[test]
fn plain_pattern_matches_itself_only() {
    let p = classify("cdr3_aa").unwrap();
    let lists = no_lists();
    assert_eq!(match_name(&p, "cdr3_aa", &lists), args(&[]));
    assert_eq!(match_name(&p, "cdr3_aa_", &lists), None);
    assert_eq!(match_name(&p, "cdr3_a", &lists), None);
    assert_eq!(match_name(&p, "", &lists), None);
}

#[test]
fn names_are_looked_up() {
    let lists = some_lists();
    let p = classify("n_NAME_x").unwrap();
    assert_eq!(match_name(&p, "n_d1_x", &lists), bound(&[], "d1"));
    assert_eq!(match_name(&p, "n_o1_x", &lists), bound(&[], "o1"));
    assert_eq!(match_name(&p, "n_donor_x", &lists), bound(&[], "donor"));
    assert_eq!(match_name(&p, "n_t_x", &lists), bound(&[], "t"));
    assert_eq!(match_name(&p, "n_field_x", &lists), None);
    assert_eq!(match_name(&p, "n_d1_y", &lists), None);
    let p = classify("DATASET_cells").unwrap();
    assert_eq!(match_name(&p, "d2_cells", &lists), bound(&[], "d2"));
    assert_eq!(match_name(&p, "o1_cells", &lists), None);
    assert_eq!(match_name(&p, "_cells", &lists), None);
}

#[test]
fn barcodes_and_info_fields_are_looked_up_whole() {
    let lists = some_lists();
    let p = classify("BC").unwrap();
    assert_eq!(match_name(&p, "bc2", &lists), args(&[]));
    assert_eq!(match_name(&p, "BC", &lists), None);
    assert_eq!(match_name(&p, "field", &lists), None);
    let p = classify("INFO").unwrap();
    assert_eq!(match_name(&p, "field", &lists), args(&[]));
    assert_eq!(match_name(&p, "bc1", &lists), None);
    assert!(listed(&lists.alt_barcodes, &"bc1".chars().collect()));
    assert!(!listed(&lists.alt_barcodes, &"bc".chars().collect()));
}

#[test]
fn numbers_are_signed_decimals_that_fit() {
    let p = classify("t{..}").unwrap();
    let lists = no_lists();
    assert_eq!(match_name(&p, "t0", &lists), args(&[0]));
    assert_eq!(match_name(&p, "t-3", &lists), args(&[-3]));
    assert_eq!(match_name(&p, "t+3", &lists), args(&[3]));
    assert_eq!(match_name(&p, "t007", &lists), args(&[7]));
    assert_eq!(match_name(&p, "t-0", &lists), args(&[0]));
    assert_eq!(match_name(&p, "t9223372036854775807", &lists), args(&[i64::MAX]));
    assert_eq!(match_name(&p, "t-9223372036854775808", &lists), args(&[i64::MIN]));
    assert_eq!(match_name(&p, "t0000000000000000000000009", &lists), args(&[9]));
    assert_eq!(match_name(&p, "t9223372036854775808", &lists), None);
    assert_eq!(match_name(&p, "t-9223372036854775809", &lists), None);
    assert_eq!(match_name(&p, "t99999999999999999999999", &lists), None);
    assert_eq!(match_name(&p, "t", &lists), None);
    assert_eq!(match_name(&p, "t-", &lists), None);
    assert_eq!(match_name(&p, "t+", &lists), None);
    assert_eq!(match_name(&p, "t 3", &lists), None);
    assert_eq!(match_name(&p, "t3 ", &lists), None);
    assert_eq!(match_name(&p, "t--3", &lists), None);
    assert_eq!(match_name(&p, "t1.5", &lists), None);
    assert_eq!(match_name(&p, "t٣", &lists), None);
}

#[test]
fn bounds_are_inclusive_and_independent() {
    let lists = no_lists();
    let p = classify("q{0..}_").unwrap();
    assert_eq!(match_name(&p, "q0_", &lists), args(&[0]));
    assert_eq!(match_name(&p, "q-1_", &lists), None);
    assert_eq!(match_name(&p, "q123456_", &lists), args(&[123456]));
    let p = classify("q{..-2}").unwrap();
    assert_eq!(match_name(&p, "q-2", &lists), args(&[-2]));
    assert_eq!(match_name(&p, "q-1", &lists), None);
    assert_eq!(match_name(&p, "q-100", &lists), args(&[-100]));
    let p = classify("q{5..4}").unwrap();
    assert_eq!(match_name(&p, "q4", &lists), None);
    assert_eq!(match_name(&p, "q5", &lists), None);
}

#[test]
fn two_and_three_ranges_bind_in_order() {
    let lists = no_lists();
    let p = classify("a{1..2}b{..4}").unwrap();
    assert_eq!(match_name(&p, "a1b4", &lists), args(&[1, 4]));
    assert_eq!(match_name(&p, "a2b-7", &lists), args(&[2, -7]));
    assert_eq!(match_name(&p, "a3b4", &lists), None);
    assert_eq!(match_name(&p, "a1b5", &lists), None);
    assert_eq!(match_name(&p, "a1c4", &lists), None);
    let p = classify("a{1..}_{..2}-{..}z").unwrap();
    assert_eq!(match_name(&p, "a1_2-3z", &lists), args(&[1, 2, 3]));
    assert_eq!(match_name(&p, "a10_-20--30z", &lists), None);
    assert_eq!(match_name(&p, "a10_-20_-30z", &lists), None);
    assert_eq!(match_name(&p, "a10_1--30z", &lists), args(&[10, 1, -30]));
    assert_eq!(match_name(&p, "a1_2-z", &lists), None);
    assert_eq!(match_name(&p, "a1_3-3z", &lists), None);
    assert_eq!(match_name(&p, "a0_2-3z", &lists), None);
    assert_eq!(match_name(&p, "a1_2-3", &lists), None);
}

#[test]
fn a_range_ends_at_the_first_occurrence_of_what_follows() {
    let lists = no_lists();
    let p = ParsedPattern::new(
        vec!["a".to_string(), "1".to_string(), "".to_string()],
        Keyword::Plain,
        vec![RangeSlot { lower: None, upper: None }, RangeSlot { lower: None, upper: None }],
    )
    .unwrap();
    assert_eq!(match_name(&p, "a212", &lists), args(&[2, 2]));
    assert_eq!(match_name(&p, "a2123", &lists), args(&[2, 23]));
    // The first range would have to be empty: the separator stands right behind "a".
    assert_eq!(match_name(&p, "a111", &lists), None);
    let p = classify("x{..}{..}y").unwrap();
    assert_eq!(match_name(&p, "x12y", &lists), None);
}

#[test]
fn the_last_segment_closes_the_name() {
    let lists = no_lists();
    let p = classify("v{..}end").unwrap();
    assert_eq!(match_name(&p, "v1end", &lists), args(&[1]));
    assert_eq!(match_name(&p, "v1endend", &lists), None);
    assert_eq!(match_name(&p, "vend", &lists), None);
    let p = ParsedPattern::new(
        vec!["ab".to_string(), "bc".to_string()],
        Keyword::Plain,
        vec![RangeSlot { lower: None, upper: None }],
    )
    .unwrap();
    assert_eq!(match_name(&p, "abc", &lists), None);
    assert_eq!(match_name(&p, "ab0bc", &lists), args(&[0]));
}

#[test]
fn earlier_declaration_shadows_later_one() {
    let catalog = vec![
        decl("AB", "lvar_vdj", Level::Exact, "exact: x\n"),
        decl("A{0..}", "lvar_vdj", Level::Exact, "exact: y\n"),
    ];
    let clauses = compile_catalog(&catalog, TargetClass::Lvar).unwrap();
    assert_eq!(clauses.len(), 2);
    let lists = no_lists();
    assert_eq!(dispatch(&clauses, "AB", &lists), Some((0, Capture { args: vec![], text: None })));
    assert_eq!(dispatch(&clauses, "A7", &lists), Some((1, Capture { args: vec![7], text: None })));
    assert_eq!(dispatch(&clauses, "B7", &lists), None);
}

#[test]
fn earlier_declaration_stands_first_in_the_exported_module() {
    let catalog = vec![
        decl("other", "cvar_vdj", Level::Exact, "exact: w\n"),
        decl("AB", "lvar_vdj", Level::Exact, "exact: x\n"),
        decl("A{0..}", "lvar_vdj", Level::Exact, "exact: y\n"),
    ];
    let outs = export_code(&catalog).unwrap();
    let text = &outs[1].1;
    let first = text.find("} else if vname == \"AB\" {").unwrap();
    let second = text.find("} else if vname.starts_with('A') && vname.ends_with(\"\")").unwrap();
    assert!(first < second);
    let module = generate_module(&catalog, TargetClass::Lvar).unwrap();
    assert_eq!(Ok(module.text()), assemble_module(&catalog, TargetClass::Lvar));
    assert_eq!(module.text(), *text);
    let lists = no_lists();
    assert_eq!(dispatch(&module.clauses, "AB", &lists).map(|r| r.0), Some(0));
    assert_eq!(module.clauses[0].body, "\n(x, Vec::new(), \"exact\".to_string())\n");
}

#[test]
fn first_of_two_matching_clauses_wins() {
    let catalog = vec![
        decl("n{..}", "cvar_vdj", Level::Exact, "exact: x\n"),
        decl("n{5..}", "cvar_vdj", Level::Exact, "exact: y\n"),
        decl("n7", "cvar_vdj", Level::Exact, "exact: z\n"),
    ];
    let clauses = compile_catalog(&catalog, TargetClass::Cvar).unwrap();
    let lists = no_lists();
    assert_eq!(dispatch(&clauses, "n7", &lists).map(|r| r.0), Some(0));
    let swapped = vec![catalog[2].clone(), catalog[1].clone(), catalog[0].clone()];
    let clauses = compile_catalog(&swapped, TargetClass::Cvar).unwrap();
    assert_eq!(dispatch(&clauses, "n7", &lists).map(|r| r.0), Some(0));
    assert_eq!(dispatch(&clauses, "n6", &lists).map(|r| r.0), Some(1));
    assert_eq!(dispatch(&clauses, "n4", &lists).map(|r| r.0), Some(2));
    assert_eq!(dispatch(&clauses, "m4", &lists), None);
    assert_eq!(dispatch(&vec![], "n7", &lists), None);
}

#[test]
fn per_cell_name_reaches_the_second_clause() {
    let catalog = vec![decl("g{1..}", "lvar_vdj", Level::CellExact, "exact: e\ncell: c\n")];
    let clauses = compile_catalog(&catalog, TargetClass::Lvar).unwrap();
    let lists = no_lists();
    assert_eq!(dispatch(&clauses, "g3", &lists), Some((0, Capture { args: vec![3], text: None })));
    assert_eq!(
        dispatch(&clauses, "g3_cell", &lists),
        Some((1, Capture { args: vec![3], text: None }))
    );
    assert_eq!(dispatch(&clauses, "g0_cell", &lists), None);
}

#[test]
fn longest_run_of_agreement() {
    let x = b"ACGTACGT".to_vec();
    assert_eq!(dperfect(&x, &vec![b"GTAC".to_vec(), b"TTTT".to_vec(), b"CGTTC".to_vec()]), 4);
    assert_eq!(dperfect(&x, &vec![b"TTTT".to_vec()]), 1);
    assert_eq!(dperfect(&x, &vec![b"CGTTC".to_vec()]), 3);
    assert_eq!(dperfect(&x, &vec![b"GGGG".to_vec(), b"ACGA".to_vec()]), 3);
    assert_eq!(dperfect(&x, &vec![b"NNNN".to_vec()]), 0);
}

#[test]
fn genes_longer_than_the_region_are_passed_over() {
    let x = b"ACG".to_vec();
    assert_eq!(dperfect(&x, &vec![b"ACGT".to_vec()]), 0);
    assert_eq!(dperfect(&x, &vec![b"ACGT".to_vec(), b"CG".to_vec()]), 2);
    assert_eq!(dperfect(&x, &vec![]), 0);
    assert_eq!(dperfect(&x, &vec![vec![]]), 0);
    assert_eq!(dperfect(&[], &vec![b"A".to_vec()]), 0);
    assert_eq!(dperfect(&x, &vec![b"ACG".to_vec()]), 3);
}

#[test]
fn a_mismatch_starts_the_count_anew() {
    let x = b"AAXAAAXAA".to_vec();
    assert_eq!(dperfect(&x, &vec![b"AAAAAAAAA".to_vec()]), 3);
    assert_eq!(dperfect(&x, &vec![b"AAAA".to_vec()]), 3);
    assert_eq!(dperfect(&x, &vec![b"XAAAX".to_vec()]), 5);
}
