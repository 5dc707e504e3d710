use enclone_vars::classify::classify;
use enclone_vars::model::{
    CompileError, Keyword, Level, ParsedPattern, PatternFault, RangeSlot,
};
use enclone_vars::scan::get_uppers;
use enclone_vars::spell::spell;

fn shape(segments: &[&str], keyword: Keyword, slots: &[(Option<i64>, Option<i64>)]) -> ParsedPattern {
    ParsedPattern {
        segments: segments.iter().map(|s| s.to_string()).collect(),
        keyword,
        slots: slots.iter().map(|&(lower, upper)| RangeSlot { lower, upper }).collect(),
    }
}

#[test]
fn scanner_finds_no_run_in_lower_case_text() {
    assert_eq!(get_uppers("cdr3_aa"), Ok(vec![]));
    assert_eq!(get_uppers(""), Ok(vec![]));
}

#[test]
fn scanner_reports_run_with_its_offset() {
    assert_eq!(get_uppers("REGA"), Ok(vec![("REGA".to_string(), 0)]));
    assert_eq!(get_uppers("count_REGA_x"), Ok(vec![("REGA".to_string(), 6)]));
    assert_eq!(get_uppers("abC"), Ok(vec![("C".to_string(), 2)]));
    assert_eq!(get_uppers("x{1..}NAME"), Ok(vec![("NAME".to_string(), 6)]));
}

#[test]
fn scanner_counts_offsets_in_characters() {
    assert_eq!(get_uppers("μ_REGA"), Ok(vec![("REGA".to_string(), 2)]));
}

#[test]
fn scanner_refuses_two_runs() {
    assert_eq!(
        get_uppers("A_B"),
        Err(CompileError::MalformedPattern {
            pattern: "A_B".to_string(),
            fault: PatternFault::MultipleKeywordRuns
        })
    );
    assert!(get_uppers("AB{3..7}CD").is_err());
    assert!(get_uppers("X{1..}REGAY").is_err());
}

#[test]
fn scanner_takes_only_ascii_upper_case() {
    assert_eq!(get_uppers("ΣxA"), Ok(vec![("A".to_string(), 2)]));
}

#[test]
fn plain_pattern_is_one_segment() {
    assert_eq!(classify("cdr3_aa"), Ok(shape(&["cdr3_aa"], Keyword::Plain, &[])));
    assert_eq!(classify(""), Ok(shape(&[""], Keyword::Plain, &[])));
}

#[test]
fn unknown_upper_case_run_is_plain() {
    assert_eq!(classify("AB"), Ok(shape(&["AB"], Keyword::Plain, &[])));
    assert_eq!(classify("x_REGAY"), Ok(shape(&["x_REGAY"], Keyword::Plain, &[])));
    assert_eq!(classify("A{0..}"), Ok(shape(&["A", ""], Keyword::Plain, &[(Some(0), None)])));
}

#[test]
fn keywords_by_run() {
    assert_eq!(classify("count_REGA"), Ok(shape(&["count_", ""], Keyword::Rega, &[])));
    assert_eq!(classify("DATASET_cells"), Ok(shape(&["", "_cells"], Keyword::Dataset, &[])));
    assert_eq!(classify("n_NAME_x"), Ok(shape(&["n_", "_x"], Keyword::Name, &[])));
}

#[test]
fn keywords_by_whole_pattern() {
    assert_eq!(classify("BC"), Ok(shape(&["BC"], Keyword::Bc, &[])));
    assert_eq!(classify("INFO"), Ok(shape(&["INFO"], Keyword::Info, &[])));
    assert_eq!(classify("BC_x"), Ok(shape(&["BC_x"], Keyword::Plain, &[])));
    assert_eq!(classify("x_INFO"), Ok(shape(&["x_INFO"], Keyword::Plain, &[])));
}

#[test]
fn one_range_with_both_bounds() {
    assert_eq!(
        classify("ab{3..7}cd"),
        Ok(shape(&["ab", "cd"], Keyword::Plain, &[(Some(3), Some(7))]))
    );
}

#[test]
fn omitted_bounds_are_absent() {
    assert_eq!(classify("q{0..}_"), Ok(shape(&["q", "_"], Keyword::Plain, &[(Some(0), None)])));
    assert_eq!(classify("q{..9}"), Ok(shape(&["q", ""], Keyword::Plain, &[(None, Some(9))])));
    assert_eq!(classify("{..}"), Ok(shape(&["", ""], Keyword::Plain, &[(None, None)])));
}

#[test]
fn signed_bounds() {
    assert_eq!(
        classify("t{-5..+5}"),
        Ok(shape(&["t", ""], Keyword::Plain, &[(Some(-5), Some(5))]))
    );
    assert_eq!(
        classify("t{-9223372036854775808..9223372036854775807}"),
        Ok(shape(&["t", ""], Keyword::Plain, &[(Some(i64::MIN), Some(i64::MAX))]))
    );
    assert_eq!(classify("t{007..}"), Ok(shape(&["t", ""], Keyword::Plain, &[(Some(7), None)])));
}

#[test]
fn bound_out_of_range_is_refused() {
    assert_eq!(classify("t{9223372036854775808..}"), Err(PatternFault::BadRange));
    assert_eq!(classify("t{..-9223372036854775809}"), Err(PatternFault::BadRange));
}

#[test]
fn two_and_three_ranges() {
    assert_eq!(
        classify("a{1..2}b{..4}"),
        Ok(shape(&["a", "b", ""], Keyword::Plain, &[(Some(1), Some(2)), (None, Some(4))]))
    );
    assert_eq!(
        classify("a{1..}_{2..}_{3..}z"),
        Ok(shape(
            &["a", "_", "_", "z"],
            Keyword::Plain,
            &[(Some(1), None), (Some(2), None), (Some(3), None)]
        ))
    );
}

#[test]
fn range_then_regex() {
    assert_eq!(
        classify("x{1..}_REGA_y"),
        Ok(shape(&["x", "_", "_y"], Keyword::Rega, &[(Some(1), None)]))
    );
}

#[test]
fn two_upper_case_runs_are_refused() {
    assert_eq!(classify("AB{3..7}CD"), Err(PatternFault::MultipleKeywordRuns));
    assert_eq!(classify("X{1..}REGAY"), Err(PatternFault::MultipleKeywordRuns));
}

#[test]
fn unequal_brace_counts_are_refused() {
    assert_eq!(classify("a{1..2"), Err(PatternFault::BraceMismatch));
    assert_eq!(classify("a1..2}"), Err(PatternFault::BraceMismatch));
    assert_eq!(classify("a{{1..2}"), Err(PatternFault::BraceMismatch));
}

#[test]
fn braces_out_of_order_are_refused() {
    assert_eq!(classify("a}1..2{"), Err(PatternFault::BadRange));
    assert_eq!(classify("a{1..{2}}"), Err(PatternFault::BadRange));
}

#[test]
fn range_without_dots_or_with_bad_bound_is_refused() {
    assert_eq!(classify("a{12}"), Err(PatternFault::BadRange));
    assert_eq!(classify("a{1.2}"), Err(PatternFault::BadRange));
    assert_eq!(classify("a{x..}"), Err(PatternFault::BadRange));
    assert_eq!(classify("a{1..2 }"), Err(PatternFault::BadRange));
    assert_eq!(classify("a{1...2}"), Err(PatternFault::BadRange));
    assert_eq!(classify("a{-..}"), Err(PatternFault::BadRange));
}

#[test]
fn more_than_three_ranges_are_refused() {
    assert_eq!(classify("a{..}b{..}c{..}d{..}"), Err(PatternFault::TooManyRanges));
}

#[test]
fn keyword_with_excluding_ranges_is_refused() {
    assert_eq!(classify("DATASET{1..}"), Err(PatternFault::IllegalCombination));
    assert_eq!(classify("x{1..}NAME"), Err(PatternFault::IllegalCombination));
    assert_eq!(classify("x{1..}y{2..}REGA"), Err(PatternFault::IllegalCombination));
}

#[test]
fn regex_before_range_is_refused() {
    assert_eq!(classify("REGA_{1..}x"), Err(PatternFault::IllegalCombination));
}

#[test]
fn first_fault_wins() {
    assert_eq!(classify("A{B"), Err(PatternFault::MultipleKeywordRuns));
    assert_eq!(classify("DATASET{1..}{"), Err(PatternFault::BraceMismatch));
    assert_eq!(classify("x{1}y{2..}REGA"), Err(PatternFault::IllegalCombination));
}

#[test]
fn shapes_are_checked_on_construction() {
    let ok = ParsedPattern::new(
        vec!["AB".to_string(), "CD".to_string()],
        Keyword::Plain,
        vec![RangeSlot { lower: Some(3), upper: Some(7) }],
    );
    assert!(ok.is_some());
    assert!(ok.unwrap().is_well_formed());
    let too_few_segments = ParsedPattern::new(
        vec!["AB".to_string()],
        Keyword::Plain,
        vec![RangeSlot { lower: None, upper: None }],
    );
    assert_eq!(too_few_segments, None);
    let name_with_range = ParsedPattern::new(
        vec!["a".to_string(), "b".to_string(), "c".to_string()],
        Keyword::Name,
        vec![RangeSlot { lower: None, upper: None }],
    );
    assert_eq!(name_with_range, None);
    let four = RangeSlot { lower: None, upper: None };
    let too_many = ParsedPattern::new(
        vec![String::new(); 5],
        Keyword::Plain,
        vec![four, four, four, four],
    );
    assert_eq!(too_many, None);
    assert!(!shape(&["a", "b", "c", "d"], Keyword::Rega, &[(None, None), (None, None)])
        .is_well_formed());
}

#[test]
fn trailing_regex_is_told_by_keyword() {
    assert!(classify("x{1..}_REGA").unwrap().has_trailing_regex());
    assert!(classify("count_REGA").unwrap().has_trailing_regex());
    assert!(!classify("x{1..}_y").unwrap().has_trailing_regex());
}

#[test]
fn level_tags() {
    assert_eq!(Level::from_tag("exact"), Some(Level::Exact));
    assert_eq!(Level::from_tag("cell"), Some(Level::Cell));
    assert_eq!(Level::from_tag("cell-exact"), Some(Level::CellExact));
    assert_eq!(Level::from_tag("Cell"), None);
    assert_eq!(Level::CellExact.tag(), "cell-exact");
    assert_eq!(Level::Cell.tag(), "cell");
    assert_eq!(Level::Exact.tag(), "exact");
}

#[test]
fn diagnostics_name_the_pattern() {
    let e = CompileError::MalformedPattern {
        pattern: "A_B".to_string(),
        fault: PatternFault::MultipleKeywordRuns,
    };
    assert_eq!(e.message(), "Illegal variable A_B, has more than one uppercase string in it.");
    let e = CompileError::MissingResultMarker {
        pattern: "both".to_string(),
        marker: enclone_vars::model::Marker::Cell,
    };
    assert_eq!(e.message(), "Variable both lacks the value of its cell marker.");
}

#[test]
fn shapes_are_spelled_as_patterns() {
    assert_eq!(spell(&shape(&["cdr3_aa"], Keyword::Plain, &[])), "cdr3_aa");
    assert_eq!(spell(&shape(&["ab", "cd"], Keyword::Plain, &[(Some(3), Some(7))])), "ab{3..7}cd");
    assert_eq!(spell(&shape(&["q", "_"], Keyword::Plain, &[(Some(0), None)])), "q{0..}_");
    assert_eq!(
        spell(&shape(&["", "", "", ""], Keyword::Plain, &[(None, None), (Some(-1), None), (None, Some(-2))])),
        "{..}{-1..}{..-2}"
    );
    assert_eq!(spell(&shape(&["count_", ""], Keyword::Rega, &[])), "count_REGA");
    assert_eq!(spell(&shape(&["n_", "_x"], Keyword::Name, &[])), "n_NAME_x");
    assert_eq!(spell(&shape(&["", "_cells"], Keyword::Dataset, &[])), "DATASET_cells");
    assert_eq!(
        spell(&shape(&["x", "_", "_y"], Keyword::Rega, &[(Some(1), None)])),
        "x{1..}_REGA_y"
    );
    assert_eq!(spell(&shape(&["BC"], Keyword::Bc, &[])), "BC");
    assert_eq!(spell(&shape(&["INFO"], Keyword::Info, &[])), "INFO");
}

#[test]
fn spelled_shapes_classify_back() {
    let shapes = [
        shape(&["cdr3_aa"], Keyword::Plain, &[]),
        shape(&[""], Keyword::Plain, &[]),
        shape(&["ab", "cd"], Keyword::Plain, &[(Some(3), Some(7))]),
        shape(&["a", "b", "c", "d"], Keyword::Plain, &[(None, None), (Some(i64::MIN), None), (None, Some(i64::MAX))]),
        shape(&["count_", ""], Keyword::Rega, &[]),
        shape(&["", ""], Keyword::Name, &[]),
        shape(&["x", "_", "_y"], Keyword::Rega, &[(Some(1), Some(-1))]),
        shape(&["BC"], Keyword::Bc, &[]),
        shape(&["INFO"], Keyword::Info, &[]),
    ];
    for p in shapes.iter() {
        assert_eq!(classify(&spell(p)).as_ref(), Ok(p));
    }
}

#[test]
fn accepted_patterns_spell_themselves() {
    for pattern in [
        "", "abc", "AB", "A{0..}", "q{0..}_", "ab{3..7}cd", "a{1..2}b{..4}", "a{1..}_{..2}-{..}z",
        "count_REGA", "x{1..}_REGA_y", "n_NAME_x", "DATASET", "BC", "INFO", "BC_x", "t{-5..5}",
    ] {
        assert_eq!(spell(&classify(pattern).unwrap()), pattern);
    }
    assert_eq!(spell(&classify("t{007..+5}").unwrap()), "t{7..5}");
}
