use enclone_vars::number::{read_i64, write_i64};
use enclone_vars::scan::uppercase_runs;
use enclone_vars::text::{
    chars_of, count_char, find_text, has_char, same_text, seek_class, slice_of, stands_at,
    string_of, CharClass,
};

fn chars(s: &str) -> Vec<char> {
    s.chars().collect()
}

#[test]
fn strings_and_characters_convert_both_ways() {
    assert_eq!(chars_of("aΣb"), vec!['a', 'Σ', 'b']);
    assert_eq!(chars_of(""), Vec::<char>::new());
    let v = chars("hello world");
    assert_eq!(string_of(&v, 0, v.len()), "hello world");
    assert_eq!(string_of(&v, 6, 11), "world");
    assert_eq!(string_of(&v, 3, 3), "");
    assert_eq!(slice_of(&v, 0, 5), chars("hello"));
}

#[test]
fn texts_compare_by_content() {
    assert!(same_text(&chars("abc"), &chars("abc")));
    assert!(!same_text(&chars("abc"), &chars("abd")));
    assert!(!same_text(&chars("abc"), &chars("ab")));
    assert!(same_text(&chars(""), &chars("")));
}

#[test]
fn seeking_stops_at_the_first_of_the_class() {
    let v = chars("ab{C}\nd");
    assert_eq!(seek_class(&v, 0, CharClass::Brace), 2);
    assert_eq!(seek_class(&v, 3, CharClass::Brace), 4);
    assert_eq!(seek_class(&v, 5, CharClass::Brace), 7);
    assert_eq!(seek_class(&v, 0, CharClass::Upper), 3);
    assert_eq!(seek_class(&v, 3, CharClass::NotUpper), 4);
    assert_eq!(seek_class(&v, 0, CharClass::Newline), 5);
    assert_eq!(seek_class(&v, 7, CharClass::Newline), 7);
    assert!(CharClass::Upper.test('Q'));
    assert!(!CharClass::Upper.test('q'));
    assert!(!CharClass::Upper.test('Σ'));
}

#[test]
fn counting_and_finding() {
    let v = chars("a{1..2}b{3..4}");
    assert_eq!(count_char(&v, '{'), 2);
    assert_eq!(count_char(&v, 'z'), 0);
    assert!(has_char(&v, '}'));
    assert!(!has_char(&v, '_'));
    let dots = chars("..");
    assert_eq!(find_text(&v, &dots, 0), Some(3));
    assert_eq!(find_text(&v, &dots, 4), Some(10));
    assert_eq!(find_text(&v, &dots, 11), None);
    assert_eq!(find_text(&v, &chars(""), 5), Some(5));
    assert_eq!(find_text(&v, &chars(""), 14), Some(14));
    assert_eq!(find_text(&v, &chars(""), 15), None);
    assert_eq!(find_text(&chars("ab"), &chars("abc"), 0), None);
    assert!(stands_at(&v, &dots, 3));
    assert!(!stands_at(&v, &dots, 4));
    assert!(!stands_at(&v, &dots, 13));
    assert!(stands_at(&v, &chars(""), 14));
    assert!(!stands_at(&v, &chars(""), 15));
}

#[test]
fn all_runs_are_found_in_order() {
    assert_eq!(
        uppercase_runs(&chars("A_BC_d_EFG")),
        vec![("A".to_string(), 0), ("BC".to_string(), 2), ("EFG".to_string(), 7)]
    );
    assert_eq!(uppercase_runs(&chars("abc")), vec![]);
    assert_eq!(uppercase_runs(&chars("XY")), vec![("XY".to_string(), 0)]);
}

#[test]
fn numerals_are_read() {
    assert_eq!(read_i64(&chars("0")), Some(0));
    assert_eq!(read_i64(&chars("42")), Some(42));
    assert_eq!(read_i64(&chars("-42")), Some(-42));
    assert_eq!(read_i64(&chars("+42")), Some(42));
    assert_eq!(read_i64(&chars("0042")), Some(42));
    assert_eq!(read_i64(&chars("9223372036854775807")), Some(i64::MAX));
    assert_eq!(read_i64(&chars("-9223372036854775808")), Some(i64::MIN));
    assert_eq!(read_i64(&chars("+9223372036854775808")), None);
    assert_eq!(read_i64(&chars("-9223372036854775809")), None);
    assert_eq!(read_i64(&chars("18446744073709551616")), None);
    assert_eq!(read_i64(&chars("")), None);
    assert_eq!(read_i64(&chars("-")), None);
    assert_eq!(read_i64(&chars("+")), None);
    assert_eq!(read_i64(&chars("4 2")), None);
    assert_eq!(read_i64(&chars("42x")), None);
    assert_eq!(read_i64(&chars("+-4")), None);
    assert_eq!(read_i64(&chars("٤٢")), None);
}

#[test]
fn numerals_are_written() {
    for (v, text) in [
        (0i64, "0"),
        (7, "7"),
        (10, "10"),
        (-1, "-1"),
        (1234567890, "1234567890"),
        (i64::MAX, "9223372036854775807"),
        (i64::MIN, "-9223372036854775808"),
    ] {
        let mut out = String::from(">");
        write_i64(&mut out, v);
        assert_eq!(out, format!(">{}", text));
    }
}

#[test]
fn written_numerals_read_back() {
    for v in [0i64, 1, -1, 9, 10, 99, 100, -100, 65535, i64::MAX, i64::MIN, i64::MAX - 1, i64::MIN + 1] {
        let mut out = String::new();
        write_i64(&mut out, v);
        assert_eq!(read_i64(&chars(&out)), Some(v));
        assert_eq!(out, v.to_string());
        assert_eq!(out.parse::<i64>(), Ok(v));
    }
}

#[test]
fn numerals_are_read_as_the_standard_parser_reads_them() {
    for s in ["0", "-0", "+0", "007", "-", "", "+", "1_000", " 1", "1 ", "0x10", "1e3", "--1", "12a",
        "9223372036854775807", "9223372036854775808", "-9223372036854775808", "-9223372036854775809"]
    {
        assert_eq!(read_i64(&chars(s)), s.parse::<i64>().ok(), "{:?}", s);
    }
}
