use enclone_vars::classify::classify;
use enclone_vars::clause::Test;
use enclone_vars::compile::tests_for;
use enclone_vars::matcher::{match_name, NameLists};
use enclone_vars::model::{Keyword, ParsedPattern, RangeSlot};
use string_utils::TextUtils;

fn lists() -> NameLists {
    let names = |v: &[&str]| v.iter().map(|s| s.to_string()).collect::<Vec<String>>();
    NameLists {
        datasets: names(&["d1", "d2", "1"]),
        origins: names(&["o1"]),
        donors: names(&["donor", "a"]),
        tags: names(&["t"]),
        info_fields: names(&["field", "x1y"]),
        alt_barcodes: names(&["bc1", "a1b", "BC"]),
    }
}

/// What is left of the name past the first `k` literal segments.
fn cursor<'a>(p: &ParsedPattern, vname: &'a str, k: usize) -> &'a str {
    let mut rest = vname;
    for j in 0..k {
        rest = rest.after(&p.segments[j]);
    }
    rest
}

/// What stands in placeholder `k`, as the emitted expression computes it.
fn interior<'a>(p: &ParsedPattern, vname: &'a str, k: usize) -> &'a str {
    let rest = cursor(p, vname, k);
    if k + 2 == p.segments.len() {
        rest.between2(&p.segments[k], &p.segments[k + 1])
    } else {
        rest.between(&p.segments[k], &p.segments[k + 1])
    }
}

/// Evaluates one emitted test the way the emitted code does.
fn holds(p: &ParsedPattern, t: Test, vname: &str, l: &NameLists) -> bool {
    let holes = p.segments.len() - 1;
    let member = |list: &Vec<String>, x: &str| list.iter().any(|y| y == x);
    match t {
        Test::NameIs => vname == p.segments[0],
        Test::InAltBarcodes => member(&l.alt_barcodes, vname),
        Test::InInfoFields => member(&l.info_fields, vname),
        Test::StartsWith => vname.starts_with(p.segments[0].as_str()),
        Test::Contains(k) => cursor(p, vname, k).contains(p.segments[k].as_str()),
        Test::EndsWith => cursor(p, vname, holes).ends_with(p.segments[holes].as_str()),
        Test::NameEndsWith => vname.ends_with(p.segments[holes].as_str()),
        Test::Encloses => vname
            .between2(&p.segments[0], &p.segments[holes])
            .contains(p.segments[1].as_str()),
        Test::Parses(i) => interior(p, vname, i).parse::<i64>().is_ok(),
        Test::AtLeast(i, v) => interior(p, vname, i).force_i64() >= v,
        Test::AtMost(i, v) => interior(p, vname, i).force_i64() <= v,
        Test::NoUnderscore => !interior(p, vname, holes - 1).contains('_'),
        Test::Compiles => regex::Regex::new(interior(p, vname, holes - 1)).is_ok(),
        Test::IsDataset => member(&l.datasets, interior(p, vname, holes - 1)),
        Test::IsKnownName => {
            let x = interior(p, vname, holes - 1);
            member(&l.datasets, x)
                || member(&l.origins, x)
                || member(&l.donors, x)
                || member(&l.tags, x)
        }
    }
}

fn emitted_predicate(p: &ParsedPattern, vname: &str, l: &NameLists) -> bool {
    tests_for(p).into_iter().all(|t| holds(p, t, vname, l))
}

/// Whether first and last segment of a pattern of one range overlap in the name: there the
/// emitted tests abort.
fn overlapped(p: &ParsedPattern, vname: &str) -> bool {
    let first = p.segments[0].as_str();
    let last = p.segments[p.segments.len() - 1].as_str();
    p.slots.len() == 1
        && vname.starts_with(first)
        && vname.ends_with(last)
        && vname.len() < first.len() + last.len()
}

/// What the emitted tests decide, or nothing where they abort.
fn emitted(p: &ParsedPattern, vname: &str, l: &NameLists) -> Option<bool> {
    if overlapped(p, vname) {
        None
    } else {
        Some(emitted_predicate(p, vname, l))
    }
}

#[test]
fn overlapping_segments_give_no_match() {
    let l = lists();
    for (pattern, name) in [("ab{1..}b", "ab"), ("aa{..}aa", "aaa"), ("a{..}_REGAa", "a")] {
        let p = classify(pattern).unwrap();
        assert!(overlapped(&p, name));
        assert_eq!(match_name(&p, name, &l), None);
    }
    let p = classify("ab{1..}b").unwrap();
    assert!(!overlapped(&p, "ab1b"));
    assert!(emitted_predicate(&p, "ab1b", &l));
    assert!(!overlapped(&p, "abb"));
    assert!(!emitted_predicate(&p, "abb", &l));
}

const NAMES: [&str; 44] = [
    "", "a", "ab", "abc", "a1", "a1b", "a1b2", "a12b34", "a-1b+2", "a1b2c3", "a1b2c3d", "ab1cd",
    "ab5cd", "ab9cd", "abxcd", "abcd", "ab5cdcd", "x1_y", "x1_.*_y", "x1_a_b_y", "x0_a_y",
    "x5_(_y", "x5__y", "count_", "count_a", "count_a(b", "count_a_b", "n_d1_x", "n_o1_x",
    "n_zz_x", "n__x", "d1_cells", "o1_cells", "1_cells", "bc1", "BC", "INFO", "field", "x1y",
    "q0_", "q-1_", "q9223372036854775808_", "a1b1", "a111",
];

const PATTERNS: [&str; 22] = [
    "a", "abc", "", "a{..}", "a{1..}b", "a{..1}b{..}", "a{0..9}b{..}c{2..}", "a{..}b{..}c{..}d",
    "ab{3..7}cd", "x{1..}_REGA_y", "x{..}_REGA", "count_REGA", "REGA", "n_NAME_x", "NAME",
    "DATASET_cells", "DATASET", "BC", "INFO", "q{0..}_", "a{..}1", "{..}",
];

#[test]
fn interpreter_decides_as_the_emitted_tests_do() {
    let l = lists();
    for pattern in PATTERNS {
        let p = classify(pattern).unwrap();
        for name in NAMES {
            let decided = emitted(&p, name, &l);
            assert_eq!(
                match_name(&p, name, &l).is_some(),
                decided.unwrap_or(false),
                "pattern {:?}, name {:?}",
                pattern,
                name
            );
        }
    }
}

#[test]
fn interpreter_binds_what_the_emitted_bindings_bind() {
    let l = lists();
    for pattern in PATTERNS {
        let p = classify(pattern).unwrap();
        for name in NAMES {
            if let Some(c) = match_name(&p, name, &l) {
                let args: Vec<i64> =
                    (0..p.slots.len()).map(|i| interior(&p, name, i).force_i64()).collect();
                assert_eq!(c.args, args);
                match p.keyword {
                    Keyword::Rega | Keyword::Dataset | Keyword::Name => {
                        assert_eq!(c.text.as_deref(), Some(interior(&p, name, p.slots.len())))
                    }
                    _ => assert_eq!(c.text, None),
                }
            }
        }
    }
}

#[test]
fn interpreter_follows_the_emitted_tests_on_shapes_built_by_hand() {
    let l = lists();
    let slot = RangeSlot { lower: None, upper: None };
    let built = [
        ParsedPattern::new(vec!["AB".into(), "CD".into()], Keyword::Plain, vec![slot]).unwrap(),
        ParsedPattern::new(vec!["a".into(), "1".into(), "".into()], Keyword::Plain, vec![slot, slot])
            .unwrap(),
        ParsedPattern::new(vec!["ab".into(), "bc".into()], Keyword::Plain, vec![slot]).unwrap(),
        ParsedPattern::new(vec!["a".into(), "b".into(), "".into()], Keyword::Rega, vec![slot])
            .unwrap(),
    ];
    for p in built.iter() {
        for name in NAMES.iter().chain(["AB5CD", "AB9CD", "ABxCD", "abbc", "ab7bc"].iter()) {
            let decided = emitted(p, name, &l);
            assert_eq!(
                match_name(p, name, &l).is_some(),
                decided.unwrap_or(false),
                "shape {:?}, name {:?}",
                p,
                name
            );
        }
    }
}

/// A small deterministic generator of pseudo-random numbers.
struct Dice(u64);

impl Dice {
    fn roll(&mut self, sides: u64) -> u64 {
        self.0 = self.0.wrapping_mul(6364136223846793005).wrapping_add(1442695040888963407);
        (self.0 >> 33) % sides
    }

    fn text(&mut self, alphabet: &[char], longest: u64) -> String {
        let n = self.roll(longest + 1);
        (0..n).map(|_| alphabet[self.roll(alphabet.len() as u64) as usize]).collect()
    }

    fn bound(&mut self) -> Option<i64> {
        match self.roll(3) {
            0 => None,
            _ => Some(self.roll(25) as i64 - 12),
        }
    }
}

#[test]
fn interpreter_decides_as_the_emitted_tests_do_on_many_shapes() {
    let l = lists();
    let mut dice = Dice(20240229);
    let letters = ['a', 'b', '1', '_', '-'];
    let name_letters = ['a', 'b', '1', '2', '_', '-', '+', '('];
    let mut matched = 0;
    for _ in 0..3000 {
        let ranges = dice.roll(4) as usize;
        let keyword = match (ranges, dice.roll(4)) {
            (0, 1) => Keyword::Name,
            (0, 2) => Keyword::Dataset,
            (0, 3) | (1, 3) => Keyword::Rega,
            _ => Keyword::Plain,
        };
        let holes = ranges + usize::from(keyword != Keyword::Plain);
        let segments: Vec<String> = (0..=holes).map(|_| dice.text(&letters, 2)).collect();
        let slots: Vec<RangeSlot> =
            (0..ranges).map(|_| RangeSlot { lower: dice.bound(), upper: dice.bound() }).collect();
        let p = ParsedPattern::new(segments, keyword, slots).unwrap();
        for _ in 0..40 {
            // Half of the names are spelled along the shape, the rest are arbitrary.
            let name = if dice.roll(2) == 0 {
                let mut s = p.segments[0].clone();
                for k in 0..holes {
                    if k < ranges {
                        s.push_str(&(dice.roll(31) as i64 - 15).to_string());
                    } else {
                        s.push_str(["d1", "o1", "a", "t", "x.y", "zz", ""][dice.roll(7) as usize]);
                    }
                    s.push_str(&p.segments[k + 1]);
                }
                s
            } else {
                dice.text(&name_letters, 7)
            };
            let found = match_name(&p, &name, &l);
            let decided = emitted(&p, &name, &l);
            assert_eq!(found.is_some(), decided.unwrap_or(false), "shape {:?}, name {:?}", p, name);
            if let Some(c) = found {
                matched += 1;
                let args: Vec<i64> =
                    (0..ranges).map(|i| interior(&p, &name, i).force_i64()).collect();
                assert_eq!(c.args, args);
                if keyword != Keyword::Plain {
                    assert_eq!(c.text.as_deref(), Some(interior(&p, &name, ranges)));
                }
            }
        }
    }
    assert!(matched > 1000);
}
