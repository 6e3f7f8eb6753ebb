use jsongrep::error::ErrorCode;
use jsongrep::matcher::{Matcher, RegexCache};

fn raw(pattern: &str, value: &str) -> bool {
    let mut cache = RegexCache::new();
    Matcher::Raw(pattern).test(&mut cache, value).unwrap()
}

fn regex(pattern: &str, value: &str) -> bool {
    let mut cache = RegexCache::new();
    Matcher::Regex(pattern).test(&mut cache, value).unwrap()
}

#[test]
fn raw_eq() {
    assert_eq!(true, raw("dwarf", "dwarf"));
}

#[test]
fn raw_not() {
    assert_eq!(false, raw("dwarf", "giant"));
}

#[test]
fn raw_contain() {
    assert_eq!(true, raw("dwarf", "white dwarf"));
}

#[test]
fn raw_is_not_reversed() {
    // the pattern is looked for in the value, not the other way round
    assert_eq!(false, raw("white dwarf", "dwarf"));
    assert_eq!(true, raw("", "anything"));
}

#[test]
fn regex_eq() {
    assert_eq!(true, regex("dwarf", "dwarf"));
}

#[test]
fn regex_match1() {
    assert_eq!(true, regex(r"s.*e", "slice"));
}

#[test]
fn regex_match2() {
    assert_eq!(true, regex(r"s.*e", "slice ice"));
}

#[test]
fn regex_not() {
    assert_eq!(false, regex(r"^dwarf", "brown dwarf"));
}

#[test]
fn regex_invalid_pattern() {
    let mut cache = RegexCache::new();
    let e = Matcher::Regex("a(").test(&mut cache, "a(").unwrap_err();
    assert!(matches!(e.code, ErrorCode::InvalidRegex(ref p) if p == "a("));
    assert_eq!(0, cache.len());
}

#[test]
fn regex_compiled_once_across_records() {
    let mut cache = RegexCache::new();
    let records = ["brown dwarf", "dwarf star", "white dwarf", "dwarf"];
    let mut first = Vec::new();
    for r in records.iter() {
        first.push(Matcher::Regex("^dwarf").test(&mut cache, r).unwrap());
        assert_eq!(1, cache.len());
    }
    for (i, r) in records.iter().enumerate() {
        assert_eq!(first[i], Matcher::Regex("^dwarf").test(&mut cache, r).unwrap());
    }
    assert_eq!(vec![false, true, false, true], first);
    assert_eq!(1, cache.len());
    Matcher::Regex("star$").test(&mut cache, "dwarf star").unwrap();
    assert_eq!(2, cache.len());
}

#[test]
fn matcher_kind_mismatch_is_unreachable() {
    let mut cache = RegexCache::new();
    let e = Matcher::Regex("x").test_raw("x").unwrap_err();
    assert!(matches!(e.code, ErrorCode::Unreachable));
    let e = Matcher::Raw("x").test_regex(&mut cache, "x").unwrap_err();
    assert!(matches!(e.code, ErrorCode::Unreachable));
}
