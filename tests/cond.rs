use jsongrep::cond::{Condition, MatchType};
use jsongrep::error::{ErrorCode, Fault};
use jsongrep::matcher::RegexCache;
use jsongrep::raw_query::MatchType as SpecMatchType;
use jsongrep::value::Scalar;

fn eval(c: Condition, v: Scalar) -> Result<bool, jsongrep::error::Error> {
    let mut cache = RegexCache::new();
    c.eval(&v, &mut cache)
}

fn s(x: &str) -> Scalar {
    Scalar::String(x.to_owned())
}

fn f(x: f64) -> Scalar {
    Scalar::Float(x.to_bits())
}

#[test]
#[should_panic]
fn not_type_diff() {
    eval(Condition::Not(Box::new(Condition::Equal(Scalar::Bool(true)))), Scalar::Null).unwrap();
}

#[test]
#[should_panic]
fn lt_type_diff() {
    Condition::LessThan(Scalar::Null).less_than(&Scalar::Bool(true)).unwrap();
}

#[test]
#[should_panic]
fn gt_type_diff() {
    Condition::GreaterThan(Scalar::Null).greater_than(&Scalar::Bool(true)).unwrap();
}

#[test]
#[should_panic]
fn eq_type_diff() {
    Condition::Equal(Scalar::Null).equal(&Scalar::Bool(true)).unwrap();
}

#[test]
fn cond_or_no_children_fails() {
    let e = eval(Condition::Or(vec![]), Scalar::Null).unwrap_err();
    assert!(matches!(e.code, ErrorCode::NoChildren { .. }));
}

#[test]
fn cond_and_no_children_fails() {
    let e = eval(Condition::And(vec![]), Scalar::Bool(true)).unwrap_err();
    assert!(matches!(e.code, ErrorCode::NoChildren { .. }));
}

#[test]
fn cond_or_one_type_diff() {
    let e = eval(Condition::Or(vec![Condition::Equal(Scalar::Bool(true))]), Scalar::Null).unwrap_err();
    assert!(matches!(e.code, ErrorCode::TypeMismatch { .. }));
}

#[test]
fn cond_or_cases() {
    assert!(eval(Condition::Or(vec![Condition::Equal(Scalar::Null)]), Scalar::Null).unwrap());
    assert!(!eval(Condition::Or(vec![Condition::Equal(Scalar::Bool(true))]), Scalar::Bool(false)).unwrap());
    assert!(eval(
        Condition::Or(vec![
            Condition::Equal(Scalar::Bool(false)),
            Condition::Equal(Scalar::Bool(true))
        ]),
        Scalar::Bool(true)
    )
    .unwrap());
    assert!(!eval(
        Condition::Or(vec![
            Condition::Equal(Scalar::Bool(false)),
            Condition::Equal(Scalar::Bool(false))
        ]),
        Scalar::Bool(true)
    )
    .unwrap());
}

#[test]
fn cond_and_cases() {
    assert!(eval(Condition::And(vec![Condition::Equal(Scalar::Null)]), Scalar::Null).unwrap());
    assert!(!eval(Condition::And(vec![Condition::Equal(Scalar::Bool(true))]), Scalar::Bool(false)).unwrap());
    assert!(eval(
        Condition::And(vec![Condition::Equal(Scalar::Null), Condition::Equal(Scalar::Null)]),
        Scalar::Null
    )
    .unwrap());
    assert!(!eval(
        Condition::And(vec![
            Condition::Equal(Scalar::Bool(true)),
            Condition::Equal(Scalar::Bool(false))
        ]),
        Scalar::Bool(true)
    )
    .unwrap());
}

#[test]
fn cond_and_stops_at_first_false() {
    // the second child would fail, but the first decides
    let c = Condition::And(vec![
        Condition::Equal(Scalar::Bool(false)),
        Condition::Equal(Scalar::Null),
    ]);
    assert!(!eval(c, Scalar::Bool(true)).unwrap());
}

#[test]
fn cond_and_reports_first_error() {
    let c = Condition::And(vec![
        Condition::Equal(Scalar::Bool(true)),
        Condition::Match(Scalar::Null, MatchType::Contain),
        Condition::Equal(Scalar::Int(1)),
    ]);
    let e = eval(c, Scalar::Bool(true)).unwrap_err();
    assert_eq!(e.code.kind(), Fault::MatcherTypeMismatch);
}

#[test]
fn cond_or_stops_at_first_true() {
    let c = Condition::Or(vec![
        Condition::Equal(Scalar::Bool(true)),
        Condition::Equal(Scalar::Null),
    ]);
    assert!(eval(c, Scalar::Bool(true)).unwrap());
}

#[test]
fn cond_not_cases() {
    assert!(!eval(Condition::Not(Box::new(Condition::Equal(Scalar::Null))), Scalar::Null).unwrap());
    assert!(eval(
        Condition::Not(Box::new(Condition::Equal(Scalar::Bool(false)))),
        Scalar::Bool(true)
    )
    .unwrap());
}

#[test]
fn cond_less_than_cases() {
    assert!(eval(Condition::LessThan(Scalar::Bool(true)), Scalar::Bool(false)).unwrap());
    assert!(!eval(Condition::LessThan(Scalar::Bool(false)), Scalar::Bool(true)).unwrap());
    assert!(eval(Condition::LessThan(Scalar::Int(1)), Scalar::Int(0)).unwrap());
    assert!(!eval(Condition::LessThan(Scalar::Int(1)), Scalar::Int(2)).unwrap());
    assert!(eval(Condition::LessThan(f(1.1)), f(1.0)).unwrap());
    assert!(!eval(Condition::LessThan(f(1.1)), f(1.2)).unwrap());
    assert!(eval(Condition::LessThan(s("nebula")), s("galaxy")).unwrap());
    assert!(!eval(Condition::LessThan(s("nebula")), s("quasar")).unwrap());
}

#[test]
fn cond_greater_than_cases() {
    assert!(!eval(Condition::GreaterThan(Scalar::Bool(true)), Scalar::Bool(false)).unwrap());
    assert!(eval(Condition::GreaterThan(Scalar::Bool(false)), Scalar::Bool(true)).unwrap());
    assert!(!eval(Condition::GreaterThan(Scalar::Int(1)), Scalar::Int(0)).unwrap());
    assert!(eval(Condition::GreaterThan(Scalar::Int(1)), Scalar::Int(2)).unwrap());
    assert!(!eval(Condition::GreaterThan(f(1.1)), f(1.0)).unwrap());
    assert!(eval(Condition::GreaterThan(f(1.1)), f(1.2)).unwrap());
    assert!(!eval(Condition::GreaterThan(s("nebula")), s("galaxy")).unwrap());
    assert!(eval(Condition::GreaterThan(s("nebula")), s("quasar")).unwrap());
    assert!(eval(Condition::GreaterThan(s("neb")), s("nebula")).unwrap());
    assert!(eval(Condition::GreaterThan(f(-2.5)), f(-0.5)).unwrap());
    assert!(!eval(Condition::GreaterThan(f(0.0)), f(-0.0)).unwrap());
}

#[test]
fn cond_greater_than_null_is_a_mismatch() {
    let e = eval(Condition::GreaterThan(Scalar::Null), Scalar::Null).unwrap_err();
    assert!(matches!(e.code, ErrorCode::TypeMismatch { .. }));
}

#[test]
fn cond_equal_cases() {
    assert!(eval(Condition::Equal(Scalar::Null), Scalar::Null).unwrap());
    assert!(eval(Condition::Equal(Scalar::Bool(true)), Scalar::Bool(true)).unwrap());
    assert!(!eval(Condition::Equal(Scalar::Bool(true)), Scalar::Bool(false)).unwrap());
    assert!(eval(Condition::Equal(Scalar::Int(1)), Scalar::Int(1)).unwrap());
    assert!(!eval(Condition::Equal(Scalar::Int(1)), Scalar::Int(2)).unwrap());
    assert!(eval(Condition::Equal(f(1.0)), f(1.0)).unwrap());
    assert!(!eval(Condition::Equal(f(1.0)), f(1.1)).unwrap());
    assert!(eval(Condition::Equal(s("black")), s("black")).unwrap());
    assert!(!eval(Condition::Equal(s("black")), s("white")).unwrap());
}

#[test]
fn cond_float_equality_compares_absolute_values() {
    assert!(eval(Condition::Equal(f(-5.0)), f(5.0)).unwrap());
    assert!(eval(Condition::Equal(f(1.0)), f(1.0 + f64::EPSILON)).unwrap());
    assert!(!eval(Condition::Equal(f(1.0)), f(1.0 + 2.0 * f64::EPSILON)).unwrap());
    assert!(eval(Condition::Equal(f(0.0)), f(f64::EPSILON)).unwrap());
    assert!(!eval(Condition::Equal(f(0.0)), f(2.0 * f64::EPSILON)).unwrap());
    assert!(eval(Condition::Equal(f(1e300)), f(1e300)).unwrap());
    assert!(!eval(Condition::Equal(f(f64::INFINITY)), f(f64::INFINITY)).unwrap());
}

fn cross_variant_pairs() -> Vec<(Scalar, Scalar)> {
    vec![
        (Scalar::Null, Scalar::Int(1)),
        (Scalar::Int(1), f(1.0)),
        (s("1"), Scalar::Int(1)),
        (Scalar::Bool(true), s("true")),
    ]
}

#[test]
fn cond_cross_variant_fails_with_type_mismatch() {
    let mut cache = RegexCache::new();
    let kinds: [fn(Scalar) -> Condition; 3] = [Condition::Equal, Condition::GreaterThan, Condition::LessThan];
    for make in kinds.iter() {
        for (a, b) in cross_variant_pairs() {
            let e = make(a).eval(&b, &mut cache).unwrap_err();
            assert!(matches!(e.code, ErrorCode::TypeMismatch { .. }));
        }
    }
}

#[test]
fn cond_match_cases() {
    assert!(eval(Condition::Match(s("dwarf"), MatchType::Contain), s("white dwarf")).unwrap());
    assert!(!eval(Condition::Match(s("^dwarf"), MatchType::Regex), s("brown dwarf")).unwrap());
    assert!(eval(Condition::Match(s("[sS]irius"), MatchType::Regex), s("Sirius at night")).unwrap());
    let e = eval(Condition::Match(s("x"), MatchType::Regex), Scalar::Int(3)).unwrap_err();
    assert!(matches!(e.code, ErrorCode::MatcherTypeMismatch { .. }));
    let e = eval(Condition::Match(s("("), MatchType::Regex), s("(")).unwrap_err();
    assert!(matches!(e.code, ErrorCode::InvalidRegex(ref p) if p == "("));
}

#[test]
fn spec_match_type_converts() {
    assert_eq!(MatchType::Contain, MatchType::from(SpecMatchType::Contain));
    assert_eq!(MatchType::Regex, MatchType::from(SpecMatchType::Regex));
}

#[test]
fn cond_cache_touched_only_by_tested_regex() {
    let mut cache = RegexCache::new();
    // operands that are not both strings: no pattern is compiled
    Condition::Match(s("^a"), MatchType::Regex).eval(&Scalar::Int(1), &mut cache).unwrap_err();
    assert_eq!(0, cache.len());
    // substring matching never compiles
    Condition::Match(s("^a"), MatchType::Contain).eval(&s("abc"), &mut cache).unwrap();
    assert_eq!(0, cache.len());
    // a child skipped by short-circuiting is not compiled
    let c = Condition::Or(vec![
        Condition::Match(s("^a"), MatchType::Regex),
        Condition::Match(s("c$"), MatchType::Regex),
    ]);
    assert!(c.eval(&s("abc"), &mut cache).unwrap());
    assert_eq!(1, cache.len());
    assert!(c.eval(&s("xbc"), &mut cache).unwrap());
    assert_eq!(2, cache.len());
}

#[test]
fn cond_error_payloads() {
    let e = eval(Condition::GreaterThan(Scalar::Int(1)), s("x")).unwrap_err();
    assert!(matches!(e.code, ErrorCode::TypeMismatch { ref got, ref want, ref by }
        if got == "String" && want == "Int" && by == "Condition::GreaterThan"));
    let e = eval(Condition::Match(Scalar::Null, MatchType::Regex), s("x")).unwrap_err();
    assert!(matches!(e.code, ErrorCode::MatcherTypeMismatch { ref matcher_type, ref matcher_value, ref target, ref by }
        if matcher_type == "Regex" && matcher_value == "Null" && target == "String" && by == "Condition::Match"));
    let e = eval(Condition::Or(vec![]), Scalar::Null).unwrap_err();
    assert!(matches!(e.code, ErrorCode::NoChildren { ref by } if by == "Condition::Or"));
    // a compound hands on the deciding child's own error
    let c = Condition::Not(Box::new(Condition::And(vec![
        Condition::Equal(Scalar::Int(1)),
        Condition::LessThan(Scalar::Bool(true)),
    ])));
    let e = eval(c, Scalar::Int(1)).unwrap_err();
    assert!(matches!(e.code, ErrorCode::TypeMismatch { ref got, ref want, ref by }
        if got == "Int" && want == "Bool" && by == "Condition::LessThan"));
}
