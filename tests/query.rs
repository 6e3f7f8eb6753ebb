use jsongrep::cond::{Condition, MatchType};
use jsongrep::error::ErrorCode;
use jsongrep::matcher::RegexCache;
use jsongrep::query::{Query, QueryCondition, QueryPair};
use jsongrep::value::Scalar;
use serde_json::Value;

const SAMPLE: &str = r#"
{
    "n": null,
    "d": {
        "i": 1,
        "f": 1.2,
        "a": [
            "one",
            "two",
            "three"
        ]
    },
    "big": 5000000000,
    "whole": 2.0,
    "exp": 1e2,
    "neg": -2147483648,
    "half": -0.5
}"#;

fn sample() -> Value {
    serde_json::from_str(SAMPLE).unwrap()
}

/// A leaf that holds (`true`) or does not hold (`false`) of a null document.
fn fixed(holds: bool) -> QueryCondition {
    let condition = if holds {
        Condition::Equal(Scalar::Null)
    } else {
        Condition::Not(Box::new(Condition::Equal(Scalar::Null)))
    };
    QueryCondition::Raw(QueryPair { pointer: String::new(), condition })
}

fn eval(q: QueryCondition, doc: &Value) -> Result<bool, jsongrep::error::Error> {
    let mut cache = RegexCache::new();
    q.eval(doc, &mut cache)
}

const NULL: Value = Value::Null;

#[test]
#[should_panic]
fn or_no_children() {
    eval(QueryCondition::Or(vec![]), &NULL).unwrap();
}

#[test]
#[should_panic]
fn and_no_children() {
    eval(QueryCondition::And(vec![]), &NULL).unwrap();
}

#[test]
fn raw_true() {
    assert!(eval(fixed(true), &NULL).unwrap());
}

#[test]
fn raw_false() {
    assert!(!eval(fixed(false), &NULL).unwrap());
}

#[test]
fn not_true() {
    assert!(!eval(QueryCondition::Not(Box::new(fixed(true))), &NULL).unwrap());
}

#[test]
fn not_false() {
    assert!(eval(QueryCondition::Not(Box::new(fixed(false))), &NULL).unwrap());
}

#[test]
fn query_or_cases() {
    assert!(eval(QueryCondition::Or(vec![fixed(true)]), &NULL).unwrap());
    assert!(!eval(QueryCondition::Or(vec![fixed(false)]), &NULL).unwrap());
    assert!(eval(QueryCondition::Or(vec![fixed(false), fixed(true)]), &NULL).unwrap());
    assert!(!eval(QueryCondition::Or(vec![fixed(false), fixed(false)]), &NULL).unwrap());
}

#[test]
fn query_and_cases() {
    assert!(eval(QueryCondition::And(vec![fixed(true)]), &NULL).unwrap());
    assert!(!eval(QueryCondition::And(vec![fixed(false)]), &NULL).unwrap());
    assert!(eval(QueryCondition::And(vec![fixed(true), fixed(true)]), &NULL).unwrap());
    assert!(!eval(QueryCondition::And(vec![fixed(true), fixed(false)]), &NULL).unwrap());
}

#[test]
fn query_empty_compound_error_kind() {
    let e = eval(QueryCondition::And(vec![]), &NULL).unwrap_err();
    assert!(matches!(e.code, ErrorCode::NoChildren { .. }));
    let e = eval(QueryCondition::Or(vec![]), &NULL).unwrap_err();
    assert!(matches!(e.code, ErrorCode::NoChildren { .. }));
}

#[test]
fn query_and_first_error_decides() {
    let missing = QueryCondition::Raw(QueryPair {
        pointer: "/nowhere".to_owned(),
        condition: Condition::Equal(Scalar::Null),
    });
    let e = eval(QueryCondition::And(vec![fixed(true), missing, fixed(false)]), &NULL).unwrap_err();
    assert!(matches!(e.code, ErrorCode::InvalidPointer { ref pointer, .. } if pointer == "/nowhere"));
}

#[test]
fn to_value_null() {
    assert!(matches!(QueryPair::to_value("/n", &sample()).unwrap(), Scalar::Null));
}

#[test]
fn to_value_int() {
    assert!(matches!(QueryPair::to_value("/d/i", &sample()).unwrap(), Scalar::Int(1)));
}

#[test]
fn to_value_float() {
    let bits = 1.2f64.to_bits();
    assert!(matches!(QueryPair::to_value("/d/f", &sample()).unwrap(), Scalar::Float(b) if b == bits));
}

#[test]
fn to_value_str() {
    assert!(matches!(QueryPair::to_value("/d/a/1", &sample()).unwrap(), Scalar::String(ref s) if s == "two"));
}

#[test]
fn to_value_numbers_outside_i32() {
    let big = 5000000000.0f64.to_bits();
    assert!(matches!(QueryPair::to_value("/big", &sample()).unwrap(), Scalar::Float(b) if b == big));
    let half = (-0.5f64).to_bits();
    assert!(matches!(QueryPair::to_value("/half", &sample()).unwrap(), Scalar::Float(b) if b == half));
}

#[test]
fn to_value_integral_doubles_are_int() {
    assert!(matches!(QueryPair::to_value("/whole", &sample()).unwrap(), Scalar::Int(2)));
    assert!(matches!(QueryPair::to_value("/exp", &sample()).unwrap(), Scalar::Int(100)));
    assert!(matches!(QueryPair::to_value("/neg", &sample()).unwrap(), Scalar::Int(i32::MIN)));
}

#[test]
fn to_value_fail_out_of_bounds() {
    let e = QueryPair::to_value("/X", &sample()).unwrap_err();
    assert!(matches!(e.code, ErrorCode::InvalidPointer { ref pointer, .. } if pointer == "/X"));
}

#[test]
fn to_value_fail_array() {
    let e = QueryPair::to_value("/d/a", &sample()).unwrap_err();
    assert!(matches!(e.code, ErrorCode::InvalidTarget { ref pointer, .. } if pointer == "/d/a"));
}

#[test]
fn to_value_fail_object() {
    let e = QueryPair::to_value("/d", &sample()).unwrap_err();
    assert!(matches!(e.code, ErrorCode::InvalidTarget { .. }));
}

#[test]
fn query_match_on_document() {
    let q = Query {
        query: QueryCondition::Raw(QueryPair {
            pointer: "/s".to_owned(),
            condition: Condition::Match(Scalar::String("[sS]irius".to_owned()), MatchType::Regex),
        }),
    };
    let mut cache = RegexCache::new();
    let sirius: Value = serde_json::from_str(r#"{"s":"Sirius at the starry night in the winter"}"#).unwrap();
    let spica: Value = serde_json::from_str(r#"{"s":"Spica on the earth"}"#).unwrap();
    assert!(q.eval(&sirius, &mut cache).unwrap());
    assert!(!q.eval(&spica, &mut cache).unwrap());
}
