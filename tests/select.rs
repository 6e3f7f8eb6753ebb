use jsongrep::cond::Condition;
use jsongrep::matcher::RegexCache;
use jsongrep::query::{Query as Filter, QueryCondition, QueryPair};
use jsongrep::select::Query;
use jsongrep::value::Scalar;
use serde_json::{from_str, Value};

/// A filter on `/x` that holds exactly when it equals `x`.
fn x_is(x: i32) -> Filter {
    Filter {
        query: QueryCondition::Raw(QueryPair {
            pointer: "/x".to_owned(),
            condition: Condition::Equal(Scalar::Int(x)),
        }),
    }
}

#[test]
#[should_panic]
fn test_query_err_json() {
    let mut cache = RegexCache::new();
    Query::new(x_is(1)).select("white", &mut cache).unwrap();
}

#[test]
fn test_query_err_filtered() {
    let mut cache = RegexCache::new();
    let got = Query::new(x_is(2)).select(r#"{"x":1}"#, &mut cache);
    assert!(got.err().unwrap().is_filtered());
}

#[test]
fn test_query_ok() {
    let mut cache = RegexCache::new();
    let got = Query::new(x_is(1)).select(r#"{"x":1}"#, &mut cache).unwrap();
    let want: Value = from_str(r#"{"x":1}"#).unwrap();
    assert_eq!(want, got);
}

#[test]
fn select_all_accepts_any_document() {
    let mut cache = RegexCache::new();
    let got = Query::all().select(r#"[1, 2]"#, &mut cache).unwrap();
    let want: Value = from_str("[1,2]").unwrap();
    assert_eq!(want, got);
}

#[test]
fn select_reports_malformed_text() {
    let mut cache = RegexCache::new();
    let e = Query::all().select("{", &mut cache).unwrap_err();
    assert!(e.is_json());
    assert!(!e.is_filtered());
    assert!(!e.is_io());
}

#[test]
fn select_reports_evaluation_failure() {
    let mut cache = RegexCache::new();
    let e = Query::new(x_is(1)).select(r#"{"y":1}"#, &mut cache).unwrap_err();
    assert!(!e.is_filtered());
    assert!(!e.is_json());
}
