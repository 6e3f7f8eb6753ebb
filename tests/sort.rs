use jsongrep::compare::PairValue;
use jsongrep::raw_sort::{Order, Sort as RawSort, SortPair};
use jsongrep::sort::{PairsListSettings, Sort};
use serde_json::{from_str, Value};
use std::cmp::Ordering;

fn value(x: &str) -> Value {
    from_str(x).unwrap()
}

fn sorted(values: &[&str], pointers: &[&str]) -> Vec<usize> {
    let mut s = PairsListSettings::new();
    for p in pointers {
        s.add(p.to_string(), Order::Asc);
    }
    let mut b = s.builder();
    for v in values {
        b.add(value(v));
    }
    let mut a = b.build();
    a.sort();
    a.indexes()
}

const THREE: [&str; 3] = [
    r#"{"i":1,"s":"snow","opt":10}"#,
    r#"{"i":2,"s":"fire"}"#,
    r#"{"i":0,"s":"abyss","opt":100}"#,
];

const FOUR: [&str; 4] = [
    r#"{"i":0,"j":1,"opt":10}"#,
    r#"{"i":1,"j":1}"#,
    r#"{"i":1,"j":0,"opt":100}"#,
    r#"{"i":0,"j":0}"#,
];

#[test]
fn no_sort_indexes() {
    assert_eq!(vec![0, 1], sorted(&[r#"{"i":1}"#, r#"{"i":0}"#], &[]));
}

#[test]
fn sort_by_i() {
    assert_eq!(vec![2, 0, 1], sorted(&THREE, &["/i"]));
}

#[test]
fn sort_by_s() {
    assert_eq!(vec![2, 1, 0], sorted(&THREE, &["/s"]));
}

#[test]
fn sort_by_opt() {
    assert_eq!(vec![1, 0, 2], sorted(&THREE, &["/opt"]));
}

#[test]
fn sort_by_ij() {
    assert_eq!(vec![3, 2, 0, 1], sorted(&FOUR, &["/i", "/j"]));
}

#[test]
fn sort_by_ji() {
    assert_eq!(vec![3, 0, 2, 1], sorted(&FOUR, &["/j", "/i"]));
}

#[test]
fn sort_types() {
    let values = [r#"1"#, r#"true"#, r#"{"x":null}"#, r#""moon""#, r#"[null]"#, r#"null"#];
    assert_eq!(vec![5, 4, 2, 1, 0, 3], sorted(&values, &[""]));
}

#[test]
fn sort_bools() {
    assert_eq!(vec![1, 0], sorted(&["true", "false"], &[""]));
}

#[test]
fn sort_numbers() {
    assert_eq!(vec![1, 2, 0], sorted(&["3", "1.2", "2"], &[""]));
    assert_eq!(vec![1, 3, 2, 0], sorted(&["5", "-7.5", "0", "-0.5"], &[""]));
}

#[test]
fn sort_strings() {
    assert_eq!(vec![1, 0, 2], sorted(&[r#""moon""#, r#""harbinger""#, r#""sun""#], &[""]));
}

#[test]
fn sort_arrays_and_objects_tie() {
    let values = [r#"[3]"#, r#"{"b":1}"#, r#"[1, 2]"#, r#"{"a":0}"#, r#"[]"#];
    assert_eq!(vec![0, 2, 4, 1, 3], sorted(&values, &[""]));
}

#[test]
fn sort_missing_pointer_first() {
    let values = [r#"{"k":"b"}"#, r#"{"k":0}"#, r#"{}"#, r#"{"k":null}"#];
    assert_eq!(vec![2, 3, 1, 0], sorted(&values, &["/k"]));
}

#[test]
fn sort_desc_from_spec() {
    let raw = RawSort {
        sort: vec![SortPair { pointer: "/i".to_owned(), order: Some(Order::Desc) }],
    };
    let mut st = Sort::from(raw);
    for v in [
        r#"{"i":10,"s":"bellatrix"}"#,
        r#"{"i":5,"s":"cassandra"}"#,
        r#"{"i":20,"s":"alexander"}"#,
        r#"{"i":0,"s":"dimitrius"}"#,
    ] {
        st.add(value(v));
    }
    assert_eq!(vec![2, 0, 1, 3], st.sorted_indexes());
}

#[test]
fn sort_desc_keeps_ties_in_insertion_order() {
    let raw = RawSort {
        sort: vec![
            SortPair { pointer: "/a".to_owned(), order: None },
            SortPair { pointer: "/b".to_owned(), order: Some(Order::Desc) },
        ],
    };
    let mut st = Sort::from(raw);
    for v in [r#"{"a":2,"b":1}"#, r#"{"a":1,"b":1}"#, r#"{"a":1,"b":2}"#, r#"{"a":1,"b":1}"#] {
        st.add(value(v));
    }
    assert_eq!(vec![2, 1, 3, 0], st.sorted_indexes());
}

#[test]
fn pair_value_order() {
    let keys = [
        PairValue::Null,
        PairValue::Array,
        PairValue::Object,
        PairValue::Bool(false),
        PairValue::Number(1.0f64.to_bits()),
        PairValue::String("a".to_owned()),
    ];
    for i in 0..keys.len() {
        for j in 0..keys.len() {
            assert_eq!(i.cmp(&j), keys[i].compare(&keys[j]));
        }
    }
    assert_eq!(Ordering::Equal, PairValue::Number(0.0f64.to_bits()).compare(&PairValue::Number((-0.0f64).to_bits())));
}
