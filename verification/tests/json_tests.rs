//! The JSON attribute model: paths into trees and typed selection.
use mafe::ast::Num;
use mafe::json::{
    select, selector_bool, selector_number, selector_string, JsonVal, Path, PathIndex, Select,
};


fn sample() -> JsonVal {
    // { "a": { "nested": true }, "b": ["an", "array"] }
    JsonVal::Object(vec![
        (
            b"a".to_vec(),
            JsonVal::Object(vec![(b"nested".to_vec(), JsonVal::Bool(true))]),
        ),
        (
            b"b".to_vec(),
            JsonVal::Array(vec![
                JsonVal::Str(b"an".to_vec()),
                JsonVal::Str(b"array".to_vec()),
            ]),
        ),
    ])
}

#[test]
fn get_value_from_path() {
    let val = sample();
    let p1 = Path::new()
        .add(PathIndex::Key(b"a".to_vec()))
        .add(PathIndex::Key(b"nested".to_vec()));
    let p2 = Path::new()
        .add(PathIndex::Key(b"b".to_vec()))
        .add(PathIndex::Index(1));
    assert!(matches!(p1.view_in(&val), Some(JsonVal::Bool(true))));
    match p2.view_in(&val) {
        Some(JsonVal::Str(s)) => assert_eq!(s, &b"array".to_vec()),
        other => panic!("expected a string, got {:?}", other),
    }
}

#[test]
fn select_against_value() {
    struct Selector;
    impl Select<bool> for Selector {
        fn select_bool(&self, v: bool) -> Option<bool> {
            Some(!v)
        }
        fn select_string(&self, _v: &Vec<u8>) -> Option<bool> {
            None
        }
        fn select_num(&self, _v: Num) -> Option<bool> {
            None
        }
    }
    let val = sample();
    let p1 = Path::new()
        .add(PathIndex::Key(b"a".to_vec()))
        .add(PathIndex::Key(b"nested".to_vec()));
    assert_eq!(select(&Selector, &p1, &val).unwrap(), false);
}

#[test]
fn built_in_selectors_take_their_shape() {
    let val = sample();
    let p = Path::new()
        .add(PathIndex::Key(b"b".to_vec()))
        .add(PathIndex::Index(0));
    assert_eq!(
        select(&selector_string(), &p, &val),
        Some(b"an".to_vec())
    );
    let pb = Path::new()
        .add(PathIndex::Key(b"a".to_vec()))
        .add(PathIndex::Key(b"nested".to_vec()));
    assert_eq!(select(&selector_bool(), &pb, &val), Some(true));
    // A path that misses selects nothing.
    let miss = Path::new().add(PathIndex::Key(b"zzz".to_vec()));
    assert_eq!(select(&selector_bool(), &miss, &val), None);
}

#[test]
fn append_copies_and_extends() {
    let base = vec![1u8, 2, 3];
    let longer = mafe::json::append(&base, 4);
    assert_eq!(longer, vec![1, 2, 3, 4]);
    assert_eq!(base.len(), 3);
}

#[test]
fn numeric_selector_takes_numbers() {
    let val = JsonVal::Object(vec![(b"n".to_vec(), JsonVal::Num(Num::Integer(12)))]);
    let p = Path::new().add(PathIndex::Key(b"n".to_vec()));
    assert_eq!(select(&selector_number(), &p, &val), Some(Num::Integer(12)));
}
