//! Resolver behaviour: literals, built-in functions, bindings and
//! attribute selection.
use mafe::ast::{Constructor, Data, DataType, FunctionCall, Literal, Num, Select, Value};
use mafe::error::ApplyError;
use mafe::json::JsonVal;
use mafe::resolve::{resolve, Concat, RGB};
use mafe::source::{select_literal, Feature};

fn no_feature() -> Feature {
    Feature { properties: None, geometry: None }
}

fn int_lit(i: i64) -> Value {
    Value::Lit(Literal::Number(Num::Integer(i)))
}

#[test]
fn rgb_resolves_to_hex_text() {
    // rgb(255, 30, 0) gives "#FF1E00".
    let call = Value::Fn(FunctionCall {
        name: b"rgb".to_vec(),
        args: vec![int_lit(255), int_lit(30), int_lit(0)],
    });
    let lit = resolve(&call, &no_feature()).unwrap();
    assert_eq!(lit, Literal::Str(b"#FF1E00".to_vec()));
}

#[test]
fn rgb_wants_three_integers() {
    let two = RGB.call(&vec![
        Literal::Number(Num::Integer(1)),
        Literal::Number(Num::Integer(2)),
    ]);
    assert!(matches!(two, Err(ApplyError::Conversion)));
    let stringy = RGB.call(&vec![
        Literal::Str(b"x".to_vec()),
        Literal::Number(Num::Integer(2)),
        Literal::Number(Num::Integer(3)),
    ]);
    assert!(matches!(stringy, Err(ApplyError::Conversion)));
}

#[test]
fn concat_joins_display_texts() {
    let joined = Concat
        .call(&vec![
            Literal::Str(b"r=".to_vec()),
            Literal::Number(Num::Integer(-7)),
            Literal::Str(b"/".to_vec()),
            Literal::Number(Num::Float(2_500_000)),
            Literal::Boolean(true),
            Literal::Nil,
        ])
        .unwrap();
    assert_eq!(joined, Literal::Str(b"r=-7/2.5truenil".to_vec()));
}

#[test]
fn unknown_function_is_reported() {
    let call = Value::Fn(FunctionCall { name: b"lowercase".to_vec(), args: vec![] });
    match resolve(&call, &no_feature()) {
        Err(ApplyError::FunctionNotFound(name)) => assert_eq!(name, b"lowercase".to_vec()),
        other => panic!("expected FunctionNotFound, got {:?}", other),
    }
}

#[test]
fn inline_binding_resolves_through() {
    let d = Data {
        ident: b"x".to_vec(),
        constructor: Box::new(Constructor::Val(int_lit(9))),
    };
    let lit = resolve(&Value::Data(d), &no_feature()).unwrap();
    assert_eq!(lit, Literal::Number(Num::Integer(9)));
}

fn feature_with(props: Vec<(Vec<u8>, JsonVal)>) -> Feature {
    Feature { properties: Some(props), geometry: None }
}

#[test]
fn select_reads_a_typed_attribute() {
    let f = feature_with(vec![(b"kind".to_vec(), JsonVal::Str(b"tree".to_vec()))]);
    let sel = Select { selector: b"kind".to_vec(), datatype: DataType::String };
    assert_eq!(select_literal(&sel, &f).unwrap(), Literal::Str(b"tree".to_vec()));
}

#[test]
fn select_checks_the_datatype() {
    let f = feature_with(vec![(b"kind".to_vec(), JsonVal::Str(b"tree".to_vec()))]);
    let sel = Select { selector: b"kind".to_vec(), datatype: DataType::Number };
    match select_literal(&sel, &f) {
        Err(ApplyError::Select(name)) => assert_eq!(name, b"kind".to_vec()),
        other => panic!("expected Select, got {:?}", other),
    }
}

#[test]
fn select_null_matches_any_datatype() {
    let f = feature_with(vec![(b"kind".to_vec(), JsonVal::Null)]);
    let sel = Select { selector: b"kind".to_vec(), datatype: DataType::Number };
    assert_eq!(select_literal(&sel, &f).unwrap(), Literal::Nil);
}

#[test]
fn select_without_properties_fails() {
    let sel = Select { selector: b"kind".to_vec(), datatype: DataType::String };
    assert!(matches!(
        select_literal(&sel, &no_feature()),
        Err(ApplyError::Select(_))
    ));
}

#[test]
fn select_missing_attribute_fails() {
    let f = feature_with(vec![(b"other".to_vec(), JsonVal::Bool(true))]);
    let sel = Select { selector: b"kind".to_vec(), datatype: DataType::String };
    assert!(matches!(select_literal(&sel, &f), Err(ApplyError::Select(_))));
}
