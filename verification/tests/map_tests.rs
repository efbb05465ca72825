//! End to end: parse a specification, run it over features, check the
//! emitted operations and the error policy.
use mafe::error::ApplyError;
use mafe::geom::{Geometry, Point};
use mafe::json::JsonVal;
use mafe::map::{run_layer, run_map, find_source};
use mafe::op::Op;
use mafe::parser::{new_context, parse};
use mafe::source::{source_srid, Feature};
use mafe::sym::CircleTable;

fn table() -> CircleTable {
    let mut cos_micro = Vec::new();
    let mut sin_micro = Vec::new();
    for deg in 0..=360u32 {
        let rad = (deg as f64) * std::f64::consts::PI / 180.0;
        cos_micro.push((rad.cos() * 1_000_000.0).round() as i64);
        sin_micro.push((rad.sin() * 1_000_000.0).round() as i64);
    }
    CircleTable { cos_micro, sin_micro }
}

fn chair(a: &[u8], b: i64) -> Feature {
    Feature {
        properties: Some(vec![
            (b"a".to_vec(), JsonVal::Str(a.to_vec())),
            (b"b".to_vec(), JsonVal::Num(mafe::ast::Num::Integer(b))),
        ]),
        geometry: Some(Geometry::Point(Point { x: 0, y: 0 })),
    }
}

const SPEC: &[u8] = b"map\nsrid 3857\nextent 0 0 10 10\ndata a select \"a\" string\ndata b select \"b\" number\n\nlayer\nsource geojson \"fc.json\" 4326\nsym ( a = \"bench\" | a = \"chair\" ) & b >= 12 -> fill \"hit\"";

#[test]
fn grouped_predicate_accepts_and_rejects() {
    // ( a = "bench" | a = "chair" ) & b >= 12
    let mut ctx = new_context();
    let spec = parse(&SPEC.to_vec(), &mut ctx).unwrap();
    let t = table();
    let matching = run_map(&spec, &vec![vec![chair(b"chair", 20)]], &t).unwrap();
    assert_eq!(matching.len(), 1);
    assert!(matches!(&matching[0], Op::Fill(c) if c == &b"hit".to_vec()));
    let too_small = run_map(&spec, &vec![vec![chair(b"chair", 11)]], &t).unwrap();
    assert!(too_small.is_empty());
    let wrong_kind = run_map(&spec, &vec![vec![chair(b"table", 20)]], &t).unwrap();
    assert!(wrong_kind.is_empty());
}

#[test]
fn run_map_requires_srid_and_extent() {
    let no_srid = b"map\nextent 0 0 1 1\n\nlayer\nsource geojson \"f\"\nsym 1 = 1 -> fill \"x\"".to_vec();
    let mut ctx = new_context();
    let spec = parse(&no_srid, &mut ctx).unwrap();
    let t = table();
    assert!(matches!(
        run_map(&spec, &vec![vec![]], &t),
        Err(ApplyError::MissingSrid)
    ));
    let no_extent = b"map\nsrid 1\n\nlayer\nsource geojson \"f\"\nsym 1 = 1 -> fill \"x\"".to_vec();
    let mut ctx = new_context();
    let spec = parse(&no_extent, &mut ctx).unwrap();
    assert!(matches!(
        run_map(&spec, &vec![vec![]], &t),
        Err(ApplyError::MissingExtent)
    ));
}

#[test]
fn run_layer_requires_a_source() {
    let src = b"map\nsrid 1\nextent 0 0 1 1\n\nlayer\ndata x 1\nsym x = 1 -> fill \"c\"".to_vec();
    let mut ctx = new_context();
    let spec = parse(&src, &mut ctx).unwrap();
    let t = table();
    assert!(matches!(
        run_layer(&spec.layers[0], &vec![], &t),
        Err(ApplyError::MissingSource)
    ));
}

#[test]
fn source_srid_defaults_to_geographic() {
    let src = b"map\nsrid 1\nextent 0 0 1 1\n\nlayer\nsource geojson \"f\"\nsym 1 = 1 -> fill \"c\"".to_vec();
    let mut ctx = new_context();
    let spec = parse(&src, &mut ctx).unwrap();
    let source = find_source(&spec.layers[0]).unwrap();
    assert_eq!(source_srid(&source).unwrap(), 4326);
    let with = b"map\nsrid 1\nextent 0 0 1 1\n\nlayer\nsource geojson \"f\" 31370\nsym 1 = 1 -> fill \"c\"".to_vec();
    let mut ctx = new_context();
    let spec = parse(&with, &mut ctx).unwrap();
    let source = find_source(&spec.layers[0]).unwrap();
    assert_eq!(source_srid(&source).unwrap(), 31370);
}

#[test]
fn feature_missing_properties_skips_but_continues() {
    // A feature lacking properties contributes nothing where a select is
    // involved; later features still run.
    let mut ctx = new_context();
    let spec = parse(&SPEC.to_vec(), &mut ctx).unwrap();
    let t = table();
    let bare = Feature {
        properties: None,
        geometry: Some(Geometry::Point(Point { x: 0, y: 0 })),
    };
    let ops = run_map(&spec, &vec![vec![bare, chair(b"bench", 12)]], &t).unwrap();
    assert_eq!(ops.len(), 1);
}

#[test]
fn layers_concatenate_in_declaration_order() {
    let two = b"map\nsrid 1\nextent 0 0 1 1\n\nlayer\nsource geojson \"f\"\nsym 1 = 1 -> fill \"first\"\n\nlayer\nsource geojson \"g\"\nsym 1 = 1 -> fill \"second\"".to_vec();
    let mut ctx = new_context();
    let spec = parse(&two, &mut ctx).unwrap();
    let t = table();
    let feature = || Feature {
        properties: None,
        geometry: Some(Geometry::Point(Point { x: 0, y: 0 })),
    };
    let ops = run_map(&spec, &vec![vec![feature()], vec![feature()]], &t).unwrap();
    assert_eq!(
        ops,
        vec![Op::Fill(b"first".to_vec()), Op::Fill(b"second".to_vec())]
    );
}

#[test]
fn a_second_source_directive_is_an_error() {
    let twice = b"map\nsrid 1\nextent 0 0 1 1\n\nlayer\nsource geojson \"f\"\nsource geojson \"g\"\nsym 1 = 1 -> fill \"c\""
        .to_vec();
    let mut ctx = new_context();
    let spec = parse(&twice, &mut ctx).unwrap();
    let t = table();
    match run_layer(&spec.layers[0], &vec![], &t) {
        Err(ApplyError::SourceInit(path)) => assert_eq!(path, b"g".to_vec()),
        other => panic!("expected the extra source to error, got {:?}", other),
    }
}

#[test]
fn sample_specification_has_its_shape() {
    let spec = mafe::ast::truc();
    assert_eq!(spec.map.directives.len(), 7);
    assert_eq!(spec.layers.len(), 1);
}
