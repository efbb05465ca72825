//! The symbology executor: circles, squares, paint commands, clearing,
//! and per-feature error containment.
use mafe::ast::{
    Command, Circle, DataType, Data, Constructor, Fill, Literal, Num, PredGroup, Predicate, Select,
    Stroke, Sym, Value,
};
use mafe::geom::{Geometry, Point};
use mafe::json::JsonVal;
use mafe::op::Op;
use mafe::error::ApplyError;
use mafe::geom::centroid;
use mafe::op::{close, fill, fmt_op, line_to, move_to, start, stroke, text};
use mafe::source::Feature;
use mafe::sym::{exec_consequent, make_symbology, CircleTable, Shape};

/// A unit-circle table computed with ordinary floating point; the
/// library never computes trigonometry itself.
fn table() -> CircleTable {
    let mut cos_micro = Vec::new();
    let mut sin_micro = Vec::new();
    for deg in 0..=360u32 {
        let rad = (deg as f64) * std::f64::consts::PI / 180.0;
        cos_micro.push((rad.cos() * 1_000_000.0).round() as i64);
        sin_micro.push((rad.sin() * 1_000_000.0).round() as i64);
    }
    CircleTable { cos_micro, sin_micro }
}

fn point_feature(x: i64, y: i64) -> Feature {
    Feature { properties: None, geometry: Some(Geometry::Point(Point { x, y })) }
}

fn num_val(n: Num) -> Value {
    Value::Lit(Literal::Number(n))
}

#[test]
fn circle_emits_start_move_lines_close() {
    // Radius 6.0 gives exactly 60 line samples.
    let t = table();
    let cmds = vec![Command::Circle(Circle { radius: num_val(Num::Float(6_000_000)) })];
    let f = point_feature(10_000_000, 20_000_000);
    let ops = exec_consequent(&cmds, &f, &t).unwrap();
    assert_eq!(ops.len(), 63);
    assert_eq!(ops[0], Op::Start);
    assert_eq!(ops[1], Op::Move(Point { x: 16_000_000, y: 20_000_000 }));
    for k in 2..62 {
        assert!(matches!(ops[k], Op::Line(_)));
    }
    assert_eq!(ops[62], Op::Close);
    // The first sample sits at the full turn: the rightmost point again.
    assert_eq!(ops[2], Op::Line(Point { x: 16_000_000, y: 20_000_000 }));
}

#[test]
fn circle_sample_count_is_capped() {
    let t = table();
    // Radius 50.0: ten samples per unit would be 500, the cap is 360.
    let big = vec![Command::Circle(Circle { radius: num_val(Num::Integer(50)) })];
    let f = point_feature(0, 0);
    let ops = exec_consequent(&big, &f, &t).unwrap();
    assert_eq!(ops.len(), 360 + 3);
    // Radius 0.05: not a single whole sample.
    let tiny = vec![Command::Circle(Circle { radius: num_val(Num::Float(50_000)) })];
    let ops = exec_consequent(&tiny, &f, &t).unwrap();
    assert_eq!(ops.len(), 3);
}

#[test]
fn clear_discards_and_stroke_appends() {
    // [fill red, clear, stroke blue 2] leaves only the stroke.
    let t = table();
    let cmds = vec![
        Command::Fill(Fill { color: Value::Lit(Literal::Str(b"red".to_vec())) }),
        Command::Clear(mafe::ast::Clear),
        Command::Stroke(Stroke {
            color: Value::Lit(Literal::Str(b"blue".to_vec())),
            size: num_val(Num::Integer(2)),
        }),
    ];
    let f = point_feature(0, 0);
    let ops = exec_consequent(&cmds, &f, &t).unwrap();
    assert_eq!(
        ops,
        vec![Op::Stroke { color: b"blue".to_vec(), size: 2_000_000 }]
    );
}

#[test]
fn square_draws_four_corners() {
    let t = table();
    let cmds = vec![Command::Square(mafe::ast::Square { size: num_val(Num::Integer(4)) })];
    let f = point_feature(0, 0);
    let ops = exec_consequent(&cmds, &f, &t).unwrap();
    let h = 2_000_000;
    assert_eq!(
        ops,
        vec![
            Op::Move(Point { x: -h, y: -h }),
            Op::Line(Point { x: -h, y: h }),
            Op::Line(Point { x: h, y: h }),
            Op::Line(Point { x: h, y: -h }),
            Op::Close,
        ]
    );
}

#[test]
fn feature_without_geometry_contributes_nothing() {
    let t = table();
    let cmds = vec![Command::Fill(Fill { color: Value::Lit(Literal::Str(b"red".to_vec())) })];
    let f = Feature { properties: None, geometry: None };
    let ops = exec_consequent(&cmds, &f, &t).unwrap();
    assert!(ops.is_empty());
}

fn select_sym(selector: &[u8], against: &[u8]) -> Sym {
    // sym <selector-attr> = "<against>" -> fill "painted"
    let binding = Data {
        ident: selector.to_vec(),
        constructor: Box::new(Constructor::Select(Select {
            selector: selector.to_vec(),
            datatype: DataType::String,
        })),
    };
    Sym {
        predicate: PredGroup::Pred(Predicate::Equal((
            Value::Data(binding),
            Value::Lit(Literal::Str(against.to_vec())),
        ))),
        consequent: vec![Command::Fill(Fill {
            color: Value::Lit(Literal::Str(b"painted".to_vec())),
        })],
    }
}

fn tree_feature() -> Feature {
    Feature {
        properties: Some(vec![(b"kind".to_vec(), JsonVal::Str(b"tree".to_vec()))]),
        geometry: Some(Geometry::Point(Point { x: 0, y: 0 })),
    }
}

#[test]
fn failing_feature_spares_its_neighbours() {
    // The middle feature lacks the selected attribute: it contributes
    // nothing, the ones around it still paint.
    let t = table();
    let sym = select_sym(b"kind", b"tree");
    let missing = Feature {
        properties: None,
        geometry: Some(Geometry::Point(Point { x: 0, y: 0 })),
    };
    let features = vec![tree_feature(), missing, tree_feature()];
    let ops = make_symbology(&sym, &features, &t);
    assert_eq!(ops.len(), 2);
    assert!(matches!(&ops[0], Op::Fill(c) if c == &b"painted".to_vec()));
}

#[test]
fn removing_one_feature_removes_only_its_ops() {
    let t = table();
    let sym = select_sym(b"kind", b"tree");
    let all = vec![tree_feature(), tree_feature(), tree_feature()];
    let fewer = vec![tree_feature(), tree_feature()];
    let ops_all = make_symbology(&sym, &all, &t);
    let ops_fewer = make_symbology(&sym, &fewer, &t);
    // Each feature contributes one fill; dropping one drops exactly one.
    assert_eq!(ops_all.len(), 3);
    assert_eq!(ops_fewer.len(), 2);
    assert_eq!(&ops_all[..2], &ops_fewer[..]);
}

#[test]
fn one_sym_failing_does_not_stop_another() {
    // The first rule selects an attribute the feature lacks; the second
    // does not touch it and still paints.
    let t = table();
    let failing = select_sym(b"absent", b"x");
    let painting = select_sym(b"kind", b"tree");
    let features = vec![tree_feature()];
    assert_eq!(make_symbology(&failing, &features, &t).len(), 0);
    assert_eq!(make_symbology(&painting, &features, &t).len(), 1);
}

#[test]
fn shapes_draw_their_markers() {
    let t = table();
    let c = Point { x: 0, y: 0 };
    let square = Shape::Square.draw(c, 4_000_000, &t).unwrap();
    assert_eq!(square.len(), 5);
    let circle = Shape::Circle.draw(c, 6_000_000, &t).unwrap();
    assert_eq!(circle.len(), 63);
}

#[test]
fn op_constructors_build_their_variants() {
    assert_eq!(start(), Op::Start);
    assert_eq!(move_to(1, 2), Op::Move(Point { x: 1, y: 2 }));
    assert_eq!(line_to(3, 4), Op::Line(Point { x: 3, y: 4 }));
    assert_eq!(close(), Op::Close);
    assert_eq!(fill(b"red".to_vec()), Op::Fill(b"red".to_vec()));
    assert_eq!(
        stroke(b"blue".to_vec(), 5),
        Op::Stroke { color: b"blue".to_vec(), size: 5 }
    );
    assert_eq!(
        text(b"hi".to_vec(), b"black".to_vec(), 7, 8),
        Op::Text { text: b"hi".to_vec(), color: b"black".to_vec(), x: 7, y: 8 }
    );
}

#[test]
fn draw_geometry_traces_a_line() {
    let t = table();
    let cmds = vec![Command::DrawGeometry(mafe::ast::DrawGeometry)];
    let f = Feature {
        properties: None,
        geometry: Some(Geometry::LineString(vec![
            Point { x: 0, y: 0 },
            Point { x: 1, y: 1 },
            Point { x: 2, y: 0 },
        ])),
    };
    let ops = exec_consequent(&cmds, &f, &t).unwrap();
    assert_eq!(
        ops,
        vec![
            Op::Move(Point { x: 0, y: 0 }),
            Op::Line(Point { x: 1, y: 1 }),
            Op::Line(Point { x: 2, y: 0 }),
        ]
    );
}

#[test]
fn label_writes_text_at_the_centroid() {
    let t = table();
    let cmds = vec![Command::Label(mafe::ast::Label {
        content: Value::Lit(Literal::Str(b"oak".to_vec())),
    })];
    let f = point_feature(5_000_000, 6_000_000);
    let ops = exec_consequent(&cmds, &f, &t).unwrap();
    assert_eq!(
        ops,
        vec![Op::Text {
            text: b"oak".to_vec(),
            color: Vec::new(),
            x: 5_000_000,
            y: 6_000_000
        }]
    );
}

#[test]
fn centroid_weighs_the_outer_ring_by_area() {
    let square_ring = Geometry::Polygon(vec![vec![
        Point { x: 0, y: 0 },
        Point { x: 4_000_000, y: 0 },
        Point { x: 4_000_000, y: 4_000_000 },
        Point { x: 0, y: 4_000_000 },
    ]]);
    assert_eq!(
        centroid(&square_ring).unwrap(),
        Point { x: 2_000_000, y: 2_000_000 }
    );
    // An extra vertex on an edge shifts the vertex mean but not the
    // area centroid.
    let with_edge_vertex = Geometry::Polygon(vec![vec![
        Point { x: 0, y: 0 },
        Point { x: 4_000_000, y: 0 },
        Point { x: 4_000_000, y: 4_000_000 },
        Point { x: 0, y: 4_000_000 },
        Point { x: 0, y: 2_000_000 },
    ]]);
    assert_eq!(
        centroid(&with_edge_vertex).unwrap(),
        Point { x: 2_000_000, y: 2_000_000 }
    );
    // A closed ring (first vertex repeated) weighs the same.
    let closed = Geometry::Polygon(vec![vec![
        Point { x: 0, y: 0 },
        Point { x: 4_000_000, y: 0 },
        Point { x: 4_000_000, y: 4_000_000 },
        Point { x: 0, y: 4_000_000 },
        Point { x: 0, y: 0 },
    ]]);
    assert_eq!(
        centroid(&closed).unwrap(),
        Point { x: 2_000_000, y: 2_000_000 }
    );
    let empty = Geometry::MultiPoint(vec![]);
    assert!(matches!(centroid(&empty), Err(ApplyError::Geometry)));
}

#[test]
fn centroid_weighs_lines_by_length() {
    // Two segments of length 6 each: midpoints (3, 0) and (6, 3).
    let bend = Geometry::LineString(vec![
        Point { x: 0, y: 0 },
        Point { x: 6_000_000, y: 0 },
        Point { x: 6_000_000, y: 6_000_000 },
    ]);
    assert_eq!(
        centroid(&bend).unwrap(),
        Point { x: 4_500_000, y: 1_500_000 }
    );
    // Uneven segments: lengths 4 and 2, midpoints (2, 0) and (5, 0).
    let straight = Geometry::LineString(vec![
        Point { x: 0, y: 0 },
        Point { x: 4_000_000, y: 0 },
        Point { x: 6_000_000, y: 0 },
    ]);
    assert_eq!(centroid(&straight).unwrap(), Point { x: 3_000_000, y: 0 });
    // A single point has no length: the mean fallback gives the point.
    let dot = Geometry::LineString(vec![Point { x: 7, y: 9 }]);
    assert_eq!(centroid(&dot).unwrap(), Point { x: 7, y: 9 });
}

#[test]
fn centroid_weighs_polygons_together() {
    // Two unit squares of equal area, centred at (1, 1) and (9, 1).
    let two = Geometry::MultiPolygon(vec![
        vec![vec![
            Point { x: 0, y: 0 },
            Point { x: 2_000_000, y: 0 },
            Point { x: 2_000_000, y: 2_000_000 },
            Point { x: 0, y: 2_000_000 },
        ]],
        vec![vec![
            Point { x: 8_000_000, y: 0 },
            Point { x: 10_000_000, y: 0 },
            Point { x: 10_000_000, y: 2_000_000 },
            Point { x: 8_000_000, y: 2_000_000 },
        ]],
    ]);
    assert_eq!(
        centroid(&two).unwrap(),
        Point { x: 5_000_000, y: 1_000_000 }
    );
}

#[test]
fn op_display_text_matches_the_documented_form() {
    let shown = |o: &Op| String::from_utf8(fmt_op(o)).unwrap();
    assert_eq!(shown(&Op::Start), "[start]");
    assert_eq!(shown(&Op::Close), "[close]");
    assert_eq!(
        shown(&Op::Move(Point { x: 2_500_000, y: -1_000_000 })),
        "[move (2.5, -1)]"
    );
    assert_eq!(
        shown(&Op::Fill(b"#FF1E00".to_vec())),
        "[fill #FF1E00]"
    );
    assert_eq!(
        shown(&Op::Stroke { color: b"blue".to_vec(), size: 2_000_000 }),
        "[stroke blue 2]"
    );
    assert_eq!(
        shown(&Op::Text { text: b"oak".to_vec(), color: b"black".to_vec(), x: 0, y: 500_000 }),
        "[text oak black 0 0.5]"
    );
}
