//! Parser behaviour: tokens, blocks, scoping and whole specifications.
use mafe::ast::{Constructor, Directive, Literal, Num, Value};
use mafe::lex::{keyword_of, BlockKeyword, ExprKeyword, Keyword, SymKeyword};
use mafe::parser::{
    eat_block_sep, eat_ident, eat_literal, eat_number, eat_string, eat_trailing_space, map_block,
    new_context, parse, Context, ParseError,
};

fn ctx_with_scope() -> Context {
    let mut ctx = new_context();
    ctx.push_scope();
    ctx
}

#[test]
fn trailing_space_works() {
    // Three letter runs, each ended by a line break; the trailing spaces
    // without a line break end the list.
    let src = b"aaaaaaaaaaaaaa\nbbbbbbbbbbbbbb\nbbbbbbbbbbbbbb\n        ".to_vec();
    let mut segments = 0;
    let mut pos = 0usize;
    loop {
        match eat_ident(&src, pos) {
            Some((_, j)) => {
                segments += 1;
                match eat_trailing_space(&src, j) {
                    Some(k) => pos = k,
                    None => break,
                }
            }
            None => break,
        }
    }
    assert_eq!(segments, 3);
}

#[test]
fn map_block_works() {
    let src = b"map\nsrid 3857\nextent 11111 22222.2 333333 444444\ndata blue  rgb(0, 0, 255)\n        "
        .to_vec();
    let mut ctx = ctx_with_scope();
    let result = map_block(&src, 0, &mut ctx);
    assert!(result.is_ok());
    let (mb, _) = result.unwrap();
    assert_eq!(mb.directives.len(), 3);
}

#[test]
fn number_round_trips() {
    // Integers keep their value and variant.
    let (n, j) = eat_number(&b"3857 ".to_vec(), 0).unwrap();
    assert_eq!(n, Num::Integer(3857));
    assert_eq!(j, 4);
    // A fraction makes a fixed-point number in millionths.
    let (n, _) = eat_number(&b"2.5".to_vec(), 0).unwrap();
    assert_eq!(n, Num::Float(2_500_000));
    // Signs and exponents.
    let (n, _) = eat_number(&b"-12".to_vec(), 0).unwrap();
    assert_eq!(n, Num::Integer(-12));
    let (n, _) = eat_number(&b"1.5e3".to_vec(), 0).unwrap();
    assert_eq!(n, Num::Float(1_500_000_000));
    let (n, _) = eat_number(&b"22222.2".to_vec(), 0).unwrap();
    assert_eq!(n, Num::Float(22_222_200_000));
    // Leading zeros are not part of a number token.
    let (n, j) = eat_number(&b"007".to_vec(), 0).unwrap();
    assert_eq!(n, Num::Integer(0));
    assert_eq!(j, 1);
}

#[test]
fn string_round_trips() {
    let (s, j) = eat_string(&b"\"fc.json\" tail".to_vec(), 0).unwrap();
    assert_eq!(s, b"fc.json".to_vec());
    assert_eq!(j, 9);
    // Escapes unescape.
    let (s, _) = eat_string(&b"\"a\\nb\\\"c\\\\d\"".to_vec(), 0).unwrap();
    assert_eq!(s, b"a\nb\"c\\d".to_vec());
    // An unterminated string is no string.
    assert!(eat_string(&b"\"open".to_vec(), 0).is_none());
}

#[test]
fn literal_round_trips() {
    let (l, _) = eat_literal(&b"true".to_vec(), 0).unwrap();
    assert_eq!(l, Literal::Boolean(true));
    let (l, _) = eat_literal(&b"false".to_vec(), 0).unwrap();
    assert_eq!(l, Literal::Boolean(false));
    let (l, _) = eat_literal(&b"\"bench\"".to_vec(), 0).unwrap();
    assert_eq!(l, Literal::Str(b"bench".to_vec()));
    let (l, _) = eat_literal(&b"42".to_vec(), 0).unwrap();
    assert_eq!(l, Literal::Number(Num::Integer(42)));
}

#[test]
fn block_separator_needs_a_blank_line() {
    assert!(eat_block_sep(&b"\n\n".to_vec(), 0).is_some());
    assert!(eat_block_sep(&b"  \n   \n".to_vec(), 0).is_some());
    assert!(eat_block_sep(&b"\nx".to_vec(), 0).is_none());
}

#[test]
fn minimal_map_parses_with_declaration() {
    let src = b"map\nsrid 3857\nextent 0 0 10 10\ndata a 1\n\nlayer\nsource geojson \"fc.json\" 4326\nsym a = 1 -> circle 2"
        .to_vec();
    let mut ctx = new_context();
    let spec = parse(&src, &mut ctx).expect("declared data resolves");
    assert_eq!(spec.layers.len(), 1);
}

#[test]
fn minimal_map_without_declaration_is_out_of_scope() {
    let src = b"map\nsrid 3857\nextent 0 0 10 10\n\nlayer\nsource geojson \"fc.json\" 4326\nsym a = 1 -> circle 2"
        .to_vec();
    let mut ctx = new_context();
    match parse(&src, &mut ctx) {
        Err(ParseError::DataNotInScope { name, position }) => {
            assert_eq!(name, b"a".to_vec());
            // The offset points at the referenced identifier.
            assert_eq!(src[position], b'a');
        }
        other => panic!("expected DataNotInScope, got {:?}", other),
    }
}

#[test]
fn scope_linearity_reference_before_declaration() {
    // The reference comes before the declaration: unresolved.
    let early = b"map\nsrid 1\nextent 0 0 1 1\n\nlayer\nsource geojson \"f\"\nsym a = 1 -> circle 2\ndata a 1"
        .to_vec();
    let mut ctx = new_context();
    assert!(matches!(
        parse(&early, &mut ctx),
        Err(ParseError::DataNotInScope { .. })
    ));
    // Moving the declaration earlier makes it resolve.
    let late = b"map\nsrid 1\nextent 0 0 1 1\n\nlayer\nsource geojson \"f\"\ndata a 1\nsym a = 1 -> circle 2"
        .to_vec();
    let mut ctx = new_context();
    assert!(parse(&late, &mut ctx).is_ok());
}

#[test]
fn layer_isolation_between_blocks() {
    // `b` is declared in the first layer only; the second layer cannot
    // see it.
    let src = b"map\nsrid 1\nextent 0 0 1 1\n\nlayer\nsource geojson \"f\"\ndata b 1\nsym b = 1 -> circle 2\n\nlayer\nsource geojson \"g\"\nsym b = 1 -> circle 2"
        .to_vec();
    let mut ctx = new_context();
    match parse(&src, &mut ctx) {
        Err(ParseError::DataNotInScope { name, .. }) => assert_eq!(name, b"b".to_vec()),
        other => panic!("expected DataNotInScope, got {:?}", other),
    }
}

#[test]
fn map_scope_reaches_every_layer() {
    let src = b"map\nsrid 1\nextent 0 0 1 1\ndata c 1\n\nlayer\nsource geojson \"f\"\nsym c = 1 -> circle 2\n\nlayer\nsource geojson \"g\"\nsym c = 1 -> circle 2"
        .to_vec();
    let mut ctx = new_context();
    assert!(parse(&src, &mut ctx).is_ok());
}

#[test]
fn data_directive_embeds_its_binding() {
    let src = b"map\nsrid 1\nextent 0 0 1 1\ndata red rgb(255, 30, 0)\ndata x red\n\nlayer\nsource geojson \"f\"\nsym x = 1 -> circle 2"
        .to_vec();
    let mut ctx = new_context();
    let spec = parse(&src, &mut ctx).unwrap();
    // The second data directive resolved `red` to its binding.
    match &spec.map.directives[3] {
        Directive::Data(d) => {
            assert_eq!(d.ident, b"x".to_vec());
            match &*d.constructor {
                Constructor::Val(Value::Data(inner)) => {
                    assert_eq!(inner.ident, b"red".to_vec());
                }
                other => panic!("expected a resolved binding, got {:?}", other),
            }
        }
        other => panic!("expected a data directive, got {:?}", other),
    }
}

#[test]
fn parenthesized_and_flat_predicates_parse_alike() {
    // `(a & b) | c` and `a & b | c` with the flat left fold build the
    // same tree, so both specifications run identically.
    let flat = b"map\nsrid 1\nextent 0 0 1 1\ndata a 1\ndata b 2\ndata c 3\n\nlayer\nsource geojson \"f\"\nsym a = 1 & b = 2 | c = 3 -> circle 2"
        .to_vec();
    let paren = b"map\nsrid 1\nextent 0 0 1 1\ndata a 1\ndata b 2\ndata c 3\n\nlayer\nsource geojson \"f\"\nsym ( a = 1 & b = 2 ) | c = 3 -> circle 2"
        .to_vec();
    let mut ctx1 = new_context();
    let s1 = parse(&flat, &mut ctx1).unwrap();
    let mut ctx2 = new_context();
    let s2 = parse(&paren, &mut ctx2).unwrap();
    let d1 = format!("{:?}", s1.layers[0].directives);
    let d2 = format!("{:?}", s2.layers[0].directives);
    assert_eq!(d1, d2);
}

#[test]
fn keywords_classify() {
    assert_eq!(
        keyword_of(&b"map".to_vec()),
        Some(Keyword::Block(BlockKeyword::MapBlock))
    );
    assert_eq!(
        keyword_of(&b"data".to_vec()),
        Some(Keyword::Expr(ExprKeyword::Data))
    );
    assert_eq!(
        keyword_of(&b"stroke".to_vec()),
        Some(Keyword::Sym(SymKeyword::Stroke))
    );
    assert_eq!(keyword_of(&b"bench".to_vec()), None);
}

#[test]
fn errors_carry_offset_and_window() {
    let src = b"map\nsrid 3857\nextent 0 0 10 10\n\nlayer\nsource geojson \"fc.json\" 4326\nsym a = 1 -> circle 2"
        .to_vec();
    let mut ctx = new_context();
    let err = parse(&src, &mut ctx).unwrap_err();
    let pos = err.position().expect("a scope error has an offset");
    assert_eq!(src[pos], b'a');
    let text = err.describe(&src);
    let shown = String::from_utf8(text).unwrap();
    assert_eq!(shown, format!("data not in scope at byte {}: a", pos));
    // A plain mismatch reports a window of the offending input.
    let bad = b"map\nsrid x\nextent 0 0 1 1\n\nlayer\nsource geojson \"f\"\nsym 1 = 1 -> fill \"c\""
        .to_vec();
    let mut ctx = new_context();
    let err = bad_parse_error(&bad, &mut ctx);
    let text = String::from_utf8(err.describe(&bad)).unwrap();
    assert!(text.starts_with("syntax mismatch at byte "));
}

fn bad_parse_error(src: &Vec<u8>, ctx: &mut Context) -> ParseError {
    parse(src, ctx).unwrap_err()
}
