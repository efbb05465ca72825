//! The feature-source surface the evaluator consumes: a feature carries
//! optional attributes and an optional geometry, and a `select` reads a
//! typed attribute out of a feature.
use vstd::prelude::*;

use crate::ast::{Literal, LiteralV, Num, Select, SelectV, Source, DataType};
use crate::error::{ApplyError, ApplyErrorV};
use crate::geom::{Geometry, GeometryV};
use crate::json::{
    literal_of_json, object_find, object_get, try_literal, view_json_entries, JsonVal,
    JsonValV,
};

verus! {

/// One feature of a source: its attributes, where it has any, and its
/// geometry, already in the map's coordinate reference system.
#[derive(Debug)]
pub struct Feature {
    pub properties: Option<Vec<(Vec<u8>, JsonVal)>>,
    pub geometry: Option<Geometry>,
}

/// Mathematical view of `Feature`.
pub struct FeatureV {
    pub properties: Option<Seq<(Seq<u8>, JsonValV)>>,
    pub geometry: Option<GeometryV>,
}

impl View for Feature {
    type V = FeatureV;

    open spec fn view(&self) -> FeatureV {
        FeatureV {
            properties: match &self.properties {
                Some(p) => Some(view_json_entries(p@)),
                None => None,
            },
            geometry: match &self.geometry {
                Some(g) => Some(g@),
                None => None,
            },
        }
    }
}

/// What a typed attribute selection yields: the literal under the
/// selector where the feature has attributes, the attribute converts to
/// a literal, and the literal's shape agrees with the declared
/// datatype.  `Nil` matches any declared datatype.  Each failure names
/// the selector.
pub open spec fn spec_select(sel: SelectV, f: FeatureV) -> Result<LiteralV, ApplyErrorV> {
    match f.properties {
        None => Err(ApplyErrorV::Select(sel.selector)),
        Some(props) => match object_get(props, sel.selector) {
            None => Err(ApplyErrorV::Select(sel.selector)),
            Some(jv) => match literal_of_json(jv) {
                None => Err(ApplyErrorV::Select(sel.selector)),
                Some(lit) => if datatype_matches(lit, sel.datatype) {
                    Ok(lit)
                } else {
                    Err(ApplyErrorV::Select(sel.selector))
                },
            },
        },
    }
}

/// Whether a literal's shape agrees with a declared datatype; `Nil`
/// agrees with every one.
pub open spec fn datatype_matches(lit: LiteralV, dt: DataType) -> bool {
    match (lit, dt) {
        (LiteralV::Nil, _) => true,
        (LiteralV::Str(_), DataType::String) => true,
        (LiteralV::Number(_), DataType::Number) => true,
        (LiteralV::Boolean(_), DataType::Boolean) => true,
        _ => false,
    }
}

/// Reads a typed attribute out of a feature.
pub fn select_literal(sel: &Select, f: &Feature) -> (r: Result<Literal, ApplyError>)
    ensures
        match (r, spec_select(sel@, f@)) {
            (Ok(l), Ok(lv)) => l@ == lv,
            (Err(e1), Err(e2)) => e1@ == e2,
            _ => false,
        },
{
    match &f.properties {
        None => Err(ApplyError::Select(crate::ast::clone_bytes(&sel.selector))),
        Some(props) => match object_find(props, &sel.selector) {
            None => Err(ApplyError::Select(crate::ast::clone_bytes(&sel.selector))),
            Some(jv) => match try_literal(jv) {
                None => Err(ApplyError::Select(crate::ast::clone_bytes(&sel.selector))),
                Some(lit) => {
                    let ok = match (&lit, &sel.datatype) {
                        (Literal::Nil, _) => true,
                        (Literal::Str(_), DataType::String) => true,
                        (Literal::Number(_), DataType::Number) => true,
                        (Literal::Boolean(_), DataType::Boolean) => true,
                        _ => false,
                    };
                    if ok {
                        Ok(lit)
                    } else {
                        Err(ApplyError::Select(crate::ast::clone_bytes(&sel.selector)))
                    }
                },
            },
        },
    }
}

/// The source coordinate reference system a source declares: absent
/// means the geographic default, 4326; a fixed-point number is refused.
pub open spec fn spec_source_srid(src: crate::ast::SourceV) -> Result<i64, ApplyErrorV> {
    match src.srid {
        None => Ok(4326),
        Some(Num::Integer(n)) => Ok(n),
        Some(Num::Float(_)) => Err(ApplyErrorV::SourceInit(src.path)),
    }
}

/// The source SRID of a source directive.
pub fn source_srid(src: &Source) -> (r: Result<i64, ApplyError>)
    ensures
        match (r, spec_source_srid(src@)) {
            (Ok(n), Ok(m)) => n == m,
            (Err(e1), Err(e2)) => e1@ == e2,
            _ => false,
        },
{
    match &src.srid {
        None => Ok(4326),
        Some(Num::Integer(n)) => Ok(*n),
        Some(Num::Float(_)) => Err(ApplyError::SourceInit(crate::ast::clone_bytes(&src.path))),
    }
}

} // verus!
