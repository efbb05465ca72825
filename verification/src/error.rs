//! The one error taxonomy of evaluation and execution.  Parse errors
//! have their own type in the parser.
use vstd::prelude::*;

verus! {

/// Why resolving, selecting or executing failed.  Payloads carry the
/// name involved: the function not found, the selector that missed, the
/// binding that could not be resolved.
#[derive(Debug)]
pub enum ApplyError {
    FunctionNotFound(Vec<u8>),
    FunctionArg(Vec<u8>),
    FunctionFail(Vec<u8>),
    Sym(Vec<u8>),
    Resolve(Vec<u8>),
    SourceInit(Vec<u8>),
    Select(Vec<u8>),
    CommandNotFound,
    Conversion,
    Geometry,
    MissingSource,
    MissingSrid,
    MissingExtent,
    NotAFeatureCollection(Vec<u8>),
    Wrapped(Vec<u8>),
}

/// Mathematical view of `ApplyError`.
pub enum ApplyErrorV {
    FunctionNotFound(Seq<u8>),
    FunctionArg(Seq<u8>),
    FunctionFail(Seq<u8>),
    Sym(Seq<u8>),
    Resolve(Seq<u8>),
    SourceInit(Seq<u8>),
    Select(Seq<u8>),
    CommandNotFound,
    Conversion,
    Geometry,
    MissingSource,
    MissingSrid,
    MissingExtent,
    NotAFeatureCollection(Seq<u8>),
    Wrapped(Seq<u8>),
}

impl View for ApplyError {
    type V = ApplyErrorV;

    open spec fn view(&self) -> ApplyErrorV {
        match self {
            ApplyError::FunctionNotFound(n) => ApplyErrorV::FunctionNotFound(n@),
            ApplyError::FunctionArg(n) => ApplyErrorV::FunctionArg(n@),
            ApplyError::FunctionFail(n) => ApplyErrorV::FunctionFail(n@),
            ApplyError::Sym(n) => ApplyErrorV::Sym(n@),
            ApplyError::Resolve(n) => ApplyErrorV::Resolve(n@),
            ApplyError::SourceInit(n) => ApplyErrorV::SourceInit(n@),
            ApplyError::Select(n) => ApplyErrorV::Select(n@),
            ApplyError::CommandNotFound => ApplyErrorV::CommandNotFound,
            ApplyError::Conversion => ApplyErrorV::Conversion,
            ApplyError::Geometry => ApplyErrorV::Geometry,
            ApplyError::MissingSource => ApplyErrorV::MissingSource,
            ApplyError::MissingSrid => ApplyErrorV::MissingSrid,
            ApplyError::MissingExtent => ApplyErrorV::MissingExtent,
            ApplyError::NotAFeatureCollection(n) => ApplyErrorV::NotAFeatureCollection(n@),
            ApplyError::Wrapped(n) => ApplyErrorV::Wrapped(n@),
        }
    }
}

/// The error of the optional label-placement pass, which sits outside
/// the core pipeline.
#[derive(Debug, Clone, Copy, PartialEq)]
pub enum LabelError {
    RulerInsertOutOfRange,
}

pub type ApplyResult<T> = Result<T, ApplyError>;

} // verus!
