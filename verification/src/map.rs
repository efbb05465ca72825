//! The pipeline driver: runs every layer of a parsed map specification
//! over its features and concatenates the layers' operations in
//! declaration order.
use vstd::prelude::*;

use crate::ast::{DirectiveV, Extent, LayerBlock, MapSpec, Directive, SourceV, Srid, SymV};
use crate::error::{ApplyError, ApplyErrorV};
use crate::op::{view_ops, Op, OpV};
use crate::ast::Source;
use crate::source::{Feature, FeatureV};
use crate::sym::{make_symbology, spec_symbology_ops, CircleTable};

verus! {

/// The first `source` directive of a block, if any.
pub open spec fn spec_find_source(ds: Seq<DirectiveV>) -> Option<SourceV>
    decreases ds.len(),
{
    if ds.len() == 0 {
        None
    } else {
        match ds.first() {
            DirectiveV::Source(s) => Some(s),
            _ => spec_find_source(ds.drop_first()),
        }
    }
}

/// The first `srid` directive of a block, if any.
pub open spec fn spec_find_srid(ds: Seq<DirectiveV>) -> Option<Srid>
    decreases ds.len(),
{
    if ds.len() == 0 {
        None
    } else {
        match ds.first() {
            DirectiveV::Srid(s) => Some(s),
            _ => spec_find_srid(ds.drop_first()),
        }
    }
}

/// The first `extent` directive of a block, if any.
pub open spec fn spec_find_extent(ds: Seq<DirectiveV>) -> Option<Extent>
    decreases ds.len(),
{
    if ds.len() == 0 {
        None
    } else {
        match ds.first() {
            DirectiveV::Extent(e) => Some(e),
            _ => spec_find_extent(ds.drop_first()),
        }
    }
}

/// The sym rules of a block, in declaration order.
pub open spec fn spec_layer_syms(ds: Seq<DirectiveV>) -> Seq<SymV>
    decreases ds.len(),
{
    if ds.len() == 0 {
        Seq::empty()
    } else {
        spec_layer_syms(ds.drop_last()) + (match ds.last() {
            DirectiveV::Sym(y) => seq![y],
            _ => Seq::<SymV>::empty(),
        })
    }
}

/// The operations of a run of rules over one feature set, rule by rule.
pub open spec fn spec_syms_ops(
    syms: Seq<SymV>,
    fs: Seq<FeatureV>,
    cos: Seq<i64>,
    sin: Seq<i64>,
) -> Seq<OpV>
    decreases syms.len(),
{
    if syms.len() == 0 {
        Seq::empty()
    } else {
        spec_syms_ops(syms.drop_last(), fs, cos, sin) + spec_symbology_ops(
            syms.last(),
            fs,
            cos,
            sin,
        )
    }
}

/// The second `source` directive of a block, if any: a layer holds
/// exactly one, and a further one is an error at run time.
pub open spec fn spec_second_source(ds: Seq<DirectiveV>) -> Option<SourceV>
    decreases ds.len(),
{
    if ds.len() == 0 {
        None
    } else {
        match ds.first() {
            DirectiveV::Source(_) => spec_find_source(ds.drop_first()),
            _ => spec_second_source(ds.drop_first()),
        }
    }
}

/// What running one layer yields: a layer without a `source` directive
/// fails, as does one with more than one, naming the extra source's
/// path; otherwise each sym rule runs over the features in declaration
/// order and their operations follow one another.
pub open spec fn spec_run_layer(
    ds: Seq<DirectiveV>,
    fs: Seq<FeatureV>,
    cos: Seq<i64>,
    sin: Seq<i64>,
) -> Result<Seq<OpV>, ApplyErrorV> {
    if spec_find_source(ds) is None {
        Err(ApplyErrorV::MissingSource)
    } else {
        match spec_second_source(ds) {
            Some(extra) => Err(ApplyErrorV::SourceInit(extra.path)),
            None => Ok(spec_syms_ops(spec_layer_syms(ds), fs, cos, sin)),
        }
    }
}

/// Finds a layer's source directive.
pub fn find_source(layer: &LayerBlock) -> (r: Option<Source>)
    ensures
        match r {
            Some(s) => spec_find_source(layer@.directives) == Some(s@),
            None => spec_find_source(layer@.directives) is None,
        },
{
    let ds = &layer.directives;
    let mut k: usize = 0;
    let ghost dsv = layer@.directives;
    proof {
        assert(dsv.subrange(0, dsv.len() as int) =~= dsv);
    }
    while k < ds.len()
        invariant
            0 <= k <= ds@.len(),
            dsv == crate::ast::view_directives(ds@),
            dsv == layer@.directives,
            dsv.len() == ds@.len(),
            spec_find_source(dsv) == spec_find_source(dsv.subrange(k as int, dsv.len() as int)),
        decreases ds@.len() - k,
    {
        let ghost rest = dsv.subrange(k as int, dsv.len() as int);
        proof {
            assert(rest.first() == dsv[k as int]);
            assert(dsv[k as int] == crate::ast::view_directive(ds@[k as int]));
            assert(rest.drop_first() =~= dsv.subrange(k as int + 1, dsv.len() as int));
        }
        match &ds[k] {
            Directive::Source(s) => {
                let found = Source {
                    driver: s.driver,
                    path: crate::ast::clone_bytes(&s.path),
                    srid: s.srid,
                };
                proof {
                    assert(found@ == s@);
                    assert(spec_find_source(rest) == Some(s@));
                }
                return Some(found);
            },
            _ => {},
        }
        k = k + 1;
    }
    proof {
        assert(dsv.subrange(dsv.len() as int, dsv.len() as int) =~= Seq::<DirectiveV>::empty());
    }
    None
}

/// Finds a layer's second source directive, the one too many.
pub fn find_extra_source(layer: &LayerBlock) -> (r: Option<Source>)
    ensures
        match r {
            Some(s) => spec_second_source(layer@.directives) == Some(s@),
            None => spec_second_source(layer@.directives) is None,
        },
{
    let ds = &layer.directives;
    let ghost dsv = layer@.directives;
    let mut seen = false;
    let mut k: usize = 0;
    proof {
        assert(dsv.subrange(0, dsv.len() as int) =~= dsv);
    }
    while k < ds.len()
        invariant
            0 <= k <= ds@.len(),
            dsv == crate::ast::view_directives(ds@),
            dsv == layer@.directives,
            dsv.len() == ds@.len(),
            !seen ==> spec_second_source(dsv) == spec_second_source(
                dsv.subrange(k as int, dsv.len() as int),
            ),
            seen ==> spec_second_source(dsv) == spec_find_source(
                dsv.subrange(k as int, dsv.len() as int),
            ),
        decreases ds@.len() - k,
    {
        let ghost rest = dsv.subrange(k as int, dsv.len() as int);
        proof {
            assert(rest.first() == dsv[k as int]);
            assert(dsv[k as int] == crate::ast::view_directive(ds@[k as int]));
            assert(rest.drop_first() =~= dsv.subrange(k as int + 1, dsv.len() as int));
        }
        match &ds[k] {
            Directive::Source(s) => {
                if seen {
                    let found = Source {
                        driver: s.driver,
                        path: crate::ast::clone_bytes(&s.path),
                        srid: s.srid,
                    };
                    proof {
                        assert(found@ == s@);
                        assert(spec_find_source(rest) == Some(s@));
                    }
                    return Some(found);
                }
                seen = true;
            },
            _ => {},
        }
        k = k + 1;
    }
    proof {
        assert(dsv.subrange(dsv.len() as int, dsv.len() as int) =~= Seq::<DirectiveV>::empty());
    }
    None
}

/// Runs one layer over its features.
pub fn run_layer(layer: &LayerBlock, features: &Vec<Feature>, t: &CircleTable) -> (res: Result<
    Vec<Op>,
    ApplyError,
>)
    requires
        t.wf(),
    ensures
        match (
            res,
            spec_run_layer(
                layer@.directives,
                features@.map(|i: int, f: Feature| f@),
                t.cos_micro@,
                t.sin_micro@,
            ),
        ) {
            (Ok(a), Ok(b)) => view_ops(a@) == b,
            (Err(e1), Err(e2)) => e1@ == e2,
            _ => false,
        },
{
    if find_source(layer).is_none() {
        return Err(ApplyError::MissingSource);
    }
    if let Some(extra) = find_extra_source(layer) {
        return Err(ApplyError::SourceInit(extra.path));
    }
    let ds = &layer.directives;
    let ghost dsv = layer@.directives;
    let ghost fsv = features@.map(|i: int, f: Feature| f@);
    let mut out: Vec<Op> = Vec::new();
    let mut k: usize = 0;
    proof {
        assert(dsv.subrange(0, 0) =~= Seq::<DirectiveV>::empty());
        assert(spec_layer_syms(dsv.subrange(0, 0)) =~= Seq::<SymV>::empty());
        assert(view_ops(out@) =~= spec_syms_ops(
            spec_layer_syms(dsv.subrange(0, 0)),
            fsv,
            t.cos_micro@,
            t.sin_micro@,
        ));
    }
    while k < ds.len()
        invariant
            0 <= k <= ds@.len(),
            t.wf(),
            dsv == crate::ast::view_directives(ds@),
            dsv == layer@.directives,
            dsv.len() == ds@.len(),
            fsv == features@.map(|i: int, f: Feature| f@),
            view_ops(out@) == spec_syms_ops(
                spec_layer_syms(dsv.subrange(0, k as int)),
                fsv,
                t.cos_micro@,
                t.sin_micro@,
            ),
        decreases ds@.len() - k,
    {
        let ghost pre = dsv.subrange(0, k as int);
        proof {
            assert(dsv.subrange(0, k as int + 1).drop_last() =~= pre);
            assert(dsv.subrange(0, k as int + 1).last() == dsv[k as int]);
            assert(dsv[k as int] == crate::ast::view_directive(ds@[k as int]));
        }
        match &ds[k] {
            Directive::Sym(y) => {
                let mut piece = make_symbology(y, features, t);
                let ghost base = view_ops(out@);
                let ghost added = view_ops(piece@);
                out.append(&mut piece);
                proof {
                    let syms1 = spec_layer_syms(dsv.subrange(0, k as int + 1));
                    assert(syms1 =~= spec_layer_syms(pre) + seq![y@]);
                    assert(syms1.drop_last() =~= spec_layer_syms(pre));
                    assert(syms1.last() == y@);
                    assert(view_ops(out@) =~= base + added);
                }
            },
            _ => {
                proof {
                    assert(spec_layer_syms(dsv.subrange(0, k as int + 1)) =~= spec_layer_syms(
                        pre,
                    ) + Seq::<SymV>::empty());
                    assert(spec_layer_syms(pre) + Seq::<SymV>::empty() =~= spec_layer_syms(pre));
                }
            },
        }
        k = k + 1;
    }
    proof {
        assert(dsv.subrange(0, dsv.len() as int) =~= dsv);
    }
    Ok(out)
}

/// What running a whole map yields: the map block must name an `srid`
/// and an `extent`; then every layer runs over its own features, in
/// declaration order, and a failing layer fails the run.
pub open spec fn spec_run_map(
    map_dirs: Seq<DirectiveV>,
    layers: Seq<Seq<DirectiveV>>,
    lfs: Seq<Seq<FeatureV>>,
    cos: Seq<i64>,
    sin: Seq<i64>,
) -> Result<Seq<OpV>, ApplyErrorV> {
    if spec_find_srid(map_dirs) is None {
        Err(ApplyErrorV::MissingSrid)
    } else if spec_find_extent(map_dirs) is None {
        Err(ApplyErrorV::MissingExtent)
    } else {
        spec_layers_ops(layers, lfs, cos, sin)
    }
}

/// The operations of a run of layers, each over its own features.
pub open spec fn spec_layers_ops(
    layers: Seq<Seq<DirectiveV>>,
    lfs: Seq<Seq<FeatureV>>,
    cos: Seq<i64>,
    sin: Seq<i64>,
) -> Result<Seq<OpV>, ApplyErrorV>
    decreases layers.len(),
{
    if layers.len() == 0 {
        Ok(Seq::empty())
    } else {
        match spec_layers_ops(layers.drop_last(), lfs.drop_last(), cos, sin) {
            Err(e) => Err(e),
            Ok(front) => match spec_run_layer(
                layers.last(),
                if lfs.len() > 0 {
                    lfs.last()
                } else {
                    Seq::empty()
                },
                cos,
                sin,
            ) {
                Err(e) => Err(e),
                Ok(piece) => Ok(front + piece),
            },
        }
    }
}

/// Finds a map block's `srid` directive.
pub fn find_srid(spec: &MapSpec) -> (r: Option<Srid>)
    ensures
        r == spec_find_srid(spec@.map.directives),
{
    let ds = &spec.map.directives;
    let ghost dsv = spec@.map.directives;
    let mut k: usize = 0;
    proof {
        assert(dsv.subrange(0, dsv.len() as int) =~= dsv);
    }
    while k < ds.len()
        invariant
            0 <= k <= ds@.len(),
            dsv == crate::ast::view_directives(ds@),
            dsv == spec@.map.directives,
            dsv.len() == ds@.len(),
            spec_find_srid(dsv) == spec_find_srid(dsv.subrange(k as int, dsv.len() as int)),
        decreases ds@.len() - k,
    {
        let ghost rest = dsv.subrange(k as int, dsv.len() as int);
        proof {
            assert(rest.first() == dsv[k as int]);
            assert(dsv[k as int] == crate::ast::view_directive(ds@[k as int]));
            assert(rest.drop_first() =~= dsv.subrange(k as int + 1, dsv.len() as int));
        }
        match &ds[k] {
            Directive::Srid(s) => {
                proof {
                    assert(spec_find_srid(rest) == Some(*s));
                }
                return Some(*s);
            },
            _ => {},
        }
        k = k + 1;
    }
    proof {
        assert(dsv.subrange(dsv.len() as int, dsv.len() as int) =~= Seq::<DirectiveV>::empty());
    }
    None
}

/// Finds a map block's `extent` directive.
pub fn find_extent(spec: &MapSpec) -> (r: Option<Extent>)
    ensures
        r == spec_find_extent(spec@.map.directives),
{
    let ds = &spec.map.directives;
    let ghost dsv = spec@.map.directives;
    let mut k: usize = 0;
    proof {
        assert(dsv.subrange(0, dsv.len() as int) =~= dsv);
    }
    while k < ds.len()
        invariant
            0 <= k <= ds@.len(),
            dsv == crate::ast::view_directives(ds@),
            dsv == spec@.map.directives,
            dsv.len() == ds@.len(),
            spec_find_extent(dsv) == spec_find_extent(dsv.subrange(k as int, dsv.len() as int)),
        decreases ds@.len() - k,
    {
        let ghost rest = dsv.subrange(k as int, dsv.len() as int);
        proof {
            assert(rest.first() == dsv[k as int]);
            assert(dsv[k as int] == crate::ast::view_directive(ds@[k as int]));
            assert(rest.drop_first() =~= dsv.subrange(k as int + 1, dsv.len() as int));
        }
        match &ds[k] {
            Directive::Extent(e) => {
                proof {
                    assert(spec_find_extent(rest) == Some(*e));
                }
                return Some(*e);
            },
            _ => {},
        }
        k = k + 1;
    }
    proof {
        assert(dsv.subrange(dsv.len() as int, dsv.len() as int) =~= Seq::<DirectiveV>::empty());
    }
    None
}

/// Runs a whole map specification: layer by layer, each over its own
/// features, handed in layer order.
pub fn run_map(spec: &MapSpec, layer_features: &Vec<Vec<Feature>>, t: &CircleTable) -> (res:
    Result<Vec<Op>, ApplyError>)
    requires
        t.wf(),
        layer_features@.len() == spec.layers@.len(),
    ensures
        match (
            res,
            spec_run_map(
                spec@.map.directives,
                spec@.layers.map(|i: int, l: crate::ast::LayerBlockV| l.directives),
                layer_features@.map(
                    |i: int, fs: Vec<Feature>| fs@.map(|j: int, f: Feature| f@),
                ),
                t.cos_micro@,
                t.sin_micro@,
            ),
        ) {
            (Ok(a), Ok(b)) => view_ops(a@) == b,
            (Err(e1), Err(e2)) => e1@ == e2,
            _ => false,
        },
{
    if find_srid(spec).is_none() {
        return Err(ApplyError::MissingSrid);
    }
    if find_extent(spec).is_none() {
        return Err(ApplyError::MissingExtent);
    }
    let ghost lsv = spec@.layers.map(|i: int, l: crate::ast::LayerBlockV| l.directives);
    let ghost lfsv = layer_features@.map(
        |i: int, fs: Vec<Feature>| fs@.map(|j: int, f: Feature| f@),
    );
    let mut out: Vec<Op> = Vec::new();
    let mut k: usize = 0;
    proof {
        assert(lsv.subrange(0, 0) =~= Seq::<Seq<DirectiveV>>::empty());
        assert(lfsv.subrange(0, 0) =~= Seq::<Seq<FeatureV>>::empty());
        assert(view_ops(out@) =~= Seq::<OpV>::empty());
        assert(spec_layers_ops(lsv.subrange(0, 0), lfsv.subrange(0, 0), t.cos_micro@, t.sin_micro@)
            == Ok::<Seq<OpV>, ApplyErrorV>(view_ops(out@)));
    }
    while k < spec.layers.len()
        invariant
            0 <= k <= spec.layers@.len(),
            t.wf(),
            layer_features@.len() == spec.layers@.len(),
            lsv == spec@.layers.map(|i: int, l: crate::ast::LayerBlockV| l.directives),
            lfsv == layer_features@.map(
                |i: int, fs: Vec<Feature>| fs@.map(|j: int, f: Feature| f@),
            ),
            lsv.len() == spec.layers@.len(),
            lfsv.len() == spec.layers@.len(),
            spec_find_srid(spec@.map.directives) is Some,
            spec_find_extent(spec@.map.directives) is Some,
            spec_layers_ops(
                lsv.subrange(0, k as int),
                lfsv.subrange(0, k as int),
                t.cos_micro@,
                t.sin_micro@,
            ) == Ok::<Seq<OpV>, ApplyErrorV>(view_ops(out@)),
        decreases spec.layers@.len() - k,
    {
        proof {
            assert(lsv[k as int] == spec.layers@[k as int]@.directives);
            assert(lfsv[k as int] == layer_features@[k as int]@.map(|j: int, f: Feature| f@));
            assert(lsv.subrange(0, k as int + 1).drop_last() =~= lsv.subrange(0, k as int));
            assert(lfsv.subrange(0, k as int + 1).drop_last() =~= lfsv.subrange(0, k as int));
            assert(lsv.subrange(0, k as int + 1).last() == lsv[k as int]);
            assert(lfsv.subrange(0, k as int + 1).last() == lfsv[k as int]);
        }
        match run_layer(&spec.layers[k], &layer_features[k], t) {
            Ok(mut piece) => {
                let ghost base = view_ops(out@);
                let ghost added = view_ops(piece@);
                out.append(&mut piece);
                proof {
                    assert(view_ops(out@) =~= base + added);
                }
            },
            Err(e) => {
                proof {
                    lemma_layers_ops_err(lsv, lfsv, k as int, t.cos_micro@, t.sin_micro@);
                }
                return Err(e);
            },
        }
        k = k + 1;
    }
    proof {
        assert(lsv.subrange(0, lsv.len() as int) =~= lsv);
        assert(lfsv.subrange(0, lfsv.len() as int) =~= lfsv);
    }
    Ok(out)
}

/// A failure at one layer, after sound earlier layers, is the failure
/// of the whole run.
proof fn lemma_layers_ops_err(
    layers: Seq<Seq<DirectiveV>>,
    lfs: Seq<Seq<FeatureV>>,
    k: int,
    cos: Seq<i64>,
    sin: Seq<i64>,
)
    requires
        0 <= k < layers.len(),
        layers.len() == lfs.len(),
        spec_layers_ops(layers.subrange(0, k), lfs.subrange(0, k), cos, sin) is Ok,
        spec_run_layer(layers[k], lfs[k], cos, sin) is Err,
    ensures
        spec_layers_ops(layers, lfs, cos, sin) == Err::<Seq<OpV>, _>(
            spec_run_layer(layers[k], lfs[k], cos, sin)->Err_0,
        ),
    decreases layers.len(),
{
    if k == layers.len() - 1 {
        assert(layers.drop_last() =~= layers.subrange(0, k));
        assert(lfs.drop_last() =~= lfs.subrange(0, k));
        assert(layers.last() == layers[k]);
        assert(lfs.last() == lfs[k]);
    } else {
        assert(layers.drop_last().subrange(0, k) =~= layers.subrange(0, k));
        assert(lfs.drop_last().subrange(0, k) =~= lfs.subrange(0, k));
        assert(layers.drop_last()[k] == layers[k]);
        assert(lfs.drop_last()[k] == lfs[k]);
        lemma_layers_ops_err(layers.drop_last(), lfs.drop_last(), k, cos, sin);
    }
}


/// A run of rules over two runs of rules, one after the other, is the
/// first's output followed by the second's.
pub proof fn lemma_syms_ops_concat(
    a: Seq<SymV>,
    b: Seq<SymV>,
    fs: Seq<FeatureV>,
    cos: Seq<i64>,
    sin: Seq<i64>,
)
    ensures
        spec_syms_ops(a + b, fs, cos, sin) == spec_syms_ops(a, fs, cos, sin) + spec_syms_ops(
            b,
            fs,
            cos,
            sin,
        ),
    decreases b.len(),
{
    if b.len() == 0 {
        assert(a + b =~= a);
        assert(spec_syms_ops(a, fs, cos, sin) + spec_syms_ops(b, fs, cos, sin)
            =~= spec_syms_ops(a, fs, cos, sin));
    } else {
        lemma_syms_ops_concat(a, b.drop_last(), fs, cos, sin);
        assert((a + b).drop_last() =~= a + b.drop_last());
        assert((a + b).last() == b.last());
        assert(spec_syms_ops(a, fs, cos, sin) + (spec_syms_ops(b.drop_last(), fs, cos, sin)
            + spec_symbology_ops(b.last(), fs, cos, sin)) =~= (spec_syms_ops(a, fs, cos, sin)
            + spec_syms_ops(b.drop_last(), fs, cos, sin)) + spec_symbology_ops(
            b.last(),
            fs,
            cos,
            sin,
        ));
    }
}

/// Each rule's output stands on its own: a run of rules over one
/// feature set is every rule's own output side by side, each a
/// function of that rule and the features alone, so no rule's failures
/// can touch another rule's output.
pub proof fn lemma_sym_independence(
    syms: Seq<SymV>,
    fs: Seq<FeatureV>,
    i: int,
    cos: Seq<i64>,
    sin: Seq<i64>,
)
    requires
        0 <= i < syms.len(),
    ensures
        spec_syms_ops(syms, fs, cos, sin) == spec_syms_ops(syms.subrange(0, i), fs, cos, sin)
            + spec_symbology_ops(syms[i], fs, cos, sin) + spec_syms_ops(
            syms.subrange(i + 1, syms.len() as int),
            fs,
            cos,
            sin,
        ),
{
    let front = syms.subrange(0, i);
    let middle = syms.subrange(i, i + 1);
    let back = syms.subrange(i + 1, syms.len() as int);
    assert(syms =~= front + middle + back);
    lemma_syms_ops_concat(front + middle, back, fs, cos, sin);
    lemma_syms_ops_concat(front, middle, fs, cos, sin);
    assert(middle.drop_last() =~= Seq::<SymV>::empty());
    assert(middle.last() == syms[i]);
    assert(spec_syms_ops(Seq::<SymV>::empty(), fs, cos, sin) =~= Seq::<OpV>::empty());
    assert(spec_syms_ops(middle, fs, cos, sin) =~= Seq::<OpV>::empty() + spec_symbology_ops(
        syms[i],
        fs,
        cos,
        sin,
    ));
    assert(Seq::<OpV>::empty() + spec_symbology_ops(syms[i], fs, cos, sin)
        =~= spec_symbology_ops(syms[i], fs, cos, sin));
}

} // verus!
