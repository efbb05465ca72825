//! The lexical vocabulary of the language: the keyword, operator and
//! symbol categories a token can fall into.
use vstd::prelude::*;

use crate::parser::{
    kw_data, kw_extent, kw_fill, kw_label, kw_layer, kw_map, kw_pattern, kw_srid, kw_stroke,
    kw_sym,
};

verus! {

/// A keyword that opens a block.
#[derive(Debug, Clone, Copy, PartialEq, Eq, Structural)]
pub enum BlockKeyword {
    MapBlock,
    LayerBlock,
}

/// A keyword that opens a directive.
#[derive(Debug, Clone, Copy, PartialEq, Eq, Structural)]
pub enum ExprKeyword {
    Srid,
    Extent,
    Data,
    Sym,
}

/// A keyword that names a paint command.
#[derive(Debug, Clone, Copy, PartialEq, Eq, Structural)]
pub enum SymKeyword {
    Fill,
    Stroke,
    Pattern,
    Label,
}

/// Any keyword of the language.
#[derive(Debug, Clone, Copy, PartialEq, Eq, Structural)]
pub enum Keyword {
    Block(BlockKeyword),
    Expr(ExprKeyword),
    Sym(SymKeyword),
}

/// A comparison operator token.
#[derive(Debug, Clone, Copy, PartialEq, Eq, Structural)]
pub enum Operator {
    Eq,
    Lt,
    Lte,
    Gt,
    Gte,
}

/// A non-keyword token: the group operators, the arrow, or an
/// identifier.
#[derive(Debug, Clone, PartialEq)]
pub enum Symbol {
    Or,
    Then,
    Pipe,
    Ident(Vec<u8>),
}

/// The keyword a word stands for, if any.
pub open spec fn spec_keyword_of(w: Seq<u8>) -> Option<Keyword> {
    if w == kw_map() {
        Some(Keyword::Block(BlockKeyword::MapBlock))
    } else if w == kw_layer() {
        Some(Keyword::Block(BlockKeyword::LayerBlock))
    } else if w == kw_srid() {
        Some(Keyword::Expr(ExprKeyword::Srid))
    } else if w == kw_extent() {
        Some(Keyword::Expr(ExprKeyword::Extent))
    } else if w == kw_data() {
        Some(Keyword::Expr(ExprKeyword::Data))
    } else if w == kw_sym() {
        Some(Keyword::Expr(ExprKeyword::Sym))
    } else if w == kw_fill() {
        Some(Keyword::Sym(SymKeyword::Fill))
    } else if w == kw_stroke() {
        Some(Keyword::Sym(SymKeyword::Stroke))
    } else if w == kw_pattern() {
        Some(Keyword::Sym(SymKeyword::Pattern))
    } else if w == kw_label() {
        Some(Keyword::Sym(SymKeyword::Label))
    } else {
        None
    }
}

/// Classifies a word as a keyword, where it is one.
pub fn keyword_of(w: &Vec<u8>) -> (r: Option<Keyword>)
    ensures
        r == spec_keyword_of(w@),
{
    let tries: [(Vec<u8>, Keyword); 10] = [
        (crate::parser::kw_map_vec(), Keyword::Block(BlockKeyword::MapBlock)),
        (crate::parser::kw_layer_vec(), Keyword::Block(BlockKeyword::LayerBlock)),
        (crate::parser::kw_srid_vec(), Keyword::Expr(ExprKeyword::Srid)),
        (crate::parser::kw_extent_vec(), Keyword::Expr(ExprKeyword::Extent)),
        (crate::parser::kw_data_vec(), Keyword::Expr(ExprKeyword::Data)),
        (crate::parser::kw_sym_vec(), Keyword::Expr(ExprKeyword::Sym)),
        (crate::parser::kw_fill_vec(), Keyword::Sym(SymKeyword::Fill)),
        (crate::parser::kw_stroke_vec(), Keyword::Sym(SymKeyword::Stroke)),
        (crate::parser::kw_pattern_vec(), Keyword::Sym(SymKeyword::Pattern)),
        (crate::parser::kw_label_vec(), Keyword::Sym(SymKeyword::Label)),
    ];
    let mut k: usize = 0;
    while k < 10
        invariant
            0 <= k <= 10,
            tries@.len() == 10,
            tries@[0].0@ == kw_map() && tries@[0].1 == Keyword::Block(BlockKeyword::MapBlock),
            tries@[1].0@ == kw_layer() && tries@[1].1 == Keyword::Block(BlockKeyword::LayerBlock),
            tries@[2].0@ == kw_srid() && tries@[2].1 == Keyword::Expr(ExprKeyword::Srid),
            tries@[3].0@ == kw_extent() && tries@[3].1 == Keyword::Expr(ExprKeyword::Extent),
            tries@[4].0@ == kw_data() && tries@[4].1 == Keyword::Expr(ExprKeyword::Data),
            tries@[5].0@ == kw_sym() && tries@[5].1 == Keyword::Expr(ExprKeyword::Sym),
            tries@[6].0@ == kw_fill() && tries@[6].1 == Keyword::Sym(SymKeyword::Fill),
            tries@[7].0@ == kw_stroke() && tries@[7].1 == Keyword::Sym(SymKeyword::Stroke),
            tries@[8].0@ == kw_pattern() && tries@[8].1 == Keyword::Sym(SymKeyword::Pattern),
            tries@[9].0@ == kw_label() && tries@[9].1 == Keyword::Sym(SymKeyword::Label),
            forall|j: int| 0 <= j < k ==> w@ != (#[trigger] tries@[j]).0@,
        decreases 10 - k,
    {
        let c = crate::num::bytes_cmp(w, &tries[k].0);
        proof {
            crate::num::lemma_bytes_cmp_eq(w@, tries@[k as int].0@);
        }
        if matches!(c, crate::num::Cmp::Eq) {
            return Some(tries[k].1);
        }
        k = k + 1;
    }
    None
}

} // verus!
