//! The map-specification parser: a recursive-descent reader over bytes
//! that produces a `MapSpec`, resolving `data` identifiers against a
//! stack of lexical scopes while it reads.
//!
//! Every executable parsing function mirrors a specification function
//! over `Seq<u8>` exactly; its contract states that the two agree.  A
//! parser returns the parsed piece together with the position just past
//! what it consumed.  Failures come in two strengths: a `Wrap` error is a
//! plain mismatch that an enclosing alternative may recover from, while
//! every other error aborts the whole parse (an identifier out of scope
//! is reported as such, not swallowed as a mismatch).
use vstd::prelude::*;

use crate::ast::{clone_bytes, clone_data, view_constructor, view_data, view_pair, view_pred_group, view_predicate, view_value, view_values, Constructor, ConstructorV, Data, DataType, DataV, Driver, Extent, FunctionCall, FunctionCallV, Literal, LiteralV, Num, PredGroup, PredGroupV, Predicate, PredicateV, Select, SelectV, Source, SourceV, Srid, Value, ValueV, Circle, Clear, Command, CommandV, DrawGeometry, Fill, Label, Pattern, Square, Stroke, Sym, SymV, view_command, view_commands, view_directive, view_directives, Directive, DirectiveV, LayerBlock, LayerBlockV, MapBlock, MapBlockV, MapSpec, MapSpecV};

verus! {

/// Why a parse failed.  Every failure but the unreachable state names
/// the byte offset it arose at.
#[derive(Debug)]
pub enum ParseError {
    /// An internal state that should be unreachable.
    Mysterious,
    /// A lexical or grammar mismatch at the given byte offset.
    Wrap { position: usize },
    /// An identifier was referenced that no scope holds.
    DataNotInScope { name: Vec<u8>, position: usize },
    /// A comparison operator that the grammar does not know.
    UnknownPredicate { text: Vec<u8>, position: usize },
    /// A group operator that the grammar does not know.
    UnknownPredicateGrouping { text: Vec<u8>, position: usize },
}

/// Mathematical view of `ParseError`.
pub enum ParseErrorV {
    Mysterious,
    Wrap { position: int },
    DataNotInScope { name: Seq<u8>, position: int },
    UnknownPredicate { text: Seq<u8>, position: int },
    UnknownPredicateGrouping { text: Seq<u8>, position: int },
}

impl View for ParseError {
    type V = ParseErrorV;

    open spec fn view(&self) -> ParseErrorV {
        match self {
            ParseError::Mysterious => ParseErrorV::Mysterious,
            ParseError::Wrap { position } => ParseErrorV::Wrap { position: *position as int },
            ParseError::DataNotInScope { name, position } => ParseErrorV::DataNotInScope {
                name: name@,
                position: *position as int,
            },
            ParseError::UnknownPredicate { text, position } => ParseErrorV::UnknownPredicate {
                text: text@,
                position: *position as int,
            },
            ParseError::UnknownPredicateGrouping {
                text,
                position,
            } => ParseErrorV::UnknownPredicateGrouping {
                text: text@,
                position: *position as int,
            },
        }
    }
}

/// The byte offset a parse failure arose at, where it has one.
pub open spec fn spec_error_position(e: ParseErrorV) -> Option<int> {
    match e {
        ParseErrorV::Mysterious => None,
        ParseErrorV::Wrap { position } => Some(position),
        ParseErrorV::DataNotInScope { position, .. } => Some(position),
        ParseErrorV::UnknownPredicate { position, .. } => Some(position),
        ParseErrorV::UnknownPredicateGrouping { position, .. } => Some(position),
    }
}

impl ParseError {
    /// The byte offset this failure arose at, where it has one.
    pub fn position(&self) -> (r: Option<usize>)
        ensures
            match r {
                Some(p) => spec_error_position(self@) == Some(p as int),
                None => spec_error_position(self@) is None,
            },
    {
        match self {
            ParseError::Mysterious => None,
            ParseError::Wrap { position } => Some(*position),
            ParseError::DataNotInScope { position, .. } => Some(*position),
            ParseError::UnknownPredicate { position, .. } => Some(*position),
            ParseError::UnknownPredicateGrouping { position, .. } => Some(*position),
        }
    }
}

/// A plain mismatch at `i`, the recoverable kind of failure.
pub open spec fn wrap_at(i: int) -> ParseErrorV {
    ParseErrorV::Wrap { position: i }
}

/// Whether an enclosing alternative may recover from this failure.
pub open spec fn is_soft(e: ParseErrorV) -> bool {
    e is Wrap
}

/// Whether an executable position result agrees with a specification
/// position result.
pub open spec fn opt_pos_eq(r: Option<usize>, v: Option<int>) -> bool {
    match (r, v) {
        (Some(a), Some(b)) => a as int == b,
        (None, None) => true,
        _ => false,
    }
}

/// One lexical scope: the bindings declared in one block, later
/// declarations of a name shadowing earlier ones.
#[derive(Debug)]
pub struct Scope {
    pub values: Vec<(Vec<u8>, Data)>,
}

/// View of one scope's bindings.
pub open spec fn view_bindings(s: Seq<(Vec<u8>, Data)>) -> Seq<(Seq<u8>, DataV)>
    decreases s,
{
    if s.len() == 0 {
        Seq::empty()
    } else {
        view_bindings(s.drop_last()).push((s.last().0@, view_data(s.last().1)))
    }
}

/// `view_bindings` gives one viewed binding per binding.
pub proof fn lemma_view_bindings_index(s: Seq<(Vec<u8>, Data)>)
    ensures
        view_bindings(s).len() == s.len(),
        forall|i: int| 0 <= i < s.len() ==> view_bindings(s)[i] == ((#[trigger] s[i]).0@,
        view_data(s[i].1)),
    decreases s,
{
    if s.len() > 0 {
        lemma_view_bindings_index(s.drop_last());
        assert forall|i: int| 0 <= i < s.len() implies view_bindings(s)[i] == ((
        #[trigger] s[i]).0@, view_data(s[i].1)) by {
            if i < s.len() - 1 {
                assert(s.drop_last()[i] == s[i]);
                assert(view_bindings(s)[i] == view_bindings(s.drop_last())[i]);
            } else {
                assert(s[i] == s.last());
            }
        }
    }
}

impl View for Scope {
    type V = Seq<(Seq<u8>, DataV)>;

    open spec fn view(&self) -> Seq<(Seq<u8>, DataV)> {
        view_bindings(self.values@)
    }
}

/// The binding a name has in one scope: the latest entry under that name,
/// if any.
pub open spec fn scope_find(s: Seq<(Seq<u8>, DataV)>, name: Seq<u8>) -> Option<DataV>
    decreases s,
{
    if s.len() == 0 {
        None
    } else if s.last().0 == name {
        Some(s.last().1)
    } else {
        scope_find(s.drop_last(), name)
    }
}

impl Scope {
    /// An empty scope.
    pub fn new() -> (r: Self)
        ensures
            r@ == Seq::<(Seq<u8>, DataV)>::empty(),
    {
        let r = Scope { values: Vec::new() };
        proof {
            assert(r@ =~= Seq::<(Seq<u8>, DataV)>::empty());
        }
        r
    }

    /// The binding `name` has in this scope, if any.
    pub fn find_value(&self, name: &Vec<u8>) -> (r: Option<Data>)
        ensures
            match r {
                Some(d) => scope_find(self@, name@) == Some(view_data(d)),
                None => scope_find(self@, name@) is None,
            },
    {
        proof {
            lemma_view_bindings_index(self.values@);
            assert(view_bindings(self.values@).subrange(0, self.values@.len() as int)
                =~= view_bindings(self.values@));
        }
        let mut k: usize = self.values.len();
        while k > 0
            invariant
                0 <= k <= self.values.len(),
                view_bindings(self.values@).len() == self.values@.len(),
                forall|i: int| 0 <= i < self.values@.len() ==> view_bindings(self.values@)[i] == ((
                #[trigger] self.values@[i]).0@, view_data(self.values@[i].1)),
                scope_find(self@, name@) == scope_find(
                    view_bindings(self.values@).subrange(0, k as int),
                    name@,
                ),
            decreases k,
        {
            let ghost pre = view_bindings(self.values@).subrange(0, k as int);
            proof {
                assert(pre.last() == view_bindings(self.values@)[k - 1]);
                assert(pre.drop_last() =~= view_bindings(self.values@).subrange(0, k - 1));
            }
            k = k - 1;
            let c = crate::num::bytes_cmp(&self.values[k].0, name);
            proof {
                crate::num::lemma_bytes_cmp_eq(self.values@[k as int].0@, name@);
            }
            if matches!(c, crate::num::Cmp::Eq) {
                return Some(clone_data(&self.values[k].1));
            }
        }
        proof {
            assert(view_bindings(self.values@).subrange(0, 0) =~= Seq::<(Seq<u8>, DataV)>::empty());
        }
        None
    }
}

/// Mathematical view of the parser's whole resolution state.
pub struct ContextV {
    /// The scope stack, innermost scope last.
    pub scopes: Seq<Seq<(Seq<u8>, DataV)>>,
    /// How deeply nested the value being parsed is.
    pub depth: int,
}

/// The parser's resolution state: a stack of scopes and a nesting depth.
#[derive(Debug)]
pub struct Context {
    pub scopes: Vec<Scope>,
    pub depth: usize,
}

/// View of a scope stack.
pub open spec fn view_scopes(s: Seq<Scope>) -> Seq<Seq<(Seq<u8>, DataV)>>
    decreases s,
{
    if s.len() == 0 {
        Seq::empty()
    } else {
        view_scopes(s.drop_last()).push(s.last()@)
    }
}

/// `view_scopes` gives one viewed scope per scope.
pub proof fn lemma_view_scopes_index(s: Seq<Scope>)
    ensures
        view_scopes(s).len() == s.len(),
        forall|i: int| 0 <= i < s.len() ==> view_scopes(s)[i] == (#[trigger] s[i])@,
    decreases s,
{
    if s.len() > 0 {
        lemma_view_scopes_index(s.drop_last());
        assert forall|i: int| 0 <= i < s.len() implies view_scopes(s)[i] == (#[trigger] s[i])@ by {
            if i < s.len() - 1 {
                assert(s.drop_last()[i] == s[i]);
                assert(view_scopes(s)[i] == view_scopes(s.drop_last())[i]);
            } else {
                assert(s[i] == s.last());
            }
        }
    }
}

impl View for Context {
    type V = ContextV;

    open spec fn view(&self) -> ContextV {
        ContextV { scopes: view_scopes(self.scopes@), depth: self.depth as int }
    }
}

/// The binding a name resolves to: scopes are searched from the innermost
/// outwards and the first hit wins.
pub open spec fn ctx_find(scopes: Seq<Seq<(Seq<u8>, DataV)>>, name: Seq<u8>) -> Option<DataV>
    decreases scopes,
{
    if scopes.len() == 0 {
        None
    } else {
        match scope_find(scopes.last(), name) {
            Some(d) => Some(d),
            None => ctx_find(scopes.drop_last(), name),
        }
    }
}

/// How many scopes the parser will ever hold open at once.
pub const DEPTH_LIMIT: usize = 128;

impl Context {
    /// A fresh state: no scopes, no nesting.
    pub fn new() -> (r: Self)
        ensures
            r@.scopes == Seq::<Seq<(Seq<u8>, DataV)>>::empty(),
            r@.depth == 0,
    {
        let r = Context { scopes: Vec::new(), depth: 0 };
        proof {
            assert(r@.scopes =~= Seq::<Seq<(Seq<u8>, DataV)>>::empty());
        }
        r
    }

    /// Steps one level into a nested value.  Refuses to go past the
    /// nesting limit.
    pub fn inc_depth(&mut self) -> (r: bool)
        ensures
            r == (old(self)@.depth < DEPTH_LIMIT as int),
            r ==> final(self)@ == (ContextV { depth: old(self)@.depth + 1, ..old(self)@ }),
            !r ==> final(self)@ == old(self)@,
    {
        if self.depth < DEPTH_LIMIT {
            self.depth = self.depth + 1;
            true
        } else {
            false
        }
    }

    /// Steps back out of a nested value.
    pub fn dec_depth(&mut self)
        ensures
            final(self)@ == (ContextV {
                depth: if old(self)@.depth > 0 {
                    old(self)@.depth - 1
                } else {
                    0
                },
                ..old(self)@
            }),
    {
        if self.depth > 0 {
            self.depth = self.depth - 1;
        }
    }

    /// Opens a fresh innermost scope.
    pub fn push_scope(&mut self)
        ensures
            final(self)@.scopes == old(self)@.scopes.push(Seq::<(Seq<u8>, DataV)>::empty()),
            final(self)@.depth == old(self)@.depth,
    {
        proof {
            lemma_view_scopes_index(self.scopes@);
        }
        let s = Scope::new();
        proof {
            assert(view_scopes(self.scopes@.push(s)).drop_last() =~= view_scopes(
                self.scopes@.push(s).drop_last(),
            ));
            assert(self.scopes@.push(s).drop_last() =~= self.scopes@);
        }
        self.scopes.push(s);
    }

    /// Closes the innermost scope; closing with none open does nothing.
    pub fn pop_scope(&mut self)
        ensures
            final(self)@.scopes == if old(self)@.scopes.len() > 0 {
                old(self)@.scopes.drop_last()
            } else {
                old(self)@.scopes
            },
            final(self)@.depth == old(self)@.depth,
    {
        proof {
            lemma_view_scopes_index(self.scopes@);
        }
        let ghost before = self.scopes@;
        let _popped = self.scopes.pop();
        proof {
            if before.len() > 0 {
                assert(self.scopes@ =~= before.drop_last());
                lemma_view_scopes_index(self.scopes@);
                assert forall|i: int| 0 <= i < self.scopes@.len() implies view_scopes(
                    self.scopes@,
                )[i] == view_scopes(before).drop_last()[i] by {
                    assert(view_scopes(self.scopes@)[i] == self.scopes@[i]@);
                    assert(view_scopes(before)[i] == before[i]@);
                    assert(before[i] == self.scopes@[i]);
                }
                assert(view_scopes(self.scopes@) =~= view_scopes(before).drop_last());
            }
        }
    }

    /// Declares `name` in the innermost scope; with no scope open the
    /// declaration is lost.
    pub fn put_data(&mut self, name: &Vec<u8>, value: Data)
        ensures
            final(self)@.depth == old(self)@.depth,
            final(self)@.scopes == if old(self)@.scopes.len() > 0 {
                old(self)@.scopes.update(
                    old(self)@.scopes.len() - 1,
                    old(self)@.scopes.last().push((name@, view_data(value))),
                )
            } else {
                old(self)@.scopes
            },
    {
        proof {
            lemma_view_scopes_index(self.scopes@);
        }
        let n = self.scopes.len();
        if n > 0 {
            let ghost before = self.scopes@;
            let ghost entry_v = (name@, view_data(value));
            let nm = crate::ast::clone_bytes(name);
            let target = &mut self.scopes[n - 1];
            let ghost scope_before = target.values@;
            target.values.push((nm, value));
            proof {
                assert(target.values@ =~= scope_before.push((nm, value)));
                assert(scope_before.push((nm, value)).drop_last() =~= scope_before);
                assert(view_bindings(scope_before.push((nm, value))).drop_last()
                    =~= view_bindings(scope_before));
                assert(self.scopes@[n - 1]@ =~= before[n - 1]@.push(entry_v));
                lemma_view_scopes_index(self.scopes@);
                lemma_view_scopes_index(before);
                assert forall|i: int| 0 <= i < self.scopes@.len() implies view_scopes(
                    self.scopes@,
                )[i] == view_scopes(before).update(
                    before.len() - 1,
                    view_scopes(before).last().push(entry_v),
                )[i] by {
                    if i < n - 1 {
                        assert(self.scopes@[i] == before[i]);
                    }
                }
                assert(view_scopes(self.scopes@) =~= view_scopes(before).update(
                    before.len() - 1,
                    view_scopes(before).last().push(entry_v),
                ));
            }
        }
    }

    /// The binding `name` resolves to, searching scopes from the
    /// innermost outwards.
    pub fn get_data(&self, name: &Vec<u8>) -> (r: Option<Data>)
        ensures
            match r {
                Some(d) => ctx_find(self@.scopes, name@) == Some(view_data(d)),
                None => ctx_find(self@.scopes, name@) is None,
            },
    {
        proof {
            lemma_view_scopes_index(self.scopes@);
            assert(view_scopes(self.scopes@).subrange(0, self.scopes@.len() as int)
                =~= view_scopes(self.scopes@));
        }
        let mut k: usize = self.scopes.len();
        while k > 0
            invariant
                0 <= k <= self.scopes.len(),
                view_scopes(self.scopes@).len() == self.scopes@.len(),
                forall|i: int| 0 <= i < self.scopes@.len() ==> view_scopes(self.scopes@)[i] == (
                #[trigger] self.scopes@[i])@,
                ctx_find(self@.scopes, name@) == ctx_find(
                    view_scopes(self.scopes@).subrange(0, k as int),
                    name@,
                ),
            decreases k,
        {
            let ghost pre = view_scopes(self.scopes@).subrange(0, k as int);
            proof {
                assert(pre.last() == view_scopes(self.scopes@)[k - 1]);
                assert(pre.drop_last() =~= view_scopes(self.scopes@).subrange(0, k - 1));
            }
            k = k - 1;
            let found = self.scopes[k].find_value(name);
            if found.is_some() {
                return found;
            }
        }
        proof {
            assert(view_scopes(self.scopes@).subrange(0, 0) =~= Seq::<
                Seq<(Seq<u8>, DataV)>,
            >::empty());
        }
        None
    }
}

/// Builds a fresh parser context.
pub fn new_context() -> (r: Context)
    ensures
        r@.scopes == Seq::<Seq<(Seq<u8>, DataV)>>::empty(),
        r@.depth == 0,
{
    Context::new()
}

/// A name with no binding anywhere resolves to nothing, and a name with a
/// binding somewhere resolves: resolution fails exactly on names absent
/// from every scope.
pub proof fn lemma_unbound_name_unresolved(scopes: Seq<Seq<(Seq<u8>, DataV)>>, name: Seq<u8>)
    ensures
        (ctx_find(scopes, name) is None) <==> (forall|k: int, j: int|
            0 <= k < scopes.len() && 0 <= j < scopes[k].len() ==> (#[trigger] scopes[k][j]).0
                != name),
    decreases scopes,
{
    if scopes.len() > 0 {
        lemma_unbound_name_unresolved(scopes.drop_last(), name);
        lemma_scope_find_none_iff_absent(scopes.last(), name);
        if ctx_find(scopes, name) is None {
            assert forall|k: int, j: int|
                0 <= k < scopes.len() && 0 <= j < scopes[k].len() implies (
            #[trigger] scopes[k][j]).0 != name by {
                if k < scopes.len() - 1 {
                    assert(scopes.drop_last()[k] == scopes[k]);
                } else {
                    assert(scopes[k] == scopes.last());
                }
            }
        } else {
            if scope_find(scopes.last(), name) is Some {
                let j = choose|j: int|
                    0 <= j < scopes.last().len() && (#[trigger] scopes.last()[j]).0 == name;
                assert(scopes[scopes.len() - 1][j].0 == name);
            } else {
                assert(ctx_find(scopes.drop_last(), name) is Some);
                let (k, j) = choose|k: int, j: int|
                    0 <= k < scopes.drop_last().len() && 0 <= j < scopes.drop_last()[k].len() && (
                    #[trigger] scopes.drop_last()[k][j]).0 == name;
                assert(scopes.drop_last()[k] == scopes[k]);
                assert(scopes[k][j].0 == name);
            }
        }
    }
}

/// A scope resolves nothing exactly when it holds no binding of the name.
pub proof fn lemma_scope_find_none_iff_absent(s: Seq<(Seq<u8>, DataV)>, name: Seq<u8>)
    ensures
        (scope_find(s, name) is None) <==> (forall|j: int|
            0 <= j < s.len() ==> (#[trigger] s[j]).0 != name),
    decreases s,
{
    if s.len() > 0 {
        lemma_scope_find_none_iff_absent(s.drop_last(), name);
        if scope_find(s, name) is None {
            assert forall|j: int| 0 <= j < s.len() implies (#[trigger] s[j]).0 != name by {
                if j < s.len() - 1 {
                    assert(s.drop_last()[j] == s[j]);
                } else {
                    assert(s[j] == s.last());
                }
            }
        } else {
            if s.last().0 == name {
                assert(s[s.len() - 1].0 == name);
            } else {
                let j = choose|j: int|
                    0 <= j < s.drop_last().len() && (#[trigger] s.drop_last()[j]).0 == name;
                assert(s.drop_last()[j] == s[j]);
            }
        }
    }
}

/// Declaring a name in the innermost scope makes it resolve to that
/// declaration.
pub proof fn lemma_declaration_resolves(
    scopes: Seq<Seq<(Seq<u8>, DataV)>>,
    name: Seq<u8>,
    d: DataV,
)
    requires
        scopes.len() > 0,
    ensures
        ctx_find(
            scopes.update(scopes.len() - 1, scopes.last().push((name, d))),
            name,
        ) == Some(d),
{
    let updated = scopes.update(scopes.len() - 1, scopes.last().push((name, d)));
    assert(updated.last() == scopes.last().push((name, d)));
    assert(updated.last().last() == (name, d));
}

/// Bindings declared in a scope are gone once that scope is closed: what
/// a name resolves to after push, any declarations into the top scope,
/// and pop, is what it resolved to before.
pub proof fn lemma_layer_isolation(
    scopes: Seq<Seq<(Seq<u8>, DataV)>>,
    top: Seq<(Seq<u8>, DataV)>,
    name: Seq<u8>,
)
    ensures
        ctx_find(scopes.push(top).drop_last(), name) == ctx_find(scopes, name),
{
    assert(scopes.push(top).drop_last() =~= scopes);
}

/// Horizontal spacing: a space or a tab.
pub open spec fn is_sp(c: u8) -> bool {
    c == ' ' as u8 || c == '\t' as u8
}

/// A decimal digit.
pub open spec fn is_digit(c: u8) -> bool {
    '0' as u8 <= c <= '9' as u8
}

/// An ASCII letter.
pub open spec fn is_letter(c: u8) -> bool {
    ('a' as u8 <= c <= 'z' as u8) || ('A' as u8 <= c <= 'Z' as u8)
}

/// A byte that may stand in an identifier after its first letter.
pub open spec fn is_ident_char(c: u8) -> bool {
    is_letter(c) || is_digit(c) || c == '_' as u8 || c == '-' as u8 || c == '.' as u8
}

/// The first position at or after `i` that does not hold horizontal
/// spacing.
pub open spec fn sp_end(s: Seq<u8>, i: int) -> int
    decreases s.len() - i,
{
    if 0 <= i < s.len() && is_sp(s[i]) {
        sp_end(s, i + 1)
    } else {
        i
    }
}

/// `sp_end` stays within the input and moves only forwards.
pub proof fn lemma_sp_end(s: Seq<u8>, i: int)
    requires
        0 <= i <= s.len(),
    ensures
        i <= sp_end(s, i) <= s.len(),
    decreases s.len() - i,
{
    if i < s.len() && is_sp(s[i]) {
        lemma_sp_end(s, i + 1);
    }
}

/// Skips horizontal spacing.
fn skip_spaces(s: &Vec<u8>, i: usize) -> (r: usize)
    requires
        i <= s@.len(),
    ensures
        r == sp_end(s@, i as int),
        i <= r <= s@.len(),
{
    let mut k: usize = i;
    while k < s.len() && (s[k] == ' ' as u8 || s[k] == '\t' as u8)
        invariant
            i <= k <= s@.len(),
            sp_end(s@, i as int) == sp_end(s@, k as int),
        decreases s@.len() - k,
    {
        k = k + 1;
    }
    k
}

/// A single end of line.
pub open spec fn spec_eol(s: Seq<u8>, i: int) -> Option<int> {
    if 0 <= i < s.len() && s[i] == '\n' as u8 {
        Some(i + 1)
    } else {
        None
    }
}

/// Reads a single end of line.
fn eat_eol(s: &Vec<u8>, i: usize) -> (r: Option<usize>)
    requires
        i <= s@.len(),
    ensures
        opt_pos_eq(r, spec_eol(s@, i as int)),
        r matches Some(j) ==> i < j <= s@.len(),
{
    if i < s.len() && s[i] == '\n' as u8 {
        Some(i + 1)
    } else {
        None
    }
}

/// One or more spaces or tabs.
pub open spec fn spec_strict_spacing(s: Seq<u8>, i: int) -> Option<int> {
    if sp_end(s, i) > i {
        Some(sp_end(s, i))
    } else {
        None
    }
}

/// Spacing between tokens of one directive: either plain spaces and tabs,
/// or a line continuation, i.e. an end of line followed by at least one
/// space of indentation.
pub open spec fn spec_spacing(s: Seq<u8>, i: int) -> Option<int> {
    let j = sp_end(s, i);
    match spec_eol(s, j) {
        Some(k) => {
            if sp_end(s, k) > k {
                Some(sp_end(s, k))
            } else if j > i {
                Some(j)
            } else {
                None
            }
        },
        None => if j > i {
            Some(j)
        } else {
            None
        },
    }
}

/// Like `spec_spacing`, but also content with consuming nothing.
pub open spec fn spec_opt_spacing(s: Seq<u8>, i: int) -> int {
    let j = sp_end(s, i);
    match spec_eol(s, j) {
        Some(k) => {
            if sp_end(s, k) > k {
                sp_end(s, k)
            } else {
                j
            }
        },
        None => j,
    }
}

/// Reads mandatory spacing.
pub fn eat_spacing(s: &Vec<u8>, i: usize) -> (r: Option<usize>)
    requires
        i <= s@.len(),
    ensures
        opt_pos_eq(r, spec_spacing(s@, i as int)),
        r matches Some(j) ==> i < j <= s@.len(),
{
    let j = skip_spaces(s, i);
    match eat_eol(s, j) {
        Some(k) => {
            let l = skip_spaces(s, k);
            if l > k {
                Some(l)
            } else if j > i {
                Some(j)
            } else {
                None
            }
        },
        None => if j > i {
            Some(j)
        } else {
            None
        },
    }
}

/// Reads optional spacing.
pub fn eat_opt_spacing(s: &Vec<u8>, i: usize) -> (r: usize)
    requires
        i <= s@.len(),
    ensures
        r == spec_opt_spacing(s@, i as int),
        i <= r <= s@.len(),
{
    let j = skip_spaces(s, i);
    match eat_eol(s, j) {
        Some(k) => {
            let l = skip_spaces(s, k);
            if l > k {
                l
            } else {
                j
            }
        },
        None => j,
    }
}

/// The rest of a line: optional spaces and tabs, then an end of line.
pub open spec fn spec_trailing_space(s: Seq<u8>, i: int) -> Option<int> {
    spec_eol(s, sp_end(s, i))
}

/// Reads to the end of the current line.
pub fn eat_trailing_space(s: &Vec<u8>, i: usize) -> (r: Option<usize>)
    requires
        i <= s@.len(),
    ensures
        opt_pos_eq(r, spec_trailing_space(s@, i as int)),
        r matches Some(j) ==> i < j <= s@.len(),
{
    let j = skip_spaces(s, i);
    eat_eol(s, j)
}

/// One or more line endings in a row, each possibly preceded by spacing.
pub open spec fn spec_line_ends(s: Seq<u8>, i: int) -> Option<int>
    decreases s.len() - i,
{
    if i < 0 || i > s.len() {
        None
    } else {
        match spec_trailing_space(s, i) {
            Some(j) => {
                if i < j <= s.len() {
                    match spec_line_ends(s, j) {
                        Some(e) => Some(e),
                        None => Some(j),
                    }
                } else {
                    None
                }
            },
            None => None,
        }
    }
}

/// A block separator: a line ending followed by one or more further line
/// endings — at least one blank line.
pub open spec fn spec_block_sep(s: Seq<u8>, i: int) -> Option<int> {
    match spec_trailing_space(s, i) {
        Some(j) => if i < j <= s.len() {
            spec_line_ends(s, j)
        } else {
            None
        },
        None => None,
    }
}

/// Reads one or more line endings.
fn eat_line_ends(s: &Vec<u8>, i: usize) -> (r: Option<usize>)
    requires
        i <= s@.len(),
    ensures
        opt_pos_eq(r, spec_line_ends(s@, i as int)),
        r matches Some(j) ==> i < j <= s@.len(),
    decreases s@.len() - i,
{
    match eat_trailing_space(s, i) {
        Some(j) => match eat_line_ends(s, j) {
            Some(e) => Some(e),
            None => Some(j),
        },
        None => None,
    }
}

/// Reads a block separator.
pub fn eat_block_sep(s: &Vec<u8>, i: usize) -> (r: Option<usize>)
    requires
        i <= s@.len(),
    ensures
        opt_pos_eq(r, spec_block_sep(s@, i as int)),
        r matches Some(j) ==> i < j <= s@.len(),
{
    match eat_trailing_space(s, i) {
        Some(j) => eat_line_ends(s, j),
        None => None,
    }
}

/// Whether the bytes at `i` are exactly `kw`.
pub open spec fn match_at(s: Seq<u8>, i: int, kw: Seq<u8>) -> bool {
    0 <= i && i + kw.len() <= s.len() && s.subrange(i, i + kw.len()) == kw
}

/// Reads the exact token `kw`.
pub fn eat_token(s: &Vec<u8>, i: usize, kw: &Vec<u8>) -> (r: Option<usize>)
    requires
        i <= s@.len(),
    ensures
        match r {
            Some(j) => match_at(s@, i as int, kw@) && j == i + kw@.len() && j <= s@.len(),
            None => !match_at(s@, i as int, kw@),
        },
{
    if s.len() - i < kw.len() {
        proof {
            assert(!match_at(s@, i as int, kw@));
        }
        return None;
    }
    let mut k: usize = 0;
    while k < kw.len()
        invariant
            0 <= k <= kw@.len(),
            i + kw@.len() <= s@.len(),
            s@.len() <= usize::MAX,
            forall|j: int| 0 <= j < k ==> s@[i + j] == kw@[j],
        decreases kw@.len() - k,
    {
        if s[i + k] != kw[k] {
            proof {
                assert(s@.subrange(i as int, i + kw@.len())[k as int] == s@[i + k]);
                assert(!match_at(s@, i as int, kw@));
            }
            return None;
        }
        k = k + 1;
    }
    proof {
        assert(s@.subrange(i as int, i + kw@.len()) =~= kw@);
    }
    Some(i + kw.len())
}

/// The token `map`.
pub open spec fn kw_map() -> Seq<u8> {
    seq!['m' as u8, 'a' as u8, 'p' as u8]
}

/// Builds the token `map`.
pub(crate) fn kw_map_vec() -> (r: Vec<u8>)
    ensures
        r@ == kw_map(),
{
    let mut v: Vec<u8> = Vec::new();
    v.push('m' as u8);
    v.push('a' as u8);
    v.push('p' as u8);
    proof {
        assert(v@ =~= kw_map());
    }
    v
}

/// The token `layer`.
pub open spec fn kw_layer() -> Seq<u8> {
    seq!['l' as u8, 'a' as u8, 'y' as u8, 'e' as u8, 'r' as u8]
}

/// Builds the token `layer`.
pub(crate) fn kw_layer_vec() -> (r: Vec<u8>)
    ensures
        r@ == kw_layer(),
{
    let mut v: Vec<u8> = Vec::new();
    v.push('l' as u8);
    v.push('a' as u8);
    v.push('y' as u8);
    v.push('e' as u8);
    v.push('r' as u8);
    proof {
        assert(v@ =~= kw_layer());
    }
    v
}

/// The token `source`.
pub open spec fn kw_source() -> Seq<u8> {
    seq!['s' as u8, 'o' as u8, 'u' as u8, 'r' as u8, 'c' as u8, 'e' as u8]
}

/// Builds the token `source`.
pub(crate) fn kw_source_vec() -> (r: Vec<u8>)
    ensures
        r@ == kw_source(),
{
    let mut v: Vec<u8> = Vec::new();
    v.push('s' as u8);
    v.push('o' as u8);
    v.push('u' as u8);
    v.push('r' as u8);
    v.push('c' as u8);
    v.push('e' as u8);
    proof {
        assert(v@ =~= kw_source());
    }
    v
}

/// The token `srid`.
pub open spec fn kw_srid() -> Seq<u8> {
    seq!['s' as u8, 'r' as u8, 'i' as u8, 'd' as u8]
}

/// Builds the token `srid`.
pub(crate) fn kw_srid_vec() -> (r: Vec<u8>)
    ensures
        r@ == kw_srid(),
{
    let mut v: Vec<u8> = Vec::new();
    v.push('s' as u8);
    v.push('r' as u8);
    v.push('i' as u8);
    v.push('d' as u8);
    proof {
        assert(v@ =~= kw_srid());
    }
    v
}

/// The token `extent`.
pub open spec fn kw_extent() -> Seq<u8> {
    seq!['e' as u8, 'x' as u8, 't' as u8, 'e' as u8, 'n' as u8, 't' as u8]
}

/// Builds the token `extent`.
pub(crate) fn kw_extent_vec() -> (r: Vec<u8>)
    ensures
        r@ == kw_extent(),
{
    let mut v: Vec<u8> = Vec::new();
    v.push('e' as u8);
    v.push('x' as u8);
    v.push('t' as u8);
    v.push('e' as u8);
    v.push('n' as u8);
    v.push('t' as u8);
    proof {
        assert(v@ =~= kw_extent());
    }
    v
}

/// The token `data`.
pub open spec fn kw_data() -> Seq<u8> {
    seq!['d' as u8, 'a' as u8, 't' as u8, 'a' as u8]
}

/// Builds the token `data`.
pub(crate) fn kw_data_vec() -> (r: Vec<u8>)
    ensures
        r@ == kw_data(),
{
    let mut v: Vec<u8> = Vec::new();
    v.push('d' as u8);
    v.push('a' as u8);
    v.push('t' as u8);
    v.push('a' as u8);
    proof {
        assert(v@ =~= kw_data());
    }
    v
}

/// The token `sym`.
pub open spec fn kw_sym() -> Seq<u8> {
    seq!['s' as u8, 'y' as u8, 'm' as u8]
}

/// Builds the token `sym`.
pub(crate) fn kw_sym_vec() -> (r: Vec<u8>)
    ensures
        r@ == kw_sym(),
{
    let mut v: Vec<u8> = Vec::new();
    v.push('s' as u8);
    v.push('y' as u8);
    v.push('m' as u8);
    proof {
        assert(v@ =~= kw_sym());
    }
    v
}

/// The token `select`.
pub open spec fn kw_select() -> Seq<u8> {
    seq!['s' as u8, 'e' as u8, 'l' as u8, 'e' as u8, 'c' as u8, 't' as u8]
}

/// Builds the token `select`.
pub(crate) fn kw_select_vec() -> (r: Vec<u8>)
    ensures
        r@ == kw_select(),
{
    let mut v: Vec<u8> = Vec::new();
    v.push('s' as u8);
    v.push('e' as u8);
    v.push('l' as u8);
    v.push('e' as u8);
    v.push('c' as u8);
    v.push('t' as u8);
    proof {
        assert(v@ =~= kw_select());
    }
    v
}

/// The token `draw`.
pub open spec fn kw_draw() -> Seq<u8> {
    seq!['d' as u8, 'r' as u8, 'a' as u8, 'w' as u8]
}

/// Builds the token `draw`.
pub(crate) fn kw_draw_vec() -> (r: Vec<u8>)
    ensures
        r@ == kw_draw(),
{
    let mut v: Vec<u8> = Vec::new();
    v.push('d' as u8);
    v.push('r' as u8);
    v.push('a' as u8);
    v.push('w' as u8);
    proof {
        assert(v@ =~= kw_draw());
    }
    v
}

/// The token `clear`.
pub open spec fn kw_clear() -> Seq<u8> {
    seq!['c' as u8, 'l' as u8, 'e' as u8, 'a' as u8, 'r' as u8]
}

/// Builds the token `clear`.
pub(crate) fn kw_clear_vec() -> (r: Vec<u8>)
    ensures
        r@ == kw_clear(),
{
    let mut v: Vec<u8> = Vec::new();
    v.push('c' as u8);
    v.push('l' as u8);
    v.push('e' as u8);
    v.push('a' as u8);
    v.push('r' as u8);
    proof {
        assert(v@ =~= kw_clear());
    }
    v
}

/// The token `circle`.
pub open spec fn kw_circle() -> Seq<u8> {
    seq!['c' as u8, 'i' as u8, 'r' as u8, 'c' as u8, 'l' as u8, 'e' as u8]
}

/// Builds the token `circle`.
pub(crate) fn kw_circle_vec() -> (r: Vec<u8>)
    ensures
        r@ == kw_circle(),
{
    let mut v: Vec<u8> = Vec::new();
    v.push('c' as u8);
    v.push('i' as u8);
    v.push('r' as u8);
    v.push('c' as u8);
    v.push('l' as u8);
    v.push('e' as u8);
    proof {
        assert(v@ =~= kw_circle());
    }
    v
}

/// The token `square`.
pub open spec fn kw_square() -> Seq<u8> {
    seq!['s' as u8, 'q' as u8, 'u' as u8, 'a' as u8, 'r' as u8, 'e' as u8]
}

/// Builds the token `square`.
pub(crate) fn kw_square_vec() -> (r: Vec<u8>)
    ensures
        r@ == kw_square(),
{
    let mut v: Vec<u8> = Vec::new();
    v.push('s' as u8);
    v.push('q' as u8);
    v.push('u' as u8);
    v.push('a' as u8);
    v.push('r' as u8);
    v.push('e' as u8);
    proof {
        assert(v@ =~= kw_square());
    }
    v
}

/// The token `fill`.
pub open spec fn kw_fill() -> Seq<u8> {
    seq!['f' as u8, 'i' as u8, 'l' as u8, 'l' as u8]
}

/// Builds the token `fill`.
pub(crate) fn kw_fill_vec() -> (r: Vec<u8>)
    ensures
        r@ == kw_fill(),
{
    let mut v: Vec<u8> = Vec::new();
    v.push('f' as u8);
    v.push('i' as u8);
    v.push('l' as u8);
    v.push('l' as u8);
    proof {
        assert(v@ =~= kw_fill());
    }
    v
}

/// The token `stroke`.
pub open spec fn kw_stroke() -> Seq<u8> {
    seq!['s' as u8, 't' as u8, 'r' as u8, 'o' as u8, 'k' as u8, 'e' as u8]
}

/// Builds the token `stroke`.
pub(crate) fn kw_stroke_vec() -> (r: Vec<u8>)
    ensures
        r@ == kw_stroke(),
{
    let mut v: Vec<u8> = Vec::new();
    v.push('s' as u8);
    v.push('t' as u8);
    v.push('r' as u8);
    v.push('o' as u8);
    v.push('k' as u8);
    v.push('e' as u8);
    proof {
        assert(v@ =~= kw_stroke());
    }
    v
}

/// The token `pattern`.
pub open spec fn kw_pattern() -> Seq<u8> {
    seq!['p' as u8, 'a' as u8, 't' as u8, 't' as u8, 'e' as u8, 'r' as u8, 'n' as u8]
}

/// Builds the token `pattern`.
pub(crate) fn kw_pattern_vec() -> (r: Vec<u8>)
    ensures
        r@ == kw_pattern(),
{
    let mut v: Vec<u8> = Vec::new();
    v.push('p' as u8);
    v.push('a' as u8);
    v.push('t' as u8);
    v.push('t' as u8);
    v.push('e' as u8);
    v.push('r' as u8);
    v.push('n' as u8);
    proof {
        assert(v@ =~= kw_pattern());
    }
    v
}

/// The token `label`.
pub open spec fn kw_label() -> Seq<u8> {
    seq!['l' as u8, 'a' as u8, 'b' as u8, 'e' as u8, 'l' as u8]
}

/// Builds the token `label`.
pub(crate) fn kw_label_vec() -> (r: Vec<u8>)
    ensures
        r@ == kw_label(),
{
    let mut v: Vec<u8> = Vec::new();
    v.push('l' as u8);
    v.push('a' as u8);
    v.push('b' as u8);
    v.push('e' as u8);
    v.push('l' as u8);
    proof {
        assert(v@ =~= kw_label());
    }
    v
}

/// The token `geojson`.
pub open spec fn kw_geojson() -> Seq<u8> {
    seq!['g' as u8, 'e' as u8, 'o' as u8, 'j' as u8, 's' as u8, 'o' as u8, 'n' as u8]
}

/// Builds the token `geojson`.
pub(crate) fn kw_geojson_vec() -> (r: Vec<u8>)
    ensures
        r@ == kw_geojson(),
{
    let mut v: Vec<u8> = Vec::new();
    v.push('g' as u8);
    v.push('e' as u8);
    v.push('o' as u8);
    v.push('j' as u8);
    v.push('s' as u8);
    v.push('o' as u8);
    v.push('n' as u8);
    proof {
        assert(v@ =~= kw_geojson());
    }
    v
}

/// The token `postgis`.
pub open spec fn kw_postgis() -> Seq<u8> {
    seq!['p' as u8, 'o' as u8, 's' as u8, 't' as u8, 'g' as u8, 'i' as u8, 's' as u8]
}

/// Builds the token `postgis`.
pub(crate) fn kw_postgis_vec() -> (r: Vec<u8>)
    ensures
        r@ == kw_postgis(),
{
    let mut v: Vec<u8> = Vec::new();
    v.push('p' as u8);
    v.push('o' as u8);
    v.push('s' as u8);
    v.push('t' as u8);
    v.push('g' as u8);
    v.push('i' as u8);
    v.push('s' as u8);
    proof {
        assert(v@ =~= kw_postgis());
    }
    v
}

/// The token `shapefile`.
pub open spec fn kw_shapefile() -> Seq<u8> {
    seq!['s' as u8, 'h' as u8, 'a' as u8, 'p' as u8, 'e' as u8, 'f' as u8, 'i' as u8, 'l' as u8, 'e' as u8]
}

/// Builds the token `shapefile`.
pub(crate) fn kw_shapefile_vec() -> (r: Vec<u8>)
    ensures
        r@ == kw_shapefile(),
{
    let mut v: Vec<u8> = Vec::new();
    v.push('s' as u8);
    v.push('h' as u8);
    v.push('a' as u8);
    v.push('p' as u8);
    v.push('e' as u8);
    v.push('f' as u8);
    v.push('i' as u8);
    v.push('l' as u8);
    v.push('e' as u8);
    proof {
        assert(v@ =~= kw_shapefile());
    }
    v
}

/// The token `string`.
pub open spec fn kw_string() -> Seq<u8> {
    seq!['s' as u8, 't' as u8, 'r' as u8, 'i' as u8, 'n' as u8, 'g' as u8]
}

/// Builds the token `string`.
pub(crate) fn kw_string_vec() -> (r: Vec<u8>)
    ensures
        r@ == kw_string(),
{
    let mut v: Vec<u8> = Vec::new();
    v.push('s' as u8);
    v.push('t' as u8);
    v.push('r' as u8);
    v.push('i' as u8);
    v.push('n' as u8);
    v.push('g' as u8);
    proof {
        assert(v@ =~= kw_string());
    }
    v
}

/// The token `number`.
pub open spec fn kw_number() -> Seq<u8> {
    seq!['n' as u8, 'u' as u8, 'm' as u8, 'b' as u8, 'e' as u8, 'r' as u8]
}

/// Builds the token `number`.
pub(crate) fn kw_number_vec() -> (r: Vec<u8>)
    ensures
        r@ == kw_number(),
{
    let mut v: Vec<u8> = Vec::new();
    v.push('n' as u8);
    v.push('u' as u8);
    v.push('m' as u8);
    v.push('b' as u8);
    v.push('e' as u8);
    v.push('r' as u8);
    proof {
        assert(v@ =~= kw_number());
    }
    v
}

/// The token `bool`.
pub open spec fn kw_bool() -> Seq<u8> {
    seq!['b' as u8, 'o' as u8, 'o' as u8, 'l' as u8]
}

/// Builds the token `bool`.
pub(crate) fn kw_bool_vec() -> (r: Vec<u8>)
    ensures
        r@ == kw_bool(),
{
    let mut v: Vec<u8> = Vec::new();
    v.push('b' as u8);
    v.push('o' as u8);
    v.push('o' as u8);
    v.push('l' as u8);
    proof {
        assert(v@ =~= kw_bool());
    }
    v
}

/// The token `true`.
pub open spec fn kw_true() -> Seq<u8> {
    seq!['t' as u8, 'r' as u8, 'u' as u8, 'e' as u8]
}

/// Builds the token `true`.
pub(crate) fn kw_true_vec() -> (r: Vec<u8>)
    ensures
        r@ == kw_true(),
{
    let mut v: Vec<u8> = Vec::new();
    v.push('t' as u8);
    v.push('r' as u8);
    v.push('u' as u8);
    v.push('e' as u8);
    proof {
        assert(v@ =~= kw_true());
    }
    v
}

/// The token `false`.
pub open spec fn kw_false() -> Seq<u8> {
    seq!['f' as u8, 'a' as u8, 'l' as u8, 's' as u8, 'e' as u8]
}

/// Builds the token `false`.
pub(crate) fn kw_false_vec() -> (r: Vec<u8>)
    ensures
        r@ == kw_false(),
{
    let mut v: Vec<u8> = Vec::new();
    v.push('f' as u8);
    v.push('a' as u8);
    v.push('l' as u8);
    v.push('s' as u8);
    v.push('e' as u8);
    proof {
        assert(v@ =~= kw_false());
    }
    v
}

/// The token `->`.
pub open spec fn kw_arrow() -> Seq<u8> {
    seq!['-' as u8, '>' as u8]
}

/// Builds the token `->`.
pub(crate) fn kw_arrow_vec() -> (r: Vec<u8>)
    ensures
        r@ == kw_arrow(),
{
    let mut v: Vec<u8> = Vec::new();
    v.push('-' as u8);
    v.push('>' as u8);
    proof {
        assert(v@ =~= kw_arrow());
    }
    v
}

/// The token `!=`.
pub open spec fn kw_noteq() -> Seq<u8> {
    seq!['!' as u8, '=' as u8]
}

/// Builds the token `!=`.
pub(crate) fn kw_noteq_vec() -> (r: Vec<u8>)
    ensures
        r@ == kw_noteq(),
{
    let mut v: Vec<u8> = Vec::new();
    v.push('!' as u8);
    v.push('=' as u8);
    proof {
        assert(v@ =~= kw_noteq());
    }
    v
}

/// The token `<=`.
pub open spec fn kw_lte() -> Seq<u8> {
    seq!['<' as u8, '=' as u8]
}

/// Builds the token `<=`.
pub(crate) fn kw_lte_vec() -> (r: Vec<u8>)
    ensures
        r@ == kw_lte(),
{
    let mut v: Vec<u8> = Vec::new();
    v.push('<' as u8);
    v.push('=' as u8);
    proof {
        assert(v@ =~= kw_lte());
    }
    v
}

/// The token `>=`.
pub open spec fn kw_gte() -> Seq<u8> {
    seq!['>' as u8, '=' as u8]
}

/// Builds the token `>=`.
pub(crate) fn kw_gte_vec() -> (r: Vec<u8>)
    ensures
        r@ == kw_gte(),
{
    let mut v: Vec<u8> = Vec::new();
    v.push('>' as u8);
    v.push('=' as u8);
    proof {
        assert(v@ =~= kw_gte());
    }
    v
}


/// The first position at or after `i` that does not hold an identifier
/// byte.
pub open spec fn ident_end(s: Seq<u8>, i: int) -> int
    decreases s.len() - i,
{
    if 0 <= i < s.len() && is_ident_char(s[i]) {
        ident_end(s, i + 1)
    } else {
        i
    }
}

/// `ident_end` stays within the input and moves only forwards.
pub proof fn lemma_ident_end(s: Seq<u8>, i: int)
    requires
        0 <= i <= s.len(),
    ensures
        i <= ident_end(s, i) <= s.len(),
    decreases s.len() - i,
{
    if i < s.len() && is_ident_char(s[i]) {
        lemma_ident_end(s, i + 1);
    }
}

/// The first position at or after `i` that does not hold a digit.
pub open spec fn digit_end(s: Seq<u8>, i: int) -> int
    decreases s.len() - i,
{
    if 0 <= i < s.len() && is_digit(s[i]) {
        digit_end(s, i + 1)
    } else {
        i
    }
}

/// `digit_end` stays within the input and moves only forwards.
pub proof fn lemma_digit_end(s: Seq<u8>, i: int)
    requires
        0 <= i <= s.len(),
    ensures
        i <= digit_end(s, i) <= s.len(),
        forall|j: int| i <= j < digit_end(s, i) ==> is_digit(s[j]),
    decreases s.len() - i,
{
    if i < s.len() && is_digit(s[i]) {
        lemma_digit_end(s, i + 1);
    }
}

/// An identifier: a letter, then any run of letters, digits, `_`, `-`
/// and `.`.
pub open spec fn spec_ident(s: Seq<u8>, i: int) -> Option<(Seq<u8>, int)> {
    if 0 <= i < s.len() && is_letter(s[i]) {
        Some((s.subrange(i, ident_end(s, i)), ident_end(s, i)))
    } else {
        None
    }
}

/// Copies the bytes between two positions.
fn copy_range(s: &Vec<u8>, a: usize, b: usize) -> (r: Vec<u8>)
    requires
        a <= b <= s@.len(),
    ensures
        r@ == s@.subrange(a as int, b as int),
{
    let mut v: Vec<u8> = Vec::new();
    let mut k: usize = a;
    while k < b
        invariant
            a <= k <= b <= s@.len(),
            v@ == s@.subrange(a as int, k as int),
        decreases b - k,
    {
        v.push(s[k]);
        proof {
            assert(s@.subrange(a as int, k as int + 1) =~= s@.subrange(a as int, k as int).push(
                s@[k as int],
            ));
        }
        k = k + 1;
    }
    v
}

/// Appends the bytes between two positions of `s` to `v`.
fn append_range(v: &mut Vec<u8>, s: &Vec<u8>, a: usize, b: usize)
    requires
        a <= b <= s@.len(),
    ensures
        final(v)@ == old(v)@ + s@.subrange(a as int, b as int),
{
    let mut k: usize = a;
    proof {
        assert(old(v)@ + s@.subrange(a as int, a as int) =~= old(v)@);
    }
    while k < b
        invariant
            a <= k <= b <= s@.len(),
            v@ == old(v)@ + s@.subrange(a as int, k as int),
        decreases b - k,
    {
        v.push(s[k]);
        proof {
            assert(old(v)@ + s@.subrange(a as int, k as int + 1) =~= (old(v)@ + s@.subrange(
                a as int,
                k as int,
            )).push(s@[k as int]));
        }
        k = k + 1;
    }
}

/// Reads an identifier.
pub fn eat_ident(s: &Vec<u8>, i: usize) -> (r: Option<(Vec<u8>, usize)>)
    requires
        i <= s@.len(),
    ensures
        match r {
            Some((id, j)) => spec_ident(s@, i as int) == Some((id@, j as int)) && i < j <= s@.len(),
            None => spec_ident(s@, i as int) is None,
        },
{
    if !(i < s.len() && (('a' as u8 <= s[i] && s[i] <= 'z' as u8) || ('A' as u8 <= s[i] && s[i]
        <= 'Z' as u8))) {
        return None;
    }
    let mut k: usize = i;
    while k < s.len() && (('a' as u8 <= s[k] && s[k] <= 'z' as u8) || ('A' as u8 <= s[k] && s[k]
        <= 'Z' as u8) || ('0' as u8 <= s[k] && s[k] <= '9' as u8) || s[k] == '_' as u8 || s[k]
        == '-' as u8 || s[k] == '.' as u8)
        invariant
            i <= k <= s@.len(),
            ident_end(s@, i as int) == ident_end(s@, k as int),
        decreases s@.len() - k,
    {
        k = k + 1;
    }
    Some((copy_range(s, i, k), k))
}

/// What an escape marker stands for inside a string literal.
pub open spec fn escape_of(c: u8) -> Option<u8> {
    if c == 92 {
        Some(92)
    } else if c == '/' as u8 {
        Some('/' as u8)
    } else if c == '"' as u8 {
        Some('"' as u8)
    } else if c == 'b' as u8 {
        Some(8)
    } else if c == 'f' as u8 {
        Some(12)
    } else if c == 'n' as u8 {
        Some(10)
    } else if c == 'r' as u8 {
        Some(13)
    } else if c == 't' as u8 {
        Some(9)
    } else {
        None
    }
}

/// Resolves one escape marker.
fn escape_exec(c: u8) -> (r: Option<u8>)
    ensures
        r == escape_of(c),
{
    if c == 92 {
        Some(92)
    } else if c == '/' as u8 {
        Some('/' as u8)
    } else if c == '"' as u8 {
        Some('"' as u8)
    } else if c == 'b' as u8 {
        Some(8)
    } else if c == 'f' as u8 {
        Some(12)
    } else if c == 'n' as u8 {
        Some(10)
    } else if c == 'r' as u8 {
        Some(13)
    } else if c == 't' as u8 {
        Some(9)
    } else {
        None
    }
}

/// The unescaped content of a string literal, read up to the closing
/// quote, which is left unconsumed.
pub open spec fn spec_string_chars(s: Seq<u8>, i: int) -> Option<(Seq<u8>, int)>
    decreases s.len() - i,
{
    if i < 0 || i >= s.len() {
        None
    } else if s[i] == '"' as u8 {
        Some((Seq::empty(), i))
    } else if s[i] == 92 {
        if i + 1 < s.len() {
            match escape_of(s[i + 1]) {
                Some(e) => match spec_string_chars(s, i + 2) {
                    Some((rest, j)) => Some((seq![e] + rest, j)),
                    None => None,
                },
                None => None,
            }
        } else {
            None
        }
    } else {
        match spec_string_chars(s, i + 1) {
            Some((rest, j)) => Some((seq![s[i]] + rest, j)),
            None => None,
        }
    }
}

/// A double-quoted string literal with escapes; yields its unescaped
/// content.
pub open spec fn spec_string(s: Seq<u8>, i: int) -> Option<(Seq<u8>, int)> {
    if 0 <= i < s.len() && s[i] == '"' as u8 {
        match spec_string_chars(s, i + 1) {
            Some((content, j)) => Some((content, j + 1)),
            None => None,
        }
    } else {
        None
    }
}

/// String content ends on a quote inside the input.
pub proof fn lemma_string_chars_end(s: Seq<u8>, i: int)
    ensures
        spec_string_chars(s, i) matches Some((c, j)) ==> 0 <= i <= j < s.len() && s[j]
            == '"' as u8,
    decreases s.len() - i,
{
    if 0 <= i < s.len() && s[i] != '"' as u8 {
        if s[i] == 92 {
            if i + 1 < s.len() {
                lemma_string_chars_end(s, i + 2);
            }
        } else {
            lemma_string_chars_end(s, i + 1);
        }
    }
}

/// Reads a string literal.
pub fn eat_string(s: &Vec<u8>, i: usize) -> (r: Option<(Vec<u8>, usize)>)
    requires
        i <= s@.len(),
    ensures
        match r {
            Some((v, j)) => spec_string(s@, i as int) == Some((v@, j as int)) && i < j
                <= s@.len(),
            None => spec_string(s@, i as int) is None,
        },
{
    if !(i < s.len() && s[i] == '"' as u8) {
        return None;
    }
    let mut acc: Vec<u8> = Vec::new();
    let mut cur: usize = i + 1;
    proof {
        assert(acc@ + Seq::<u8>::empty() =~= acc@);
    }
    loop
        invariant
            i + 1 <= cur <= s@.len(),
            s@.len() <= usize::MAX,
            s@[i as int] == '"' as u8,
            0 <= i < s@.len(),
            match spec_string_chars(s@, cur as int) {
                Some((c2, p)) => spec_string_chars(s@, i as int + 1) == Some((acc@ + c2, p)),
                None => spec_string_chars(s@, i as int + 1) is None,
            },
        decreases s@.len() - cur,
    {
        if cur >= s.len() {
            return None;
        }
        let c = s[cur];
        if c == '"' as u8 {
            proof {
                assert(acc@ + Seq::<u8>::empty() =~= acc@);
                lemma_string_chars_end(s@, i as int + 1);
            }
            return Some((acc, cur + 1));
        }
        if c == 92 {
            if cur + 1 >= s.len() {
                return None;
            }
            let e = escape_exec(s[cur + 1]);
            match e {
                Some(e) => {
                    proof {
                        let sc = spec_string_chars(s@, cur as int + 2);
                        match sc {
                            Option::Some((r2, _p2)) => {
                                assert(acc@ + (seq![e] + r2) =~= acc@.push(e) + r2);
                            },
                            Option::None => {},
                        }
                    }
                    acc.push(e);
                    cur = cur + 2;
                },
                None => {
                    return None;
                },
            }
        } else {
            proof {
                let sc = spec_string_chars(s@, cur as int + 1);
                match sc {
                    Option::Some((r2, _p2)) => {
                        assert(acc@ + (seq![c] + r2) =~= acc@.push(c) + r2);
                    },
                    Option::None => {},
                }
            }
            acc.push(c);
            cur = cur + 1;
        }
    }
}

/// The numeric value of a digit string, most significant digit first.
pub open spec fn digits_value(d: Seq<u8>) -> int
    decreases d.len(),
{
    if d.len() == 0 {
        0
    } else {
        digits_value(d.drop_last()) * 10 + (d.last() as int - 48)
    }
}

/// Whether every byte is a decimal digit.
pub open spec fn all_digits(d: Seq<u8>) -> bool {
    forall|j: int| 0 <= j < d.len() ==> is_digit(#[trigger] d[j])
}

/// Ten to the power `n`.
pub open spec fn pow10(n: nat) -> int
    decreases n,
{
    if n == 0 {
        1
    } else {
        10 * pow10((n - 1) as nat)
    }
}

/// A digit string's value is bounded by ten to its length.
pub proof fn lemma_digits_value_bound(d: Seq<u8>)
    requires
        all_digits(d),
    ensures
        0 <= digits_value(d),
        pow10(d.len() as nat) > digits_value(d),
    decreases d.len(),
{
    if d.len() > 0 {
        assert(all_digits(d.drop_last())) by {
            assert(forall|j: int|
                0 <= j < d.len() - 1 ==> #[trigger] d.drop_last()[j] == d[j]);
        }
        lemma_digits_value_bound(d.drop_last());
        assert(is_digit(d.last()));
    }
}

/// The first position at or after `i` that does not hold a zero digit.
pub open spec fn zeros_end(d: Seq<u8>, i: int) -> int
    decreases d.len() - i,
{
    if 0 <= i < d.len() && d[i] == 48 {
        zeros_end(d, i + 1)
    } else {
        i
    }
}

/// `zeros_end` stays within the input and moves only forwards.
pub proof fn lemma_zeros_end(d: Seq<u8>, i: int)
    requires
        0 <= i <= d.len(),
    ensures
        i <= zeros_end(d, i) <= d.len(),
    decreases d.len() - i,
{
    if i < d.len() && d[i] == 48 {
        lemma_zeros_end(d, i + 1);
    }
}

/// The digit string without its leading zeros.
pub open spec fn trimmed(d: Seq<u8>) -> Seq<u8> {
    d.subrange(zeros_end(d, 0), d.len() as int)
}

/// The value of a digit string, where it has at most nineteen
/// significant digits; longer strings are out of range.
pub open spec fn seq_num_value(d: Seq<u8>) -> Option<int> {
    if trimmed(d).len() <= 19 {
        Some(digits_value(trimmed(d)))
    } else {
        None
    }
}

/// Skips leading zero digits.
fn skip_zeros(d: &Vec<u8>, i: usize) -> (r: usize)
    requires
        i <= d@.len(),
    ensures
        r == zeros_end(d@, i as int),
        i <= r <= d@.len(),
{
    let mut k: usize = i;
    while k < d.len() && d[k] == 48
        invariant
            i <= k <= d@.len(),
            zeros_end(d@, i as int) == zeros_end(d@, k as int),
        decreases d@.len() - k,
    {
        k = k + 1;
    }
    k
}

/// The value of the digits between two positions, at most nineteen of
/// them.
fn range_value(d: &Vec<u8>, a: usize, b: usize) -> (r: u64)
    requires
        a <= b <= d@.len(),
        b - a <= 19,
        all_digits(d@.subrange(a as int, b as int)),
    ensures
        r as int == digits_value(d@.subrange(a as int, b as int)),
{
    let mut acc: u64 = 0;
    let mut k: usize = a;
    proof {
        assert(d@.subrange(a as int, a as int) =~= Seq::<u8>::empty());
        reveal_with_fuel(pow10, 20);
    }
    while k < b
        invariant
            a <= k <= b <= d@.len(),
            b - a <= 19,
            all_digits(d@.subrange(a as int, b as int)),
            acc as int == digits_value(d@.subrange(a as int, k as int)),
            pow10((k - a) as nat) > acc as int,
        decreases b - k,
    {
        let ghost pre = d@.subrange(a as int, k as int);
        proof {
            assert(d@.subrange(a as int, b as int)[k - a] == d@[k as int]);
            assert(is_digit(d@[k as int]));
            assert(d@.subrange(a as int, k as int + 1).drop_last() =~= pre);
            assert(d@.subrange(a as int, k as int + 1).last() == d@[k as int]);
            assert(pow10(((k + 1) - a) as nat) == 10 * pow10((k - a) as nat));
            assert(pow10((k - a) as nat) <= pow10(18)) by {
                lemma_pow10_le((k - a) as nat, 18);
            }
            assert(pow10(19) == 10_000_000_000_000_000_000) by {
                reveal_with_fuel(pow10, 20);
            }
            assert(pow10(19) == 10 * pow10(18));
        }
        acc = acc * 10 + ((d[k] - 48) as u64);
        k = k + 1;
    }
    acc
}

/// `pow10` grows with its argument.
pub proof fn lemma_pow10_le(a: nat, b: nat)
    requires
        a <= b,
    ensures
        pow10(a) <= pow10(b),
        pow10(a) >= 1,
    decreases b,
{
    if b > 0 {
        if a == b {
            lemma_pow10_le((b - 1) as nat, (b - 1) as nat);
        } else {
            lemma_pow10_le(a, (b - 1) as nat);
        }
    }
}


/// A string of `n` zero digits.
pub open spec fn zero_seq(n: nat) -> Seq<u8> {
    Seq::new(n, |i: int| 48u8)
}

/// The signed exponent named in a numeric literal; an absent exponent is
/// zero, one with more than nineteen significant digits is out of range.
pub open spec fn exp_value(exp_neg: bool, expd: Seq<u8>) -> Option<int> {
    if expd.len() == 0 {
        Some(0)
    } else {
        match seq_num_value(expd) {
            Some(ev) => Some(
                if exp_neg {
                    -ev
                } else {
                    ev
                },
            ),
            None => None,
        }
    }
}

/// The digits of a fixed-point value in millionths, read off the
/// mantissa digits and the decimal scale: scaling up appends zeros,
/// scaling down drops digits from the right, truncating towards zero.
/// More than nineteen digits is out of range.
pub open spec fn mantissa_digits(intd: Seq<u8>, fracd: Seq<u8>, e: int) -> Option<Seq<u8>> {
    let m = trimmed(intd + fracd);
    let scale = e - fracd.len() + 6;
    if m.len() == 0 {
        Some(Seq::empty())
    } else if scale >= 0 {
        if m.len() + scale <= 19 {
            Some(m + zero_seq(scale as nat))
        } else {
            None
        }
    } else if m.len() + scale <= 0 {
        Some(Seq::empty())
    } else if m.len() + scale <= 19 {
        Some(m.subrange(0, m.len() + scale))
    } else {
        None
    }
}

/// A numeric literal's fixed-point value, where it fits the millionth
/// scale; the sign is applied last.
pub open spec fn make_float(
    neg: bool,
    intd: Seq<u8>,
    fracd: Seq<u8>,
    exp_neg: bool,
    expd: Seq<u8>,
) -> Option<Num> {
    match exp_value(exp_neg, expd) {
        None => None,
        Some(e) => match mantissa_digits(intd, fracd, e) {
            None => None,
            Some(eff) => {
                let v = digits_value(eff);
                if !neg && v <= i64::MAX as int {
                    Some(Num::Float(v as i64))
                } else if neg && v <= 9223372036854775808 {
                    Some(Num::Float((-v) as i64))
                } else {
                    None
                }
            },
        },
    }
}

/// The number a numeric literal denotes: an integer where the text has
/// no fraction and no exponent and the value fits a signed 64-bit
/// integer, else a fixed-point value in millionths.  A value out of
/// range for both is refused.
pub open spec fn make_number(
    neg: bool,
    intd: Seq<u8>,
    fracd: Seq<u8>,
    exp_neg: bool,
    expd: Seq<u8>,
) -> Option<Num> {
    if fracd.len() == 0 && expd.len() == 0 {
        match seq_num_value(intd) {
            Some(v) => if !neg && v <= i64::MAX as int {
                Some(Num::Integer(v as i64))
            } else if neg && v <= 9223372036854775808 {
                Some(Num::Integer((-v) as i64))
            } else {
                make_float(neg, intd, fracd, exp_neg, expd)
            },
            None => make_float(neg, intd, fracd, exp_neg, expd),
        }
    } else {
        make_float(neg, intd, fracd, exp_neg, expd)
    }
}

/// Negates a magnitude no greater than two to the sixty-third.
fn neg_u64_to_i64(v: u64) -> (r: i64)
    requires
        v <= 9223372036854775808u64,
    ensures
        r as int == -(v as int),
{
    if v == 9223372036854775808u64 {
        i64::MIN
    } else {
        0 - (v as i64)
    }
}

/// All bytes of a concatenation of digit strings are digits.
proof fn lemma_all_digits_concat(a: Seq<u8>, b: Seq<u8>)
    requires
        all_digits(a),
        all_digits(b),
    ensures
        all_digits(a + b),
{
    assert forall|j: int| 0 <= j < (a + b).len() implies is_digit(#[trigger] (a + b)[j]) by {
        if j < a.len() {
            assert((a + b)[j] == a[j]);
        } else {
            assert((a + b)[j] == b[j - a.len()]);
        }
    }
}

/// A subrange of a digit string is a digit string.
proof fn lemma_all_digits_subrange(d: Seq<u8>, a: int, b: int)
    requires
        all_digits(d),
        0 <= a <= b <= d.len(),
    ensures
        all_digits(d.subrange(a, b)),
{
    assert forall|j: int| 0 <= j < b - a implies is_digit(#[trigger] d.subrange(a, b)[j]) by {
        assert(d.subrange(a, b)[j] == d[a + j]);
    }
}

/// Builds the fixed-point interpretation of a numeric literal.
fn make_float_exec(
    neg: bool,
    intd: &Vec<u8>,
    fracd: &Vec<u8>,
    exp_neg: bool,
    expd: &Vec<u8>,
) -> (r: Option<Num>)
    requires
        all_digits(intd@),
        all_digits(fracd@),
        all_digits(expd@),
    ensures
        r == make_float(neg, intd@, fracd@, exp_neg, expd@),
{
    let e: i128;
    if expd.len() == 0 {
        e = 0;
    } else {
        let z = skip_zeros(expd, 0);
        proof {
            lemma_all_digits_subrange(expd@, z as int, expd@.len() as int);
        }
        if expd.len() - z <= 19 {
            let ev = range_value(expd, z, expd.len());
            e = if exp_neg {
                0 - (ev as i128)
            } else {
                ev as i128
            };
        } else {
            return None;
        }
    }
    let mut md = copy_range(intd, 0, intd.len());
    proof {
        assert(md@ =~= intd@);
    }
    append_range(&mut md, fracd, 0, fracd.len());
    proof {
        assert(fracd@.subrange(0, fracd@.len() as int) =~= fracd@);
        assert(intd@.subrange(0, intd@.len() as int) =~= intd@);
        assert(md@ =~= intd@ + fracd@);
        lemma_all_digits_concat(intd@, fracd@);
    }
    let z = skip_zeros(&md, 0);
    let ghost m = trimmed(intd@ + fracd@);
    proof {
        assert(m =~= md@.subrange(z as int, md@.len() as int));
        lemma_all_digits_subrange(md@, z as int, md@.len() as int);
    }
    let mlen = md.len() - z;
    let scale: i128 = e - (fracd.len() as i128) + 6;
    if mlen == 0 {
        proof {
            assert(mantissa_digits(intd@, fracd@, e as int) == Some(Seq::<u8>::empty()));
        }
        return Some(Num::Float(0));
    }
    if scale >= 0 {
        if (mlen as i128) + scale <= 19 {
            let sc = scale as usize;
            let mut eff = copy_range(&md, z, md.len());
            let mut k: usize = 0;
            proof {
                assert(eff@ =~= m + zero_seq(0));
            }
            while k < sc
                invariant
                    0 <= k <= sc,
                    eff@ == m + zero_seq(k as nat),
                decreases sc - k,
            {
                proof {
                    assert(zero_seq((k + 1) as nat) =~= zero_seq(k as nat).push(48u8));
                    assert(m + zero_seq((k + 1) as nat) =~= (m + zero_seq(k as nat)).push(48u8));
                }
                eff.push(48);
                k = k + 1;
            }
            proof {
                assert(all_digits(zero_seq(sc as nat)));
                lemma_all_digits_concat(m, zero_seq(sc as nat));
            }
            let v = range_value(&eff, 0, eff.len());
            proof {
                assert(eff@.subrange(0, eff@.len() as int) =~= eff@);
            }
            if !neg && v <= 9223372036854775807u64 {
                Some(Num::Float(v as i64))
            } else if neg && v <= 9223372036854775808u64 {
                Some(Num::Float(neg_u64_to_i64(v)))
            } else {
                None
            }
        } else {
            None
        }
    } else {
        if (mlen as i128) + scale <= 0 {
            proof {
                assert(mantissa_digits(intd@, fracd@, e as int) == Some(Seq::<u8>::empty()));
            }
            return Some(Num::Float(0));
        }
        if (mlen as i128) + scale <= 19 {
            let keep = ((mlen as i128) + scale) as usize;
            proof {
                assert(m.subrange(0, keep as int) =~= md@.subrange(z as int, (z + keep) as int));
                lemma_all_digits_subrange(md@, z as int, (z + keep) as int);
            }
            let v = range_value(&md, z, z + keep);
            if !neg && v <= 9223372036854775807u64 {
                Some(Num::Float(v as i64))
            } else if neg && v <= 9223372036854775808u64 {
                Some(Num::Float(neg_u64_to_i64(v)))
            } else {
                None
            }
        } else {
            None
        }
    }
}

/// Builds the number a numeric literal denotes.
fn make_number_exec(
    neg: bool,
    intd: &Vec<u8>,
    fracd: &Vec<u8>,
    exp_neg: bool,
    expd: &Vec<u8>,
) -> (r: Option<Num>)
    requires
        all_digits(intd@),
        all_digits(fracd@),
        all_digits(expd@),
    ensures
        r == make_number(neg, intd@, fracd@, exp_neg, expd@),
{
    if fracd.len() == 0 && expd.len() == 0 {
        let z = skip_zeros(intd, 0);
        proof {
            lemma_all_digits_subrange(intd@, z as int, intd@.len() as int);
        }
        if intd.len() - z <= 19 {
            let v = range_value(intd, z, intd.len());
            if !neg && v <= 9223372036854775807u64 {
                return Some(Num::Integer(v as i64));
            }
            if neg && v <= 9223372036854775808u64 {
                return Some(Num::Integer(neg_u64_to_i64(v)));
            }
            make_float_exec(neg, intd, fracd, exp_neg, expd)
        } else {
            make_float_exec(neg, intd, fracd, exp_neg, expd)
        }
    } else {
        make_float_exec(neg, intd, fracd, exp_neg, expd)
    }
}


/// A numeric literal: an optional minus sign, an integer part that is a
/// single zero or starts with a nonzero digit, an optional fraction and
/// an optional exponent.  An exponent marker not followed by digits is
/// left unconsumed, as is everything after the number.
pub open spec fn spec_number(s: Seq<u8>, i: int) -> Option<(Num, int)> {
    if i < 0 || i >= s.len() {
        None
    } else {
        let neg = s[i] == '-' as u8;
        let i1 = if neg {
            i + 1
        } else {
            i
        };
        if i1 >= s.len() || !is_digit(s[i1]) {
            None
        } else {
            let int_end = if s[i1] == 48 {
                i1 + 1
            } else {
                digit_end(s, i1)
            };
            let intd = s.subrange(i1, int_end);
            let has_frac = int_end + 1 < s.len() && s[int_end] == '.' as u8 && is_digit(
                s[int_end + 1],
            );
            let frac_end = if has_frac {
                digit_end(s, int_end + 1)
            } else {
                int_end
            };
            let fracd = if has_frac {
                s.subrange(int_end + 1, frac_end)
            } else {
                Seq::<u8>::empty()
            };
            let has_marker = frac_end < s.len() && (s[frac_end] == 'e' as u8 || s[frac_end]
                == 'E' as u8);
            let sp = frac_end + 1;
            let exp_neg = has_marker && sp < s.len() && s[sp] == '-' as u8;
            let ei = if has_marker && sp < s.len() && (s[sp] == '-' as u8 || s[sp]
                == '+' as u8) {
                sp + 1
            } else {
                sp
            };
            let has_exp = has_marker && ei < s.len() && is_digit(s[ei]);
            let end = if has_exp {
                digit_end(s, ei)
            } else {
                frac_end
            };
            let expd = if has_exp {
                s.subrange(ei, end)
            } else {
                Seq::<u8>::empty()
            };
            match make_number(neg, intd, fracd, has_exp && exp_neg, expd) {
                Some(n) => Some((n, end)),
                None => None,
            }
        }
    }
}

/// Whether an executable number result agrees with a specification one.
pub open spec fn opt_num_eq(r: Option<(Num, usize)>, v: Option<(Num, int)>) -> bool {
    match (r, v) {
        (Some((n1, j1)), Some((n2, j2))) => n1 == n2 && j1 as int == j2,
        (None, None) => true,
        _ => false,
    }
}

/// Skips decimal digits.
fn skip_digits(s: &Vec<u8>, i: usize) -> (r: usize)
    requires
        i <= s@.len(),
    ensures
        r == digit_end(s@, i as int),
        i <= r <= s@.len(),
        forall|j: int| i <= j < r ==> is_digit(s@[j]),
        i < s@.len() && is_digit(s@[i as int]) ==> r > i,
    {
    proof {
        lemma_digit_end(s@, i as int);
        if i < s.len() && is_digit(s@[i as int]) {
            lemma_digit_end(s@, i as int + 1);
        }
    }
    let mut k: usize = i;
    while k < s.len() && '0' as u8 <= s[k] && s[k] <= '9' as u8
        invariant
            i <= k <= s@.len(),
            digit_end(s@, i as int) == digit_end(s@, k as int),
            forall|j: int| i <= j < k ==> is_digit(s@[j]),
        decreases s@.len() - k,
    {
        k = k + 1;
    }
    k
}

/// Reads a numeric literal.
#[verifier::rlimit(100)]
#[verifier::spinoff_prover]
pub fn eat_number(s: &Vec<u8>, i: usize) -> (r: Option<(Num, usize)>)
    requires
        i <= s@.len(),
    ensures
        opt_num_eq(r, spec_number(s@, i as int)),
        r matches Some((n, j)) ==> i < j <= s@.len(),
{
    if i >= s.len() {
        return None;
    }
    let neg = s[i] == '-' as u8;
    let i1 = if neg {
        i + 1
    } else {
        i
    };
    if i1 >= s.len() || !('0' as u8 <= s[i1] && s[i1] <= '9' as u8) {
        return None;
    }
    let int_end = if s[i1] == 48 {
        i1 + 1
    } else {
        skip_digits(s, i1)
    };
    proof {
        lemma_digit_end(s@, i1 as int);
        if s@[i1 as int] == 48 {
            assert(all_digits(s@.subrange(i1 as int, i1 as int + 1)));
        } else {
            lemma_all_digits_subrange_scan(s@, i1 as int, int_end as int);
        }
    }
    let intd = copy_range(s, i1, int_end);
    let has_frac = int_end < s.len() && s[int_end] == '.' as u8 && int_end + 1 < s.len()
        && '0' as u8 <= s[int_end + 1] && s[int_end + 1] <= '9' as u8;
    let frac_end = if has_frac {
        skip_digits(s, int_end + 1)
    } else {
        int_end
    };
    let fracd = if has_frac {
        proof {
            lemma_all_digits_subrange_scan(s@, int_end as int + 1, frac_end as int);
        }
        copy_range(s, int_end + 1, frac_end)
    } else {
        Vec::new()
    };
    proof {
        assert(fracd@ =~= if has_frac {
            s@.subrange(int_end as int + 1, frac_end as int)
        } else {
            Seq::<u8>::empty()
        });
    }
    let has_marker = frac_end < s.len() && (s[frac_end] == 'e' as u8 || s[frac_end]
        == 'E' as u8);
    let mut exp_neg = false;
    let mut has_exp = false;
    let mut end = frac_end;
    let mut expd: Vec<u8> = Vec::new();
    if has_marker {
        let sp = frac_end + 1;
        exp_neg = sp < s.len() && s[sp] == '-' as u8;
        let ei = if sp < s.len() && (s[sp] == '-' as u8 || s[sp] == '+' as u8) {
            sp + 1
        } else {
            sp
        };
        has_exp = ei < s.len() && '0' as u8 <= s[ei] && s[ei] <= '9' as u8;
        if has_exp {
            end = skip_digits(s, ei);
            proof {
                lemma_all_digits_subrange_scan(s@, ei as int, end as int);
            }
            expd = copy_range(s, ei, end);
        }
    }
    match make_number_exec(neg, &intd, &fracd, has_exp && exp_neg, &expd) {
        Some(n) => Some((n, end)),
        None => None,
    }
}

/// The digits a scan covered are digits.
proof fn lemma_all_digits_subrange_scan(s: Seq<u8>, a: int, b: int)
    requires
        0 <= a <= b <= s.len(),
        forall|j: int| a <= j < b ==> is_digit(s[j]),
    ensures
        all_digits(s.subrange(a, b)),
{
    assert forall|j: int| 0 <= j < b - a implies is_digit(#[trigger] s.subrange(a, b)[j]) by {
        assert(s.subrange(a, b)[j] == s[a + j]);
    }
}

/// A plain signed integer: an optional minus sign and a digit run,
/// leading zeros allowed, that fits a signed 64-bit integer.
pub open spec fn spec_integer(s: Seq<u8>, i: int) -> Option<(i64, int)> {
    if i < 0 || i >= s.len() {
        None
    } else {
        let neg = s[i] == '-' as u8;
        let i1 = if neg {
            i + 1
        } else {
            i
        };
        if i1 >= s.len() || !is_digit(s[i1]) {
            None
        } else {
            let e = digit_end(s, i1);
            match seq_num_value(s.subrange(i1, e)) {
                Some(v) => if !neg && v <= i64::MAX as int {
                    Some((v as i64, e))
                } else if neg && v <= 9223372036854775808 {
                    Some(((-v) as i64, e))
                } else {
                    None
                },
                None => None,
            }
        }
    }
}

/// Whether an executable integer result agrees with a specification one.
pub open spec fn opt_int_eq(r: Option<(i64, usize)>, v: Option<(i64, int)>) -> bool {
    match (r, v) {
        (Some((n1, j1)), Some((n2, j2))) => n1 == n2 && j1 as int == j2,
        (None, None) => true,
        _ => false,
    }
}

/// Reads a plain signed integer.
pub fn eat_integer(s: &Vec<u8>, i: usize) -> (r: Option<(i64, usize)>)
    requires
        i <= s@.len(),
    ensures
        opt_int_eq(r, spec_integer(s@, i as int)),
        r matches Some((n, j)) ==> i < j <= s@.len(),
{
    if i >= s.len() {
        return None;
    }
    let neg = s[i] == '-' as u8;
    let i1 = if neg {
        i + 1
    } else {
        i
    };
    if i1 >= s.len() || !('0' as u8 <= s[i1] && s[i1] <= '9' as u8) {
        return None;
    }
    let e = skip_digits(s, i1);
    proof {
        lemma_all_digits_subrange_scan(s@, i1 as int, e as int);
    }
    let d = copy_range(s, i1, e);
    let z = skip_zeros(&d, 0);
    proof {
        lemma_all_digits_subrange(d@, z as int, d@.len() as int);
    }
    if d.len() - z <= 19 {
        let v = range_value(&d, z, d.len());
        if !neg && v <= 9223372036854775807u64 {
            Some((v as i64, e))
        } else if neg && v <= 9223372036854775808u64 {
            Some((neg_u64_to_i64(v), e))
        } else {
            None
        }
    } else {
        None
    }
}


/// A literal: a number, a boolean, or a double-quoted string, tried in
/// that order.
pub open spec fn spec_literal(s: Seq<u8>, i: int) -> Option<(LiteralV, int)> {
    match spec_number(s, i) {
        Some((n, j)) => Some((LiteralV::Number(n), j)),
        None => if match_at(s, i, kw_true()) {
            Some((LiteralV::Boolean(true), i + 4))
        } else if match_at(s, i, kw_false()) {
            Some((LiteralV::Boolean(false), i + 5))
        } else {
            match spec_string(s, i) {
                Some((c, j)) => Some((LiteralV::Str(c), j)),
                None => None,
            }
        },
    }
}

/// Whether an executable literal result agrees with a specification one.
pub open spec fn opt_lit_eq(r: Option<(Literal, usize)>, v: Option<(LiteralV, int)>) -> bool {
    match (r, v) {
        (Some((l1, j1)), Some((l2, j2))) => l1@ == l2 && j1 as int == j2,
        (None, None) => true,
        _ => false,
    }
}

/// Reads a literal.
pub fn eat_literal(s: &Vec<u8>, i: usize) -> (r: Option<(Literal, usize)>)
    requires
        i <= s@.len(),
    ensures
        opt_lit_eq(r, spec_literal(s@, i as int)),
        r matches Some((l, j)) ==> i < j <= s@.len(),
{
    match eat_number(s, i) {
        Some((n, j)) => Some((Literal::Number(n), j)),
        None => {
            let kwt = kw_true_vec();
            match eat_token(s, i, &kwt) {
                Some(j) => Some((Literal::Boolean(true), j)),
                None => {
                    let kwf = kw_false_vec();
                    match eat_token(s, i, &kwf) {
                        Some(j) => Some((Literal::Boolean(false), j)),
                        None => match eat_string(s, i) {
                            Some((c, j)) => Some((Literal::Str(c), j)),
                            None => None,
                        },
                    }
                },
            }
        },
    }
}

/// A datatype tag of a `select` constructor.
pub open spec fn spec_datatype(s: Seq<u8>, i: int) -> Option<(DataType, int)> {
    if match_at(s, i, kw_string()) {
        Some((DataType::String, i + 6))
    } else if match_at(s, i, kw_number()) {
        Some((DataType::Number, i + 6))
    } else if match_at(s, i, kw_bool()) {
        Some((DataType::Boolean, i + 4))
    } else {
        None
    }
}

/// Whether an executable datatype result agrees with a specification one.
pub open spec fn opt_dt_eq(r: Option<(DataType, usize)>, v: Option<(DataType, int)>) -> bool {
    match (r, v) {
        (Some((d1, j1)), Some((d2, j2))) => d1 == d2 && j1 as int == j2,
        (None, None) => true,
        _ => false,
    }
}

/// Reads a datatype tag.
pub fn eat_datatype(s: &Vec<u8>, i: usize) -> (r: Option<(DataType, usize)>)
    requires
        i <= s@.len(),
    ensures
        opt_dt_eq(r, spec_datatype(s@, i as int)),
        r matches Some((d, j)) ==> i < j <= s@.len(),
{
    let kws = kw_string_vec();
    match eat_token(s, i, &kws) {
        Some(j) => Some((DataType::String, j)),
        None => {
            let kwn = kw_number_vec();
            match eat_token(s, i, &kwn) {
                Some(j) => Some((DataType::Number, j)),
                None => {
                    let kwb = kw_bool_vec();
                    match eat_token(s, i, &kwb) {
                        Some(j) => Some((DataType::Boolean, j)),
                        None => None,
                    }
                },
            }
        },
    }
}

/// A feature-source driver name.
pub open spec fn spec_driver(s: Seq<u8>, i: int) -> Option<(Driver, int)> {
    if match_at(s, i, kw_geojson()) {
        Some((Driver::Geojson, i + 7))
    } else if match_at(s, i, kw_postgis()) {
        Some((Driver::Postgis, i + 7))
    } else if match_at(s, i, kw_shapefile()) {
        Some((Driver::Shapefile, i + 9))
    } else {
        None
    }
}

/// Whether an executable driver result agrees with a specification one.
pub open spec fn opt_drv_eq(r: Option<(Driver, usize)>, v: Option<(Driver, int)>) -> bool {
    match (r, v) {
        (Some((d1, j1)), Some((d2, j2))) => d1 == d2 && j1 as int == j2,
        (None, None) => true,
        _ => false,
    }
}

/// Reads a feature-source driver name.
pub fn eat_driver(s: &Vec<u8>, i: usize) -> (r: Option<(Driver, usize)>)
    requires
        i <= s@.len(),
    ensures
        opt_drv_eq(r, spec_driver(s@, i as int)),
        r matches Some((d, j)) ==> i < j <= s@.len(),
{
    let kwg = kw_geojson_vec();
    match eat_token(s, i, &kwg) {
        Some(j) => Some((Driver::Geojson, j)),
        None => {
            let kwp = kw_postgis_vec();
            match eat_token(s, i, &kwp) {
                Some(j) => Some((Driver::Postgis, j)),
                None => {
                    let kwsh = kw_shapefile_vec();
                    match eat_token(s, i, &kwsh) {
                        Some(j) => Some((Driver::Shapefile, j)),
                        None => None,
                    }
                },
            }
        },
    }
}


/// Concatenating value lists concatenates their views.
pub proof fn lemma_view_values_concat(a: Seq<Value>, b: Seq<Value>)
    ensures
        view_values(a + b) == view_values(a) + view_values(b),
    decreases b.len(),
{
    if b.len() == 0 {
        assert(a + b =~= a);
        assert(view_values(a) + view_values(b) =~= view_values(a));
    } else {
        lemma_view_values_concat(a, b.drop_last());
        assert((a + b).drop_last() =~= a + b.drop_last());
        assert((a + b).last() == b.last());
        assert(view_values(a) + view_values(b.drop_last()).push(view_value(b.last()))
            =~= (view_values(a) + view_values(b.drop_last())).push(view_value(b.last())));
    }
}

/// Whether an executable value result agrees with a specification one.
pub open spec fn res_value_eq(
    r: Result<(Value, usize), ParseError>,
    v: Result<(ValueV, int), ParseErrorV>,
) -> bool {
    match (r, v) {
        (Ok((a, j)), Ok((b, p))) => view_value(a) == b && j as int == p,
        (Err(e1), Err(e2)) => e1@ == e2,
        _ => false,
    }
}

/// Whether an executable function-call result agrees with a
/// specification one.
pub open spec fn res_fncall_eq(
    r: Result<(FunctionCall, usize), ParseError>,
    v: Result<(FunctionCallV, int), ParseErrorV>,
) -> bool {
    match (r, v) {
        (Ok((a, j)), Ok((b, p))) => a.name@ == b.name && view_values(a.args@) == b.args && j as int
            == p,
        (Err(e1), Err(e2)) => e1@ == e2,
        _ => false,
    }
}

/// Whether an executable argument-list result agrees with a
/// specification one.
pub open spec fn res_args_eq(
    r: Result<(Vec<Value>, usize), ParseError>,
    v: Result<(Seq<ValueV>, int), ParseErrorV>,
) -> bool {
    match (r, v) {
        (Ok((a, j)), Ok((b, p))) => view_values(a@) == b && j as int == p,
        (Err(e1), Err(e2)) => e1@ == e2,
        _ => false,
    }
}

/// Whether this failure is one an alternative may recover from.
fn err_is_soft(e: &ParseError) -> (r: bool)
    ensures
        r == is_soft(e@),
{
    matches!(e, ParseError::Wrap { .. })
}

/// A value: a literal, a function call, or an identifier resolving to a
/// data binding in scope, tried in that order.  An identifier that no
/// scope binds aborts the parse.  Nesting is limited to the scope depth
/// limit.
pub open spec fn spec_value(
    s: Seq<u8>,
    i: int,
    scopes: Seq<Seq<(Seq<u8>, DataV)>>,
    depth: int,
) -> Result<(ValueV, int), ParseErrorV>
    decreases s.len() - i, 1int,
{
    if i < 0 || i > s.len() {
        Err(ParseErrorV::Mysterious)
    } else if depth >= DEPTH_LIMIT as int {
        Err(wrap_at(i))
    } else {
        match spec_literal(s, i) {
            Some((l, j)) => Ok((ValueV::Lit(l), j)),
            None => match spec_function(s, i, scopes, depth + 1) {
                Ok((f, j)) => Ok((ValueV::Fn(f), j)),
                Err(e) => if is_soft(e) {
                    match spec_ident(s, i) {
                        Some((name, j)) => match ctx_find(scopes, name) {
                            Some(d) => Ok((ValueV::Data(d), j)),
                            None => Err(ParseErrorV::DataNotInScope { name, position: i }),
                        },
                        None => Err(wrap_at(i)),
                    }
                } else {
                    Err(e)
                },
            },
        }
    }
}

/// A function call: an identifier, then a parenthesized, comma-separated
/// argument list.
pub open spec fn spec_function(
    s: Seq<u8>,
    i: int,
    scopes: Seq<Seq<(Seq<u8>, DataV)>>,
    depth: int,
) -> Result<(FunctionCallV, int), ParseErrorV>
    decreases s.len() - i, 0int,
{
    if i < 0 || i > s.len() {
        Err(ParseErrorV::Mysterious)
    } else {
        match spec_ident(s, i) {
            None => Err(wrap_at(i)),
            Some((name, j)) => if j <= i || j > s.len() {
                Err(ParseErrorV::Mysterious)
            } else if j < s.len() && s[j] == '(' as u8 {
                let a0 = spec_opt_spacing(s, j + 1);
                if a0 <= i || a0 > s.len() {
                    Err(ParseErrorV::Mysterious)
                } else {
                    match spec_fn_args(s, a0, scopes, depth) {
                        Err(e) => Err(e),
                        Ok((args, j2)) => {
                            let j3 = spec_opt_spacing(s, j2);
                            if 0 <= j3 < s.len() && s[j3] == ')' as u8 {
                                Ok((FunctionCallV { name, args }, j3 + 1))
                            } else {
                                Err(wrap_at(j3))
                            }
                        },
                    }
                }
            } else {
                Err(wrap_at(j))
            },
        }
    }
}

/// A possibly empty, comma-separated argument list.
pub open spec fn spec_fn_args(
    s: Seq<u8>,
    i: int,
    scopes: Seq<Seq<(Seq<u8>, DataV)>>,
    depth: int,
) -> Result<(Seq<ValueV>, int), ParseErrorV>
    decreases s.len() - i, 2int,
{
    if i < 0 || i > s.len() {
        Err(ParseErrorV::Mysterious)
    } else {
        match spec_value(s, i, scopes, depth) {
            Ok((v, j)) => if j <= i || j > s.len() {
                Err(ParseErrorV::Mysterious)
            } else {
                match spec_args_rest(s, j, scopes, depth) {
                    Ok((more, p)) => Ok((seq![v] + more, p)),
                    Err(e) => Err(e),
                }
            },
            Err(e) => if is_soft(e) {
                Ok((Seq::empty(), i))
            } else {
                Err(e)
            },
        }
    }
}

/// Further `, value` items of an argument list; stops before a separator
/// that is not followed by a value.
pub open spec fn spec_args_rest(
    s: Seq<u8>,
    i: int,
    scopes: Seq<Seq<(Seq<u8>, DataV)>>,
    depth: int,
) -> Result<(Seq<ValueV>, int), ParseErrorV>
    decreases s.len() - i, 3int,
{
    if i < 0 || i > s.len() {
        Err(ParseErrorV::Mysterious)
    } else {
        let k = spec_opt_spacing(s, i);
        if 0 <= k < s.len() && s[k] == ',' as u8 {
            let k2 = spec_opt_spacing(s, k + 1);
            if k2 <= i || k2 > s.len() {
                Err(ParseErrorV::Mysterious)
            } else {
                match spec_value(s, k2, scopes, depth) {
                    Ok((v, j2)) => if j2 <= i || j2 > s.len() {
                        Err(ParseErrorV::Mysterious)
                    } else {
                        match spec_args_rest(s, j2, scopes, depth) {
                            Ok((more, p)) => Ok((seq![v] + more, p)),
                            Err(e) => Err(e),
                        }
                    },
                    Err(e) => if is_soft(e) {
                        Ok((Seq::empty(), i))
                    } else {
                        Err(e)
                    },
                }
            }
        } else {
            Ok((Seq::empty(), i))
        }
    }
}

/// Reads a value.
pub fn value(s: &Vec<u8>, i: usize, ctx: &mut Context) -> (r: Result<(Value, usize), ParseError>)
    requires
        i <= s@.len(),
    ensures
        final(ctx)@ == old(ctx)@,
        res_value_eq(r, spec_value(s@, i as int, old(ctx)@.scopes, old(ctx)@.depth)),
        r matches Ok((v, j)) ==> i < j <= s@.len(),
    decreases s@.len() - i, 1int,
{
    if !ctx.inc_depth() {
        return Err(ParseError::Wrap { position: i });
    }
    let r: Result<(Value, usize), ParseError> = match eat_literal(s, i) {
        Some((l, j)) => Ok((Value::Lit(l), j)),
        None => {
            match function(s, i, ctx) {
                Ok((f, j)) => Ok((Value::Fn(f), j)),
                Err(e) => if err_is_soft(&e) {
                    match eat_ident(s, i) {
                        Some((name, j)) => match ctx.get_data(&name) {
                            Some(d) => Ok((Value::Data(d), j)),
                            None => Err(ParseError::DataNotInScope { name, position: i }),
                        },
                        None => Err(ParseError::Wrap { position: i }),
                    }
                } else {
                    Err(e)
                },
            }
        },
    };
    ctx.dec_depth();
    r
}

/// Reads a function call.
fn function(s: &Vec<u8>, i: usize, ctx: &mut Context) -> (r: Result<
    (FunctionCall, usize),
    ParseError,
>)
    requires
        i <= s@.len(),
    ensures
        final(ctx)@ == old(ctx)@,
        res_fncall_eq(r, spec_function(s@, i as int, old(ctx)@.scopes, old(ctx)@.depth)),
        r matches Ok((f, j)) ==> i < j <= s@.len(),
    decreases s@.len() - i, 0int,
{
    match eat_ident(s, i) {
        None => Err(ParseError::Wrap { position: i }),
        Some((name, j)) => {
            if j <= i {
                return Err(ParseError::Mysterious);
            }
            if j < s.len() && s[j] == '(' as u8 {
                let a0 = eat_opt_spacing(s, j + 1);
                if a0 <= i {
                    return Err(ParseError::Mysterious);
                }
                match fn_args(s, a0, ctx) {
                    Err(e) => Err(e),
                    Ok((args, j2)) => {
                        let j3 = eat_opt_spacing(s, j2);
                        if j3 < s.len() && s[j3] == ')' as u8 {
                            Ok((FunctionCall { name, args }, j3 + 1))
                        } else {
                            Err(ParseError::Wrap { position: j3 })
                        }
                    },
                }
            } else {
                Err(ParseError::Wrap { position: j })
            }
        },
    }
}

/// Reads a possibly empty argument list.
fn fn_args(s: &Vec<u8>, i: usize, ctx: &mut Context) -> (r: Result<
    (Vec<Value>, usize),
    ParseError,
>)
    requires
        i <= s@.len(),
    ensures
        final(ctx)@ == old(ctx)@,
        res_args_eq(r, spec_fn_args(s@, i as int, old(ctx)@.scopes, old(ctx)@.depth)),
        r matches Ok((a, j)) ==> i <= j <= s@.len(),
    decreases s@.len() - i, 2int,
{
    match value(s, i, ctx) {
        Ok((v, j)) => {
            if j <= i {
                return Err(ParseError::Mysterious);
            }
            match args_rest(s, j, ctx) {
                Ok((mut more, p)) => {
                    let ghost vv = view_value(v);
                    let mut out: Vec<Value> = Vec::new();
                    out.push(v);
                    let ghost single = out@;
                    let ghost more_old = more@;
                    proof {
                        assert(single =~= Seq::<Value>::empty().push(v));
                        assert(single.drop_last() =~= Seq::<Value>::empty());
                        assert(single.last() == v);
                        reveal_with_fuel(view_values, 3);
                        assert(view_values(single) =~= seq![vv]);
                    }
                    out.append(&mut more);
                    proof {
                        lemma_view_values_concat(single, more_old);
                        assert(view_values(out@) == seq![vv] + view_values(more_old));
                    }
                    Ok((out, p))
                },
                Err(e) => Err(e),
            }
        },
        Err(e) => if err_is_soft(&e) {
            proof {
                assert(view_values(Seq::<Value>::empty()) =~= Seq::<ValueV>::empty());
            }
            Ok((Vec::new(), i))
        } else {
            Err(e)
        },
    }
}

/// Reads further `, value` items of an argument list.
fn args_rest(s: &Vec<u8>, i: usize, ctx: &mut Context) -> (r: Result<
    (Vec<Value>, usize),
    ParseError,
>)
    requires
        i <= s@.len(),
    ensures
        final(ctx)@ == old(ctx)@,
        res_args_eq(r, spec_args_rest(s@, i as int, old(ctx)@.scopes, old(ctx)@.depth)),
        r matches Ok((a, j)) ==> i <= j <= s@.len(),
    decreases s@.len() - i, 3int,
{
    let k = eat_opt_spacing(s, i);
    if k < s.len() && s[k] == ',' as u8 {
        let k2 = eat_opt_spacing(s, k + 1);
        if k2 <= i {
            return Err(ParseError::Mysterious);
        }
        match value(s, k2, ctx) {
            Ok((v, j2)) => {
                if j2 <= i {
                    return Err(ParseError::Mysterious);
                }
                match args_rest(s, j2, ctx) {
                    Ok((mut more, p)) => {
                        let ghost vv = view_value(v);
                        let mut out: Vec<Value> = Vec::new();
                        out.push(v);
                        let ghost single = out@;
                        let ghost more_old = more@;
                        proof {
                            assert(single =~= Seq::<Value>::empty().push(v));
                            assert(single.drop_last() =~= Seq::<Value>::empty());
                            assert(single.last() == v);
                            reveal_with_fuel(view_values, 3);
                            assert(view_values(single) =~= seq![vv]);
                        }
                        out.append(&mut more);
                        proof {
                            lemma_view_values_concat(single, more_old);
                            assert(view_values(out@) == seq![vv] + view_values(more_old));
                        }
                        Ok((out, p))
                    },
                    Err(e) => Err(e),
                }
            },
            Err(e) => if err_is_soft(&e) {
                proof {
                    assert(view_values(Seq::<Value>::empty()) =~= Seq::<ValueV>::empty());
                }
                Ok((Vec::new(), i))
            } else {
                Err(e)
            },
        }
    } else {
        proof {
            assert(view_values(Seq::<Value>::empty()) =~= Seq::<ValueV>::empty());
        }
        Ok((Vec::new(), i))
    }
}


/// An `srid` directive: the keyword, spacing, and an integer.
pub open spec fn spec_srid(s: Seq<u8>, i: int) -> Option<(Srid, int)> {
    if match_at(s, i, kw_srid()) {
        match spec_spacing(s, i + 4) {
            Some(k) => match spec_integer(s, k) {
                Some((v, e)) => Some((Srid { value: v }, e)),
                None => None,
            },
            None => None,
        }
    } else {
        None
    }
}

/// Whether an executable srid result agrees with a specification one.
pub open spec fn opt_srid_eq(r: Option<(Srid, usize)>, v: Option<(Srid, int)>) -> bool {
    match (r, v) {
        (Some((a, j)), Some((b, p))) => a == b && j as int == p,
        (None, None) => true,
        _ => false,
    }
}

/// Reads an `srid` directive.
pub fn eat_srid(s: &Vec<u8>, i: usize) -> (r: Option<(Srid, usize)>)
    requires
        i <= s@.len(),
    ensures
        opt_srid_eq(r, spec_srid(s@, i as int)),
        r matches Some((v, j)) ==> i < j <= s@.len(),
{
    let kw = kw_srid_vec();
    match eat_token(s, i, &kw) {
        None => None,
        Some(j) => match eat_spacing(s, j) {
            None => None,
            Some(k) => match eat_integer(s, k) {
                Some((v, e)) => Some((Srid { value: v }, e)),
                None => None,
            },
        },
    }
}

/// An `extent` directive: the keyword and four numbers, each pair parted
/// by spacing.
pub open spec fn spec_extent(s: Seq<u8>, i: int) -> Option<(Extent, int)> {
    if match_at(s, i, kw_extent()) {
        match spec_spacing(s, i + 6) {
            Some(k0) => match spec_number(s, k0) {
                Some((minx, e1)) => match spec_spacing(s, e1) {
                    Some(k1) => match spec_number(s, k1) {
                        Some((maxx, e2)) => match spec_spacing(s, e2) {
                            Some(k2) => match spec_number(s, k2) {
                                Some((miny, e3)) => match spec_spacing(s, e3) {
                                    Some(k3) => match spec_number(s, k3) {
                                        Some((maxy, e4)) => Some(
                                            (Extent { minx, miny, maxx, maxy }, e4),
                                        ),
                                        None => None,
                                    },
                                    None => None,
                                },
                                None => None,
                            },
                            None => None,
                        },
                        None => None,
                    },
                    None => None,
                },
                None => None,
            },
            None => None,
        }
    } else {
        None
    }
}

/// Whether an executable extent result agrees with a specification one.
pub open spec fn opt_extent_eq(r: Option<(Extent, usize)>, v: Option<(Extent, int)>) -> bool {
    match (r, v) {
        (Some((a, j)), Some((b, p))) => a == b && j as int == p,
        (None, None) => true,
        _ => false,
    }
}

/// Reads an `extent` directive.
pub fn eat_extent(s: &Vec<u8>, i: usize) -> (r: Option<(Extent, usize)>)
    requires
        i <= s@.len(),
    ensures
        opt_extent_eq(r, spec_extent(s@, i as int)),
        r matches Some((v, j)) ==> i < j <= s@.len(),
{
    let kw = kw_extent_vec();
    match eat_token(s, i, &kw) {
        None => None,
        Some(j) => match eat_spacing(s, j) {
            None => None,
            Some(k0) => match eat_number(s, k0) {
                None => None,
                Some((minx, e1)) => match eat_spacing(s, e1) {
                    None => None,
                    Some(k1) => match eat_number(s, k1) {
                        None => None,
                        Some((maxx, e2)) => match eat_spacing(s, e2) {
                            None => None,
                            Some(k2) => match eat_number(s, k2) {
                                None => None,
                                Some((miny, e3)) => match eat_spacing(s, e3) {
                                    None => None,
                                    Some(k3) => match eat_number(s, k3) {
                                        None => None,
                                        Some((maxy, e4)) => Some(
                                            (Extent { minx, miny, maxx, maxy }, e4),
                                        ),
                                    },
                                },
                            },
                        },
                    },
                },
            },
        },
    }
}

/// A `source` directive: the keyword, a driver, a quoted path, and an
/// optional source SRID number.
pub open spec fn spec_source(s: Seq<u8>, i: int) -> Option<(SourceV, int)> {
    if match_at(s, i, kw_source()) {
        match spec_spacing(s, i + 6) {
            Some(k0) => match spec_driver(s, k0) {
                Some((driver, e1)) => match spec_spacing(s, e1) {
                    Some(k1) => match spec_string(s, k1) {
                        Some((path, e2)) => {
                            match spec_spacing(s, e2) {
                                Some(k2) => match spec_number(s, k2) {
                                    Some((n, e3)) => Some(
                                        (SourceV { driver, path, srid: Some(n) }, e3),
                                    ),
                                    None => Some((SourceV { driver, path, srid: None }, e2)),
                                },
                                None => Some((SourceV { driver, path, srid: None }, e2)),
                            }
                        },
                        None => None,
                    },
                    None => None,
                },
                None => None,
            },
            None => None,
        }
    } else {
        None
    }
}

/// Whether an executable source result agrees with a specification one.
pub open spec fn opt_source_eq(r: Option<(Source, usize)>, v: Option<(SourceV, int)>) -> bool {
    match (r, v) {
        (Some((a, j)), Some((b, p))) => a@ == b && j as int == p,
        (None, None) => true,
        _ => false,
    }
}

/// Reads a `source` directive.
pub fn eat_source(s: &Vec<u8>, i: usize) -> (r: Option<(Source, usize)>)
    requires
        i <= s@.len(),
    ensures
        opt_source_eq(r, spec_source(s@, i as int)),
        r matches Some((v, j)) ==> i < j <= s@.len(),
{
    let kw = kw_source_vec();
    match eat_token(s, i, &kw) {
        None => None,
        Some(j) => match eat_spacing(s, j) {
            None => None,
            Some(k0) => match eat_driver(s, k0) {
                None => None,
                Some((driver, e1)) => match eat_spacing(s, e1) {
                    None => None,
                    Some(k1) => match eat_string(s, k1) {
                        None => None,
                        Some((path, e2)) => {
                            match eat_spacing(s, e2) {
                                Some(k2) => match eat_number(s, k2) {
                                    Some((n, e3)) => Some(
                                        (Source { driver, path, srid: Some(n) }, e3),
                                    ),
                                    None => Some((Source { driver, path, srid: None }, e2)),
                                },
                                None => Some((Source { driver, path, srid: None }, e2)),
                            }
                        },
                    },
                },
            },
        },
    }
}

/// A constructor: a `select` of a feature attribute with its datatype,
/// or an inline value.
pub open spec fn spec_constructor(
    s: Seq<u8>,
    i: int,
    scopes: Seq<Seq<(Seq<u8>, DataV)>>,
    depth: int,
) -> Result<(ConstructorV, int), ParseErrorV> {
    match spec_select_ctor(s, i) {
        Some((sel, j)) => Ok((ConstructorV::Select(sel), j)),
        None => match spec_value(s, i, scopes, depth) {
            Ok((v, j)) => Ok((ConstructorV::Val(Box::new(v)), j)),
            Err(e) => Err(e),
        },
    }
}

/// The `select` form of a constructor: the keyword, a quoted attribute
/// name, and a datatype.
pub open spec fn spec_select_ctor(s: Seq<u8>, i: int) -> Option<(SelectV, int)> {
    if match_at(s, i, kw_select()) {
        match spec_spacing(s, i + 6) {
            Some(k0) => match spec_string(s, k0) {
                Some((selector, e1)) => match spec_spacing(s, e1) {
                    Some(k1) => match spec_datatype(s, k1) {
                        Some((datatype, e2)) => Some((SelectV { selector, datatype }, e2)),
                        None => None,
                    },
                    None => None,
                },
                None => None,
            },
            None => None,
        }
    } else {
        None
    }
}

/// Whether an executable constructor result agrees with a specification
/// one.
pub open spec fn res_ctor_eq(
    r: Result<(Constructor, usize), ParseError>,
    v: Result<(ConstructorV, int), ParseErrorV>,
) -> bool {
    match (r, v) {
        (Ok((a, j)), Ok((b, p))) => view_constructor(a) == b && j as int == p,
        (Err(e1), Err(e2)) => e1@ == e2,
        _ => false,
    }
}

/// Reads a constructor.
fn constructor(s: &Vec<u8>, i: usize, ctx: &mut Context) -> (r: Result<
    (Constructor, usize),
    ParseError,
>)
    requires
        i <= s@.len(),
    ensures
        final(ctx)@ == old(ctx)@,
        res_ctor_eq(r, spec_constructor(s@, i as int, old(ctx)@.scopes, old(ctx)@.depth)),
        r matches Ok((c, j)) ==> i < j <= s@.len(),
{
    let kw = kw_select_vec();
    let sel: Option<(Select, usize)> = match eat_token(s, i, &kw) {
        None => None,
        Some(j) => match eat_spacing(s, j) {
            None => None,
            Some(k0) => match eat_string(s, k0) {
                None => None,
                Some((selector, e1)) => match eat_spacing(s, e1) {
                    None => None,
                    Some(k1) => match eat_datatype(s, k1) {
                        None => None,
                        Some((datatype, e2)) => Some((Select { selector, datatype }, e2)),
                    },
                },
            },
        },
    };
    match sel {
        Some((sv, j)) => Ok((Constructor::Select(sv), j)),
        None => match value(s, i, ctx) {
            Ok((v, j)) => Ok((Constructor::Val(v), j)),
            Err(e) => Err(e),
        },
    }
}

/// What parsing a `data` directive yields: the binding, the position
/// just past it, and the resolution state with the binding declared.
pub open spec fn spec_data_dir(s: Seq<u8>, i: int, ctx: ContextV) -> Result<
    (DataV, int, ContextV),
    ParseErrorV,
> {
    if match_at(s, i, kw_data()) {
        match spec_spacing(s, i + 4) {
            Some(k0) => match spec_ident(s, k0) {
                Some((name, e1)) => match spec_spacing(s, e1) {
                    Some(k1) => match spec_constructor(s, k1, ctx.scopes, ctx.depth) {
                        Ok((c, e2)) => {
                            let d = DataV { ident: name, constructor: c };
                            let scopes2 = if ctx.scopes.len() > 0 {
                                ctx.scopes.update(
                                    ctx.scopes.len() - 1,
                                    ctx.scopes.last().push((name, d)),
                                )
                            } else {
                                ctx.scopes
                            };
                            Ok((d, e2, ContextV { scopes: scopes2, ..ctx }))
                        },
                        Err(e) => Err(e),
                    },
                    None => Err(wrap_at(i)),
                },
                None => Err(wrap_at(i)),
            },
            None => Err(wrap_at(i)),
        }
    } else {
        Err(wrap_at(i))
    }
}

/// Whether an executable data-directive result agrees with a
/// specification one.
pub open spec fn res_data_eq(
    r: Result<(Data, usize), ParseError>,
    c2: ContextV,
    v: Result<(DataV, int, ContextV), ParseErrorV>,
) -> bool {
    match (r, v) {
        (Ok((a, j)), Ok((b, p, c3))) => view_data(a) == b && j as int == p && c2 == c3,
        (Err(e1), Err(e2)) => e1@ == e2,
        _ => false,
    }
}

/// Reads a `data` directive, declaring its binding in the innermost
/// scope.
pub fn data(s: &Vec<u8>, i: usize, ctx: &mut Context) -> (r: Result<(Data, usize), ParseError>)
    requires
        i <= s@.len(),
    ensures
        res_data_eq(r, final(ctx)@, spec_data_dir(s@, i as int, old(ctx)@)),
        r matches Err(e) ==> final(ctx)@ == old(ctx)@,
        r matches Ok((d, j)) ==> i < j <= s@.len(),
{
    let kw = kw_data_vec();
    match eat_token(s, i, &kw) {
        None => Err(ParseError::Wrap { position: i }),
        Some(j) => match eat_spacing(s, j) {
            None => Err(ParseError::Wrap { position: i }),
            Some(k0) => match eat_ident(s, k0) {
                None => Err(ParseError::Wrap { position: i }),
                Some((name, e1)) => match eat_spacing(s, e1) {
                    None => Err(ParseError::Wrap { position: i }),
                    Some(k1) => match constructor(s, k1, ctx) {
                        Ok((c, e2)) => {
                            let d = Data { ident: name, constructor: Box::new(c) };
                            let copy = clone_data(&d);
                            ctx.put_data(&d.ident, copy);
                            Ok((d, e2))
                        },
                        Err(e) => Err(e),
                    },
                },
            },
        },
    }
}


/// A comparison operator of the predicate grammar.
#[derive(Debug, Clone, Copy, PartialEq)]
pub enum CmpOp {
    Eq,
    Neq,
    Gt,
    Gte,
    Lt,
    Lte,
}

/// The comparison operator at `i`: two-byte operators are tried before
/// their one-byte prefixes.
pub open spec fn spec_cmp_op(s: Seq<u8>, i: int) -> Option<(CmpOp, int)> {
    if match_at(s, i, kw_noteq()) {
        Some((CmpOp::Neq, i + 2))
    } else if match_at(s, i, kw_lte()) {
        Some((CmpOp::Lte, i + 2))
    } else if match_at(s, i, kw_gte()) {
        Some((CmpOp::Gte, i + 2))
    } else if 0 <= i < s.len() && s[i] == '=' as u8 {
        Some((CmpOp::Eq, i + 1))
    } else if 0 <= i < s.len() && s[i] == '>' as u8 {
        Some((CmpOp::Gt, i + 1))
    } else if 0 <= i < s.len() && s[i] == '<' as u8 {
        Some((CmpOp::Lt, i + 1))
    } else {
        None
    }
}

/// Reads a comparison operator.
fn eat_cmp_op(s: &Vec<u8>, i: usize) -> (r: Option<(CmpOp, usize)>)
    requires
        i <= s@.len(),
    ensures
        match r {
            Some((o, j)) => spec_cmp_op(s@, i as int) == Some((o, j as int)) && i < j <= s@.len(),
            None => spec_cmp_op(s@, i as int) is None,
        },
{
    let kwn = kw_noteq_vec();
    match eat_token(s, i, &kwn) {
        Some(j) => Some((CmpOp::Neq, j)),
        None => {
            let kwl = kw_lte_vec();
            match eat_token(s, i, &kwl) {
                Some(j) => Some((CmpOp::Lte, j)),
                None => {
                    let kwg = kw_gte_vec();
                    match eat_token(s, i, &kwg) {
                        Some(j) => Some((CmpOp::Gte, j)),
                        None => {
                            if i < s.len() && s[i] == '=' as u8 {
                                Some((CmpOp::Eq, i + 1))
                            } else if i < s.len() && s[i] == '>' as u8 {
                                Some((CmpOp::Gt, i + 1))
                            } else if i < s.len() && s[i] == '<' as u8 {
                                Some((CmpOp::Lt, i + 1))
                            } else {
                                None
                            }
                        },
                    }
                },
            }
        },
    }
}

/// The comparison a predicate makes of its two sides.
pub open spec fn pred_of(op: CmpOp, l: ValueV, r: ValueV) -> PredicateV {
    match op {
        CmpOp::Eq => PredicateV::Equal((Box::new(l), Box::new(r))),
        CmpOp::Neq => PredicateV::NotEqual((Box::new(l), Box::new(r))),
        CmpOp::Gt => PredicateV::GreaterThan((Box::new(l), Box::new(r))),
        CmpOp::Gte => PredicateV::GreaterThanOrEqual((Box::new(l), Box::new(r))),
        CmpOp::Lt => PredicateV::LesserThan((Box::new(l), Box::new(r))),
        CmpOp::Lte => PredicateV::LesserThanOrEqual((Box::new(l), Box::new(r))),
    }
}

/// Builds the comparison a predicate makes.
fn pred_of_exec(op: CmpOp, l: Value, r: Value) -> (p: Predicate)
    ensures
        view_predicate(p) == pred_of(op, view_value(l), view_value(r)),
{
    match op {
        CmpOp::Eq => Predicate::Equal(crate::ast::pair(l, r)),
        CmpOp::Neq => Predicate::NotEqual(crate::ast::pair(l, r)),
        CmpOp::Gt => Predicate::GreaterThan(crate::ast::pair(l, r)),
        CmpOp::Gte => Predicate::GreaterThanOrEqual(crate::ast::pair(l, r)),
        CmpOp::Lt => Predicate::LesserThan(crate::ast::pair(l, r)),
        CmpOp::Lte => Predicate::LesserThanOrEqual(crate::ast::pair(l, r)),
    }
}

/// A single predicate: a value, a comparison operator and a value,
/// spacing allowed throughout and consumed after.
pub open spec fn spec_pred_single(
    s: Seq<u8>,
    i: int,
    scopes: Seq<Seq<(Seq<u8>, DataV)>>,
    depth: int,
) -> Result<(PredicateV, int), ParseErrorV>
    decreases s.len() - i, 4int,
{
    if i < 0 || i > s.len() {
        Err(ParseErrorV::Mysterious)
    } else {
        let i0 = spec_opt_spacing(s, i);
        if i0 < i || i0 > s.len() {
            Err(ParseErrorV::Mysterious)
        } else {
            match spec_value(s, i0, scopes, depth) {
                Err(e) => Err(e),
                Ok((left, j)) => {
                    let j0 = spec_opt_spacing(s, j);
                    match spec_cmp_op(s, j0) {
                        None => Err(wrap_at(j0)),
                        Some((op, j1)) => {
                            let j2 = spec_opt_spacing(s, j1);
                            if j2 < i0 || j2 > s.len() {
                                Err(ParseErrorV::Mysterious)
                            } else {
                                match spec_value(s, j2, scopes, depth) {
                                    Err(e) => Err(e),
                                    Ok((right, j3)) => Ok(
                                        (pred_of(op, left, right), spec_opt_spacing(s, j3)),
                                    ),
                                }
                            }
                        },
                    }
                },
            }
        }
    }
}

/// Whether an executable predicate result agrees with a specification
/// one.
pub open spec fn res_pred_eq(
    r: Result<(Predicate, usize), ParseError>,
    v: Result<(PredicateV, int), ParseErrorV>,
) -> bool {
    match (r, v) {
        (Ok((a, j)), Ok((b, p))) => view_predicate(a) == b && j as int == p,
        (Err(e1), Err(e2)) => e1@ == e2,
        _ => false,
    }
}

/// Reads a single predicate.
fn predicate_single(s: &Vec<u8>, i: usize, ctx: &mut Context) -> (r: Result<
    (Predicate, usize),
    ParseError,
>)
    requires
        i <= s@.len(),
    ensures
        final(ctx)@ == old(ctx)@,
        res_pred_eq(r, spec_pred_single(s@, i as int, old(ctx)@.scopes, old(ctx)@.depth)),
        r matches Ok((p, j)) ==> i <= j <= s@.len(),
    decreases s@.len() - i, 4int,
{
    let i0 = eat_opt_spacing(s, i);
    match value(s, i0, ctx) {
        Err(e) => Err(e),
        Ok((left, j)) => {
            let j0 = eat_opt_spacing(s, j);
            match eat_cmp_op(s, j0) {
                None => Err(ParseError::Wrap { position: j0 }),
                Some((op, j1)) => {
                    let j2 = eat_opt_spacing(s, j1);
                    if j2 < i0 {
                        return Err(ParseError::Mysterious);
                    }
                    match value(s, j2, ctx) {
                        Err(e) => Err(e),
                        Ok((right, j3)) => {
                            let j4 = eat_opt_spacing(s, j3);
                            Ok((pred_of_exec(op, left, right), j4))
                        },
                    }
                },
            }
        },
    }
}

/// A group operator: `|` or `&`.
pub open spec fn spec_group_op(s: Seq<u8>, i: int) -> Option<(bool, int)> {
    if 0 <= i < s.len() && s[i] == '|' as u8 {
        Some((true, i + 1))
    } else if 0 <= i < s.len() && s[i] == '&' as u8 {
        Some((false, i + 1))
    } else {
        None
    }
}

/// Joins two groups under a group operator, `|` standing for or.
pub open spec fn group_join(is_or: bool, l: PredGroupV, r: PredGroupV) -> PredGroupV {
    if is_or {
        PredGroupV::Or { left: Box::new(l), right: Box::new(r) }
    } else {
        PredGroupV::And { left: Box::new(l), right: Box::new(r) }
    }
}

/// Joins two groups under a group operator.
fn group_join_exec(is_or: bool, l: PredGroup, r: PredGroup) -> (g: PredGroup)
    ensures
        view_pred_group(g) == group_join(is_or, view_pred_group(l), view_pred_group(r)),
{
    if is_or {
        PredGroup::Or { left: Box::new(l), right: Box::new(r) }
    } else {
        PredGroup::And { left: Box::new(l), right: Box::new(r) }
    }
}

/// Further `op predicate` items of a flat group, folded onto `acc` from
/// the left; stops before an operator not followed by a predicate.
pub open spec fn spec_group_rest(
    s: Seq<u8>,
    i: int,
    acc: PredGroupV,
    scopes: Seq<Seq<(Seq<u8>, DataV)>>,
    depth: int,
) -> Result<(PredGroupV, int), ParseErrorV>
    decreases s.len() - i, 5int,
{
    if i < 0 || i > s.len() {
        Err(ParseErrorV::Mysterious)
    } else {
        let k = spec_opt_spacing(s, i);
        match spec_group_op(s, k) {
            None => Ok((acc, i)),
            Some((is_or, k1)) => {
                let k2 = spec_opt_spacing(s, k1);
                if k2 <= i || k2 > s.len() {
                    Err(ParseErrorV::Mysterious)
                } else {
                    match spec_pred_single(s, k2, scopes, depth) {
                        Ok((p, j)) => if j <= i || j > s.len() {
                            Err(ParseErrorV::Mysterious)
                        } else {
                            spec_group_rest(
                                s,
                                j,
                                group_join(is_or, acc, PredGroupV::Pred(p)),
                                scopes,
                                depth,
                            )
                        },
                        Err(e) => if is_soft(e) {
                            Ok((acc, i))
                        } else {
                            Err(e)
                        },
                    }
                }
            },
        }
    }
}

/// A flat predicate group: a predicate followed by one or more
/// `op predicate` items, folded from the left so that mixed `&` and `|`
/// associate by textual order.
pub open spec fn spec_pred_group(
    s: Seq<u8>,
    i: int,
    scopes: Seq<Seq<(Seq<u8>, DataV)>>,
    depth: int,
) -> Result<(PredGroupV, int), ParseErrorV>
    decreases s.len() - i, 6int,
{
    if i < 0 || i > s.len() {
        Err(ParseErrorV::Mysterious)
    } else {
        match spec_pred_single(s, i, scopes, depth) {
            Err(e) => Err(e),
            Ok((p, j)) => if j < i || j > s.len() {
                Err(ParseErrorV::Mysterious)
            } else {
                match spec_group_rest(s, j, PredGroupV::Pred(p), scopes, depth) {
                    Err(e) => Err(e),
                    Ok((g, e)) => if e == j {
                        Err(wrap_at(j))
                    } else {
                        Ok((g, e))
                    },
                }
            },
        }
    }
}

/// Whether an executable group result agrees with a specification one.
pub open spec fn res_group_eq(
    r: Result<(PredGroup, usize), ParseError>,
    v: Result<(PredGroupV, int), ParseErrorV>,
) -> bool {
    match (r, v) {
        (Ok((a, j)), Ok((b, p))) => view_pred_group(a) == b && j as int == p,
        (Err(e1), Err(e2)) => e1@ == e2,
        _ => false,
    }
}

/// Reads the rest of a flat group onto `acc`.
fn group_rest(s: &Vec<u8>, i: usize, acc: PredGroup, ctx: &mut Context) -> (r: Result<
    (PredGroup, usize),
    ParseError,
>)
    requires
        i <= s@.len(),
    ensures
        final(ctx)@ == old(ctx)@,
        res_group_eq(
            r,
            spec_group_rest(
                s@,
                i as int,
                view_pred_group(acc),
                old(ctx)@.scopes,
                old(ctx)@.depth,
            ),
        ),
        r matches Ok((g, j)) ==> i <= j <= s@.len(),
    decreases s@.len() - i, 5int,
{
    let k = eat_opt_spacing(s, i);
    let op: Option<(bool, usize)> = if k < s.len() && s[k] == '|' as u8 {
        Some((true, k + 1))
    } else if k < s.len() && s[k] == '&' as u8 {
        Some((false, k + 1))
    } else {
        None
    };
    match op {
        None => Ok((acc, i)),
        Some((is_or, k1)) => {
            let k2 = eat_opt_spacing(s, k1);
            if k2 <= i {
                return Err(ParseError::Mysterious);
            }
            match predicate_single(s, k2, ctx) {
                Ok((p, j)) => {
                    if j <= i {
                        return Err(ParseError::Mysterious);
                    }
                    group_rest(s, j, group_join_exec(is_or, acc, PredGroup::Pred(p)), ctx)
                },
                Err(e) => if err_is_soft(&e) {
                    Ok((acc, i))
                } else {
                    Err(e)
                },
            }
        },
    }
}

/// Reads a flat predicate group.
fn predicate_group(s: &Vec<u8>, i: usize, ctx: &mut Context) -> (r: Result<
    (PredGroup, usize),
    ParseError,
>)
    requires
        i <= s@.len(),
    ensures
        final(ctx)@ == old(ctx)@,
        res_group_eq(r, spec_pred_group(s@, i as int, old(ctx)@.scopes, old(ctx)@.depth)),
        r matches Ok((g, j)) ==> i <= j <= s@.len(),
    decreases s@.len() - i, 6int,
{
    match predicate_single(s, i, ctx) {
        Err(e) => Err(e),
        Ok((p, j)) => {
            match group_rest(s, j, PredGroup::Pred(p), ctx) {
                Err(e) => Err(e),
                Ok((g, e)) => if e == j {
                    Err(ParseError::Wrap { position: j })
                } else {
                    Ok((g, e))
                },
            }
        },
    }
}


/// State of the nested-expression reader: the count of parentheses still
/// open, the stack of pending `(operator, group)` pairs, and the group
/// built so far.
#[derive(Debug)]
pub struct NestedState<Operator, Output> {
    pub depth: usize,
    pub pendings: Vec<(Operator, Output)>,
    pub output: Output,
}

impl<Operator, Output> NestedState<Operator, Output> {
    /// Takes the most recent pending pair, if any.
    pub fn pop(&mut self) -> (r: Option<(Operator, Output)>)
        ensures
            old(self).pendings@.len() == 0 ==> r is None && final(self).pendings@ == old(
                self,
            ).pendings@,
            old(self).pendings@.len() > 0 ==> r == Some(old(self).pendings@.last())
                && final(self).pendings@ == old(self).pendings@.drop_last(),
            final(self).depth == old(self).depth,
            final(self).output == old(self).output,
    {
        self.pendings.pop()
    }

    /// Sets a pending pair aside.
    pub fn push(&mut self, op: Operator, term: Output)
        ensures
            final(self).pendings@ == old(self).pendings@.push((op, term)),
            final(self).depth == old(self).depth,
            final(self).output == old(self).output,
    {
        self.pendings.push((op, term));
    }
}

/// One or more parentheses of the given kind, each allowed its own
/// surrounding spacing; yields how many and the position after them.
pub open spec fn spec_compress(s: Seq<u8>, i: int, c: u8) -> Option<(int, int)>
    decreases s.len() - i,
{
    if i < 0 || i > s.len() {
        None
    } else {
        let k = spec_opt_spacing(s, i);
        if 0 <= k < s.len() && s[k] == c {
            let p1 = spec_opt_spacing(s, k + 1);
            if p1 <= i || p1 > s.len() {
                None
            } else {
                match spec_compress(s, p1, c) {
                    Some((n, p)) => Some((n + 1, p)),
                    None => Some((1, p1)),
                }
            }
        } else {
            None
        }
    }
}

/// Reads one or more parentheses of the given kind.
fn eat_compress(s: &Vec<u8>, i: usize, c: u8) -> (r: Option<(usize, usize)>)
    requires
        i <= s@.len(),
    ensures
        match r {
            Some((n, p)) => spec_compress(s@, i as int, c) == Some((n as int, p as int)) && i < p
                <= s@.len() && 1 <= n <= p - i,
            None => spec_compress(s@, i as int, c) is None,
        },
    decreases s@.len() - i,
{
    let k = eat_opt_spacing(s, i);
    if k < s.len() && s[k] == c {
        let p1 = eat_opt_spacing(s, k + 1);
        if p1 <= i {
            return None;
        }
        match eat_compress(s, p1, c) {
            Some((n, p)) => Some((n + 1, p)),
            None => Some((1, p1)),
        }
    } else {
        None
    }
}

/// View of the pending stack of the nested reader.
pub open spec fn view_pendings(s: Seq<(bool, PredGroup)>) -> Seq<(bool, PredGroupV)>
    decreases s,
{
    if s.len() == 0 {
        Seq::empty()
    } else {
        view_pendings(s.drop_last()).push((s.last().0, view_pred_group(s.last().1)))
    }
}

/// The `operator term` transition of the nested reader, where the term
/// is a single predicate.  A recoverable mismatch yields nothing; a hard
/// failure aborts.
pub open spec fn spec_sep_term(
    s: Seq<u8>,
    pos: int,
    scopes: Seq<Seq<(Seq<u8>, DataV)>>,
    depth: int,
) -> Result<Option<(bool, PredicateV, int)>, ParseErrorV> {
    let k = spec_opt_spacing(s, pos);
    match spec_group_op(s, k) {
        None => Ok(None),
        Some((is_or, k1)) => {
            let k2 = spec_opt_spacing(s, k1);
            if k2 < 0 || k2 > s.len() {
                Ok(None)
            } else {
                match spec_pred_single(s, k2, scopes, depth) {
                    Ok((p, j)) => Ok(Some((is_or, p, j))),
                    Err(e) => if is_soft(e) {
                        Ok(None)
                    } else {
                        Err(e)
                    },
                }
            }
        },
    }
}

/// The `operator ( term` transition of the nested reader.
pub open spec fn spec_sep_open(
    s: Seq<u8>,
    pos: int,
    scopes: Seq<Seq<(Seq<u8>, DataV)>>,
    depth: int,
) -> Result<Option<(bool, int, PredicateV, int)>, ParseErrorV> {
    let k = spec_opt_spacing(s, pos);
    match spec_group_op(s, k) {
        None => Ok(None),
        Some((is_or, k1)) => {
            let k2 = spec_opt_spacing(s, k1);
            if k2 < 0 || k2 > s.len() {
                Ok(None)
            } else {
                match spec_compress(s, k2, 40) {
                    None => Ok(None),
                    Some((n2, p2)) => if p2 < 0 || p2 > s.len() {
                        Ok(None)
                    } else {
                        match spec_pred_single(s, p2, scopes, depth) {
                            Ok((t2, j2)) => Ok(Some((is_or, n2, t2, j2))),
                            Err(e) => if is_soft(e) {
                                Ok(None)
                            } else {
                                Err(e)
                            },
                        }
                    },
                }
            }
        },
    }
}

/// The nested-expression reader's loop: starting inside `dc` open
/// parentheses with `out` built and `pend` pending, it alternates
/// between `operator term`, `operator ( term` and `)` transitions until
/// no parenthesis stays open.  An `operator term` seen with pairs
/// pending reduces onto the most recent pending pair under that pair's
/// operator; a `)` closes one pending pair onto the output.
pub open spec fn spec_nested_loop(
    s: Seq<u8>,
    pos: int,
    dc: int,
    pend: Seq<(bool, PredGroupV)>,
    out: PredGroupV,
    scopes: Seq<Seq<(Seq<u8>, DataV)>>,
    depth: int,
) -> Result<(PredGroupV, int), ParseErrorV>
    decreases s.len() - pos, 7int,
{
    if pos < 0 || pos > s.len() {
        Err(ParseErrorV::Mysterious)
    } else if dc <= 0 {
        Ok((out, pos))
    } else {
        match spec_sep_term(s, pos, scopes, depth) {
            Err(e) => Err(e),
            Ok(Some((is_or, p2, j))) => if j <= pos || j > s.len() {
                Err(ParseErrorV::Mysterious)
            } else {
                if pend.len() > 0 {
                    let po = pend.last().0;
                    let pout = pend.last().1;
                    spec_nested_loop(
                        s,
                        j,
                        dc,
                        pend.drop_last().push(
                            (po, group_join(po, pout, PredGroupV::Pred(p2))),
                        ),
                        out,
                        scopes,
                        depth,
                    )
                } else {
                    spec_nested_loop(
                        s,
                        j,
                        dc,
                        pend,
                        group_join(is_or, out, PredGroupV::Pred(p2)),
                        scopes,
                        depth,
                    )
                }
            },
            Ok(None) => match spec_sep_open(s, pos, scopes, depth) {
                Err(e) => Err(e),
                Ok(Some((is_or, n2, t2, j2))) => if j2 <= pos || j2 > s.len() || dc + n2
                    > s.len() {
                    Err(ParseErrorV::Mysterious)
                } else {
                    spec_nested_loop(
                        s,
                        j2,
                        dc + n2,
                        pend.push((is_or, PredGroupV::Pred(t2))),
                        out,
                        scopes,
                        depth,
                    )
                },
                Ok(None) => match spec_compress(s, pos, 41) {
                    None => Err(wrap_at(pos)),
                    Some((n3, p3)) => if p3 <= pos || p3 > s.len() || n3 > s.len() {
                        Err(ParseErrorV::Mysterious)
                    } else {
                        if pend.len() > 0 {
                            let po = pend.last().0;
                            let pout = pend.last().1;
                            spec_nested_loop(
                                s,
                                p3,
                                dc - n3,
                                pend.drop_last(),
                                group_join(po, out, pout),
                                scopes,
                                depth,
                            )
                        } else {
                            spec_nested_loop(s, p3, dc - n3, pend, out, scopes, depth)
                        }
                    },
                },
            },
        }
    }
}

/// A parenthesized predicate expression, read by the nested-expression
/// reader: one or more opening parentheses, a first predicate, then the
/// reader's loop until every parenthesis is closed.
pub open spec fn spec_nested(
    s: Seq<u8>,
    i: int,
    scopes: Seq<Seq<(Seq<u8>, DataV)>>,
    depth: int,
) -> Result<(PredGroupV, int), ParseErrorV>
    decreases s.len() - i, 8int,
{
    if i < 0 || i > s.len() {
        Err(ParseErrorV::Mysterious)
    } else {
        match spec_compress(s, i, 40) {
            None => Err(wrap_at(i)),
            Some((n, p0)) => if p0 <= i || p0 > s.len() || n > s.len() {
                Err(ParseErrorV::Mysterious)
            } else {
                match spec_pred_single(s, p0, scopes, depth) {
                    Err(e) => if is_soft(e) {
                        Err(wrap_at(i))
                    } else {
                        Err(e)
                    },
                    Ok((t, p1)) => if p1 <= i || p1 > s.len() {
                        Err(ParseErrorV::Mysterious)
                    } else {
                        spec_nested_loop(
                            s,
                            p1,
                            n,
                            Seq::empty(),
                            PredGroupV::Pred(t),
                            scopes,
                            depth,
                        )
                    },
                }
            },
        }
    }
}

/// Reads the `operator term` transition.
fn sep_term(s: &Vec<u8>, pos: usize, ctx: &mut Context) -> (r: Result<
    Option<(bool, Predicate, usize)>,
    ParseError,
>)
    requires
        pos <= s@.len(),
    ensures
        final(ctx)@ == old(ctx)@,
        match r {
            Ok(Some((is_or, p, j))) => spec_sep_term(
                s@,
                pos as int,
                old(ctx)@.scopes,
                old(ctx)@.depth,
            ) == Ok::<_, ParseErrorV>(Some((is_or, view_predicate(p), j as int))) && j <= s@.len(),
            Ok(None) => spec_sep_term(s@, pos as int, old(ctx)@.scopes, old(ctx)@.depth)
                == Ok::<Option<(bool, PredicateV, int)>, ParseErrorV>(None),
            Err(e) => spec_sep_term(s@, pos as int, old(ctx)@.scopes, old(ctx)@.depth) == Err::<
                Option<(bool, PredicateV, int)>,
                _,
            >(e@),
        },
{
    let k = eat_opt_spacing(s, pos);
    let op: Option<(bool, usize)> = if k < s.len() && s[k] == '|' as u8 {
        Some((true, k + 1))
    } else if k < s.len() && s[k] == '&' as u8 {
        Some((false, k + 1))
    } else {
        None
    };
    match op {
        None => Ok(None),
        Some((is_or, k1)) => {
            let k2 = eat_opt_spacing(s, k1);
            match predicate_single(s, k2, ctx) {
                Ok((p, j)) => Ok(Some((is_or, p, j))),
                Err(e) => if err_is_soft(&e) {
                    Ok(None)
                } else {
                    Err(e)
                },
            }
        },
    }
}

/// Reads the `operator ( term` transition.
fn sep_open(s: &Vec<u8>, pos: usize, ctx: &mut Context) -> (r: Result<
    Option<(bool, usize, Predicate, usize)>,
    ParseError,
>)
    requires
        pos <= s@.len(),
    ensures
        final(ctx)@ == old(ctx)@,
        match r {
            Ok(Some((is_or, n2, p, j))) => spec_sep_open(
                s@,
                pos as int,
                old(ctx)@.scopes,
                old(ctx)@.depth,
            ) == Ok::<_, ParseErrorV>(Some((is_or, n2 as int, view_predicate(p), j as int))) && j
                <= s@.len(),
            Ok(None) => spec_sep_open(s@, pos as int, old(ctx)@.scopes, old(ctx)@.depth)
                == Ok::<Option<(bool, int, PredicateV, int)>, ParseErrorV>(None),
            Err(e) => spec_sep_open(s@, pos as int, old(ctx)@.scopes, old(ctx)@.depth) == Err::<
                Option<(bool, int, PredicateV, int)>,
                _,
            >(e@),
        },
{
    let k = eat_opt_spacing(s, pos);
    let op: Option<(bool, usize)> = if k < s.len() && s[k] == '|' as u8 {
        Some((true, k + 1))
    } else if k < s.len() && s[k] == '&' as u8 {
        Some((false, k + 1))
    } else {
        None
    };
    match op {
        None => Ok(None),
        Some((is_or, k1)) => {
            let k2 = eat_opt_spacing(s, k1);
            match eat_compress(s, k2, 40) {
                None => Ok(None),
                Some((n2, p2)) => {
                    match predicate_single(s, p2, ctx) {
                        Ok((t2, j2)) => Ok(Some((is_or, n2, t2, j2))),
                        Err(e) => if err_is_soft(&e) {
                            Ok(None)
                        } else {
                            Err(e)
                        },
                    }
                },
            }
        },
    }
}

/// Runs the nested-expression reader's loop.
fn nested_loop(
    s: &Vec<u8>,
    pos: usize,
    state: &mut NestedState<bool, PredGroup>,
    ctx: &mut Context,
) -> (r: Result<(PredGroup, usize), ParseError>)
    requires
        pos <= s@.len(),
    ensures
        final(ctx)@ == old(ctx)@,
        res_group_eq(
            r,
            spec_nested_loop(
                s@,
                pos as int,
                old(state).depth as int,
                view_pendings(old(state).pendings@),
                view_pred_group(old(state).output),
                old(ctx)@.scopes,
                old(ctx)@.depth,
            ),
        ),
        r matches Ok((g, j)) ==> pos <= j <= s@.len(),
    decreases s@.len() - pos, 7int,
{
    if state.depth == 0 {
        let mut out = PredGroup::Empty;
        core::mem::swap(&mut state.output, &mut out);
        return Ok((out, pos));
    }
    match sep_term(s, pos, ctx) {
        Err(e) => Err(e),
        Ok(Some((is_or, p2, j))) => {
            if j <= pos {
                return Err(ParseError::Mysterious);
            }
            proof {
                if old(state).pendings@.len() > 0 {
                    assert(view_pendings(old(state).pendings@).last() == (
                        old(state).pendings@.last().0,
                        view_pred_group(old(state).pendings@.last().1),
                    )) by {
                        assert(view_pendings(old(state).pendings@) == view_pendings(
                            old(state).pendings@.drop_last(),
                        ).push(
                            (
                                old(state).pendings@.last().0,
                                view_pred_group(old(state).pendings@.last().1),
                            ),
                        ));
                    }
                }
            }
            match state.pop() {
                Some((po, pout)) => {
                    proof {
                        assert(view_pendings(old(state).pendings@).drop_last() =~= view_pendings(
                            old(state).pendings@.drop_last(),
                        )) by {
                            assert(view_pendings(old(state).pendings@) == view_pendings(
                                old(state).pendings@.drop_last(),
                            ).push(
                                (
                                    old(state).pendings@.last().0,
                                    view_pred_group(old(state).pendings@.last().1),
                                ),
                            ));
                        }
                    }
                    let joined = group_join_exec(po, pout, PredGroup::Pred(p2));
                    let ghost before_push = state.pendings@;
                    state.push(po, joined);
                    proof {
                        assert(view_pendings(state.pendings@) == view_pendings(
                            before_push,
                        ).push((po, view_pred_group(state.pendings@.last().1)))) by {
                            assert(state.pendings@.drop_last() =~= before_push);
                        }
                    }
                    nested_loop(s, j, state, ctx)
                },
                None => {
                    let mut out = PredGroup::Empty;
                    core::mem::swap(&mut state.output, &mut out);
                    let joined = group_join_exec(is_or, out, PredGroup::Pred(p2));
                    let mut back = joined;
                    core::mem::swap(&mut state.output, &mut back);
                    nested_loop(s, j, state, ctx)
                },
            }
        },
        Ok(None) => match sep_open(s, pos, ctx) {
            Err(e) => Err(e),
            Ok(Some((is_or, n2, t2, j2))) => {
                if j2 <= pos {
                    return Err(ParseError::Mysterious);
                }
                if state.depth > s.len() || n2 > s.len() - state.depth {
                    return Err(ParseError::Mysterious);
                }
                let ghost before_push = state.pendings@;
                state.depth = state.depth + n2;
                state.push(is_or, PredGroup::Pred(t2));
                proof {
                    assert(view_pendings(state.pendings@) == view_pendings(before_push).push(
                        (is_or, view_pred_group(state.pendings@.last().1)),
                    )) by {
                        assert(state.pendings@.drop_last() =~= before_push);
                    }
                }
                nested_loop(s, j2, state, ctx)
            },
            Ok(None) => match eat_compress(s, pos, 41) {
                None => Err(ParseError::Wrap { position: pos }),
                Some((n3, p3)) => {
                    if n3 > s.len() {
                        return Err(ParseError::Mysterious);
                    }
                    proof {
                        if old(state).pendings@.len() > 0 {
                            assert(view_pendings(old(state).pendings@).last() == (
                                old(state).pendings@.last().0,
                                view_pred_group(old(state).pendings@.last().1),
                            ) && view_pendings(old(state).pendings@).drop_last()
                                =~= view_pendings(old(state).pendings@.drop_last())) by {
                                assert(view_pendings(old(state).pendings@) == view_pendings(
                                    old(state).pendings@.drop_last(),
                                ).push(
                                    (
                                        old(state).pendings@.last().0,
                                        view_pred_group(old(state).pendings@.last().1),
                                    ),
                                ));
                            }
                        }
                    }
                    let new_depth: usize = if n3 <= state.depth {
                        state.depth - n3
                    } else {
                        0
                    };
                    let ghost dc_old = state.depth as int;
                    let popped = state.pop();
                    state.depth = new_depth;
                    match popped {
                        Some((po, pout)) => {
                            let mut out = PredGroup::Empty;
                            core::mem::swap(&mut state.output, &mut out);
                            let joined = group_join_exec(po, out, pout);
                            let mut back = joined;
                            core::mem::swap(&mut state.output, &mut back);
                            let r2 = nested_loop(s, p3, state, ctx);
                            proof {
                                if dc_old - n3 < 0 {
                                    assert(spec_nested_loop(
                                        s@,
                                        p3 as int,
                                        dc_old - n3,
                                        view_pendings(old(state).pendings@).drop_last(),
                                        group_join(
                                            po,
                                            view_pred_group(old(state).output),
                                            view_pendings(old(state).pendings@).last().1,
                                        ),
                                        old(ctx)@.scopes,
                                        old(ctx)@.depth,
                                    ) == spec_nested_loop(
                                        s@,
                                        p3 as int,
                                        0,
                                        view_pendings(old(state).pendings@).drop_last(),
                                        group_join(
                                            po,
                                            view_pred_group(old(state).output),
                                            view_pendings(old(state).pendings@).last().1,
                                        ),
                                        old(ctx)@.scopes,
                                        old(ctx)@.depth,
                                    ));
                                }
                            }
                            r2
                        },
                        None => {
                            let r2 = nested_loop(s, p3, state, ctx);
                            proof {
                                if dc_old - n3 < 0 {
                                    assert(spec_nested_loop(
                                        s@,
                                        p3 as int,
                                        dc_old - n3,
                                        view_pendings(old(state).pendings@),
                                        view_pred_group(old(state).output),
                                        old(ctx)@.scopes,
                                        old(ctx)@.depth,
                                    ) == spec_nested_loop(
                                        s@,
                                        p3 as int,
                                        0,
                                        view_pendings(old(state).pendings@),
                                        view_pred_group(old(state).output),
                                        old(ctx)@.scopes,
                                        old(ctx)@.depth,
                                    ));
                                }
                            }
                            r2
                        },
                    }
                },
            },
        },
    }
}

/// Reads a parenthesized predicate expression.
fn nested_pred(s: &Vec<u8>, i: usize, ctx: &mut Context) -> (r: Result<
    (PredGroup, usize),
    ParseError,
>)
    requires
        i <= s@.len(),
    ensures
        final(ctx)@ == old(ctx)@,
        res_group_eq(r, spec_nested(s@, i as int, old(ctx)@.scopes, old(ctx)@.depth)),
        r matches Ok((g, j)) ==> i <= j <= s@.len(),
    decreases s@.len() - i, 8int,
{
    match eat_compress(s, i, 40) {
        None => Err(ParseError::Wrap { position: i }),
        Some((n, p0)) => {
            if n > s.len() {
                return Err(ParseError::Mysterious);
            }
            match predicate_single(s, p0, ctx) {
                Err(e) => if err_is_soft(&e) {
                    Err(ParseError::Wrap { position: i })
                } else {
                    Err(e)
                },
                Ok((t, p1)) => {
                    if p1 <= i {
                        return Err(ParseError::Mysterious);
                    }
                    let mut state = NestedState {
                        depth: n,
                        pendings: Vec::new(),
                        output: PredGroup::Pred(t),
                    };
                    proof {
                        assert(view_pendings(state.pendings@) =~= Seq::<
                            (bool, PredGroupV),
                        >::empty());
                    }
                    nested_loop(s, p1, &mut state, ctx)
                },
            }
        },
    }
}


/// A predicate expression: a parenthesized nested expression, a flat
/// group, or a single predicate, tried in that order, with surrounding
/// spacing consumed.
pub open spec fn spec_any_pred(
    s: Seq<u8>,
    i: int,
    scopes: Seq<Seq<(Seq<u8>, DataV)>>,
    depth: int,
) -> Result<(PredGroupV, int), ParseErrorV>
    decreases s.len() - i, 9int,
{
    if i < 0 || i > s.len() {
        Err(ParseErrorV::Mysterious)
    } else {
        let k0 = spec_opt_spacing(s, i);
        if k0 < i || k0 > s.len() {
            Err(ParseErrorV::Mysterious)
        } else {
            match spec_nested(s, k0, scopes, depth) {
                Ok((g, j)) => Ok((g, spec_opt_spacing(s, j))),
                Err(e1) => if !is_soft(e1) {
                    Err(e1)
                } else {
                    match spec_pred_group(s, k0, scopes, depth) {
                        Ok((g, j)) => Ok((g, spec_opt_spacing(s, j))),
                        Err(e2) => if !is_soft(e2) {
                            Err(e2)
                        } else {
                            match spec_pred_single(s, k0, scopes, depth) {
                                Ok((p, j)) => Ok(
                                    (PredGroupV::Pred(p), spec_opt_spacing(s, j)),
                                ),
                                Err(e3) => Err(e3),
                            }
                        },
                    }
                },
            }
        }
    }
}

/// Reads a predicate expression.
fn any_pred(s: &Vec<u8>, i: usize, ctx: &mut Context) -> (r: Result<
    (PredGroup, usize),
    ParseError,
>)
    requires
        i <= s@.len(),
    ensures
        final(ctx)@ == old(ctx)@,
        res_group_eq(r, spec_any_pred(s@, i as int, old(ctx)@.scopes, old(ctx)@.depth)),
        r matches Ok((g, j)) ==> i <= j <= s@.len(),
    decreases s@.len() - i, 9int,
{
    let k0 = eat_opt_spacing(s, i);
    match nested_pred(s, k0, ctx) {
        Ok((g, j)) => {
            let j2 = eat_opt_spacing(s, j);
            Ok((g, j2))
        },
        Err(e1) => if !err_is_soft(&e1) {
            Err(e1)
        } else {
            match predicate_group(s, k0, ctx) {
                Ok((g, j)) => {
                    let j2 = eat_opt_spacing(s, j);
                    Ok((g, j2))
                },
                Err(e2) => if !err_is_soft(&e2) {
                    Err(e2)
                } else {
                    match predicate_single(s, k0, ctx) {
                        Ok((p, j)) => {
                            let j2 = eat_opt_spacing(s, j);
                            Ok((PredGroup::Pred(p), j2))
                        },
                        Err(e3) => Err(e3),
                    }
                },
            }
        },
    }
}

/// Further `op expression` items of a whole predicate, folded onto `acc`
/// from the left.
pub open spec fn spec_pred_rest(
    s: Seq<u8>,
    pos: int,
    acc: PredGroupV,
    scopes: Seq<Seq<(Seq<u8>, DataV)>>,
    depth: int,
) -> Result<(PredGroupV, int), ParseErrorV>
    decreases s.len() - pos, 10int,
{
    if pos < 0 || pos > s.len() {
        Err(ParseErrorV::Mysterious)
    } else {
        let k1 = spec_opt_spacing(s, pos);
        match spec_group_op(s, k1) {
            None => Ok((acc, pos)),
            Some((is_or, ka)) => {
                let k2 = spec_opt_spacing(s, ka);
                let k3 = spec_opt_spacing(s, k2);
                if k3 <= pos || k3 > s.len() {
                    Err(ParseErrorV::Mysterious)
                } else {
                    match spec_any_pred(s, k3, scopes, depth) {
                        Ok((g2, j)) => {
                            let j2 = spec_opt_spacing(s, j);
                            if j2 <= pos || j2 > s.len() {
                                Err(ParseErrorV::Mysterious)
                            } else {
                                spec_pred_rest(s, j2, group_join(is_or, acc, g2), scopes, depth)
                            }
                        },
                        Err(e) => if is_soft(e) {
                            Ok((acc, pos))
                        } else {
                            Err(e)
                        },
                    }
                }
            },
        }
    }
}

/// A whole predicate: one predicate expression, then any run of
/// `op expression` items folded from the left.
pub open spec fn spec_predicate(
    s: Seq<u8>,
    i: int,
    scopes: Seq<Seq<(Seq<u8>, DataV)>>,
    depth: int,
) -> Result<(PredGroupV, int), ParseErrorV>
    decreases s.len() - i, 11int,
{
    if i < 0 || i > s.len() {
        Err(ParseErrorV::Mysterious)
    } else {
        match spec_any_pred(s, i, scopes, depth) {
            Err(e) => Err(e),
            Ok((g, j)) => if j < i || j > s.len() {
                Err(ParseErrorV::Mysterious)
            } else {
                spec_pred_rest(s, j, g, scopes, depth)
            },
        }
    }
}

/// Reads the rest of a whole predicate onto `acc`.
fn pred_rest(s: &Vec<u8>, pos: usize, acc: PredGroup, ctx: &mut Context) -> (r: Result<
    (PredGroup, usize),
    ParseError,
>)
    requires
        pos <= s@.len(),
    ensures
        final(ctx)@ == old(ctx)@,
        res_group_eq(
            r,
            spec_pred_rest(
                s@,
                pos as int,
                view_pred_group(acc),
                old(ctx)@.scopes,
                old(ctx)@.depth,
            ),
        ),
        r matches Ok((g, j)) ==> pos <= j <= s@.len(),
    decreases s@.len() - pos, 10int,
{
    let k1 = eat_opt_spacing(s, pos);
    let op: Option<(bool, usize)> = if k1 < s.len() && s[k1] == '|' as u8 {
        Some((true, k1 + 1))
    } else if k1 < s.len() && s[k1] == '&' as u8 {
        Some((false, k1 + 1))
    } else {
        None
    };
    match op {
        None => Ok((acc, pos)),
        Some((is_or, ka)) => {
            let k2 = eat_opt_spacing(s, ka);
            let k3 = eat_opt_spacing(s, k2);
            if k3 <= pos {
                return Err(ParseError::Mysterious);
            }
            match any_pred(s, k3, ctx) {
                Ok((g2, j)) => {
                    let j2 = eat_opt_spacing(s, j);
                    if j2 <= pos {
                        return Err(ParseError::Mysterious);
                    }
                    pred_rest(s, j2, group_join_exec(is_or, acc, g2), ctx)
                },
                Err(e) => if err_is_soft(&e) {
                    Ok((acc, pos))
                } else {
                    Err(e)
                },
            }
        },
    }
}

/// Reads a whole predicate.
pub fn predicate(s: &Vec<u8>, i: usize, ctx: &mut Context) -> (r: Result<
    (PredGroup, usize),
    ParseError,
>)
    requires
        i <= s@.len(),
    ensures
        final(ctx)@ == old(ctx)@,
        res_group_eq(r, spec_predicate(s@, i as int, old(ctx)@.scopes, old(ctx)@.depth)),
        r matches Ok((g, j)) ==> i <= j <= s@.len(),
    decreases s@.len() - i, 11int,
{
    match any_pred(s, i, ctx) {
        Err(e) => Err(e),
        Ok((g, j)) => pred_rest(s, j, g, ctx),
    }
}

/// A drawing command: each command parser is tried in turn, a
/// recoverable mismatch passing the turn on.
pub open spec fn spec_command(
    s: Seq<u8>,
    i: int,
    scopes: Seq<Seq<(Seq<u8>, DataV)>>,
    depth: int,
) -> Result<(CommandV, int), ParseErrorV> {
    if i < 0 || i > s.len() {
        Err(ParseErrorV::Mysterious)
    } else if match_at(s, i, kw_clear()) {
        Ok((CommandV::Clear, i + 5))
    } else if match_at(s, i, kw_draw()) {
        Ok((CommandV::DrawGeometry, i + 4))
    } else if match_at(s, i, kw_circle()) {
        spec_circle_cmd(s, i, scopes, depth)
    } else if match_at(s, i, kw_square()) {
        spec_square_cmd(s, i, scopes, depth)
    } else {
        spec_command_paint(s, i, scopes, depth)
    }
}

/// The paint commands: `fill`, `stroke`, `pattern` and `label`.
pub open spec fn spec_command_paint(
    s: Seq<u8>,
    i: int,
    scopes: Seq<Seq<(Seq<u8>, DataV)>>,
    depth: int,
) -> Result<(CommandV, int), ParseErrorV> {
    if match_at(s, i, kw_fill()) {
        spec_fill_cmd(s, i, scopes, depth)
    } else if match_at(s, i, kw_stroke()) {
        spec_stroke_cmd(s, i, scopes, depth)
    } else if match_at(s, i, kw_pattern()) {
        spec_pattern_cmd(s, i, scopes, depth)
    } else if match_at(s, i, kw_label()) {
        spec_label_cmd(s, i, scopes, depth)
    } else {
        Err(wrap_at(i))
    }
}

/// The `circle` command's operand.
#[verifier::opaque]
pub open spec fn spec_circle_cmd(
    s: Seq<u8>,
    i: int,
    scopes: Seq<Seq<(Seq<u8>, DataV)>>,
    depth: int,
) -> Result<(CommandV, int), ParseErrorV> {
    match spec_command_value(s, i, i + 6, scopes, depth) {
        Ok((v, j)) => Ok((CommandV::Circle { radius: v }, j)),
        Err(e) => Err(e),
    }
}

/// The `square` command's operand.
#[verifier::opaque]
pub open spec fn spec_square_cmd(
    s: Seq<u8>,
    i: int,
    scopes: Seq<Seq<(Seq<u8>, DataV)>>,
    depth: int,
) -> Result<(CommandV, int), ParseErrorV> {
    match spec_command_value(s, i, i + 6, scopes, depth) {
        Ok((v, j)) => Ok((CommandV::Square { size: v }, j)),
        Err(e) => Err(e),
    }
}

/// The `fill` command's operand.
#[verifier::opaque]
pub open spec fn spec_fill_cmd(
    s: Seq<u8>,
    i: int,
    scopes: Seq<Seq<(Seq<u8>, DataV)>>,
    depth: int,
) -> Result<(CommandV, int), ParseErrorV> {
    match spec_command_value(s, i, i + 4, scopes, depth) {
        Ok((v, j)) => Ok((CommandV::Fill { color: v }, j)),
        Err(e) => Err(e),
    }
}

/// The `stroke` command's two operands.
#[verifier::opaque]
pub open spec fn spec_stroke_cmd(
    s: Seq<u8>,
    i: int,
    scopes: Seq<Seq<(Seq<u8>, DataV)>>,
    depth: int,
) -> Result<(CommandV, int), ParseErrorV> {
    match spec_command_value(s, i, i + 6, scopes, depth) {
        Ok((color, j1)) => match spec_spacing(s, j1) {
            None => Err(wrap_at(i)),
            Some(k2) => if k2 < 0 || k2 > s.len() {
                Err(ParseErrorV::Mysterious)
            } else {
                match spec_value(s, k2, scopes, depth) {
                    Ok((size, j2)) => Ok((CommandV::Stroke { color, size }, j2)),
                    Err(e) => if is_soft(e) {
                        Err(wrap_at(i))
                    } else {
                        Err(e)
                    },
                }
            },
        },
        Err(e) => Err(e),
    }
}

/// The `pattern` command's operand.
#[verifier::opaque]
pub open spec fn spec_pattern_cmd(
    s: Seq<u8>,
    i: int,
    scopes: Seq<Seq<(Seq<u8>, DataV)>>,
    depth: int,
) -> Result<(CommandV, int), ParseErrorV> {
    match spec_command_value(s, i, i + 7, scopes, depth) {
        Ok((v, j)) => Ok((CommandV::Pattern { path: v }, j)),
        Err(e) => Err(e),
    }
}

/// The `label` command's operand.
#[verifier::opaque]
pub open spec fn spec_label_cmd(
    s: Seq<u8>,
    i: int,
    scopes: Seq<Seq<(Seq<u8>, DataV)>>,
    depth: int,
) -> Result<(CommandV, int), ParseErrorV> {
    match spec_command_value(s, i, i + 5, scopes, depth) {
        Ok((v, j)) => Ok((CommandV::Label { content: v }, j)),
        Err(e) => Err(e),
    }
}

/// A command's value operand: spacing after the keyword, then a value.
/// A recoverable mismatch fails the whole command at its start.
#[verifier::opaque]
pub open spec fn spec_command_value(
    s: Seq<u8>,
    i: int,
    after_kw: int,
    scopes: Seq<Seq<(Seq<u8>, DataV)>>,
    depth: int,
) -> Result<(ValueV, int), ParseErrorV> {
    match spec_spacing(s, after_kw) {
        None => Err(wrap_at(i)),
        Some(k) => if k < 0 || k > s.len() {
            Err(ParseErrorV::Mysterious)
        } else {
            match spec_value(s, k, scopes, depth) {
                Ok((v, j)) => Ok((v, j)),
                Err(e) => if is_soft(e) {
                    Err(wrap_at(i))
                } else {
                    Err(e)
                },
            }
        },
    }
}

/// Whether an executable command result agrees with a specification one.
pub open spec fn res_cmd_eq(
    r: Result<(Command, usize), ParseError>,
    v: Result<(CommandV, int), ParseErrorV>,
) -> bool {
    match (r, v) {
        (Ok((a, j)), Ok((b, p))) => view_command(a) == b && j as int == p,
        (Err(e1), Err(e2)) => e1@ == e2,
        _ => false,
    }
}

/// Reads a command's value operand.
fn command_value(s: &Vec<u8>, i: usize, after_kw: usize, ctx: &mut Context) -> (r: Result<
    (Value, usize),
    ParseError,
>)
    requires
        i <= after_kw <= s@.len(),
    ensures
        final(ctx)@ == old(ctx)@,
        res_value_eq(
            r,
            spec_command_value(
                s@,
                i as int,
                after_kw as int,
                old(ctx)@.scopes,
                old(ctx)@.depth,
            ),
        ),
        r matches Ok((v, j)) ==> i < j <= s@.len(),
{
    proof {
        reveal(spec_command_value);
    }
    match eat_spacing(s, after_kw) {
        None => Err(ParseError::Wrap { position: i }),
        Some(k) => match value(s, k, ctx) {
            Ok((v, j)) => Ok((v, j)),
            Err(e) => if err_is_soft(&e) {
                Err(ParseError::Wrap { position: i })
            } else {
                Err(e)
            },
        },
    }
}

/// Reads a one-operand command, building it with `make`.
fn unary_command(
    s: &Vec<u8>,
    i: usize,
    after_kw: usize,
    kind: u8,
    ctx: &mut Context,
) -> (r: Result<(Command, usize), ParseError>)
    requires
        i <= after_kw <= s@.len(),
        kind < 4,
        kind == 0 ==> after_kw as int == i + 6,
        kind == 1 ==> after_kw as int == i + 6,
        kind == 2 ==> after_kw as int == i + 4,
        kind == 3 ==> after_kw as int == i + 7,
    ensures
        final(ctx)@ == old(ctx)@,
        kind == 0 ==> res_cmd_eq(
            r,
            spec_circle_cmd(s@, i as int, old(ctx)@.scopes, old(ctx)@.depth),
        ),
        kind == 1 ==> res_cmd_eq(
            r,
            spec_square_cmd(s@, i as int, old(ctx)@.scopes, old(ctx)@.depth),
        ),
        kind == 2 ==> res_cmd_eq(
            r,
            spec_fill_cmd(s@, i as int, old(ctx)@.scopes, old(ctx)@.depth),
        ),
        kind == 3 ==> res_cmd_eq(
            r,
            spec_pattern_cmd(s@, i as int, old(ctx)@.scopes, old(ctx)@.depth),
        ),
        r matches Ok((c, j)) ==> i < j <= s@.len(),
{
    proof {
        reveal(spec_circle_cmd);
        reveal(spec_square_cmd);
        reveal(spec_fill_cmd);
        reveal(spec_pattern_cmd);
    }
    match command_value(s, i, after_kw, ctx) {
        Ok((v, j2)) => {
            if kind == 0 {
                Ok((Command::Circle(Circle { radius: v }), j2))
            } else if kind == 1 {
                Ok((Command::Square(Square { size: v }), j2))
            } else if kind == 2 {
                Ok((Command::Fill(Fill { color: v }), j2))
            } else {
                Ok((Command::Pattern(Pattern { path: v }), j2))
            }
        },
        Err(e) => Err(e),
    }
}

/// Reads the `label` command.
fn label_command(s: &Vec<u8>, i: usize, ctx: &mut Context) -> (r: Result<
    (Command, usize),
    ParseError,
>)
    requires
        i + 5 <= s@.len(),
    ensures
        final(ctx)@ == old(ctx)@,
        res_cmd_eq(r, spec_label_cmd(s@, i as int, old(ctx)@.scopes, old(ctx)@.depth)),
        r matches Ok((c, j)) ==> i < j <= s@.len(),
{
    let n = s.len();
    proof {
        reveal(spec_label_cmd);
        assert(n == s@.len());
    }
    match command_value(s, i, i + 5, ctx) {
        Ok((v, j2)) => Ok((Command::Label(Label { content: v }), j2)),
        Err(e) => Err(e),
    }
}

/// Reads the `stroke` command.
fn stroke_command(s: &Vec<u8>, i: usize, ctx: &mut Context) -> (r: Result<
    (Command, usize),
    ParseError,
>)
    requires
        i + 6 <= s@.len(),
    ensures
        final(ctx)@ == old(ctx)@,
        res_cmd_eq(r, spec_stroke_cmd(s@, i as int, old(ctx)@.scopes, old(ctx)@.depth)),
        r matches Ok((c, j)) ==> i < j <= s@.len(),
{
    let n = s.len();
    proof {
        reveal(spec_stroke_cmd);
        assert(n == s@.len());
    }
    match command_value(s, i, i + 6, ctx) {
        Ok((color, j1)) => match eat_spacing(s, j1) {
            None => Err(ParseError::Wrap { position: i }),
            Some(k2) => match value(s, k2, ctx) {
                Ok((size, j2)) => Ok((Command::Stroke(Stroke { color, size }), j2)),
                Err(e) => if err_is_soft(&e) {
                    Err(ParseError::Wrap { position: i })
                } else {
                    Err(e)
                },
            },
        },
        Err(e) => Err(e),
    }
}

/// Reads a drawing command.
#[verifier::rlimit(100)]
#[verifier::spinoff_prover]
fn command(s: &Vec<u8>, i: usize, ctx: &mut Context) -> (r: Result<(Command, usize), ParseError>)
    requires
        i <= s@.len(),
    ensures
        final(ctx)@ == old(ctx)@,
        res_cmd_eq(r, spec_command(s@, i as int, old(ctx)@.scopes, old(ctx)@.depth)),
        r matches Ok((c, j)) ==> i < j <= s@.len(),
{
    let kwc = kw_clear_vec();
    if let Some(j) = eat_token(s, i, &kwc) {
        return Ok((Command::Clear(Clear), j));
    }
    let kwd = kw_draw_vec();
    if let Some(j) = eat_token(s, i, &kwd) {
        return Ok((Command::DrawGeometry(DrawGeometry), j));
    }
    let kwci = kw_circle_vec();
    if let Some(j) = eat_token(s, i, &kwci) {
        return unary_command(s, i, j, 0, ctx);
    }
    let kwsq = kw_square_vec();
    if let Some(j) = eat_token(s, i, &kwsq) {
        return unary_command(s, i, j, 1, ctx);
    }
    command_paint(s, i, ctx)
}

/// Reads a paint command.
#[verifier::rlimit(100)]
#[verifier::spinoff_prover]
fn command_paint(s: &Vec<u8>, i: usize, ctx: &mut Context) -> (r: Result<
    (Command, usize),
    ParseError,
>)
    requires
        i <= s@.len(),
    ensures
        final(ctx)@ == old(ctx)@,
        res_cmd_eq(r, spec_command_paint(s@, i as int, old(ctx)@.scopes, old(ctx)@.depth)),
        r matches Ok((c, j)) ==> i < j <= s@.len(),
{
    let kwf = kw_fill_vec();
    if let Some(j) = eat_token(s, i, &kwf) {
        return unary_command(s, i, j, 2, ctx);
    }
    let kwst = kw_stroke_vec();
    if let Some(j) = eat_token(s, i, &kwst) {
        return stroke_command(s, i, ctx);
    }
    let kwp = kw_pattern_vec();
    if let Some(j) = eat_token(s, i, &kwp) {
        return unary_command(s, i, j, 3, ctx);
    }
    let kwl = kw_label_vec();
    if let Some(j) = eat_token(s, i, &kwl) {
        return label_command(s, i, ctx);
    }
    Err(ParseError::Wrap { position: i })
}


/// `-> command` items of a sym's consequent; stops before an arrow not
/// followed by a command.
pub open spec fn spec_cmds_rest(
    s: Seq<u8>,
    pos: int,
    scopes: Seq<Seq<(Seq<u8>, DataV)>>,
    depth: int,
) -> Result<(Seq<CommandV>, int), ParseErrorV>
    decreases s.len() - pos, 12int,
{
    if pos < 0 || pos > s.len() {
        Err(ParseErrorV::Mysterious)
    } else if match_at(s, pos, kw_arrow()) {
        let p2 = spec_opt_spacing(s, pos + 2);
        if p2 <= pos || p2 > s.len() {
            Err(ParseErrorV::Mysterious)
        } else {
            match spec_command(s, p2, scopes, depth) {
                Ok((c, j2)) => {
                    let j3 = spec_opt_spacing(s, j2);
                    if j3 <= pos || j3 > s.len() {
                        Err(ParseErrorV::Mysterious)
                    } else {
                        match spec_cmds_rest(s, j3, scopes, depth) {
                            Ok((more, e)) => Ok((seq![c] + more, e)),
                            Err(err) => Err(err),
                        }
                    }
                },
                Err(e) => if is_soft(e) {
                    Ok((Seq::empty(), pos))
                } else {
                    Err(e)
                },
            }
        }
    } else {
        Ok((Seq::empty(), pos))
    }
}

/// A `sym` directive: the keyword, a predicate, and one or more
/// `-> command` items.
pub open spec fn spec_sym(
    s: Seq<u8>,
    i: int,
    scopes: Seq<Seq<(Seq<u8>, DataV)>>,
    depth: int,
) -> Result<(SymV, int), ParseErrorV>
    decreases s.len() - i, 13int,
{
    if i < 0 || i > s.len() {
        Err(ParseErrorV::Mysterious)
    } else if match_at(s, i, kw_sym()) {
        match spec_spacing(s, i + 3) {
            None => Err(wrap_at(i)),
            Some(k0) => if k0 <= i || k0 > s.len() {
                Err(ParseErrorV::Mysterious)
            } else {
                match spec_predicate(s, k0, scopes, depth) {
                    Err(e) => Err(e),
                    Ok((pg, j)) => {
                        let j0 = spec_opt_spacing(s, j);
                        if j0 <= i || j0 > s.len() {
                            Err(ParseErrorV::Mysterious)
                        } else {
                            match spec_cmds_rest(s, j0, scopes, depth) {
                                Err(e) => Err(e),
                                Ok((cmds, e)) => if cmds.len() == 0 {
                                    Err(wrap_at(j0))
                                } else {
                                    Ok((SymV { predicate: pg, consequent: cmds }, e))
                                },
                            }
                        }
                    },
                }
            },
        }
    } else {
        Err(wrap_at(i))
    }
}

/// Whether an executable sym result agrees with a specification one.
pub open spec fn res_sym_eq(
    r: Result<(Sym, usize), ParseError>,
    v: Result<(SymV, int), ParseErrorV>,
) -> bool {
    match (r, v) {
        (Ok((a, j)), Ok((b, p))) => a@ == b && j as int == p,
        (Err(e1), Err(e2)) => e1@ == e2,
        _ => false,
    }
}

/// Reads the `-> command` items of a consequent.
fn cmds_rest(s: &Vec<u8>, pos: usize, ctx: &mut Context) -> (r: Result<
    (Vec<Command>, usize),
    ParseError,
>)
    requires
        pos <= s@.len(),
    ensures
        final(ctx)@ == old(ctx)@,
        match (
            r,
            spec_cmds_rest(s@, pos as int, old(ctx)@.scopes, old(ctx)@.depth),
        ) {
            (Ok((a, j)), Ok((b, p))) => view_commands(a@) == b && j as int == p && pos <= j
                <= s@.len(),
            (Err(e1), Err(e2)) => e1@ == e2,
            _ => false,
        },
    decreases s@.len() - pos, 12int,
{
    let kwa = kw_arrow_vec();
    match eat_token(s, pos, &kwa) {
        None => {
            proof {
                assert(view_commands(Seq::<Command>::empty()) =~= Seq::<CommandV>::empty());
            }
            Ok((Vec::new(), pos))
        },
        Some(a) => {
            let p2 = eat_opt_spacing(s, a);
            if p2 <= pos {
                return Err(ParseError::Mysterious);
            }
            match command(s, p2, ctx) {
                Ok((c, j2)) => {
                    let j3 = eat_opt_spacing(s, j2);
                    if j3 <= pos {
                        return Err(ParseError::Mysterious);
                    }
                    match cmds_rest(s, j3, ctx) {
                        Ok((mut more, e)) => {
                            let ghost cv = view_command(c);
                            let mut out: Vec<Command> = Vec::new();
                            out.push(c);
                            let ghost single = out@;
                            let ghost more_old = more@;
                            out.append(&mut more);
                            proof {
                                assert(single =~= Seq::<Command>::empty().push(c));
                                assert(out@ =~= single + more_old);
                                assert(view_commands(out@) =~= seq![cv] + view_commands(
                                    more_old,
                                ));
                            }
                            Ok((out, e))
                        },
                        Err(err) => Err(err),
                    }
                },
                Err(e) => if err_is_soft(&e) {
                    proof {
                        assert(view_commands(Seq::<Command>::empty()) =~= Seq::<
                            CommandV,
                        >::empty());
                    }
                    Ok((Vec::new(), pos))
                } else {
                    Err(e)
                },
            }
        },
    }
}

/// Reads a `sym` directive.
fn symbology(s: &Vec<u8>, i: usize, ctx: &mut Context) -> (r: Result<(Sym, usize), ParseError>)
    requires
        i <= s@.len(),
    ensures
        final(ctx)@ == old(ctx)@,
        res_sym_eq(r, spec_sym(s@, i as int, old(ctx)@.scopes, old(ctx)@.depth)),
        r matches Ok((y, j)) ==> i < j <= s@.len(),
    decreases s@.len() - i, 13int,
{
    let kws = kw_sym_vec();
    match eat_token(s, i, &kws) {
        None => Err(ParseError::Wrap { position: i }),
        Some(a) => match eat_spacing(s, a) {
            None => Err(ParseError::Wrap { position: i }),
            Some(k0) => {
                if k0 <= i {
                    return Err(ParseError::Mysterious);
                }
                match predicate(s, k0, ctx) {
                    Err(e) => Err(e),
                    Ok((pg, j)) => {
                        let j0 = eat_opt_spacing(s, j);
                        if j0 <= i {
                            return Err(ParseError::Mysterious);
                        }
                        match cmds_rest(s, j0, ctx) {
                            Err(e) => Err(e),
                            Ok((cmds, e)) => if cmds.len() == 0 {
                                Err(ParseError::Wrap { position: j0 })
                            } else {
                                Ok((Sym { predicate: pg, consequent: cmds }, e))
                            },
                        }
                    },
                }
            },
        },
    }
}


/// The scope stack with its innermost scope closed.
pub open spec fn popped(c: ContextV) -> ContextV {
    ContextV {
        scopes: if c.scopes.len() > 0 {
            c.scopes.drop_last()
        } else {
            c.scopes
        },
        ..c
    }
}

/// A layer-block directive: a source, a data declaration, or a sym rule,
/// tried in that order.
#[verifier::opaque]
pub open spec fn spec_directive(s: Seq<u8>, i: int, ctx: ContextV) -> Result<
    (DirectiveV, int, ContextV),
    ParseErrorV,
> {
    match spec_source(s, i) {
        Some((src, j)) => Ok((DirectiveV::Source(src), j, ctx)),
        None => match spec_data_dir(s, i, ctx) {
            Ok((d, j, ctx2)) => Ok((DirectiveV::Data(d), j, ctx2)),
            Err(e) => if is_soft(e) {
                match spec_sym(s, i, ctx.scopes, ctx.depth) {
                    Ok((y, j)) => Ok((DirectiveV::Sym(y), j, ctx)),
                    Err(e2) => Err(e2),
                }
            } else {
                Err(e)
            },
        },
    }
}

/// A map-block directive: an srid, an extent, or a data declaration,
/// tried in that order.
#[verifier::opaque]
pub open spec fn spec_map_dir(s: Seq<u8>, i: int, ctx: ContextV) -> Result<
    (DirectiveV, int, ContextV),
    ParseErrorV,
> {
    match spec_srid(s, i) {
        Some((v, j)) => Ok((DirectiveV::Srid(v), j, ctx)),
        None => match spec_extent(s, i) {
            Some((v, j)) => Ok((DirectiveV::Extent(v), j, ctx)),
            None => match spec_data_dir(s, i, ctx) {
                Ok((d, j, ctx2)) => Ok((DirectiveV::Data(d), j, ctx2)),
                Err(e) => Err(e),
            },
        },
    }
}

/// Whether an executable directive result and context agree with a
/// specification one.
pub open spec fn res_dir_eq(
    r: Result<(Directive, usize), ParseError>,
    c2: ContextV,
    v: Result<(DirectiveV, int, ContextV), ParseErrorV>,
) -> bool {
    match (r, v) {
        (Ok((a, j)), Ok((b, p, c3))) => view_directive(a) == b && j as int == p && c2 == c3,
        (Err(e1), Err(e2)) => e1@ == e2,
        _ => false,
    }
}

/// Reads a layer-block directive.
fn directive(s: &Vec<u8>, i: usize, ctx: &mut Context) -> (r: Result<
    (Directive, usize),
    ParseError,
>)
    requires
        i <= s@.len(),
    ensures
        res_dir_eq(r, final(ctx)@, spec_directive(s@, i as int, old(ctx)@)),
        r matches Err(e) ==> final(ctx)@ == old(ctx)@,
        r matches Ok((d, j)) ==> i < j <= s@.len(),
{
    proof {
        reveal(spec_directive);
    }
    match eat_source(s, i) {
        Some((src, j)) => Ok((Directive::Source(src), j)),
        None => match data(s, i, ctx) {
            Ok((d, j)) => Ok((Directive::Data(d), j)),
            Err(e) => if err_is_soft(&e) {
                match symbology(s, i, ctx) {
                    Ok((y, j)) => Ok((Directive::Sym(y), j)),
                    Err(e2) => Err(e2),
                }
            } else {
                Err(e)
            },
        },
    }
}

/// Reads a map-block directive.
fn map_dir(s: &Vec<u8>, i: usize, ctx: &mut Context) -> (r: Result<
    (Directive, usize),
    ParseError,
>)
    requires
        i <= s@.len(),
    ensures
        res_dir_eq(r, final(ctx)@, spec_map_dir(s@, i as int, old(ctx)@)),
        r matches Err(e) ==> final(ctx)@ == old(ctx)@,
        r matches Ok((d, j)) ==> i < j <= s@.len(),
{
    proof {
        reveal(spec_map_dir);
    }
    match eat_srid(s, i) {
        Some((v, j)) => Ok((Directive::Srid(v), j)),
        None => match eat_extent(s, i) {
            Some((v, j)) => Ok((Directive::Extent(v), j)),
            None => match data(s, i, ctx) {
                Ok((d, j)) => Ok((Directive::Data(d), j)),
                Err(e) => Err(e),
            },
        },
    }
}

/// Further map-block directives, each on its own line; stops before a
/// line ending not followed by a directive.
#[verifier::opaque]
pub open spec fn spec_map_dirs_rest(s: Seq<u8>, pos: int, ctx: ContextV) -> Result<
    (Seq<DirectiveV>, int, ContextV),
    ParseErrorV,
>
    decreases s.len() - pos, 15int,
{
    if pos < 0 || pos > s.len() {
        Err(ParseErrorV::Mysterious)
    } else {
        match spec_trailing_space(s, pos) {
            None => Ok((Seq::empty(), pos, ctx)),
            Some(k) => if k <= pos || k > s.len() {
                Err(ParseErrorV::Mysterious)
            } else {
                match spec_map_dir(s, k, ctx) {
                    Ok((d, j, ctx2)) => if j <= pos || j > s.len() {
                        Err(ParseErrorV::Mysterious)
                    } else {
                        match spec_map_dirs_rest(s, j, ctx2) {
                            Ok((more, e, ctx3)) => Ok((seq![d] + more, e, ctx3)),
                            Err(err) => Err(err),
                        }
                    },
                    Err(e) => if is_soft(e) {
                        Ok((Seq::empty(), pos, ctx))
                    } else {
                        Err(e)
                    },
                }
            },
        }
    }
}

/// The map block: the `map` keyword on its own line, then its
/// directives, one per line.
#[verifier::opaque]
pub open spec fn spec_map_block(s: Seq<u8>, i: int, ctx: ContextV) -> Result<
    (Seq<DirectiveV>, int, ContextV),
    ParseErrorV,
>
    decreases s.len() - i, 16int,
{
    if i < 0 || i > s.len() {
        Err(ParseErrorV::Mysterious)
    } else if match_at(s, i, kw_map()) {
        match spec_eol(s, i + 3) {
            None => Err(wrap_at(i)),
            Some(p0) => if p0 <= i || p0 > s.len() {
                Err(ParseErrorV::Mysterious)
            } else {
                match spec_map_dir(s, p0, ctx) {
                    Ok((d, j, ctx2)) => if j <= p0 || j > s.len() {
                        Err(ParseErrorV::Mysterious)
                    } else {
                        match spec_map_dirs_rest(s, j, ctx2) {
                            Ok((more, e, ctx3)) => Ok((seq![d] + more, e, ctx3)),
                            Err(err) => Err(err),
                        }
                    },
                    Err(e) => if is_soft(e) {
                        Ok((Seq::empty(), p0, ctx))
                    } else {
                        Err(e)
                    },
                }
            },
        }
    } else {
        Err(wrap_at(i))
    }
}

/// Whether an executable directive-list result and context agree with a
/// specification one.
pub open spec fn res_dirs_eq(
    r: Result<(Vec<Directive>, usize), ParseError>,
    c2: ContextV,
    v: Result<(Seq<DirectiveV>, int, ContextV), ParseErrorV>,
) -> bool {
    match (r, v) {
        (Ok((a, j)), Ok((b, p, c3))) => view_directives(a@) == b && j as int == p && c2 == c3,
        (Err(e1), Err(e2)) => e1@ == e2,
        _ => false,
    }
}

/// Reads further map-block directives.
fn map_dirs_rest(s: &Vec<u8>, pos: usize, ctx: &mut Context) -> (r: Result<
    (Vec<Directive>, usize),
    ParseError,
>)
    requires
        pos <= s@.len(),
    ensures
        res_dirs_eq(r, final(ctx)@, spec_map_dirs_rest(s@, pos as int, old(ctx)@)),
        r matches Ok((a, j)) ==> pos <= j <= s@.len(),
    decreases s@.len() - pos, 15int,
{
    proof {
        reveal(spec_map_dirs_rest);
    }
    match eat_trailing_space(s, pos) {
        None => {
            proof {
                assert(view_directives(Seq::<Directive>::empty()) =~= Seq::<
                    DirectiveV,
                >::empty());
            }
            Ok((Vec::new(), pos))
        },
        Some(k) => {
            match map_dir(s, k, ctx) {
                Ok((d, j)) => {
                    if j <= pos {
                        return Err(ParseError::Mysterious);
                    }
                    match map_dirs_rest(s, j, ctx) {
                        Ok((mut more, e)) => {
                            let ghost dv = view_directive(d);
                            let mut out: Vec<Directive> = Vec::new();
                            out.push(d);
                            let ghost single = out@;
                            let ghost more_old = more@;
                            out.append(&mut more);
                            proof {
                                assert(single =~= Seq::<Directive>::empty().push(d));
                                assert(out@ =~= single + more_old);
                                assert(view_directives(out@) =~= seq![dv] + view_directives(
                                    more_old,
                                ));
                            }
                            Ok((out, e))
                        },
                        Err(err) => Err(err),
                    }
                },
                Err(e) => if err_is_soft(&e) {
                    proof {
                        assert(view_directives(Seq::<Directive>::empty()) =~= Seq::<
                            DirectiveV,
                        >::empty());
                    }
                    Ok((Vec::new(), pos))
                } else {
                    Err(e)
                },
            }
        },
    }
}

/// Reads the map block.
pub fn map_block(s: &Vec<u8>, i: usize, ctx: &mut Context) -> (r: Result<
    (MapBlock, usize),
    ParseError,
>)
    requires
        i <= s@.len(),
    ensures
        match (r, spec_map_block(s@, i as int, old(ctx)@)) {
            (Ok((a, j)), Ok((b, p, c3))) => a@.directives == b && j as int == p && final(ctx)@
                == c3,
            (Err(e1), Err(e2)) => e1@ == e2,
            _ => false,
        },
        r matches Ok((a, j)) ==> i < j <= s@.len(),
{
    proof {
        reveal(spec_map_block);
    }
    let kwm = kw_map_vec();
    match eat_token(s, i, &kwm) {
        None => Err(ParseError::Wrap { position: i }),
        Some(a) => match eat_eol(s, a) {
            None => Err(ParseError::Wrap { position: i }),
            Some(p0) => {
                match map_dir(s, p0, ctx) {
                    Ok((d, j)) => {
                        if j <= p0 {
                            return Err(ParseError::Mysterious);
                        }
                        match map_dirs_rest(s, j, ctx) {
                            Ok((mut more, e)) => {
                                let ghost dv = view_directive(d);
                                let mut out: Vec<Directive> = Vec::new();
                                out.push(d);
                                let ghost single = out@;
                                let ghost more_old = more@;
                                out.append(&mut more);
                                proof {
                                    assert(single =~= Seq::<Directive>::empty().push(d));
                                    assert(out@ =~= single + more_old);
                                    assert(view_directives(out@) =~= seq![dv]
                                        + view_directives(more_old));
                                }
                                Ok((MapBlock { directives: out }, e))
                            },
                            Err(err) => Err(err),
                        }
                    },
                    Err(e) => if err_is_soft(&e) {
                        proof {
                            assert(view_directives(Seq::<Directive>::empty()) =~= Seq::<
                                DirectiveV,
                            >::empty());
                        }
                        Ok((MapBlock { directives: Vec::new() }, p0))
                    } else {
                        Err(e)
                    },
                }
            },
        },
    }
}

/// Further layer-block directives, each on its own line.
#[verifier::opaque]
pub open spec fn spec_layer_dirs_rest(s: Seq<u8>, pos: int, ctx: ContextV) -> Result<
    (Seq<DirectiveV>, int, ContextV),
    ParseErrorV,
>
    decreases s.len() - pos, 17int,
{
    if pos < 0 || pos > s.len() {
        Err(ParseErrorV::Mysterious)
    } else {
        match spec_trailing_space(s, pos) {
            None => Ok((Seq::empty(), pos, ctx)),
            Some(k) => if k <= pos || k > s.len() {
                Err(ParseErrorV::Mysterious)
            } else {
                match spec_directive(s, k, ctx) {
                    Ok((d, j, ctx2)) => if j <= pos || j > s.len() {
                        Err(ParseErrorV::Mysterious)
                    } else {
                        match spec_layer_dirs_rest(s, j, ctx2) {
                            Ok((more, e, ctx3)) => Ok((seq![d] + more, e, ctx3)),
                            Err(err) => Err(err),
                        }
                    },
                    Err(e) => if is_soft(e) {
                        Ok((Seq::empty(), pos, ctx))
                    } else {
                        Err(e)
                    },
                }
            },
        }
    }
}

/// The directives of a layer block: a first directive, then further
/// ones, each on its own line.  A first directive that merely
/// mismatches leaves the block empty.
#[verifier::opaque]
pub open spec fn spec_layer_body(s: Seq<u8>, p0: int, ctx: ContextV) -> Result<
    (Seq<DirectiveV>, int, ContextV),
    ParseErrorV,
>
    decreases s.len() - p0, 18int,
{
    if p0 < 0 || p0 > s.len() {
        Err(ParseErrorV::Mysterious)
    } else {
        match spec_directive(s, p0, ctx) {
            Ok((d, j, ctx2)) => if j <= p0 || j > s.len() {
                Err(ParseErrorV::Mysterious)
            } else {
                match spec_layer_dirs_rest(s, j, ctx2) {
                    Ok((more, e, ctx3)) => Ok((seq![d] + more, e, ctx3)),
                    Err(err) => Err(err),
                }
            },
            Err(e) => if is_soft(e) {
                Ok((Seq::empty(), p0, ctx))
            } else {
                Err(e)
            },
        }
    }
}

/// A layer block: the `layer` keyword on its own line, then its
/// directives parsed inside a scope of their own, closed again when the
/// block ends, whether it parses or not.
#[verifier::opaque]
pub open spec fn spec_layer(s: Seq<u8>, i: int, ctx: ContextV) -> Result<
    (Seq<DirectiveV>, int, ContextV),
    ParseErrorV,
>
    decreases s.len() - i, 18int,
{
    if i < 0 || i > s.len() {
        Err(ParseErrorV::Mysterious)
    } else if match_at(s, i, kw_layer()) {
        match spec_trailing_space(s, i + 5) {
            None => Err(wrap_at(i)),
            Some(p0) => if p0 <= i || p0 > s.len() {
                Err(ParseErrorV::Mysterious)
            } else {
                let ctx1 = ContextV {
                    scopes: ctx.scopes.push(Seq::empty()),
                    ..ctx
                };
                match spec_layer_body(s, p0, ctx1) {
                    Ok((ds, e, ctx3)) => Ok((ds, e, popped(ctx3))),
                    Err(err) => Err(err),
                }
            },
        }
    } else {
        Err(wrap_at(i))
    }
}

/// Reads further layer-block directives.
fn layer_dirs_rest(s: &Vec<u8>, pos: usize, ctx: &mut Context) -> (r: Result<
    (Vec<Directive>, usize),
    ParseError,
>)
    requires
        pos <= s@.len(),
    ensures
        res_dirs_eq(r, final(ctx)@, spec_layer_dirs_rest(s@, pos as int, old(ctx)@)),
        r matches Ok((a, j)) ==> pos <= j <= s@.len(),
        r matches Err(e) ==> !is_soft(e@),
    decreases s@.len() - pos, 17int,
{
    proof {
        reveal(spec_layer_dirs_rest);
    }
    match eat_trailing_space(s, pos) {
        None => {
            proof {
                assert(view_directives(Seq::<Directive>::empty()) =~= Seq::<
                    DirectiveV,
                >::empty());
            }
            Ok((Vec::new(), pos))
        },
        Some(k) => {
            match directive(s, k, ctx) {
                Ok((d, j)) => {
                    if j <= pos {
                        return Err(ParseError::Mysterious);
                    }
                    match layer_dirs_rest(s, j, ctx) {
                        Ok((mut more, e)) => {
                            let ghost dv = view_directive(d);
                            let mut out: Vec<Directive> = Vec::new();
                            out.push(d);
                            let ghost single = out@;
                            let ghost more_old = more@;
                            out.append(&mut more);
                            proof {
                                assert(single =~= Seq::<Directive>::empty().push(d));
                                assert(out@ =~= single + more_old);
                                assert(view_directives(out@) =~= seq![dv] + view_directives(
                                    more_old,
                                ));
                            }
                            Ok((out, e))
                        },
                        Err(err) => Err(err),
                    }
                },
                Err(e) => if err_is_soft(&e) {
                    proof {
                        assert(view_directives(Seq::<Directive>::empty()) =~= Seq::<
                            DirectiveV,
                        >::empty());
                    }
                    Ok((Vec::new(), pos))
                } else {
                    Err(e)
                },
            }
        },
    }
}

/// Reads the directives of a layer block.
fn layer_body(s: &Vec<u8>, p0: usize, ctx: &mut Context) -> (r: Result<
    (Vec<Directive>, usize),
    ParseError,
>)
    requires
        p0 <= s@.len(),
    ensures
        res_dirs_eq(r, final(ctx)@, spec_layer_body(s@, p0 as int, old(ctx)@)),
        r matches Ok((a, j)) ==> p0 <= j <= s@.len(),
        r matches Err(e) ==> !is_soft(e@),
{
    proof {
        reveal(spec_layer_body);
    }
    match directive(s, p0, ctx) {
        Ok((d, j)) => {
            if j <= p0 {
                return Err(ParseError::Mysterious);
            }
            match layer_dirs_rest(s, j, ctx) {
                Ok((mut more, e)) => {
                    let ghost dv = view_directive(d);
                    let mut out: Vec<Directive> = Vec::new();
                    out.push(d);
                    let ghost single = out@;
                    let ghost more_old = more@;
                    out.append(&mut more);
                    proof {
                        assert(single =~= Seq::<Directive>::empty().push(d));
                        assert(out@ =~= single + more_old);
                        assert(view_directives(out@) =~= seq![dv] + view_directives(more_old));
                    }
                    Ok((out, e))
                },
                Err(err) => Err(err),
            }
        },
        Err(e) => if err_is_soft(&e) {
            proof {
                assert(view_directives(Seq::<Directive>::empty()) =~= Seq::<
                    DirectiveV,
                >::empty());
            }
            Ok((Vec::new(), p0))
        } else {
            Err(e)
        },
    }
}

/// Reads a layer block.
#[verifier::rlimit(100)]
#[verifier::spinoff_prover]
pub fn layer(s: &Vec<u8>, i: usize, ctx: &mut Context) -> (r: Result<
    (LayerBlock, usize),
    ParseError,
>)
    requires
        i <= s@.len(),
    ensures
        match (r, spec_layer(s@, i as int, old(ctx)@)) {
            (Ok((a, j)), Ok((b, p, c3))) => a@.directives == b && j as int == p && final(ctx)@
                == c3,
            (Err(e1), Err(e2)) => e1@ == e2,
            _ => false,
        },
        r matches Err(e) ==> is_soft(e@) ==> final(ctx)@ == old(ctx)@,
        r matches Ok((a, j)) ==> i < j <= s@.len(),
{
    proof {
        reveal(spec_layer);
    }
    let kwl = kw_layer_vec();
    match eat_token(s, i, &kwl) {
        None => Err(ParseError::Wrap { position: i }),
        Some(a) => match eat_trailing_space(s, a) {
            None => Err(ParseError::Wrap { position: i }),
            Some(p0) => {
                let ghost ctx_in = ctx@;
                ctx.push_scope();
                proof {
                    assert(ctx@ == (ContextV {
                        scopes: ctx_in.scopes.push(Seq::<(Seq<u8>, DataV)>::empty()),
                        ..ctx_in
                    }));
                }
                let r = layer_body(s, p0, ctx);
                let ghost ctx_mid = ctx@;
                ctx.pop_scope();
                proof {
                    assert(ctx@ == popped(ctx_mid));
                }
                match r {
                    Ok((ds, e)) => Ok((LayerBlock { directives: ds }, e)),
                    Err(e) => Err(e),
                }
            },
        },
    }
}


/// Further layer blocks, each after a block separator; stops before a
/// separator not followed by a layer.
#[verifier::opaque]
pub open spec fn spec_layers_rest(s: Seq<u8>, pos: int, ctx: ContextV) -> Result<
    (Seq<LayerBlockV>, int, ContextV),
    ParseErrorV,
>
    decreases s.len() - pos, 19int,
{
    if pos < 0 || pos > s.len() {
        Err(ParseErrorV::Mysterious)
    } else {
        match spec_block_sep(s, pos) {
            None => Ok((Seq::empty(), pos, ctx)),
            Some(k) => if k <= pos || k > s.len() {
                Err(ParseErrorV::Mysterious)
            } else {
                match spec_layer(s, k, ctx) {
                    Ok((lds, j, ctx2)) => if j <= pos || j > s.len() {
                        Err(ParseErrorV::Mysterious)
                    } else {
                        match spec_layers_rest(s, j, ctx2) {
                            Ok((more, e, ctx3)) => Ok(
                                (seq![LayerBlockV { directives: lds }] + more, e, ctx3),
                            ),
                            Err(err) => Err(err),
                        }
                    },
                    Err(e) => if is_soft(e) {
                        Ok((Seq::empty(), pos, ctx))
                    } else {
                        Err(e)
                    },
                }
            },
        }
    }
}

/// The layer blocks of a map specification.
#[verifier::opaque]
pub open spec fn spec_layers(s: Seq<u8>, i: int, ctx: ContextV) -> Result<
    (Seq<LayerBlockV>, int, ContextV),
    ParseErrorV,
>
    decreases s.len() - i, 20int,
{
    if i < 0 || i > s.len() {
        Err(ParseErrorV::Mysterious)
    } else {
        match spec_layer(s, i, ctx) {
            Ok((lds, j, ctx2)) => if j <= i || j > s.len() {
                Err(ParseErrorV::Mysterious)
            } else {
                match spec_layers_rest(s, j, ctx2) {
                    Ok((more, e, ctx3)) => Ok(
                        (seq![LayerBlockV { directives: lds }] + more, e, ctx3),
                    ),
                    Err(err) => Err(err),
                }
            },
            Err(e) => if is_soft(e) {
                Ok((Seq::empty(), i, ctx))
            } else {
                Err(e)
            },
        }
    }
}

/// What parsing a whole map specification yields.  A scope is opened for
/// the map block's bindings and stays open, so they are in scope for
/// every layer.  The whole input must be consumed and at least one layer
/// block must be present.
#[verifier::opaque]
pub open spec fn spec_parse(s: Seq<u8>, ctx: ContextV) -> Result<
    (MapSpecV, ContextV),
    ParseErrorV,
> {
    let ctx1 = ContextV { scopes: ctx.scopes.push(Seq::empty()), ..ctx };
    match spec_map_block(s, 0, ctx1) {
        Err(e) => Err(e),
        Ok((mdirs, p1, ctx2)) => match spec_block_sep(s, p1) {
            None => Err(wrap_at(p1)),
            Some(p2) => if p2 <= p1 || p2 > s.len() {
                Err(ParseErrorV::Mysterious)
            } else {
                match spec_layers(s, p2, ctx2) {
                    Err(e) => Err(e),
                    Ok((ls, e, ctx3)) => if e == s.len() && ls.len() > 0 {
                        Ok(
                            (
                                MapSpecV {
                                    map: MapBlockV { directives: mdirs },
                                    layers: ls,
                                },
                                ctx3,
                            ),
                        )
                    } else {
                        Err(wrap_at(e))
                    },
                }
            },
        },
    }
}

/// Whether an executable layer-list result and context agree with a
/// specification one.
pub open spec fn res_layers_eq(
    r: Result<(Vec<LayerBlock>, usize), ParseError>,
    c2: ContextV,
    v: Result<(Seq<LayerBlockV>, int, ContextV), ParseErrorV>,
) -> bool {
    match (r, v) {
        (Ok((a, j)), Ok((b, p, c3))) => a@.map(|i: int, l: LayerBlock| l@) == b && j as int == p
            && c2 == c3,
        (Err(e1), Err(e2)) => e1@ == e2,
        _ => false,
    }
}

/// Reads further layer blocks.
fn layers_rest(s: &Vec<u8>, pos: usize, ctx: &mut Context) -> (r: Result<
    (Vec<LayerBlock>, usize),
    ParseError,
>)
    requires
        pos <= s@.len(),
    ensures
        res_layers_eq(r, final(ctx)@, spec_layers_rest(s@, pos as int, old(ctx)@)),
        r matches Ok((a, j)) ==> pos <= j <= s@.len(),
    decreases s@.len() - pos, 19int,
{
    proof {
        reveal(spec_layers_rest);
    }
    match eat_block_sep(s, pos) {
        None => {
            proof {
                assert(Seq::<LayerBlock>::empty().map(|i: int, l: LayerBlock| l@) =~= Seq::<
                    LayerBlockV,
                >::empty());
            }
            Ok((Vec::new(), pos))
        },
        Some(k) => {
            match layer(s, k, ctx) {
                Ok((lb, j)) => {
                    if j <= pos {
                        return Err(ParseError::Mysterious);
                    }
                    match layers_rest(s, j, ctx) {
                        Ok((mut more, e)) => {
                            let ghost lv = lb@;
                            let mut out: Vec<LayerBlock> = Vec::new();
                            out.push(lb);
                            let ghost single = out@;
                            let ghost more_old = more@;
                            out.append(&mut more);
                            proof {
                                assert(single =~= Seq::<LayerBlock>::empty().push(
                                    single.last(),
                                ));
                                assert(out@ =~= single + more_old);
                                assert(out@.map(|i: int, l: LayerBlock| l@) =~= seq![lv]
                                    + more_old.map(|i: int, l: LayerBlock| l@));
                            }
                            Ok((out, e))
                        },
                        Err(err) => Err(err),
                    }
                },
                Err(e) => if err_is_soft(&e) {
                    proof {
                        assert(Seq::<LayerBlock>::empty().map(|i: int, l: LayerBlock| l@)
                            =~= Seq::<LayerBlockV>::empty());
                    }
                    Ok((Vec::new(), pos))
                } else {
                    Err(e)
                },
            }
        },
    }
}

/// Reads the layer blocks of a map specification.
fn layers(s: &Vec<u8>, i: usize, ctx: &mut Context) -> (r: Result<
    (Vec<LayerBlock>, usize),
    ParseError,
>)
    requires
        i <= s@.len(),
    ensures
        res_layers_eq(r, final(ctx)@, spec_layers(s@, i as int, old(ctx)@)),
        r matches Ok((a, j)) ==> i <= j <= s@.len(),
    decreases s@.len() - i, 20int,
{
    proof {
        reveal(spec_layers);
    }
    match layer(s, i, ctx) {
        Ok((lb, j)) => {
            if j <= i {
                return Err(ParseError::Mysterious);
            }
            match layers_rest(s, j, ctx) {
                Ok((mut more, e)) => {
                    let ghost lv = lb@;
                    let mut out: Vec<LayerBlock> = Vec::new();
                    out.push(lb);
                    let ghost single = out@;
                    let ghost more_old = more@;
                    out.append(&mut more);
                    proof {
                        assert(single =~= Seq::<LayerBlock>::empty().push(single.last()));
                        assert(out@ =~= single + more_old);
                        assert(out@.map(|i: int, l: LayerBlock| l@) =~= seq![lv]
                            + more_old.map(|i: int, l: LayerBlock| l@));
                    }
                    Ok((out, e))
                },
                Err(err) => Err(err),
            }
        },
        Err(e) => if err_is_soft(&e) {
            proof {
                assert(Seq::<LayerBlock>::empty().map(|i: int, l: LayerBlock| l@) =~= Seq::<
                    LayerBlockV,
                >::empty());
            }
            Ok((Vec::new(), i))
        } else {
            Err(e)
        },
    }
}

/// Parses a whole map specification.  The scope the map block's
/// bindings live in is opened here and left open, so that they stay in
/// scope for every layer.
#[verifier::rlimit(100)]
#[verifier::spinoff_prover]
pub fn parse(src: &Vec<u8>, ctx: &mut Context) -> (r: Result<MapSpec, ParseError>)
    ensures
        match (r, spec_parse(src@, old(ctx)@)) {
            (Ok(ms), Ok((b, c3))) => ms@ == b && final(ctx)@ == c3,
            (Err(e1), Err(e2)) => e1@ == e2,
            _ => false,
        },
{
    proof {
        reveal(spec_parse);
    }
    let ghost ctx_in = ctx@;
    ctx.push_scope();
    proof {
        assert(ctx@ == (ContextV {
            scopes: ctx_in.scopes.push(Seq::<(Seq<u8>, DataV)>::empty()),
            ..ctx_in
        }));
    }
    match map_block(src, 0, ctx) {
        Err(e) => Err(e),
        Ok((mb, p1)) => match eat_block_sep(src, p1) {
            None => Err(ParseError::Wrap { position: p1 }),
            Some(p2) => {
                if p2 <= p1 {
                    return Err(ParseError::Mysterious);
                }
                match layers(src, p2, ctx) {
                    Err(e) => Err(e),
                    Ok((ls, e)) => if e == src.len() && ls.len() > 0 {
                        let ms = MapSpec { map: mb, layers: ls };
                        proof {
                            assert(ms@.map.directives == mb@.directives);
                            assert(ms@.layers == ls@.map(|i: int, l: LayerBlock| l@));
                        }
                        Ok(ms)
                    } else {
                        Err(ParseError::Wrap { position: e })
                    },
                }
            },
        },
    }
}


/// The name of the `rgb` built-in.
pub open spec fn kw_rgb_name() -> Seq<u8> {
    seq!['r' as u8, 'g' as u8, 'b' as u8]
}

/// Builds the name of the `rgb` built-in.
pub fn kw_rgb_name_vec() -> (r: Vec<u8>)
    ensures
        r@ == kw_rgb_name(),
{
    let mut v: Vec<u8> = Vec::new();
    v.push('r' as u8);
    v.push('g' as u8);
    v.push('b' as u8);
    proof {
        assert(v@ =~= kw_rgb_name());
    }
    v
}

/// The name of the `concat` built-in.
pub open spec fn kw_concat_name() -> Seq<u8> {
    seq!['c' as u8, 'o' as u8, 'n' as u8, 'c' as u8, 'a' as u8, 't' as u8]
}

/// Builds the name of the `concat` built-in.
pub fn kw_concat_name_vec() -> (r: Vec<u8>)
    ensures
        r@ == kw_concat_name(),
{
    let mut v: Vec<u8> = Vec::new();
    v.push('c' as u8);
    v.push('o' as u8);
    v.push('n' as u8);
    v.push('c' as u8);
    v.push('a' as u8);
    v.push('t' as u8);
    proof {
        assert(v@ =~= kw_concat_name());
    }
    v
}


/// Round trip of plain string literals: where the text between the
/// quotes holds no escape, the parsed content is that text, byte for
/// byte.
pub proof fn lemma_string_content_verbatim(s: Seq<u8>, i: int)
    requires
        spec_string_chars(s, i) is Some,
        forall|k: int|
            i <= k < spec_string_chars(s, i)->Some_0.1 ==> s[k] != 92,
    ensures
        spec_string_chars(s, i)->Some_0.0 == s.subrange(i, spec_string_chars(s, i)->Some_0.1),
    decreases s.len() - i,
{
    let (c, j) = spec_string_chars(s, i)->Some_0;
    lemma_string_chars_end(s, i);
    if s[i] == '"' as u8 {
        assert(c =~= s.subrange(i, i));
    } else {
        lemma_string_content_verbatim(s, i + 1);
        let rest = spec_string_chars(s, i + 1)->Some_0.0;
        assert(seq![s[i]] + s.subrange(i + 1, j) =~= s.subrange(i, j));
    }
}

/// The phrase `unexpected parser state`.
pub open spec fn msg_mysterious() -> Seq<u8> {
    seq!['u' as u8, 'n' as u8, 'e' as u8, 'x' as u8, 'p' as u8, 'e' as u8, 'c' as u8, 't' as u8, 'e' as u8, 'd' as u8, ' ' as u8, 'p' as u8, 'a' as u8, 'r' as u8, 's' as u8, 'e' as u8, 'r' as u8, ' ' as u8, 's' as u8, 't' as u8, 'a' as u8, 't' as u8, 'e' as u8]
}

/// Builds the phrase `unexpected parser state`.
fn msg_mysterious_vec() -> (r: Vec<u8>)
    ensures
        r@ == msg_mysterious(),
{
    let mut v: Vec<u8> = Vec::new();
    v.push('u' as u8);
    v.push('n' as u8);
    v.push('e' as u8);
    v.push('x' as u8);
    v.push('p' as u8);
    v.push('e' as u8);
    v.push('c' as u8);
    v.push('t' as u8);
    v.push('e' as u8);
    v.push('d' as u8);
    v.push(' ' as u8);
    v.push('p' as u8);
    v.push('a' as u8);
    v.push('r' as u8);
    v.push('s' as u8);
    v.push('e' as u8);
    v.push('r' as u8);
    v.push(' ' as u8);
    v.push('s' as u8);
    v.push('t' as u8);
    v.push('a' as u8);
    v.push('t' as u8);
    v.push('e' as u8);
    proof {
        assert(v@ =~= msg_mysterious());
    }
    v
}

/// The phrase `syntax mismatch`.
pub open spec fn msg_mismatch() -> Seq<u8> {
    seq!['s' as u8, 'y' as u8, 'n' as u8, 't' as u8, 'a' as u8, 'x' as u8, ' ' as u8, 'm' as u8, 'i' as u8, 's' as u8, 'm' as u8, 'a' as u8, 't' as u8, 'c' as u8, 'h' as u8]
}

/// Builds the phrase `syntax mismatch`.
fn msg_mismatch_vec() -> (r: Vec<u8>)
    ensures
        r@ == msg_mismatch(),
{
    let mut v: Vec<u8> = Vec::new();
    v.push('s' as u8);
    v.push('y' as u8);
    v.push('n' as u8);
    v.push('t' as u8);
    v.push('a' as u8);
    v.push('x' as u8);
    v.push(' ' as u8);
    v.push('m' as u8);
    v.push('i' as u8);
    v.push('s' as u8);
    v.push('m' as u8);
    v.push('a' as u8);
    v.push('t' as u8);
    v.push('c' as u8);
    v.push('h' as u8);
    proof {
        assert(v@ =~= msg_mismatch());
    }
    v
}

/// The phrase `data not in scope`.
pub open spec fn msg_data_scope() -> Seq<u8> {
    seq!['d' as u8, 'a' as u8, 't' as u8, 'a' as u8, ' ' as u8, 'n' as u8, 'o' as u8, 't' as u8, ' ' as u8, 'i' as u8, 'n' as u8, ' ' as u8, 's' as u8, 'c' as u8, 'o' as u8, 'p' as u8, 'e' as u8]
}

/// Builds the phrase `data not in scope`.
fn msg_data_scope_vec() -> (r: Vec<u8>)
    ensures
        r@ == msg_data_scope(),
{
    let mut v: Vec<u8> = Vec::new();
    v.push('d' as u8);
    v.push('a' as u8);
    v.push('t' as u8);
    v.push('a' as u8);
    v.push(' ' as u8);
    v.push('n' as u8);
    v.push('o' as u8);
    v.push('t' as u8);
    v.push(' ' as u8);
    v.push('i' as u8);
    v.push('n' as u8);
    v.push(' ' as u8);
    v.push('s' as u8);
    v.push('c' as u8);
    v.push('o' as u8);
    v.push('p' as u8);
    v.push('e' as u8);
    proof {
        assert(v@ =~= msg_data_scope());
    }
    v
}

/// The phrase `unknown predicate`.
pub open spec fn msg_unknown_pred() -> Seq<u8> {
    seq!['u' as u8, 'n' as u8, 'k' as u8, 'n' as u8, 'o' as u8, 'w' as u8, 'n' as u8, ' ' as u8, 'p' as u8, 'r' as u8, 'e' as u8, 'd' as u8, 'i' as u8, 'c' as u8, 'a' as u8, 't' as u8, 'e' as u8]
}

/// Builds the phrase `unknown predicate`.
fn msg_unknown_pred_vec() -> (r: Vec<u8>)
    ensures
        r@ == msg_unknown_pred(),
{
    let mut v: Vec<u8> = Vec::new();
    v.push('u' as u8);
    v.push('n' as u8);
    v.push('k' as u8);
    v.push('n' as u8);
    v.push('o' as u8);
    v.push('w' as u8);
    v.push('n' as u8);
    v.push(' ' as u8);
    v.push('p' as u8);
    v.push('r' as u8);
    v.push('e' as u8);
    v.push('d' as u8);
    v.push('i' as u8);
    v.push('c' as u8);
    v.push('a' as u8);
    v.push('t' as u8);
    v.push('e' as u8);
    proof {
        assert(v@ =~= msg_unknown_pred());
    }
    v
}

/// The phrase `unknown predicate grouping`.
pub open spec fn msg_unknown_group() -> Seq<u8> {
    seq!['u' as u8, 'n' as u8, 'k' as u8, 'n' as u8, 'o' as u8, 'w' as u8, 'n' as u8, ' ' as u8, 'p' as u8, 'r' as u8, 'e' as u8, 'd' as u8, 'i' as u8, 'c' as u8, 'a' as u8, 't' as u8, 'e' as u8, ' ' as u8, 'g' as u8, 'r' as u8, 'o' as u8, 'u' as u8, 'p' as u8, 'i' as u8, 'n' as u8, 'g' as u8]
}

/// Builds the phrase `unknown predicate grouping`.
fn msg_unknown_group_vec() -> (r: Vec<u8>)
    ensures
        r@ == msg_unknown_group(),
{
    let mut v: Vec<u8> = Vec::new();
    v.push('u' as u8);
    v.push('n' as u8);
    v.push('k' as u8);
    v.push('n' as u8);
    v.push('o' as u8);
    v.push('w' as u8);
    v.push('n' as u8);
    v.push(' ' as u8);
    v.push('p' as u8);
    v.push('r' as u8);
    v.push('e' as u8);
    v.push('d' as u8);
    v.push('i' as u8);
    v.push('c' as u8);
    v.push('a' as u8);
    v.push('t' as u8);
    v.push('e' as u8);
    v.push(' ' as u8);
    v.push('g' as u8);
    v.push('r' as u8);
    v.push('o' as u8);
    v.push('u' as u8);
    v.push('p' as u8);
    v.push('i' as u8);
    v.push('n' as u8);
    v.push('g' as u8);
    proof {
        assert(v@ =~= msg_unknown_group());
    }
    v
}

/// The phrase ` at byte `.
pub open spec fn msg_at_byte() -> Seq<u8> {
    seq![' ' as u8, 'a' as u8, 't' as u8, ' ' as u8, 'b' as u8, 'y' as u8, 't' as u8, 'e' as u8, ' ' as u8]
}

/// Builds the phrase ` at byte `.
fn msg_at_byte_vec() -> (r: Vec<u8>)
    ensures
        r@ == msg_at_byte(),
{
    let mut v: Vec<u8> = Vec::new();
    v.push(' ' as u8);
    v.push('a' as u8);
    v.push('t' as u8);
    v.push(' ' as u8);
    v.push('b' as u8);
    v.push('y' as u8);
    v.push('t' as u8);
    v.push('e' as u8);
    v.push(' ' as u8);
    proof {
        assert(v@ =~= msg_at_byte());
    }
    v
}

/// The phrase `: `.
pub open spec fn msg_colon() -> Seq<u8> {
    seq![':' as u8, ' ' as u8]
}

/// Builds the phrase `: `.
fn msg_colon_vec() -> (r: Vec<u8>)
    ensures
        r@ == msg_colon(),
{
    let mut v: Vec<u8> = Vec::new();
    v.push(':' as u8);
    v.push(' ' as u8);
    proof {
        assert(v@ =~= msg_colon());
    }
    v
}

/// A short window of the input at a byte offset, for error messages.
pub open spec fn input_window(src: Seq<u8>, pos: int) -> Seq<u8> {
    if 0 <= pos <= src.len() {
        src.subrange(
            pos,
            if pos + 16 <= src.len() {
                pos + 16
            } else {
                src.len() as int
            },
        )
    } else {
        Seq::empty()
    }
}

/// The readable text of a parse failure: its kind, the byte offset it
/// arose at, and either the name involved or a short window of the
/// input there.
pub open spec fn spec_describe(e: ParseErrorV, src: Seq<u8>) -> Seq<u8> {
    match e {
        ParseErrorV::Mysterious => msg_mysterious(),
        ParseErrorV::Wrap { position } => msg_mismatch() + msg_at_byte() + crate::num::int_text(
            position,
        ) + msg_colon() + input_window(src, position),
        ParseErrorV::DataNotInScope { name, position } => msg_data_scope() + msg_at_byte()
            + crate::num::int_text(position) + msg_colon() + name,
        ParseErrorV::UnknownPredicate { text, position } => msg_unknown_pred() + msg_at_byte()
            + crate::num::int_text(position) + msg_colon() + text,
        ParseErrorV::UnknownPredicateGrouping { text, position } => msg_unknown_group()
            + msg_at_byte() + crate::num::int_text(position) + msg_colon() + text,
    }
}

/// Copies the input window at a byte offset.
fn window_of(src: &Vec<u8>, pos: usize) -> (r: Vec<u8>)
    ensures
        r@ == input_window(src@, pos as int),
{
    if pos <= src.len() {
        let end: usize = if src.len() - pos >= 16 {
            pos + 16
        } else {
            src.len()
        };
        copy_range(src, pos, end)
    } else {
        let v: Vec<u8> = Vec::new();
        proof {
            assert(v@ =~= Seq::<u8>::empty());
        }
        v
    }
}

/// Joins the common tail of a positioned message: the offset, a colon,
/// and the detail bytes.
fn describe_tail(head: Vec<u8>, position: usize, detail: Vec<u8>) -> (r: Vec<u8>)
    ensures
        r@ == head@ + msg_at_byte() + crate::num::int_text(position as int) + msg_colon()
            + detail@,
{
    let mut v = head;
    let mut at = msg_at_byte_vec();
    let ghost h0 = v@;
    v.append(&mut at);
    let mut digits = crate::num::fmt_u64(position as u64);
    proof {
        assert(crate::num::int_text(position as int) == crate::num::dec_digits(position as int));
    }
    v.append(&mut digits);
    let mut sep = msg_colon_vec();
    v.append(&mut sep);
    let mut d = detail;
    v.append(&mut d);
    v
}

impl ParseError {
    /// Renders this failure as readable text against the input it arose
    /// in.
    pub fn describe(&self, src: &Vec<u8>) -> (r: Vec<u8>)
        ensures
            r@ == spec_describe(self@, src@),
    {
        match self {
            ParseError::Mysterious => msg_mysterious_vec(),
            ParseError::Wrap { position } => describe_tail(
                msg_mismatch_vec(),
                *position,
                window_of(src, *position),
            ),
            ParseError::DataNotInScope { name, position } => describe_tail(
                msg_data_scope_vec(),
                *position,
                clone_bytes(name),
            ),
            ParseError::UnknownPredicate { text, position } => describe_tail(
                msg_unknown_pred_vec(),
                *position,
                clone_bytes(text),
            ),
            ParseError::UnknownPredicateGrouping { text, position } => describe_tail(
                msg_unknown_group_vec(),
                *position,
                clone_bytes(text),
            ),
        }
    }
}

} // verus!
