//! The typed syntax tree that the parser produces and the evaluator
//! consumes.  Text is carried as bytes (`Vec<u8>`); numbers are either
//! 64-bit integers or fixed-point values in millionths (see `Num`).
//!
//! Every owned tree type has a mathematical view (`...V`) over `Seq` and
//! unbounded integers; contracts throughout the crate speak of those views.
use vstd::prelude::*;

verus! {

/// Fixed-point scale for non-integer numbers: values are stored in
/// millionths of a unit, so `Num::Float(2_500_000)` stands for 2.5.
pub const MICRO: i64 = 1_000_000;

/// A numeric literal: either an exact 64-bit integer, or a fixed-point
/// number in millionths of a unit.
#[derive(Debug, Clone, Copy, PartialEq)]
pub enum Num {
    Integer(i64),
    Float(i64),
}

impl View for Num {
    type V = Num;

    open spec fn view(&self) -> Num {
        *self
    }
}

impl Num {
    /// The value in millionths of a unit, as an unbounded integer.
    /// Mixed integer/fixed-point comparisons promote through this scale.
    pub open spec fn micro_value(self) -> int {
        match self {
            Num::Integer(i) => i as int * MICRO as int,
            Num::Float(m) => m as int,
        }
    }
}

/// A literal value of the language.  `Str` holds the bytes of the text.
#[derive(Debug, Clone, PartialEq)]
pub enum Literal {
    Nil,
    Number(Num),
    Str(Vec<u8>),
    Boolean(bool),
}

/// Mathematical view of `Literal`.
pub enum LiteralV {
    Nil,
    Number(Num),
    Str(Seq<u8>),
    Boolean(bool),
}

impl View for Literal {
    type V = LiteralV;

    open spec fn view(&self) -> LiteralV {
        match self {
            Literal::Nil => LiteralV::Nil,
            Literal::Number(n) => LiteralV::Number(*n),
            Literal::Str(s) => LiteralV::Str(s@),
            Literal::Boolean(b) => LiteralV::Boolean(*b),
        }
    }
}

/// The run-time type a `select` constructor demands of the attribute it
/// reads.
#[derive(Debug, Clone, Copy, PartialEq)]
pub enum DataType {
    String,
    Number,
    Boolean,
}

/// A deferred, typed read of a feature attribute by name.
#[derive(Debug, Clone, PartialEq)]
pub struct Select {
    pub selector: Vec<u8>,
    pub datatype: DataType,
}

/// Mathematical view of `Select`.
pub struct SelectV {
    pub selector: Seq<u8>,
    pub datatype: DataType,
}

impl View for Select {
    type V = SelectV;

    open spec fn view(&self) -> SelectV {
        SelectV { selector: self.selector@, datatype: self.datatype }
    }
}

/// Right-hand side of a `data` directive: an inline value or a deferred
/// per-feature selection.
#[derive(Debug)]
pub enum Constructor {
    Select(Select),
    Val(Value),
}

/// A named binding introduced by a `data` directive.
#[derive(Debug)]
pub struct Data {
    pub ident: Vec<u8>,
    pub constructor: Box<Constructor>,
}

/// A call of a built-in function, such as `rgb(255, 30, 0)`.
#[derive(Debug)]
pub struct FunctionCall {
    pub name: Vec<u8>,
    pub args: ValueList,
}

/// A syntactic fragment that reduces to a `Literal` at evaluation time.
#[derive(Debug)]
pub enum Value {
    Lit(Literal),
    Data(Data),
    Fn(FunctionCall),
}

pub type ValueList = Vec<Value>;

/// Mathematical view of `Constructor`.
pub enum ConstructorV {
    Select(SelectV),
    Val(Box<ValueV>),
}

/// Mathematical view of `Data`.
pub struct DataV {
    pub ident: Seq<u8>,
    pub constructor: ConstructorV,
}

/// Mathematical view of `FunctionCall`.
pub struct FunctionCallV {
    pub name: Seq<u8>,
    pub args: Seq<ValueV>,
}

/// Mathematical view of `Value`.
pub enum ValueV {
    Lit(LiteralV),
    Data(DataV),
    Fn(FunctionCallV),
}

/// View of a `Value` tree.
pub open spec fn view_value(v: Value) -> ValueV
    decreases v,
{
    match v {
        Value::Lit(l) => ValueV::Lit(l@),
        Value::Data(d) => ValueV::Data(view_data(d)),
        Value::Fn(f) => ValueV::Fn(
            FunctionCallV { name: f.name@, args: view_values(f.args@) },
        ),
    }
}

/// View of a sequence of `Value`s, element by element.
pub open spec fn view_values(s: Seq<Value>) -> Seq<ValueV>
    decreases s,
{
    if s.len() == 0 {
        Seq::empty()
    } else {
        view_values(s.drop_last()).push(view_value(s.last()))
    }
}

/// View of a `Data` binding.
pub open spec fn view_data(d: Data) -> DataV
    decreases d,
{
    DataV { ident: d.ident@, constructor: view_constructor(*d.constructor) }
}

/// View of a `Constructor`.
pub open spec fn view_constructor(c: Constructor) -> ConstructorV
    decreases c,
{
    match c {
        Constructor::Select(s) => ConstructorV::Select(s@),
        Constructor::Val(v) => ConstructorV::Val(Box::new(view_value(v))),
    }
}

impl View for Value {
    type V = ValueV;

    open spec fn view(&self) -> ValueV {
        view_value(*self)
    }
}

impl View for Data {
    type V = DataV;

    open spec fn view(&self) -> DataV {
        view_data(*self)
    }
}

/// `view_values` applied to a sequence gives one view per element.
pub proof fn lemma_view_values_index(s: Seq<Value>)
    ensures
        view_values(s).len() == s.len(),
        forall|i: int| 0 <= i < s.len() ==> view_values(s)[i] == view_value(#[trigger] s[i]),
    decreases s,
{
    if s.len() > 0 {
        lemma_view_values_index(s.drop_last());
        assert forall|i: int| 0 <= i < s.len() implies view_values(s)[i] == view_value(
            #[trigger] s[i],
        ) by {
            if i < s.len() - 1 {
                assert(s.drop_last()[i] == s[i]);
                assert(view_values(s)[i] == view_values(s.drop_last())[i]);
            } else {
                assert(s[i] == s.last());
            }
        }
    }
}

/// Appending one value appends its view.
pub proof fn lemma_view_values_push(s: Seq<Value>, x: Value)
    ensures
        view_values(s.push(x)) == view_values(s).push(view_value(x)),
{
    assert(s.push(x).drop_last() =~= s);
    assert(s.push(x).last() == x);
}

/// Copies a byte string.
pub fn clone_bytes(v: &Vec<u8>) -> (r: Vec<u8>)
    ensures
        r@ == v@,
{
    let r = v.clone();
    assert(r@ =~= v@);
    r
}

/// Copies a literal, preserving its view.
pub fn clone_literal(l: &Literal) -> (r: Literal)
    ensures
        r@ == l@,
{
    match l {
        Literal::Nil => Literal::Nil,
        Literal::Number(n) => Literal::Number(*n),
        Literal::Str(s) => Literal::Str(clone_bytes(s)),
        Literal::Boolean(b) => Literal::Boolean(*b),
    }
}

/// Copies a value tree, preserving its view.
pub fn clone_value(v: &Value) -> (r: Value)
    ensures
        view_value(r) == view_value(*v),
    decreases v,
{
    match v {
        Value::Lit(l) => Value::Lit(clone_literal(l)),
        Value::Data(d) => Value::Data(clone_data(d)),
        Value::Fn(f) => Value::Fn(
            FunctionCall { name: clone_bytes(&f.name), args: clone_values(&f.args) },
        ),
    }
}

/// Copies a list of values, preserving the views.
pub fn clone_values(vs: &Vec<Value>) -> (r: Vec<Value>)
    ensures
        view_values(r@) == view_values(vs@),
    decreases vs,
{
    let mut out: Vec<Value> = Vec::new();
    let mut i: usize = 0;
    while i < vs.len()
        invariant
            0 <= i <= vs.len(),
            view_values(out@) == view_values(vs@.subrange(0, i as int)),
        decreases vs.len() - i,
    {
        let c = clone_value(&vs[i]);
        proof {
            lemma_view_values_push(out@, c);
            lemma_view_values_push(vs@.subrange(0, i as int), vs@[i as int]);
            assert(vs@.subrange(0, i as int).push(vs@[i as int]) =~= vs@.subrange(
                0,
                i as int + 1,
            ));
            lemma_view_values_index(out@);
        }
        out.push(c);
        i = i + 1;
    }
    proof {
        assert(vs@.subrange(0, vs@.len() as int) =~= vs@);
    }
    out
}

/// Copies a binding, preserving its view.
pub fn clone_data(d: &Data) -> (r: Data)
    ensures
        view_data(r) == view_data(*d),
    decreases d,
{
    Data { ident: clone_bytes(&d.ident), constructor: Box::new(clone_constructor(&d.constructor)) }
}

/// Copies a constructor, preserving its view.
pub fn clone_constructor(c: &Constructor) -> (r: Constructor)
    ensures
        view_constructor(r) == view_constructor(*c),
    decreases c,
{
    match c {
        Constructor::Select(s) => Constructor::Select(
            Select { selector: clone_bytes(&s.selector), datatype: s.datatype },
        ),
        Constructor::Val(v) => Constructor::Val(clone_value(v)),
    }
}

/// A pair of values, the two sides of a comparison.
pub type ValuePair = (Value, Value);

/// Builds a `ValuePair` from its two sides.
pub fn pair(left: Value, right: Value) -> (r: ValuePair)
    ensures
        view_value(r.0) == view_value(left),
        view_value(r.1) == view_value(right),
{
    (left, right)
}

/// A single comparison between two values.
#[derive(Debug)]
pub enum Predicate {
    Equal(ValuePair),
    NotEqual(ValuePair),
    GreaterThan(ValuePair),
    GreaterThanOrEqual(ValuePair),
    LesserThan(ValuePair),
    LesserThanOrEqual(ValuePair),
}

/// An AND/OR tree of predicates.
#[derive(Debug)]
pub enum PredGroup {
    Empty,
    Pred(Predicate),
    Or { left: Box<PredGroup>, right: Box<PredGroup> },
    And { left: Box<PredGroup>, right: Box<PredGroup> },
}

/// Mathematical view of `Predicate`.
pub enum PredicateV {
    Equal((Box<ValueV>, Box<ValueV>)),
    NotEqual((Box<ValueV>, Box<ValueV>)),
    GreaterThan((Box<ValueV>, Box<ValueV>)),
    GreaterThanOrEqual((Box<ValueV>, Box<ValueV>)),
    LesserThan((Box<ValueV>, Box<ValueV>)),
    LesserThanOrEqual((Box<ValueV>, Box<ValueV>)),
}

/// Mathematical view of `PredGroup`.
pub enum PredGroupV {
    Empty,
    Pred(PredicateV),
    Or { left: Box<PredGroupV>, right: Box<PredGroupV> },
    And { left: Box<PredGroupV>, right: Box<PredGroupV> },
}

/// View of a value pair.
pub open spec fn view_pair(p: ValuePair) -> (Box<ValueV>, Box<ValueV>) {
    (Box::new(view_value(p.0)), Box::new(view_value(p.1)))
}

/// View of a `Predicate`.
pub open spec fn view_predicate(p: Predicate) -> PredicateV {
    match p {
        Predicate::Equal(vp) => PredicateV::Equal(view_pair(vp)),
        Predicate::NotEqual(vp) => PredicateV::NotEqual(view_pair(vp)),
        Predicate::GreaterThan(vp) => PredicateV::GreaterThan(view_pair(vp)),
        Predicate::GreaterThanOrEqual(vp) => PredicateV::GreaterThanOrEqual(view_pair(vp)),
        Predicate::LesserThan(vp) => PredicateV::LesserThan(view_pair(vp)),
        Predicate::LesserThanOrEqual(vp) => PredicateV::LesserThanOrEqual(view_pair(vp)),
    }
}

/// View of a `PredGroup` tree.
pub open spec fn view_pred_group(g: PredGroup) -> PredGroupV
    decreases g,
{
    match g {
        PredGroup::Empty => PredGroupV::Empty,
        PredGroup::Pred(p) => PredGroupV::Pred(view_predicate(p)),
        PredGroup::Or { left, right } => PredGroupV::Or {
            left: Box::new(view_pred_group(*left)),
            right: Box::new(view_pred_group(*right)),
        },
        PredGroup::And { left, right } => PredGroupV::And {
            left: Box::new(view_pred_group(*left)),
            right: Box::new(view_pred_group(*right)),
        },
    }
}

impl View for Predicate {
    type V = PredicateV;

    open spec fn view(&self) -> PredicateV {
        view_predicate(*self)
    }
}

impl View for PredGroup {
    type V = PredGroupV;

    open spec fn view(&self) -> PredGroupV {
        view_pred_group(*self)
    }
}

/// The `circle` command: a filled-path circle of the given radius.
#[derive(Debug)]
pub struct Circle {
    pub radius: Value,
}

/// The `square` command: an axis-aligned square of the given side.
#[derive(Debug)]
pub struct Square {
    pub size: Value,
}

/// A colour carried by paint commands; kept for the public surface.
#[derive(Debug, Clone, PartialEq)]
pub struct Color;

/// The `fill` command: paints the accumulated path.
#[derive(Debug)]
pub struct Fill {
    pub color: Value,
}

/// The `stroke` command: outlines the accumulated path.
#[derive(Debug)]
pub struct Stroke {
    pub color: Value,
    pub size: Value,
}

/// The `pattern` command: fills with a texture read from a path.
#[derive(Debug)]
pub struct Pattern {
    pub path: Value,
}

/// The `label` command: writes text at the feature's anchor point.
#[derive(Debug)]
pub struct Label {
    pub content: Value,
}

/// The `clear` command: discards the ops accumulated so far.
#[derive(Debug, Clone, PartialEq)]
pub struct Clear;

/// The `draw` command: traces the feature's geometry.
#[derive(Debug, Clone, PartialEq)]
pub struct DrawGeometry;

/// A drawing command inside a `sym` consequent.
#[derive(Debug)]
pub enum Command {
    Clear(Clear),
    DrawGeometry(DrawGeometry),
    Circle(Circle),
    Square(Square),
    Fill(Fill),
    Stroke(Stroke),
    Pattern(Pattern),
    Label(Label),
}

/// Mathematical view of `Command`.
pub enum CommandV {
    Clear,
    DrawGeometry,
    Circle { radius: ValueV },
    Square { size: ValueV },
    Fill { color: ValueV },
    Stroke { color: ValueV, size: ValueV },
    Pattern { path: ValueV },
    Label { content: ValueV },
}

/// View of a `Command`.
pub open spec fn view_command(c: Command) -> CommandV {
    match c {
        Command::Clear(_) => CommandV::Clear,
        Command::DrawGeometry(_) => CommandV::DrawGeometry,
        Command::Circle(x) => CommandV::Circle { radius: view_value(x.radius) },
        Command::Square(x) => CommandV::Square { size: view_value(x.size) },
        Command::Fill(x) => CommandV::Fill { color: view_value(x.color) },
        Command::Stroke(x) => CommandV::Stroke {
            color: view_value(x.color),
            size: view_value(x.size),
        },
        Command::Pattern(x) => CommandV::Pattern { path: view_value(x.path) },
        Command::Label(x) => CommandV::Label { content: view_value(x.content) },
    }
}

impl View for Command {
    type V = CommandV;

    open spec fn view(&self) -> CommandV {
        view_command(*self)
    }
}

/// A symbology rule: a predicate over feature attributes paired with the
/// commands to run on every feature that satisfies it.
#[derive(Debug)]
pub struct Sym {
    pub predicate: PredGroup,
    pub consequent: Vec<Command>,
}

/// Mathematical view of `Sym`.
pub struct SymV {
    pub predicate: PredGroupV,
    pub consequent: Seq<CommandV>,
}

/// View of a command list, element by element.
pub open spec fn view_commands(s: Seq<Command>) -> Seq<CommandV> {
    s.map(|i: int, c: Command| view_command(c))
}

impl View for Sym {
    type V = SymV;

    open spec fn view(&self) -> SymV {
        SymV { predicate: view_pred_group(self.predicate), consequent: view_commands(self.consequent@) }
    }
}

/// A concrete feature-source driver.
#[derive(Debug, Clone, Copy, PartialEq)]
pub enum Driver {
    Geojson,
    Postgis,
    Shapefile,
}

/// A layer's feature source: a driver, a path, and an optional source SRID.
#[derive(Debug, Clone, PartialEq)]
pub struct Source {
    pub driver: Driver,
    pub path: Vec<u8>,
    pub srid: Option<Num>,
}

/// Mathematical view of `Source`.
pub struct SourceV {
    pub driver: Driver,
    pub path: Seq<u8>,
    pub srid: Option<Num>,
}

impl View for Source {
    type V = SourceV;

    open spec fn view(&self) -> SourceV {
        SourceV { driver: self.driver, path: self.path@, srid: self.srid }
    }
}

/// The `srid` directive: the map's target coordinate reference system.
#[derive(Debug, Clone, Copy, PartialEq)]
pub struct Srid {
    pub value: i64,
}

/// The `extent` directive: the map's bounding rectangle.
#[derive(Debug, Clone, Copy, PartialEq)]
pub struct Extent {
    pub minx: Num,
    pub miny: Num,
    pub maxx: Num,
    pub maxy: Num,
}

/// A statement inside a map or layer block.
#[derive(Debug)]
pub enum Directive {
    Srid(Srid),
    Extent(Extent),
    Data(Data),
    Sym(Sym),
    Source(Source),
}

/// Mathematical view of `Directive`.
pub enum DirectiveV {
    Srid(Srid),
    Extent(Extent),
    Data(DataV),
    Sym(SymV),
    Source(SourceV),
}

/// View of a `Directive`.
pub open spec fn view_directive(d: Directive) -> DirectiveV {
    match d {
        Directive::Srid(s) => DirectiveV::Srid(s),
        Directive::Extent(e) => DirectiveV::Extent(e),
        Directive::Data(x) => DirectiveV::Data(view_data(x)),
        Directive::Sym(s) => DirectiveV::Sym(s@),
        Directive::Source(s) => DirectiveV::Source(s@),
    }
}

impl View for Directive {
    type V = DirectiveV;

    open spec fn view(&self) -> DirectiveV {
        view_directive(*self)
    }
}

/// View of a directive list, element by element.
pub open spec fn view_directives(s: Seq<Directive>) -> Seq<DirectiveV> {
    s.map(|i: int, d: Directive| view_directive(d))
}

/// The map block: srid, extent and map-wide data bindings.
#[derive(Debug)]
pub struct MapBlock {
    pub directives: Vec<Directive>,
}

/// A layer block: a source, layer data bindings and symbology rules.
#[derive(Debug)]
pub struct LayerBlock {
    pub directives: Vec<Directive>,
}

/// Mathematical view of `MapBlock`.
pub struct MapBlockV {
    pub directives: Seq<DirectiveV>,
}

/// Mathematical view of `LayerBlock`.
pub struct LayerBlockV {
    pub directives: Seq<DirectiveV>,
}

impl View for MapBlock {
    type V = MapBlockV;

    open spec fn view(&self) -> MapBlockV {
        MapBlockV { directives: view_directives(self.directives@) }
    }
}

impl View for LayerBlock {
    type V = LayerBlockV;

    open spec fn view(&self) -> LayerBlockV {
        LayerBlockV { directives: view_directives(self.directives@) }
    }
}

/// A whole parsed map specification: one map block plus its layers.
#[derive(Debug)]
pub struct MapSpec {
    pub map: MapBlock,
    pub layers: Vec<LayerBlock>,
}

/// Mathematical view of `MapSpec`.
pub struct MapSpecV {
    pub map: MapBlockV,
    pub layers: Seq<LayerBlockV>,
}

impl View for MapSpec {
    type V = MapSpecV;

    open spec fn view(&self) -> MapSpecV {
        MapSpecV {
            map: self.map@,
            layers: self.layers@.map(|i: int, l: LayerBlock| l@),
        }
    }
}


/// A worked sample of the syntax tree: the specification a small map
/// text parses to, with map-wide colour and selection bindings and one
/// layer of two rules.
pub fn truc() -> (r: MapSpec)
    ensures
        r@.map.directives.len() == 7,
        r@.layers.len() == 1,
{
    let mut n_blue: Vec<u8> = Vec::new();
    n_blue.push('b' as u8);
    n_blue.push('l' as u8);
    n_blue.push('u' as u8);
    n_blue.push('e' as u8);
    let mut n_prop1: Vec<u8> = Vec::new();
    n_prop1.push('p' as u8);
    n_prop1.push('r' as u8);
    n_prop1.push('o' as u8);
    n_prop1.push('p' as u8);
    n_prop1.push('1' as u8);
    let mut n_prop2: Vec<u8> = Vec::new();
    n_prop2.push('p' as u8);
    n_prop2.push('r' as u8);
    n_prop2.push('o' as u8);
    n_prop2.push('p' as u8);
    n_prop2.push('2' as u8);
    let mut n_red: Vec<u8> = Vec::new();
    n_red.push('r' as u8);
    n_red.push('e' as u8);
    n_red.push('d' as u8);
    let mut n_truc: Vec<u8> = Vec::new();
    n_truc.push('t' as u8);
    n_truc.push('r' as u8);
    n_truc.push('u' as u8);
    n_truc.push('c' as u8);
    let mut n_col1: Vec<u8> = Vec::new();
    n_col1.push('c' as u8);
    n_col1.push('o' as u8);
    n_col1.push('l' as u8);
    n_col1.push('1' as u8);
    let mut n_col2: Vec<u8> = Vec::new();
    n_col2.push('c' as u8);
    n_col2.push('o' as u8);
    n_col2.push('l' as u8);
    n_col2.push('2' as u8);
    let mut n_rgb: Vec<u8> = Vec::new();
    n_rgb.push('r' as u8);
    n_rgb.push('g' as u8);
    n_rgb.push('b' as u8);
    let mut n_rgb2: Vec<u8> = Vec::new();
    n_rgb2.push('r' as u8);
    n_rgb2.push('g' as u8);
    n_rgb2.push('b' as u8);
    let mut n_str: Vec<u8> = Vec::new();
    n_str.push('a' as u8);
    n_str.push(' ' as u8);
    n_str.push('s' as u8);
    n_str.push('t' as u8);
    n_str.push('r' as u8);
    n_str.push('i' as u8);
    n_str.push('n' as u8);
    n_str.push('g' as u8);
    let mut n_path: Vec<u8> = Vec::new();
    n_path.push('u' as u8);
    n_path.push('s' as u8);
    n_path.push('e' as u8);
    n_path.push('r' as u8);
    n_path.push(':' as u8);
    n_path.push('S' as u8);
    n_path.push('E' as u8);
    n_path.push('C' as u8);
    n_path.push('R' as u8);
    n_path.push('E' as u8);
    n_path.push('T' as u8);
    n_path.push('-' as u8);
    n_path.push('R' as u8);
    n_path.push('E' as u8);
    n_path.push('D' as u8);
    n_path.push('A' as u8);
    n_path.push('C' as u8);
    n_path.push('T' as u8);
    n_path.push('E' as u8);
    n_path.push('D' as u8);
    n_path.push('@' as u8);
    n_path.push('l' as u8);
    n_path.push('o' as u8);
    n_path.push('c' as u8);
    n_path.push('a' as u8);
    n_path.push('l' as u8);
    n_path.push('h' as u8);
    n_path.push('o' as u8);
    n_path.push('s' as u8);
    n_path.push('t' as u8);
    n_path.push('/' as u8);
    n_path.push('s' as u8);
    n_path.push('c' as u8);
    n_path.push('h' as u8);
    n_path.push('e' as u8);
    n_path.push('m' as u8);
    n_path.push('a' as u8);
    n_path.push('_' as u8);
    n_path.push('n' as u8);
    n_path.push('a' as u8);
    n_path.push('m' as u8);
    n_path.push('e' as u8);
    n_path.push('/' as u8);
    n_path.push('t' as u8);
    n_path.push('a' as u8);
    n_path.push('b' as u8);
    n_path.push('l' as u8);
    n_path.push('e' as u8);
    n_path.push('_' as u8);
    n_path.push('n' as u8);
    n_path.push('a' as u8);
    n_path.push('m' as u8);
    n_path.push('e' as u8);
    let mut n_prop1b: Vec<u8> = Vec::new();
    n_prop1b.push('p' as u8);
    n_prop1b.push('r' as u8);
    n_prop1b.push('o' as u8);
    n_prop1b.push('p' as u8);
    n_prop1b.push('1' as u8);
    let mut n_col1b: Vec<u8> = Vec::new();
    n_col1b.push('c' as u8);
    n_col1b.push('o' as u8);
    n_col1b.push('l' as u8);
    n_col1b.push('1' as u8);
    let mut n_prop1c: Vec<u8> = Vec::new();
    n_prop1c.push('p' as u8);
    n_prop1c.push('r' as u8);
    n_prop1c.push('o' as u8);
    n_prop1c.push('p' as u8);
    n_prop1c.push('1' as u8);
    let mut n_col1c: Vec<u8> = Vec::new();
    n_col1c.push('c' as u8);
    n_col1c.push('o' as u8);
    n_col1c.push('l' as u8);
    n_col1c.push('1' as u8);
    let mut n_prop2b: Vec<u8> = Vec::new();
    n_prop2b.push('p' as u8);
    n_prop2b.push('r' as u8);
    n_prop2b.push('o' as u8);
    n_prop2b.push('p' as u8);
    n_prop2b.push('2' as u8);
    let mut n_col2b: Vec<u8> = Vec::new();
    n_col2b.push('c' as u8);
    n_col2b.push('o' as u8);
    n_col2b.push('l' as u8);
    n_col2b.push('2' as u8);
    let mut n_redb: Vec<u8> = Vec::new();
    n_redb.push('r' as u8);
    n_redb.push('e' as u8);
    n_redb.push('d' as u8);
    let mut n_bench: Vec<u8> = Vec::new();
    n_bench.push('b' as u8);
    n_bench.push('e' as u8);
    n_bench.push('n' as u8);
    n_bench.push('c' as u8);
    n_bench.push('h' as u8);
    let mut n_chair: Vec<u8> = Vec::new();
    n_chair.push('c' as u8);
    n_chair.push('h' as u8);
    n_chair.push('a' as u8);
    n_chair.push('i' as u8);
    n_chair.push('r' as u8);
    let mut blue_args: Vec<Value> = Vec::new();
    blue_args.push(Value::Lit(Literal::Number(Num::Integer(0))));
    blue_args.push(Value::Lit(Literal::Number(Num::Integer(0))));
    blue_args.push(Value::Lit(Literal::Number(Num::Integer(255))));
    let blue_fn = Value::Fn(FunctionCall { name: n_rgb, args: blue_args });
    let blue = Data { ident: n_blue, constructor: Box::new(Constructor::Val(blue_fn)) };
    let prop1_sel = Select { selector: n_col1, datatype: DataType::String };
    let prop1 = Data { ident: n_prop1, constructor: Box::new(Constructor::Select(prop1_sel)) };
    let prop2_sel = Select { selector: n_col2, datatype: DataType::Number };
    let prop2 = Data { ident: n_prop2, constructor: Box::new(Constructor::Select(prop2_sel)) };
    let mut red_args: Vec<Value> = Vec::new();
    red_args.push(Value::Lit(Literal::Number(Num::Integer(255))));
    red_args.push(Value::Lit(Literal::Number(Num::Integer(30))));
    red_args.push(Value::Lit(Literal::Number(Num::Integer(0))));
    let red_fn = Value::Fn(FunctionCall { name: n_rgb2, args: red_args });
    let red = Data { ident: n_red, constructor: Box::new(Constructor::Val(red_fn)) };
    let truc_val = Value::Lit(Literal::Str(n_str));
    let truc_binding = Data { ident: n_truc, constructor: Box::new(Constructor::Val(truc_val)) };
    let mut map_dirs: Vec<Directive> = Vec::new();
    map_dirs.push(Directive::Srid(Srid { value: 3857 }));
    let extent = Extent {
        minx: Num::Integer(11111),
        miny: Num::Integer(333333),
        maxx: Num::Float(22_222_200_000),
        maxy: Num::Integer(444444),
    };
    map_dirs.push(Directive::Extent(extent));
    map_dirs.push(Directive::Data(blue));
    map_dirs.push(Directive::Data(prop1));
    map_dirs.push(Directive::Data(prop2));
    map_dirs.push(Directive::Data(red));
    map_dirs.push(Directive::Data(truc_binding));
    let sel_b = Select { selector: n_col1b, datatype: DataType::String };
    let prop1_ref = Data { ident: n_prop1b, constructor: Box::new(Constructor::Select(sel_b)) };
    let sel_c = Select { selector: n_col1c, datatype: DataType::String };
    let prop1_ref2 = Data { ident: n_prop1c, constructor: Box::new(Constructor::Select(sel_c)) };
    let sel_d = Select { selector: n_col2b, datatype: DataType::Number };
    let prop2_ref = Data { ident: n_prop2b, constructor: Box::new(Constructor::Select(sel_d)) };
    let cmp_bench = pair(Value::Data(prop1_ref), Value::Lit(Literal::Str(n_bench)));
    let p_bench = PredGroup::Pred(Predicate::Equal(cmp_bench));
    let cmp_chair = pair(Value::Data(prop1_ref2), Value::Lit(Literal::Str(n_chair)));
    let p_chair = PredGroup::Pred(Predicate::Equal(cmp_chair));
    let cmp_num = pair(Value::Data(prop2_ref), Value::Lit(Literal::Number(Num::Integer(12))));
    let p_num = PredGroup::Pred(Predicate::GreaterThanOrEqual(cmp_num));
    let disj = PredGroup::Or { left: Box::new(p_bench), right: Box::new(p_chair) };
    let pred = PredGroup::And { left: Box::new(disj), right: Box::new(p_num) };
    let mut consequent: Vec<Command> = Vec::new();
    let radius = Value::Lit(Literal::Number(Num::Integer(6)));
    consequent.push(Command::Circle(Circle { radius }));
    let red_ref_val = Value::Lit(Literal::Number(Num::Integer(0)));
    let red_ref = Data { ident: n_redb, constructor: Box::new(Constructor::Val(red_ref_val)) };
    consequent.push(Command::Fill(Fill { color: Value::Data(red_ref) }));
    let mut layer_dirs: Vec<Directive> = Vec::new();
    let src = Source { driver: Driver::Postgis, path: n_path, srid: Some(Num::Integer(31370)) };
    layer_dirs.push(Directive::Source(src));
    layer_dirs.push(Directive::Sym(Sym { predicate: pred, consequent }));
    let mut layers: Vec<LayerBlock> = Vec::new();
    layers.push(LayerBlock { directives: layer_dirs });
    let r = MapSpec { map: MapBlock { directives: map_dirs }, layers };
    proof {
        lemma_truc_shape(r);
    }
    r
}

/// The sample specification holds seven map directives and one layer.
proof fn lemma_truc_shape(r: MapSpec)
    requires
        r.map.directives@.len() == 7,
        r.layers@.len() == 1,
    ensures
        r@.map.directives.len() == 7,
        r@.layers.len() == 1,
{
    crate::ast::lemma_view_directives_len(r.map.directives@);
}

/// A directive list's view keeps its length.
pub proof fn lemma_view_directives_len(s: Seq<Directive>)
    ensures
        view_directives(s).len() == s.len(),
{
}

} // verus!
