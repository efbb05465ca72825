//! A JSON-like model of feature attributes: the tree shape a feature's
//! `properties` mapping holds, paths into such trees, and typed selection
//! out of them.  Strings are byte strings; numbers are `Num` values.
use vstd::prelude::*;

use crate::ast::{clone_bytes, Literal, LiteralV, Num};

verus! {

/// A JSON-like attribute value.
#[derive(Debug)]
pub enum JsonVal {
    Null,
    Bool(bool),
    Num(Num),
    Str(Vec<u8>),
    Array(Vec<JsonVal>),
    Object(Vec<(Vec<u8>, JsonVal)>),
}

/// Mathematical view of `JsonVal`.
pub enum JsonValV {
    Null,
    Bool(bool),
    Num(Num),
    Str(Seq<u8>),
    Array(Seq<JsonValV>),
    Object(Seq<(Seq<u8>, JsonValV)>),
}

/// View of a JSON value.
pub open spec fn view_json(v: JsonVal) -> JsonValV
    decreases v,
{
    match v {
        JsonVal::Null => JsonValV::Null,
        JsonVal::Bool(b) => JsonValV::Bool(b),
        JsonVal::Num(n) => JsonValV::Num(n),
        JsonVal::Str(s) => JsonValV::Str(s@),
        JsonVal::Array(a) => JsonValV::Array(view_json_list(a@)),
        JsonVal::Object(o) => JsonValV::Object(view_json_entries(o@)),
    }
}

/// View of a list of JSON values, element by element.
pub open spec fn view_json_list(s: Seq<JsonVal>) -> Seq<JsonValV>
    decreases s,
{
    if s.len() == 0 {
        Seq::empty()
    } else {
        view_json_list(s.drop_last()).push(view_json(s.last()))
    }
}

/// View of an object's entries, entry by entry.
pub open spec fn view_json_entries(s: Seq<(Vec<u8>, JsonVal)>) -> Seq<(Seq<u8>, JsonValV)>
    decreases s,
{
    if s.len() == 0 {
        Seq::empty()
    } else {
        view_json_entries(s.drop_last()).push((s.last().0@, view_json(s.last().1)))
    }
}

impl View for JsonVal {
    type V = JsonValV;

    open spec fn view(&self) -> JsonValV {
        view_json(*self)
    }
}

/// `view_json_list` gives one view per element.
pub proof fn lemma_view_json_list_index(s: Seq<JsonVal>)
    ensures
        view_json_list(s).len() == s.len(),
        forall|i: int| 0 <= i < s.len() ==> view_json_list(s)[i] == view_json(#[trigger] s[i]),
    decreases s,
{
    if s.len() > 0 {
        lemma_view_json_list_index(s.drop_last());
        assert forall|i: int| 0 <= i < s.len() implies view_json_list(s)[i] == view_json(
            #[trigger] s[i],
        ) by {
            if i < s.len() - 1 {
                assert(s.drop_last()[i] == s[i]);
                assert(view_json_list(s)[i] == view_json_list(s.drop_last())[i]);
            } else {
                assert(s[i] == s.last());
            }
        }
    }
}

/// `view_json_entries` gives one viewed entry per entry.
pub proof fn lemma_view_json_entries_index(s: Seq<(Vec<u8>, JsonVal)>)
    ensures
        view_json_entries(s).len() == s.len(),
        forall|i: int| 0 <= i < s.len() ==> view_json_entries(s)[i] == ((#[trigger] s[i]).0@,
        view_json(s[i].1)),
    decreases s,
{
    if s.len() > 0 {
        lemma_view_json_entries_index(s.drop_last());
        assert forall|i: int| 0 <= i < s.len() implies view_json_entries(s)[i] == ((
        #[trigger] s[i]).0@, view_json(s[i].1)) by {
            if i < s.len() - 1 {
                assert(s.drop_last()[i] == s[i]);
                assert(view_json_entries(s)[i] == view_json_entries(s.drop_last())[i]);
            } else {
                assert(s[i] == s.last());
            }
        }
    }
}

/// The value under `key` in an object's entries: the first entry whose key
/// matches, if any.
pub open spec fn object_get(s: Seq<(Seq<u8>, JsonValV)>, key: Seq<u8>) -> Option<JsonValV>
    decreases s,
{
    if s.len() == 0 {
        None
    } else if s.first().0 == key {
        Some(s.first().1)
    } else {
        object_get(s.drop_first(), key)
    }
}

/// One step into a JSON tree: an object key or an array index.
#[derive(Debug)]
pub enum PathIndex {
    Key(Vec<u8>),
    Index(usize),
}

/// Mathematical view of `PathIndex`.
pub enum PathIndexV {
    Key(Seq<u8>),
    Index(int),
}

impl View for PathIndex {
    type V = PathIndexV;

    open spec fn view(&self) -> PathIndexV {
        match self {
            PathIndex::Key(k) => PathIndexV::Key(k@),
            PathIndex::Index(i) => PathIndexV::Index(*i as int),
        }
    }
}

/// Appends one element to a copy of the list.
pub fn append<T: Clone>(s: &Vec<T>, a: T) -> (r: Vec<T>)
    ensures
        r.len() == s.len() + 1,
        forall|i: int| 0 <= i < s.len() ==> cloned::<T>(s[i], #[trigger] r[i]),
        r[s.len() as int] == a,
{
    let mut t = s.clone();
    t.push(a);
    t
}

/// A path into a JSON tree, one `PathIndex` per step.
#[derive(Debug)]
pub struct Path {
    pub p: Vec<PathIndex>,
}

/// View of a list of path steps, step by step.
pub open spec fn view_path_steps(s: Seq<PathIndex>) -> Seq<PathIndexV>
    decreases s,
{
    if s.len() == 0 {
        Seq::empty()
    } else {
        view_path_steps(s.drop_last()).push(s.last()@)
    }
}

/// `view_path_steps` gives one view per step.
pub proof fn lemma_view_path_steps_index(s: Seq<PathIndex>)
    ensures
        view_path_steps(s).len() == s.len(),
        forall|i: int| 0 <= i < s.len() ==> view_path_steps(s)[i] == (#[trigger] s[i])@,
    decreases s,
{
    if s.len() > 0 {
        lemma_view_path_steps_index(s.drop_last());
        assert forall|i: int| 0 <= i < s.len() implies view_path_steps(s)[i] == (
        #[trigger] s[i])@ by {
            if i < s.len() - 1 {
                assert(s.drop_last()[i] == s[i]);
                assert(view_path_steps(s)[i] == view_path_steps(s.drop_last())[i]);
            } else {
                assert(s[i] == s.last());
            }
        }
    }
}

/// Appending one step appends its view.
pub proof fn lemma_view_path_steps_push(s: Seq<PathIndex>, x: PathIndex)
    ensures
        view_path_steps(s.push(x)) == view_path_steps(s).push(x@),
{
    assert(s.push(x).drop_last() =~= s);
    assert(s.push(x).last() == x);
}

impl View for Path {
    type V = Seq<PathIndexV>;

    open spec fn view(&self) -> Seq<PathIndexV> {
        view_path_steps(self.p@)
    }
}

/// What a path finds in a JSON tree: each step descends through an object
/// by key or through an array by position; a step that does not apply
/// loses the value.
pub open spec fn path_lookup(path: Seq<PathIndexV>, v: JsonValV) -> Option<JsonValV>
    decreases path.len(),
{
    if path.len() == 0 {
        Some(v)
    } else {
        match (path.first(), v) {
            (PathIndexV::Key(k), JsonValV::Object(entries)) => match object_get(entries, k) {
                Some(inner) => path_lookup(path.drop_first(), inner),
                None => None,
            },
            (PathIndexV::Index(i), JsonValV::Array(items)) => if 0 <= i < items.len() {
                path_lookup(path.drop_first(), items[i])
            } else {
                None
            },
            _ => None,
        }
    }
}

impl Path {
    /// An empty path, naming the whole tree.
    pub fn new() -> (r: Self)
        ensures
            r@ == Seq::<PathIndexV>::empty(),
    {
        let r = Path { p: Vec::new() };
        proof {
            assert(r@ =~= Seq::<PathIndexV>::empty());
        }
        r
    }

    /// This path extended by one step.
    pub fn add(&self, i: PathIndex) -> (r: Self)
        ensures
            r@ == self@.push(i@),
    {
        let mut t: Vec<PathIndex> = Vec::new();
        let mut k: usize = 0;
        proof {
            lemma_view_path_steps_index(self.p@);
        }
        while k < self.p.len()
            invariant
                0 <= k <= self.p.len(),
                view_path_steps(self.p@).len() == self.p@.len(),
                forall|j: int| 0 <= j < self.p@.len() ==> view_path_steps(self.p@)[j] == (
                #[trigger] self.p@[j])@,
                view_path_steps(t@) == self@.subrange(0, k as int),
            decreases self.p.len() - k,
        {
            let step = match &self.p[k] {
                PathIndex::Key(s) => PathIndex::Key(clone_bytes(s)),
                PathIndex::Index(n) => PathIndex::Index(*n),
            };
            proof {
                assert(step@ == self.p@[k as int]@);
                lemma_view_path_steps_push(t@, step);
                assert(self@.subrange(0, k as int).push(self.p@[k as int]@) =~= self@.subrange(
                    0,
                    k as int + 1,
                ));
            }
            t.push(step);
            k = k + 1;
        }
        proof {
            assert(self@.subrange(0, self.p@.len() as int) =~= self@);
            lemma_view_path_steps_push(t@, i);
        }
        t.push(i);
        Path { p: t }
    }

    /// Follows this path into `v`.
    pub fn view_in<'a>(&self, v: &'a JsonVal) -> (r: Option<&'a JsonVal>)
        ensures
            match r {
                Some(found) => path_lookup(self@, v@) == Some(found@),
                None => path_lookup(self@, v@) is None,
            },
    {
        let mut cur: &JsonVal = v;
        let mut k: usize = 0;
        proof {
            lemma_view_path_steps_index(self.p@);
            assert(self@.subrange(0, self@.len() as int) =~= self@);
        }
        while k < self.p.len()
            invariant
                0 <= k <= self.p.len(),
                self@.len() == self.p@.len(),
                forall|j: int| 0 <= j < self.p@.len() ==> self@[j] == (#[trigger] self.p@[j])@,
                path_lookup(self@, v@) == path_lookup(
                    self@.subrange(k as int, self@.len() as int),
                    cur@,
                ),
            decreases self.p.len() - k,
        {
            let ghost rest = self@.subrange(k as int, self@.len() as int);
            proof {
                assert(rest.first() == self@[k as int]);
                assert(rest.drop_first() =~= self@.subrange(k as int + 1, self@.len() as int));
            }
            match (&self.p[k], cur) {
                (PathIndex::Key(key), JsonVal::Object(entries)) => {
                    let found = object_find(entries, key);
                    match found {
                        Some(inner) => {
                            cur = inner;
                        },
                        None => {
                            return None;
                        },
                    }
                },
                (PathIndex::Index(i), JsonVal::Array(items)) => {
                    proof {
                        lemma_view_json_list_index(items@);
                    }
                    if *i < items.len() {
                        cur = &items[*i];
                    } else {
                        return None;
                    }
                },
                _ => {
                    return None;
                },
            }
            k = k + 1;
        }
        proof {
            assert(self@.subrange(self@.len() as int, self@.len() as int) =~= Seq::<
                PathIndexV,
            >::empty());
        }
        Some(cur)
    }
}

/// Finds the first entry under `key` in an object's entry list.
pub fn object_find<'a>(entries: &'a Vec<(Vec<u8>, JsonVal)>, key: &Vec<u8>) -> (r: Option<
    &'a JsonVal,
>)
    ensures
        match r {
            Some(found) => object_get(view_json_entries(entries@), key@) == Some(found@),
            None => object_get(view_json_entries(entries@), key@) is None,
        },
{
    let mut k: usize = 0;
    proof {
        lemma_view_json_entries_index(entries@);
        assert(view_json_entries(entries@).subrange(0, entries@.len() as int)
            =~= view_json_entries(entries@));
    }
    while k < entries.len()
        invariant
            0 <= k <= entries.len(),
            view_json_entries(entries@).len() == entries@.len(),
            forall|i: int| 0 <= i < entries@.len() ==> view_json_entries(entries@)[i] == ((
            #[trigger] entries@[i]).0@, view_json(entries@[i].1)),
            object_get(view_json_entries(entries@), key@) == object_get(
                view_json_entries(entries@).subrange(k as int, entries@.len() as int),
                key@,
            ),
            forall|i: int| 0 <= i < k ==> (#[trigger] entries@[i]).0@ != key@,
        decreases entries.len() - k,
    {
        let ghost rest = view_json_entries(entries@).subrange(k as int, entries@.len() as int);
        proof {
            assert(rest.first() == view_json_entries(entries@)[k as int]);
            assert(rest.drop_first() =~= view_json_entries(entries@).subrange(
                k as int + 1,
                entries@.len() as int,
            ));
        }
        let c = crate::num::bytes_cmp(&entries[k].0, key);
        proof {
            crate::num::lemma_bytes_cmp_eq(entries@[k as int].0@, key@);
        }
        if matches!(c, crate::num::Cmp::Eq) {
            return Some(&entries[k].1);
        }
        k = k + 1;
    }
    proof {
        assert(view_json_entries(entries@).subrange(
            entries@.len() as int,
            entries@.len() as int,
        ) =~= Seq::<(Seq<u8>, JsonValV)>::empty());
    }
    None
}

/// Reads a JSON value as a language literal, where one of the four
/// literal shapes fits: null, booleans, numbers and strings convert;
/// arrays and objects do not.
pub open spec fn literal_of_json(v: JsonValV) -> Option<LiteralV> {
    match v {
        JsonValV::Null => Some(LiteralV::Nil),
        JsonValV::Bool(b) => Some(LiteralV::Boolean(b)),
        JsonValV::Num(n) => Some(LiteralV::Number(n)),
        JsonValV::Str(s) => Some(LiteralV::Str(s)),
        _ => None,
    }
}

/// Converts a JSON value to a literal, where its shape allows it.
pub fn try_literal(v: &JsonVal) -> (r: Option<Literal>)
    ensures
        match r {
            Some(l) => literal_of_json(v@) == Some(l@),
            None => literal_of_json(v@) is None,
        },
{
    match v {
        JsonVal::Null => Some(Literal::Nil),
        JsonVal::Bool(b) => Some(Literal::Boolean(*b)),
        JsonVal::Num(n) => Some(Literal::Number(*n)),
        JsonVal::Str(s) => Some(Literal::Str(clone_bytes(s))),
        JsonVal::Array(_) => None,
        JsonVal::Object(_) => None,
    }
}

/// Typed extraction of a plain value out of a JSON tree.  Each method
/// sees the attribute value of its shape and must return what its
/// answer function says; the default answer to every shape is that the
/// shape is not wanted.
pub trait Select<Output: View>: Sized {
    /// What this selector answers for a boolean attribute.
    open spec fn bool_answer(&self, value: bool) -> Option<<Output as View>::V> {
        None
    }

    /// What this selector answers for a string attribute.
    open spec fn string_answer(&self, value: Seq<u8>) -> Option<<Output as View>::V> {
        None
    }

    /// What this selector answers for a numeric attribute.
    open spec fn num_answer(&self, value: Num) -> Option<<Output as View>::V> {
        None
    }

    /// Offered a boolean attribute.
    fn select_bool(&self, value: bool) -> (r: Option<Output>)
        ensures
            match r {
                Some(o) => self.bool_answer(value) == Some(o@),
                None => self.bool_answer(value) is None,
            },
    ;

    /// Offered a string attribute.
    fn select_string(&self, value: &Vec<u8>) -> (r: Option<Output>)
        ensures
            match r {
                Some(o) => self.string_answer(value@) == Some(o@),
                None => self.string_answer(value@) is None,
            },
    ;

    /// Offered a numeric attribute.
    fn select_num(&self, value: Num) -> (r: Option<Output>)
        ensures
            match r {
                Some(o) => self.num_answer(value) == Some(o@),
                None => self.num_answer(value) is None,
            },
    ;
}

/// Follows `p` into `data` and offers what it finds to the selector
/// `s`: a boolean, string or numeric attribute draws the selector's
/// answer of that shape; an absent path, null, an array or an object
/// draws nothing.
pub fn select<S, Output: View>(s: &S, p: &Path, data: &JsonVal) -> (r: Option<Output>) where
    S: Select<Output>,

    ensures
        match path_lookup(p@, data@) {
            Some(JsonValV::Bool(b)) => match r {
                Some(o) => s.bool_answer(b) == Some(o@),
                None => s.bool_answer(b) is None,
            },
            Some(JsonValV::Str(v)) => match r {
                Some(o) => s.string_answer(v) == Some(o@),
                None => s.string_answer(v) is None,
            },
            Some(JsonValV::Num(n)) => match r {
                Some(o) => s.num_answer(n) == Some(o@),
                None => s.num_answer(n) is None,
            },
            _ => r is None,
        },
{
    let found = p.view_in(data);
    match found {
        Some(v) => match v {
            JsonVal::Bool(b) => s.select_bool(*b),
            JsonVal::Str(st) => s.select_string(st),
            JsonVal::Num(n) => s.select_num(*n),
            _ => None,
        },
        None => None,
    }
}

/// A selector that takes a string attribute as it stands.
#[derive(Debug, Clone, PartialEq)]
pub struct SelectorString;

impl Select<Vec<u8>> for SelectorString {
    /// The string itself.
    open spec fn string_answer(&self, value: Seq<u8>) -> Option<Seq<u8>> {
        Some(value)
    }

    /// Returns the string itself.
    fn select_string(&self, value: &Vec<u8>) -> (r: Option<Vec<u8>>) {
        Some(clone_bytes(value))
    }

    /// A boolean is not a string.
    fn select_bool(&self, value: bool) -> (r: Option<Vec<u8>>) {
        None
    }

    /// A number is not a string.
    fn select_num(&self, value: Num) -> (r: Option<Vec<u8>>) {
        None
    }
}

/// Builds the string selector.
pub fn selector_string() -> SelectorString {
    SelectorString
}

/// A selector that takes a boolean attribute as it stands.
#[derive(Debug, Clone, PartialEq)]
pub struct SelectorBool;

impl Select<bool> for SelectorBool {
    /// The boolean itself.
    open spec fn bool_answer(&self, value: bool) -> Option<bool> {
        Some(value)
    }

    /// Returns the boolean itself.
    fn select_bool(&self, value: bool) -> (r: Option<bool>) {
        Some(value)
    }

    /// A string is not a boolean.
    fn select_string(&self, value: &Vec<u8>) -> (r: Option<bool>) {
        None
    }

    /// A number is not a boolean.
    fn select_num(&self, value: Num) -> (r: Option<bool>) {
        None
    }
}

/// Builds the boolean selector.
pub fn selector_bool() -> SelectorBool {
    SelectorBool
}

/// A selector that takes a numeric attribute as it stands.
#[derive(Debug, Clone, PartialEq)]
pub struct SelectorNumber;

impl Select<Num> for SelectorNumber {
    /// The number itself.
    open spec fn num_answer(&self, value: Num) -> Option<Num> {
        Some(value)
    }

    /// Returns the number itself.
    fn select_num(&self, value: Num) -> (r: Option<Num>) {
        Some(value)
    }

    /// A boolean is not a number.
    fn select_bool(&self, value: bool) -> (r: Option<Num>) {
        None
    }

    /// A string is not a number.
    fn select_string(&self, value: &Vec<u8>) -> (r: Option<Num>) {
        None
    }
}

/// Builds the numeric selector.
pub fn selector_number() -> SelectorNumber {
    SelectorNumber
}

} // verus!
