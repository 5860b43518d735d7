//! The value model: tagged property values and the node / edge records
//! that the storage engine persists.
//!
//! A float value is carried as its IEEE 754 bit pattern (`u64`), so that
//! the whole model stays within the types the verifier can reason about;
//! the gateway edge converts to and from `f64` when it builds responses.

use vstd::prelude::*;

verus! {

broadcast use vstd::std_specs::vec::group_vec_axioms;

/// Character-for-character equality of two string slices.
pub fn str_eq(a: &str, b: &str) -> (r: bool)
    ensures
        r == (a@ == b@),
{
    let a_s: String = a.to_owned();
    let b_s: String = b.to_owned();
    a_s == b_s
}

/// A property value: a closed sum over six cases.
#[derive(Debug, PartialEq, Eq)]
pub enum Value {
    String(String),
    /// IEEE 754 double, stored as its bit pattern.
    Float(u64),
    Integer(i32),
    Boolean(bool),
    Array(Vec<Value>),
    Null,
}

/// The mathematical shape of a `Value`: strings become character
/// sequences, arrays become sequences of shapes.
pub enum ValueV {
    String(Seq<char>),
    Float(u64),
    Integer(i32),
    Boolean(bool),
    Array(Seq<ValueV>),
    Null,
}

/// The shape of a `Value`, recursively.
pub open spec fn value_view(v: Value) -> ValueV
    decreases v,
{
    match v {
        Value::String(s) => ValueV::String(s@),
        Value::Float(bits) => ValueV::Float(bits),
        Value::Integer(i) => ValueV::Integer(i),
        Value::Boolean(b) => ValueV::Boolean(b),
        Value::Array(items) => ValueV::Array(
            Seq::new(
                items@.len(),
                |i: int|
                    if 0 <= i < items@.len() {
                        proof {
                            assert(decreases_to!(v => items));
                            assert(decreases_to!(items => items@));
                            assert(decreases_to!(items@ => items@[i]));
                        }
                        value_view(items@[i])
                    } else {
                        ValueV::Null
                    },
            ),
        ),
        Value::Null => ValueV::Null,
    }
}

/// The shapes of a run of values, element by element.
pub open spec fn views_of(s: Seq<Value>) -> Seq<ValueV> {
    Seq::new(s.len(), |i: int| value_view(s[i]))
}

/// An array's shape is the sequence of its elements' shapes.
pub proof fn lemma_array_view(items: Vec<Value>)
    ensures
        value_view(Value::Array(items)) == ValueV::Array(views_of(items@)),
{
    assert(value_view(Value::Array(items))->Array_0 =~= views_of(items@));
}

impl View for Value {
    type V = ValueV;

    open spec fn view(&self) -> ValueV {
        value_view(*self)
    }
}

impl Clone for Value {
    /// Cloning keeps the shape exactly.
    fn clone(&self) -> (res: Self)
        ensures
            res@ == self@,
    {
        clone_value(self)
    }
}

/// Copies a value; the copy has the same shape.
fn clone_value(v: &Value) -> (res: Value)
    ensures
        value_view(res) == value_view(*v),
    decreases *v,
{
    match v {
        Value::String(s) => Value::String(s.clone()),
        Value::Float(bits) => Value::Float(*bits),
        Value::Integer(i) => Value::Integer(*i),
        Value::Boolean(b) => Value::Boolean(*b),
        Value::Null => Value::Null,
        Value::Array(items) => {
            proof {
                assert(*v == Value::Array(*items));
            }
            let mut out: Vec<Value> = Vec::new();
            let mut i: usize = 0;
            while i < items.len()
                invariant
                    *v == Value::Array(*items),
                    i <= items@.len(),
                    out@.len() == i,
                    forall|j: int|
                        0 <= j < i ==> value_view(out@[j]) == value_view(items@[j]),
                decreases items@.len() - i,
            {
                proof {
                    assert(*items == v->Array_0);
                    assert(decreases_to!(*v => v->Array_0));
                    assert(decreases_to!(*items => items@));
                    assert(decreases_to!(items@ => items@[i as int]));
                }
                let c = clone_value(&items[i]);
                out.push(c);
                i = i + 1;
            }
            proof {
                assert(value_view(Value::Array(out))->Array_0
                    =~= value_view(*v)->Array_0);
                assert(value_view(Value::Array(out)) == value_view(*v));
            }
            Value::Array(out)
        },
    }
}

impl From<i32> for Value {
    /// A literal integer coerces to the integer value.
    fn from(i: i32) -> (r: Value) {
        Value::Integer(i)
    }
}

impl vstd::std_specs::convert::FromSpecImpl<i32> for Value {
    open spec fn obeys_from_spec() -> bool {
        true
    }

    open spec fn from_spec(i: i32) -> Value {
        Value::Integer(i)
    }
}

impl From<bool> for Value {
    /// A literal truth value coerces to the boolean value.
    fn from(b: bool) -> (r: Value) {
        Value::Boolean(b)
    }
}

impl vstd::std_specs::convert::FromSpecImpl<bool> for Value {
    open spec fn obeys_from_spec() -> bool {
        true
    }

    open spec fn from_spec(b: bool) -> Value {
        Value::Boolean(b)
    }
}

impl From<&str> for Value {
    /// A literal string coerces to the string value. No owned string can
    /// be named in a specification, so the shape is stated here instead
    /// of through `from_spec`.
    fn from(s: &str) -> (r: Value)
        ensures
            r@ == ValueV::String(s@),
    {
        Value::String(s.to_owned())
    }
}

impl vstd::std_specs::convert::FromSpecImpl<&str> for Value {
    open spec fn obeys_from_spec() -> bool {
        false
    }

    open spec fn from_spec(s: &str) -> Value {
        Value::Null
    }
}

/// The shape of a property list: each pair keeps its place.
pub open spec fn props_view(props: Seq<(String, Value)>) -> Seq<(Seq<char>, ValueV)> {
    Seq::new(props.len(), |i: int| (props[i].0@, value_view(props[i].1)))
}

/// The mapping a property list denotes: later entries overwrite earlier.
pub open spec fn props_model(props: Seq<(String, Value)>) -> Map<Seq<char>, ValueV>
    decreases props.len(),
{
    if props.len() == 0 {
        Map::empty()
    } else {
        props_model(props.drop_last()).insert(props.last().0@, value_view(props.last().1))
    }
}

/// No two entries of the list share a key.
pub open spec fn props_keys_unique(props: Seq<(String, Value)>) -> bool {
    forall|i: int, j: int|
        0 <= i < j < props.len() ==> props[i].0@ != props[j].0@
}

/// A node record.
#[derive(Debug, Clone, PartialEq, Eq)]
pub struct Node {
    pub id: String,
    pub label: String,
    pub properties: Vec<(String, Value)>,
}

/// A edge record, with the ids of its two endpoint nodes.
#[derive(Debug, Clone, PartialEq, Eq)]
pub struct Edge {
    pub id: String,
    pub label: String,
    pub from_node: String,
    pub to_node: String,
    pub properties: Vec<(String, Value)>,
}

/// The mathematical shape of a node record.
pub struct NodeV {
    pub id: Seq<char>,
    pub label: Seq<char>,
    pub properties: Seq<(Seq<char>, ValueV)>,
}

/// The mathematical shape of an edge record.
pub struct EdgeV {
    pub id: Seq<char>,
    pub label: Seq<char>,
    pub from_node: Seq<char>,
    pub to_node: Seq<char>,
    pub properties: Seq<(Seq<char>, ValueV)>,
}

impl View for Node {
    type V = NodeV;

    open spec fn view(&self) -> NodeV {
        NodeV { id: self.id@, label: self.label@, properties: props_view(self.properties@) }
    }
}

impl View for Edge {
    type V = EdgeV;

    open spec fn view(&self) -> EdgeV {
        EdgeV {
            id: self.id@,
            label: self.label@,
            from_node: self.from_node@,
            to_node: self.to_node@,
            properties: props_view(self.properties@),
        }
    }
}

impl Node {
    /// Looks a property up by key; the last entry under the key decides.
    pub fn property<'a>(&'a self, key: &str) -> (r: Option<&'a Value>)
        ensures
            match r {
                Some(v) => props_model(self.properties@).contains_key(key@)
                    && value_view(*v) == props_model(self.properties@)[key@],
                None => !props_model(self.properties@).contains_key(key@),
            },
    {
        props_get(&self.properties, key)
    }
}

impl Edge {
    /// Looks a property up by key; the last entry under the key decides.
    pub fn property<'a>(&'a self, key: &str) -> (r: Option<&'a Value>)
        ensures
            match r {
                Some(v) => props_model(self.properties@).contains_key(key@)
                    && value_view(*v) == props_model(self.properties@)[key@],
                None => !props_model(self.properties@).contains_key(key@),
            },
    {
        props_get(&self.properties, key)
    }
}

/// Looks a key up in a property list; the last entry under the key decides.
pub fn props_get<'a>(props: &'a Vec<(String, Value)>, key: &str) -> (r: Option<&'a Value>)
    ensures
        match r {
            Some(v) => props_model(props@).contains_key(key@)
                && value_view(*v) == props_model(props@)[key@],
            None => !props_model(props@).contains_key(key@),
        },
{
    let n = props.len();
    let mut i: usize = n;
    while i > 0
        invariant
            i <= n,
            n == props@.len(),
            forall|j: int| i <= j < n ==> props@[j].0@ != key@,
        decreases i,
    {
        i = i - 1;
        if str_eq(props[i].0.as_str(), key) {
            proof {
                lemma_props_model_last_hit(props@, key@, i as int);
            }
            return Some(&props[i].1);
        }
    }
    proof {
        lemma_props_model_miss(props@, key@);
    }
    None
}

/// If position `i` holds the last entry under key `k`, the model maps `k`
/// to that entry's value.
proof fn lemma_props_model_last_hit(props: Seq<(String, Value)>, k: Seq<char>, i: int)
    requires
        0 <= i < props.len(),
        props[i].0@ == k,
        forall|j: int| i < j < props.len() ==> props[j].0@ != k,
    ensures
        props_model(props).contains_key(k),
        props_model(props)[k] == value_view(props[i].1),
    decreases props.len(),
{
    if i == props.len() - 1 {
    } else {
        assert(props.drop_last()[i] == props[i]);
        lemma_props_model_last_hit(props.drop_last(), k, i);
    }
}

/// If no entry holds key `k`, the model does not contain `k`.
proof fn lemma_props_model_miss(props: Seq<(String, Value)>, k: Seq<char>)
    requires
        forall|j: int| 0 <= j < props.len() ==> props[j].0@ != k,
    ensures
        !props_model(props).contains_key(k),
    decreases props.len(),
{
    if props.len() > 0 {
        lemma_props_model_miss(props.drop_last(), k);
    }
}

/// The model contains a key exactly when some entry holds it.
pub proof fn lemma_props_model_domain(props: Seq<(String, Value)>, k: Seq<char>)
    ensures
        props_model(props).contains_key(k) <==> exists|i: int|
            0 <= i < props.len() && props[i].0@ == k,
    decreases props.len(),
{
    if props.len() > 0 {
        lemma_props_model_domain(props.drop_last(), k);
        if props.last().0@ == k {
            assert(props[props.len() - 1].0@ == k);
        } else if props_model(props).contains_key(k) {
            let i = choose|i: int| 0 <= i < props.drop_last().len()
                && props.drop_last()[i].0@ == k;
            assert(props[i].0@ == k);
        } else {
            assert forall|i: int| 0 <= i < props.len() implies props[i].0@ != k by {
                if i < props.len() - 1 {
                    assert(props.drop_last()[i] == props[i]);
                }
            }
        }
    }
}

/// Builds a property list with unique keys from an ordered sequence of
/// pairs: later entries overwrite earlier ones, and the mapping denoted
/// is kept exactly.
pub fn build_props(pairs: Vec<(String, Value)>) -> (r: Vec<(String, Value)>)
    ensures
        props_keys_unique(r@),
        props_model(r@) == props_model(pairs@),
        r@.len() <= pairs@.len(),
        forall|i: int| 0 <= i < r@.len()
            ==> exists|j: int| 0 <= j < pairs@.len() && #[trigger] r@[i] == pairs@[j],
{
    let ghost all = pairs@;
    let mut rest = pairs;
    let mut out: Vec<(String, Value)> = Vec::new();
    proof {
        assert(props_model(all)
            =~= props_model(rest@).union_prefer_right(props_model(out@)));
        assert(rest@ == all.take(rest@.len() as int));
    }
    while rest.len() > 0
        invariant
            props_keys_unique(out@),
            props_model(all) == props_model(rest@).union_prefer_right(props_model(out@)),
            rest@.len() <= all.len(),
            out@.len() + rest@.len() <= all.len(),
            rest@ == all.take(rest@.len() as int),
            forall|i: int| 0 <= i < out@.len()
                ==> exists|j: int| 0 <= j < all.len() && #[trigger] out@[i] == all[j],
        decreases rest@.len(),
    {
        let ghost rest0 = rest@;
        let pair = rest.pop().unwrap();
        proof {
            assert(all.take(rest0.len() as int).drop_last() =~= all.take(rest0.len() - 1));
            assert(pair == all[rest0.len() - 1]);
        }
        let present = props_get(&out, pair.0.as_str()).is_some();
        proof {
            lemma_props_model_domain(out@, pair.0@);
            assert(rest0 == rest@.push(pair));
            assert(rest@ == rest0.drop_last());
        }
        if !present {
            let ghost out0 = out@;
            let ghost k = pair.0@;
            let ghost vv = value_view(pair.1);
            out.push(pair);
            proof {
                assert forall|i: int| 0 <= i < out@.len()
                    implies exists|j: int| 0 <= j < all.len()
                        && #[trigger] out@[i] == all[j] by {
                    if i < out@.len() - 1 {
                        assert(out@[i] == out0[i]);
                    } else {
                        assert(out@[i] == all[rest0.len() - 1]);
                    }
                }
                assert(out@.drop_last() == out0);
                assert(props_model(out@) == props_model(out0).insert(k, vv));
                assert(props_model(rest0) == props_model(rest@).insert(k, vv));
                assert(props_model(rest0).union_prefer_right(props_model(out0))
                    =~= props_model(rest@).union_prefer_right(props_model(out@)));
                assert forall|i: int, j: int| 0 <= i < j < out@.len()
                    implies out@[i].0@ != out@[j].0@ by {
                    if j == out@.len() - 1 {
                        lemma_props_model_domain(out0, out@[i].0@);
                    } else {
                        assert(out@[i] == out0[i] && out@[j] == out0[j]);
                    }
                }
            }
        } else {
            proof {
                let ghost k = pair.0@;
                let ghost vv = value_view(pair.1);
                assert(props_model(rest0) == props_model(rest@).insert(k, vv));
                assert(props_model(rest0).union_prefer_right(props_model(out@))
                    =~= props_model(rest@).union_prefer_right(props_model(out@)));
            }
        }
    }
    proof {
        assert(rest@.len() == 0);
        assert(props_model(rest@) =~= Map::<Seq<char>, ValueV>::empty());
        assert(props_model(all)
            =~= props_model(rest@).union_prefer_right(props_model(out@)));
        assert(props_model(all) =~= props_model(out@));
    }
    out
}

} // verus!
