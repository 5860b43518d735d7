//! The binary record format: a compact, length-prefixed encoding of
//! property values and of node / edge records, shared between the store's
//! disk records and wire responses. Integers are little-endian; strings
//! are a character count followed by one 32-bit scalar per character;
//! deserialization is proved to invert serialization exactly.

use vstd::prelude::*;

verus! {

broadcast use {
    vstd::std_specs::vec::group_vec_axioms,
    vstd::utf8::char_is_scalar,
    vstd::utf8::char_u32_cast,
};

// ---- little-endian integers ----

/// Four little-endian bytes of a 32-bit integer.
pub open spec fn ser_u32(n: u32) -> Seq<u8> {
    seq![n as u8, (n >> 8) as u8, (n >> 16) as u8, (n >> 24) as u8]
}

/// The 32-bit integer four little-endian bytes spell.
pub open spec fn u32_le(b0: u8, b1: u8, b2: u8, b3: u8) -> u32 {
    (b0 as u32) | ((b1 as u32) << 8) | ((b2 as u32) << 16) | ((b3 as u32) << 24)
}

/// Reading back the four bytes of `n` gives `n`.
pub proof fn lemma_u32_le_ser(n: u32)
    ensures
        u32_le(n as u8, (n >> 8) as u8, (n >> 16) as u8, (n >> 24) as u8) == n,
{
    assert(((n as u8) as u32) | ((((n >> 8) as u8) as u32) << 8)
        | ((((n >> 16) as u8) as u32) << 16) | ((((n >> 24) as u8) as u32) << 24) == n)
        by (bit_vector);
}

/// Eight little-endian bytes of a 64-bit integer.
pub open spec fn ser_u64(n: u64) -> Seq<u8> {
    ser_u32(n as u32) + ser_u32((n >> 32) as u32)
}

/// Joining the two 32-bit halves gives back the 64-bit integer.
pub proof fn lemma_u64_halves(n: u64)
    ensures
        ((n as u32) as u64) | ((((n >> 32) as u32) as u64) << 32) == n,
{
    assert(((n as u32) as u64) | ((((n >> 32) as u32) as u64) << 32) == n) by (bit_vector);
}

/// Reads a 32-bit integer at `pos`, if four bytes are there.
pub open spec fn deser_u32_at(b: Seq<u8>, pos: int) -> Option<(u32, int)> {
    if 0 <= pos && pos + 4 <= b.len() {
        Some((u32_le(b[pos], b[pos + 1], b[pos + 2], b[pos + 3]), pos + 4))
    } else {
        None
    }
}

/// Reads a 64-bit integer at `pos`.
pub open spec fn deser_u64_at(b: Seq<u8>, pos: int) -> Option<(u64, int)> {
    match deser_u32_at(b, pos) {
        Some((lo, p1)) => match deser_u32_at(b, p1) {
            Some((hi, p2)) => Some(((lo as u64) | ((hi as u64) << 32), p2)),
            None => None,
        },
        None => None,
    }
}

/// Reading where four serialized bytes of `n` sit yields `n`.
pub proof fn lemma_rt_u32(pre: Seq<u8>, n: u32, post: Seq<u8>)
    ensures
        deser_u32_at(pre + ser_u32(n) + post, pre.len() as int)
            == Some((n, pre.len() + 4 as int)),
{
    let b = pre + ser_u32(n) + post;
    let pos = pre.len() as int;
    assert(b[pos] == n as u8 && b[pos + 1] == (n >> 8) as u8
        && b[pos + 2] == (n >> 16) as u8 && b[pos + 3] == (n >> 24) as u8);
    lemma_u32_le_ser(n);
}

/// Reading where eight serialized bytes of `n` sit yields `n`.
pub proof fn lemma_rt_u64(pre: Seq<u8>, n: u64, post: Seq<u8>)
    ensures
        deser_u64_at(pre + ser_u64(n) + post, pre.len() as int)
            == Some((n, pre.len() + 8 as int)),
{
    let b = pre + ser_u64(n) + post;
    assert(pre + ser_u64(n) + post
        =~= pre + ser_u32(n as u32) + (ser_u32((n >> 32) as u32) + post));
    lemma_rt_u32(pre, n as u32, ser_u32((n >> 32) as u32) + post);
    assert(pre + ser_u32(n as u32) + (ser_u32((n >> 32) as u32) + post)
        =~= (pre + ser_u32(n as u32)) + ser_u32((n >> 32) as u32) + post);
    lemma_rt_u32(pre + ser_u32(n as u32), (n >> 32) as u32, post);
    lemma_u64_halves(n);
}

// ---- characters and strings ----

/// The 32-bit values that are Unicode scalar values.
pub open spec fn valid_scalar(u: u32) -> bool {
    u < 0xD800 || (0xE000 <= u && u <= 0x10FFFF)
}

/// One character: its scalar value, little-endian.
pub open spec fn ser_char(c: char) -> Seq<u8> {
    ser_u32(c as u32)
}

/// Reads one character at `pos`: a 32-bit scalar value.
pub open spec fn deser_char_at(b: Seq<u8>, pos: int) -> Option<(char, int)> {
    match deser_u32_at(b, pos) {
        Some((u, p)) => if valid_scalar(u) {
            Some((u as char, p))
        } else {
            None
        },
        None => None,
    }
}

/// A run of characters, one after the other.
pub open spec fn ser_chars(s: Seq<char>) -> Seq<u8>
    decreases s.len(),
{
    if s.len() == 0 {
        Seq::empty()
    } else {
        ser_char(s[0]) + ser_chars(s.skip(1))
    }
}

/// Reads `count` characters starting at `pos`.
pub open spec fn deser_chars(b: Seq<u8>, pos: int, count: int) -> Option<(Seq<char>, int)>
    decreases count,
{
    if count <= 0 {
        Some((Seq::empty(), pos))
    } else {
        match deser_char_at(b, pos) {
            Some((c, p)) => match deser_chars(b, p, count - 1) {
                Some((rest, q)) => Some((seq![c] + rest, q)),
                None => None,
            },
            None => None,
        }
    }
}

/// A string: its character count, then its characters.
pub open spec fn ser_string(s: Seq<char>) -> Seq<u8> {
    ser_u32(s.len() as u32) + ser_chars(s)
}

/// Reads a string at `pos`: a count, then that many characters.
pub open spec fn deser_string_at(b: Seq<u8>, pos: int) -> Option<(Seq<char>, int)> {
    match deser_u32_at(b, pos) {
        Some((count, p)) => deser_chars(b, p, count as int),
        None => None,
    }
}

/// The string's length fits its 32-bit count prefix.
pub open spec fn string_fits(s: Seq<char>) -> bool {
    s.len() < 0x1_0000_0000
}

/// Reading where the serialized characters of `s` sit yields `s`.
pub proof fn lemma_rt_chars(pre: Seq<u8>, s: Seq<char>, post: Seq<u8>)
    ensures
        deser_chars(pre + ser_chars(s) + post, pre.len() as int, s.len() as int)
            == Some((s, pre.len() + ser_chars(s).len() as int)),
    decreases s.len(),
{
    if s.len() == 0 {
        assert(pre + ser_chars(s) + post =~= pre + post);
        assert(s =~= Seq::<char>::empty());
    } else {
        let c = s[0];
        let rest = s.skip(1);
        let b = pre + ser_chars(s) + post;
        assert(b =~= pre + ser_char(c) + (ser_chars(rest) + post));
        lemma_rt_u32(pre, c as u32, ser_chars(rest) + post);
        vstd::utf8::char_is_scalar(c);
        assert(valid_scalar(c as u32));
        vstd::utf8::char_u32_cast(c, c as u32);
        assert((c as u32) as char == c);
        assert(b =~= (pre + ser_char(c)) + ser_chars(rest) + post);
        lemma_rt_chars(pre + ser_char(c), rest, post);
        assert(seq![c] + rest =~= s);
    }
}

/// Reading where a serialized string sits yields that string.
pub proof fn lemma_rt_string(pre: Seq<u8>, s: Seq<char>, post: Seq<u8>)
    requires
        string_fits(s),
    ensures
        deser_string_at(pre + ser_string(s) + post, pre.len() as int)
            == Some((s, pre.len() + ser_string(s).len() as int)),
{
    let b = pre + ser_string(s) + post;
    assert(b =~= pre + ser_u32(s.len() as u32) + (ser_chars(s) + post));
    lemma_rt_u32(pre, s.len() as u32, ser_chars(s) + post);
    assert((s.len() as u32) as int == s.len() as int);
    assert(b =~= (pre + ser_u32(s.len() as u32)) + ser_chars(s) + post);
    lemma_rt_chars(pre + ser_u32(s.len() as u32), s, post);
}

// ---- signed integers ----

/// A signed 32-bit integer: a sign byte (1 for nonnegative, 0 for
/// negative), then the magnitude.
pub open spec fn ser_i32(i: i32) -> Seq<u8> {
    if i >= 0 {
        seq![1u8] + ser_u32(i as u32)
    } else {
        seq![0u8] + ser_u32((-(i as int)) as u32)
    }
}

/// Reads a signed 32-bit integer at `pos`.
pub open spec fn deser_i32_at(b: Seq<u8>, pos: int) -> Option<(i32, int)> {
    if 0 <= pos && pos + 1 <= b.len() {
        let sign = b[pos];
        match deser_u32_at(b, pos + 1) {
            Some((m, p)) => if sign == 1u8 && m <= 0x7fff_ffff {
                Some((m as i32, p))
            } else if sign == 0u8 && 1 <= m && m <= 0x8000_0000 {
                Some(((-(m as int)) as i32, p))
            } else {
                None
            },
            None => None,
        }
    } else {
        None
    }
}

/// Reading where a serialized signed integer sits yields it.
pub proof fn lemma_rt_i32(pre: Seq<u8>, i: i32, post: Seq<u8>)
    ensures
        deser_i32_at(pre + ser_i32(i) + post, pre.len() as int)
            == Some((i, pre.len() + 5 as int)),
{
    let b = pre + ser_i32(i) + post;
    if i >= 0 {
        assert(b =~= (pre + seq![1u8]) + ser_u32(i as u32) + post);
        lemma_rt_u32(pre + seq![1u8], i as u32, post);
        assert(b[pre.len() as int] == 1u8);
    } else {
        let m = (-(i as int)) as u32;
        assert(b =~= (pre + seq![0u8]) + ser_u32(m) + post);
        lemma_rt_u32(pre + seq![0u8], m, post);
        assert(b[pre.len() as int] == 0u8);
        assert(1 <= m && m <= 0x8000_0000);
        assert((-(m as int)) as i32 == i);
    }
}

// ---- property values ----

use crate::value::{Value, ValueV, NodeV, EdgeV, Node, Edge, value_view, props_view, views_of};

/// A serialized value: a tag byte, then the case's payload.
pub open spec fn ser_value_v(v: ValueV) -> Seq<u8>
    decreases v,
{
    match v {
        ValueV::String(s) => seq![0u8] + ser_string(s),
        ValueV::Float(bits) => seq![1u8] + ser_u64(bits),
        ValueV::Integer(i) => seq![2u8] + ser_i32(i),
        ValueV::Boolean(flag) => seq![3u8, if flag { 1u8 } else { 0u8 }],
        ValueV::Array(items) => {
            proof {
                assert(decreases_to!(v => items));
            }
            seq![4u8] + ser_u32(items.len() as u32) + ser_values_v(items)
        },
        ValueV::Null => seq![5u8],
    }
}

/// A run of serialized values, one after the other.
pub open spec fn ser_values_v(items: Seq<ValueV>) -> Seq<u8>
    decreases items,
{
    if items.len() == 0 {
        Seq::empty()
    } else {
        proof {
            assert(decreases_to!(items => items[0]));
            assert(decreases_to!(items => items.skip(1)));
        }
        ser_value_v(items[0]) + ser_values_v(items.skip(1))
    }
}

/// Every count and string length in the value fits its 32-bit prefix.
pub open spec fn value_fits(v: ValueV) -> bool
    decreases v,
{
    match v {
        ValueV::String(s) => string_fits(s),
        ValueV::Array(items) => items.len() < 0x1_0000_0000 && (forall|i: int|
            0 <= i < items.len() ==> value_fits(#[trigger] items[i])),
        _ => true,
    }
}

/// Reads one value at `pos`: a tag byte, then the case's payload.
pub open spec fn deser_value_at(b: Seq<u8>, pos: int) -> Option<(ValueV, int)>
    decreases b.len() - pos, 0int, 0int,
{
    if pos < 0 || pos + 1 > b.len() {
        None
    } else {
        let tag = b[pos];
        let p = pos + 1;
        if tag == 0u8 {
            match deser_string_at(b, p) {
                Some((s, q)) => Some((ValueV::String(s), q)),
                None => None,
            }
        } else if tag == 1u8 {
            match deser_u64_at(b, p) {
                Some((bits, q)) => Some((ValueV::Float(bits), q)),
                None => None,
            }
        } else if tag == 2u8 {
            match deser_i32_at(b, p) {
                Some((i, q)) => Some((ValueV::Integer(i), q)),
                None => None,
            }
        } else if tag == 3u8 {
            if p + 1 <= b.len() && (b[p] == 0u8 || b[p] == 1u8) {
                Some((ValueV::Boolean(b[p] == 1u8), p + 1))
            } else {
                None
            }
        } else if tag == 4u8 {
            match deser_u32_at(b, p) {
                Some((count, p2)) => if pos < p2 && p2 <= b.len() {
                    match deser_values_at(b, p2, count as int) {
                        Some((vs, q)) => Some((ValueV::Array(vs), q)),
                        None => None,
                    }
                } else {
                    None
                },
                None => None,
            }
        } else if tag == 5u8 {
            Some((ValueV::Null, p))
        } else {
            None
        }
    }
}

/// Reads `count` values, one after the other.
pub open spec fn deser_values_at(b: Seq<u8>, pos: int, count: int) -> Option<(Seq<ValueV>, int)>
    decreases b.len() - pos, 1int, count,
{
    if count <= 0 {
        Some((Seq::empty(), pos))
    } else if pos < 0 || pos > b.len() {
        None
    } else {
        match deser_value_at(b, pos) {
            Some((v, p)) => if pos < p && p <= b.len() {
                match deser_values_at(b, p, count - 1) {
                    Some((vs, q)) => Some((seq![v] + vs, q)),
                    None => None,
                }
            } else {
                None
            },
            None => None,
        }
    }
}

/// Reading where a serialized value sits yields that value.
#[verifier::rlimit(100)]
#[verifier::spinoff_prover]
pub proof fn lemma_rt_value(pre: Seq<u8>, v: ValueV, post: Seq<u8>)
    requires
        value_fits(v),
    ensures
        deser_value_at(pre + ser_value_v(v) + post, pre.len() as int)
            == Some((v, pre.len() + ser_value_v(v).len() as int)),
    decreases v,
{
    let b = pre + ser_value_v(v) + post;
    let pos = pre.len() as int;
    match v {
        ValueV::String(s) => {
            assert(b[pos] == 0u8);
            assert(b =~= (pre + seq![0u8]) + ser_string(s) + post);
            lemma_rt_string(pre + seq![0u8], s, post);
        },
        ValueV::Float(bits) => {
            assert(b[pos] == 1u8);
            assert(b =~= (pre + seq![1u8]) + ser_u64(bits) + post);
            lemma_rt_u64(pre + seq![1u8], bits, post);
        },
        ValueV::Integer(i) => {
            assert(b[pos] == 2u8);
            assert(b =~= (pre + seq![2u8]) + ser_i32(i) + post);
            lemma_rt_i32(pre + seq![2u8], i, post);
        },
        ValueV::Boolean(flag) => {
            assert(b[pos] == 3u8);
            assert(b[pos + 1] == (if flag { 1u8 } else { 0u8 }));
        },
        ValueV::Array(items) => {
            assert(decreases_to!(v => items));
            assert(b[pos] == 4u8);
            let n = items.len() as u32;
            assert(b =~= (pre + seq![4u8]) + ser_u32(n) + (ser_values_v(items) + post));
            lemma_rt_u32(pre + seq![4u8], n, ser_values_v(items) + post);
            assert(b =~= (pre + seq![4u8] + ser_u32(n)) + ser_values_v(items) + post);
            lemma_rt_values(pre + seq![4u8] + ser_u32(n), items, post);
            assert(n as int == items.len() as int);
        },
        ValueV::Null => {
            assert(b[pos] == 5u8);
        },
    }
}

/// Reading where a run of serialized values sits yields the run.
pub proof fn lemma_rt_values(pre: Seq<u8>, items: Seq<ValueV>, post: Seq<u8>)
    requires
        forall|i: int| 0 <= i < items.len() ==> value_fits(#[trigger] items[i]),
    ensures
        deser_values_at(pre + ser_values_v(items) + post, pre.len() as int, items.len() as int)
            == Some((items, pre.len() + ser_values_v(items).len() as int)),
    decreases items,
{
    if items.len() == 0 {
        assert(pre + ser_values_v(items) + post =~= pre + post);
        assert(items =~= Seq::<ValueV>::empty());
    } else {
        assert(decreases_to!(items => items[0]));
        assert(decreases_to!(items => items.skip(1)));
        let head = items[0];
        let rest = items.skip(1);
        let b = pre + ser_values_v(items) + post;
        assert(b =~= pre + ser_value_v(head) + (ser_values_v(rest) + post));
        lemma_rt_value(pre, head, ser_values_v(rest) + post);
        assert(b =~= (pre + ser_value_v(head)) + ser_values_v(rest) + post);
        assert(forall|i: int| 0 <= i < rest.len() ==> value_fits(#[trigger] rest[i]));
        lemma_rt_values(pre + ser_value_v(head), rest, post);
        assert(seq![head] + rest =~= items);
        assert(ser_value_v(head).len() > 0);
    }
}

// ---- node and edge records ----

/// A run of serialized properties: key then value, pair after pair.
pub open spec fn ser_props_v(ps: Seq<(Seq<char>, ValueV)>) -> Seq<u8>
    decreases ps.len(),
{
    if ps.len() == 0 {
        Seq::empty()
    } else {
        ser_string(ps[0].0) + ser_value_v(ps[0].1) + ser_props_v(ps.skip(1))
    }
}

/// Every key and value of the list fits the format's length prefixes.
pub open spec fn props_fit(ps: Seq<(Seq<char>, ValueV)>) -> bool {
    ps.len() < 0x1_0000_0000 && (forall|i: int| 0 <= i < ps.len()
        ==> string_fits((#[trigger] ps[i]).0) && value_fits(ps[i].1))
}

/// Reads `count` properties, one after the other.
pub open spec fn deser_props_at(b: Seq<u8>, pos: int, count: int)
    -> Option<(Seq<(Seq<char>, ValueV)>, int)>
    decreases count,
{
    if count <= 0 {
        Some((Seq::empty(), pos))
    } else {
        match deser_string_at(b, pos) {
            Some((k, p1)) => match deser_value_at(b, p1) {
                Some((v, p2)) => if pos < p2 {
                    match deser_props_at(b, p2, count - 1) {
                        Some((ps, q)) => Some((seq![(k, v)] + ps, q)),
                        None => None,
                    }
                } else {
                    None
                },
                None => None,
            },
            None => None,
        }
    }
}

/// A serialized node record: id, label, then its properties.
pub open spec fn ser_node_v(n: NodeV) -> Seq<u8> {
    ser_string(n.id) + ser_string(n.label) + ser_u32(n.properties.len() as u32)
        + ser_props_v(n.properties)
}

/// A serialized edge record: id, label, both endpoints, properties.
pub open spec fn ser_edge_v(e: EdgeV) -> Seq<u8> {
    ser_string(e.id) + ser_string(e.label) + ser_string(e.from_node) + ser_string(e.to_node)
        + ser_u32(e.properties.len() as u32) + ser_props_v(e.properties)
}

/// The record's strings and counts fit the format's length prefixes.
pub open spec fn node_fits(n: NodeV) -> bool {
    string_fits(n.id) && string_fits(n.label) && props_fit(n.properties)
}

/// The record's strings and counts fit the format's length prefixes.
pub open spec fn edge_fits(e: EdgeV) -> bool {
    string_fits(e.id) && string_fits(e.label) && string_fits(e.from_node)
        && string_fits(e.to_node) && props_fit(e.properties)
}

/// Reads a node record at `pos`.
pub open spec fn deser_node_at(b: Seq<u8>, pos: int) -> Option<(NodeV, int)> {
    match deser_string_at(b, pos) {
        Some((id, p1)) => match deser_string_at(b, p1) {
            Some((label, p2)) => match deser_u32_at(b, p2) {
                Some((count, p3)) => match deser_props_at(b, p3, count as int) {
                    Some((ps, q)) => Some((NodeV { id, label, properties: ps }, q)),
                    None => None,
                },
                None => None,
            },
            None => None,
        },
        None => None,
    }
}

/// Reads an edge record at `pos`.
pub open spec fn deser_edge_at(b: Seq<u8>, pos: int) -> Option<(EdgeV, int)> {
    match deser_string_at(b, pos) {
        Some((id, p1)) => match deser_string_at(b, p1) {
            Some((label, p2)) => match deser_string_at(b, p2) {
                Some((from_node, p3)) => match deser_string_at(b, p3) {
                    Some((to_node, p4)) => match deser_u32_at(b, p4) {
                        Some((count, p5)) => match deser_props_at(b, p5, count as int) {
                            Some((ps, q)) => Some(
                                (EdgeV { id, label, from_node, to_node, properties: ps }, q),
                            ),
                            None => None,
                        },
                        None => None,
                    },
                    None => None,
                },
                None => None,
            },
            None => None,
        },
        None => None,
    }
}

/// Reading where a run of serialized properties sits yields the run.
#[verifier::rlimit(100)]
#[verifier::spinoff_prover]
pub proof fn lemma_rt_props(pre: Seq<u8>, ps: Seq<(Seq<char>, ValueV)>, post: Seq<u8>)
    requires
        forall|i: int| 0 <= i < ps.len()
            ==> string_fits((#[trigger] ps[i]).0) && value_fits(ps[i].1),
    ensures
        deser_props_at(pre + ser_props_v(ps) + post, pre.len() as int, ps.len() as int)
            == Some((ps, pre.len() + ser_props_v(ps).len() as int)),
    decreases ps.len(),
{
    if ps.len() == 0 {
        assert(pre + ser_props_v(ps) + post =~= pre + post);
        assert(ps =~= Seq::<(Seq<char>, ValueV)>::empty());
    } else {
        let k = ps[0].0;
        let v = ps[0].1;
        let rest = ps.skip(1);
        let b = pre + ser_props_v(ps) + post;
        assert(b =~= pre + ser_string(k) + (ser_value_v(v) + (ser_props_v(rest) + post)));
        lemma_rt_string(pre, k, ser_value_v(v) + (ser_props_v(rest) + post));
        assert(b =~= (pre + ser_string(k)) + ser_value_v(v) + (ser_props_v(rest) + post));
        lemma_rt_value(pre + ser_string(k), v, ser_props_v(rest) + post);
        assert(b =~= (pre + ser_string(k) + ser_value_v(v)) + ser_props_v(rest) + post);
        assert forall|i: int| 0 <= i < rest.len()
            implies string_fits((#[trigger] rest[i]).0) && value_fits(rest[i].1) by {
            assert(rest[i] == ps[i + 1]);
            assert(string_fits(ps[i + 1].0) && value_fits(ps[i + 1].1));
        }
        lemma_rt_props(pre + ser_string(k) + ser_value_v(v), rest, post);
        assert(seq![(k, v)] + rest =~= ps);
        assert(ser_value_v(v).len() > 0);
        assert(ser_string(k).len() >= 4);
    }
}

/// Reading where a serialized node record sits yields that record.
#[verifier::rlimit(100)]
#[verifier::spinoff_prover]
pub proof fn lemma_rt_node(pre: Seq<u8>, n: NodeV, post: Seq<u8>)
    requires
        node_fits(n),
    ensures
        deser_node_at(pre + ser_node_v(n) + post, pre.len() as int)
            == Some((n, pre.len() + ser_node_v(n).len() as int)),
{
    let b = pre + ser_node_v(n) + post;
    let count = n.properties.len() as u32;
    assert(b =~= pre + ser_string(n.id) + (ser_string(n.label) + (ser_u32(count)
        + (ser_props_v(n.properties) + post))));
    lemma_rt_string(pre, n.id, ser_string(n.label) + (ser_u32(count)
        + (ser_props_v(n.properties) + post)));
    let p1 = pre + ser_string(n.id);
    assert(b =~= p1 + ser_string(n.label) + (ser_u32(count) + (ser_props_v(n.properties) + post)));
    lemma_rt_string(p1, n.label, ser_u32(count) + (ser_props_v(n.properties) + post));
    let p2 = p1 + ser_string(n.label);
    assert(b =~= p2 + ser_u32(count) + (ser_props_v(n.properties) + post));
    lemma_rt_u32(p2, count, ser_props_v(n.properties) + post);
    let p3 = p2 + ser_u32(count);
    assert(b =~= p3 + ser_props_v(n.properties) + post);
    lemma_rt_props(p3, n.properties, post);
    assert(count as int == n.properties.len() as int);
}

/// Reading where a serialized edge record sits yields that record.
#[verifier::rlimit(100)]
#[verifier::spinoff_prover]
pub proof fn lemma_rt_edge(pre: Seq<u8>, e: EdgeV, post: Seq<u8>)
    requires
        edge_fits(e),
    ensures
        deser_edge_at(pre + ser_edge_v(e) + post, pre.len() as int)
            == Some((e, pre.len() + ser_edge_v(e).len() as int)),
{
    let b = pre + ser_edge_v(e) + post;
    let count = e.properties.len() as u32;
    assert(b =~= pre + ser_string(e.id) + (ser_string(e.label) + (ser_string(e.from_node)
        + (ser_string(e.to_node) + (ser_u32(count) + (ser_props_v(e.properties) + post))))));
    lemma_rt_string(pre, e.id, ser_string(e.label) + (ser_string(e.from_node)
        + (ser_string(e.to_node) + (ser_u32(count) + (ser_props_v(e.properties) + post)))));
    let p1 = pre + ser_string(e.id);
    assert(b =~= p1 + ser_string(e.label) + (ser_string(e.from_node)
        + (ser_string(e.to_node) + (ser_u32(count) + (ser_props_v(e.properties) + post)))));
    lemma_rt_string(p1, e.label, ser_string(e.from_node)
        + (ser_string(e.to_node) + (ser_u32(count) + (ser_props_v(e.properties) + post))));
    let p2 = p1 + ser_string(e.label);
    assert(b =~= p2 + ser_string(e.from_node)
        + (ser_string(e.to_node) + (ser_u32(count) + (ser_props_v(e.properties) + post))));
    lemma_rt_string(p2, e.from_node, ser_string(e.to_node)
        + (ser_u32(count) + (ser_props_v(e.properties) + post)));
    let p3 = p2 + ser_string(e.from_node);
    assert(b =~= p3 + ser_string(e.to_node)
        + (ser_u32(count) + (ser_props_v(e.properties) + post)));
    lemma_rt_string(p3, e.to_node, ser_u32(count) + (ser_props_v(e.properties) + post));
    let p4 = p3 + ser_string(e.to_node);
    assert(b =~= p4 + ser_u32(count) + (ser_props_v(e.properties) + post));
    lemma_rt_u32(p4, count, ser_props_v(e.properties) + post);
    let p5 = p4 + ser_u32(count);
    assert(b =~= p5 + ser_props_v(e.properties) + post);
    lemma_rt_props(p5, e.properties, post);
    assert(count as int == e.properties.len() as int);
}

/// Deserializing a serialized value gives the value back, exactly.
pub proof fn lemma_value_round_trip(v: ValueV)
    requires
        value_fits(v),
    ensures
        deser_value_at(ser_value_v(v), 0) == Some((v, ser_value_v(v).len() as int)),
{
    lemma_rt_value(Seq::empty(), v, Seq::empty());
    assert(Seq::<u8>::empty() + ser_value_v(v) + Seq::<u8>::empty() =~= ser_value_v(v));
}

/// A node record read back from its bytes is the record, exactly.
pub proof fn lemma_node_round_trip(n: NodeV)
    requires
        node_fits(n),
    ensures
        deser_node_at(ser_node_v(n), 0) == Some((n, ser_node_v(n).len() as int)),
{
    lemma_rt_node(Seq::empty(), n, Seq::empty());
    assert(Seq::<u8>::empty() + ser_node_v(n) + Seq::<u8>::empty() =~= ser_node_v(n));
}

/// An edge record read back from its bytes is the record, exactly.
pub proof fn lemma_edge_round_trip(e: EdgeV)
    requires
        edge_fits(e),
    ensures
        deser_edge_at(ser_edge_v(e), 0) == Some((e, ser_edge_v(e).len() as int)),
{
    lemma_rt_edge(Seq::empty(), e, Seq::empty());
    assert(Seq::<u8>::empty() + ser_edge_v(e) + Seq::<u8>::empty() =~= ser_edge_v(e));
}

// ---- trusted conversions ----

/// Relies on char::from_u32: `Some` exactly on Unicode scalar values,
/// and the returned character carries the given code point.
#[verifier::external_body]
fn char_from_u32(u: u32) -> (r: Option<char>)
    ensures
        r is Some <==> valid_scalar(u),
        r matches Some(c) ==> c as u32 == u,
{
    char::from_u32(u)
}

/// Relies on String::push: appends one character.
#[verifier::external_body]
fn string_push(s: &mut String, c: char)
    ensures
        final(s)@ == old(s)@.push(c),
{
    s.push(c);
}

/// Appends one character to the string.
pub fn push_char(s: &mut String, c: char)
    ensures
        final(s)@ == old(s)@.push(c),
{
    string_push(s, c);
}

// ---- executable writers ----

/// Appends the four little-endian bytes of `n`.
pub fn write_u32(out: &mut Vec<u8>, n: u32)
    ensures
        final(out)@ == old(out)@ + ser_u32(n),
{
    out.push(#[verifier::truncate] (n as u8));
    out.push(#[verifier::truncate] ((n >> 8) as u8));
    out.push(#[verifier::truncate] ((n >> 16) as u8));
    out.push(#[verifier::truncate] ((n >> 24) as u8));
    proof {
        assert(out@ =~= old(out)@ + ser_u32(n));
    }
}

/// Appends the eight little-endian bytes of `n`.
pub fn write_u64(out: &mut Vec<u8>, n: u64)
    ensures
        final(out)@ == old(out)@ + ser_u64(n),
{
    write_u32(out, #[verifier::truncate] (n as u32));
    write_u32(out, #[verifier::truncate] ((n >> 32) as u32));
    proof {
        assert(out@ =~= old(out)@ + ser_u64(n));
    }
}

/// Appends the characters of `s`, then proves the catenation shape.
pub fn write_str(out: &mut Vec<u8>, s: &str)
    requires
        string_fits(s@),
    ensures
        final(out)@ == old(out)@ + ser_string(s@),
{
    let n = s.unicode_len();
    write_u32(out, n as u32);
    let mut i: usize = 0;
    while i < n
        invariant
            i <= n,
            n == s@.len(),
            out@ == old(out)@ + ser_u32(s@.len() as u32) + ser_chars(s@.take(i as int)),
        decreases n - i,
    {
        let c = s.get_char(i);
        let u = c as u32;
        write_u32(out, u);
        proof {
            lemma_ser_chars_snoc(s@.take(i as int), s@[i as int]);
            assert(s@.take(i + 1) =~= s@.take(i as int).push(s@[i as int]));
            assert(out@ =~= old(out)@ + ser_u32(s@.len() as u32) + ser_chars(s@.take(i + 1)));
        }
        i = i + 1;
    }
    proof {
        assert(s@.take(n as int) =~= s@);
        assert(out@ =~= old(out)@ + ser_string(s@));
    }
}

/// Serializing one more character appends its bytes.
proof fn lemma_ser_chars_snoc(s: Seq<char>, c: char)
    ensures
        ser_chars(s.push(c)) == ser_chars(s) + ser_char(c),
    decreases s.len(),
{
    if s.len() == 0 {
        assert(s.push(c)[0] == c);
        assert(s.push(c).skip(1) =~= Seq::<char>::empty());
        assert(ser_chars(s.push(c)) == ser_char(c) + ser_chars(Seq::<char>::empty()));
        assert(ser_char(c) + Seq::<u8>::empty() =~= Seq::<u8>::empty() + ser_char(c));
    } else {
        assert(s.push(c)[0] == s[0]);
        assert(s.push(c).skip(1) =~= s.skip(1).push(c));
        lemma_ser_chars_snoc(s.skip(1), c);
        assert(ser_chars(s.push(c))
            == ser_char(s[0]) + (ser_chars(s.skip(1)) + ser_char(c)));
        assert(ser_char(s[0]) + (ser_chars(s.skip(1)) + ser_char(c))
            =~= (ser_char(s[0]) + ser_chars(s.skip(1))) + ser_char(c));
        assert(ser_chars(s) == ser_char(s[0]) + ser_chars(s.skip(1)));
    }
}

// ---- executable readers ----

/// Reads a 32-bit integer; `None` when fewer than four bytes remain.
pub fn read_u32(data: &Vec<u8>, pos: usize) -> (r: Option<(u32, usize)>)
    ensures
        match r {
            Some((n, p)) => deser_u32_at(data@, pos as int) == Some((n, p as int))
                && pos < p <= data@.len(),
            None => deser_u32_at(data@, pos as int) is None,
        },
{
    if data.len() < 4 || pos > data.len() - 4 {
        None
    } else {
        let b0 = data[pos];
        let b1 = data[pos + 1];
        let b2 = data[pos + 2];
        let b3 = data[pos + 3];
        let n = (b0 as u32) | ((b1 as u32) << 8) | ((b2 as u32) << 16) | ((b3 as u32) << 24);
        Some((n, pos + 4))
    }
}

/// Reads a 64-bit integer.
pub fn read_u64(data: &Vec<u8>, pos: usize) -> (r: Option<(u64, usize)>)
    ensures
        match r {
            Some((n, p)) => deser_u64_at(data@, pos as int) == Some((n, p as int))
                && pos < p <= data@.len(),
            None => deser_u64_at(data@, pos as int) is None,
        },
{
    match read_u32(data, pos) {
        Some((lo, p1)) => match read_u32(data, p1) {
            Some((hi, p2)) => Some(((lo as u64) | ((hi as u64) << 32), p2)),
            None => None,
        },
        None => None,
    }
}

/// Reads one character; `None` on a value that is no Unicode scalar.
pub fn read_char(data: &Vec<u8>, pos: usize) -> (r: Option<(char, usize)>)
    ensures
        match r {
            Some((c, p)) => deser_char_at(data@, pos as int) == Some((c, p as int))
                && pos < p <= data@.len(),
            None => deser_char_at(data@, pos as int) is None,
        },
{
    match read_u32(data, pos) {
        Some((u, p)) => match char_from_u32(u) {
            Some(c) => {
                proof {
                    vstd::utf8::char_u32_cast(c, u);
                    assert(c == (u as char));
                }
                Some((c, p))
            },
            None => None,
        },
        None => None,
    }
}

/// Reads a string: a count, then that many characters.
pub fn read_string(data: &Vec<u8>, pos: usize) -> (r: Option<(String, usize)>)
    ensures
        match r {
            Some((s, p)) => deser_string_at(data@, pos as int) == Some((s@, p as int))
                && pos < p <= data@.len(),
            None => deser_string_at(data@, pos as int) is None,
        },
{
    match read_u32(data, pos) {
        Some((count, p0)) => {
            let count_us = count as usize;
            let mut s = String::new();
            let mut p = p0;
            let mut k: usize = 0;
            loop
                invariant
                    k <= count_us,
                    count_us == count as int,
                    deser_u32_at(data@, pos as int) == Some((count, p0 as int)),
                    (pos as int) < p0 as int <= p as int <= data@.len(),
                    deser_chars(data@, p0 as int, count as int) == match deser_chars(
                        data@,
                        p as int,
                        count as int - k as int,
                    ) {
                        Some((rest, q)) => Some((s@ + rest, q)),
                        None => None::<(Seq<char>, int)>,
                    },
                decreases count_us - k,
            {
                if k == count_us {
                    proof {
                        assert(s@ + Seq::<char>::empty() =~= s@);
                    }
                    return Some((s, p));
                }
                match read_char(data, p) {
                    Some((c, p2)) => {
                        let ghost s_pre = s@;
                        string_push(&mut s, c);
                        proof {
                            assert(s@ =~= s_pre.push(c));
                            assert forall|rest: Seq<char>|
                                true implies s_pre + (seq![c] + rest) =~= s@ + rest by {}
                        }
                        p = p2;
                        k = k + 1;
                    },
                    None => {
                        return None;
                    },
                }
            }
        },
        None => None,
    }
}

// ---- executable value and record writers ----

/// Serializing one more value appends its bytes.
proof fn lemma_ser_values_snoc(items: Seq<ValueV>, v: ValueV)
    ensures
        ser_values_v(items.push(v)) == ser_values_v(items) + ser_value_v(v),
    decreases items.len(),
{
    if items.len() == 0 {
        assert(items.push(v)[0] == v);
        assert(items.push(v).skip(1) =~= Seq::<ValueV>::empty());
        assert(ser_values_v(items.push(v))
            == ser_value_v(v) + ser_values_v(Seq::<ValueV>::empty()));
        assert(ser_value_v(v) + Seq::<u8>::empty() =~= Seq::<u8>::empty() + ser_value_v(v));
    } else {
        assert(items.push(v)[0] == items[0]);
        assert(items.push(v).skip(1) =~= items.skip(1).push(v));
        lemma_ser_values_snoc(items.skip(1), v);
        assert(ser_values_v(items.push(v))
            == ser_value_v(items[0]) + (ser_values_v(items.skip(1)) + ser_value_v(v)));
        assert(ser_value_v(items[0]) + (ser_values_v(items.skip(1)) + ser_value_v(v))
            =~= (ser_value_v(items[0]) + ser_values_v(items.skip(1))) + ser_value_v(v));
        assert(ser_values_v(items) == ser_value_v(items[0]) + ser_values_v(items.skip(1)));
    }
}

/// Serializing one more property appends its bytes.
proof fn lemma_ser_props_snoc(ps: Seq<(Seq<char>, ValueV)>, k: Seq<char>, v: ValueV)
    ensures
        ser_props_v(ps.push((k, v))) == ser_props_v(ps) + (ser_string(k) + ser_value_v(v)),
    decreases ps.len(),
{
    if ps.len() == 0 {
        assert(ps.push((k, v))[0] == (k, v));
        assert(ps.push((k, v)).skip(1) =~= Seq::<(Seq<char>, ValueV)>::empty());
        assert(ser_props_v(ps.push((k, v)))
            == ser_string(k) + ser_value_v(v) + ser_props_v(Seq::<(Seq<char>, ValueV)>::empty()));
        assert(ser_string(k) + ser_value_v(v) + Seq::<u8>::empty()
            =~= Seq::<u8>::empty() + (ser_string(k) + ser_value_v(v)));
    } else {
        assert(ps.push((k, v))[0] == ps[0]);
        assert(ps.push((k, v)).skip(1) =~= ps.skip(1).push((k, v)));
        lemma_ser_props_snoc(ps.skip(1), k, v);
        assert(ser_props_v(ps.push((k, v)))
            == ser_string(ps[0].0) + ser_value_v(ps[0].1)
                + (ser_props_v(ps.skip(1)) + (ser_string(k) + ser_value_v(v))));
        assert(ser_string(ps[0].0) + ser_value_v(ps[0].1)
            + (ser_props_v(ps.skip(1)) + (ser_string(k) + ser_value_v(v)))
            =~= (ser_string(ps[0].0) + ser_value_v(ps[0].1) + ser_props_v(ps.skip(1)))
                + (ser_string(k) + ser_value_v(v)));
        assert(ser_props_v(ps)
            == ser_string(ps[0].0) + ser_value_v(ps[0].1) + ser_props_v(ps.skip(1)));
    }
}

/// Appends a signed 32-bit integer: sign byte, then magnitude.
pub fn write_i32(out: &mut Vec<u8>, i: i32)
    ensures
        final(out)@ == old(out)@ + ser_i32(i),
{
    if i >= 0 {
        out.push(1u8);
        write_u32(out, i as u32);
        proof {
            assert(out@ =~= old(out)@ + ser_i32(i));
        }
    } else {
        let m: i64 = -(i as i64);
        proof {
            assert(1 <= m as int && m as int <= 0x8000_0000);
        }
        out.push(0u8);
        write_u32(out, m as u32);
        proof {
            assert(m as u32 == (-(i as int)) as u32);
            assert(out@ =~= old(out)@ + ser_i32(i));
        }
    }
}

/// Appends the bytes of a value.
pub fn write_value(out: &mut Vec<u8>, v: &Value)
    requires
        value_fits(value_view(*v)),
    ensures
        final(out)@ == old(out)@ + ser_value_v(value_view(*v)),
    decreases *v,
{
    match v {
        Value::String(s) => {
            out.push(0u8);
            write_str(out, s.as_str());
            proof {
                assert(out@ =~= old(out)@ + ser_value_v(value_view(*v)));
            }
        },
        Value::Float(bits) => {
            out.push(1u8);
            write_u64(out, *bits);
            proof {
                assert(out@ =~= old(out)@ + ser_value_v(value_view(*v)));
            }
        },
        Value::Integer(i) => {
            out.push(2u8);
            write_i32(out, *i);
            proof {
                assert(out@ =~= old(out)@ + ser_value_v(value_view(*v)));
            }
        },
        Value::Boolean(flag) => {
            out.push(3u8);
            out.push(if *flag { 1u8 } else { 0u8 });
            proof {
                assert(out@ =~= old(out)@ + ser_value_v(value_view(*v)));
            }
        },
        Value::Null => {
            out.push(5u8);
            proof {
                assert(out@ =~= old(out)@ + ser_value_v(value_view(*v)));
            }
        },
        Value::Array(items) => {
            proof {
                assert(*v == Value::Array(*items));
                lemma_array_view_vec(items);
            }
            let ghost vitems = views_of(items@);
            out.push(4u8);
            let n = items.len();
            write_u32(out, n as u32);
            let ghost base = out@;
            let mut i: usize = 0;
            while i < n
                invariant
                    *v == Value::Array(*items),
                    value_view(*v) == ValueV::Array(vitems),
                    value_fits(value_view(*v)),
                    vitems == views_of(items@),
                    i <= n,
                    n == items@.len(),
                    out@ == base + ser_values_v(vitems.take(i as int)),
                decreases n - i,
            {
                proof {
                    assert(*items == v->Array_0);
                    assert(decreases_to!(*v => v->Array_0));
                    assert(decreases_to!(*items => items@));
                    assert(decreases_to!(items@ => items@[i as int]));
                    assert(vitems[i as int] == value_view(items@[i as int]));
                    assert(value_fits(vitems[i as int]));
                }
                write_value(out, &items[i]);
                proof {
                    lemma_ser_values_snoc(vitems.take(i as int), vitems[i as int]);
                    assert(vitems.take(i + 1) =~= vitems.take(i as int).push(vitems[i as int]));
                    assert(out@ =~= base + ser_values_v(vitems.take(i + 1)));
                }
                i = i + 1;
            }
            proof {
                assert(vitems.take(n as int) =~= vitems);
                assert(out@ =~= old(out)@ + ser_value_v(value_view(*v)));
            }
        },
    }
}

/// An array value's shape is the sequence of its elements' shapes.
proof fn lemma_array_view_vec(items: &Vec<Value>)
    ensures
        value_view(Value::Array(*items)) == ValueV::Array(views_of(items@)),
{
    assert(value_view(Value::Array(*items))->Array_0 =~= views_of(items@));
}

/// Appends a property list: count, then key and value, pair by pair.
#[verifier::rlimit(50)]
fn write_props(out: &mut Vec<u8>, props: &Vec<(String, Value)>)
    requires
        props_fit(props_view(props@)),
    ensures
        final(out)@ == old(out)@ + ser_u32(props_view(props@).len() as u32)
            + ser_props_v(props_view(props@)),
{
    let ghost ps = props_view(props@);
    let n = props.len();
    write_u32(out, n as u32);
    let ghost base = out@;
    let mut i: usize = 0;
    while i < n
        invariant
            ps == props_view(props@),
            props_fit(ps),
            i <= n,
            n == props@.len(),
            out@ == base + ser_props_v(ps.take(i as int)),
        decreases n - i,
    {
        proof {
            assert(ps[i as int] == (props@[i as int].0@, value_view(props@[i as int].1)));
            assert(string_fits(ps[i as int].0) && value_fits(ps[i as int].1));
        }
        write_str(out, props[i].0.as_str());
        write_value(out, &props[i].1);
        proof {
            lemma_ser_props_snoc(ps.take(i as int), ps[i as int].0, ps[i as int].1);
            assert(ps.take(i + 1) =~= ps.take(i as int).push(ps[i as int]));
            assert(out@ =~= base + ser_props_v(ps.take(i + 1)));
        }
        i = i + 1;
    }
    proof {
        assert(ps.take(n as int) =~= ps);
        assert(out@ =~= old(out)@ + ser_u32(ps.len() as u32) + ser_props_v(ps));
    }
}

/// The bytes of a value, as the record format writes it.
pub fn serialize_value(v: &Value) -> (r: Vec<u8>)
    requires
        value_fits(value_view(*v)),
    ensures
        r@ == ser_value_v(value_view(*v)),
{
    let mut out: Vec<u8> = Vec::new();
    write_value(&mut out, v);
    proof {
        assert(out@ =~= ser_value_v(value_view(*v)));
    }
    out
}

/// The bytes of a node record.
pub fn serialize_node(n: &Node) -> (r: Vec<u8>)
    requires
        node_fits(n@),
    ensures
        r@ == ser_node_v(n@),
{
    let mut out: Vec<u8> = Vec::new();
    write_str(&mut out, n.id.as_str());
    write_str(&mut out, n.label.as_str());
    write_props(&mut out, &n.properties);
    proof {
        assert(out@ =~= ser_node_v(n@));
    }
    out
}

/// The bytes of an edge record.
pub fn serialize_edge(e: &Edge) -> (r: Vec<u8>)
    requires
        edge_fits(e@),
    ensures
        r@ == ser_edge_v(e@),
{
    let mut out: Vec<u8> = Vec::new();
    write_str(&mut out, e.id.as_str());
    write_str(&mut out, e.label.as_str());
    write_str(&mut out, e.from_node.as_str());
    write_str(&mut out, e.to_node.as_str());
    write_props(&mut out, &e.properties);
    proof {
        assert(out@ =~= ser_edge_v(e@));
    }
    out
}


// ---- executable value and record readers ----

/// Reads a signed 32-bit integer: sign byte, then magnitude.
pub fn read_i32(data: &Vec<u8>, pos: usize) -> (r: Option<(i32, usize)>)
    ensures
        match r {
            Some((i, p)) => deser_i32_at(data@, pos as int) == Some((i, p as int))
                && pos < p <= data@.len(),
            None => deser_i32_at(data@, pos as int) is None,
        },
{
    if pos >= data.len() {
        return None;
    }
    let sign = data[pos];
    match read_u32(data, pos + 1) {
        Some((m, p)) => {
            if sign == 1u8 && m <= 0x7fff_ffff {
                Some((m as i32, p))
            } else if sign == 0u8 && 1 <= m && m <= 0x8000_0000 {
                let i: i64 = -(m as i64);
                proof {
                    assert(i as int == -(m as int));
                }
                Some((i as i32, p))
            } else {
                None
            }
        },
        None => None,
    }
}

/// Reads one value at `pos`: a tag byte, then the case's payload.
#[verifier::rlimit(50)]
pub fn read_value_at(data: &Vec<u8>, pos: usize) -> (r: Option<(Value, usize)>)
    ensures
        match r {
            Some((v, p)) => deser_value_at(data@, pos as int)
                == Some((value_view(v), p as int)) && pos < p <= data@.len(),
            None => deser_value_at(data@, pos as int) is None,
        },
    decreases data@.len() - pos,
{
    if pos >= data.len() {
        return None;
    }
    let tag = data[pos];
    let p = pos + 1;
    if tag == 0u8 {
        match read_string(data, p) {
            Some((s, q)) => Some((Value::String(s), q)),
            None => None,
        }
    } else if tag == 1u8 {
        match read_u64(data, p) {
            Some((bits, q)) => Some((Value::Float(bits), q)),
            None => None,
        }
    } else if tag == 2u8 {
        match read_i32(data, p) {
            Some((i, q)) => Some((Value::Integer(i), q)),
            None => None,
        }
    } else if tag == 3u8 {
        if p < data.len() && (data[p] == 0u8 || data[p] == 1u8) {
            Some((Value::Boolean(data[p] == 1u8), p + 1))
        } else {
            None
        }
    } else if tag == 4u8 {
        match read_u32(data, p) {
            Some((count, p2)) => {
                let count_us = count as usize;
                let mut items: Vec<Value> = Vec::new();
                let mut q = p2;
                let mut k: usize = 0;
                loop
                    invariant
                        k <= count_us,
                        count_us == count as int,
                        (pos as int) < p2 as int <= q as int <= data@.len(),
                        deser_u32_at(data@, pos + 1) == Some((count, p2 as int)),
                        pos + 1 <= data@.len(),
                        data@[pos as int] == 4u8,
                        deser_values_at(data@, p2 as int, count as int) == match deser_values_at(
                            data@,
                            q as int,
                            count as int - k as int,
                        ) {
                            Some((vs, end)) => Some((views_of(items@) + vs, end)),
                            None => None::<(Seq<ValueV>, int)>,
                        },
                    decreases count_us - k,
                {
                    if k == count_us {
                        proof {
                            assert(views_of(items@) + Seq::<ValueV>::empty()
                                =~= views_of(items@));
                            lemma_array_view_vec(&items);
                        }
                        return Some((Value::Array(items), q));
                    }
                    match read_value_at(data, q) {
                        Some((v, q2)) => {
                            let ghost items_pre = items@;
                            items.push(v);
                            proof {
                                assert(views_of(items@)
                                    =~= views_of(items_pre).push(value_view(v)));
                                assert forall|vs: Seq<ValueV>| true
                                    implies views_of(items_pre) + (seq![value_view(v)] + vs)
                                        =~= views_of(items@) + vs by {}
                            }
                            q = q2;
                            k = k + 1;
                        },
                        None => {
                            return None;
                        },
                    }
                }
            },
            None => None,
        }
    } else if tag == 5u8 {
        Some((Value::Null, p))
    } else {
        None
    }
}

/// Reads `count` properties, one after the other.
#[verifier::rlimit(50)]
fn read_props_at(data: &Vec<u8>, pos: usize, count: u32) -> (r: Option<(Vec<(String, Value)>, usize)>)
    requires
        pos <= data@.len(),
    ensures
        match r {
            Some((props, p)) => deser_props_at(data@, pos as int, count as int)
                == Some((props_view(props@), p as int)) && pos <= p <= data@.len(),
            None => deser_props_at(data@, pos as int, count as int) is None,
        },
{
    let count_us = count as usize;
    let mut props: Vec<(String, Value)> = Vec::new();
    let mut q = pos;
    let mut k: usize = 0;
    loop
        invariant
            k <= count_us,
            count_us == count as int,
            pos as int <= q as int <= data@.len(),
            deser_props_at(data@, pos as int, count as int) == match deser_props_at(
                data@,
                q as int,
                count as int - k as int,
            ) {
                Some((ps, end)) => Some((props_view(props@) + ps, end)),
                None => None::<(Seq<(Seq<char>, ValueV)>, int)>,
            },
        decreases count_us - k,
    {
        if k == count_us {
            proof {
                assert(props_view(props@) + Seq::<(Seq<char>, ValueV)>::empty()
                    =~= props_view(props@));
            }
            return Some((props, q));
        }
        match read_string(data, q) {
            Some((key, q1)) => match read_value_at(data, q1) {
                Some((v, q2)) => {
                    let ghost props_pre = props@;
                    let ghost pair = (key@, value_view(v));
                    props.push((key, v));
                    proof {
                        assert(props_view(props@)
                            =~= props_view(props_pre).push(pair));
                        assert forall|ps: Seq<(Seq<char>, ValueV)>| true
                            implies props_view(props_pre) + (seq![pair] + ps)
                                =~= props_view(props@) + ps by {}
                    }
                    q = q2;
                    k = k + 1;
                },
                None => {
                    return None;
                },
            },
            None => {
                return None;
            },
        }
    }
}

/// Reads a node record at `pos`.
fn read_node_at(data: &Vec<u8>, pos: usize) -> (r: Option<(Node, usize)>)
    ensures
        match r {
            Some((n, p)) => deser_node_at(data@, pos as int) == Some((n@, p as int))
                && p <= data@.len(),
            None => deser_node_at(data@, pos as int) is None,
        },
{
    match read_string(data, pos) {
        Some((id, p1)) => match read_string(data, p1) {
            Some((label, p2)) => match read_u32(data, p2) {
                Some((count, p3)) => match read_props_at(data, p3, count) {
                    Some((properties, q)) => Some((Node { id, label, properties }, q)),
                    None => None,
                },
                None => None,
            },
            None => None,
        },
        None => None,
    }
}

/// Reads an edge record at `pos`.
fn read_edge_at(data: &Vec<u8>, pos: usize) -> (r: Option<(Edge, usize)>)
    ensures
        match r {
            Some((e, p)) => deser_edge_at(data@, pos as int) == Some((e@, p as int))
                && p <= data@.len(),
            None => deser_edge_at(data@, pos as int) is None,
        },
{
    match read_string(data, pos) {
        Some((id, p1)) => match read_string(data, p1) {
            Some((label, p2)) => match read_string(data, p2) {
                Some((from_node, p3)) => match read_string(data, p3) {
                    Some((to_node, p4)) => match read_u32(data, p4) {
                        Some((count, p5)) => match read_props_at(data, p5, count) {
                            Some((properties, q)) => Some(
                                (Edge { id, label, from_node, to_node, properties }, q),
                            ),
                            None => None,
                        },
                        None => None,
                    },
                    None => None,
                },
                None => None,
            },
            None => None,
        },
        None => None,
    }
}

/// The bytes parse as one value with nothing left over.
pub open spec fn value_parses_fully(b: Seq<u8>) -> bool {
    match deser_value_at(b, 0) {
        Some((v, p)) => p == b.len(),
        None => false,
    }
}

/// Reads back a value from exactly these bytes; `None` on any other input.
pub fn deserialize_value(data: &Vec<u8>) -> (r: Option<Value>)
    ensures
        match r {
            Some(v) => deser_value_at(data@, 0) == Some((value_view(v), data@.len() as int)),
            None => !value_parses_fully(data@),
        },
{
    match read_value_at(data, 0) {
        Some((v, p)) => if p == data.len() {
            Some(v)
        } else {
            None
        },
        None => None,
    }
}

/// The bytes parse as one node record with nothing left over.
pub open spec fn node_parses_fully(b: Seq<u8>) -> bool {
    match deser_node_at(b, 0) {
        Some((n, p)) => p == b.len(),
        None => false,
    }
}

/// Reads back a node record from exactly these bytes.
pub fn deserialize_node(data: &Vec<u8>) -> (r: Option<Node>)
    ensures
        match r {
            Some(n) => deser_node_at(data@, 0) == Some((n@, data@.len() as int)),
            None => !node_parses_fully(data@),
        },
{
    match read_node_at(data, 0) {
        Some((n, p)) => if p == data.len() {
            Some(n)
        } else {
            None
        },
        None => None,
    }
}

/// The bytes parse as one edge record with nothing left over.
pub open spec fn edge_parses_fully(b: Seq<u8>) -> bool {
    match deser_edge_at(b, 0) {
        Some((e, p)) => p == b.len(),
        None => false,
    }
}

/// Reads back an edge record from exactly these bytes.
pub fn deserialize_edge(data: &Vec<u8>) -> (r: Option<Edge>)
    ensures
        match r {
            Some(e) => deser_edge_at(data@, 0) == Some((e@, data@.len() as int)),
            None => !edge_parses_fully(data@),
        },
{
    match read_edge_at(data, 0) {
        Some((e, p)) => if p == data.len() {
            Some(e)
        } else {
            None
        },
        None => None,
    }
}

} // verus!
