//! The key codec: every graph entity lives in one logical key space,
//! separated by short tags, with a literal colon between the parts.
//! Ids are generated as UUID strings and hold no colon, which makes the
//! composed keys unambiguous; the lemmas at the bottom state exactly the
//! disambiguation facts the storage engine needs for its prefix scans.

use vstd::prelude::*;
use crate::value::str_eq;

verus! {

/// The sequence holds no colon character.
pub open spec fn colon_free(s: Seq<char>) -> bool {
    forall|i: int| 0 <= i < s.len() ==> s[i] != ':'
}

/// Key of a node record: `n:` then the node id.
pub open spec fn node_key_chars(id: Seq<char>) -> Seq<char> {
    "n:"@ + id
}

/// Key of an edge record: `e:` then the edge id.
pub open spec fn edge_key_chars(id: Seq<char>) -> Seq<char> {
    "e:"@ + id
}

/// Key of a node label index entry: `nl:` label `:` id.
pub open spec fn node_label_key_chars(label: Seq<char>, id: Seq<char>) -> Seq<char> {
    "nl:"@ + label + ":"@ + id
}

/// Key of an edge label index entry: `el:` label `:` id.
pub open spec fn edge_label_key_chars(label: Seq<char>, id: Seq<char>) -> Seq<char> {
    "el:"@ + label + ":"@ + id
}

/// Key of an outgoing adjacency entry: `o:` source node id `:` edge id.
pub open spec fn out_edge_key_chars(from_id: Seq<char>, edge_id: Seq<char>) -> Seq<char> {
    "o:"@ + from_id + ":"@ + edge_id
}

/// Key of an incoming adjacency entry: `i:` sink node id `:` edge id.
pub open spec fn in_edge_key_chars(to_id: Seq<char>, edge_id: Seq<char>) -> Seq<char> {
    "i:"@ + to_id + ":"@ + edge_id
}

/// Concatenates two string slices.
pub fn str_concat(a: &str, b: &str) -> (r: String)
    ensures
        r@ == a@ + b@,
{
    let mut s: String = a.to_owned();
    s.append(b);
    s
}

/// Builds `n:` + id.
pub fn node_key_string(id: &str) -> (r: String)
    ensures
        r@ == node_key_chars(id@),
{
    str_concat("n:", id)
}

/// Builds `e:` + id.
pub fn edge_key_string(id: &str) -> (r: String)
    ensures
        r@ == edge_key_chars(id@),
{
    str_concat("e:", id)
}

/// Builds a two-part key: tag, first part, colon, second part.
fn tagged_pair_key(tag: &str, a: &str, b: &str) -> (r: String)
    ensures
        r@ == tag@ + a@ + ":"@ + b@,
{
    let mut s: String = tag.to_owned();
    s.append(a);
    s.append(":");
    s.append(b);
    proof {
        assert(s@ =~= tag@ + a@ + ":"@ + b@);
    }
    s
}

/// Builds `nl:` label `:` id.
pub fn node_label_key_string(label: &str, id: &str) -> (r: String)
    ensures
        r@ == node_label_key_chars(label@, id@),
{
    tagged_pair_key("nl:", label, id)
}

/// Builds `el:` label `:` id.
pub fn edge_label_key_string(label: &str, id: &str) -> (r: String)
    ensures
        r@ == edge_label_key_chars(label@, id@),
{
    tagged_pair_key("el:", label, id)
}

/// Builds `o:` source node id `:` edge id.
pub fn out_edge_key_string(from_id: &str, edge_id: &str) -> (r: String)
    ensures
        r@ == out_edge_key_chars(from_id@, edge_id@),
{
    tagged_pair_key("o:", from_id, edge_id)
}

/// Builds `i:` sink node id `:` edge id.
pub fn in_edge_key_string(to_id: &str, edge_id: &str) -> (r: String)
    ensures
        r@ == in_edge_key_chars(to_id@, edge_id@),
{
    tagged_pair_key("i:", to_id, edge_id)
}

/// Whether `p` is a prefix of `s`, character for character.
pub fn str_starts_with(s: &str, p: &str) -> (r: bool)
    ensures
        r == p@.is_prefix_of(s@),
{
    let n = p.unicode_len();
    let m = s.unicode_len();
    if n > m {
        proof {
            assert(!p@.is_prefix_of(s@));
        }
        false
    } else {
        let head = s.substring_char(0, n);
        let r = str_eq(head, p);
        proof {
            if head@ == p@ {
                assert(p@ =~= s@.subrange(0, p@.len() as int));
            } else {
                assert(!(p@ =~= s@.subrange(0, p@.len() as int)));
            }
        }
        r
    }
}

/// The characters of `s` after the first `n`.
pub fn str_skip(s: &str, n: usize) -> (r: String)
    requires
        n <= s@.len(),
    ensures
        r@ == s@.skip(n as int),
{
    let m = s.unicode_len();
    let tail = s.substring_char(n, m);
    proof {
        assert(tail@ =~= s@.skip(n as int));
    }
    tail.to_owned()
}

/// A key `tag + f + ":" + e` begins with `tag + n + ":"` exactly when
/// `n` is `f`, provided `f` and `e` hold no colon. This is what makes an
/// adjacency prefix scan pick out exactly one endpoint's entries.
pub proof fn lemma_tagged_prefix(tag: Seq<char>, n: Seq<char>, f: Seq<char>, e: Seq<char>)
    requires
        colon_free(f),
        colon_free(e),
    ensures
        (tag + n + ":"@).is_prefix_of(tag + f + ":"@ + e) <==> n == f,
{
    reveal_strlit(":");
    let pre = tag + n + ":"@;
    let key = tag + f + ":"@ + e;
    assert(":"@.len() == 1 && ":"@[0] == ':');
    if n == f {
        assert(pre.is_prefix_of(key)) by {
            assert(pre.len() <= key.len());
            assert(pre =~= key.subrange(0, pre.len() as int));
        }
    }
    if pre.is_prefix_of(key) {
        assert(pre =~= key.subrange(0, pre.len() as int));
        assert(forall|i: int| 0 <= i < pre.len() ==> pre[i] == key[i]);
        let t = tag.len() as int;
        if n.len() < f.len() {
            assert(pre[t + n.len()] == ':');
            assert(key[t + n.len()] == f[n.len() as int]);
            assert(false);
        } else if n.len() > f.len() {
            // the final colon of the prefix would land inside `e`
            let j = t + n.len();
            assert(pre[j] == ':');
            assert(j < key.len());
            assert(key[j] == e[j - t - f.len() - 1]);
            assert(false);
        } else {
            assert forall|i: int| 0 <= i < n.len() implies n[i] == f[i] by {
                assert(pre[t + i] == n[i]);
                assert(key[t + i] == f[i]);
            }
            assert(n =~= f);
        }
    }
}

/// Under the conditions of `lemma_tagged_prefix`, dropping the prefix of
/// a matching key leaves exactly the edge id.
pub proof fn lemma_tagged_suffix(tag: Seq<char>, f: Seq<char>, e: Seq<char>)
    ensures
        (tag + f + ":"@ + e).skip((tag + f + ":"@).len() as int) == e,
{
    assert((tag + f + ":"@ + e).skip((tag + f + ":"@).len() as int) =~= e);
}

/// Two composed keys under one tag agree exactly when their parts do,
/// provided the first parts hold no colon.
pub proof fn lemma_pair_key_injective(tag: Seq<char>, a: Seq<char>, b: Seq<char>, a2: Seq<char>, b2: Seq<char>)
    requires
        colon_free(a),
        colon_free(a2),
        tag + a + ":"@ + b == tag + a2 + ":"@ + b2,
    ensures
        a == a2,
        b == b2,
{
    reveal_strlit(":");
    let k = tag + a + ":"@ + b;
    let t = tag.len() as int;
    assert(":"@.len() == 1 && ":"@[0] == ':');
    if a.len() < a2.len() {
        assert(k[t + a.len()] == ':');
        assert((tag + a2 + ":"@ + b2)[t + a.len()] == a2[a.len() as int]);
        assert(false);
    } else if a.len() > a2.len() {
        assert(k[t + a2.len()] == a[a2.len() as int]);
        assert((tag + a2 + ":"@ + b2)[t + a2.len()] == ':');
        assert(false);
    } else {
        assert forall|i: int| 0 <= i < a.len() implies a[i] == a2[i] by {
            assert(k[t + i] == a[i]);
            assert((tag + a2 + ":"@ + b2)[t + i] == a2[i]);
        }
        assert(a =~= a2);
        assert(k.len() == t + a.len() + 1 + b.len());
        assert((tag + a2 + ":"@ + b2).len() == t + a2.len() + 1 + b2.len());
        assert(b.len() == b2.len());
        assert forall|i: int| 0 <= i < b.len() implies b[i] == b2[i] by {
            assert(k[t + a.len() + 1 + i] == b[i]);
            assert((tag + a2 + ":"@ + b2)[t + a.len() + 1 + i] == b2[i]);
        }
        assert(b =~= b2);
    }
}

/// Two composed keys under one tag agree exactly when their parts do,
/// provided the second parts hold no colon.
pub proof fn lemma_suffix_key_injective(tag: Seq<char>, l1: Seq<char>, a: Seq<char>, l2: Seq<char>, b: Seq<char>)
    requires
        colon_free(a),
        colon_free(b),
        tag + l1 + ":"@ + a == tag + l2 + ":"@ + b,
    ensures
        l1 == l2,
        a == b,
{
    reveal_strlit(":");
    let k = tag + l1 + ":"@ + a;
    let t = tag.len() as int;
    assert(":"@.len() == 1 && ":"@[0] == ':');
    assert(k.len() == t + l1.len() + 1 + a.len());
    assert(k.len() == t + l2.len() + 1 + b.len());
    if a.len() < b.len() {
        // the colon before `l2`'s suffix would land inside `b`
        let j = t + l1.len();
        assert(k[j] == ':');
        assert(j - t - l2.len() - 1 == b.len() - a.len() - 1);
        assert((tag + l2 + ":"@ + b)[j] == b[j - t - l2.len() - 1]);
        assert(false);
    } else if a.len() > b.len() {
        let j = t + l2.len();
        assert((tag + l2 + ":"@ + b)[j] == ':');
        assert(k[j] == l1[j - t]) by {
            assert(j - t < l1.len());
        }
        assert(false);
    } else {
        assert(l1.len() == l2.len());
        assert forall|i: int| 0 <= i < l1.len() implies l1[i] == l2[i] by {
            assert(k[t + i] == l1[i]);
            assert((tag + l2 + ":"@ + b)[t + i] == l2[i]);
        }
        assert(l1 =~= l2);
        assert forall|i: int| 0 <= i < a.len() implies a[i] == b[i] by {
            assert(k[t + l1.len() + 1 + i] == a[i]);
            assert((tag + l2 + ":"@ + b)[t + l1.len() + 1 + i] == b[i]);
        }
        assert(a =~= b);
    }
}

/// Two record keys under one tag agree exactly when the ids agree.
pub proof fn lemma_tag_id_injective(tag: Seq<char>, a: Seq<char>, b: Seq<char>)
    ensures
        (tag + a == tag + b) <==> a == b,
{
    if tag + a == tag + b {
        assert(a =~= b) by {
            assert(forall|i: int| 0 <= i < a.len() ==> a[i] == (tag + a)[tag.len() + i]);
            assert((tag + a).len() == (tag + b).len());
        }
    }
    if a == b {
        assert(tag + a =~= tag + b);
    }
}

} // verus!
