//! Structural equality of nodes under diff options: tolerance-aware number
//! comparison, and order-insensitive array comparison in set and multiset
//! modes, which compare the children's hash codes.
use crate::hashnode::{
    child_hashes, dedup_hashes, dedup_hashes_exec, hash_le, hash_node, lemma_child_hashes,
    lemma_hash_le_total_ordering, node_hash, sort_hashes, sort_hashes_exec,
};
use crate::node::{
    lemma_view_entries, lemma_view_nodes, node_wf, obj_lookup, view_entries, view_node, view_nodes,
    Node, NodeV,
};
use crate::number::{f64_is_neg, finite_bits, tolerance_compare, within_tolerance};
use crate::options::{ArrayMode, DiffOptions, OptionsV};
use vstd::prelude::*;

verus! {

/// Equality of node values under the given options: numbers compare within
/// the tolerance; arrays compare pairwise in list mode, as hash sets in set
/// mode, and as hash multisets in multiset mode; objects compare by key.
pub open spec fn node_eq_opts(a: NodeV, b: NodeV, opts: OptionsV) -> bool
    decreases a,
{
    match (a, b) {
        (NodeV::Void, NodeV::Void) => true,
        (NodeV::Null, NodeV::Null) => true,
        (NodeV::Bool(x), NodeV::Bool(y)) => x == y,
        (NodeV::Num { bits: x, .. }, NodeV::Num { bits: y, .. }) => within_tolerance(
            x,
            y,
            opts.precision,
        ),
        (NodeV::Str(x), NodeV::Str(y)) => x == y,
        (NodeV::Arr(x), NodeV::Arr(y)) => match opts.array_mode {
            ArrayMode::List => {
                &&& x.len() == y.len()
                &&& forall|i: int| 0 <= i < x.len() ==> node_eq_opts(#[trigger] x[i], y[i], opts)
            },
            ArrayMode::SetMode => child_hashes(x, opts.array_mode).to_set() == child_hashes(
                y,
                opts.array_mode,
            ).to_set(),
            ArrayMode::MultiSet => child_hashes(x, opts.array_mode).to_multiset() == child_hashes(
                y,
                opts.array_mode,
            ).to_multiset(),
        },
        (NodeV::Obj(x), NodeV::Obj(y)) => {
            &&& x.len() == y.len()
            &&& forall|i: int|
                0 <= i < x.len() ==> match obj_lookup(y, (#[trigger] x[i]).0) {
                    Some(v) => node_eq_opts(x[i].1, v, opts),
                    None => false,
                }
        },
        _ => false,
    }
}

/// Sorting and removing duplicates keeps exactly the distinct elements, and
/// two such normal forms are equal exactly when the element sets are.
proof fn lemma_set_normal_form(x: Seq<u64>, y: Seq<u64>)
    ensures
        (dedup_hashes(sort_hashes(x)) == dedup_hashes(sort_hashes(y))) == (x.to_set()
            == y.to_set()),
{
    let leq = |a: u64, b: u64| hash_le(a, b);
    lemma_hash_le_total_ordering();
    x.lemma_sort_by_ensures(leq);
    y.lemma_sort_by_ensures(leq);
    lemma_multiset_same_contains(x, sort_hashes(x));
    lemma_multiset_same_contains(y, sort_hashes(y));
    lemma_dedup_ensures(sort_hashes(x));
    lemma_dedup_ensures(sort_hashes(y));
    let dx = dedup_hashes(sort_hashes(x));
    let dy = dedup_hashes(sort_hashes(y));
    lemma_contains_to_set(x);
    lemma_contains_to_set(y);
    if x.to_set() == y.to_set() {
        assert forall|v: u64| dx.contains(v) == dy.contains(v) by {
            assert(x.to_set().contains(v) == x.contains(v));
            assert(y.to_set().contains(v) == y.contains(v));
        }
        lemma_sorted_unique_sets(dx, dy);
        assert(dx =~= dy);
    }
    if dx == dy {
        assert forall|v: u64| x.to_set().contains(v) == y.to_set().contains(v) by {
            assert(x.to_set().contains(v) == x.contains(v));
            assert(y.to_set().contains(v) == y.contains(v));
            assert(x.contains(v) == dx.contains(v));
            assert(y.contains(v) == dy.contains(v));
        }
        assert(x.to_set() =~= y.to_set());
    }
}

/// Sequences with equal multisets contain the same elements.
proof fn lemma_multiset_same_contains(x: Seq<u64>, y: Seq<u64>)
    requires
        x.to_multiset() == y.to_multiset(),
    ensures
        forall|v: u64| x.contains(v) == y.contains(v),
{
    x.to_multiset_ensures();
    y.to_multiset_ensures();
    assert forall|v: u64| x.contains(v) == y.contains(v) by {
        assert(x.contains(v) <==> x.to_multiset().count(v) > 0);
        assert(y.contains(v) <==> y.to_multiset().count(v) > 0);
    }
}

/// `hash_le` both ways means equality.
proof fn lemma_hash_le_antisym(a: u64, b: u64)
    requires
        hash_le(a, b),
        hash_le(b, a),
    ensures
        a == b,
{
    lemma_swap64_injective_public(a, b);
}

/// Equal byte swaps come from equal values.
proof fn lemma_swap64_injective_public(a: u64, b: u64)
    requires
        crate::hashnode::swap64(a) == crate::hashnode::swap64(b),
    ensures
        a == b,
{
    let sa = crate::hashnode::swap64(a);
    let sb = crate::hashnode::swap64(b);
    assert(sa == sb ==> a == b) by (bit_vector)
        requires
            sa == ((a & 0xFF) << 56) | (((a >> 8) & 0xFF) << 48) | (((a >> 16) & 0xFF) << 40) | (((
            a >> 24) & 0xFF) << 32) | (((a >> 32) & 0xFF) << 24) | (((a >> 40) & 0xFF) << 16) | (((
            a >> 48) & 0xFF) << 8) | ((a >> 56) & 0xFF),
            sb == ((b & 0xFF) << 56) | (((b >> 8) & 0xFF) << 48) | (((b >> 16) & 0xFF) << 40) | (((
            b >> 24) & 0xFF) << 32) | (((b >> 32) & 0xFF) << 24) | (((b >> 40) & 0xFF) << 16) | (((
            b >> 48) & 0xFF) << 8) | ((b >> 56) & 0xFF),
    ;
}

/// Containment agrees between a sequence and its set.
proof fn lemma_contains_to_set(x: Seq<u64>)
    ensures
        forall|v: u64| #[trigger] x.to_set().contains(v) == x.contains(v),
{
}

/// Removing adjacent duplicates from a sorted sequence yields a strictly
/// sorted sequence with the same elements.
proof fn lemma_dedup_ensures(s: Seq<u64>)
    requires
        vstd::relations::sorted_by(s, |a: u64, b: u64| hash_le(a, b)),
    ensures
        forall|v: u64| #[trigger] dedup_hashes(s).contains(v) == s.contains(v),
        forall|i: int, j: int|
            0 <= i < j < dedup_hashes(s).len() ==> hash_le(
                #[trigger] dedup_hashes(s)[i],
                #[trigger] dedup_hashes(s)[j],
            ) && dedup_hashes(s)[i] != dedup_hashes(s)[j],
        forall|i: int|
            0 <= i < dedup_hashes(s).len() ==> exists|k: int|
                0 <= k < s.len() && s[k] == #[trigger] dedup_hashes(s)[i],
        dedup_hashes(s).len() > 0 ==> s.len() > 0 && dedup_hashes(s).last() == s.last(),
    decreases s.len(),
{
    let leq = |a: u64, b: u64| hash_le(a, b);
    if s.len() > 0 {
        let front = s.drop_last();
        assert(vstd::relations::sorted_by(front, leq)) by {
            assert forall|i: int, j: int| 0 <= i < j < front.len() implies leq(
                front[i],
                front[j],
            ) by {
                assert(leq(s[i], s[j]));
            }
        }
        lemma_dedup_ensures(front);
        let d = dedup_hashes(s);
        let df = dedup_hashes(front);
        assert forall|v: u64| #[trigger] d.contains(v) == s.contains(v) by {
            if d.contains(v) {
                let w = choose|w: int| 0 <= w < d.len() && d[w] == v;
                if w < df.len() {
                    assert(df.contains(v));
                    assert(front.contains(v));
                    let u = choose|u: int| 0 <= u < front.len() && front[u] == v;
                    assert(s[u] == v);
                } else {
                    assert(v == s.last());
                }
                assert(s.contains(v));
            }
            if s.contains(v) {
                let w = choose|w: int| 0 <= w < s.len() && s[w] == v;
                if w < s.len() - 1 {
                    assert(front[w] == v);
                    assert(front.contains(v));
                    assert(df.contains(v));
                    let u = choose|u: int| 0 <= u < df.len() && df[u] == v;
                    if df.len() > 0 && df.last() == s.last() {
                        assert(d == df);
                        assert(d.contains(v));
                    } else {
                        assert(d == df.push(s.last()));
                        assert(d[u] == v);
                        assert(d.contains(v));
                    }
                } else {
                    assert(v == s.last());
                    if df.len() > 0 && df.last() == s.last() {
                        assert(d == df);
                        assert(d.last() == v);
                    } else {
                        assert(d == df.push(s.last()));
                        assert(d.last() == v);
                    }
                    assert(d.contains(v));
                }
            }
        }
        // Strict sortedness: the appended element is strictly above the rest.
        if df.len() > 0 && df.last() == s.last() {
        } else {
            assert forall|i: int| 0 <= i < df.len() implies hash_le(#[trigger] df[i], s.last())
                && df[i] != s.last() by {
                assert(front.contains(df[i]));
                let k = choose|k: int| 0 <= k < front.len() && front[k] == df[i];
                assert(front[k] == s[k]);
                assert(leq(s[k], s[s.len() - 1]));
                assert(hash_le(df[i], s.last()));
                if df[i] == s.last() {
                    if i == df.len() - 1 {
                        assert(df.last() == s.last());
                        assert(false);
                    } else {
                        assert(hash_le(df[i], df.last()) && df[i] != df.last());
                        assert(front.contains(df.last())) by {
                            assert(df.contains(df.last()));
                        }
                        let m = choose|m: int| 0 <= m < front.len() && front[m] == df.last();
                        assert(front[m] == s[m]);
                        assert(leq(s[m], s[s.len() - 1]));
                        assert(hash_le(df.last(), s.last()));
                        lemma_hash_le_antisym(df.last(), s.last());
                        assert(false);
                    }
                }
            }
        }
    }
}

/// Two strictly sorted sequences holding the same elements are equal.
proof fn lemma_sorted_unique_sets(x: Seq<u64>, y: Seq<u64>)
    requires
        forall|i: int, j: int|
            0 <= i < j < x.len() ==> hash_le(#[trigger] x[i], #[trigger] x[j]) && x[i] != x[j],
        forall|i: int, j: int|
            0 <= i < j < y.len() ==> hash_le(#[trigger] y[i], #[trigger] y[j]) && y[i] != y[j],
        forall|v: u64| x.contains(v) == y.contains(v),
    ensures
        x =~= y,
    decreases x.len(),
{
    lemma_hash_le_total_ordering();
    if x.len() == 0 {
        if y.len() > 0 {
            assert(y.contains(y[0]));
            assert(x.contains(y[0]));
        }
    } else {
        assert(x.contains(x[0]));
        assert(y.len() > 0) by {
            assert(y.contains(x[0]));
        }
        // The heads are both the unique minimum of the common element set.
        assert(x[0] == y[0]) by {
            assert(y.contains(x[0]));
            let i = choose|i: int| 0 <= i < y.len() && y[i] == x[0];
            assert(x.contains(y[0]));
            let j = choose|j: int| 0 <= j < x.len() && x[j] == y[0];
            if i == 0 {
            } else if j == 0 {
            } else {
                assert(hash_le(y[0], y[i]) && y[0] != y[i]);
                assert(hash_le(y[0], x[0]));
                assert(hash_le(x[0], x[j]) && x[0] != x[j]);
                assert(hash_le(x[0], y[0]));
                lemma_hash_le_antisym(x[0], y[0]);
            }
        }
        let xt = x.drop_first();
        let yt = y.drop_first();
        assert forall|v: u64| xt.contains(v) == yt.contains(v) by {
            if xt.contains(v) {
                let w = choose|w: int| 0 <= w < xt.len() && xt[w] == v;
                assert(x[w + 1] == v);
                assert(x.contains(v));
                assert(v != x[0]);
                assert(y.contains(v));
                let u = choose|u: int| 0 <= u < y.len() && y[u] == v;
                assert(u > 0);
                assert(yt[u - 1] == v);
                assert(yt.contains(v));
            }
            if yt.contains(v) {
                let w = choose|w: int| 0 <= w < yt.len() && yt[w] == v;
                assert(y[w + 1] == v);
                assert(y.contains(v));
                assert(v != y[0]);
                assert(x.contains(v));
                let u = choose|u: int| 0 <= u < x.len() && x[u] == v;
                assert(u > 0);
                assert(xt[u - 1] == v);
                assert(xt.contains(v));
            }
        }
        lemma_sorted_unique_sets(xt, yt);
        assert(xt =~= yt);
        assert forall|k: int| 0 <= k < x.len() implies x[k] == y[k] by {
            if k > 0 {
                assert(xt[k - 1] == x[k]);
                assert(yt[k - 1] == y[k]);
            }
        }
        assert(x =~= y);
    }
}

/// A well-formed array value has well-formed children.
proof fn lemma_wf_arr_child(items: Seq<NodeV>, i: int)
    requires
        node_wf(NodeV::Arr(items)),
        0 <= i < items.len(),
    ensures
        node_wf(items[i]),
{
    let v = NodeV::Arr(items);
    assert(v->Arr_0 == items);
    assert(node_wf(v->Arr_0[i]));
}

/// Hash codes of the nodes in a vector, elementwise.
pub(crate) fn hashes_of(items: &Vec<Node>, mode: ArrayMode) -> (r: Vec<u64>)
    ensures
        r@.len() == items@.len(),
        forall|j: int|
            0 <= j < items@.len() ==> r@[j] == node_hash(view_node(#[trigger] items@[j]), mode),
{
    let mut hs: Vec<u64> = Vec::new();
    let mut i: usize = 0;
    while i < items.len()
        invariant
            i <= items@.len(),
            hs@.len() == i,
            forall|j: int| 0 <= j < i ==> hs@[j] == node_hash(view_node(#[trigger] items@[j]), mode),
        decreases items@.len() - i,
    {
        let h = hash_node(&items[i], mode);
        hs.push(h);
        i = i + 1;
    }
    hs
}

/// Compares two sorted-and-deduplicated hash vectors for equality.
fn hash_vecs_equal(a: &Vec<u64>, b: &Vec<u64>) -> (r: bool)
    ensures
        r == (a@ == b@),
{
    if a.len() != b.len() {
        proof {
            assert(a@ != b@);
        }
        return false;
    }
    let mut i: usize = 0;
    while i < a.len()
        invariant
            a@.len() == b@.len(),
            i <= a@.len(),
            forall|j: int| 0 <= j < i ==> a@[j] == b@[j],
        decreases a@.len() - i,
    {
        if a[i] != b[i] {
            return false;
        }
        i = i + 1;
    }
    proof {
        assert(a@ =~= b@);
    }
    true
}

/// Structural equality of two nodes under the given options.
#[verifier::loop_isolation(false)]
pub fn eq_nodes(a: &Node, b: &Node, options: &DiffOptions) -> (r: bool)
    requires
        node_wf(a@),
        node_wf(b@),
        finite_bits(options@.precision),
        !f64_is_neg(options@.precision),
    ensures
        r == node_eq_opts(a@, b@, options@),
    decreases *a,
{
    broadcast use lemma_view_nodes, lemma_view_entries, lemma_child_hashes;

    match (a, b) {
        (Node::Void, Node::Void) => true,
        (Node::Null, Node::Null) => true,
        (Node::Bool(x), Node::Bool(y)) => *x == *y,
        (Node::Number(x), Node::Number(y)) => {
            proof {
                assert(a@ == (NodeV::Num { bits: x@.bits, text: x@.text }));
                assert(finite_bits(x@.bits));
                assert(finite_bits(y@.bits));
            }
            x.equals_with_precision(y, options.precision())
        },
        (Node::String(x), Node::String(y)) => *x == *y,
        (Node::Array(x), Node::Array(y)) => {
            let ghost vx = view_nodes(x@);
            let ghost vy = view_nodes(y@);
            match options.array_mode() {
                ArrayMode::List => {
                    if x.len() != y.len() {
                        return false;
                    }
                    let mut i: usize = 0;
                    while i < x.len()
                        invariant
                            i <= x@.len(),
                            forall|j: int| 0 <= j < i ==> node_eq_opts(#[trigger] vx[j], vy[j], options@),
                        decreases x@.len() - i,
                    {
                        proof {
                            assert(decreases_to!(*a => a->Array_0));
                            assert(a->Array_0 == *x);
                            assert(decreases_to!(*x => x@));
                            assert(decreases_to!(x@ => x@[i as int]));
                            assert(a@ == NodeV::Arr(vx));
                            assert(b@ == NodeV::Arr(vy));
                            assert(node_wf(NodeV::Arr(vx)));
                            assert(node_wf(NodeV::Arr(vy)));
                            lemma_wf_arr_child(vx, i as int);
                            lemma_wf_arr_child(vy, i as int);
                            assert(vx[i as int] == view_node(x@[i as int]));
                            assert(vy[i as int] == view_node(y@[i as int]));
                        }
                        if !eq_nodes(&x[i], &y[i], options) {
                            return false;
                        }
                        i = i + 1;
                    }
                    true
                },
                ArrayMode::SetMode => {
                    let hx = hashes_of(x, ArrayMode::SetMode);
                    let hy = hashes_of(y, ArrayMode::SetMode);
                    proof {
                        assert(hx@ =~= child_hashes(vx, ArrayMode::SetMode));
                        assert(hy@ =~= child_hashes(vy, ArrayMode::SetMode));
                    }
                    let nx = dedup_hashes_exec(&sort_hashes_exec(hx));
                    let ny = dedup_hashes_exec(&sort_hashes_exec(hy));
                    let r = hash_vecs_equal(&nx, &ny);
                    proof {
                        lemma_set_normal_form(
                            child_hashes(vx, ArrayMode::SetMode),
                            child_hashes(vy, ArrayMode::SetMode),
                        );
                    }
                    r
                },
                ArrayMode::MultiSet => {
                    let hx = hashes_of(x, ArrayMode::MultiSet);
                    let hy = hashes_of(y, ArrayMode::MultiSet);
                    proof {
                        assert(hx@ =~= child_hashes(vx, ArrayMode::MultiSet));
                        assert(hy@ =~= child_hashes(vy, ArrayMode::MultiSet));
                    }
                    let sx = sort_hashes_exec(hx);
                    let sy = sort_hashes_exec(hy);
                    let r = hash_vecs_equal(&sx, &sy);
                    proof {
                        let leq = |p: u64, q: u64| hash_le(p, q);
                        lemma_hash_le_total_ordering();
                        child_hashes(vx, ArrayMode::MultiSet).lemma_sort_by_ensures(leq);
                        child_hashes(vy, ArrayMode::MultiSet).lemma_sort_by_ensures(leq);
                        if child_hashes(vx, ArrayMode::MultiSet).to_multiset() == child_hashes(
                            vy,
                            ArrayMode::MultiSet,
                        ).to_multiset() {
                            vstd::seq_lib::lemma_sorted_unique(sx@, sy@, leq);
                            assert(sx@ =~= sy@);
                        }
                    }
                    r
                },
            }
        },
        (Node::Object(x), Node::Object(y)) => {
            let ghost vx = view_entries(x@);
            let ghost vy = view_entries(y@);
            if x.len() != y.len() {
                return false;
            }
            let mut i: usize = 0;
            while i < x.len()
                invariant
                    i <= x@.len(),
                    forall|j: int|
                        0 <= j < i ==> match obj_lookup(vy, (#[trigger] vx[j]).0) {
                            Some(v) => node_eq_opts(vx[j].1, v, options@),
                            None => false,
                        },
                decreases x@.len() - i,
            {
                let found = lookup_entry(y, &x[i].0);
                match found {
                    Some(idx) => {
                        proof {
                            assert(decreases_to!(*a => a->Object_0));
                            assert(a->Object_0 == *x);
                            assert(decreases_to!(*x => x@));
                            assert(decreases_to!(x@ => x@[i as int]));
                            assert(decreases_to!(x@[i as int] => x@[i as int].1));
                            assert(a@ == NodeV::Obj(vx));
                            assert(b@ == NodeV::Obj(vy));
                            assert(node_wf(vx[i as int].1));
                            assert(obj_lookup(vy, vx[i as int].0) == Some(vy[idx as int].1));
                            assert(node_wf(vy[idx as int].1));
                            assert(vx[i as int].1 == view_node(x@[i as int].1));
                            assert(vy[idx as int].1 == view_node(y@[idx as int].1));
                        }
                        if !eq_nodes(&x[i].1, &y[idx].1, options) {
                            return false;
                        }
                    },
                    None => {
                        proof {
                            assert(obj_lookup(vy, vx[i as int].0) is None);
                        }
                        return false;
                    },
                }
                i = i + 1;
            }
            true
        },
        _ => {
            false
        },
    }
}

/// Finds the first entry with the given key, returning its index.
pub(crate) fn lookup_entry(entries: &Vec<(String, Node)>, key: &String) -> (r: Option<usize>)
    ensures
        ({
            let vs = view_entries(entries@);
            match r {
                Some(idx) => {
                    &&& 0 <= idx < vs.len()
                    &&& vs[idx as int].0 == key@
                    &&& obj_lookup(vs, key@) == Some(vs[idx as int].1)
                    &&& forall|j: int| 0 <= j < idx ==> (#[trigger] vs[j]).0 != key@
                },
                None => obj_lookup(vs, key@) is None,
            }
        }),
{
    broadcast use lemma_view_entries;

    let ghost vs = view_entries(entries@);
    let mut i: usize = 0;
    while i < entries.len()
        invariant
            i <= entries@.len(),
            vs == view_entries(entries@),
            forall|j: int| 0 <= j < i ==> (#[trigger] vs[j]).0 != key@,
        decreases entries@.len() - i,
    {
        proof {
            crate::node::lemma_view_entries(entries@);
            assert(view_entries(entries@)[i as int] == (entries@[i as int].0@, view_node(
                entries@[i as int].1,
            )));
            assert(vs[i as int].0 == entries@[i as int].0@);
        }
        if entries[i].0 == *key {
            proof {
                lemma_obj_lookup_skip(vs, key@, i as int);
            }
            return Some(i);
        }
        i = i + 1;
    }
    proof {
        lemma_obj_lookup_none(vs, key@);
    }
    None
}

/// A public face for the lookup-at-index lemma.
pub proof fn lemma_lookup_skip_public(vs: Seq<(Seq<char>, NodeV)>, key: Seq<char>, i: int)
    requires
        0 <= i < vs.len(),
        forall|j: int| 0 <= j < i ==> (#[trigger] vs[j]).0 != key,
        vs[i].0 == key,
    ensures
        obj_lookup(vs, key) == Some(vs[i].1),
{
    lemma_obj_lookup_skip(vs, key, i);
}

/// If the key misses the first `i` entries and hits entry `i`, the lookup
/// returns entry `i`'s value.
proof fn lemma_obj_lookup_skip(vs: Seq<(Seq<char>, NodeV)>, key: Seq<char>, i: int)
    requires
        0 <= i < vs.len(),
        forall|j: int| 0 <= j < i ==> (#[trigger] vs[j]).0 != key,
        vs[i].0 == key,
    ensures
        obj_lookup(vs, key) == Some(vs[i].1),
    decreases i,
{
    if i > 0 {
        assert(vs[0].0 != key);
        lemma_obj_lookup_skip(vs.drop_first(), key, i - 1);
        assert(vs.drop_first()[i - 1] == vs[i]);
    }
}

/// If the key misses every entry, the lookup misses.
proof fn lemma_obj_lookup_none(vs: Seq<(Seq<char>, NodeV)>, key: Seq<char>)
    requires
        forall|j: int| 0 <= j < vs.len() ==> (#[trigger] vs[j]).0 != key,
    ensures
        obj_lookup(vs, key) is None,
    decreases vs.len(),
{
    if vs.len() > 0 {
        lemma_obj_lookup_none(vs.drop_first(), key);
    }
}

impl Node {
    /// Structural equality that respects the diff options.
    pub fn eq_with_options(&self, other: &Self, options: &DiffOptions) -> (r: bool)
        requires
            node_wf(self@),
            node_wf(other@),
            finite_bits(options@.precision),
            !f64_is_neg(options@.precision),
        ensures
            r == node_eq_opts(self@, other@, options@),
    {
        eq_nodes(self, other, options)
    }
}

} // verus!
