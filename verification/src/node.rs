//! The canonical document model: a finite tree of nulls, booleans, numbers,
//! strings, arrays and objects, plus the `Void` sentinel meaning "no value".
//!
//! Object entries are held sorted ascending by key and free of duplicates,
//! so iteration order is deterministic for hashing, diffing and rendering.
use crate::number::{finite_bits, same_f64, Number};
use crate::strutil::{str_lt, CloneString};
use vstd::prelude::*;

verus! {

/// The abstract value of a node.
#[verifier::ext_equal]
pub enum NodeV {
    /// Sentinel representing the absence of a value.
    Void,
    /// JSON `null`.
    Null,
    /// JSON boolean.
    Bool(bool),
    /// JSON number: bit pattern and canonical text.
    Num {
        /// The IEEE 754 binary64 bit pattern.
        bits: u64,
        /// The canonical decimal rendering.
        text: Seq<char>,
    },
    /// JSON string.
    Str(Seq<char>),
    /// JSON array.
    Arr(Seq<NodeV>),
    /// JSON object: entries as key/value pairs.
    Obj(Seq<(Seq<char>, NodeV)>),
}

/// Represents the canonical JSON data model used by the diff engine.
#[derive(Debug)]
pub enum Node {
    /// Sentinel representing the absence of a value.
    Void,
    /// JSON `null`.
    Null,
    /// JSON boolean.
    Bool(bool),
    /// JSON number represented as IEEE 754 double precision.
    Number(Number),
    /// JSON string.
    String(String),
    /// JSON array.
    Array(Vec<Node>),
    /// JSON object with deterministic (ascending) key ordering.
    Object(Vec<(String, Node)>),
}

/// The abstract value of a node.
pub open spec fn view_node(n: Node) -> NodeV
    decreases n,
{
    match n {
        Node::Void => NodeV::Void,
        Node::Null => NodeV::Null,
        Node::Bool(b) => NodeV::Bool(b),
        Node::Number(num) => NodeV::Num { bits: num@.bits, text: num@.text },
        Node::String(s) => NodeV::Str(s@),
        Node::Array(items) => {
            proof {
                assert(decreases_to!(n => items));
                assert(decreases_to!(items => items@));
            }
            NodeV::Arr(view_nodes(items@))
        },
        Node::Object(entries) => {
            proof {
                assert(decreases_to!(n => entries));
                assert(decreases_to!(entries => entries@));
            }
            NodeV::Obj(view_entries(entries@))
        },
    }
}

/// The abstract values of a sequence of nodes, elementwise.
pub open spec fn view_nodes(items: Seq<Node>) -> Seq<NodeV>
    decreases items,
{
    if items.len() == 0 {
        Seq::empty()
    } else {
        proof {
            broadcast use vstd::seq::axiom_seq_subrange_decreases;

            assert(decreases_to!(items => items.subrange(0, items.len() - 1)));
        }
        view_nodes(items.subrange(0, items.len() - 1)).push(view_node(items.last()))
    }
}

/// The abstract values of a sequence of object entries, elementwise.
pub open spec fn view_entries(entries: Seq<(String, Node)>) -> Seq<(Seq<char>, NodeV)>
    decreases entries,
{
    if entries.len() == 0 {
        Seq::empty()
    } else {
        proof {
            broadcast use vstd::seq::axiom_seq_subrange_decreases;

            assert(decreases_to!(entries => entries.subrange(0, entries.len() - 1)));
            assert(decreases_to!(entries => entries.last()));
        }
        view_entries(entries.subrange(0, entries.len() - 1)).push(
            (entries.last().0@, view_node(entries.last().1)),
        )
    }
}

/// The elementwise view keeps lengths and maps each element.
pub broadcast proof fn lemma_view_nodes(items: Seq<Node>)
    ensures
        (#[trigger] view_nodes(items)).len() == items.len(),
        forall|i: int|
            0 <= i < items.len() ==> #[trigger] view_nodes(items)[i] == view_node(items[i]),
    decreases items.len(),
{
    if items.len() > 0 {
        lemma_view_nodes(items.subrange(0, items.len() - 1));
        assert forall|i: int| 0 <= i < items.len() implies #[trigger] view_nodes(items)[i]
            == view_node(items[i]) by {
            if i < items.len() - 1 {
                assert(items.subrange(0, items.len() - 1)[i] == items[i]);
            }
        }
    }
}

/// The elementwise view of entries keeps lengths and maps each entry.
pub broadcast proof fn lemma_view_entries(entries: Seq<(String, Node)>)
    ensures
        (#[trigger] view_entries(entries)).len() == entries.len(),
        forall|i: int|
            0 <= i < entries.len() ==> #[trigger] view_entries(entries)[i] == (entries[i].0@,
            view_node(entries[i].1)),
    decreases entries.len(),
{
    if entries.len() > 0 {
        lemma_view_entries(entries.subrange(0, entries.len() - 1));
        assert forall|i: int| 0 <= i < entries.len() implies #[trigger] view_entries(entries)[i]
            == (entries[i].0@, view_node(entries[i].1)) by {
            if i < entries.len() - 1 {
                assert(entries.subrange(0, entries.len() - 1)[i] == entries[i]);
            }
        }
    }
}

impl View for Node {
    type V = NodeV;

    open spec fn view(&self) -> NodeV {
        view_node(*self)
    }
}

/// The object entries are strictly ascending by key: sorted, no duplicates.
pub open spec fn obj_keys_sorted(entries: Seq<(Seq<char>, NodeV)>) -> bool {
    forall|i: int, j: int|
        0 <= i < j < entries.len() ==> str_lt(#[trigger] entries[i].0, #[trigger] entries[j].0)
}

/// A well-formed node: every number is finite and every object has strictly
/// ascending keys, recursively.
pub open spec fn node_wf(v: NodeV) -> bool
    decreases v,
{
    match v {
        NodeV::Num { bits, .. } => finite_bits(bits),
        NodeV::Arr(items) => forall|i: int|
            0 <= i < items.len() ==> node_wf(#[trigger] items[i]),
        NodeV::Obj(entries) => {
            &&& obj_keys_sorted(entries)
            &&& forall|i: int| 0 <= i < entries.len() ==> node_wf(#[trigger] entries[i].1)
        },
        _ => true,
    }
}

/// Looks a key up among object entries: the first entry with that key.
pub open spec fn obj_lookup(entries: Seq<(Seq<char>, NodeV)>, key: Seq<char>) -> Option<NodeV>
    decreases entries.len(),
{
    if entries.len() == 0 {
        None
    } else if entries[0].0 == key {
        Some(entries[0].1)
    } else {
        obj_lookup(entries.drop_first(), key)
    }
}

/// Exact structural equality of node values: numbers compare by denoted
/// value (so the two zeros are equal), their carried text is immaterial;
/// objects compare entry by entry.
pub open spec fn node_eq_exact(a: NodeV, b: NodeV) -> bool
    decreases a,
{
    match (a, b) {
        (NodeV::Void, NodeV::Void) => true,
        (NodeV::Null, NodeV::Null) => true,
        (NodeV::Bool(x), NodeV::Bool(y)) => x == y,
        (NodeV::Num { bits: x, .. }, NodeV::Num { bits: y, .. }) => same_f64(x, y),
        (NodeV::Str(x), NodeV::Str(y)) => x == y,
        (NodeV::Arr(x), NodeV::Arr(y)) => {
            &&& x.len() == y.len()
            &&& forall|i: int| 0 <= i < x.len() ==> node_eq_exact(#[trigger] x[i], y[i])
        },
        (NodeV::Obj(x), NodeV::Obj(y)) => {
            &&& x.len() == y.len()
            &&& forall|i: int|
                0 <= i < x.len() ==> (#[trigger] x[i]).0 == y[i].0 && node_eq_exact(x[i].1, y[i].1)
        },
        _ => false,
    }
}

/// Exact equality of node values, at the executable level.
#[verifier::loop_isolation(false)]
pub fn nodes_equal(a: &Node, b: &Node) -> (r: bool)
    ensures
        r == node_eq_exact(a@, b@),
    decreases *a,
{
    broadcast use lemma_view_nodes, lemma_view_entries;

    match (a, b) {
        (Node::Void, Node::Void) => true,
        (Node::Null, Node::Null) => true,
        (Node::Bool(x), Node::Bool(y)) => *x == *y,
        (Node::Number(x), Node::Number(y)) => x.equals_exact(y),
        (Node::String(x), Node::String(y)) => *x == *y,
        (Node::Array(x), Node::Array(y)) => {
            proof {
                assert(a@ == NodeV::Arr(view_nodes(x@)));
                assert(b@ == NodeV::Arr(view_nodes(y@)));
                assert(view_nodes(x@).len() == x@.len());
                assert(view_nodes(y@).len() == y@.len());
            }
            if x.len() != y.len() {
                return false;
            }
            let mut i: usize = 0;
            while i < x.len()
                invariant
                    x@.len() == y@.len(),
                    i <= x@.len(),
                    a@ == NodeV::Arr(view_nodes(x@)),
                    b@ == NodeV::Arr(view_nodes(y@)),
                    forall|j: int| 0 <= j < i ==> node_eq_exact(view_node(#[trigger] x@[j]), view_node(y@[j])),
                decreases x@.len() - i,
            {
                proof {
                    assert(decreases_to!(*a => a->Array_0));
                    assert(a->Array_0 == *x);
                    assert(decreases_to!(*x => x@));
                    assert(decreases_to!(x@ => x@[i as int]));
                }
                if !nodes_equal(&x[i], &y[i]) {
                    proof {
                        assert(view_nodes(x@)[i as int] == view_node(x@[i as int]));
                        assert(view_nodes(y@)[i as int] == view_node(y@[i as int]));
                        assert(!node_eq_exact(view_nodes(x@)[i as int], view_nodes(y@)[i as int]));
                    }
                    return false;
                }
                i = i + 1;
            }
            true
        },
        (Node::Object(x), Node::Object(y)) => {
            proof {
                assert(a@ == NodeV::Obj(view_entries(x@)));
                assert(b@ == NodeV::Obj(view_entries(y@)));
                assert(view_entries(x@).len() == x@.len());
                assert(view_entries(y@).len() == y@.len());
            }
            if x.len() != y.len() {
                return false;
            }
            let mut i: usize = 0;
            while i < x.len()
                invariant
                    x@.len() == y@.len(),
                    i <= x@.len(),
                    a@ == NodeV::Obj(view_entries(x@)),
                    b@ == NodeV::Obj(view_entries(y@)),
                    forall|j: int|
                        0 <= j < i ==> (#[trigger] x@[j]).0@ == y@[j].0@ && node_eq_exact(
                            view_node(x@[j].1),
                            view_node(y@[j].1),
                        ),
                decreases x@.len() - i,
            {
                if !(x[i].0 == y[i].0) {
                    proof {
                        assert(view_entries(x@)[i as int].0 == x@[i as int].0@);
                        assert(view_entries(y@)[i as int].0 == y@[i as int].0@);
                    }
                    return false;
                }
                proof {
                    assert(decreases_to!(*a => a->Object_0));
                    assert(a->Object_0 == *x);
                    assert(decreases_to!(*x => x@));
                    assert(decreases_to!(x@ => x@[i as int]));
                    assert(decreases_to!(x@[i as int] => x@[i as int].1));
                }
                if !nodes_equal(&x[i].1, &y[i].1) {
                    proof {
                        assert(view_entries(x@)[i as int].1 == view_node(x@[i as int].1));
                        assert(view_entries(y@)[i as int].1 == view_node(y@[i as int].1));
                        assert(!node_eq_exact(
                            view_entries(x@)[i as int].1,
                            view_entries(y@)[i as int].1,
                        ));
                    }
                    return false;
                }
                i = i + 1;
            }
            true
        },
        _ => {
            false
        },
    }
}

impl Clone for Node {
    fn clone(&self) -> (r: Self)
        ensures
            r@ == self@,
    {
        clone_node(self)
    }
}

/// Deep-copies a node, keeping its abstract value.
#[verifier::loop_isolation(false)]
pub fn clone_node(n: &Node) -> (r: Node)
    ensures
        r@ == n@,
    decreases *n,
{
    broadcast use lemma_view_nodes, lemma_view_entries;

    match n {
        Node::Void => Node::Void,
        Node::Null => Node::Null,
        Node::Bool(b) => Node::Bool(*b),
        Node::Number(num) => Node::Number(num.clone()),
        Node::String(s) => Node::String(s.clone_string()),
        Node::Array(items) => {
            let mut out: Vec<Node> = Vec::new();
            let mut i: usize = 0;
            while i < items.len()
                invariant
                    i <= items@.len(),
                    out@.len() == i,
                    forall|j: int| 0 <= j < i ==> view_node(#[trigger] out@[j]) == view_node(items@[j]),
                decreases items@.len() - i,
            {
                proof {
                    assert(decreases_to!(*n => n->Array_0));
                    assert(n->Array_0 == *items);
                    assert(decreases_to!(*items => items@));
                    assert(decreases_to!(items@ => items@[i as int]));
                }
                out.push(clone_node(&items[i]));
                i = i + 1;
            }
            let r = Node::Array(out);
            proof {
                assert(view_nodes(r->Array_0@) =~= view_nodes(items@));
            }
            r
        },
        Node::Object(entries) => {
            let mut out: Vec<(String, Node)> = Vec::new();
            let mut i: usize = 0;
            while i < entries.len()
                invariant
                    i <= entries@.len(),
                    out@.len() == i,
                    forall|j: int|
                        0 <= j < i ==> (#[trigger] out@[j]).0@ == entries@[j].0@ && view_node(
                            out@[j].1,
                        ) == view_node(entries@[j].1),
                decreases entries@.len() - i,
            {
                proof {
                    assert(decreases_to!(*n => n->Object_0));
                    assert(n->Object_0 == *entries);
                    assert(decreases_to!(*entries => entries@));
                    assert(decreases_to!(entries@ => entries@[i as int]));
                    assert(decreases_to!(entries@[i as int] => entries@[i as int].1));
                }
                let key = entries[i].0.clone_string();
                let value = clone_node(&entries[i].1);
                out.push((key, value));
                i = i + 1;
            }
            let r = Node::Object(out);
            proof {
                assert(view_entries(r->Object_0@) =~= view_entries(entries@));
            }
            r
        },
    }
}

impl PartialEq for Node {
    fn eq(&self, other: &Self) -> (r: bool) {
        nodes_equal(self, other)
    }
}

impl vstd::std_specs::cmp::PartialEqSpecImpl for Node {
    open spec fn obeys_eq_spec() -> bool {
        true
    }

    open spec fn eq_spec(&self, other: &Self) -> bool {
        node_eq_exact(self@, other@)
    }
}

} // verus!
