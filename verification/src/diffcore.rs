//! The structural diff engine: equal nodes yield no hunks; objects are
//! walked key by key; arrays in list mode are aligned by a longest common
//! subsequence of their element hashes and differences are emitted as
//! hunks with before and after context; anything else is a replacement.
use crate::dtypes::{Diff, DiffElement, ElemV};
use crate::eq::{eq_nodes, node_eq_opts};
use crate::hashnode::hash_node;
use crate::node::{
    clone_node, node_wf, obj_lookup, view_entries, view_node, view_nodes, Node, NodeV,
};
use crate::options::{ArrayMode, DiffOptions};
use crate::path::{segs_view, Path, PathSegment, SegV};
use crate::strutil::CloneString;
use vstd::prelude::*;

verus! {

/// The size of a node value: one plus the sizes of its children.
pub open spec fn node_size(v: NodeV) -> nat
    decreases v,
{
    match v {
        NodeV::Arr(items) => 1 + seq_size(items),
        NodeV::Obj(entries) => 1 + entries_size(entries),
        _ => 1,
    }
}

/// The summed sizes of a value sequence.
pub open spec fn seq_size(items: Seq<NodeV>) -> nat
    decreases items,
{
    if items.len() == 0 {
        0
    } else {
        proof {
            broadcast use vstd::seq::axiom_seq_subrange_decreases;

            assert(decreases_to!(items => items.subrange(0, items.len() - 1)));
        }
        seq_size(items.subrange(0, items.len() - 1)) + node_size(items.last())
    }
}

/// The summed sizes of an entry sequence's values.
pub open spec fn entries_size(entries: Seq<(Seq<char>, NodeV)>) -> nat
    decreases entries,
{
    if entries.len() == 0 {
        0
    } else {
        proof {
            broadcast use vstd::seq::axiom_seq_subrange_decreases;

            assert(decreases_to!(entries => entries.subrange(0, entries.len() - 1)));
            assert(decreases_to!(entries => entries.last()));
        }
        entries_size(entries.subrange(0, entries.len() - 1)) + node_size(entries.last().1)
    }
}

/// Every element's size is at least one.
pub proof fn lemma_node_size_pos(v: NodeV)
    ensures
        node_size(v) >= 1,
{
}

/// An element of a sequence weighs no more than the sequence.
pub proof fn lemma_seq_size_index(items: Seq<NodeV>, i: int)
    requires
        0 <= i < items.len(),
    ensures
        node_size(items[i]) <= seq_size(items),
    decreases items.len(),
{
    if items.len() > 0 {
        if i == items.len() - 1 {
            assert(seq_size(items) >= node_size(items.last()));
        } else {
            lemma_seq_size_index(items.subrange(0, items.len() - 1), i);
            assert(items.subrange(0, items.len() - 1)[i] == items[i]);
        }
    }
}

/// An entry's value weighs no more than the entry sequence.
pub proof fn lemma_entries_size_index(entries: Seq<(Seq<char>, NodeV)>, i: int)
    requires
        0 <= i < entries.len(),
    ensures
        node_size(entries[i].1) <= entries_size(entries),
    decreases entries.len(),
{
    if entries.len() > 0 {
        if i == entries.len() - 1 {
        } else {
            lemma_entries_size_index(entries.subrange(0, entries.len() - 1), i);
            assert(entries.subrange(0, entries.len() - 1)[i] == entries[i]);
        }
    }
}

/// A strictly shorter suffix weighs strictly less.
pub proof fn lemma_seq_size_skip(items: Seq<NodeV>, lo: int, hi: int)
    requires
        0 <= lo < hi <= items.len(),
    ensures
        seq_size(items.skip(hi)) < seq_size(items.skip(lo)),
    decreases hi - lo,
{
    if lo + 1 == hi {
        lemma_seq_size_drop_first(items.skip(lo));
        assert(items.skip(lo).drop_first() =~= items.skip(lo + 1));
        lemma_node_size_pos(items.skip(lo)[0]);
    } else {
        lemma_seq_size_skip(items, lo, hi - 1);
        lemma_seq_size_skip(items, hi - 1, hi);
    }
}

/// Splitting off the first element splits its size.
pub proof fn lemma_seq_size_drop_first(items: Seq<NodeV>)
    requires
        items.len() > 0,
    ensures
        seq_size(items) == node_size(items[0]) + seq_size(items.drop_first()),
    decreases items.len(),
{
    if items.len() == 1 {
        assert(items.subrange(0, 0) =~= Seq::<NodeV>::empty());
        assert(items.drop_first() =~= Seq::<NodeV>::empty());
        assert(items.last() == items[0]);
    } else {
        let front = items.subrange(0, items.len() - 1);
        lemma_seq_size_drop_first(front);
        assert(front[0] == items[0]);
        assert(front.drop_first() =~= items.drop_first().subrange(
            0,
            items.drop_first().len() - 1,
        ));
        assert(items.drop_first().last() == items.last());
    }
}

/// A sequence weighs at least its length.
pub proof fn lemma_seq_size_len(items: Seq<NodeV>)
    ensures
        seq_size(items) >= items.len(),
    decreases items.len(),
{
    if items.len() > 0 {
        lemma_seq_size_len(items.subrange(0, items.len() - 1));
        lemma_node_size_pos(items.last());
    }
}

/// The node contains no array anywhere.
pub open spec fn no_arrays(v: NodeV) -> bool
    decreases v,
{
    match v {
        NodeV::Arr(_) => false,
        NodeV::Obj(entries) => forall|i: int|
            0 <= i < entries.len() ==> no_arrays(#[trigger] entries[i].1),
        _ => true,
    }
}

/// The replacement hunk for two non-container values: the removal carries
/// the old value unless it is `Void`, the addition the new one likewise.
pub open spec fn prim_elem(l: NodeV, r: NodeV, path: Seq<SegV>) -> ElemV {
    ElemV {
        metadata: None,
        path: path,
        before: Seq::empty(),
        remove: if l is Void {
            Seq::empty()
        } else {
            seq![l]
        },
        add: if r is Void {
            Seq::empty()
        } else {
            seq![r]
        },
        after: Seq::empty(),
    }
}

/// The view is the `Void` sentinel exactly when the node is.
pub proof fn lemma_view_void(n: &Node)
    ensures
        (n@ is Void) == (*n is Void),
{
    match n {
        Node::Void => {
        },
        Node::Null => {
        },
        Node::Bool(_) => {
        },
        Node::Number(_) => {
        },
        Node::String(_) => {
        },
        Node::Array(_) => {
        },
        Node::Object(_) => {
        },
    }
}

/// The cursor sits on the next common element: in range on both sides and
/// the hashes agree.
pub open spec fn hash_match(hs: Seq<u64>, i: int, cs: Seq<u64>, c: int) -> bool {
    0 <= i < hs.len() && 0 <= c < cs.len() && hs[i] == cs[c]
}

/// The after context a closing hunk carries: the element its alignment
/// points back at, or `Void` off the end.
pub open spec fn walk_after(xs: Seq<NodeV>, a: int, c: int) -> Seq<NodeV> {
    let idx = if a >= c {
        a - c
    } else {
        0
    };
    if idx >= xs.len() {
        seq![NodeV::Void]
    } else {
        seq![xs[idx]]
    }
}

/// Closes the open hunk buffer: nothing if it gathered no change, else one
/// hunk at the buffer's position with its before and after context.
pub open spec fn walk_close(
    brem: Seq<NodeV>,
    badd: Seq<NodeV>,
    stem: Seq<SegV>,
    pidx0: int,
    prev: NodeV,
    after: Seq<NodeV>,
) -> Seq<ElemV> {
    if brem.len() == 0 && badd.len() == 0 {
        Seq::empty()
    } else {
        seq![
            ElemV {
                metadata: None,
                path: stem.push(SegV::Index(pidx0 as i64)),
                before: seq![prev],
                remove: brem,
                add: badd,
                after: after,
            },
        ]
    }
}

/// Both values are containers of the same kind.
pub open spec fn same_kind(l: NodeV, r: NodeV) -> bool {
    (l is Obj && r is Obj) || (l is Arr && r is Arr)
}

/// The hunks contributed by keys of the left object: keys present on both
/// sides recurse, keys only on the left become removals, in ascending key
/// order.
pub open spec fn obj_diff_left(
    x: Seq<(Seq<char>, NodeV)>,
    y: Seq<(Seq<char>, NodeV)>,
    path: Seq<SegV>,
    opts: crate::options::OptionsV,
) -> Seq<ElemV>
    decreases 2 + entries_size(x) + entries_size(y), 1int, 0int,
{
    if x.len() == 0 {
        Seq::empty()
    } else {
        proof {
            crate::mergegen::lemma_entries_drop_first(x);
            lemma_node_size_pos(x[0].1);
        }
        let head = match obj_lookup(y, x[0].0) {
            Some(v) => {
                proof {
                    lemma_obj_lookup_size(y, x[0].0);
                }
                diff_spec(x[0].1, v, path.push(SegV::Key(x[0].0)), opts)
            },
            None => seq![
                ElemV {
                    metadata: None,
                    path: path.push(SegV::Key(x[0].0)),
                    before: Seq::empty(),
                    remove: seq![x[0].1],
                    add: Seq::empty(),
                    after: Seq::empty(),
                },
            ],
        };
        head + obj_diff_left(x.drop_first(), y, path, opts)
    }
}

/// The hunks contributed by keys only the right object has: additions, in
/// ascending key order.
pub open spec fn obj_diff_right(
    x: Seq<(Seq<char>, NodeV)>,
    y: Seq<(Seq<char>, NodeV)>,
    path: Seq<SegV>,
    opts: crate::options::OptionsV,
) -> Seq<ElemV>
    decreases 2 + entries_size(x) + entries_size(y), 1int, 1int,
{
    if y.len() == 0 {
        Seq::empty()
    } else {
        proof {
            crate::mergegen::lemma_entries_drop_first(y);
            lemma_node_size_pos(y[0].1);
        }
        let head: Seq<ElemV> = match obj_lookup(x, y[0].0) {
            Some(_) => Seq::empty(),
            None => seq![
                ElemV {
                    metadata: None,
                    path: path.push(SegV::Key(y[0].0)),
                    before: Seq::empty(),
                    remove: Seq::empty(),
                    add: seq![y[0].1],
                    after: Seq::empty(),
                },
            ],
        };
        head + obj_diff_right(x, y.drop_first(), path, opts)
    }
}

/// A value looked up in an object weighs no more than its entries.
pub proof fn lemma_obj_lookup_size(entries: Seq<(Seq<char>, NodeV)>, key: Seq<char>)
    requires
        obj_lookup(entries, key) is Some,
    ensures
        node_size(obj_lookup(entries, key)->Some_0) <= entries_size(entries),
    decreases entries.len(),
{
    if entries.len() > 0 {
        crate::mergegen::lemma_entries_drop_first(entries);
        if entries[0].0 == key {
        } else {
            lemma_obj_lookup_size(entries.drop_first(), key);
        }
    }
}

/// The greedy walk over two aligned array suffixes `xs` and `ys` with hash
/// suffixes `xhs`/`yhs` and common-subsequence suffix `cs`. The cursors
/// `a`, `b`, `c` and the path cursor `pcur` advance through the suffixes;
/// the open hunk buffer gathers `brem`/`badd` and sits at index `pidx0`
/// with `prev` as its before context. A common step closes the buffer and
/// restarts on the remainders; a pair of same-kind containers recurses
/// into them instead of buffering; exhaustion drains the longer side.
pub open spec fn list_walk(
    xs: Seq<NodeV>,
    ys: Seq<NodeV>,
    xhs: Seq<u64>,
    yhs: Seq<u64>,
    cs: Seq<u64>,
    a: int,
    b: int,
    c: int,
    pcur: int,
    pidx0: int,
    prev: NodeV,
    brem: Seq<NodeV>,
    badd: Seq<NodeV>,
    stem: Seq<SegV>,
    opts: crate::options::OptionsV,
) -> Seq<ElemV>
    decreases
        2 + seq_size(xs) + seq_size(ys),
        0int,
        xs.len() - a + ys.len() - b,
        when 0 <= a <= xs.len() && 0 <= b <= ys.len() && 0 <= c <= cs.len()
{
    if a >= xs.len() {
        if b < ys.len() {
            // The left side is exhausted: the rest of the right side joins
            // the buffer as additions.
            list_walk(
                xs,
                ys,
                xhs,
                yhs,
                cs,
                a,
                b + 1,
                c,
                pcur + 2,
                pidx0,
                prev,
                brem,
                badd.push(ys[b]),
                stem,
                opts,
            )
        } else {
            walk_close(brem, badd, stem, pidx0, prev, walk_after(xs, a, c))
        }
    } else if b >= ys.len() {
        // The right side is exhausted: the rest of the left side joins the
        // buffer as removals.
        list_walk(
            xs,
            ys,
            xhs,
            yhs,
            cs,
            a + 1,
            b,
            c,
            pcur,
            pidx0,
            prev,
            brem.push(xs[a]),
            badd,
            stem,
            opts,
        )
    } else {
        let lat = hash_match(xhs, a, cs, c);
        let rat = hash_match(yhs, b, cs, c);
        if lat && rat {
            // A common step: close the buffer and restart beyond it.
            proof {
                lemma_walk_suffix_smaller(xs, ys, a + 1, b + 1);
            }
            let closed = walk_close(brem, badd, stem, pidx0, prev, walk_after(xs, a + 1, c + 1));
            if a + 1 >= xs.len() && b + 1 >= ys.len() {
                closed
            } else {
                closed + list_walk(
                    xs.skip(a + 1),
                    ys.skip(b + 1),
                    xhs.skip(a + 1),
                    yhs.skip(b + 1),
                    cs.skip(c + 1),
                    0,
                    0,
                    0,
                    pcur + 1,
                    pcur + 1,
                    ys[b],
                    Seq::empty(),
                    Seq::empty(),
                    stem,
                    opts,
                )
            }
        } else if lat {
            // Only the left cursor is aligned: the right element joins the
            // buffer as an addition.
            list_walk(
                xs,
                ys,
                xhs,
                yhs,
                cs,
                a,
                b + 1,
                c,
                pcur + 1,
                pidx0,
                prev,
                brem,
                badd.push(ys[b]),
                stem,
                opts,
            )
        } else if rat {
            // Only the right cursor is aligned: the left element joins the
            // buffer as a removal.
            list_walk(
                xs,
                ys,
                xhs,
                yhs,
                cs,
                a + 1,
                b,
                c,
                pcur,
                pidx0,
                prev,
                brem.push(xs[a]),
                badd,
                stem,
                opts,
            )
        } else if same_kind(xs[a], ys[b]) {
            // Same-kind containers off the alignment: recurse into them,
            // closing (or dropping) the buffer, then restart beyond them.
            proof {
                lemma_seq_size_index_pair(xs, ys, a, b);
                lemma_walk_suffix_smaller(xs, ys, a + 1, b + 1);
            }
            let sub = diff_spec(xs[a], ys[b], stem.push(SegV::Index(pcur as i64)), opts);
            let head = if brem.len() > 0 || badd.len() > 0 {
                let aft = if sub.len() == 0 {
                    walk_after(xs, a + 1, c)
                } else {
                    walk_after(xs, a, c)
                };
                walk_close(brem, badd, stem, pidx0, prev, aft) + sub
            } else {
                sub
            };
            if a + 1 >= xs.len() && b + 1 >= ys.len() {
                head
            } else {
                head + list_walk(
                    xs.skip(a + 1),
                    ys.skip(b + 1),
                    xhs.skip(a + 1),
                    yhs.skip(b + 1),
                    cs.skip(c),
                    0,
                    0,
                    0,
                    pcur + 1,
                    pcur + 1,
                    ys[b],
                    Seq::empty(),
                    Seq::empty(),
                    stem,
                    opts,
                )
            }
        } else {
            // A plain replacement pair joins the buffer.
            list_walk(
                xs,
                ys,
                xhs,
                yhs,
                cs,
                a + 1,
                b + 1,
                c,
                pcur + 1,
                pidx0,
                prev,
                brem.push(xs[a]),
                badd.push(ys[b]),
                stem,
                opts,
            )
        }
    }
}

/// A nonempty-prefix skip weighs strictly less than the whole.
pub proof fn lemma_walk_suffix_smaller(xs: Seq<NodeV>, ys: Seq<NodeV>, na: int, nb: int)
    requires
        1 <= na <= xs.len(),
        1 <= nb <= ys.len(),
    ensures
        seq_size(xs.skip(na)) < seq_size(xs),
        seq_size(ys.skip(nb)) < seq_size(ys),
{
    assert(xs.skip(0) =~= xs);
    assert(ys.skip(0) =~= ys);
    lemma_seq_size_skip(xs, 0, na);
    lemma_seq_size_skip(ys, 0, nb);
}

/// A pair of elements weighs no more than their sequences.
pub proof fn lemma_seq_size_index_pair(xs: Seq<NodeV>, ys: Seq<NodeV>, a: int, b: int)
    requires
        0 <= a < xs.len(),
        0 <= b < ys.len(),
    ensures
        node_size(xs[a]) + node_size(ys[b]) <= seq_size(xs) + seq_size(ys),
{
    lemma_seq_size_index(xs, a);
    lemma_seq_size_index(ys, b);
}

/// The diff of two node values: nothing for equal values; the ascending
/// key walk for two objects; the hash-aligned greedy list walk for two
/// arrays in list mode; a single replacement hunk otherwise.
pub open spec fn diff_spec(
    l: NodeV,
    r: NodeV,
    path: Seq<SegV>,
    opts: crate::options::OptionsV,
) -> Seq<ElemV>
    decreases node_size(l) + node_size(r), 2int, 0int,
{
    if node_eq_opts(l, r, opts) {
        Seq::empty()
    } else {
        match (l, r) {
            (NodeV::Obj(x), NodeV::Obj(y)) => {
                proof {
                    assert(decreases_to!(
                        node_size(l) + node_size(r), 2int, 0int =>
                        2 + entries_size(l->Obj_0) + entries_size(r->Obj_0), 1int, 0int));
                }
                obj_diff_left(x, y, path, opts) + obj_diff_right(x, y, path, opts)
            },
            (NodeV::Arr(x), NodeV::Arr(y)) => {
                if opts.array_mode is List {
                    let xh = crate::hashnode::child_hashes(x, opts.array_mode);
                    let yh = crate::hashnode::child_hashes(y, opts.array_mode);
                    list_walk(
                        x,
                        y,
                        xh,
                        yh,
                        lcs_hashes(xh, yh),
                        0,
                        0,
                        0,
                        0,
                        0,
                        NodeV::Void,
                        Seq::empty(),
                        Seq::empty(),
                        path,
                        opts,
                    )
                } else {
                    Seq::empty()
                }
            },
            _ => seq![prim_elem(l, r, path)],
        }
    }
}

/// The preconditions the engine needs: well-formed inputs, a valid
/// tolerance, list mode unless the inputs are array-free, and sizes small
/// enough that emitted indices fit the index type.
pub open spec fn diff_pre(l: NodeV, r: NodeV, opts: crate::options::OptionsV) -> bool {
    &&& node_wf(l)
    &&& node_wf(r)
    &&& crate::number::finite_bits(opts.precision)
    &&& !crate::number::f64_is_neg(opts.precision)
    &&& (opts.array_mode is List || (no_arrays(l) && no_arrays(r)))
    &&& node_size(l) + node_size(r) <= 0x1000000000000000
}

/// The view is of the same kind as the node.
pub proof fn lemma_view_kinds(n: &Node)
    ensures
        (n@ is Obj) == (*n is Object),
        (n@ is Arr) == (*n is Array),
        (n@ is Void) == (*n is Void),
{
    match n {
        Node::Void => {
        },
        Node::Null => {
        },
        Node::Bool(_) => {
        },
        Node::Number(_) => {
        },
        Node::String(_) => {
        },
        Node::Array(_) => {
        },
        Node::Object(_) => {
        },
    }
}

impl Node {
    /// Computes the structural diff between two nodes: exactly the hunk
    /// sequence `diff_spec` describes — empty for equal nodes, the
    /// ascending key walk for objects, the hash-aligned list walk with
    /// before/after context for arrays in list mode, and a single
    /// replacement hunk otherwise.
    pub fn diff(&self, other: &Self, options: &DiffOptions) -> (r: Diff)
        requires
            diff_pre(self@, other@, options@),
        ensures
            r@ == diff_spec(self@, other@, Seq::<SegV>::empty(), options@),
            node_eq_opts(self@, other@, options@) ==> r@.len() == 0,
    {
        diff_nodes(self, other, options)
    }
}

/// Computes the structural diff between two nodes.
pub fn diff_nodes(lhs: &Node, rhs: &Node, options: &DiffOptions) -> (r: Diff)
    requires
        diff_pre(lhs@, rhs@, options@),
    ensures
        r@ == diff_spec(lhs@, rhs@, Seq::<SegV>::empty(), options@),
        node_eq_opts(lhs@, rhs@, options@) ==> r@.len() == 0,
{
    broadcast use crate::dtypes::lemma_view_elems;

    let root = Path::new();
    let elems = diff_impl(lhs, rhs, &root, options);
    Diff::from_elements(elems)
}

/// The engine's dispatch: equality, objects, arrays, or a replacement.
#[verifier::loop_isolation(false)]
pub(crate) fn diff_impl(lhs: &Node, rhs: &Node, path: &Path, options: &DiffOptions) -> (r: Vec<
    DiffElement,
>)
    requires
        diff_pre(lhs@, rhs@, options@),
    ensures
        crate::dtypes::view_elems(r@) == diff_spec(lhs@, rhs@, path@, options@),
    decreases node_size(lhs@) + node_size(rhs@), 2int,
{
    broadcast use crate::dtypes::lemma_view_elems, crate::node::lemma_view_nodes;

    if eq_nodes(lhs, rhs, options) {
        let r: Vec<DiffElement> = Vec::new();
        proof {
            assert(crate::dtypes::view_elems(r@) =~= Seq::<ElemV>::empty());
        }
        return r;
    }
    match (lhs, rhs) {
        (Node::Object(a), Node::Object(b)) => {
            proof {
                assert(decreases_to!(node_size(lhs@) + node_size(rhs@), 2int => node_size(lhs@)
                    + node_size(rhs@), 1int));
            }
            diff_objects(a, b, lhs, rhs, path, options)
        },
        (Node::Array(a), Node::Array(b)) => {
            match options.array_mode() {
                ArrayMode::List => diff_lists(a, b, lhs, rhs, path, options),
                _ => {
                    // Unreachable: the precondition demands list mode as
                    // soon as an array appears.
                    proof {
                        assert(!no_arrays(lhs@));
                    }
                    let r: Vec<DiffElement> = Vec::new();
                    proof {
                        assert(crate::dtypes::view_elems(r@) =~= Seq::<ElemV>::empty());
                    }
                    r
                },
            }
        },
        _ => {
            let mut element = DiffElement::new().with_path(path.clone());
            let lhs_void = matches!(lhs, Node::Void);
            let rhs_void = matches!(rhs, Node::Void);
            if !lhs_void {
                element.remove.push(clone_node(lhs));
            }
            if !rhs_void {
                element.add.push(clone_node(rhs));
            }
            proof {
                lemma_view_void(lhs);
                lemma_view_void(rhs);
                lemma_view_kinds(lhs);
                lemma_view_kinds(rhs);
                if lhs_void && rhs_void {
                    assert(node_eq_opts(lhs@, rhs@, options@));
                }
                assert(view_nodes(element.remove@) =~= prim_elem(lhs@, rhs@, path@).remove);
                assert(view_nodes(element.add@) =~= prim_elem(lhs@, rhs@, path@).add);
                assert(element@ =~= prim_elem(lhs@, rhs@, path@));
            }
            let mut r: Vec<DiffElement> = Vec::new();
            r.push(element);
            proof {
                assert(crate::dtypes::view_elems(r@) =~= seq![prim_elem(lhs@, rhs@, path@)]);
            }
            r
        },
    }
}

/// Walks two objects' keys in ascending order: keys in both recurse, keys
/// only on the left become removals, keys only on the right additions.
#[verifier::loop_isolation(false)]
#[verifier::rlimit(100)]
fn diff_objects(
    a: &Vec<(String, Node)>,
    b: &Vec<(String, Node)>,
    lhs: &Node,
    rhs: &Node,
    path: &Path,
    options: &DiffOptions,
) -> (r: Vec<DiffElement>)
    requires
        lhs@ == NodeV::Obj(view_entries(a@)),
        rhs@ == NodeV::Obj(view_entries(b@)),
        diff_pre(lhs@, rhs@, options@),
    ensures
        crate::dtypes::view_elems(r@) == obj_diff_left(
            view_entries(a@),
            view_entries(b@),
            path@,
            options@,
        ) + obj_diff_right(view_entries(a@), view_entries(b@), path@, options@),
    decreases node_size(lhs@) + node_size(rhs@), 1int,
{
    broadcast use
        crate::dtypes::lemma_view_elems,
        crate::node::lemma_view_entries,
        crate::node::lemma_view_nodes;

    let ghost av = view_entries(a@);
    let ghost bv = view_entries(b@);
    let ghost pv = path@;
    let ghost o = options@;
    let mut elements: Vec<DiffElement> = Vec::new();
    let mut i: usize = 0;
    proof {
        assert(av.skip(0) =~= av);
        assert(crate::dtypes::view_elems(elements@) =~= Seq::<ElemV>::empty());
    }
    while i < a.len()
        invariant
            i <= a@.len(),
            obj_diff_left(av, bv, pv, o) =~= crate::dtypes::view_elems(elements@)
                + obj_diff_left(av.skip(i as int), bv, pv, o),
        decreases a@.len() - i,
    {
        let ghost xs = av.skip(i as int);
        proof {
            assert(xs[0] == av[i as int]);
            assert(av[i as int] == (a@[i as int].0@, view_node(a@[i as int].1)));
            assert(xs.drop_first() =~= av.skip(i + 1 as int));
            assert(node_wf(lhs@->Obj_0[i as int].1));
            lemma_entries_size_index(av, i as int);
            crate::mergegen::lemma_entries_drop_first(xs);
            lemma_node_size_pos(rhs@);
        }
        let key = &a[i].0;
        let value = &a[i].1;
        match crate::eq::lookup_entry(b, key) {
            Some(idx) => {
                proof {
                    assert(bv[idx as int] == (b@[idx as int].0@, view_node(b@[idx as int].1)));
                    assert(node_wf(rhs@->Obj_0[idx as int].1));
                    lemma_entries_size_index(bv, idx as int);
                    lemma_node_size_pos(lhs@);
                    if !(o.array_mode is List) {
                        assert(no_arrays(lhs@->Obj_0[i as int].1));
                        assert(no_arrays(rhs@->Obj_0[idx as int].1));
                    }
                }
                let sub_path = path.clone().with_segment(PathSegment::Key(key.clone_string()));
                let mut sub = diff_impl(value, &b[idx].1, &sub_path, options);
                let ghost pre = elements@;
                let ghost subv = sub@;
                elements.append(&mut sub);
                proof {
                    assert(elements@ =~= pre + subv);
                    lemma_view_elems_concat(pre, subv);
                    assert(obj_lookup(bv, xs[0].0) == Some(bv[idx as int].1));
                    assert(crate::dtypes::view_elems(subv) == diff_spec(
                        xs[0].1,
                        bv[idx as int].1,
                        pv.push(SegV::Key(xs[0].0)),
                        o,
                    ));
                    assert(obj_diff_left(av, bv, pv, o) =~= crate::dtypes::view_elems(elements@)
                        + obj_diff_left(av.skip(i + 1 as int), bv, pv, o));
                }
            },
            None => {
                let mut remove: Vec<Node> = Vec::new();
                remove.push(clone_node(value));
                proof {
                    assert(view_nodes(remove@) =~= seq![xs[0].1]);
                }
                let new_path = path.clone().with_segment(PathSegment::Key(key.clone_string()));
                proof {
                    assert(new_path@ == pv.push(SegV::Key(xs[0].0)));
                }
                let element = DiffElement::new().with_path(new_path).with_remove(remove);
                let ghost pre = elements@;
                elements.push(element);
                proof {
                    assert(crate::dtypes::view_elems(elements@) =~= crate::dtypes::view_elems(
                        pre,
                    ).push(element@));
                    assert(obj_lookup(bv, xs[0].0) is None);
                    assert(element@ =~= ElemV {
                        metadata: None,
                        path: pv.push(SegV::Key(xs[0].0)),
                        before: Seq::empty(),
                        remove: seq![xs[0].1],
                        add: Seq::empty(),
                        after: Seq::empty(),
                    });
                    assert(obj_diff_left(av, bv, pv, o) =~= crate::dtypes::view_elems(elements@)
                        + obj_diff_left(av.skip(i + 1 as int), bv, pv, o));
                }
            },
        }
        i = i + 1;
    }
    let ghost left_done = crate::dtypes::view_elems(elements@);
    proof {
        assert(av.skip(a@.len() as int).len() == 0);
        assert(obj_diff_left(av.skip(a@.len() as int), bv, pv, o) =~= Seq::<ElemV>::empty());
        assert(left_done =~= obj_diff_left(av, bv, pv, o));
        assert(bv.skip(0) =~= bv);
    }
    let mut j: usize = 0;
    while j < b.len()
        invariant
            j <= b@.len(),
            obj_diff_left(av, bv, pv, o) + obj_diff_right(av, bv, pv, o)
                =~= crate::dtypes::view_elems(elements@) + obj_diff_right(
                av,
                bv.skip(j as int),
                pv,
                o,
            ),
        decreases b@.len() - j,
    {
        let ghost ys = bv.skip(j as int);
        proof {
            assert(ys[0] == bv[j as int]);
            assert(bv[j as int] == (b@[j as int].0@, view_node(b@[j as int].1)));
            assert(ys.drop_first() =~= bv.skip(j + 1 as int));
            crate::mergegen::lemma_entries_drop_first(ys);
            lemma_node_size_pos(ys[0].1);
        }
        let key = &b[j].0;
        match crate::eq::lookup_entry(a, key) {
            Some(_) => {
                proof {
                    assert(obj_lookup(av, ys[0].0) is Some);
                    assert(obj_diff_left(av, bv, pv, o) + obj_diff_right(av, bv, pv, o)
                        =~= crate::dtypes::view_elems(elements@) + obj_diff_right(
                        av,
                        bv.skip(j + 1 as int),
                        pv,
                        o,
                    ));
                }
            },
            None => {
                let mut add: Vec<Node> = Vec::new();
                add.push(clone_node(&b[j].1));
                proof {
                    assert(view_nodes(add@) =~= seq![ys[0].1]);
                }
                let new_path = path.clone().with_segment(PathSegment::Key(key.clone_string()));
                proof {
                    assert(new_path@ == pv.push(SegV::Key(ys[0].0)));
                }
                let element = DiffElement::new().with_path(new_path).with_add(add);
                let ghost pre = elements@;
                elements.push(element);
                proof {
                    assert(crate::dtypes::view_elems(elements@) =~= crate::dtypes::view_elems(
                        pre,
                    ).push(element@));
                    assert(obj_lookup(av, ys[0].0) is None);
                    assert(element@ =~= ElemV {
                        metadata: None,
                        path: pv.push(SegV::Key(ys[0].0)),
                        before: Seq::empty(),
                        remove: Seq::empty(),
                        add: seq![ys[0].1],
                        after: Seq::empty(),
                    });
                    assert(obj_diff_left(av, bv, pv, o) + obj_diff_right(av, bv, pv, o)
                        =~= crate::dtypes::view_elems(elements@) + obj_diff_right(
                        av,
                        bv.skip(j + 1 as int),
                        pv,
                        o,
                    ));
                }
            },
        }
        j = j + 1;
    }
    proof {
        assert(bv.skip(b@.len() as int).len() == 0);
        assert(obj_diff_right(av, bv.skip(b@.len() as int), pv, o) =~= Seq::<ElemV>::empty());
        assert(crate::dtypes::view_elems(elements@) =~= obj_diff_left(av, bv, pv, o)
            + obj_diff_right(av, bv, pv, o));
    }
    elements
}

/// Concatenation views concatenate.
proof fn lemma_view_elems_concat(a: Seq<DiffElement>, b: Seq<DiffElement>)
    ensures
        crate::dtypes::view_elems(a + b) =~= crate::dtypes::view_elems(a)
            + crate::dtypes::view_elems(b),
{
    broadcast use crate::dtypes::lemma_view_elems;

    assert(crate::dtypes::view_elems(a + b) =~= crate::dtypes::view_elems(a)
        + crate::dtypes::view_elems(b));
}

/// The longest common subsequence of two hash sequences, with the
/// alignment's tie-breaking.
pub open spec fn lcs_hashes(a: Seq<u64>, b: Seq<u64>) -> Seq<u64>
    decreases a.len() + b.len(),
{
    if a.len() == 0 || b.len() == 0 {
        Seq::empty()
    } else if a.last() == b.last() {
        lcs_hashes(a.drop_last(), b.drop_last()).push(a.last())
    } else if lcs_hashes(a.drop_last(), b).len() >= lcs_hashes(a, b.drop_last()).len() {
        lcs_hashes(a.drop_last(), b)
    } else {
        lcs_hashes(a, b.drop_last())
    }
}

/// The common subsequence is no longer than either input.
pub proof fn lemma_lcs_hashes_bound(a: Seq<u64>, b: Seq<u64>)
    ensures
        lcs_hashes(a, b).len() <= a.len(),
        lcs_hashes(a, b).len() <= b.len(),
    decreases a.len() + b.len(),
{
    if a.len() == 0 || b.len() == 0 {
    } else {
        lemma_lcs_hashes_bound(a.drop_last(), b.drop_last());
        lemma_lcs_hashes_bound(a.drop_last(), b);
        lemma_lcs_hashes_bound(a, b.drop_last());
    }
}

/// Computes the longest common subsequence of two hash sequences by
/// dynamic programming, matching `lcs_hashes` exactly.
#[verifier::loop_isolation(false)]
fn lcs_u64(av: &Vec<u64>, bv: &Vec<u64>) -> (r: Vec<u64>)
    ensures
        r@ == lcs_hashes(av@, bv@),
{
    let n = av.len();
    let m = bv.len();
    let mut table: Vec<Vec<usize>> = Vec::new();
    let mut i: u128 = 0;
    while i <= n as u128
        invariant
            i <= (n as u128) + 1,
            n == av@.len(),
            m == bv@.len(),
            table@.len() == i,
            forall|x: int|
                0 <= x < i ==> (#[trigger] table@[x])@.len() == m + 1,
            forall|x: int, y: int|
                0 <= x < i && 0 <= y <= m ==> (#[trigger] table@[x]@[y]) == lcs_hashes(
                    av@.take(x),
                    bv@.take(y),
                ).len(),
        decreases (n as u128) + 1 - i,
    {
        let iu = i as usize;
        let mut row: Vec<usize> = Vec::new();
        let mut j: u128 = 0;
        while j <= m as u128
            invariant
                j <= (m as u128) + 1,
                iu == i,
                i <= n,
                n == av@.len(),
                m == bv@.len(),
                table@.len() == i,
                forall|x: int|
                    0 <= x < i ==> (#[trigger] table@[x])@.len() == m + 1,
                forall|x: int, y: int|
                    0 <= x < i && 0 <= y <= m ==> (#[trigger] table@[x]@[y]) == lcs_hashes(
                        av@.take(x),
                        bv@.take(y),
                    ).len(),
                row@.len() == j,
                forall|y: int|
                    0 <= y < j ==> (#[trigger] row@[y]) == lcs_hashes(
                        av@.take(i as int),
                        bv@.take(y),
                    ).len(),
            decreases (m as u128) + 1 - j,
        {
            let ju = j as usize;
            if iu == 0 || ju == 0 {
                row.push(0);
                proof {
                    assert(lcs_hashes(av@.take(i as int), bv@.take(j as int)).len() == 0);
                }
            } else {
                proof {
                    assert(av@.take(i as int).last() == av@[i - 1]);
                    assert(bv@.take(j as int).last() == bv@[j - 1]);
                    assert(av@.take(i as int).drop_last() =~= av@.take(i - 1));
                    assert(bv@.take(j as int).drop_last() =~= bv@.take(j - 1));
                    lemma_lcs_hashes_bound(av@.take(i as int), bv@.take(j as int));
                    lemma_lcs_hashes_bound(av@.take(i - 1), bv@.take(j - 1));
                }
                if av[iu - 1] == bv[ju - 1] {
                    let diag = table[iu - 1][ju - 1];
                    row.push(diag + 1);
                } else {
                    let up = table[iu - 1][ju];
                    let left = row[ju - 1];
                    if up >= left {
                        row.push(up);
                    } else {
                        row.push(left);
                    }
                }
            }
            j = j + 1;
        }
        table.push(row);
        i = i + 1;
    }
    let mut rev: Vec<u64> = Vec::new();
    let mut x: usize = n;
    let mut y: usize = m;
    proof {
        assert(av@.take(n as int) =~= av@);
        assert(bv@.take(m as int) =~= bv@);
        assert(rev@.reverse() =~= Seq::<u64>::empty());
    }
    while x > 0 && y > 0
        invariant
            x <= n,
            y <= m,
            n == av@.len(),
            m == bv@.len(),
            table@.len() == n + 1,
            forall|p: int|
                0 <= p <= n ==> (#[trigger] table@[p])@.len() == m + 1,
            forall|p: int, q: int|
                0 <= p <= n && 0 <= q <= m ==> (#[trigger] table@[p]@[q]) == lcs_hashes(
                    av@.take(p),
                    bv@.take(q),
                ).len(),
            lcs_hashes(av@, bv@) == lcs_hashes(av@.take(x as int), bv@.take(y as int))
                + rev@.reverse(),
        decreases x + y,
    {
        proof {
            assert(av@.take(x as int).last() == av@[x - 1]);
            assert(bv@.take(y as int).last() == bv@[y - 1]);
            assert(av@.take(x as int).drop_last() =~= av@.take(x - 1));
            assert(bv@.take(y as int).drop_last() =~= bv@.take(y - 1));
        }
        if av[x - 1] == bv[y - 1] {
            let ghost pre = rev@;
            rev.push(av[x - 1]);
            proof {
                assert(rev@.reverse() =~= seq![av@[x - 1]] + pre.reverse());
                assert(lcs_hashes(av@.take(x as int), bv@.take(y as int)) == lcs_hashes(
                    av@.take(x - 1),
                    bv@.take(y - 1),
                ).push(av@[x - 1]));
                assert(lcs_hashes(av@.take(x - 1), bv@.take(y - 1)).push(av@[x - 1])
                    + pre.reverse() =~= lcs_hashes(av@.take(x - 1), bv@.take(y - 1)) + (seq![
                    av@[x - 1],
                ] + pre.reverse()));
            }
            x = x - 1;
            y = y - 1;
        } else {
            let up = table[x - 1][y];
            let left = table[x][y - 1];
            if up >= left {
                proof {
                    assert(lcs_hashes(av@.take(x as int), bv@.take(y as int)) == lcs_hashes(
                        av@.take(x - 1),
                        bv@.take(y as int),
                    ));
                }
                x = x - 1;
            } else {
                proof {
                    assert(lcs_hashes(av@.take(x as int), bv@.take(y as int)) == lcs_hashes(
                        av@.take(x as int),
                        bv@.take(y - 1),
                    ));
                }
                y = y - 1;
            }
        }
    }
    proof {
        assert(lcs_hashes(av@.take(x as int), bv@.take(y as int)).len() == 0);
        assert(lcs_hashes(av@, bv@) =~= rev@.reverse());
    }
    let mut out: Vec<u64> = Vec::new();
    let mut k: usize = rev.len();
    while k > 0
        invariant
            k <= rev@.len(),
            out@ =~= rev@.reverse().take(rev@.len() - k),
        decreases k,
    {
        k = k - 1;
        out.push(rev[k]);
        proof {
            assert(rev@.reverse()[rev@.len() - 1 - k] == rev@[k as int]);
            assert(out@ =~= rev@.reverse().take(rev@.len() - k));
        }
    }
    proof {
        assert(rev@.reverse().take(rev@.len() as int) =~= rev@.reverse());
    }
    out
}

/// Diffs two arrays in list mode: hashes both sides, aligns them on the
/// longest common subsequence of the hashes, and emits the walk's hunks.
#[verifier::loop_isolation(false)]
fn diff_lists(
    a: &Vec<Node>,
    b: &Vec<Node>,
    lhs: &Node,
    rhs: &Node,
    path: &Path,
    options: &DiffOptions,
) -> (r: Vec<DiffElement>)
    requires
        lhs@ == NodeV::Arr(view_nodes(a@)),
        rhs@ == NodeV::Arr(view_nodes(b@)),
        options@.array_mode is List,
        diff_pre(lhs@, rhs@, options@),
    ensures
        ({
            let xv = view_nodes(a@);
            let yv = view_nodes(b@);
            let xh = crate::hashnode::child_hashes(xv, options@.array_mode);
            let yh = crate::hashnode::child_hashes(yv, options@.array_mode);
            crate::dtypes::view_elems(r@) == list_walk(
                xv,
                yv,
                xh,
                yh,
                lcs_hashes(xh, yh),
                0,
                0,
                0,
                0,
                0,
                NodeV::Void,
                Seq::<NodeV>::empty(),
                Seq::<NodeV>::empty(),
                path@,
                options@,
            )
        }),
    decreases node_size(lhs@) + node_size(rhs@), 1int,
{
    broadcast use crate::node::lemma_view_nodes, crate::hashnode::lemma_child_hashes;

    let ghost xv = view_nodes(a@);
    let ghost yv = view_nodes(b@);
    let lhs_hashes = crate::eq::hashes_of(a, options.array_mode());
    let rhs_hashes = crate::eq::hashes_of(b, options.array_mode());
    proof {
        assert(lhs_hashes@ =~= crate::hashnode::child_hashes(xv, options@.array_mode));
        assert(rhs_hashes@ =~= crate::hashnode::child_hashes(yv, options@.array_mode));
    }
    let common = lcs_u64(&lhs_hashes, &rhs_hashes);
    let placeholder = path.clone().with_segment(PathSegment::Index(0));
    let previous = Node::Void;
    proof {
        lemma_node_size_pos(lhs@);
        lemma_node_size_pos(rhs@);
        lemma_seq_size_len(xv);
        lemma_seq_size_len(yv);
        assert(xv.skip(0) =~= xv);
        assert(yv.skip(0) =~= yv);
        assert(lhs_hashes@.skip(0) =~= lhs_hashes@);
        assert(rhs_hashes@.skip(0) =~= rhs_hashes@);
        assert(common@.skip(0) =~= common@);
        assert(placeholder@.drop_last() =~= path@);
        assert forall|i: int| 0 <= i < a@.len() implies node_wf(view_node(#[trigger] a@[i])) by {
            assert(node_wf(lhs@->Arr_0[i]));
            assert(lhs@->Arr_0[i] == view_node(a@[i]));
        }
        assert forall|i: int| 0 <= i < b@.len() implies node_wf(view_node(#[trigger] b@[i])) by {
            assert(node_wf(rhs@->Arr_0[i]));
            assert(rhs@->Arr_0[i] == view_node(b@[i]));
        }
    }
    diff_rest(
        a,
        b,
        0,
        0,
        &lhs_hashes,
        &rhs_hashes,
        &common,
        0,
        0,
        placeholder,
        &previous,
        options,
        Ghost(node_size(lhs@) + node_size(rhs@)),
    )
}

/// Whether the cursor sits on the next common element.
fn at_common(hashes: &Vec<u64>, cursor: usize, common: &Vec<u64>, common_cursor: usize) -> (r:
    bool)
    ensures
        r == (cursor < hashes@.len() && common_cursor < common@.len() && hashes@[cursor as int]
            == common@[common_cursor as int]),
{
    if cursor >= hashes.len() || common_cursor >= common.len() {
        return false;
    }
    hashes[cursor] == common[common_cursor]
}

/// The after context for the current hunk: the element the cursor's
/// alignment points back at, or `Void` off the end.
fn after_context(
    lhs: &Vec<Node>,
    lhs_lo: usize,
    a_cursor: usize,
    common_cursor: usize,
) -> (r: Vec<Node>)
    requires
        lhs_lo <= lhs@.len(),
    ensures
        view_nodes(r@) == walk_after(
            view_nodes(lhs@).skip(lhs_lo as int),
            a_cursor as int,
            common_cursor as int,
        ),
{
    broadcast use crate::node::lemma_view_nodes;

    let ghost xs = view_nodes(lhs@).skip(lhs_lo as int);
    let index_rel = if a_cursor >= common_cursor {
        a_cursor - common_cursor
    } else {
        0
    };
    let mut out: Vec<Node> = Vec::new();
    if index_rel >= lhs.len() - lhs_lo {
        out.push(Node::Void);
        proof {
            assert(view_nodes(out@) =~= walk_after(xs, a_cursor as int, common_cursor as int));
        }
    } else {
        out.push(clone_node(&lhs[lhs_lo + index_rel]));
        proof {
            assert(xs[index_rel as int] == view_nodes(lhs@)[lhs_lo + index_rel]);
            assert(view_nodes(out@) =~= walk_after(xs, a_cursor as int, common_cursor as int));
        }
    }
    out
}

/// One path with the trailing index replaced by the cursor.
fn path_now(path: &Path, cursor: i64) -> (r: Path)
    ensures
        path@.len() > 0 ==> r@ == path@.drop_last().push(SegV::Index(cursor)),
        path@.len() == 0 ==> r@ == Seq::<SegV>::empty().push(SegV::Index(cursor)),
{
    path.drop_last().with_segment(PathSegment::Index(cursor))
}

/// Both nodes are containers of the same kind.
fn same_container_type(lhs: &Node, rhs: &Node) -> (r: bool)
    ensures
        r == ((lhs@ is Obj && rhs@ is Obj) || (lhs@ is Arr && rhs@ is Arr)),
{
    let obj = matches!(lhs, Node::Object(_)) && matches!(rhs, Node::Object(_));
    let arr = matches!(lhs, Node::Array(_)) && matches!(rhs, Node::Array(_));
    obj || arr
}

/// The assembled result after the walk's loop has stopped: the closed
/// buffer (with its after context), the elements a container recursion
/// contributed, and the walk of the remaining suffixes.
pub open spec fn walk_done(
    xs: Seq<NodeV>,
    ys: Seq<NodeV>,
    xhs: Seq<u64>,
    yhs: Seq<u64>,
    cs: Seq<u64>,
    a: int,
    b: int,
    c: int,
    pcur: int,
    pidx0: int,
    brem: Seq<NodeV>,
    badd: Seq<NodeV>,
    bbefore: Seq<NodeV>,
    bafter: Seq<NodeV>,
    tail: Seq<ElemV>,
    stem: Seq<SegV>,
    opts: crate::options::OptionsV,
) -> Seq<ElemV> {
    let close = if (brem.len() > 0 || badd.len() > 0) && bbefore.len() > 0 {
        seq![
            ElemV {
                metadata: None,
                path: stem.push(SegV::Index(pidx0 as i64)),
                before: bbefore,
                remove: brem,
                add: badd,
                after: if tail.len() == 0 {
                    walk_after(xs, a, c)
                } else {
                    bafter
                },
            },
        ]
    } else {
        Seq::empty()
    };
    let rest = if a >= xs.len() && b >= ys.len() {
        Seq::empty()
    } else {
        list_walk(
            xs.skip(a),
            ys.skip(b),
            xhs.skip(a),
            yhs.skip(b),
            cs.skip(c),
            0,
            0,
            0,
            pcur,
            pcur,
            if b == 0 {
                NodeV::Void
            } else {
                ys[b - 1]
            },
            Seq::empty(),
            Seq::empty(),
            stem,
            opts,
        )
    };
    close + tail + rest
}

/// The greedy walk over the unmatched runs of both arrays: between two
/// common steps, the run becomes one hunk with before and after context;
/// runs of nested containers recurse instead. The result is exactly the
/// hunk sequence `list_walk` describes for the two suffixes.
#[verifier::loop_isolation(false)]
#[verifier::rlimit(100)]
fn diff_rest(
    lhs: &Vec<Node>,
    rhs: &Vec<Node>,
    lhs_lo: usize,
    rhs_lo: usize,
    lhs_hashes: &Vec<u64>,
    rhs_hashes: &Vec<u64>,
    common: &Vec<u64>,
    common_lo: usize,
    path_index: i64,
    path: Path,
    previous: &Node,
    options: &DiffOptions,
    total: Ghost<nat>,
) -> (r: Vec<DiffElement>)
    requires
        lhs_lo <= lhs@.len(),
        rhs_lo <= rhs@.len(),
        common_lo <= common@.len(),
        lhs_hashes@.len() == lhs@.len(),
        rhs_hashes@.len() == rhs@.len(),
        path@.len() >= 1,
        forall|i: int| 0 <= i < lhs@.len() ==> node_wf(view_node(#[trigger] lhs@[i])),
        forall|i: int| 0 <= i < rhs@.len() ==> node_wf(view_node(#[trigger] rhs@[i])),
        options@.array_mode is List,
        crate::number::finite_bits(options@.precision),
        !crate::number::f64_is_neg(options@.precision),
        seq_size(view_nodes(lhs@).skip(lhs_lo as int)) + seq_size(
            view_nodes(rhs@).skip(rhs_lo as int),
        ) < total@,
        total@ <= 0x1000000000000000,
        path_index >= 0,
        path_index + 2 * (lhs@.len() - lhs_lo) + 2 * (rhs@.len() - rhs_lo)
            <= 0x4000000000000000,
    ensures
        crate::dtypes::view_elems(r@) == list_walk(
            view_nodes(lhs@).skip(lhs_lo as int),
            view_nodes(rhs@).skip(rhs_lo as int),
            lhs_hashes@.skip(lhs_lo as int),
            rhs_hashes@.skip(rhs_lo as int),
            common@.skip(common_lo as int),
            0,
            0,
            0,
            path_index as int,
            path_index as int,
            previous@,
            Seq::<NodeV>::empty(),
            Seq::<NodeV>::empty(),
            path@.drop_last(),
            options@,
        ),
    decreases seq_size(view_nodes(lhs@).skip(lhs_lo as int)) + seq_size(
        view_nodes(rhs@).skip(rhs_lo as int),
    ), 3int,
{
    broadcast use crate::node::lemma_view_nodes, crate::dtypes::lemma_view_elems;

    let lhs_len = lhs.len();
    let rhs_len = rhs.len();
    let common_len = common.len();
    let ghost lv = view_nodes(lhs@);
    let ghost rv = view_nodes(rhs@);
    let ghost xs = lv.skip(lhs_lo as int);
    let ghost ys = rv.skip(rhs_lo as int);
    let ghost xhs = lhs_hashes@.skip(lhs_lo as int);
    let ghost yhs = rhs_hashes@.skip(rhs_lo as int);
    let ghost cs = common@.skip(common_lo as int);
    let ghost stem = path@.drop_last();
    let ghost o = options@;
    let ghost pidx = path_index as int;
    let ghost target = list_walk(
        xs,
        ys,
        xhs,
        yhs,
        cs,
        0,
        0,
        0,
        pidx,
        pidx,
        previous@,
        Seq::<NodeV>::empty(),
        Seq::<NodeV>::empty(),
        stem,
        o,
    );
    proof {
        assert(forall|k: int| 0 <= k < xs.len() ==> #[trigger] xs[k] == lv[lhs_lo + k]);
        assert(forall|k: int| 0 <= k < ys.len() ==> #[trigger] ys[k] == rv[rhs_lo + k]);
        assert(forall|k: int|
            0 <= k < xhs.len() ==> #[trigger] xhs[k] == lhs_hashes@[lhs_lo + k]);
        assert(forall|k: int|
            0 <= k < yhs.len() ==> #[trigger] yhs[k] == rhs_hashes@[rhs_lo + k]);
        assert(forall|k: int| 0 <= k < cs.len() ==> #[trigger] cs[k] == common@[common_lo + k]);
    }
    let mut a_cur: usize = 0;
    let mut b_cur: usize = 0;
    let mut c_cur: usize = 0;
    let mut path_cursor: i64 = path_index;
    // The open hunk buffer.
    let mut buf_remove: Vec<Node> = Vec::new();
    let mut buf_add: Vec<Node> = Vec::new();
    let mut buf_after: Vec<Node> = Vec::new();
    let buf_path = path_now(&path, path_cursor);
    let mut buf_before: Vec<Node> = Vec::new();
    buf_before.push(clone_node(previous));
    proof {
        assert(view_nodes(buf_before@) =~= seq![previous@]);
        assert(view_nodes(buf_remove@) =~= Seq::<NodeV>::empty());
        assert(view_nodes(buf_add@) =~= Seq::<NodeV>::empty());
        assert(buf_path@ == stem.push(SegV::Index(path_index)));
    }
    // Elements appended after the buffer by container recursion.
    let mut tail: Vec<DiffElement> = Vec::new();
    let mut recursed = false;
    let mut exhausted = false;
    let mut running: usize = 1;
    while running == 1
        invariant
            lhs_lo + a_cur <= lhs@.len(),
            rhs_lo + b_cur <= rhs@.len(),
            common_lo + c_cur <= common@.len(),
            lhs_hashes@.len() == lhs@.len(),
            rhs_hashes@.len() == rhs@.len(),
            lv == view_nodes(lhs@),
            rv == view_nodes(rhs@),
            forall|i: int| 0 <= i < lhs@.len() ==> node_wf(view_node(#[trigger] lhs@[i])),
            forall|i: int| 0 <= i < rhs@.len() ==> node_wf(view_node(#[trigger] rhs@[i])),
            options@.array_mode is List,
            crate::number::finite_bits(options@.precision),
            !crate::number::f64_is_neg(options@.precision),
            seq_size(xs) + seq_size(ys) < total@,
            total@ <= 0x1000000000000000,
            path_index >= 0,
            path_cursor >= 0,
            path_cursor + 2 * (lhs@.len() - lhs_lo - a_cur) + 2 * (rhs@.len() - rhs_lo - b_cur)
                <= 0x4000000000000000,
            running <= 1,
            running == 1 ==> !recursed && !exhausted,
            running == 0 ==> recursed || exhausted,
            recursed ==> a_cur >= 1 && b_cur >= 1,
            exhausted ==> lhs_lo + a_cur == lhs@.len() && rhs_lo + b_cur == rhs@.len(),
            running == 1 ==> view_nodes(buf_before@) == seq![previous@],
            running == 1 ==> tail@.len() == 0,
            running == 1 ==> target == list_walk(
                xs,
                ys,
                xhs,
                yhs,
                cs,
                a_cur as int,
                b_cur as int,
                c_cur as int,
                path_cursor as int,
                pidx,
                previous@,
                view_nodes(buf_remove@),
                view_nodes(buf_add@),
                stem,
                o,
            ),
            running == 0 ==> target == walk_done(
                xs,
                ys,
                xhs,
                yhs,
                cs,
                a_cur as int,
                b_cur as int,
                c_cur as int,
                path_cursor as int,
                pidx,
                view_nodes(buf_remove@),
                view_nodes(buf_add@),
                view_nodes(buf_before@),
                view_nodes(buf_after@),
                crate::dtypes::view_elems(tail@),
                stem,
                o,
            ),
        decreases lhs@.len() - lhs_lo - a_cur + rhs@.len() - rhs_lo - b_cur + running,
    {
        if lhs_lo + a_cur == lhs.len() {
            while rhs_lo + b_cur < rhs.len()
                invariant
                    rhs_lo + b_cur <= rhs@.len(),
                    path_cursor >= 0,
                    path_cursor + 2 * (lhs@.len() - lhs_lo - a_cur) + 2 * (rhs@.len() - rhs_lo
                        - b_cur) <= 0x4000000000000000,
                    target == list_walk(
                        xs,
                        ys,
                        xhs,
                        yhs,
                        cs,
                        a_cur as int,
                        b_cur as int,
                        c_cur as int,
                        path_cursor as int,
                        pidx,
                        previous@,
                        view_nodes(buf_remove@),
                        view_nodes(buf_add@),
                        stem,
                        o,
                    ),
                decreases rhs@.len() - rhs_lo - b_cur,
            {
                let ghost badd_pre = view_nodes(buf_add@);
                buf_add.push(clone_node(&rhs[rhs_lo + b_cur]));
                proof {
                    assert(view_nodes(buf_add@) =~= badd_pre.push(ys[b_cur as int]));
                }
                b_cur = b_cur + 1;
                path_cursor = path_cursor + 2;
            }
            exhausted = true;
            running = 0;
            proof {
                assert(target == walk_close(
                    view_nodes(buf_remove@),
                    view_nodes(buf_add@),
                    stem,
                    pidx,
                    previous@,
                    walk_after(xs, a_cur as int, c_cur as int),
                ));
                lemma_walk_done_closed(
                    xs,
                    ys,
                    xhs,
                    yhs,
                    cs,
                    a_cur as int,
                    b_cur as int,
                    c_cur as int,
                    path_cursor as int,
                    pidx,
                    view_nodes(buf_remove@),
                    view_nodes(buf_add@),
                    previous@,
                    view_nodes(buf_after@),
                    stem,
                    o,
                );
                assert(crate::dtypes::view_elems(tail@) =~= Seq::<ElemV>::empty());
            }
        } else if rhs_lo + b_cur == rhs.len() {
            while lhs_lo + a_cur < lhs.len()
                invariant
                    lhs_lo + a_cur <= lhs@.len(),
                    path_cursor >= 0,
                    path_cursor + 2 * (lhs@.len() - lhs_lo - a_cur) + 2 * (rhs@.len() - rhs_lo
                        - b_cur) <= 0x4000000000000000,
                    target == list_walk(
                        xs,
                        ys,
                        xhs,
                        yhs,
                        cs,
                        a_cur as int,
                        b_cur as int,
                        c_cur as int,
                        path_cursor as int,
                        pidx,
                        previous@,
                        view_nodes(buf_remove@),
                        view_nodes(buf_add@),
                        stem,
                        o,
                    ),
                decreases lhs@.len() - lhs_lo - a_cur,
            {
                let ghost brem_pre = view_nodes(buf_remove@);
                buf_remove.push(clone_node(&lhs[lhs_lo + a_cur]));
                proof {
                    assert(view_nodes(buf_remove@) =~= brem_pre.push(xs[a_cur as int]));
                }
                a_cur = a_cur + 1;
            }
            exhausted = true;
            running = 0;
            proof {
                assert(target == walk_close(
                    view_nodes(buf_remove@),
                    view_nodes(buf_add@),
                    stem,
                    pidx,
                    previous@,
                    walk_after(xs, a_cur as int, c_cur as int),
                ));
                lemma_walk_done_closed(
                    xs,
                    ys,
                    xhs,
                    yhs,
                    cs,
                    a_cur as int,
                    b_cur as int,
                    c_cur as int,
                    path_cursor as int,
                    pidx,
                    view_nodes(buf_remove@),
                    view_nodes(buf_add@),
                    previous@,
                    view_nodes(buf_after@),
                    stem,
                    o,
                );
                assert(crate::dtypes::view_elems(tail@) =~= Seq::<ElemV>::empty());
            }
        } else {
            let lhs_at = at_common(lhs_hashes, lhs_lo + a_cur, common, common_lo + c_cur);
            let rhs_at = at_common(rhs_hashes, rhs_lo + b_cur, common, common_lo + c_cur);
            proof {
                assert(lhs_at == hash_match(xhs, a_cur as int, cs, c_cur as int));
                assert(rhs_at == hash_match(yhs, b_cur as int, cs, c_cur as int));
            }
            if lhs_at && rhs_at {
                a_cur = a_cur + 1;
                b_cur = b_cur + 1;
                c_cur = c_cur + 1;
                path_cursor = path_cursor + 1;
                recursed = true;
                running = 0;
                proof {
                    lemma_walk_done_common(
                        xs,
                        ys,
                        xhs,
                        yhs,
                        cs,
                        a_cur as int,
                        b_cur as int,
                        c_cur as int,
                        path_cursor as int,
                        pidx,
                        view_nodes(buf_remove@),
                        view_nodes(buf_add@),
                        previous@,
                        view_nodes(buf_after@),
                        stem,
                        o,
                    );
                    assert(crate::dtypes::view_elems(tail@) =~= Seq::<ElemV>::empty());
                }
            } else if lhs_at {
                // Consume the right-hand run up to the next common element.
                let ghost b0 = b_cur;
                let ghost badd_pre0 = view_nodes(buf_add@);
                buf_add.push(clone_node(&rhs[rhs_lo + b_cur]));
                proof {
                    assert(view_nodes(buf_add@) =~= badd_pre0.push(ys[b_cur as int]));
                }
                b_cur = b_cur + 1;
                path_cursor = path_cursor + 1;
                while rhs_lo + b_cur < rhs.len() && !at_common(
                    rhs_hashes,
                    rhs_lo + b_cur,
                    common,
                    common_lo + c_cur,
                )
                    invariant
                        rhs_lo + b_cur <= rhs@.len(),
                        common_lo + c_cur <= common@.len(),
                        b_cur >= b0 + 1,
                        path_cursor >= 0,
                        path_cursor + 2 * (lhs@.len() - lhs_lo - a_cur) + 2 * (rhs@.len() - rhs_lo
                            - b_cur) <= 0x4000000000000000,
                        target == list_walk(
                            xs,
                            ys,
                            xhs,
                            yhs,
                            cs,
                            a_cur as int,
                            b_cur as int,
                            c_cur as int,
                            path_cursor as int,
                            pidx,
                            previous@,
                            view_nodes(buf_remove@),
                            view_nodes(buf_add@),
                            stem,
                            o,
                        ),
                    decreases rhs@.len() - rhs_lo - b_cur,
                {
                    let ghost badd_pre = view_nodes(buf_add@);
                    buf_add.push(clone_node(&rhs[rhs_lo + b_cur]));
                    proof {
                        assert(view_nodes(buf_add@) =~= badd_pre.push(ys[b_cur as int]));
                    }
                    b_cur = b_cur + 1;
                    path_cursor = path_cursor + 1;
                }
            } else if rhs_at {
                // Consume the left-hand run up to the next common element.
                let ghost a0 = a_cur;
                let ghost brem_pre0 = view_nodes(buf_remove@);
                buf_remove.push(clone_node(&lhs[lhs_lo + a_cur]));
                proof {
                    assert(view_nodes(buf_remove@) =~= brem_pre0.push(xs[a_cur as int]));
                }
                a_cur = a_cur + 1;
                while lhs_lo + a_cur < lhs.len() && !at_common(
                    lhs_hashes,
                    lhs_lo + a_cur,
                    common,
                    common_lo + c_cur,
                )
                    invariant
                        lhs_lo + a_cur <= lhs@.len(),
                        common_lo + c_cur <= common@.len(),
                        a_cur >= a0 + 1,
                        path_cursor >= 0,
                        path_cursor + 2 * (lhs@.len() - lhs_lo - a_cur) + 2 * (rhs@.len() - rhs_lo
                            - b_cur) <= 0x4000000000000000,
                        target == list_walk(
                            xs,
                            ys,
                            xhs,
                            yhs,
                            cs,
                            a_cur as int,
                            b_cur as int,
                            c_cur as int,
                            path_cursor as int,
                            pidx,
                            previous@,
                            view_nodes(buf_remove@),
                            view_nodes(buf_add@),
                            stem,
                            o,
                        ),
                    decreases lhs@.len() - lhs_lo - a_cur,
                {
                    let ghost brem_pre = view_nodes(buf_remove@);
                    buf_remove.push(clone_node(&lhs[lhs_lo + a_cur]));
                    proof {
                        assert(view_nodes(buf_remove@) =~= brem_pre.push(xs[a_cur as int]));
                    }
                    a_cur = a_cur + 1;
                }
            } else {
                let l_el = &lhs[lhs_lo + a_cur];
                let r_el = &rhs[rhs_lo + b_cur];
                if same_container_type(l_el, r_el) {
                    let sub_path = path_now(&path, path_cursor);
                    proof {
                        assert(lv[lhs_lo + a_cur] == view_node(lhs@[lhs_lo + a_cur]));
                        assert(rv[rhs_lo + b_cur] == view_node(rhs@[rhs_lo + b_cur]));
                        lemma_seq_size_index(xs, a_cur as int);
                        lemma_seq_size_index(ys, b_cur as int);
                        assert(sub_path@ == stem.push(SegV::Index(path_cursor as i64)));
                    }
                    let sub = diff_impl(l_el, r_el, &sub_path, options);
                    let ghost subv = crate::dtypes::view_elems(sub@);
                    proof {
                        assert(subv == diff_spec(
                            xs[a_cur as int],
                            ys[b_cur as int],
                            stem.push(SegV::Index(path_cursor as i64)),
                            o,
                        ));
                    }
                    let has_changes = buf_remove.len() > 0 || buf_add.len() > 0;
                    if has_changes {
                        buf_after = after_context(lhs, lhs_lo, a_cur, c_cur);
                        let mut subm = sub;
                        let ghost pre = tail@;
                        tail.append(&mut subm);
                        proof {
                            assert(pre =~= Seq::<DiffElement>::empty());
                            assert(tail@ =~= sub@);
                            assert(crate::dtypes::view_elems(tail@) =~= subv);
                        }
                    } else {
                        // Adopt the sub-diff: the buffer is empty.
                        tail = sub;
                        buf_before = Vec::new();
                        proof {
                            assert(view_nodes(buf_before@) =~= Seq::<NodeV>::empty());
                        }
                    }
                    a_cur = a_cur + 1;
                    b_cur = b_cur + 1;
                    path_cursor = path_cursor + 1;
                    recursed = true;
                    running = 0;
                    proof {
                        lemma_walk_done_container(
                            xs,
                            ys,
                            xhs,
                            yhs,
                            cs,
                            a_cur as int,
                            b_cur as int,
                            c_cur as int,
                            path_cursor as int,
                            pidx,
                            view_nodes(buf_remove@),
                            view_nodes(buf_add@),
                            previous@,
                            subv,
                            stem,
                            o,
                        );
                        if has_changes {
                            assert(view_nodes(buf_after@) == walk_after(
                                xs,
                                a_cur - 1,
                                c_cur as int,
                            ));
                        }
                        assert(target == walk_done(
                            xs,
                            ys,
                            xhs,
                            yhs,
                            cs,
                            a_cur as int,
                            b_cur as int,
                            c_cur as int,
                            path_cursor as int,
                            pidx,
                            view_nodes(buf_remove@),
                            view_nodes(buf_add@),
                            view_nodes(buf_before@),
                            view_nodes(buf_after@),
                            crate::dtypes::view_elems(tail@),
                            stem,
                            o,
                        ));
                    }
                } else {
                    let ghost brem_pre = view_nodes(buf_remove@);
                    let ghost badd_pre = view_nodes(buf_add@);
                    buf_remove.push(clone_node(l_el));
                    buf_add.push(clone_node(r_el));
                    proof {
                        assert(view_nodes(buf_remove@) =~= brem_pre.push(xs[a_cur as int]));
                        assert(view_nodes(buf_add@) =~= badd_pre.push(ys[b_cur as int]));
                        lemma_view_kinds(l_el);
                        lemma_view_kinds(r_el);
                    }
                    a_cur = a_cur + 1;
                    b_cur = b_cur + 1;
                    path_cursor = path_cursor + 1;
                }
            }
        }
    }
    // Close the buffer.
    let has_changes = buf_remove.len() > 0 || buf_add.len() > 0;
    let mut out: Vec<DiffElement> = Vec::new();
    let ghost aft_view = if crate::dtypes::view_elems(tail@).len() == 0 {
        walk_after(xs, a_cur as int, c_cur as int)
    } else {
        view_nodes(buf_after@)
    };
    if has_changes && buf_before.len() > 0 {
        let single = tail.len() == 0;
        let after = if single {
            after_context(lhs, lhs_lo, a_cur, c_cur)
        } else {
            buf_after
        };
        let element = DiffElement {
            metadata: None,
            path: buf_path,
            before: buf_before,
            remove: buf_remove,
            add: buf_add,
            after,
        };
        proof {
            assert(element@ =~= ElemV {
                metadata: None,
                path: stem.push(SegV::Index(path_index)),
                before: element@.before,
                remove: element@.remove,
                add: element@.add,
                after: aft_view,
            });
        }
        out.push(element);
    }
    let ghost out_head = out@;
    let mut tailm = tail;
    let ghost tailv = tailm@;
    out.append(&mut tailm);
    proof {
        assert(out@ =~= out_head + tailv);
        lemma_view_elems_concat(out_head, tailv);
    }
    if lhs_lo + a_cur == lhs.len() && rhs_lo + b_cur == rhs.len() {
        proof {
            assert(crate::dtypes::view_elems(out@) =~= target);
        }
        return out;
    }
    // Recurse on the remaining suffixes.
    let previous_node = if b_cur == 0 {
        Node::Void
    } else {
        clone_node(&rhs[rhs_lo + b_cur - 1])
    };
    let next_path = path_now(&path, path_cursor);
    proof {
        assert(a_cur >= 1 && b_cur >= 1);
        lemma_seq_size_skip(lv, lhs_lo as int, lhs_lo + a_cur);
        lemma_seq_size_skip(rv, rhs_lo as int, rhs_lo + b_cur);
        assert(next_path@.drop_last() =~= stem);
    }
    let mut rest = diff_rest(
        lhs,
        rhs,
        lhs_lo + a_cur,
        rhs_lo + b_cur,
        lhs_hashes,
        rhs_hashes,
        common,
        common_lo + c_cur,
        path_cursor,
        next_path,
        &previous_node,
        options,
        total,
    );
    let ghost outv = out@;
    let ghost restv = rest@;
    out.append(&mut rest);
    proof {
        assert(out@ =~= outv + restv);
        lemma_view_elems_concat(outv, restv);
        assert(lv.skip(lhs_lo + a_cur) =~= xs.skip(a_cur as int));
        assert(rv.skip(rhs_lo + b_cur) =~= ys.skip(b_cur as int));
        assert(lhs_hashes@.skip(lhs_lo + a_cur) =~= xhs.skip(a_cur as int));
        assert(rhs_hashes@.skip(rhs_lo + b_cur) =~= yhs.skip(b_cur as int));
        assert(common@.skip(common_lo + c_cur) =~= cs.skip(c_cur as int));
        assert(previous_node@ == if b_cur as int == 0 {
            NodeV::Void
        } else {
            ys[b_cur - 1]
        });
        assert(crate::dtypes::view_elems(out@) =~= target);
    }
    out
}

/// After an exhausting exit, the assembled form is the closed buffer.
proof fn lemma_walk_done_closed(
    xs: Seq<NodeV>,
    ys: Seq<NodeV>,
    xhs: Seq<u64>,
    yhs: Seq<u64>,
    cs: Seq<u64>,
    a: int,
    b: int,
    c: int,
    pcur: int,
    pidx0: int,
    brem: Seq<NodeV>,
    badd: Seq<NodeV>,
    prev: NodeV,
    bafter: Seq<NodeV>,
    stem: Seq<SegV>,
    opts: crate::options::OptionsV,
)
    requires
        a >= xs.len(),
        b >= ys.len(),
    ensures
        walk_done(
            xs,
            ys,
            xhs,
            yhs,
            cs,
            a,
            b,
            c,
            pcur,
            pidx0,
            brem,
            badd,
            seq![prev],
            bafter,
            Seq::<ElemV>::empty(),
            stem,
            opts,
        ) == walk_close(brem, badd, stem, pidx0, prev, walk_after(xs, a, c)),
{
    let d = walk_done(
        xs,
        ys,
        xhs,
        yhs,
        cs,
        a,
        b,
        c,
        pcur,
        pidx0,
        brem,
        badd,
        seq![prev],
        bafter,
        Seq::<ElemV>::empty(),
        stem,
        opts,
    );
    assert(d =~= walk_close(brem, badd, stem, pidx0, prev, walk_after(xs, a, c)));
}

/// After a common-step exit, the assembled form matches the walk's
/// common-step case at the pre-step state.
proof fn lemma_walk_done_common(
    xs: Seq<NodeV>,
    ys: Seq<NodeV>,
    xhs: Seq<u64>,
    yhs: Seq<u64>,
    cs: Seq<u64>,
    a: int,
    b: int,
    c: int,
    pcur: int,
    pidx0: int,
    brem: Seq<NodeV>,
    badd: Seq<NodeV>,
    prev: NodeV,
    bafter: Seq<NodeV>,
    stem: Seq<SegV>,
    opts: crate::options::OptionsV,
)
    requires
        1 <= a <= xs.len(),
        1 <= b <= ys.len(),
        1 <= c <= cs.len(),
        hash_match(xhs, a - 1, cs, c - 1),
        hash_match(yhs, b - 1, cs, c - 1),
        a - 1 < xs.len(),
        b - 1 < ys.len(),
    ensures
        walk_done(
            xs,
            ys,
            xhs,
            yhs,
            cs,
            a,
            b,
            c,
            pcur,
            pidx0,
            brem,
            badd,
            seq![prev],
            bafter,
            Seq::<ElemV>::empty(),
            stem,
            opts,
        ) == list_walk(
            xs,
            ys,
            xhs,
            yhs,
            cs,
            a - 1,
            b - 1,
            c - 1,
            pcur - 1,
            pidx0,
            prev,
            brem,
            badd,
            stem,
            opts,
        ),
{
    let closed = walk_close(brem, badd, stem, pidx0, prev, walk_after(xs, a, c));
    let lhs_walk = list_walk(
        xs,
        ys,
        xhs,
        yhs,
        cs,
        a - 1,
        b - 1,
        c - 1,
        pcur - 1,
        pidx0,
        prev,
        brem,
        badd,
        stem,
        opts,
    );
    let d = walk_done(
        xs,
        ys,
        xhs,
        yhs,
        cs,
        a,
        b,
        c,
        pcur,
        pidx0,
        brem,
        badd,
        seq![prev],
        bafter,
        Seq::<ElemV>::empty(),
        stem,
        opts,
    );
    if a >= xs.len() && b >= ys.len() {
        assert(lhs_walk == closed);
        assert(d =~= closed);
    } else {
        assert(lhs_walk == closed + list_walk(
            xs.skip(a),
            ys.skip(b),
            xhs.skip(a),
            yhs.skip(b),
            cs.skip(c),
            0,
            0,
            0,
            pcur,
            pcur,
            ys[b - 1],
            Seq::empty(),
            Seq::empty(),
            stem,
            opts,
        ));
        assert(d =~= lhs_walk);
    }
}

/// After a container exit, the assembled form matches the walk's
/// container case at the pre-step state.
proof fn lemma_walk_done_container(
    xs: Seq<NodeV>,
    ys: Seq<NodeV>,
    xhs: Seq<u64>,
    yhs: Seq<u64>,
    cs: Seq<u64>,
    a: int,
    b: int,
    c: int,
    pcur: int,
    pidx0: int,
    brem: Seq<NodeV>,
    badd: Seq<NodeV>,
    prev: NodeV,
    subv: Seq<ElemV>,
    stem: Seq<SegV>,
    opts: crate::options::OptionsV,
)
    requires
        1 <= a <= xs.len(),
        1 <= b <= ys.len(),
        0 <= c <= cs.len(),
        !hash_match(xhs, a - 1, cs, c),
        !hash_match(yhs, b - 1, cs, c),
        same_kind(xs[a - 1], ys[b - 1]),
        subv == diff_spec(xs[a - 1], ys[b - 1], stem.push(SegV::Index((pcur - 1) as i64)), opts),
    ensures
        ({
            let bbefore = if brem.len() > 0 || badd.len() > 0 {
                seq![prev]
            } else {
                Seq::<NodeV>::empty()
            };
            walk_done(
                xs,
                ys,
                xhs,
                yhs,
                cs,
                a,
                b,
                c,
                pcur,
                pidx0,
                brem,
                badd,
                bbefore,
                if subv.len() == 0 {
                    walk_after(xs, a, c)
                } else {
                    walk_after(xs, a - 1, c)
                },
                subv,
                stem,
                opts,
            ) == list_walk(
                xs,
                ys,
                xhs,
                yhs,
                cs,
                a - 1,
                b - 1,
                c,
                pcur - 1,
                pidx0,
                prev,
                brem,
                badd,
                stem,
                opts,
            )
        }),
{
    let bbefore = if brem.len() > 0 || badd.len() > 0 {
        seq![prev]
    } else {
        Seq::<NodeV>::empty()
    };
    let bafter = if subv.len() == 0 {
        walk_after(xs, a, c)
    } else {
        walk_after(xs, a - 1, c)
    };
    let lhs_walk = list_walk(
        xs,
        ys,
        xhs,
        yhs,
        cs,
        a - 1,
        b - 1,
        c,
        pcur - 1,
        pidx0,
        prev,
        brem,
        badd,
        stem,
        opts,
    );
    let head = if brem.len() > 0 || badd.len() > 0 {
        walk_close(brem, badd, stem, pidx0, prev, bafter) + subv
    } else {
        subv
    };
    let d = walk_done(
        xs,
        ys,
        xhs,
        yhs,
        cs,
        a,
        b,
        c,
        pcur,
        pidx0,
        brem,
        badd,
        bbefore,
        bafter,
        subv,
        stem,
        opts,
    );
    if a >= xs.len() && b >= ys.len() {
        assert(lhs_walk == head);
        assert(d =~= head);
    } else {
        let rest = list_walk(
            xs.skip(a),
            ys.skip(b),
            xhs.skip(a),
            yhs.skip(b),
            cs.skip(c),
            0,
            0,
            0,
            pcur,
            pcur,
            ys[b - 1],
            Seq::empty(),
            Seq::empty(),
            stem,
            opts,
        );
        assert(lhs_walk == head + rest);
        assert(d =~= head + rest);
    }
}

} // verus!
