//! Direct generation of an RFC 7386 merge patch from two documents: equal
//! subtrees contribute nothing, keys only on the left become `null`
//! deletions, keys only on the right are additions, and common keys
//! recurse; empty object patches collapse away.
use crate::node::{
    clone_node, node_eq_exact, nodes_equal, view_entries, view_node, Node, NodeV,
};
use crate::diffcore::{entries_size, lemma_entries_size_index, lemma_node_size_pos, node_size};
use crate::strutil::{str_le_exec, str_lt, CloneString};
use vstd::prelude::*;

verus! {

/// The merge patch of two values: nothing for equal values, the new value
/// for differing non-objects, and a recursive object patch otherwise.
pub open spec fn merge_patch_spec(a: NodeV, b: NodeV) -> Option<NodeV>
    decreases node_size(a) + node_size(b), 1int,
{
    match (a, b) {
        (NodeV::Obj(x), NodeV::Obj(y)) => {
            let entries = mp_entries(x, y);
            if entries.len() == 0 {
                None
            } else {
                Some(NodeV::Obj(entries))
            }
        },
        _ => if node_eq_exact(a, b) {
            None
        } else {
            Some(b)
        },
    }
}

/// The merge-joined patch entries of two sorted entry sequences.
pub open spec fn mp_entries(
    x: Seq<(Seq<char>, NodeV)>,
    y: Seq<(Seq<char>, NodeV)>,
) -> Seq<(Seq<char>, NodeV)>
    decreases 1 + entries_size(x) + 1 + entries_size(y), 0int,
{
    if x.len() == 0 && y.len() == 0 {
        Seq::empty()
    } else if x.len() == 0 {
        proof {
            lemma_entries_drop_first(y);
            lemma_node_size_pos(y[0].1);
        }
        seq![y[0]] + mp_entries(x, y.drop_first())
    } else if y.len() == 0 {
        proof {
            lemma_entries_drop_first(x);
            lemma_node_size_pos(x[0].1);
        }
        seq![(x[0].0, NodeV::Null)] + mp_entries(x.drop_first(), y)
    } else if x[0].0 == y[0].0 {
        proof {
            lemma_entries_drop_first(x);
            lemma_entries_drop_first(y);
            lemma_node_size_pos(x[0].1);
            lemma_node_size_pos(y[0].1);
        }
        let rest = mp_entries(x.drop_first(), y.drop_first());
        match merge_patch_spec(x[0].1, y[0].1) {
            Some(child) => if child matches NodeV::Obj(cs) && cs.len() == 0 {
                rest
            } else {
                seq![(x[0].0, child)] + rest
            },
            None => rest,
        }
    } else if str_lt(x[0].0, y[0].0) {
        proof {
            lemma_entries_drop_first(x);
            lemma_node_size_pos(x[0].1);
        }
        seq![(x[0].0, NodeV::Null)] + mp_entries(x.drop_first(), y)
    } else {
        proof {
            lemma_entries_drop_first(y);
            lemma_node_size_pos(y[0].1);
        }
        seq![y[0]] + mp_entries(x, y.drop_first())
    }
}

/// Splitting off the first entry splits its size.
pub proof fn lemma_entries_drop_first(entries: Seq<(Seq<char>, NodeV)>)
    requires
        entries.len() > 0,
    ensures
        entries_size(entries) == node_size(entries[0].1) + entries_size(entries.drop_first()),
    decreases entries.len(),
{
    if entries.len() == 1 {
        assert(entries.subrange(0, 0) =~= Seq::<(Seq<char>, NodeV)>::empty());
        assert(entries.drop_first() =~= Seq::<(Seq<char>, NodeV)>::empty());
        assert(entries.last() == entries[0]);
    } else {
        let front = entries.subrange(0, entries.len() - 1);
        lemma_entries_drop_first(front);
        assert(front[0] == entries[0]);
        assert(front.drop_first() =~= entries.drop_first().subrange(
            0,
            entries.drop_first().len() - 1,
        ));
        assert(entries.drop_first().last() == entries.last());
    }
}

/// Computes the merge patch that turns the first document into the second:
/// applying the result (or nothing, for equal inputs) as an RFC 7386 merge
/// patch to `lhs` yields `rhs`.
#[verifier::loop_isolation(false)]
pub fn merge_patch(lhs: &Node, rhs: &Node) -> (r: Option<Node>)
    ensures
        match r {
            Some(n) => merge_patch_spec(lhs@, rhs@) == Some(n@),
            None => merge_patch_spec(lhs@, rhs@) is None,
        },
    decreases node_size(lhs@) + node_size(rhs@),
{
    broadcast use crate::node::lemma_view_entries;

    match (lhs, rhs) {
        (Node::Object(a), Node::Object(b)) => {
            let ghost xv = view_entries(a@);
            let ghost yv = view_entries(b@);
            let mut out: Vec<(String, Node)> = Vec::new();
            let mut i: usize = 0;
            let mut j: usize = 0;
            proof {
                assert(xv.skip(0) =~= xv);
                assert(yv.skip(0) =~= yv);
                assert(view_entries(out@) =~= Seq::<(Seq<char>, NodeV)>::empty());
            }
            while i < a.len() || j < b.len()
                invariant
                    i <= a@.len(),
                    j <= b@.len(),
                    mp_entries(xv, yv) =~= view_entries(out@) + mp_entries(
                        xv.skip(i as int),
                        yv.skip(j as int),
                    ),
                decreases a@.len() - i + b@.len() - j,
            {
                let ghost xs = xv.skip(i as int);
                let ghost ys = yv.skip(j as int);
                proof {
                    if i < a@.len() {
                        assert(xs[0] == xv[i as int]);
                        assert(xv[i as int] == (a@[i as int].0@, view_node(a@[i as int].1)));
                        assert(xs.drop_first() =~= xv.skip(i + 1 as int));
                    }
                    if j < b@.len() {
                        assert(ys[0] == yv[j as int]);
                        assert(yv[j as int] == (b@[j as int].0@, view_node(b@[j as int].1)));
                        assert(ys.drop_first() =~= yv.skip(j + 1 as int));
                    }
                }
                if i == a.len() {
                    // Only right keys remain: additions.
                    let key = b[j].0.clone_string();
                    let value = clone_node(&b[j].1);
                    let ghost pre = out@;
                    out.push((key, value));
                    proof {
                        assert(view_entries(out@) =~= view_entries(pre).push(ys[0]));
                        assert(view_entries(pre).push(ys[0]) + mp_entries(xs, ys.drop_first())
                            =~= view_entries(pre) + (seq![ys[0]] + mp_entries(
                            xs,
                            ys.drop_first(),
                        )));
                    }
                    j = j + 1;
                } else if j == b.len() {
                    // Only left keys remain: deletions.
                    let key = a[i].0.clone_string();
                    let ghost pre = out@;
                    out.push((key, Node::Null));
                    proof {
                        assert(view_entries(out@) =~= view_entries(pre).push(
                            (xs[0].0, NodeV::Null),
                        ));
                        assert(view_entries(pre).push((xs[0].0, NodeV::Null)) + mp_entries(
                            xs.drop_first(),
                            ys,
                        ) =~= view_entries(pre) + (seq![(xs[0].0, NodeV::Null)] + mp_entries(
                            xs.drop_first(),
                            ys,
                        )));
                    }
                    i = i + 1;
                } else {
                    let same = a[i].0 == b[j].0;
                    if same {
                        proof {
                            lemma_entries_size_index(xv, i as int);
                            lemma_entries_size_index(yv, j as int);
                            lemma_node_size_pos(lhs@);
                            lemma_node_size_pos(rhs@);
                        }
                        let child = merge_patch(&a[i].1, &b[j].1);
                        match child {
                            Some(c) => {
                                let skip_child = match &c {
                                    Node::Object(cs) => cs.len() == 0,
                                    _ => false,
                                };
                                proof {
                                    if skip_child {
                                        assert(c@ matches NodeV::Obj(cv) && cv.len() == 0) by {
                                            assert(c@->Obj_0 =~= view_entries(
                                                c->Object_0@,
                                            ));
                                        }
                                    } else {
                                        match &c {
                                            Node::Object(cs) => {
                                                assert(c@ == NodeV::Obj(view_entries(cs@)));
                                                assert(view_entries(cs@).len() == cs@.len());
                                                assert(cs@.len() > 0);
                                            },
                                            Node::Void => {
                                            },
                                            Node::Null => {
                                            },
                                            Node::Bool(_) => {
                                            },
                                            Node::Number(_) => {
                                            },
                                            Node::String(_) => {
                                            },
                                            Node::Array(_) => {
                                            },
                                        }
                                    }
                                }
                                if !skip_child {
                                    let key = a[i].0.clone_string();
                                    let ghost pre = out@;
                                    out.push((key, c));
                                    proof {
                                        assert(view_entries(out@) =~= view_entries(pre).push(
                                            (xs[0].0, merge_patch_spec(xs[0].1, ys[0].1)->Some_0),
                                        ));
                                        assert(view_entries(pre).push(
                                            (xs[0].0, merge_patch_spec(xs[0].1, ys[0].1)->Some_0),
                                        ) + mp_entries(xs.drop_first(), ys.drop_first())
                                            =~= view_entries(pre) + (seq![
                                            (xs[0].0, merge_patch_spec(xs[0].1, ys[0].1)->Some_0),
                                        ] + mp_entries(xs.drop_first(), ys.drop_first())));
                                    }
                                }
                            },
                            None => {
                            },
                        }
                        i = i + 1;
                        j = j + 1;
                    } else {
                        let left_first = str_le_exec(a[i].0.as_str(), b[j].0.as_str());
                        proof {
                            crate::strutil::lemma_str_le_total(a@[i as int].0@, b@[j as int].0@);
                            if left_first {
                                assert(str_lt(xs[0].0, ys[0].0));
                            } else {
                                assert(!str_lt(xs[0].0, ys[0].0)) by {
                                    if str_lt(xs[0].0, ys[0].0) {
                                        crate::strutil::lemma_str_le_antisym(
                                            xs[0].0,
                                            ys[0].0,
                                        );
                                    }
                                }
                            }
                        }
                        if left_first {
                            let key = a[i].0.clone_string();
                            let ghost pre = out@;
                            out.push((key, Node::Null));
                            proof {
                                assert(view_entries(out@) =~= view_entries(pre).push(
                                    (xs[0].0, NodeV::Null),
                                ));
                                assert(view_entries(pre).push((xs[0].0, NodeV::Null))
                                    + mp_entries(xs.drop_first(), ys) =~= view_entries(pre) + (
                                seq![(xs[0].0, NodeV::Null)] + mp_entries(xs.drop_first(), ys)));
                            }
                            i = i + 1;
                        } else {
                            let key = b[j].0.clone_string();
                            let value = clone_node(&b[j].1);
                            let ghost pre = out@;
                            out.push((key, value));
                            proof {
                                assert(view_entries(out@) =~= view_entries(pre).push(ys[0]));
                                assert(view_entries(pre).push(ys[0]) + mp_entries(
                                    xs,
                                    ys.drop_first(),
                                ) =~= view_entries(pre) + (seq![ys[0]] + mp_entries(
                                    xs,
                                    ys.drop_first(),
                                )));
                            }
                            j = j + 1;
                        }
                    }
                }
            }
            proof {
                assert(xv.skip(a@.len() as int).len() == 0);
                assert(yv.skip(b@.len() as int).len() == 0);
                assert(mp_entries(xv.skip(a@.len() as int), yv.skip(b@.len() as int))
                    =~= Seq::<(Seq<char>, NodeV)>::empty());
                assert(mp_entries(xv, yv) =~= view_entries(out@));
            }
            if out.len() == 0 {
                None
            } else {
                Some(Node::Object(out))
            }
        },
        _ => {
            proof {
                lemma_not_obj(lhs, rhs);
            }
            if nodes_equal(lhs, rhs) {
                None
            } else {
                Some(clone_node(rhs))
            }
        },
    }
}

/// At least one of two nodes that do not match the object pair pattern is
/// not an object.
proof fn lemma_not_obj(lhs: &Node, rhs: &Node)
    ensures
        (lhs@ is Obj) == (*lhs is Object),
        (rhs@ is Obj) == (*rhs is Object),
{
    match lhs {
        Node::Object(_) => {
        },
        _ => {
        },
    }
    match rhs {
        Node::Object(_) => {
        },
        _ => {
        },
    }
}

} // verus!
