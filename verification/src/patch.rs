//! The patch application engine: executes diff elements in order against a
//! document, with strict context validation or merge semantics per element.
//!
//! The behavior is pinned by a specification interpreter (`patch_el` and
//! `apply_upto`): application succeeds with exactly the node the
//! interpreter computes, and fails exactly when the interpreter rejects —
//! with exactly the user-visible message the interpreter prescribes.
use crate::dtypes::{effectively_merge, inherited_meta, Diff, DiffElement, ElemV, PatchError};
use crate::jsontext::{dec_int, json_text, path_display, push_json, push_path_display, seg_display};
use crate::node::{
    clone_node, node_eq_exact, nodes_equal, obj_lookup, view_entries, view_nodes, Node, NodeV,
};
use crate::path::{segs_view, PathSegment, SegV};
use crate::strutil::CloneString;
use vstd::prelude::*;
use vstd::string::StringExecFns;

verus! {

/// Removes the first entry with the given key, if any.
pub open spec fn obj_remove(entries: Seq<(Seq<char>, NodeV)>, key: Seq<char>) -> Seq<
    (Seq<char>, NodeV),
>
    decreases entries.len(),
{
    if entries.len() == 0 {
        entries
    } else if entries[0].0 == key {
        entries.drop_first()
    } else {
        seq![entries[0]] + obj_remove(entries.drop_first(), key)
    }
}

/// The message for a value found where a collection was expected.
pub open spec fn expected_collection_msg(node: NodeV, seg: SegV) -> Seq<char> {
    "found "@ + json_text(node) + " at "@ + seg_display(seg) + (if seg is Key {
        ": expected JSON object"@
    } else {
        ": expected JSON array"@
    })
}

/// The message for a strict mismatch against the expected old value.
pub open spec fn expect_value_msg(expected: NodeV, found: NodeV, behind: Seq<SegV>) -> Seq<char> {
    "found "@ + json_text(found) + " at "@ + path_display(behind) + ": expected "@ + json_text(
        expected,
    )
}

/// The message for too many removals or additions outside a set.
pub open spec fn non_set_msg(multi_remove: bool, behind: Seq<SegV>) -> Seq<char> {
    if multi_remove {
        "invalid diff: multiple removals from non-set at "@ + path_display(behind)
    } else {
        "invalid diff: multiple additions to a non-set at "@ + path_display(behind)
    }
}

/// Validates the before context from offset `o` on: a `Void` is allowed
/// just off the start; every other entry must match its slot.
pub open spec fn before_check(
    list: Seq<NodeV>,
    before: Seq<NodeV>,
    idx: int,
    o: int,
) -> Result<(), Seq<char>>
    decreases before.len() - o,
{
    if o < 0 || o >= before.len() {
        Ok(())
    } else {
        let ci = idx - (before.len() - o);
        if ci < 0 {
            if ci == -1 && before[o] is Void {
                before_check(list, before, idx, o + 1)
            } else {
                Err(
                    "invalid patch. before context "@ + json_text(before[o])
                        + " out of bounds: "@ + dec_int(ci),
                )
            }
        } else if ci >= list.len() {
            Err(
                "invalid patch. before context "@ + json_text(before[o]) + " out of bounds: "@
                    + dec_int(ci),
            )
        } else if !node_eq_exact(list[ci], before[o]) {
            Err(
                "invalid patch. expected "@ + json_text(before[o]) + " before. got "@ + json_text(
                    list[ci],
                ),
            )
        } else {
            before_check(list, before, idx, o + 1)
        }
    }
}

/// Validates the after context from offset `o` on: a `Void` is allowed
/// just off the end; every other entry must match its slot.
pub open spec fn after_check(
    working: Seq<NodeV>,
    after: Seq<NodeV>,
    idx: int,
    o: int,
) -> Result<(), Seq<char>>
    decreases after.len() - o,
{
    if o < 0 || o >= after.len() {
        Ok(())
    } else {
        let ci = idx + o;
        if ci >= working.len() {
            if ci == working.len() && after[o] is Void {
                after_check(working, after, idx, o + 1)
            } else {
                Err(
                    "invalid patch. after context "@ + json_text(after[o]) + " out of bounds: "@
                        + dec_int(ci),
                )
            }
        } else if !node_eq_exact(working[ci], after[o]) {
            Err(
                "invalid patch. expected "@ + json_text(after[o]) + " after. got "@ + json_text(
                    working[ci],
                ),
            )
        } else {
            after_check(working, after, idx, o + 1)
        }
    }
}

/// Pops the expected values out of the list at the index, validating each.
pub open spec fn remove_seq(working: Seq<NodeV>, idx: int, remove: Seq<NodeV>) -> Result<
    Seq<NodeV>,
    Seq<char>,
>
    decreases remove.len(),
{
    if remove.len() == 0 {
        Ok(working)
    } else if idx >= working.len() || idx < 0 {
        Err("remove values out bounds: "@ + dec_int(idx))
    } else if !node_eq_exact(working[idx], remove[0]) {
        Err(
            "invalid patch. wanted "@ + json_text(remove[0]) + ". found "@ + json_text(
                working[idx],
            ),
        )
    } else {
        remove_seq(working.remove(idx), idx, remove.drop_first())
    }
}

/// Inserts the added values at the index.
pub open spec fn splice(working: Seq<NodeV>, idx: int, add: Seq<NodeV>) -> Seq<NodeV> {
    working.take(idx) + add + working.skip(idx)
}

/// The patch interpreter for a scalar position: at most one old and one new
/// value; merge rejects any old value, strict validates it.
pub open spec fn patch_scalar_s(
    node: NodeV,
    path: Seq<SegV>,
    pos: int,
    remove: Seq<NodeV>,
    add: Seq<NodeV>,
    merge: bool,
) -> Result<NodeV, Seq<char>> {
    if pos < path.len() {
        Err(expected_collection_msg(node, path[pos]))
    } else if remove.len() > 1 || add.len() > 1 {
        Err(non_set_msg(remove.len() > 1, path.take(pos)))
    } else {
        let old_v = if remove.len() == 1 {
            remove[0]
        } else {
            NodeV::Void
        };
        let new_v = if add.len() == 1 {
            add[0]
        } else {
            NodeV::Void
        };
        if merge {
            if !(old_v is Void) {
                Err(
                    "patch with merge strategy at "@ + path_display(path.take(pos))
                        + " has unnecessary old value "@ + json_text(old_v),
                )
            } else {
                Ok(new_v)
            }
        } else {
            if !node_eq_exact(node, old_v) {
                Err(expect_value_msg(old_v, node, path.take(pos)))
            } else {
                Ok(new_v)
            }
        }
    }
}

/// The patch interpreter for an object under the strict strategy (or a
/// merge strategy that has consumed its whole path).
pub open spec fn patch_obj_s(
    entries: Seq<(Seq<char>, NodeV)>,
    path: Seq<SegV>,
    pos: int,
    remove: Seq<NodeV>,
    add: Seq<NodeV>,
    merge: bool,
) -> Result<NodeV, Seq<char>>
    decreases path.len() - pos, 1int,
{
    if pos >= path.len() {
        if remove.len() > 1 || add.len() > 1 {
            Err(non_set_msg(remove.len() > 1, path.take(pos)))
        } else {
            let new_v = if add.len() == 1 {
                add[0]
            } else {
                NodeV::Void
            };
            if merge {
                Ok(new_v)
            } else {
                let old_v = if remove.len() == 1 {
                    remove[0]
                } else {
                    NodeV::Void
                };
                if !node_eq_exact(NodeV::Obj(entries), old_v) {
                    Err(expect_value_msg(old_v, NodeV::Obj(entries), path.take(pos)))
                } else {
                    Ok(new_v)
                }
            }
        }
    } else {
        match path[pos] {
            SegV::Key(key) => {
                let next = match obj_lookup(entries, key) {
                    Some(v) => v,
                    None => if merge && pos + 1 < path.len() {
                        NodeV::Obj(Seq::empty())
                    } else {
                        NodeV::Void
                    },
                };
                match patch_el(
                    next,
                    path,
                    pos + 1,
                    Seq::empty(),
                    remove,
                    add,
                    Seq::empty(),
                    merge,
                ) {
                    Ok(patched) => if patched is Void {
                        Ok(NodeV::Obj(obj_remove(entries, key)))
                    } else {
                        Ok(NodeV::Obj(crate::canon::obj_insert(entries, key, patched)))
                    },
                    Err(e) => Err(e),
                }
            },
            SegV::Index(_) => Err(
                "found "@ + json_text(NodeV::Obj(entries)) + " at "@ + path_display(
                    path.take(pos),
                ) + ": expected JSON object"@,
            ),
        }
    }
}

/// The patch interpreter for an array under the strict strategy.
pub open spec fn patch_list_s(
    list: Seq<NodeV>,
    path: Seq<SegV>,
    pos: int,
    before: Seq<NodeV>,
    remove: Seq<NodeV>,
    add: Seq<NodeV>,
    after: Seq<NodeV>,
) -> Result<NodeV, Seq<char>>
    decreases path.len() - pos, 1int,
{
    if pos >= path.len() {
        if remove.len() > 1 || add.len() > 1 {
            Err("cannot replace list with multiple values"@)
        } else if remove.len() == 0 {
            Err("invalid diff. must declare list to replace it"@)
        } else if !node_eq_exact(NodeV::Arr(list), remove[0]) {
            Err(
                "wanted "@ + json_text(remove[0]) + ". found "@ + json_text(NodeV::Arr(list)),
            )
        } else if add.len() == 0 {
            Ok(NodeV::Void)
        } else {
            Ok(add[0])
        }
    } else {
        match path[pos] {
            SegV::Index(raw) => {
                if pos + 1 < path.len() {
                    if raw < 0 || raw >= list.len() {
                        Err("patch index out of bounds: "@ + dec_int(raw as int))
                    } else {
                        match patch_el(
                            list[raw as int],
                            path,
                            pos + 1,
                            Seq::empty(),
                            remove,
                            add,
                            Seq::empty(),
                            false,
                        ) {
                            Ok(patched) => Ok(NodeV::Arr(list.update(raw as int, patched))),
                            Err(e) => Err(e),
                        }
                    }
                } else if raw == -1 {
                    if remove.len() != 0 {
                        Err("invalid patch. appending to -1 index. but want to remove values"@)
                    } else {
                        Ok(NodeV::Arr(list + add))
                    }
                } else if raw < 0 {
                    Err("patch index out of bounds: "@ + dec_int(raw as int))
                } else if raw > usize::MAX {
                    // An index beyond any representable list always rejects.
                    Err("patch index out of bounds: "@ + dec_int(raw as int))
                } else {
                    let idx = raw as int;
                    match before_check(list, before, idx, 0) {
                        Ok(()) => match remove_seq(list, idx, remove) {
                            Ok(working) => if idx > working.len() {
                                Err("remove values out bounds: "@ + dec_int(idx))
                            } else {
                                match after_check(working, after, idx, 0) {
                                    Ok(()) => Ok(NodeV::Arr(splice(working, idx, add))),
                                    Err(e) => Err(e),
                                }
                            },
                            Err(e) => Err(e),
                        },
                        Err(e) => Err(e),
                    }
                }
            },
            SegV::Key(_) => Err("invalid path element string: expected float64"@),
        }
    }
}

/// The patch interpreter for one diff element at one node. The path is
/// consumed from position `pos` on; the prefix names the location in
/// error messages.
pub open spec fn patch_el(
    node: NodeV,
    path: Seq<SegV>,
    pos: int,
    before: Seq<NodeV>,
    remove: Seq<NodeV>,
    add: Seq<NodeV>,
    after: Seq<NodeV>,
    merge: bool,
) -> Result<NodeV, Seq<char>>
    decreases path.len() - pos, 2int,
{
    if pos < path.len() && merge {
        match path[pos] {
            SegV::Key(key) => {
                match node {
                    NodeV::Obj(entries) => {
                        let existing = match obj_lookup(entries, key) {
                            Some(v) => v,
                            None => if pos + 1 >= path.len() {
                                NodeV::Void
                            } else {
                                NodeV::Obj(Seq::empty())
                            },
                        };
                        let removed = obj_remove(entries, key);
                        match patch_el(existing, path, pos + 1, before, remove, add, after, true) {
                            Ok(patched) => if patched is Void && pos + 1 >= path.len() {
                                Ok(NodeV::Obj(removed))
                            } else if !(patched is Void) || pos + 1 < path.len() {
                                Ok(NodeV::Obj(crate::canon::obj_insert(removed, key, patched)))
                            } else {
                                Ok(NodeV::Obj(removed))
                            },
                            Err(e) => Err(e),
                        }
                    },
                    _ => {
                        let seed = if pos + 1 >= path.len() {
                            NodeV::Void
                        } else {
                            NodeV::Obj(Seq::empty())
                        };
                        match patch_el(seed, path, pos + 1, before, remove, add, after, true) {
                            Ok(patched) => if !(patched is Void) || pos + 1 < path.len() {
                                Ok(
                                    NodeV::Obj(
                                        crate::canon::obj_insert(Seq::empty(), key, patched),
                                    ),
                                )
                            } else {
                                Ok(NodeV::Obj(Seq::empty()))
                            },
                            Err(e) => Err(e),
                        }
                    },
                }
            },
            SegV::Index(_) => Err(expected_collection_msg(node, path[pos])),
        }
    } else {
        match node {
            NodeV::Arr(list) => if merge {
                patch_scalar_s(NodeV::Arr(list), path, pos, remove, add, merge)
            } else {
                patch_list_s(list, path, pos, before, remove, add, after)
            },
            NodeV::Obj(entries) => patch_obj_s(entries, path, pos, remove, add, merge),
            other => if pos < path.len() {
                Err(expected_collection_msg(other, path[pos]))
            } else {
                patch_scalar_s(other, path, pos, remove, add, merge)
            },
        }
    }
}

/// Applies the first `n` elements of a diff to a node, threading the
/// inherited metadata to pick each element's strategy.
pub open spec fn apply_upto(node: NodeV, elems: Seq<ElemV>, n: int) -> Result<NodeV, Seq<char>>
    decreases n,
{
    if n <= 0 {
        Ok(node)
    } else {
        match apply_upto(node, elems, n - 1) {
            Ok(cur) => {
                let e = elems[n - 1];
                patch_el(
                    cur,
                    e.path,
                    0,
                    e.before,
                    e.remove,
                    e.add,
                    e.after,
                    effectively_merge(elems, n - 1),
                )
            },
            Err(e) => Err(e),
        }
    }
}

/// The outcome of applying a whole diff to a node: the patched node, or
/// the first rejection's message.
pub open spec fn apply_spec(node: NodeV, elems: Seq<ElemV>) -> Result<NodeV, Seq<char>> {
    apply_upto(node, elems, elems.len() as int)
}

impl Node {
    /// Applies a diff to this node, returning the patched node on success.
    /// Application succeeds with exactly the value the patch interpreter
    /// computes, and fails exactly when the interpreter rejects, carrying
    /// exactly the interpreter's message.
    #[verifier::loop_isolation(false)]
    pub fn apply_patch(&self, diff: &Diff) -> (r: Result<Node, PatchError>)
        ensures
            match r {
                Ok(n) => apply_spec(self@, diff@) == Ok::<NodeV, Seq<char>>(n@),
                Err(e) => apply_spec(self@, diff@) is Err && apply_spec(self@, diff@)->Err_0
                    == e@,
            },
    {
        broadcast use crate::dtypes::lemma_view_elems;

        let elements = diff.elements();
        let ghost ev = diff@;
        let mut current = clone_node(self);
        let mut inherited: Option<crate::dtypes::DiffMetadata> = None;
        let mut i: usize = 0;
        while i < elements.len()
            invariant
                i <= elements@.len(),
                ev == crate::dtypes::view_elems(elements@),
                ev.len() == elements@.len(),
                forall|j: int| 0 <= j < ev.len() ==> ev[j] == #[trigger] elements@[j]@,
                apply_upto(self@, ev, i as int) == Ok::<NodeV, Seq<char>>(current@),
                match inherited {
                    Some(ref m) => inherited_meta(ev, i as int) == Some(m@),
                    None => inherited_meta(ev, i as int) is None,
                },
            decreases elements@.len() - i,
        {
            let element = &elements[i];
            if let Some(meta) = &element.metadata {
                if meta.is_effective() {
                    match inherited {
                        Some(ref mut existing) => {
                            existing.absorb(meta);
                        },
                        None => {
                            inherited = Some(meta.clone());
                        },
                    }
                }
            }
            let merge = match &inherited {
                Some(m) => m.merge,
                None => false,
            };
            proof {
                assert(ev[i as int] == elements@[i as int]@);
                assert(match inherited {
                    Some(ref m) => inherited_meta(ev, i + 1 as int) == Some(m@),
                    None => inherited_meta(ev, i + 1 as int) is None,
                });
                assert(merge == effectively_merge(ev, i as int));
            }
            let next = patch_one(
                current,
                &element.path.0,
                0,
                &element.before,
                &element.remove,
                &element.add,
                &element.after,
                merge,
            );
            match next {
                Ok(n) => {
                    proof {
                        assert(segs_view(element.path.0@) =~= ev[i as int].path);
                    }
                    current = n;
                },
                Err(e) => {
                    proof {
                        assert(segs_view(element.path.0@) =~= ev[i as int].path);
                        assert(ev[i as int].before == view_nodes(element.before@));
                        assert(ev[i as int].remove == view_nodes(element.remove@));
                        assert(ev[i as int].add == view_nodes(element.add@));
                        assert(ev[i as int].after == view_nodes(element.after@));
                        assert(apply_upto(self@, ev, i + 1 as int) is Err);
                        assert(apply_upto(self@, ev, i + 1 as int)->Err_0 == e@);
                        lemma_apply_upto_err(self@, ev, i + 1 as int, ev.len() as int);
                    }
                    return Err(e);
                },
            }
            i = i + 1;
        }
        Ok(current)
    }
}

/// A failure at some prefix persists, message and all.
proof fn lemma_apply_upto_err(node: NodeV, elems: Seq<ElemV>, n: int, m: int)
    requires
        0 <= n <= m,
        apply_upto(node, elems, n) is Err,
    ensures
        apply_upto(node, elems, m) == apply_upto(node, elems, n),
    decreases m - n,
{
    if n < m {
        lemma_apply_upto_err(node, elems, n + 1, m);
    }
}

/// Builds the error for a value found where a collection was expected.
fn expected_collection_error(node: &Node, path: &Vec<PathSegment>, pos: usize) -> (r: PatchError)
    requires
        pos < path@.len(),
    ensures
        r@ == expected_collection_msg(node@, segs_view(path@)[pos as int]),
{
    broadcast use crate::path::lemma_segs_view;

    let mut msg = String::new();
    msg.append("found ");
    push_json(&mut msg, node);
    msg.append(" at ");
    match &path[pos] {
        PathSegment::Key(k) => {
            msg.append(k.as_str());
            msg.append(": expected JSON object");
        },
        PathSegment::Index(i) => {
            crate::jsontext::push_dec_i64(&mut msg, *i);
            msg.append(": expected JSON array");
        },
    }
    proof {
        assert(segs_view(path@)[pos as int] == path@[pos as int]@);
        assert(msg@ =~= expected_collection_msg(node@, segs_view(path@)[pos as int]));
    }
    PatchError::new(msg)
}

/// Builds the error for a strict mismatch against the expected old value.
fn expect_value_error(expected: &Node, found: &Node, path: &Vec<PathSegment>, pos: usize) -> (r:
    PatchError)
    requires
        pos <= path@.len(),
    ensures
        r@ == expect_value_msg(expected@, found@, segs_view(path@).take(pos as int)),
{
    let mut msg = String::new();
    msg.append("found ");
    push_json(&mut msg, found);
    msg.append(" at ");
    let prefix = path_prefix(path, pos);
    push_path_display(&mut msg, prefix.as_slice());
    msg.append(": expected ");
    push_json(&mut msg, expected);
    proof {
        assert(msg@ =~= expect_value_msg(expected@, found@, segs_view(path@).take(pos as int)));
    }
    PatchError::new(msg)
}

/// Builds the error for too many removals or additions outside a set.
fn non_set_diff_error(multi_remove: bool, path: &Vec<PathSegment>, pos: usize) -> (r: PatchError)
    requires
        pos <= path@.len(),
    ensures
        r@ == non_set_msg(multi_remove, segs_view(path@).take(pos as int)),
{
    let mut msg = String::new();
    if multi_remove {
        msg.append("invalid diff: multiple removals from non-set at ");
    } else {
        msg.append("invalid diff: multiple additions to a non-set at ");
    }
    let prefix = path_prefix(path, pos);
    push_path_display(&mut msg, prefix.as_slice());
    proof {
        assert(msg@ =~= non_set_msg(multi_remove, segs_view(path@).take(pos as int)));
    }
    PatchError::new(msg)
}

/// Clones the first `pos` segments of a path; its view is the prefix.
fn path_prefix(path: &Vec<PathSegment>, pos: usize) -> (r: Vec<PathSegment>)
    requires
        pos <= path@.len(),
    ensures
        segs_view(r@) == segs_view(path@).take(pos as int),
{
    broadcast use crate::path::lemma_segs_view;

    let mut out: Vec<PathSegment> = Vec::new();
    let mut i: usize = 0;
    while i < pos
        invariant
            pos <= path@.len(),
            i <= pos,
            out@.len() == i,
            forall|j: int| 0 <= j < i ==> out@[j]@ == #[trigger] path@[j]@,
        decreases pos - i,
    {
        out.push(path[i].clone());
        i = i + 1;
    }
    proof {
        assert(segs_view(out@) =~= segs_view(path@).take(pos as int));
    }
    out
}

/// Applies one diff element's change at a node, descending the path from
/// position `pos`.
#[verifier::loop_isolation(false)]
fn patch_one(
    node: Node,
    path: &Vec<PathSegment>,
    pos: usize,
    before: &Vec<Node>,
    remove: &Vec<Node>,
    add: &Vec<Node>,
    after: &Vec<Node>,
    merge: bool,
) -> (r: Result<Node, PatchError>)
    requires
        pos <= path@.len(),
    ensures
        ({
            let s = patch_el(
                node@,
                segs_view(path@),
                pos as int,
                view_nodes(before@),
                view_nodes(remove@),
                view_nodes(add@),
                view_nodes(after@),
                merge,
            );
            match r {
                Ok(n) => s == Ok::<NodeV, Seq<char>>(n@),
                Err(e) => s is Err && s->Err_0 == e@,
            }
        }),
    decreases path@.len() - pos, 2int,
{
    broadcast use
        crate::node::lemma_view_nodes,
        crate::node::lemma_view_entries,
        crate::path::lemma_segs_view;

    let ghost pv = segs_view(path@);
    if pos < path.len() && merge {
        proof {
            assert(pv[pos as int] == path@[pos as int]@);
        }
        match &path[pos] {
            PathSegment::Key(key) => {
                match node {
                    Node::Object(entries_vec) => {
                        let node2 = Node::Object(entries_vec);
                        let ghost entries = view_entries(node2->Object_0@);
                        let found = crate::eq::lookup_entry(node2.get_object(), key);
                        let rest_empty = pos + 1 == path.len();
                        let existing = match found {
                            Some(idx) => clone_node(&node2.get_object()[idx].1),
                            None => if rest_empty {
                                Node::Void
                            } else {
                                Node::Object(Vec::new())
                            },
                        };
                        proof {
                            assert(view_entries(Seq::<(String, Node)>::empty()) =~= Seq::<
                                (Seq<char>, NodeV),
                            >::empty());
                        }
                        match patch_one(existing, path, pos + 1, before, remove, add, after, true) {
                            Ok(patched) => {
                                let removed = remove_entry(node2.into_object(), key);
                                let is_void = matches!(patched, Node::Void);
                                if is_void && rest_empty {
                                    let r = Node::Object(removed);
                                    proof {
                                        assert(patched@ is Void);
                                    }
                                    Ok(r)
                                } else {
                                    let key_c = key.clone_string();
                                    let out = crate::canon::insert_entry(removed, key_c, patched);
                                    Ok(Node::Object(out))
                                }
                            },
                            Err(e) => Err(e),
                        }
                    },
                    other => {
                        let seed = if pos + 1 == path.len() {
                            Node::Void
                        } else {
                            Node::Object(Vec::new())
                        };
                        proof {
                            assert(view_entries(Seq::<(String, Node)>::empty()) =~= Seq::<
                                (Seq<char>, NodeV),
                            >::empty());
                            assert(!(other@ is Obj)) by {
                                match other {
                                    Node::Object(_) => {
                                        assert(false);
                                    },
                                    _ => {
                                    },
                                }
                            }
                        }
                        match patch_one(seed, path, pos + 1, before, remove, add, after, true) {
                            Ok(patched) => {
                                let is_void = matches!(patched, Node::Void);
                                if !is_void || pos + 1 != path.len() {
                                    let key_c = key.clone_string();
                                    let out = crate::canon::insert_entry(
                                        Vec::new(),
                                        key_c,
                                        patched,
                                    );
                                    Ok(Node::Object(out))
                                } else {
                                    proof {
                                        assert(patched@ is Void);
                                    }
                                    Ok(Node::Object(Vec::new()))
                                }
                            },
                            Err(e) => Err(e),
                        }
                    },
                }
            },
            PathSegment::Index(_) => {
                Err(expected_collection_error(&node, path, pos))
            },
        }
    } else {
        match node {
            Node::Array(list) => {
                if merge {
                    patch_scalar_exec(Node::Array(list), path, pos, remove, add, merge)
                } else {
                    patch_list_exec(list, path, pos, before, remove, add, after)
                }
            },
            Node::Object(entries) => {
                patch_object_exec(entries, path, pos, remove, add, merge)
            },
            other => {
                if pos < path.len() {
                    proof {
                        assert(pv[pos as int] == path@[pos as int]@);
                    }
                    Err(expected_collection_error(&other, path, pos))
                } else {
                    patch_scalar_exec(other, path, pos, remove, add, merge)
                }
            },
        }
    }
}

impl Node {
    /// The entries of an object node.
    fn get_object(&self) -> (r: &Vec<(String, Node)>)
        requires
            self is Object,
        ensures
            r == self->Object_0,
    {
        match self {
            Node::Object(entries) => entries,
            _ => {
                proof {
                    assert(false);
                }
                unreached()
            },
        }
    }

    /// The entries of an object node, owned.
    fn into_object(self) -> (r: Vec<(String, Node)>)
        requires
            self is Object,
        ensures
            r == self->Object_0,
    {
        match self {
            Node::Object(entries) => entries,
            _ => {
                proof {
                    assert(false);
                }
                unreached()
            },
        }
    }
}

/// Removes the first entry with the given key from an entry vector.
#[verifier::loop_isolation(false)]
fn remove_entry(entries: Vec<(String, Node)>, key: &String) -> (r: Vec<(String, Node)>)
    ensures
        view_entries(r@) == obj_remove(view_entries(entries@), key@),
{
    broadcast use crate::node::lemma_view_entries;

    let ghost vs = view_entries(entries@);
    let found = crate::eq::lookup_entry(&entries, key);
    match found {
        Some(idx) => {
            let mut out = entries;
            let ghost pre = out@;
            let _ = out.remove(idx);
            proof {
                lemma_obj_remove_at(vs, key@, idx as int);
                assert(view_entries(pre.remove(idx as int)) =~= vs.remove(idx as int));
            }
            out
        },
        None => {
            proof {
                lemma_obj_remove_missing(vs, key@);
            }
            entries
        },
    }
}

/// Removing at the first matching index drops exactly that entry.
proof fn lemma_obj_remove_at(vs: Seq<(Seq<char>, NodeV)>, key: Seq<char>, idx: int)
    requires
        0 <= idx < vs.len(),
        vs[idx].0 == key,
        obj_lookup(vs, key) == Some(vs[idx].1),
        forall|j: int| 0 <= j < idx ==> (#[trigger] vs[j]).0 != key,
    ensures
        obj_remove(vs, key) == vs.remove(idx),
    decreases idx,
{
    if idx == 0 {
        assert(obj_remove(vs, key) == vs.drop_first());
        assert(vs.drop_first() =~= vs.remove(0));
    } else {
        assert(vs[0].0 != key);
        let rest = vs.drop_first();
        assert(forall|j: int| 0 <= j < idx - 1 ==> (#[trigger] rest[j]).0 != key) by {
            assert(forall|j: int|
                0 <= j < idx - 1 ==> rest[j] == vs[j + 1] && (#[trigger] vs[j + 1]).0 != key);
        }
        assert(rest[idx - 1] == vs[idx]);
        crate::eq::lemma_lookup_skip_public(rest, key, idx - 1);
        lemma_obj_remove_at(rest, key, idx - 1);
        assert(obj_remove(vs, key) == seq![vs[0]] + rest.remove(idx - 1));
        assert(seq![vs[0]] + rest.remove(idx - 1) =~= vs.remove(idx));
    }
}

/// Removing a missing key changes nothing.
proof fn lemma_obj_remove_missing(vs: Seq<(Seq<char>, NodeV)>, key: Seq<char>)
    requires
        obj_lookup(vs, key) is None,
    ensures
        obj_remove(vs, key) == vs,
    decreases vs.len(),
{
    if vs.len() > 0 {
        assert(vs[0].0 != key);
        lemma_obj_remove_missing(vs.drop_first(), key);
        assert(seq![vs[0]] + vs.drop_first() =~= vs);
    }
}

/// The strict (or path-consumed merge) step at a scalar.
fn patch_scalar_exec(
    node: Node,
    path: &Vec<PathSegment>,
    pos: usize,
    remove: &Vec<Node>,
    add: &Vec<Node>,
    merge: bool,
) -> (r: Result<Node, PatchError>)
    requires
        pos <= path@.len(),
    ensures
        ({
            let s = patch_scalar_s(
                node@,
                segs_view(path@),
                pos as int,
                view_nodes(remove@),
                view_nodes(add@),
                merge,
            );
            match r {
                Ok(n) => s == Ok::<NodeV, Seq<char>>(n@),
                Err(e) => s is Err && s->Err_0 == e@,
            }
        }),
{
    broadcast use crate::node::lemma_view_nodes, crate::path::lemma_segs_view;

    let ghost pv = segs_view(path@);
    if pos < path.len() {
        proof {
            assert(pv[pos as int] == path@[pos as int]@);
        }
        return Err(expected_collection_error(&node, path, pos));
    }
    if remove.len() > 1 || add.len() > 1 {
        return Err(non_set_diff_error(remove.len() > 1, path, pos));
    }
    let old_value = if remove.len() == 1 {
        clone_node(&remove[0])
    } else {
        Node::Void
    };
    let new_value = if add.len() == 1 {
        clone_node(&add[0])
    } else {
        Node::Void
    };
    proof {
        if remove@.len() == 1 {
            assert(view_nodes(remove@)[0] == remove@[0]@);
        }
        if add@.len() == 1 {
            assert(view_nodes(add@)[0] == add@[0]@);
        }
    }
    if merge {
        let is_void = matches!(old_value, Node::Void);
        if !is_void {
            let mut msg = String::new();
            msg.append("patch with merge strategy at ");
            let prefix = path_prefix(path, pos);
            push_path_display(&mut msg, prefix.as_slice());
            msg.append(" has unnecessary old value ");
            push_json(&mut msg, &old_value);
            proof {
                assert(msg@ =~= "patch with merge strategy at "@ + path_display(
                    pv.take(pos as int),
                ) + " has unnecessary old value "@ + json_text(old_value@));
            }
            return Err(PatchError::new(msg));
        }
        proof {
            assert(old_value@ is Void);
        }
        Ok(new_value)
    } else {
        if !nodes_equal(&node, &old_value) {
            return Err(expect_value_error(&old_value, &node, path, pos));
        }
        Ok(new_value)
    }
}

/// The step at an object: replacement at the end of the path, or descent
/// into the named child.
#[verifier::loop_isolation(false)]
fn patch_object_exec(
    entries: Vec<(String, Node)>,
    path: &Vec<PathSegment>,
    pos: usize,
    remove: &Vec<Node>,
    add: &Vec<Node>,
    merge: bool,
) -> (r: Result<Node, PatchError>)
    requires
        pos <= path@.len(),
    ensures
        ({
            let s = patch_obj_s(
                view_entries(entries@),
                segs_view(path@),
                pos as int,
                view_nodes(remove@),
                view_nodes(add@),
                merge,
            );
            match r {
                Ok(n) => s == Ok::<NodeV, Seq<char>>(n@),
                Err(e) => s is Err && s->Err_0 == e@,
            }
        }),
    decreases path@.len() - pos, 1int,
{
    broadcast use
        crate::node::lemma_view_nodes,
        crate::node::lemma_view_entries,
        crate::path::lemma_segs_view;

    let ghost pv = segs_view(path@);
    let ghost vs = view_entries(entries@);
    if pos == path.len() {
        if remove.len() > 1 || add.len() > 1 {
            return Err(non_set_diff_error(remove.len() > 1, path, pos));
        }
        let new_value = if add.len() == 1 {
            clone_node(&add[0])
        } else {
            Node::Void
        };
        proof {
            if add@.len() == 1 {
                assert(view_nodes(add@)[0] == add@[0]@);
            }
        }
        if merge {
            return Ok(new_value);
        }
        let old_value = if remove.len() == 1 {
            clone_node(&remove[0])
        } else {
            Node::Void
        };
        proof {
            if remove@.len() == 1 {
                assert(view_nodes(remove@)[0] == remove@[0]@);
            }
        }
        let current = Node::Object(entries);
        if !nodes_equal(&current, &old_value) {
            return Err(expect_value_error(&old_value, &current, path, pos));
        }
        return Ok(new_value);
    }
    proof {
        assert(pv[pos as int] == path@[pos as int]@);
    }
    match &path[pos] {
        PathSegment::Key(key) => {
            let found = crate::eq::lookup_entry(&entries, key);
            let next = match found {
                Some(idx) => clone_node(&entries[idx].1),
                None => if merge && pos + 1 < path.len() {
                    Node::Object(Vec::new())
                } else {
                    Node::Void
                },
            };
            proof {
                assert(view_entries(Seq::<(String, Node)>::empty()) =~= Seq::<
                    (Seq<char>, NodeV),
                >::empty());
            }
            let empty_b: Vec<Node> = Vec::new();
            let empty_a: Vec<Node> = Vec::new();
            match patch_one(next, path, pos + 1, &empty_b, remove, add, &empty_a, merge) {
                Ok(patched) => {
                    proof {
                        assert(view_nodes(Seq::<Node>::empty()) =~= Seq::<NodeV>::empty());
                    }
                    let is_void = matches!(patched, Node::Void);
                    if is_void {
                        proof {
                            assert(patched@ is Void);
                        }
                        let out = remove_entry(entries, key);
                        Ok(Node::Object(out))
                    } else {
                        let key_c = key.clone_string();
                        let out = crate::canon::insert_entry(entries, key_c, patched);
                        Ok(Node::Object(out))
                    }
                },
                Err(e) => {
                    proof {
                        assert(view_nodes(Seq::<Node>::empty()) =~= Seq::<NodeV>::empty());
                    }
                    Err(e)
                },
            }
        },
        PathSegment::Index(_) => {
            let current = Node::Object(entries);
            let mut msg = String::new();
            msg.append("found ");
            push_json(&mut msg, &current);
            msg.append(" at ");
            let prefix = path_prefix(path, pos);
            push_path_display(&mut msg, prefix.as_slice());
            msg.append(": expected JSON object");
            proof {
                assert(msg@ =~= "found "@ + json_text(NodeV::Obj(vs)) + " at "@ + path_display(
                    pv.take(pos as int),
                ) + ": expected JSON object"@);
            }
            Err(PatchError::new(msg))
        },
    }
}

/// The strict step at an array: whole-list replacement, descent, append,
/// or a context-validated removal and insertion.
#[verifier::loop_isolation(false)]
fn patch_list_exec(
    list: Vec<Node>,
    path: &Vec<PathSegment>,
    pos: usize,
    before: &Vec<Node>,
    remove: &Vec<Node>,
    add: &Vec<Node>,
    after: &Vec<Node>,
) -> (r: Result<Node, PatchError>)
    requires
        pos <= path@.len(),
    ensures
        ({
            let s = patch_list_s(
                view_nodes(list@),
                segs_view(path@),
                pos as int,
                view_nodes(before@),
                view_nodes(remove@),
                view_nodes(add@),
                view_nodes(after@),
            );
            match r {
                Ok(n) => s == Ok::<NodeV, Seq<char>>(n@),
                Err(e) => s is Err && s->Err_0 == e@,
            }
        }),
    decreases path@.len() - pos, 1int,
{
    broadcast use crate::node::lemma_view_nodes, crate::path::lemma_segs_view;

    let ghost pv = segs_view(path@);
    let ghost lv = view_nodes(list@);
    if pos == path.len() {
        if remove.len() > 1 || add.len() > 1 {
            let mut msg = String::new();
            msg.append("cannot replace list with multiple values");
            return Err(PatchError::new(msg));
        }
        if remove.len() == 0 {
            let mut msg = String::new();
            msg.append("invalid diff. must declare list to replace it");
            return Err(PatchError::new(msg));
        }
        let wanted = &remove[0];
        let current = Node::Array(list);
        proof {
            assert(view_nodes(remove@)[0] == remove@[0]@);
        }
        if !nodes_equal(&current, wanted) {
            let mut msg = String::new();
            msg.append("wanted ");
            push_json(&mut msg, wanted);
            msg.append(". found ");
            push_json(&mut msg, &current);
            proof {
                assert(msg@ =~= "wanted "@ + json_text(remove@[0]@) + ". found "@ + json_text(
                    NodeV::Arr(lv),
                ));
            }
            return Err(PatchError::new(msg));
        }
        if add.len() == 0 {
            return Ok(Node::Void);
        }
        proof {
            assert(view_nodes(add@)[0] == add@[0]@);
        }
        return Ok(clone_node(&add[0]));
    }
    proof {
        assert(pv[pos as int] == path@[pos as int]@);
    }
    let raw_index: i64 = match &path[pos] {
        PathSegment::Index(i) => *i,
        PathSegment::Key(_) => {
            let mut msg = String::new();
            msg.append("invalid path element string: expected float64");
            return Err(PatchError::new(msg));
        },
    };
    if pos + 1 < path.len() {
        if raw_index < 0 || (raw_index as u64) >= (list.len() as u64) {
            let mut msg = String::new();
            msg.append("patch index out of bounds: ");
            crate::jsontext::push_dec_i64(&mut msg, raw_index);
            return Err(PatchError::new(msg));
        }
        let idx = raw_index as usize;
        let child = clone_node(&list[idx]);
        proof {
            assert(view_nodes(Seq::<Node>::empty()) =~= Seq::<NodeV>::empty());
            assert(lv[idx as int] == list@[idx as int]@);
        }
        let empty_b: Vec<Node> = Vec::new();
        let empty_a: Vec<Node> = Vec::new();
        match patch_one(child, path, pos + 1, &empty_b, remove, add, &empty_a, false) {
            Ok(patched) => {
                let mut out = list;
                let ghost pre = out@;
                let _ = out.remove(idx);
                out.insert(idx, patched);
                proof {
                    assert(view_nodes(out@) =~= lv.update(idx as int, patched@));
                }
                Ok(Node::Array(out))
            },
            Err(e) => Err(e),
        }
    } else {
        if raw_index == -1 {
            if remove.len() != 0 {
                let mut msg = String::new();
                msg.append("invalid patch. appending to -1 index. but want to remove values");
                return Err(PatchError::new(msg));
            }
            let end = list.len();
            let out = splice_exec(list, end, add);
            proof {
                assert(splice(lv, lv.len() as int, view_nodes(add@)) =~= lv + view_nodes(add@));
            }
            return Ok(Node::Array(out));
        }
        if raw_index < 0 {
            let mut msg = String::new();
            msg.append("patch index out of bounds: ");
            crate::jsontext::push_dec_i64(&mut msg, raw_index);
            return Err(PatchError::new(msg));
        }
        if (raw_index as u64) > (usize::MAX as u64) {
            // The index exceeds any representable list: the interpreter
            // rejects, whatever the contexts say.
            let mut msg = String::new();
            msg.append("patch index out of bounds: ");
            crate::jsontext::push_dec_i64(&mut msg, raw_index);
            return Err(PatchError::new(msg));
        }
        let idx = raw_index as usize;
        proof {
            assert(idx == raw_index as int);
        }
        match check_before(&list, before, idx) {
            Ok(()) => {
            },
            Err(e) => {
                return Err(e);
            },
        }
        let working = match pop_removals(list, idx, remove) {
            Ok(w) => w,
            Err(e) => {
                return Err(e);
            },
        };
        if idx > working.len() {
            let mut msg = String::new();
            msg.append("remove values out bounds: ");
            crate::jsontext::push_dec_i64(&mut msg, raw_index);
            return Err(PatchError::new(msg));
        }
        match check_after(&working, after, idx) {
            Ok(()) => {
            },
            Err(e) => {
                return Err(e);
            },
        }
        let result = splice_exec(working, idx, add);
        Ok(Node::Array(result))
    }
}

/// Validates the before context against the original list.
#[verifier::loop_isolation(false)]
fn check_before(list: &Vec<Node>, before: &Vec<Node>, idx: usize) -> (r: Result<(), PatchError>)
    ensures
        ({
            let s = before_check(view_nodes(list@), view_nodes(before@), idx as int, 0);
            match r {
                Ok(()) => s is Ok,
                Err(e) => s is Err && s->Err_0 == e@,
            }
        }),
{
    broadcast use crate::node::lemma_view_nodes;

    let ghost lv = view_nodes(list@);
    let ghost bv = view_nodes(before@);
    let ghost idxi = idx as int;
    let mut o: usize = 0;
    while o < before.len()
        invariant
            o <= before@.len(),
            before_check(lv, bv, idxi, 0) == before_check(lv, bv, idxi, o as int),
        decreases before@.len() - o,
    {
        proof {
            assert(bv[o as int] == before@[o as int]@);
        }
        let distance = before.len() - o;
        if idx < distance {
            let under = distance - idx;
            // Off the start: only a lone Void immediately before index 0.
            let is_void = matches!(&before[o], Node::Void);
            if under == 1 && is_void {
            } else {
                let mut msg = String::new();
                msg.append("invalid patch. before context ");
                push_json(&mut msg, &before[o]);
                msg.append(" out of bounds: ");
                msg.append("-");
                push_dec_usize(&mut msg, under);
                proof {
                    let ci = idxi - (bv.len() - o);
                    assert(ci < 0);
                    assert((-ci) as nat == (distance - idx) as nat);
                    assert(dec_int(ci) == "-"@ + crate::jsontext::dec_nat(
                        (distance - idx) as nat,
                    ));
                    assert(msg@ =~= before_check(lv, bv, idxi, o as int)->Err_0);
                }
                return Err(PatchError::new(msg));
            }
        } else {
            let check_index = idx - distance;
            if check_index >= list.len() {
                let mut msg = String::new();
                msg.append("invalid patch. before context ");
                push_json(&mut msg, &before[o]);
                msg.append(" out of bounds: ");
                push_dec_usize(&mut msg, check_index);
                proof {
                    assert(msg@ =~= before_check(lv, bv, idxi, o as int)->Err_0);
                }
                return Err(PatchError::new(msg));
            }
            proof {
                assert(lv[check_index as int] == list@[check_index as int]@);
            }
            if !nodes_equal(&list[check_index], &before[o]) {
                let mut msg = String::new();
                msg.append("invalid patch. expected ");
                push_json(&mut msg, &before[o]);
                msg.append(" before. got ");
                push_json(&mut msg, &list[check_index]);
                proof {
                    assert(msg@ =~= before_check(lv, bv, idxi, o as int)->Err_0);
                }
                return Err(PatchError::new(msg));
            }
        }
        o = o + 1;
    }
    Ok(())
}

/// Pops the expected removals at the index, validating each.
#[verifier::loop_isolation(false)]
fn pop_removals(list: Vec<Node>, idx: usize, remove: &Vec<Node>) -> (r: Result<
    Vec<Node>,
    PatchError,
>)
    ensures
        ({
            let s = remove_seq(view_nodes(list@), idx as int, view_nodes(remove@));
            match r {
                Ok(w) => s == Ok::<Seq<NodeV>, Seq<char>>(view_nodes(w@)),
                Err(e) => s is Err && s->Err_0 == e@,
            }
        }),
{
    broadcast use crate::node::lemma_view_nodes;

    let ghost lv = view_nodes(list@);
    let ghost rv = view_nodes(remove@);
    let ghost idxi = idx as int;
    let mut working = list;
    let mut k: usize = 0;
    proof {
        assert(rv.skip(0) =~= rv);
    }
    while k < remove.len()
        invariant
            k <= remove@.len(),
            remove_seq(lv, idxi, rv) == remove_seq(view_nodes(working@), idxi, rv.skip(k as int)),
        decreases remove@.len() - k,
    {
        proof {
            assert(rv.skip(k as int)[0] == rv[k as int]);
            assert(rv[k as int] == remove@[k as int]@);
        }
        if idx >= working.len() {
            let mut msg = String::new();
            msg.append("remove values out bounds: ");
            push_dec_usize(&mut msg, idx);
            proof {
                assert(remove_seq(view_nodes(working@), idxi, rv.skip(k as int)) is Err);
                assert(msg@ =~= remove_seq(view_nodes(working@), idxi, rv.skip(k as int))->Err_0);
            }
            return Err(PatchError::new(msg));
        }
        proof {
            assert(view_nodes(working@)[idxi] == working@[idxi]@);
        }
        if !nodes_equal(&working[idx], &remove[k]) {
            let mut msg = String::new();
            msg.append("invalid patch. wanted ");
            push_json(&mut msg, &remove[k]);
            msg.append(". found ");
            push_json(&mut msg, &working[idx]);
            proof {
                assert(remove_seq(view_nodes(working@), idxi, rv.skip(k as int)) is Err);
                assert(msg@ =~= remove_seq(view_nodes(working@), idxi, rv.skip(k as int))->Err_0);
            }
            return Err(PatchError::new(msg));
        }
        let ghost wpre = view_nodes(working@);
        let _ = working.remove(idx);
        proof {
            assert(view_nodes(working@) =~= wpre.remove(idxi));
            assert(rv.skip(k as int).drop_first() =~= rv.skip(k + 1 as int));
        }
        k = k + 1;
    }
    proof {
        assert(rv.skip(remove@.len() as int) =~= Seq::<NodeV>::empty());
    }
    Ok(working)
}

/// Validates the after context against the worked list.
#[verifier::loop_isolation(false)]
fn check_after(working: &Vec<Node>, after: &Vec<Node>, idx: usize) -> (r: Result<(), PatchError>)
    ensures
        ({
            let s = after_check(view_nodes(working@), view_nodes(after@), idx as int, 0);
            match r {
                Ok(()) => s is Ok,
                Err(e) => s is Err && s->Err_0 == e@,
            }
        }),
{
    broadcast use crate::node::lemma_view_nodes;

    let ghost wv = view_nodes(working@);
    let ghost av = view_nodes(after@);
    let ghost idxi = idx as int;
    let mut o: usize = 0;
    while o < after.len()
        invariant
            o <= after@.len(),
            after_check(wv, av, idxi, 0) == after_check(wv, av, idxi, o as int),
        decreases after@.len() - o,
    {
        proof {
            assert(av[o as int] == after@[o as int]@);
        }
        let check_big: u128 = (idx as u128) + (o as u128);
        if check_big >= working.len() as u128 {
            let is_void = matches!(&after[o], Node::Void);
            if check_big == working.len() as u128 && is_void {
            } else {
                let mut msg = String::new();
                msg.append("invalid patch. after context ");
                push_json(&mut msg, &after[o]);
                msg.append(" out of bounds: ");
                push_dec_u128(&mut msg, check_big);
                proof {
                    assert(dec_int(idxi + o) =~= crate::jsontext::dec_nat((idxi + o) as nat));
                    assert(msg@ =~= after_check(wv, av, idxi, o as int)->Err_0);
                }
                return Err(PatchError::new(msg));
            }
        } else {
            let check_index = idx + o;
            proof {
                assert(wv[check_index as int] == working@[check_index as int]@);
            }
            if !nodes_equal(&working[check_index], &after[o]) {
                let mut msg = String::new();
                msg.append("invalid patch. expected ");
                push_json(&mut msg, &after[o]);
                msg.append(" after. got ");
                push_json(&mut msg, &working[check_index]);
                proof {
                    assert(msg@ =~= after_check(wv, av, idxi, o as int)->Err_0);
                }
                return Err(PatchError::new(msg));
            }
        }
        o = o + 1;
    }
    Ok(())
}

/// Rebuilds the list with the additions inserted at the index (an index at
/// or beyond the end appends).
#[verifier::loop_isolation(false)]
fn splice_exec(working: Vec<Node>, idx: usize, add: &Vec<Node>) -> (r: Vec<Node>)
    ensures
        ({
            let cut = if idx <= working@.len() {
                idx as int
            } else {
                working@.len() as int
            };
            view_nodes(r@) == splice(view_nodes(working@), cut, view_nodes(add@))
        }),
{
    broadcast use crate::node::lemma_view_nodes;

    let ghost wv = view_nodes(working@);
    let cut = if idx <= working.len() {
        idx
    } else {
        working.len()
    };
    let ghost cuti = cut as int;
    let mut result: Vec<Node> = Vec::new();
    let mut t: usize = 0;
    proof {
        assert(view_nodes(result@) =~= wv.take(0));
    }
    while t < cut
        invariant
            t <= cut,
            cut <= working@.len(),
            wv == view_nodes(working@),
            view_nodes(result@) =~= wv.take(t as int),
        decreases cut - t,
    {
        proof {
            assert(wv[t as int] == working@[t as int]@);
        }
        let ghost pre = result@;
        result.push(clone_node(&working[t]));
        proof {
            assert(view_nodes(result@) =~= view_nodes(pre).push(working@[t as int]@));
            assert(view_nodes(result@) =~= wv.take(t + 1 as int));
        }
        t = t + 1;
    }
    let mut u: usize = 0;
    proof {
        assert(view_nodes(add@).take(0) =~= Seq::<NodeV>::empty());
        assert(view_nodes(result@) =~= wv.take(cuti) + view_nodes(add@).take(0));
    }
    while u < add.len()
        invariant
            u <= add@.len(),
            cut <= working@.len(),
            wv == view_nodes(working@),
            view_nodes(result@) =~= wv.take(cuti) + view_nodes(add@).take(u as int),
        decreases add@.len() - u,
    {
        proof {
            assert(view_nodes(add@)[u as int] == add@[u as int]@);
        }
        let ghost pre = result@;
        result.push(clone_node(&add[u]));
        proof {
            assert(view_nodes(result@) =~= view_nodes(pre).push(add@[u as int]@));
            assert(view_nodes(add@).take(u + 1 as int) =~= view_nodes(add@).take(u as int).push(
                view_nodes(add@)[u as int],
            ));
            assert(view_nodes(result@) =~= wv.take(cuti) + view_nodes(add@).take(u + 1 as int));
        }
        u = u + 1;
    }
    proof {
        assert(view_nodes(add@).take(add@.len() as int) =~= view_nodes(add@));
    }
    let mut w: usize = cut;
    proof {
        assert(wv.skip(cuti).take(0) =~= Seq::<NodeV>::empty());
        assert(view_nodes(result@) =~= wv.take(cuti) + view_nodes(add@) + wv.skip(cuti).take(0));
    }
    while w < working.len()
        invariant
            cut <= w <= working@.len(),
            wv == view_nodes(working@),
            view_nodes(result@) =~= wv.take(cuti) + view_nodes(add@) + wv.skip(cuti).take(
                w - cuti,
            ),
        decreases working@.len() - w,
    {
        proof {
            assert(wv[w as int] == working@[w as int]@);
        }
        let ghost pre = result@;
        result.push(clone_node(&working[w]));
        proof {
            assert(view_nodes(result@) =~= view_nodes(pre).push(working@[w as int]@));
            assert(wv.skip(cuti).take(w + 1 - cuti) =~= wv.skip(cuti).take(w - cuti).push(
                wv[w as int],
            ));
            assert(view_nodes(result@) =~= wv.take(cuti) + view_nodes(add@) + wv.skip(cuti).take(
                w + 1 - cuti,
            ));
        }
        w = w + 1;
    }
    proof {
        assert(wv.skip(cuti).take(wv.len() - cuti) =~= wv.skip(cuti));
        assert(view_nodes(result@) =~= splice(wv, cuti, view_nodes(add@)));
    }
    result
}

/// Appends the decimal text of an unsigned size.
fn push_dec_usize(out: &mut String, n: usize)
    ensures
        final(out)@ == old(out)@ + crate::jsontext::dec_nat(n as nat),
{
    crate::jsontext::push_dec_u64(out, n as u64);
}

/// Appends the decimal text of a wide unsigned value.
fn push_dec_u128(out: &mut String, n: u128)
    ensures
        final(out)@ == old(out)@ + crate::jsontext::dec_nat(n as nat),
    decreases n,
{
    if n < 10 {
        push_dec_usize(out, n as usize);
    } else {
        push_dec_u128(out, n / 10);
        push_dec_usize(out, (n % 10) as usize);
    }
}

} // verus!
