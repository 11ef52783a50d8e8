//! The RFC 6902 JSON Patch renderer and the RFC 7386 merge patch renderer.
//!
//! A diff element becomes a run of `test`, `remove` and `add` operations
//! over JSON Pointers; additions are emitted in reverse so that consecutive
//! adds at one pointer land in source order under insert-before semantics.
//! The merge renderer rewrites deletions to `null` and applies the diff to
//! a void base with the patch engine's merge strategy.
use crate::dtypes::{lemma_view_elems, Diff, DiffElement, ElemV, RenderError};
use crate::jsontext::{dec_int, json_text, push_dec_i64, push_json, push_quoted, quoted};
use crate::node::{clone_node, view_nodes, Node, NodeV};
use crate::patch::apply_spec;
use crate::path::{Path, PathSegment, SegV};
use crate::strutil::CloneString;
use vstd::prelude::*;
use vstd::string::{StrSliceExecFns, StringExecFns};

verus! {

/// An RFC 6902 operation kind.
pub enum OpV {
    /// A `test` operation.
    Test,
    /// A `remove` operation.
    Remove,
    /// An `add` operation.
    Add,
}

/// A value contains no `Void` anywhere, so it can be encoded as JSON.
pub open spec fn no_void(v: NodeV) -> bool
    decreases v,
{
    match v {
        NodeV::Void => false,
        NodeV::Arr(items) => forall|i: int| 0 <= i < items.len() ==> no_void(#[trigger] items[i]),
        NodeV::Obj(entries) => forall|i: int|
            0 <= i < entries.len() ==> no_void(#[trigger] entries[i].1),
        _ => true,
    }
}

/// Tests whether a node contains any `Void`.
#[verifier::loop_isolation(false)]
pub fn contains_void(n: &Node) -> (r: bool)
    ensures
        r == !no_void(n@),
    decreases *n,
{
    broadcast use crate::node::lemma_view_nodes, crate::node::lemma_view_entries;

    match n {
        Node::Void => true,
        Node::Array(items) => {
            let ghost vs = view_nodes(items@);
            let mut i: usize = 0;
            while i < items.len()
                invariant
                    i <= items@.len(),
                    forall|j: int| 0 <= j < i ==> no_void(#[trigger] vs[j]),
                decreases items@.len() - i,
            {
                proof {
                    assert(decreases_to!(*n => n->Array_0));
                    assert(n->Array_0 == *items);
                    assert(decreases_to!(*items => items@));
                    assert(decreases_to!(items@ => items@[i as int]));
                }
                if contains_void(&items[i]) {
                    proof {
                        let v = n@;
                        assert(v->Arr_0 == vs);
                        assert(!no_void(v->Arr_0[i as int]));
                    }
                    return true;
                }
                i = i + 1;
            }
            proof {
                assert(n@ == NodeV::Arr(vs));
            }
            false
        },
        Node::Object(entries) => {
            let ghost vs = crate::node::view_entries(entries@);
            let mut i: usize = 0;
            while i < entries.len()
                invariant
                    i <= entries@.len(),
                    forall|j: int| 0 <= j < i ==> no_void((#[trigger] vs[j]).1),
                decreases entries@.len() - i,
            {
                proof {
                    assert(decreases_to!(*n => n->Object_0));
                    assert(n->Object_0 == *entries);
                    assert(decreases_to!(*entries => entries@));
                    assert(decreases_to!(entries@ => entries@[i as int]));
                    assert(decreases_to!(entries@[i as int] => entries@[i as int].1));
                }
                if contains_void(&entries[i].1) {
                    proof {
                        let v = n@;
                        assert(v->Obj_0 == vs);
                        assert(!no_void(v->Obj_0[i as int].1));
                    }
                    return true;
                }
                i = i + 1;
            }
            proof {
                assert(n@ == NodeV::Obj(vs));
            }
            false
        },
        _ => false,
    }
}

/// All characters are decimal digits.
pub open spec fn all_digits(s: Seq<char>) -> bool {
    forall|i: int| 0 <= i < s.len() ==> '0' <= #[trigger] s[i] && s[i] <= '9'
}

/// The numeric value of a digit sequence.
pub open spec fn digits_val(s: Seq<char>) -> nat
    decreases s.len(),
{
    if s.len() == 0 {
        0
    } else {
        (digits_val(s.drop_last()) * 10 + (s.last() as nat - '0' as nat)) as nat
    }
}

/// The key parses as a 64-bit signed integer: an optional sign, at least
/// one digit, and a value within bounds. Such keys are rejected when
/// rendering JSON Pointers.
pub open spec fn is_int_key(s: Seq<char>) -> bool {
    let negative = s.len() > 0 && s[0] == '-';
    let signed = s.len() > 0 && (s[0] == '-' || s[0] == '+');
    let body = if signed {
        s.drop_first()
    } else {
        s
    };
    &&& body.len() > 0
    &&& all_digits(body)
    &&& (if negative {
        digits_val(body) <= 0x8000000000000000
    } else {
        digits_val(body) <= 0x7FFFFFFFFFFFFFFF
    })
}

/// The pointer escape of one key character.
pub open spec fn ptr_esc_char(c: char) -> Seq<char> {
    if c == '~' {
        "~0"@
    } else if c == '/' {
        "~1"@
    } else {
        seq![c]
    }
}

/// The pointer escape of a whole key.
pub open spec fn ptr_esc(s: Seq<char>) -> Seq<char>
    decreases s.len(),
{
    if s.len() == 0 {
        Seq::empty()
    } else {
        ptr_esc(s.drop_last()) + ptr_esc_char(s.last())
    }
}

/// The pointer text of one segment, or the rejection's message.
pub open spec fn ptr_seg(seg: SegV) -> Result<Seq<char>, Seq<char>> {
    match seg {
        SegV::Index(i) => Ok(
            if i == -1 {
                "-"@
            } else {
                dec_int(i as int)
            },
        ),
        SegV::Key(k) => if is_int_key(k) {
            Err("JSON Pointer does not support object keys that look like numbers: "@ + k)
        } else if k == "-"@ {
            Err("JSON Pointer does not support object key '-'"@)
        } else {
            Ok(ptr_esc(k))
        },
    }
}

/// The JSON Pointer of a path: slash-separated escaped segments, or the
/// first segment's rejection.
pub open spec fn pointer_of(segs: Seq<SegV>) -> Result<Seq<char>, Seq<char>>
    decreases segs.len(),
{
    if segs.len() == 0 {
        Ok(Seq::empty())
    } else {
        match pointer_of(segs.drop_last()) {
            Ok(front) => match ptr_seg(segs.last()) {
                Ok(t) => Ok(front + "/"@ + t),
                Err(m) => Err(m),
            },
            Err(m) => Err(m),
        }
    }
}

/// A rejected prefix rejects the whole pointer.
proof fn lemma_pointer_prefix_err(segs: Seq<SegV>, n: int)
    requires
        0 <= n <= segs.len(),
        pointer_of(segs.take(n)) is Err,
    ensures
        pointer_of(segs) == pointer_of(segs.take(n)),
    decreases segs.len() - n,
{
    if n == segs.len() {
        assert(segs.take(n) =~= segs);
    } else {
        assert(segs.take(n + 1).drop_last() =~= segs.take(n));
        lemma_pointer_prefix_err(segs, n + 1);
    }
}

/// A pointer that renders whole renders on every prefix.
proof fn lemma_pointer_prefix_ok(segs: Seq<SegV>, n: int)
    requires
        0 <= n <= segs.len(),
        pointer_of(segs) is Ok,
    ensures
        pointer_of(segs.take(n)) is Ok,
    decreases segs.len() - n,
{
    if n == segs.len() {
        assert(segs.take(n) =~= segs);
    } else {
        lemma_pointer_prefix_ok(segs, n + 1);
        assert(segs.take(n + 1).drop_last() =~= segs.take(n));
    }
}

/// The operations one diff element contributes, or the first rejection.
pub open spec fn elem_ops(e: ElemV) -> Result<Seq<(OpV, Seq<char>, NodeV)>, Seq<char>> {
    if e.remove.len() == 0 && e.add.len() == 0 {
        Err("cannot render empty diff element as JSON Patch op"@)
    } else {
        match pointer_of(e.path) {
            Ok(ptr) => {
                match before_ops(e) {
                    Ok(b_ops) => match after_ops(e) {
                        Ok(a_ops) => match remove_ops(e, ptr) {
                            Ok(r_ops) => match add_ops(e.add, ptr, e.add.len() as int) {
                                Ok(ad_ops) => Ok(b_ops + a_ops + r_ops + ad_ops),
                                Err(m) => Err(m),
                            },
                            Err(m) => Err(m),
                        },
                        Err(m) => Err(m),
                    },
                    Err(m) => Err(m),
                }
            },
            Err(m) => Err(m),
        }
    }
}

/// The test operation for the before context, if any.
pub open spec fn before_ops(e: ElemV) -> Result<Seq<(OpV, Seq<char>, NodeV)>, Seq<char>> {
    if e.before.len() > 1 {
        Err(
            "only one line of before context supported. got "@ + crate::jsontext::dec_nat(
                e.before.len(),
            ),
        )
    } else if e.before.len() == 1 && !(e.before[0] is Void) {
        if e.path.len() == 0 {
            Err("expected path. got empty path"@)
        } else {
            match e.path.last() {
                SegV::Index(i) => if i == i64::MIN {
                    Err("path index out of range"@)
                } else if !no_void(e.before[0]) {
                    Err("cannot encode void value in JSON Patch"@)
                } else {
                    match pointer_of(e.path.drop_last().push(SegV::Index((i - 1) as i64))) {
                        Ok(p) => Ok(seq![(OpV::Test, p, e.before[0])]),
                        Err(m) => Err(m),
                    }
                },
                SegV::Key(_) => Err("wanted path index. got object key"@),
            }
        }
    } else {
        Ok(Seq::empty())
    }
}

/// The test operation for the after context, if any.
pub open spec fn after_ops(e: ElemV) -> Result<Seq<(OpV, Seq<char>, NodeV)>, Seq<char>> {
    if e.after.len() > 1 {
        Err(
            "only one line of after context supported. got "@ + crate::jsontext::dec_nat(
                e.after.len(),
            ),
        )
    } else if e.after.len() == 1 && !(e.after[0] is Void) {
        if e.path.len() == 0 {
            Err("expected path. got empty path"@)
        } else {
            match e.path.last() {
                SegV::Index(i) => if i + e.remove.len() > i64::MAX {
                    Err("path index out of range"@)
                } else if !no_void(e.after[0]) {
                    Err("cannot encode void value in JSON Patch"@)
                } else {
                    match pointer_of(
                        e.path.drop_last().push(SegV::Index((i + e.remove.len()) as i64)),
                    ) {
                        Ok(p) => Ok(seq![(OpV::Test, p, e.after[0])]),
                        Err(m) => Err(m),
                    }
                },
                SegV::Key(_) => Err("wanted path index. got object key"@),
            }
        }
    } else {
        Ok(Seq::empty())
    }
}

/// The test-and-remove pairs for the removals; a leading `Void` marks a
/// merge deletion and contributes nothing.
pub open spec fn remove_ops(e: ElemV, ptr: Seq<char>) -> Result<
    Seq<(OpV, Seq<char>, NodeV)>,
    Seq<char>,
> {
    if e.remove.len() > 0 && e.remove[0] is Void {
        Ok(Seq::empty())
    } else {
        remove_ops_list(e.remove, ptr)
    }
}

/// Test-and-remove pairs for each removal value.
pub open spec fn remove_ops_list(remove: Seq<NodeV>, ptr: Seq<char>) -> Result<
    Seq<(OpV, Seq<char>, NodeV)>,
    Seq<char>,
>
    decreases remove.len(),
{
    if remove.len() == 0 {
        Ok(Seq::empty())
    } else {
        match remove_ops_list(remove.drop_last(), ptr) {
            Ok(front) => if !no_void(remove.last()) {
                Err("cannot encode void value in JSON Patch"@)
            } else {
                Ok(front.push((OpV::Test, ptr, remove.last())).push(
                    (OpV::Remove, ptr, remove.last()),
                ))
            },
            Err(m) => Err(m),
        }
    }
}

/// Add operations for the added values, in reverse order, skipping `Void`.
/// `k` counts down from the end of the sequence.
pub open spec fn add_ops(add: Seq<NodeV>, ptr: Seq<char>, k: int) -> Result<
    Seq<(OpV, Seq<char>, NodeV)>,
    Seq<char>,
>
    decreases k,
{
    if k <= 0 {
        Ok(Seq::empty())
    } else {
        let v = add[k - 1];
        if v is Void {
            add_ops(add, ptr, k - 1)
        } else if !no_void(v) {
            Err("cannot encode void value in JSON Patch"@)
        } else {
            match add_ops(add, ptr, k - 1) {
                Ok(rest) => Ok(seq![(OpV::Add, ptr, v)] + rest),
                Err(m) => Err(m),
            }
        }
    }
}

/// The operations of the elements up to position `n`, concatenated.
pub open spec fn ops_upto(elems: Seq<ElemV>, n: int) -> Result<
    Seq<(OpV, Seq<char>, NodeV)>,
    Seq<char>,
>
    decreases n,
{
    if n <= 0 {
        Ok(Seq::empty())
    } else {
        match ops_upto(elems, n - 1) {
            Ok(front) => match elem_ops(elems[n - 1]) {
                Ok(ops) => Ok(front + ops),
                Err(m) => Err(m),
            },
            Err(m) => Err(m),
        }
    }
}

/// The JSON text of one operation.
pub open spec fn op_json(op: (OpV, Seq<char>, NodeV)) -> Seq<char> {
    let name = match op.0 {
        OpV::Test => "test"@,
        OpV::Remove => "remove"@,
        OpV::Add => "add"@,
    };
    "{\"op\":\""@ + name + "\",\"path\":"@ + quoted(op.1) + ",\"value\":"@ + json_text(op.2)
        + "}"@
}

/// The JSON array text of an operation sequence.
pub open spec fn ops_json_inner(ops: Seq<(OpV, Seq<char>, NodeV)>) -> Seq<char>
    decreases ops.len(),
{
    if ops.len() == 0 {
        Seq::empty()
    } else if ops.len() == 1 {
        op_json(ops[0])
    } else {
        ops_json_inner(ops.drop_last()) + ","@ + op_json(ops.last())
    }
}

/// The rendered RFC 6902 patch of a diff, or the first rejection.
pub open spec fn render_patch_spec(elems: Seq<ElemV>) -> Result<Seq<char>, Seq<char>> {
    if elems.len() == 0 {
        Ok("[]"@)
    } else {
        match ops_upto(elems, elems.len() as int) {
            Ok(ops) => Ok("["@ + ops_json_inner(ops) + "]"@),
            Err(m) => Err(m),
        }
    }
}

/// The merge-normalized form of an element: `Void` additions become `null`.
pub open spec fn merge_normalized(e: ElemV) -> ElemV {
    ElemV { add: Seq::new(e.add.len(), |i: int| voids_to_null(e.add[i])), ..e }
}

/// `Void` becomes `null` (at the top of a value only).
pub open spec fn voids_to_null(v: NodeV) -> NodeV {
    if v is Void {
        NodeV::Null
    } else {
        v
    }
}

/// Every element is effectively a merge hunk under the renderer's
/// metadata inheritance.
pub open spec fn all_render_merge(elems: Seq<ElemV>) -> bool {
    forall|i: int| 0 <= i < elems.len() ==> crate::render::render_merge_at(elems, i)
}

/// The rendered RFC 7386 merge patch of a diff: the normalized elements
/// applied to a void base, serialized as JSON; or the rejection's message.
pub open spec fn render_merge_spec(elems: Seq<ElemV>) -> Result<Seq<char>, Seq<char>> {
    if elems.len() == 0 {
        Ok("{}"@)
    } else if !all_render_merge(elems) {
        Err("cannot render non-merge element as merge"@)
    } else {
        let normalized = Seq::new(elems.len(), |i: int| merge_normalized(elems[i]));
        match apply_spec(NodeV::Void, normalized) {
            Ok(patched) => if no_void(patched) {
                Ok(json_text(patched))
            } else {
                Err("merge patch produced void value"@)
            },
            Err(m) => Err(m),
        }
    }
}

/// Decides whether a key parses as a 64-bit signed integer.
#[verifier::loop_isolation(false)]
fn is_int_key_exec(key: &str) -> (r: bool)
    ensures
        r == is_int_key(key@),
{
    let len = key.unicode_len();
    if len == 0 {
        return false;
    }
    let first = key.get_char(0);
    let signed = first == '-' || first == '+';
    let negative = first == '-';
    let start: usize = if signed {
        1
    } else {
        0
    };
    if start == len {
        proof {
            assert(key@.drop_first().len() == 0);
        }
        return false;
    }
    let ghost body = if signed {
        key@.drop_first()
    } else {
        key@
    };
    let mut value: u128 = 0;
    let mut i: usize = start;
    proof {
        assert(body.len() == len - start);
        assert(forall|j: int| 0 <= j < body.len() ==> body[j] == key@[j + start]);
        assert(body.take(0).len() == 0);
        assert(digits_val(body.take(0)) == 0);
    }
    while i < len
        invariant
            start <= i <= len,
            len == key@.len(),
            body == if signed {
                key@.drop_first()
            } else {
                key@
            },
            body.len() == len - start,
            forall|j: int| 0 <= j < body.len() ==> body[j] == key@[j + start],
            all_digits(body.take(i - start)),
            value <= 0x8000000000000001,
            digits_val(body.take(i - start)) >= value,
            value < 0x8000000000000001 ==> digits_val(body.take(i - start)) == value,
        decreases len - i,
    {
        let c = key.get_char(i);
        if c < '0' || c > '9' {
            proof {
                assert(body[i - start] == key@[i as int]);
                assert(!all_digits(body)) by {
                    assert(!('0' <= body[i - start] && body[i - start] <= '9'));
                }
            }
            return false;
        }
        let d = (c as u32) - 48;
        proof {
            assert(body.take(i + 1 - start).drop_last() =~= body.take(i - start));
            assert(body.take(i + 1 - start).last() == body[i - start]);
            assert(body[i - start] == key@[i as int]);
            assert((c as nat) - ('0' as nat) == d);
        }
        if value >= 0x8000000000000001 {
            // Saturated: the value is already beyond any 64-bit bound.
            proof {
                let prev = digits_val(body.take(i - start));
                assert(digits_val(body.take(i + 1 - start)) == (prev * 10 + ((body[i - start]
                    as nat) - ('0' as nat))) as nat);
                assert(prev * 10 >= prev);
                assert(digits_val(body.take(i + 1 - start)) >= prev);
            }
        } else {
            value = value * 10 + (d as u128);
            if value > 0x8000000000000001 {
                value = 0x8000000000000001;
                proof {
                    assert(digits_val(body.take(i + 1 - start)) >= 0x8000000000000001);
                }
            }
        }
        i = i + 1;
    }
    proof {
        assert(body.take(len - start as int) =~= body);
    }
    let bound: u128 = if negative {
        0x8000000000000000
    } else {
        0x7FFFFFFFFFFFFFFF
    };
    value <= bound
}

/// Appends the pointer escape of a key.
#[verifier::loop_isolation(false)]
fn push_ptr_escaped(out: &mut String, key: &str)
    ensures
        final(out)@ == old(out)@ + ptr_esc(key@),
{
    let len = key.unicode_len();
    let mut i: usize = 0;
    proof {
        assert(ptr_esc(key@.take(0)) =~= Seq::<char>::empty());
        assert(out@ =~= old(out)@ + ptr_esc(key@.take(0)));
    }
    while i < len
        invariant
            i <= len,
            len == key@.len(),
            out@ == old(out)@ + ptr_esc(key@.take(i as int)),
        decreases len - i,
    {
        let c = key.get_char(i);
        proof {
            assert(key@.take(i + 1 as int).drop_last() =~= key@.take(i as int));
            assert(key@.take(i + 1 as int).last() == key@[i as int]);
        }
        if c == '~' {
            out.append("~0");
        } else if c == '/' {
            out.append("~1");
        } else {
            let piece = key.substring_char(i, i + 1);
            out.append(piece);
            proof {
                assert(piece@ =~= seq![c]);
            }
        }
        proof {
            assert(out@ =~= old(out)@ + ptr_esc(key@.take(i + 1 as int)));
        }
        i = i + 1;
    }
    proof {
        assert(key@.take(len as int) =~= key@);
    }
}

/// Renders a path as a JSON Pointer, rejecting keys that look like numbers
/// and the literal key `-`.
#[verifier::loop_isolation(false)]
fn pointer_exec(path: &Path) -> (r: Result<String, RenderError>)
    ensures
        match r {
            Ok(p) => pointer_of(path@) == Ok::<Seq<char>, Seq<char>>(p@),
            Err(e) => pointer_of(path@) is Err && pointer_of(path@)->Err_0 == e@,
        },
{
    broadcast use crate::path::lemma_segs_view;

    let segs = path.segments();
    let ghost pv = path@;
    let mut out = String::new();
    let mut i: usize = 0;
    proof {
        assert(pointer_of(pv.take(0)) == Ok::<Seq<char>, Seq<char>>(Seq::<char>::empty()));
        assert(out@ =~= Seq::<char>::empty());
    }
    while i < segs.len()
        invariant
            i <= segs@.len(),
            pv.len() == segs@.len(),
            crate::path::segs_view(segs@) == pv,
            pointer_of(pv.take(i as int)) == Ok::<Seq<char>, Seq<char>>(out@),
        decreases segs@.len() - i,
    {
        proof {
            assert(pv[i as int] == segs@[i as int]@);
            assert(pv.take(i + 1 as int).drop_last() =~= pv.take(i as int));
            assert(pv.take(i + 1 as int).last() == pv[i as int]);
        }
        out.append("/");
        match &segs[i] {
            PathSegment::Index(idx) => {
                if *idx == -1 {
                    out.append("-");
                } else {
                    push_dec_i64(&mut out, *idx);
                }
            },
            PathSegment::Key(k) => {
                if is_int_key_exec(k.as_str()) {
                    let mut msg = String::new();
                    msg.append(
                        "JSON Pointer does not support object keys that look like numbers: ",
                    );
                    msg.append(k.as_str());
                    proof {
                        assert(ptr_seg(pv[i as int]) is Err);
                        assert(msg@ =~= ptr_seg(pv[i as int])->Err_0);
                        assert(pointer_of(pv.take(i + 1 as int)) is Err);
                        lemma_pointer_prefix_err(pv, i + 1 as int);
                    }
                    return Err(RenderError::new(msg));
                }
                let ks = k.as_str();
                let dash = ks.unicode_len() == 1 && ks.get_char(0) == '-';
                proof {
                    reveal_strlit("-");
                    assert("-"@.len() == 1);
                    if dash {
                        assert(k@ =~= "-"@);
                    } else {
                        assert(k@ != "-"@);
                    }
                }
                if dash {
                    let mut msg = String::new();
                    msg.append("JSON Pointer does not support object key '-'");
                    proof {
                        assert(ptr_seg(pv[i as int]) is Err);
                        assert(msg@ =~= ptr_seg(pv[i as int])->Err_0);
                        assert(pointer_of(pv.take(i + 1 as int)) is Err);
                        lemma_pointer_prefix_err(pv, i + 1 as int);
                    }
                    return Err(RenderError::new(msg));
                }
                push_ptr_escaped(&mut out, k.as_str());
            },
        }
        proof {
            assert(pointer_of(pv.take(i + 1 as int)) == Ok::<Seq<char>, Seq<char>>(out@));
        }
        i = i + 1;
    }
    proof {
        assert(pv.take(pv.len() as int) =~= pv);
    }
    Ok(out)
}

/// The operation kind tags used by the executable renderer.
pub open spec fn op_of(kind: u8) -> OpV {
    if kind == 0 {
        OpV::Test
    } else if kind == 1 {
        OpV::Remove
    } else {
        OpV::Add
    }
}

/// The abstract value of an executable operation vector.
pub open spec fn ops_view(s: Seq<(u8, String, Node)>) -> Seq<(OpV, Seq<char>, NodeV)> {
    Seq::new(s.len(), |i: int| (op_of(s[i].0), s[i].1@, s[i].2@))
}

/// Builds the operations of one element, or rejects it.
#[verifier::loop_isolation(false)]
#[verifier::rlimit(60)]
fn elem_ops_exec(element: &DiffElement) -> (r: Result<Vec<(u8, String, Node)>, RenderError>)
    ensures
        ({
            let s = elem_ops(element@);
            match r {
                Ok(v) => s == Ok::<Seq<(OpV, Seq<char>, NodeV)>, Seq<char>>(ops_view(v@)),
                Err(e) => s is Err && s->Err_0 == e@,
            }
        }),
{
    broadcast use crate::node::lemma_view_nodes, crate::path::lemma_segs_view;

    let ghost e = element@;
    if element.remove.len() == 0 && element.add.len() == 0 {
        let mut msg = String::new();
        msg.append("cannot render empty diff element as JSON Patch op");
        return Err(RenderError::new(msg));
    }
    let pointer = match pointer_exec(&element.path) {
        Ok(p) => p,
        Err(err) => {
            return Err(err);
        },
    };
    let mut out: Vec<(u8, String, Node)> = Vec::new();
    // Before context.
    if element.before.len() > 1 {
        let mut msg = String::new();
        msg.append("only one line of before context supported. got ");
        crate::jsontext::push_dec_u64(&mut msg, element.before.len() as u64);
        proof {
            assert(e.before.len() == element.before@.len());
            assert(msg@ =~= before_ops(e)->Err_0);
        }
        return Err(RenderError::new(msg));
    }
    if element.before.len() == 1 {
        proof {
            assert(e.before[0] == element.before@[0]@);
            crate::diffcore::lemma_view_void(&element.before@[0]);
        }
        let b_void = matches!(&element.before[0], Node::Void);
        if !b_void {
            if element.path.is_empty() {
                let mut msg = String::new();
                msg.append("expected path. got empty path");
                proof {
                    assert(msg@ =~= before_ops(e)->Err_0);
                }
                return Err(RenderError::new(msg));
            }
            let segs = element.path.segments();
            let last = &segs[segs.len() - 1];
            proof {
                assert(e.path.last() == segs@[segs@.len() - 1]@);
            }
            match last {
                PathSegment::Index(idx) => {
                    if *idx == i64::MIN {
                        let mut msg = String::new();
                        msg.append("path index out of range");
                        proof {
                            assert(msg@ =~= before_ops(e)->Err_0);
                        }
                        return Err(RenderError::new(msg));
                    }
                    if contains_void(&element.before[0]) {
                        let mut msg = String::new();
                        msg.append("cannot encode void value in JSON Patch");
                        proof {
                            assert(msg@ =~= before_ops(e)->Err_0);
                        }
                        return Err(RenderError::new(msg));
                    }
                    let prev_path = element.path.drop_last().with_segment(
                        PathSegment::Index(*idx - 1),
                    );
                    proof {
                        assert(prev_path@ =~= e.path.drop_last().push(
                            SegV::Index((*idx - 1) as i64),
                        ));
                    }
                    proof {
                        lemma_pointer_prefix_ok(e.path, e.path.len() - 1);
                        assert(e.path.drop_last() =~= e.path.take(e.path.len() - 1));
                        assert(prev_path@.drop_last() =~= e.path.drop_last());
                        assert(pointer_of(prev_path@) is Ok);
                    }
                    let prev_ptr = match pointer_exec(&prev_path) {
                        Ok(p) => p,
                        Err(err) => {
                            proof {
                                assert(false);
                            }
                            return Err(err);
                        },
                    };
                    out.push((0, prev_ptr, clone_node(&element.before[0])));
                    proof {
                        assert(before_ops(e) is Ok);
                        assert(ops_view(out@) =~= before_ops(e)->Ok_0);
                    }
                },
                PathSegment::Key(_) => {
                    let mut msg = String::new();
                    msg.append("wanted path index. got object key");
                    proof {
                        assert(msg@ =~= before_ops(e)->Err_0);
                    }
                    return Err(RenderError::new(msg));
                },
            }
        }
    }
    let ghost b_ops = ops_view(out@);
    proof {
        if out@.len() == 0 {
            assert(ops_view(out@) =~= Seq::<(OpV, Seq<char>, NodeV)>::empty());
        }
        assert(before_ops(e) == Ok::<Seq<(OpV, Seq<char>, NodeV)>, Seq<char>>(b_ops));
    }
    // After context.
    if element.after.len() > 1 {
        let mut msg = String::new();
        msg.append("only one line of after context supported. got ");
        crate::jsontext::push_dec_u64(&mut msg, element.after.len() as u64);
        proof {
            assert(e.after.len() == element.after@.len());
            assert(msg@ =~= after_ops(e)->Err_0);
        }
        return Err(RenderError::new(msg));
    }
    if element.after.len() == 1 {
        proof {
            assert(e.after[0] == element.after@[0]@);
            crate::diffcore::lemma_view_void(&element.after@[0]);
        }
        let a_void = matches!(&element.after[0], Node::Void);
        if !a_void {
            if element.path.is_empty() {
                let mut msg = String::new();
                msg.append("expected path. got empty path");
                proof {
                    assert(msg@ =~= after_ops(e)->Err_0);
                }
                return Err(RenderError::new(msg));
            }
            let segs = element.path.segments();
            let last = &segs[segs.len() - 1];
            proof {
                assert(e.path.last() == segs@[segs@.len() - 1]@);
            }
            match last {
                PathSegment::Index(idx) => {
                    let next_big: i128 = (*idx as i128) + (element.remove.len() as i128);
                    if next_big > i64::MAX as i128 {
                        let mut msg = String::new();
                        msg.append("path index out of range");
                        proof {
                            assert(e.remove.len() == element.remove@.len());
                            assert(msg@ =~= after_ops(e)->Err_0);
                        }
                        return Err(RenderError::new(msg));
                    }
                    if contains_void(&element.after[0]) {
                        let mut msg = String::new();
                        msg.append("cannot encode void value in JSON Patch");
                        proof {
                            assert(e.remove.len() == element.remove@.len());
                            assert(msg@ =~= after_ops(e)->Err_0);
                        }
                        return Err(RenderError::new(msg));
                    }
                    let next_index: i64 = next_big as i64;
                    let next_path = element.path.drop_last().with_segment(
                        PathSegment::Index(next_index),
                    );
                    proof {
                        assert(e.remove.len() == element.remove@.len());
                        assert(next_path@ =~= e.path.drop_last().push(
                            SegV::Index((e.path.last()->Index_0 + e.remove.len()) as i64),
                        ));
                    }
                    proof {
                        lemma_pointer_prefix_ok(e.path, e.path.len() - 1);
                        assert(e.path.drop_last() =~= e.path.take(e.path.len() - 1));
                        assert(next_path@.drop_last() =~= e.path.drop_last());
                        assert(pointer_of(next_path@) is Ok);
                    }
                    let next_ptr = match pointer_exec(&next_path) {
                        Ok(p) => p,
                        Err(err) => {
                            proof {
                                assert(false);
                            }
                            return Err(err);
                        },
                    };
                    let ghost pre = out@;
                    out.push((0, next_ptr, clone_node(&element.after[0])));
                    proof {
                        assert(after_ops(e) is Ok);
                        assert(ops_view(out@) =~= b_ops + after_ops(e)->Ok_0);
                    }
                },
                PathSegment::Key(_) => {
                    let mut msg = String::new();
                    msg.append("wanted path index. got object key");
                    proof {
                        assert(msg@ =~= after_ops(e)->Err_0);
                    }
                    return Err(RenderError::new(msg));
                },
            }
        }
    }
    let ghost ba_ops = ops_view(out@);
    proof {
        assert(after_ops(e) is Ok);
        assert(ba_ops =~= b_ops + after_ops(e)->Ok_0);
    }
    // Removals: a leading Void marks a merge deletion and contributes nothing.
    let first_void = if element.remove.len() > 0 {
        matches!(&element.remove[0], Node::Void)
    } else {
        false
    };
    proof {
        if element.remove@.len() > 0 {
            assert(e.remove[0] == element.remove@[0]@);
        }
    }
    if !first_void {
        let ghost rv = e.remove;
        let mut k: usize = 0;
        proof {
            assert(remove_ops_list(rv.take(0), pointer@) == Ok::<
                Seq<(OpV, Seq<char>, NodeV)>,
                Seq<char>,
            >(Seq::<(OpV, Seq<char>, NodeV)>::empty()));
            assert(ops_view(out@) =~= ba_ops + remove_ops_list(rv.take(0), pointer@)->Ok_0);
        }
        while k < element.remove.len()
            invariant
                k <= element.remove@.len(),
                rv == e.remove,
                rv.len() == element.remove@.len(),
                e == element@,
                remove_ops_list(rv.take(k as int), pointer@) is Ok,
                ops_view(out@) =~= ba_ops + remove_ops_list(rv.take(k as int), pointer@)->Ok_0,
            decreases element.remove@.len() - k,
        {
            proof {
                assert(rv[k as int] == element.remove@[k as int]@);
                assert(rv.take(k + 1 as int).drop_last() =~= rv.take(k as int));
                assert(rv.take(k + 1 as int).last() == rv[k as int]);
            }
            if contains_void(&element.remove[k]) {
                let mut msg = String::new();
                msg.append("cannot encode void value in JSON Patch");
                proof {
                    assert(remove_ops_list(rv.take(k + 1 as int), pointer@) is Err);
                    assert(msg@ =~= remove_ops_list(rv.take(k + 1 as int), pointer@)->Err_0);
                    lemma_remove_ops_prefix_err(rv, pointer@, k + 1 as int);
                }
                return Err(RenderError::new(msg));
            }
            let ghost pre = out@;
            out.push((0, pointer.clone_string(), clone_node(&element.remove[k])));
            out.push((1, pointer.clone_string(), clone_node(&element.remove[k])));
            proof {
                assert(ops_view(out@) =~= ops_view(pre).push(
                    (OpV::Test, pointer@, rv[k as int]),
                ).push((OpV::Remove, pointer@, rv[k as int])));
                assert(ops_view(out@) =~= ba_ops + remove_ops_list(
                    rv.take(k + 1 as int),
                    pointer@,
                )->Ok_0);
            }
            k = k + 1;
        }
        proof {
            assert(rv.take(rv.len() as int) =~= rv);
        }
    }
    let ghost bar_ops = ops_view(out@);
    proof {
        assert(remove_ops(e, pointer@) is Ok);
        assert(bar_ops =~= ba_ops + remove_ops(e, pointer@)->Ok_0);
    }
    // Additions, in reverse order, skipping Void.
    let ghost av = e.add;
    let ghost full = av.len() as int;
    let mut k2: usize = element.add.len();
    proof {
        assert(av.len() == element.add@.len());
        assert(ops_view(out@).skip(bar_ops.len() as int) =~= Seq::<(OpV, Seq<char>, NodeV)>::empty());
        assert(ops_view(out@).take(bar_ops.len() as int) =~= bar_ops);
    }
    while k2 > 0
        invariant
            k2 <= element.add@.len(),
            av == e.add,
            av.len() == element.add@.len(),
            e == element@,
            full == av.len(),
            match add_ops(av, pointer@, k2 as int) {
                Ok(rest) => add_ops(av, pointer@, full) == Ok::<
                    Seq<(OpV, Seq<char>, NodeV)>,
                    Seq<char>,
                >(ops_view(out@).skip(bar_ops.len() as int) + rest) && ops_view(out@).take(
                    bar_ops.len() as int,
                ) == bar_ops,
                Err(m) => add_ops(av, pointer@, full) == Err::<
                    Seq<(OpV, Seq<char>, NodeV)>,
                    Seq<char>,
                >(m),
            },
            ops_view(out@).len() >= bar_ops.len(),
        decreases k2,
    {
        let idx2 = k2 - 1;
        proof {
            assert(av[idx2 as int] == element.add@[idx2 as int]@);
        }
        let a_void = matches!(&element.add[idx2], Node::Void);
        if !a_void {
            if contains_void(&element.add[idx2]) {
                let mut msg = String::new();
                msg.append("cannot encode void value in JSON Patch");
                proof {
                    assert(add_ops(av, pointer@, k2 as int) is Err);
                    assert(msg@ =~= add_ops(av, pointer@, k2 as int)->Err_0);
                    assert(add_ops(av, pointer@, full) is Err);
                    assert(add_ops(av, pointer@, full)->Err_0 == msg@);
                }
                return Err(RenderError::new(msg));
            }
            let ghost pre = out@;
            out.push((2, pointer.clone_string(), clone_node(&element.add[idx2])));
            proof {
                assert(ops_view(out@) =~= ops_view(pre).push(
                    (OpV::Add, pointer@, av[idx2 as int]),
                ));
                assert(ops_view(out@).take(bar_ops.len() as int) =~= ops_view(pre).take(
                    bar_ops.len() as int,
                ));
                let emitted_pre = ops_view(pre).skip(bar_ops.len() as int);
                let emitted_now = ops_view(out@).skip(bar_ops.len() as int);
                assert(emitted_now =~= emitted_pre.push((OpV::Add, pointer@, av[idx2 as int])));
                match add_ops(av, pointer@, idx2 as int) {
                    Ok(rest2) => {
                        assert(add_ops(av, pointer@, k2 as int) == Ok::<
                            Seq<(OpV, Seq<char>, NodeV)>,
                            Seq<char>,
                        >(seq![(OpV::Add, pointer@, av[idx2 as int])] + rest2));
                        assert(emitted_pre + (seq![(OpV::Add, pointer@, av[idx2 as int])] + rest2)
                            =~= emitted_now + rest2);
                    },
                    Err(_) => {
                        assert(add_ops(av, pointer@, k2 as int) is Err);
                    },
                }
            }
        } else {
            proof {
                assert(add_ops(av, pointer@, k2 as int) == add_ops(av, pointer@, idx2 as int));
            }
        }
        k2 = k2 - 1;
    }
    proof {
        assert(add_ops(av, pointer@, 0) == Ok::<Seq<(OpV, Seq<char>, NodeV)>, Seq<char>>(
            Seq::<(OpV, Seq<char>, NodeV)>::empty(),
        ));
        assert(add_ops(av, pointer@, full) == Ok::<Seq<(OpV, Seq<char>, NodeV)>, Seq<char>>(
            ops_view(out@).skip(bar_ops.len() as int) + Seq::<(OpV, Seq<char>, NodeV)>::empty(),
        ));
        assert(ops_view(out@).skip(bar_ops.len() as int) + Seq::<(OpV, Seq<char>, NodeV)>::empty()
            =~= ops_view(out@).skip(bar_ops.len() as int));
        assert(ops_view(out@) =~= ops_view(out@).take(bar_ops.len() as int) + ops_view(
            out@,
        ).skip(bar_ops.len() as int));
        assert(ops_view(out@) =~= bar_ops + add_ops(av, pointer@, full)->Ok_0);
    }
    proof {
        assert(elem_ops(e) == Ok::<Seq<(OpV, Seq<char>, NodeV)>, Seq<char>>(ops_view(out@)));
    }
    Ok(out)
}

/// Renders an operation vector as a JSON array.
#[verifier::loop_isolation(false)]
#[verifier::rlimit(60)]
fn ops_to_json(ops: &Vec<(u8, String, Node)>) -> (r: String)
    ensures
        r@ == "["@ + ops_json_inner(ops_view(ops@)) + "]"@,
{
    let ghost ov = ops_view(ops@);
    let mut out = String::new();
    out.append("[");
    let mut i: usize = 0;
    proof {
        assert(ops_json_inner(ov.take(0)) =~= Seq::<char>::empty());
        assert(out@ =~= "["@ + ops_json_inner(ov.take(0)));
    }
    while i < ops.len()
        invariant
            i <= ops@.len(),
            ov == ops_view(ops@),
            ov.len() == ops@.len(),
            out@ == "["@ + ops_json_inner(ov.take(i as int)),
        decreases ops@.len() - i,
    {
        proof {
            assert(ov[i as int] == (op_of(ops@[i as int].0), ops@[i as int].1@, ops@[
            i as int].2@));
            assert(ov.take(i + 1 as int).drop_last() =~= ov.take(i as int));
            assert(ov.take(i + 1 as int).last() == ov[i as int]);
        }
        if i > 0 {
            out.append(",");
        }
        let kind = ops[i].0;
        out.append("{\"op\":\"");
        if kind == 0 {
            out.append("test");
        } else if kind == 1 {
            out.append("remove");
        } else {
            out.append("add");
        }
        out.append("\",\"path\":");
        push_quoted(&mut out, ops[i].1.as_str());
        out.append(",\"value\":");
        push_json(&mut out, &ops[i].2);
        out.append("}");
        proof {
            if kind != 0 && kind != 1 {
                assert(op_of(kind) is Add);
            }
            assert(out@ =~= "["@ + ops_json_inner(ov.take(i + 1 as int)));
        }
        i = i + 1;
    }
    out.append("]");
    proof {
        assert(ov.take(ov.len() as int) =~= ov);
        assert(out@ =~= "["@ + ops_json_inner(ov) + "]"@);
    }
    out
}

/// A rejected element rejects the whole rendering.
proof fn lemma_ops_upto_err(elems: Seq<ElemV>, n: int, m: int)
    requires
        0 <= n <= m,
        ops_upto(elems, n) is Err,
    ensures
        ops_upto(elems, m) == ops_upto(elems, n),
    decreases m - n,
{
    if n < m {
        lemma_ops_upto_err(elems, n + 1, m);
    }
}

/// A rejected removal prefix rejects the whole removal list.
proof fn lemma_remove_ops_prefix_err(remove: Seq<NodeV>, ptr: Seq<char>, n: int)
    requires
        0 <= n <= remove.len(),
        remove_ops_list(remove.take(n), ptr) is Err,
    ensures
        remove_ops_list(remove, ptr) == remove_ops_list(remove.take(n), ptr),
    decreases remove.len() - n,
{
    if n == remove.len() {
        assert(remove.take(n) =~= remove);
    } else {
        assert(remove.take(n + 1).drop_last() =~= remove.take(n));
        lemma_remove_ops_prefix_err(remove, ptr, n + 1);
    }
}

impl Diff {
    /// Renders the diff as an RFC 6902 JSON Patch: per element, context
    /// `test` operations, then `test`-and-`remove` pairs, then `add`
    /// operations in reverse order.
    #[verifier::loop_isolation(false)]
    pub fn render_patch(&self) -> (r: Result<String, RenderError>)
        ensures
            match r {
                Ok(text) => render_patch_spec(self@) == Ok::<Seq<char>, Seq<char>>(text@),
                Err(e) => render_patch_spec(self@) is Err && render_patch_spec(self@)->Err_0
                    == e@,
            },
    {
        broadcast use lemma_view_elems;

        let ghost ev = self@;
        let elements = self.elements();
        if elements.len() == 0 {
            return Ok(String::from_str("[]"));
        }
        let mut all_ops: Vec<(u8, String, Node)> = Vec::new();
        let mut i: usize = 0;
        proof {
            assert(ops_upto(ev, 0) == Ok::<Seq<(OpV, Seq<char>, NodeV)>, Seq<char>>(
                Seq::<(OpV, Seq<char>, NodeV)>::empty(),
            ));
            assert(ops_view(all_ops@) =~= Seq::<(OpV, Seq<char>, NodeV)>::empty());
        }
        while i < elements.len()
            invariant
                i <= elements@.len(),
                ev == crate::dtypes::view_elems(elements@),
                ev.len() == elements@.len(),
                ops_upto(ev, i as int) == Ok::<Seq<(OpV, Seq<char>, NodeV)>, Seq<char>>(
                    ops_view(all_ops@),
                ),
            decreases elements@.len() - i,
        {
            proof {
                assert(ev[i as int] == elements@[i as int]@);
            }
            match elem_ops_exec(&elements[i]) {
                Ok(mut ops) => {
                    let ghost pre = all_ops@;
                    let ghost addv = ops@;
                    all_ops.append(&mut ops);
                    proof {
                        assert(all_ops@ =~= pre + addv);
                        assert(ops_view(pre + addv) =~= ops_view(pre) + ops_view(addv));
                    }
                },
                Err(e) => {
                    proof {
                        lemma_ops_upto_err(ev, i + 1 as int, ev.len() as int);
                    }
                    return Err(e);
                },
            }
            i = i + 1;
        }
        Ok(ops_to_json(&all_ops))
    }

    /// Renders the diff as an RFC 7386 merge patch: every element must be
    /// effectively merge-flagged; `Void` additions become `null`; the
    /// result is the normalized diff applied to a void base, as JSON.
    #[verifier::loop_isolation(false)]
    pub fn render_merge(&self) -> (r: Result<String, RenderError>)
        ensures
            match r {
                Ok(text) => render_merge_spec(self@) == Ok::<Seq<char>, Seq<char>>(text@),
                Err(e) => render_merge_spec(self@) is Err && render_merge_spec(self@)->Err_0
                    == e@,
            },
    {
        broadcast use lemma_view_elems, crate::node::lemma_view_nodes;

        let ghost ev = self@;
        let elements = self.elements();
        if elements.len() == 0 {
            return Ok(String::from_str("{}"));
        }
        let mut normalized: Vec<DiffElement> = Vec::new();
        let mut merge_inherited = false;
        let mut have_inherited = false;
        let mut i: usize = 0;
        while i < elements.len()
            invariant
                i <= elements@.len(),
                ev == crate::dtypes::view_elems(elements@),
                ev.len() == elements@.len(),
                forall|j: int| 0 <= j < i ==> crate::render::render_merge_at(ev, j),
                normalized@.len() == i,
                forall|j: int|
                    0 <= j < i ==> (#[trigger] normalized@[j])@ == merge_normalized(ev[j]),
                match crate::render::last_meta(ev, i as int) {
                    Some(m) => have_inherited && merge_inherited == m.merge,
                    None => !have_inherited,
                },
            decreases elements@.len() - i,
        {
            let element = &elements[i];
            proof {
                assert(ev[i as int] == elements@[i as int]@);
            }
            let is_merge: bool;
            match &element.metadata {
                Some(meta) => {
                    merge_inherited = meta.merge;
                    have_inherited = true;
                    is_merge = meta.merge;
                },
                None => {
                    is_merge = have_inherited && merge_inherited;
                },
            }
            proof {
                assert(is_merge == crate::render::render_merge_at(ev, i as int));
            }
            if !is_merge {
                let mut msg = String::new();
                msg.append("cannot render non-merge element as merge");
                return Err(RenderError::new(msg));
            }
            // Normalize: Void additions become null.
            let mut new_add: Vec<Node> = Vec::new();
            let mut k: usize = 0;
            while k < element.add.len()
                invariant
                    k <= element.add@.len(),
                    i < elements@.len(),
                    ev[i as int] == elements@[i as int]@,
                    new_add@.len() == k,
                    forall|j: int|
                        0 <= j < k ==> (#[trigger] new_add@[j])@ == voids_to_null(
                            ev[i as int].add[j],
                        ),
                decreases element.add@.len() - k,
            {
                proof {
                    assert(ev[i as int].add[k as int] == element.add@[k as int]@);
                }
                let is_void = matches!(&element.add[k], Node::Void);
                if is_void {
                    new_add.push(Node::Null);
                } else {
                    new_add.push(clone_node(&element.add[k]));
                }
                k = k + 1;
            }
            let out_elem = DiffElement {
                metadata: match &element.metadata {
                    Some(m) => Some(m.clone()),
                    None => None,
                },
                path: element.path.clone(),
                before: crate::dtypes::clone_nodes(&element.before),
                remove: crate::dtypes::clone_nodes(&element.remove),
                add: new_add,
                after: crate::dtypes::clone_nodes(&element.after),
            };
            proof {
                assert(view_nodes(out_elem.add@) =~= Seq::new(
                    ev[i as int].add.len(),
                    |j: int| voids_to_null(ev[i as int].add[j]),
                ));
                assert(out_elem@ =~= merge_normalized(ev[i as int]));
            }
            normalized.push(out_elem);
            i = i + 1;
        }
        let ghost norm_v = Seq::new(ev.len(), |j: int| merge_normalized(ev[j]));
        let diff = Diff::from_elements(normalized);
        proof {
            assert(diff@ =~= norm_v);
        }
        let base = Node::Void;
        match base.apply_patch(&diff) {
            Ok(patched) => {
                if contains_void(&patched) {
                    let mut msg = String::new();
                    msg.append("merge patch produced void value");
                    return Err(RenderError::new(msg));
                }
                Ok(crate::jsontext::node_to_json(&patched))
            },
            Err(e) => {
                let mut msg = String::new();
                msg.append(e.message());
                Err(RenderError::new(msg))
            },
        }
    }
}

} // verus!
