//! Canonical JSON text of nodes and paths, produced by the library itself:
//! string escaping, decimal integers, and the two path renderings (the
//! JSON-array form used in hunk headers, and the bracketed display form
//! used in error messages).
use crate::node::{view_node, Node, NodeV};
use crate::path::{segs_view, Path, PathSegment, SegV};
use vstd::prelude::*;
use vstd::string::{StrSliceExecFns, StringExecFns};

verus! {

/// The decimal digits of a natural number, most significant first.
pub open spec fn dec_nat(n: nat) -> Seq<char>
    decreases n,
{
    if n < 10 {
        digit_text(n)
    } else {
        dec_nat(n / 10) + digit_text(n % 10)
    }
}

/// The text of a single decimal digit.
pub open spec fn digit_text(d: nat) -> Seq<char> {
    if d == 0 {
        "0"@
    } else if d == 1 {
        "1"@
    } else if d == 2 {
        "2"@
    } else if d == 3 {
        "3"@
    } else if d == 4 {
        "4"@
    } else if d == 5 {
        "5"@
    } else if d == 6 {
        "6"@
    } else if d == 7 {
        "7"@
    } else if d == 8 {
        "8"@
    } else if d == 9 {
        "9"@
    } else {
        Seq::empty()
    }
}

/// The text of a lower-case hexadecimal digit.
pub open spec fn hex_text(d: nat) -> Seq<char> {
    if d < 10 {
        digit_text(d)
    } else if d == 10 {
        "a"@
    } else if d == 11 {
        "b"@
    } else if d == 12 {
        "c"@
    } else if d == 13 {
        "d"@
    } else if d == 14 {
        "e"@
    } else if d == 15 {
        "f"@
    } else {
        Seq::empty()
    }
}

/// The decimal text of a signed integer.
pub open spec fn dec_int(i: int) -> Seq<char> {
    if i < 0 {
        "-"@ + dec_nat((-i) as nat)
    } else {
        dec_nat(i as nat)
    }
}

/// The JSON escape of one character, as it appears inside a quoted string.
pub open spec fn esc_char(c: char) -> Seq<char> {
    let u = c as u32;
    if c == '"' {
        "\\\""@
    } else if c == '\\' {
        "\\\\"@
    } else if u == 0x08 {
        "\\b"@
    } else if u == 0x0C {
        "\\f"@
    } else if u == 0x0A {
        "\\n"@
    } else if u == 0x0D {
        "\\r"@
    } else if u == 0x09 {
        "\\t"@
    } else if u < 0x20 {
        "\\u00"@ + hex_text((u / 16) as nat) + hex_text((u % 16) as nat)
    } else {
        seq![c]
    }
}

/// The JSON escape of a whole character sequence.
pub open spec fn esc_str(s: Seq<char>) -> Seq<char>
    decreases s.len(),
{
    if s.len() == 0 {
        Seq::empty()
    } else {
        esc_str(s.drop_last()) + esc_char(s.last())
    }
}

/// A quoted, escaped JSON string.
pub open spec fn quoted(s: Seq<char>) -> Seq<char> {
    "\""@ + esc_str(s) + "\""@
}

/// The canonical JSON text of a node value. The `Void` sentinel renders as
/// nothing (it is never serialized as JSON).
pub open spec fn json_text(v: NodeV) -> Seq<char>
    decreases v,
{
    match v {
        NodeV::Void => Seq::empty(),
        NodeV::Null => "null"@,
        NodeV::Bool(b) => if b {
            "true"@
        } else {
            "false"@
        },
        NodeV::Num { text, .. } => text,
        NodeV::Str(s) => quoted(s),
        NodeV::Arr(items) => {
            proof {
                assert(decreases_to!(v => v->Arr_0));
            }
            "["@ + arr_text(items) + "]"@
        },
        NodeV::Obj(entries) => {
            proof {
                assert(decreases_to!(v => v->Obj_0));
            }
            "{"@ + obj_text(entries) + "}"@
        },
    }
}

/// The comma-joined element texts of an array.
pub open spec fn arr_text(items: Seq<NodeV>) -> Seq<char>
    decreases items,
{
    if items.len() == 0 {
        Seq::empty()
    } else if items.len() == 1 {
        proof {
            broadcast use vstd::seq::axiom_seq_index_decreases;

            assert(decreases_to!(items => items[0]));
        }
        json_text(items[0])
    } else {
        proof {
            broadcast use vstd::seq::axiom_seq_subrange_decreases;

            assert(decreases_to!(items => items.subrange(0, items.len() - 1)));
            assert(decreases_to!(items => items.last()));
        }
        arr_text(items.subrange(0, items.len() - 1)) + ","@ + json_text(items.last())
    }
}

/// The comma-joined `"key":value` texts of an object.
pub open spec fn obj_text(entries: Seq<(Seq<char>, NodeV)>) -> Seq<char>
    decreases entries,
{
    if entries.len() == 0 {
        Seq::empty()
    } else if entries.len() == 1 {
        proof {
            broadcast use vstd::seq::axiom_seq_index_decreases;

            assert(decreases_to!(entries => entries[0]));
            assert(decreases_to!(entries[0] => entries[0].1));
        }
        quoted(entries[0].0) + ":"@ + json_text(entries[0].1)
    } else {
        proof {
            broadcast use vstd::seq::axiom_seq_subrange_decreases;

            assert(decreases_to!(entries => entries.subrange(0, entries.len() - 1)));
            assert(decreases_to!(entries => entries.last()));
            assert(decreases_to!(entries.last() => entries.last().1));
        }
        obj_text(entries.subrange(0, entries.len() - 1)) + ","@ + quoted(entries.last().0) + ":"@
            + json_text(entries.last().1)
    }
}

/// The native header rendering of a path: a JSON array of keys and indices.
pub open spec fn path_json(segs: Seq<SegV>) -> Seq<char> {
    "["@ + path_json_inner(segs) + "]"@
}

/// The comma-joined segment texts of a path.
pub open spec fn path_json_inner(segs: Seq<SegV>) -> Seq<char>
    decreases segs.len(),
{
    if segs.len() == 0 {
        Seq::empty()
    } else if segs.len() == 1 {
        seg_json(segs[0])
    } else {
        path_json_inner(segs.drop_last()) + ","@ + seg_json(segs.last())
    }
}

/// The JSON text of one path segment.
pub open spec fn seg_json(seg: SegV) -> Seq<char> {
    match seg {
        SegV::Key(k) => quoted(k),
        SegV::Index(i) => dec_int(i as int),
    }
}

/// The bracketed display form of a path, used in error messages: raw keys
/// and indices separated by spaces.
pub open spec fn path_display(segs: Seq<SegV>) -> Seq<char> {
    "["@ + path_display_inner(segs) + "]"@
}

/// The space-joined raw segment texts of a path.
pub open spec fn path_display_inner(segs: Seq<SegV>) -> Seq<char>
    decreases segs.len(),
{
    if segs.len() == 0 {
        Seq::empty()
    } else if segs.len() == 1 {
        seg_display(segs[0])
    } else {
        path_display_inner(segs.drop_last()) + " "@ + seg_display(segs.last())
    }
}

/// The raw display text of one path segment.
pub open spec fn seg_display(seg: SegV) -> Seq<char> {
    match seg {
        SegV::Key(k) => k,
        SegV::Index(i) => dec_int(i as int),
    }
}

/// Appends the decimal digits of a natural number.
pub fn push_dec_u64(out: &mut String, n: u64)
    ensures
        final(out)@ == old(out)@ + dec_nat(n as nat),
    decreases n,
{
    if n < 10 {
        push_digit(out, n);
    } else {
        push_dec_u64(out, n / 10);
        push_digit(out, n % 10);
    }
}

/// Appends one decimal digit.
fn push_digit(out: &mut String, d: u64)
    requires
        d < 10,
    ensures
        final(out)@ == old(out)@ + digit_text(d as nat),
{
    if d == 0 {
        out.append("0");
    } else if d == 1 {
        out.append("1");
    } else if d == 2 {
        out.append("2");
    } else if d == 3 {
        out.append("3");
    } else if d == 4 {
        out.append("4");
    } else if d == 5 {
        out.append("5");
    } else if d == 6 {
        out.append("6");
    } else if d == 7 {
        out.append("7");
    } else if d == 8 {
        out.append("8");
    } else {
        out.append("9");
    }
}

/// Appends one lower-case hexadecimal digit.
fn push_hex(out: &mut String, d: u32)
    requires
        d < 16,
    ensures
        final(out)@ == old(out)@ + hex_text(d as nat),
{
    if d < 10 {
        push_digit(out, d as u64);
    } else if d == 10 {
        out.append("a");
    } else if d == 11 {
        out.append("b");
    } else if d == 12 {
        out.append("c");
    } else if d == 13 {
        out.append("d");
    } else if d == 14 {
        out.append("e");
    } else {
        out.append("f");
    }
}

/// Appends the decimal text of a signed index.
pub fn push_dec_i64(out: &mut String, i: i64)
    ensures
        final(out)@ == old(out)@ + dec_int(i as int),
{
    if i < 0 {
        out.append("-");
        let mag: u64 = if i == i64::MIN {
            0x8000000000000000u64
        } else {
            (-i) as u64
        };
        push_dec_u64(out, mag);
        proof {
            assert(out@ =~= old(out)@ + dec_int(i as int));
        }
    } else {
        push_dec_u64(out, i as u64);
    }
}

/// Appends the escaped form of a string's characters.
pub fn push_escaped(out: &mut String, s: &str)
    ensures
        final(out)@ == old(out)@ + esc_str(s@),
{
    let len = s.unicode_len();
    let mut i: usize = 0;
    proof {
        assert(esc_str(s@.take(0)) =~= Seq::<char>::empty());
        assert(out@ =~= old(out)@ + esc_str(s@.take(0)));
    }
    while i < len
        invariant
            len == s@.len(),
            i <= len,
            out@ == old(out)@ + esc_str(s@.take(i as int)),
        decreases len - i,
    {
        let c = s.get_char(i);
        let u = c as u32;
        if c == '"' {
            out.append("\\\"");
        } else if c == '\\' {
            out.append("\\\\");
        } else if u == 0x08 {
            out.append("\\b");
        } else if u == 0x0C {
            out.append("\\f");
        } else if u == 0x0A {
            out.append("\\n");
        } else if u == 0x0D {
            out.append("\\r");
        } else if u == 0x09 {
            out.append("\\t");
        } else if u < 0x20 {
            out.append("\\u00");
            push_hex(out, u / 16);
            push_hex(out, u % 16);
        } else {
            let piece = s.substring_char(i, i + 1);
            out.append(piece);
            proof {
                assert(piece@ =~= seq![c]);
            }
        }
        proof {
            assert(s@.take(i + 1 as int).drop_last() =~= s@.take(i as int));
            assert(s@.take(i + 1 as int).last() == s@[i as int]);
            assert(esc_str(s@.take(i + 1 as int)) == esc_str(s@.take(i as int)) + esc_char(c));
            assert(out@ =~= old(out)@ + esc_str(s@.take(i + 1 as int)));
        }
        i = i + 1;
    }
    proof {
        assert(s@.take(len as int) =~= s@);
    }
}

/// Appends a quoted, escaped JSON string.
pub fn push_quoted(out: &mut String, s: &str)
    ensures
        final(out)@ == old(out)@ + quoted(s@),
{
    out.append("\"");
    push_escaped(out, s);
    out.append("\"");
    proof {
        assert(out@ =~= old(out)@ + quoted(s@));
    }
}

/// Appends the canonical JSON text of a node.
#[verifier::loop_isolation(false)]
pub fn push_json(out: &mut String, n: &Node)
    ensures
        final(out)@ == old(out)@ + json_text(n@),
    decreases *n,
{
    broadcast use crate::node::lemma_view_nodes, crate::node::lemma_view_entries;

    match n {
        Node::Void => {
        },
        Node::Null => {
            out.append("null");
        },
        Node::Bool(b) => {
            if *b {
                out.append("true");
            } else {
                out.append("false");
            }
        },
        Node::Number(num) => {
            out.append(num.text());
        },
        Node::String(s) => {
            push_quoted(out, s.as_str());
        },
        Node::Array(items) => {
            let ghost vs = crate::node::view_nodes(items@);
            out.append("[");
            let ghost base = out@;
            let mut i: usize = 0;
            proof {
                assert(arr_text(vs.take(0)) =~= Seq::<char>::empty());
                assert(out@ =~= base + arr_text(vs.take(0)));
            }
            while i < items.len()
                invariant
                    i <= items@.len(),
                    out@ == base + arr_text(vs.take(i as int)),
                decreases items@.len() - i,
            {
                if i > 0 {
                    out.append(",");
                }
                proof {
                    assert(decreases_to!(*n => n->Array_0));
                    assert(n->Array_0 == *items);
                    assert(decreases_to!(*items => items@));
                    assert(decreases_to!(items@ => items@[i as int]));
                }
                push_json(out, &items[i]);
                proof {
                    let now = vs.take(i + 1 as int);
                    assert(now.subrange(0, now.len() - 1) =~= vs.take(i as int));
                    assert(now.last() == vs[i as int]);
                    assert(vs[i as int] == view_node(items@[i as int]));
                    if i == 0 {
                        assert(now.len() == 1);
                        assert(now[0] == vs[0]);
                        assert(arr_text(now) == json_text(vs[0]));
                    } else {
                        assert(arr_text(now) == arr_text(vs.take(i as int)) + ","@ + json_text(
                            vs[i as int],
                        ));
                    }
                    assert(out@ =~= base + arr_text(now));
                }
                i = i + 1;
            }
            out.append("]");
            proof {
                assert(vs.take(vs.len() as int) =~= vs);
                assert(out@ =~= old(out)@ + json_text(n@));
            }
        },
        Node::Object(entries) => {
            let ghost vs = crate::node::view_entries(entries@);
            out.append("{");
            let ghost base = out@;
            let mut i: usize = 0;
            proof {
                assert(obj_text(vs.take(0)) =~= Seq::<char>::empty());
                assert(out@ =~= base + obj_text(vs.take(0)));
            }
            while i < entries.len()
                invariant
                    i <= entries@.len(),
                    out@ == base + obj_text(vs.take(i as int)),
                decreases entries@.len() - i,
            {
                if i > 0 {
                    out.append(",");
                }
                push_quoted(out, entries[i].0.as_str());
                out.append(":");
                proof {
                    assert(decreases_to!(*n => n->Object_0));
                    assert(n->Object_0 == *entries);
                    assert(decreases_to!(*entries => entries@));
                    assert(decreases_to!(entries@ => entries@[i as int]));
                    assert(decreases_to!(entries@[i as int] => entries@[i as int].1));
                }
                push_json(out, &entries[i].1);
                proof {
                    let now = vs.take(i + 1 as int);
                    assert(now.subrange(0, now.len() - 1) =~= vs.take(i as int));
                    assert(now.last() == vs[i as int]);
                    assert(vs[i as int] == (entries@[i as int].0@, view_node(
                        entries@[i as int].1,
                    )));
                    if i == 0 {
                        assert(now.len() == 1);
                        assert(now[0] == vs[0]);
                        assert(obj_text(now) == quoted(vs[0].0) + ":"@ + json_text(vs[0].1));
                    } else {
                        assert(obj_text(now) == obj_text(vs.take(i as int)) + ","@ + quoted(
                            vs[i as int].0,
                        ) + ":"@ + json_text(vs[i as int].1));
                    }
                    assert(out@ =~= base + obj_text(now));
                }
                i = i + 1;
            }
            out.append("}");
            proof {
                assert(vs.take(vs.len() as int) =~= vs);
                assert(out@ =~= old(out)@ + json_text(n@));
            }
        },
    }
}

/// The canonical JSON text of a node, as a fresh string.
pub fn node_to_json(n: &Node) -> (r: String)
    ensures
        r@ == json_text(n@),
{
    let mut out = String::new();
    push_json(&mut out, n);
    proof {
        assert(out@ =~= json_text(n@));
    }
    out
}

/// Appends the native header rendering of a path: a JSON array.
#[verifier::loop_isolation(false)]
pub fn push_path_json(out: &mut String, path: &Path)
    ensures
        final(out)@ == old(out)@ + path_json(path@),
{
    let segs = path.segments();
    let ghost vs = path@;
    out.append("[");
    let ghost base = out@;
    let mut i: usize = 0;
    proof {
        assert(path_json_inner(vs.take(0)) =~= Seq::<char>::empty());
        assert(out@ =~= base + path_json_inner(vs.take(0)));
    }
    while i < segs.len()
        invariant
            segs@.len() == vs.len(),
            crate::path::segs_view(segs@) == vs,
            i <= vs.len(),
            out@ == base + path_json_inner(vs.take(i as int)),
        decreases vs.len() - i,
    {
        if i > 0 {
            out.append(",");
        }
        proof {
            assert(vs[i as int] == segs@[i as int]@);
        }
        match &segs[i] {
            PathSegment::Key(k) => {
                push_quoted(out, k.as_str());
            },
            PathSegment::Index(idx) => {
                push_dec_i64(out, *idx);
            },
        }
        proof {
            let now = vs.take(i + 1 as int);
            assert(now.drop_last() =~= vs.take(i as int));
            assert(now.last() == vs[i as int]);
            if i == 0 {
                assert(now.len() == 1);
                assert(now[0] == vs[0]);
                assert(path_json_inner(now) == seg_json(vs[0]));
            } else {
                assert(path_json_inner(now) == path_json_inner(vs.take(i as int)) + ","@
                    + seg_json(vs[i as int]));
            }
            assert(out@ =~= base + path_json_inner(now));
        }
        i = i + 1;
    }
    out.append("]");
    proof {
        assert(vs.take(vs.len() as int) =~= vs);
        assert(out@ =~= old(out)@ + path_json(vs));
    }
}

/// Appends the bracketed display form of a path slice.
#[verifier::loop_isolation(false)]
pub fn push_path_display(out: &mut String, segs: &[PathSegment])
    ensures
        final(out)@ == old(out)@ + path_display(segs_view(segs@)),
{
    let ghost vs = segs_view(segs@);
    proof {
        assert(forall|j: int| 0 <= j < segs@.len() ==> vs[j] == #[trigger] segs@[j]@);
    }
    out.append("[");
    let ghost base = out@;
    let mut i: usize = 0;
    proof {
        assert(path_display_inner(vs.take(0)) =~= Seq::<char>::empty());
        assert(out@ =~= base + path_display_inner(vs.take(0)));
    }
    while i < segs.len()
        invariant
            segs@.len() == vs.len(),
            segs_view(segs@) == vs,
            forall|j: int| 0 <= j < segs@.len() ==> vs[j] == #[trigger] segs@[j]@,
            i <= vs.len(),
            out@ == base + path_display_inner(vs.take(i as int)),
        decreases vs.len() - i,
    {
        if i > 0 {
            out.append(" ");
        }
        match &segs[i] {
            PathSegment::Key(k) => {
                out.append(k.as_str());
            },
            PathSegment::Index(idx) => {
                push_dec_i64(out, *idx);
            },
        }
        proof {
            let now = vs.take(i + 1 as int);
            assert(now.drop_last() =~= vs.take(i as int));
            assert(now.last() == vs[i as int]);
            if i == 0 {
                assert(now.len() == 1);
                assert(now[0] == vs[0]);
                assert(path_display_inner(now) == seg_display(vs[0]));
            } else {
                assert(path_display_inner(now) == path_display_inner(vs.take(i as int)) + " "@
                    + seg_display(vs[i as int]));
            }
            assert(out@ =~= base + path_display_inner(now));
        }
        i = i + 1;
    }
    out.append("]");
    proof {
        assert(vs.take(vs.len() as int) =~= vs);
        assert(out@ =~= old(out)@ + path_display(vs));
    }
}

} // verus!
