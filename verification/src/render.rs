//! The native text renderer: hunk headers, context lines, removals and
//! additions, with optional ANSI coloring. When a hunk replaces one string
//! by another, coloring highlights the characters that changed, computed by
//! a longest-common-subsequence alignment.
use crate::dtypes::{lemma_view_elems, Diff, DiffElement, ElemV, MetaV, RenderConfig};
use crate::jsontext::{json_text, path_json, push_json, push_path_json};
use crate::node::{view_nodes, Node, NodeV};
use vstd::prelude::*;
use vstd::string::{StrSliceExecFns, StringExecFns};

verus! {

/// The ANSI reset sequence.
pub open spec fn ansi_reset() -> Seq<char> {
    "\u{1b}[0m"@
}

/// The ANSI red sequence, marking removed characters.
pub open spec fn ansi_red() -> Seq<char> {
    "\u{1b}[31m"@
}

/// The ANSI green sequence, marking added characters.
pub open spec fn ansi_green() -> Seq<char> {
    "\u{1b}[32m"@
}

/// The longest common subsequence of two sequences, with the tie-breaking
/// the renderer uses: on equal lengths the alignment drops from the first
/// sequence.
pub open spec fn lcs_seq(a: Seq<char>, b: Seq<char>) -> Seq<char>
    decreases a.len() + b.len(),
{
    if a.len() == 0 || b.len() == 0 {
        Seq::empty()
    } else if a.last() == b.last() {
        lcs_seq(a.drop_last(), b.drop_last()).push(a.last())
    } else if lcs_seq(a.drop_last(), b).len() >= lcs_seq(a, b.drop_last()).len() {
        lcs_seq(a.drop_last(), b)
    } else {
        lcs_seq(a, b.drop_last())
    }
}

/// The common subsequence is no longer than either input.
pub proof fn lemma_lcs_seq_bound(a: Seq<char>, b: Seq<char>)
    ensures
        lcs_seq(a, b).len() <= a.len(),
        lcs_seq(a, b).len() <= b.len(),
    decreases a.len() + b.len(),
{
    if a.len() == 0 || b.len() == 0 {
    } else {
        lemma_lcs_seq_bound(a.drop_last(), b.drop_last());
        lemma_lcs_seq_bound(a.drop_last(), b);
        lemma_lcs_seq_bound(a, b.drop_last());
    }
}

/// The text with its characters outside the common subsequence wrapped in
/// a color and the reset sequence.
pub open spec fn color_diff_text(text: Seq<char>, common: Seq<char>, color: Seq<char>) -> Seq<char>
    decreases text.len(),
{
    if text.len() == 0 {
        Seq::empty()
    } else if common.len() > 0 && text[0] == common[0] {
        seq![text[0]] + color_diff_text(text.drop_first(), common.drop_first(), color)
    } else {
        color + seq![text[0]] + ansi_reset() + color_diff_text(text.drop_first(), common, color)
    }
}

/// Converts a string to its character vector.
fn to_chars(s: &str) -> (r: Vec<char>)
    ensures
        r@ == s@,
{
    let len = s.unicode_len();
    let mut out: Vec<char> = Vec::new();
    let mut i: usize = 0;
    while i < len
        invariant
            len == s@.len(),
            i <= len,
            out@ =~= s@.take(i as int),
        decreases len - i,
    {
        out.push(s.get_char(i));
        proof {
            assert(out@ =~= s@.take(i + 1 as int));
        }
        i = i + 1;
    }
    proof {
        assert(s@.take(len as int) =~= s@);
    }
    out
}

/// Computes the longest common subsequence of two character sequences by
/// dynamic programming, matching `lcs_seq` exactly.
#[verifier::loop_isolation(false)]
pub fn lcs_chars(a: &str, b: &str) -> (r: Vec<char>)
    ensures
        r@ == lcs_seq(a@, b@),
{
    let av = to_chars(a);
    let bv = to_chars(b);
    let n = av.len();
    let m = bv.len();
    // table[i][j] holds the common-subsequence length of the prefixes.
    let mut table: Vec<Vec<usize>> = Vec::new();
    let mut i: u128 = 0;
    while i <= n as u128
        invariant
            i <= (n as u128) + 1,
            av@ == a@,
            bv@ == b@,
            n == a@.len(),
            m == b@.len(),
            table@.len() == i,
            forall|x: int|
                0 <= x < i ==> (#[trigger] table@[x])@.len() == m + 1,
            forall|x: int, y: int|
                0 <= x < i && 0 <= y <= m ==> (#[trigger] table@[x]@[y]) == lcs_seq(
                    a@.take(x),
                    b@.take(y),
                ).len(),
        decreases (n as u128) + 1 - i,
    {
        let iu = i as usize;
        let mut row: Vec<usize> = Vec::new();
        let mut j: u128 = 0;
        while j <= m as u128
            invariant
                j <= (m as u128) + 1,
                iu == i,
                i <= n,
                av@ == a@,
                bv@ == b@,
                n == a@.len(),
                m == b@.len(),
                table@.len() == i,
                forall|x: int|
                    0 <= x < i ==> (#[trigger] table@[x])@.len() == m + 1,
                forall|x: int, y: int|
                    0 <= x < i && 0 <= y <= m ==> (#[trigger] table@[x]@[y]) == lcs_seq(
                        a@.take(x),
                        b@.take(y),
                    ).len(),
                row@.len() == j,
                forall|y: int|
                    0 <= y < j ==> (#[trigger] row@[y]) == lcs_seq(
                        a@.take(i as int),
                        b@.take(y),
                    ).len(),
            decreases (m as u128) + 1 - j,
        {
            let ju = j as usize;
            if iu == 0 || ju == 0 {
                row.push(0);
                proof {
                    assert(lcs_seq(a@.take(i as int), b@.take(j as int)).len() == 0);
                }
            } else {
                proof {
                    assert(a@.take(i as int).last() == a@[i - 1]);
                    assert(b@.take(j as int).last() == b@[j - 1]);
                    assert(a@.take(i as int).drop_last() =~= a@.take(i - 1));
                    assert(b@.take(j as int).drop_last() =~= b@.take(j - 1));
                    lemma_lcs_seq_bound(a@.take(i as int), b@.take(j as int));
                    lemma_lcs_seq_bound(a@.take(i - 1), b@.take(j - 1));
                }
                if av[iu - 1] == bv[ju - 1] {
                    let diag = table[iu - 1][ju - 1];
                    row.push(diag + 1);
                } else {
                    let up = table[iu - 1][ju];
                    let left = row[ju - 1];
                    if up >= left {
                        row.push(up);
                    } else {
                        row.push(left);
                    }
                }
            }
            j = j + 1;
        }
        table.push(row);
        i = i + 1;
    }
    // Backtrack from the full lengths, collecting the subsequence reversed.
    let mut rev: Vec<char> = Vec::new();
    let mut x: usize = n;
    let mut y: usize = m;
    proof {
        assert(a@.take(n as int) =~= a@);
        assert(b@.take(m as int) =~= b@);
        assert(rev@.reverse() =~= Seq::<char>::empty());
    }
    while x > 0 && y > 0
        invariant
            x <= n,
            y <= m,
            av@ == a@,
            bv@ == b@,
            n == a@.len(),
            m == b@.len(),
            table@.len() == n + 1,
            forall|p: int|
                0 <= p <= n ==> (#[trigger] table@[p])@.len() == m + 1,
            forall|p: int, q: int|
                0 <= p <= n && 0 <= q <= m ==> (#[trigger] table@[p]@[q]) == lcs_seq(
                    a@.take(p),
                    b@.take(q),
                ).len(),
            lcs_seq(a@, b@) == lcs_seq(a@.take(x as int), b@.take(y as int)) + rev@.reverse(),
        decreases x + y,
    {
        proof {
            assert(a@.take(x as int).last() == a@[x - 1]);
            assert(b@.take(y as int).last() == b@[y - 1]);
            assert(a@.take(x as int).drop_last() =~= a@.take(x - 1));
            assert(b@.take(y as int).drop_last() =~= b@.take(y - 1));
        }
        if av[x - 1] == bv[y - 1] {
            let ghost pre = rev@;
            rev.push(av[x - 1]);
            proof {
                assert(rev@.reverse() =~= seq![a@[x - 1]] + pre.reverse());
                assert(lcs_seq(a@.take(x as int), b@.take(y as int)) == lcs_seq(
                    a@.take(x - 1),
                    b@.take(y - 1),
                ).push(a@[x - 1]));
                assert(lcs_seq(a@.take(x - 1), b@.take(y - 1)).push(a@[x - 1]) + pre.reverse()
                    =~= lcs_seq(a@.take(x - 1), b@.take(y - 1)) + (seq![a@[x - 1]]
                    + pre.reverse()));
            }
            x = x - 1;
            y = y - 1;
        } else {
            let up = table[x - 1][y];
            let left = table[x][y - 1];
            if up >= left {
                proof {
                    assert(lcs_seq(a@.take(x as int), b@.take(y as int)) == lcs_seq(
                        a@.take(x - 1),
                        b@.take(y as int),
                    ));
                }
                x = x - 1;
            } else {
                proof {
                    assert(lcs_seq(a@.take(x as int), b@.take(y as int)) == lcs_seq(
                        a@.take(x as int),
                        b@.take(y - 1),
                    ));
                }
                y = y - 1;
            }
        }
    }
    proof {
        assert(lcs_seq(a@.take(x as int), b@.take(y as int)).len() == 0) by {
            if x == 0 || y == 0 {
            }
        }
        assert(lcs_seq(a@, b@) =~= rev@.reverse());
    }
    // Reverse into the result.
    let mut out: Vec<char> = Vec::new();
    let mut k: usize = rev.len();
    while k > 0
        invariant
            k <= rev@.len(),
            out@ =~= rev@.reverse().take(rev@.len() - k),
        decreases k,
    {
        k = k - 1;
        out.push(rev[k]);
        proof {
            assert(rev@.reverse()[rev@.len() - 1 - k] == rev@[k as int]);
            assert(out@ =~= rev@.reverse().take(rev@.len() - k));
        }
    }
    proof {
        assert(rev@.reverse().take(rev@.len() as int) =~= rev@.reverse());
    }
    out
}

/// Appends the colored diff rendering of a string's characters: characters
/// in the common subsequence stay plain, others are wrapped in the color.
#[verifier::loop_isolation(false)]
fn push_color_diff(out: &mut String, text: &str, common: &Vec<char>, red: bool)
    ensures
        final(out)@ == old(out)@ + color_diff_text(
            text@,
            common@,
            if red {
                ansi_red()
            } else {
                ansi_green()
            },
        ),
{
    let ghost color = if red {
        ansi_red()
    } else {
        ansi_green()
    };
    let len = text.unicode_len();
    let mut i: usize = 0;
    let mut c: usize = 0;
    proof {
        assert(text@.skip(0) =~= text@);
        assert(common@.skip(0) =~= common@);
    }
    while i < len
        invariant
            len == text@.len(),
            i <= len,
            c <= common@.len(),
            old(out)@ + color_diff_text(text@, common@, color) == out@ + color_diff_text(
                text@.skip(i as int),
                common@.skip(c as int),
                color,
            ),
        decreases len - i,
    {
        let ch = text.get_char(i);
        proof {
            assert(text@.skip(i as int)[0] == text@[i as int]);
            assert(text@.skip(i as int).drop_first() =~= text@.skip(i + 1 as int));
        }
        let matched = if c < common.len() {
            common[c] == ch
        } else {
            false
        };
        if matched {
            proof {
                assert(common@.skip(c as int)[0] == common@[c as int]);
                assert(common@.skip(c as int).drop_first() =~= common@.skip(c + 1 as int));
            }
            let piece = text.substring_char(i, i + 1);
            out.append(piece);
            proof {
                assert(piece@ =~= seq![ch]);
            }
            c = c + 1;
        } else {
            if red {
                out.append("\u{1b}[31m");
            } else {
                out.append("\u{1b}[32m");
            }
            let piece = text.substring_char(i, i + 1);
            out.append(piece);
            out.append("\u{1b}[0m");
            proof {
                assert(piece@ =~= seq![ch]);
            }
        }
        i = i + 1;
    }
    proof {
        assert(text@.skip(len as int).len() == 0);
        assert(color_diff_text(text@.skip(len as int), common@.skip(c as int), color)
            =~= Seq::<char>::empty());
        assert(out@ =~= old(out)@ + color_diff_text(text@, common@, color));
    }
}

/// The most recent metadata carried by an element before position `n`.
pub open spec fn last_meta(elems: Seq<ElemV>, n: int) -> Option<MetaV>
    decreases n,
{
    if n <= 0 {
        None
    } else {
        match elems[n - 1].metadata {
            Some(m) => Some(m),
            None => last_meta(elems, n - 1),
        }
    }
}

/// Whether the renderer treats element `i` as a merge hunk: its own
/// metadata if present, else the most recently carried metadata.
pub open spec fn render_merge_at(elems: Seq<ElemV>, i: int) -> bool {
    match elems[i].metadata {
        Some(m) => m.merge,
        None => match last_meta(elems, i) {
            Some(m) => m.merge,
            None => false,
        },
    }
}

/// The metadata header emitted before element `i`.
pub open spec fn header_text(elems: Seq<ElemV>, i: int) -> Seq<char> {
    match elems[i].metadata {
        Some(m) => if m.merge {
            "^ {\"Merge\":true}\n"@
        } else {
            Seq::empty()
        },
        None => Seq::empty(),
    }
}

/// The context rendering of a node sequence: `Void` is an array boundary.
pub open spec fn context_text(nodes: Seq<NodeV>, open_bracket: bool) -> Seq<char>
    decreases nodes.len(),
{
    if nodes.len() == 0 {
        Seq::empty()
    } else {
        context_text(nodes.drop_last(), open_bracket) + (if nodes.last() is Void {
            if open_bracket {
                "[\n"@
            } else {
                "]\n"@
            }
        } else {
            "  "@ + json_text(nodes.last()) + "\n"@
        })
    }
}

/// Whether a hunk is a single string replacement, eligible for character
/// coloring.
pub open spec fn is_string_diff(e: ElemV) -> bool {
    e.remove.len() == 1 && e.add.len() == 1 && e.remove[0] is Str && e.add[0] is Str
}

/// The removal lines of a hunk.
pub open spec fn remove_text(e: ElemV, color: bool) -> Seq<char>
    decreases e.remove.len(),
{
    if color && is_string_diff(e) {
        let old_s = e.remove[0]->Str_0;
        let new_s = e.add[0]->Str_0;
        "- \""@ + color_diff_text(old_s, lcs_seq(old_s, new_s), ansi_red()) + "\"\n"@
    } else {
        remove_lines(e.remove, color)
    }
}

/// Plain removal lines, each optionally wrapped in red.
pub open spec fn remove_lines(nodes: Seq<NodeV>, color: bool) -> Seq<char>
    decreases nodes.len(),
{
    if nodes.len() == 0 {
        Seq::empty()
    } else {
        remove_lines(nodes.drop_last(), color) + (if nodes.last() is Void {
            Seq::<char>::empty()
        } else if color {
            ansi_red() + "- "@ + json_text(nodes.last()) + "\n"@ + ansi_reset()
        } else {
            "- "@ + json_text(nodes.last()) + "\n"@
        })
    }
}

/// The addition lines of a hunk.
pub open spec fn add_text(e: ElemV, color: bool, is_merge: bool) -> Seq<char> {
    if color && is_string_diff(e) {
        let old_s = e.remove[0]->Str_0;
        let new_s = e.add[0]->Str_0;
        "+ \""@ + color_diff_text(new_s, lcs_seq(old_s, new_s), ansi_green()) + "\"\n"@
    } else {
        add_lines(e.add, color, is_merge)
    }
}

/// Plain addition lines; a `Void` marks a merge deletion and renders as a
/// bare plus under merge semantics.
pub open spec fn add_lines(nodes: Seq<NodeV>, color: bool, is_merge: bool) -> Seq<char>
    decreases nodes.len(),
{
    if nodes.len() == 0 {
        Seq::empty()
    } else {
        add_lines(nodes.drop_last(), color, is_merge) + (if nodes.last() is Void {
            if is_merge {
                if color {
                    ansi_green() + "+\n"@ + ansi_reset()
                } else {
                    "+\n"@
                }
            } else {
                Seq::<char>::empty()
            }
        } else if color {
            ansi_green() + "+ "@ + json_text(nodes.last()) + "\n"@ + ansi_reset()
        } else {
            "+ "@ + json_text(nodes.last()) + "\n"@
        })
    }
}

/// The native rendering of one hunk.
pub open spec fn elem_text(e: ElemV, color: bool, is_merge: bool) -> Seq<char> {
    "@ "@ + path_json(e.path) + "\n"@ + context_text(e.before, true) + remove_text(e, color)
        + add_text(e, color, is_merge) + context_text(e.after, false)
}

/// The native rendering of the elements up to position `n`.
pub open spec fn render_upto(elems: Seq<ElemV>, n: int, color: bool) -> Seq<char>
    decreases n,
{
    if n <= 0 {
        Seq::empty()
    } else {
        render_upto(elems, n - 1, color) + header_text(elems, n - 1) + elem_text(
            elems[n - 1],
            color,
            render_merge_at(elems, n - 1),
        )
    }
}

/// The native rendering of a whole diff.
pub open spec fn render_native(elems: Seq<ElemV>, color: bool) -> Seq<char> {
    render_upto(elems, elems.len() as int, color)
}

/// Appends the context lines of a node vector.
#[verifier::loop_isolation(false)]
fn push_context(out: &mut String, nodes: &Vec<Node>, open_bracket: bool)
    ensures
        final(out)@ == old(out)@ + context_text(view_nodes(nodes@), open_bracket),
{
    broadcast use crate::node::lemma_view_nodes;

    let ghost nv = view_nodes(nodes@);
    let mut i: usize = 0;
    proof {
        assert(context_text(nv.take(0), open_bracket) =~= Seq::<char>::empty());
        assert(out@ =~= old(out)@ + context_text(nv.take(0), open_bracket));
    }
    while i < nodes.len()
        invariant
            i <= nodes@.len(),
            nv == view_nodes(nodes@),
            out@ == old(out)@ + context_text(nv.take(i as int), open_bracket),
        decreases nodes@.len() - i,
    {
        proof {
            assert(nv[i as int] == nodes@[i as int]@);
            assert(nv.take(i + 1 as int).drop_last() =~= nv.take(i as int));
            assert(nv.take(i + 1 as int).last() == nv[i as int]);
        }
        let is_void = matches!(&nodes[i], Node::Void);
        if is_void {
            if open_bracket {
                out.append("[\n");
            } else {
                out.append("]\n");
            }
        } else {
            out.append("  ");
            push_json(out, &nodes[i]);
            out.append("\n");
        }
        proof {
            assert(out@ =~= old(out)@ + context_text(nv.take(i + 1 as int), open_bracket));
        }
        i = i + 1;
    }
    proof {
        assert(nv.take(nv.len() as int) =~= nv);
    }
}

/// Appends the plain removal lines of a node vector.
#[verifier::loop_isolation(false)]
fn push_remove_lines(out: &mut String, nodes: &Vec<Node>, color: bool)
    ensures
        final(out)@ == old(out)@ + remove_lines(view_nodes(nodes@), color),
{
    broadcast use crate::node::lemma_view_nodes;

    let ghost nv = view_nodes(nodes@);
    let mut i: usize = 0;
    proof {
        assert(remove_lines(nv.take(0), color) =~= Seq::<char>::empty());
        assert(out@ =~= old(out)@ + remove_lines(nv.take(0), color));
    }
    while i < nodes.len()
        invariant
            i <= nodes@.len(),
            nv == view_nodes(nodes@),
            out@ == old(out)@ + remove_lines(nv.take(i as int), color),
        decreases nodes@.len() - i,
    {
        proof {
            assert(nv[i as int] == nodes@[i as int]@);
            assert(nv.take(i + 1 as int).drop_last() =~= nv.take(i as int));
            assert(nv.take(i + 1 as int).last() == nv[i as int]);
        }
        let is_void = matches!(&nodes[i], Node::Void);
        if !is_void {
            if color {
                out.append("\u{1b}[31m");
            }
            out.append("- ");
            push_json(out, &nodes[i]);
            out.append("\n");
            if color {
                out.append("\u{1b}[0m");
            }
        }
        proof {
            assert(out@ =~= old(out)@ + remove_lines(nv.take(i + 1 as int), color));
        }
        i = i + 1;
    }
    proof {
        assert(nv.take(nv.len() as int) =~= nv);
    }
}

/// Appends the plain addition lines of a node vector.
#[verifier::loop_isolation(false)]
#[verifier::rlimit(40)]
fn push_add_lines(out: &mut String, nodes: &Vec<Node>, color: bool, is_merge: bool)
    ensures
        final(out)@ == old(out)@ + add_lines(view_nodes(nodes@), color, is_merge),
{
    broadcast use crate::node::lemma_view_nodes;

    let ghost nv = view_nodes(nodes@);
    let mut i: usize = 0;
    proof {
        assert(add_lines(nv.take(0), color, is_merge) =~= Seq::<char>::empty());
        assert(out@ =~= old(out)@ + add_lines(nv.take(0), color, is_merge));
    }
    while i < nodes.len()
        invariant
            i <= nodes@.len(),
            nv == view_nodes(nodes@),
            out@ == old(out)@ + add_lines(nv.take(i as int), color, is_merge),
        decreases nodes@.len() - i,
    {
        proof {
            assert(nv[i as int] == nodes@[i as int]@);
            assert(nv.take(i + 1 as int).drop_last() =~= nv.take(i as int));
            assert(nv.take(i + 1 as int).last() == nv[i as int]);
        }
        let is_void = matches!(&nodes[i], Node::Void);
        if is_void {
            if is_merge {
                if color {
                    out.append("\u{1b}[32m");
                }
                out.append("+\n");
                if color {
                    out.append("\u{1b}[0m");
                }
            }
        } else {
            if color {
                out.append("\u{1b}[32m");
            }
            out.append("+ ");
            push_json(out, &nodes[i]);
            out.append("\n");
            if color {
                out.append("\u{1b}[0m");
            }
        }
        proof {
            assert(out@ =~= old(out)@ + add_lines(nv.take(i + 1 as int), color, is_merge));
        }
        i = i + 1;
    }
    proof {
        assert(nv.take(nv.len() as int) =~= nv);
    }
}

/// Appends the native rendering of one hunk.
#[verifier::loop_isolation(false)]
#[verifier::rlimit(40)]
fn push_elem(out: &mut String, e: &DiffElement, color: bool, is_merge: bool)
    ensures
        final(out)@ == old(out)@ + elem_text(e@, color, is_merge),
{
    broadcast use crate::node::lemma_view_nodes;

    out.append("@ ");
    push_path_json(out, &e.path);
    out.append("\n");
    push_context(out, &e.before, true);
    let string_diff = if e.remove.len() == 1 && e.add.len() == 1 {
        let r0_str = matches!(&e.remove[0], Node::String(_));
        let a0_str = matches!(&e.add[0], Node::String(_));
        r0_str && a0_str
    } else {
        false
    };
    proof {
        assert(view_nodes(e.remove@).len() == e.remove@.len());
        assert(view_nodes(e.add@).len() == e.add@.len());
        if e.remove@.len() == 1 {
            assert(view_nodes(e.remove@)[0] == e.remove@[0]@);
        }
        if e.add@.len() == 1 {
            assert(view_nodes(e.add@)[0] == e.add@[0]@);
        }
        assert(string_diff == is_string_diff(e@));
    }
    if color && string_diff {
        let old_str = match &e.remove[0] {
            Node::String(s) => s.as_str(),
            _ => "",
        };
        let new_str = match &e.add[0] {
            Node::String(s) => s.as_str(),
            _ => "",
        };
        let common = lcs_chars(old_str, new_str);
        out.append("- \"");
        push_color_diff(out, old_str, &common, true);
        out.append("\"\n");
        out.append("+ \"");
        push_color_diff(out, new_str, &common, false);
        out.append("\"\n");
        proof {
            assert(old_str@ == e@.remove[0]->Str_0);
            assert(new_str@ == e@.add[0]->Str_0);
            assert(out@ =~= old(out)@ + ("@ "@ + path_json(e@.path) + "\n"@) + context_text(
                e@.before,
                true,
            ) + remove_text(e@, color) + add_text(e@, color, is_merge));
        }
    } else {
        push_remove_lines(out, &e.remove, color);
        push_add_lines(out, &e.add, color, is_merge);
    }
    push_context(out, &e.after, false);
    proof {
        assert(out@ =~= old(out)@ + elem_text(e@, color, is_merge));
    }
}

impl Diff {
    /// Renders the diff using the native text format, with a merge header
    /// before each hunk that introduces merge metadata.
    #[verifier::loop_isolation(false)]
    pub fn render(&self, config: &RenderConfig) -> (r: String)
        ensures
            r@ == render_native(self@, config.color_on()),
    {
        broadcast use lemma_view_elems;

        let color = config.color_enabled();
        let ghost ev = self@;
        let elements = self.elements();
        let mut out = String::new();
        let mut merge_inherited = false;
        let mut have_inherited = false;
        let mut i: usize = 0;
        proof {
            assert(out@ =~= render_upto(ev, 0, color));
        }
        while i < elements.len()
            invariant
                i <= elements@.len(),
                ev == crate::dtypes::view_elems(elements@),
                ev.len() == elements@.len(),
                out@ == render_upto(ev, i as int, color),
                match last_meta(ev, i as int) {
                    Some(m) => have_inherited && merge_inherited == m.merge,
                    None => !have_inherited,
                },
            decreases elements@.len() - i,
        {
            let element = &elements[i];
            proof {
                assert(ev[i as int] == elements@[i as int]@);
            }
            let is_merge: bool;
            match &element.metadata {
                Some(meta) => {
                    if meta.merge {
                        out.append("^ {\"Merge\":true}\n");
                    }
                    merge_inherited = meta.merge;
                    have_inherited = true;
                    is_merge = meta.merge;
                },
                None => {
                    is_merge = have_inherited && merge_inherited;
                },
            }
            proof {
                assert(is_merge == render_merge_at(ev, i as int));
            }
            push_elem(&mut out, element, color, is_merge);
            proof {
                assert(out@ =~= render_upto(ev, i + 1 as int, color));
            }
            i = i + 1;
        }
        out
    }
}

} // verus!
