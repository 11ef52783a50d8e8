//! Hash codes of nodes: per-kind domain separators, FNV-1a over value bytes,
//! and order-insensitive combination for set and multiset semantics.
//!
//! The exact constants and byte orders are part of the wire contract.
use crate::hash::{fnv1a, fnv1a_u64, le_bytes, u64_to_le_bytes, HashCode};
use crate::node::{
    lemma_view_entries, lemma_view_nodes, view_entries, view_node, view_nodes, Node, NodeV,
};
use crate::options::{ArrayMode, DiffOptions};
use vstd::prelude::*;

verus! {

/// The hash of the `Void` sentinel (little-endian interpretation of its
/// 8-byte constant).
pub const VOID_HASH64: u64 = 0x968D2691216B97F3;

/// The hash of JSON `null`.
pub const NULL_HASH64: u64 = 0x88E032E6CCAB73FE;

/// The hash of JSON `true`.
pub const TRUE_HASH64: u64 = 0x1CDC59AFE4E36B24;

/// The hash of JSON `false`.
pub const FALSE_HASH64: u64 = 0xBF1F7E0AD17738C6;

/// The domain separator prepended to list hashes.
pub open spec fn list_seed() -> Seq<u8> {
    seq![0xF5u8, 0x18u8, 0x0Au8, 0x71u8, 0xA4u8, 0xC4u8, 0x03u8, 0xF3u8]
}

/// The domain separator prepended to object hashes.
pub open spec fn object_seed() -> Seq<u8> {
    seq![0x00u8, 0x5Du8, 0x39u8, 0xA4u8, 0x18u8, 0x10u8, 0xEAu8, 0xD5u8]
}

/// The byte-swap of a 64-bit value. Comparing swapped values numerically is
/// the same as comparing the original values' little-endian bytes
/// lexicographically, which is the sort order of combined hashes.
pub open spec fn swap64(h: u64) -> u64 {
    ((h & 0xFF) << 56) | (((h >> 8) & 0xFF) << 48) | (((h >> 16) & 0xFF) << 40) | (((h >> 24)
        & 0xFF) << 32) | (((h >> 32) & 0xFF) << 24) | (((h >> 40) & 0xFF) << 16) | (((h >> 48)
        & 0xFF) << 8) | ((h >> 56) & 0xFF)
}

/// The sort order of hash codes: byte-lexicographic on little-endian bytes.
pub open spec fn hash_le(a: u64, b: u64) -> bool {
    swap64(a) <= swap64(b)
}

/// Sorts hash codes ascending in `hash_le` order.
pub open spec fn sort_hashes(hs: Seq<u64>) -> Seq<u64> {
    hs.sort_by(|a: u64, b: u64| hash_le(a, b))
}

/// Removes adjacent duplicates (all duplicates, on sorted input).
pub open spec fn dedup_hashes(hs: Seq<u64>) -> Seq<u64>
    decreases hs.len(),
{
    if hs.len() == 0 {
        Seq::empty()
    } else {
        let front = dedup_hashes(hs.drop_last());
        if front.len() > 0 && front.last() == hs.last() {
            front
        } else {
            front.push(hs.last())
        }
    }
}

/// The little-endian bytes of a sequence of hash codes, concatenated.
pub open spec fn concat_le(hs: Seq<u64>) -> Seq<u8>
    decreases hs.len(),
{
    if hs.len() == 0 {
        Seq::empty()
    } else {
        concat_le(hs.drop_last()) + le_bytes(hs.last())
    }
}

/// The hash code of a node value under the given array interpretation.
pub open spec fn node_hash(v: NodeV, mode: ArrayMode) -> u64
    decreases v,
{
    match v {
        NodeV::Void => VOID_HASH64,
        NodeV::Null => NULL_HASH64,
        NodeV::Bool(b) => if b {
            TRUE_HASH64
        } else {
            FALSE_HASH64
        },
        NodeV::Num { bits, .. } => fnv1a(le_bytes(bits)),
        NodeV::Str(s) => fnv1a(vstd::utf8::encode_utf8(s)),
        NodeV::Arr(items) => {
            let hs = child_hashes(items, mode);
            match mode {
                ArrayMode::List => fnv1a(list_seed() + concat_le(hs)),
                ArrayMode::SetMode => fnv1a(concat_le(dedup_hashes(sort_hashes(hs)))),
                ArrayMode::MultiSet => fnv1a(concat_le(sort_hashes(hs))),
            }
        },
        NodeV::Obj(entries) => fnv1a(object_seed() + obj_hash_bytes(entries, mode)),
    }
}

/// The hash codes of a sequence of node values, elementwise.
pub open spec fn child_hashes(items: Seq<NodeV>, mode: ArrayMode) -> Seq<u64>
    decreases items,
{
    if items.len() == 0 {
        Seq::empty()
    } else {
        proof {
            broadcast use vstd::seq::axiom_seq_subrange_decreases;

            assert(decreases_to!(items => items.subrange(0, items.len() - 1)));
        }
        child_hashes(items.subrange(0, items.len() - 1), mode).push(node_hash(items.last(), mode))
    }
}

/// The bytes hashed for an object: for each entry in order, the hash of the
/// key's UTF-8 bytes followed by the hash of the value.
pub open spec fn obj_hash_bytes(entries: Seq<(Seq<char>, NodeV)>, mode: ArrayMode) -> Seq<u8>
    decreases entries,
{
    if entries.len() == 0 {
        Seq::empty()
    } else {
        proof {
            broadcast use vstd::seq::axiom_seq_subrange_decreases;

            assert(decreases_to!(entries => entries.subrange(0, entries.len() - 1)));
            assert(decreases_to!(entries => entries.last()));
        }
        obj_hash_bytes(entries.subrange(0, entries.len() - 1), mode) + le_bytes(
            fnv1a(vstd::utf8::encode_utf8(entries.last().0)),
        ) + le_bytes(node_hash(entries.last().1, mode))
    }
}

/// The elementwise child hashes keep lengths and map each element.
pub broadcast proof fn lemma_child_hashes(items: Seq<NodeV>, mode: ArrayMode)
    ensures
        (#[trigger] child_hashes(items, mode)).len() == items.len(),
        forall|i: int|
            0 <= i < items.len() ==> #[trigger] child_hashes(items, mode)[i] == node_hash(
                items[i],
                mode,
            ),
    decreases items.len(),
{
    if items.len() > 0 {
        lemma_child_hashes(items.subrange(0, items.len() - 1), mode);
        assert forall|i: int| 0 <= i < items.len() implies #[trigger] child_hashes(items, mode)[i]
            == node_hash(items[i], mode) by {
            if i < items.len() - 1 {
                assert(items.subrange(0, items.len() - 1)[i] == items[i]);
            }
        }
    }
}

/// Appending a hash appends its bytes.
pub proof fn lemma_concat_le_push(hs: Seq<u64>, x: u64)
    ensures
        concat_le(hs.push(x)) == concat_le(hs) + le_bytes(x),
{
    assert(hs.push(x).drop_last() =~= hs);
}

/// Swaps the bytes of a 64-bit value.
pub fn swap64_exec(h: u64) -> (r: u64)
    ensures
        r == swap64(h),
{
    ((h & 0xFF) << 56) | (((h >> 8) & 0xFF) << 48) | (((h >> 16) & 0xFF) << 40) | (((h >> 24)
        & 0xFF) << 32) | (((h >> 32) & 0xFF) << 24) | (((h >> 40) & 0xFF) << 16) | (((h >> 48)
        & 0xFF) << 8) | ((h >> 56) & 0xFF)
}

/// `hash_le` is a total ordering: the byte swap is an involution, so it is
/// injective, which gives antisymmetry.
pub proof fn lemma_hash_le_total_ordering()
    ensures
        vstd::relations::total_ordering(|a: u64, b: u64| hash_le(a, b)),
{
    let leq = |a: u64, b: u64| hash_le(a, b);
    assert forall|a: u64, b: u64| #[trigger] leq(a, b) && leq(b, a) implies a == b by {
        lemma_swap64_injective(a, b);
    }
    assert forall|a: u64| #[trigger] leq(a, a) by {
    }
    assert forall|a: u64, b: u64, c: u64| #[trigger] leq(a, b) && #[trigger] leq(b, c) implies leq(
        a,
        c,
    ) by {
    }
    assert forall|a: u64, b: u64| #![trigger leq(a, b)] true implies leq(a, b) || leq(b, a) by {
    }
}

/// Equal byte swaps come from equal values.
proof fn lemma_swap64_injective(a: u64, b: u64)
    requires
        swap64(a) == swap64(b),
    ensures
        a == b,
{
    assert(swap64(a) == swap64(b) ==> a == b) by (bit_vector)
        requires
            swap64(a) == ((a & 0xFF) << 56) | (((a >> 8) & 0xFF) << 48) | (((a >> 16) & 0xFF)
                << 40) | (((a >> 24) & 0xFF) << 32) | (((a >> 32) & 0xFF) << 24) | (((a >> 40)
                & 0xFF) << 16) | (((a >> 48) & 0xFF) << 8) | ((a >> 56) & 0xFF),
            swap64(b) == ((b & 0xFF) << 56) | (((b >> 8) & 0xFF) << 48) | (((b >> 16) & 0xFF)
                << 40) | (((b >> 24) & 0xFF) << 32) | (((b >> 32) & 0xFF) << 24) | (((b >> 40)
                & 0xFF) << 16) | (((b >> 48) & 0xFF) << 8) | ((b >> 56) & 0xFF),
    ;
}

/// Sorts hash codes ascending in `hash_le` order, by insertion.
pub fn sort_hashes_exec(hs: Vec<u64>) -> (r: Vec<u64>)
    ensures
        r@ == sort_hashes(hs@),
{
    let leq = Ghost(|a: u64, b: u64| hash_le(a, b));
    let mut out: Vec<u64> = Vec::new();
    let mut i: usize = 0;
    proof {
        lemma_hash_le_total_ordering();
        assert(hs@.take(0) =~= Seq::<u64>::empty());
        assert(out@.to_multiset() =~= hs@.take(0).to_multiset());
    }
    while i < hs.len()
        invariant
            i <= hs@.len(),
            out@.to_multiset() == hs@.take(i as int).to_multiset(),
            vstd::relations::sorted_by(out@, leq@),
            leq@ == (|a: u64, b: u64| hash_le(a, b)),
        decreases hs@.len() - i,
    {
        out = insert_hash(out, hs[i]);
        proof {
            assert(hs@.take(i + 1 as int) =~= hs@.take(i as int).push(hs@[i as int]));
            hs@.take(i as int).to_multiset_ensures();
            hs@.take(i + 1 as int).to_multiset_ensures();
            assert(hs@.take(i as int).push(hs@[i as int]).to_multiset() =~= hs@.take(
                i as int,
            ).to_multiset().insert(hs@[i as int]));
        }
        i = i + 1;
    }
    proof {
        assert(hs@.take(hs@.len() as int) =~= hs@);
        lemma_hash_le_total_ordering();
        hs@.lemma_sort_by_ensures(leq@);
        vstd::seq_lib::lemma_sorted_unique(out@, sort_hashes(hs@), leq@);
    }
    out
}

/// Inserts one hash into a sorted vector, keeping it sorted.
fn insert_hash(hs: Vec<u64>, x: u64) -> (r: Vec<u64>)
    requires
        vstd::relations::sorted_by(hs@, |a: u64, b: u64| hash_le(a, b)),
    ensures
        r@.to_multiset() == hs@.to_multiset().insert(x),
        vstd::relations::sorted_by(r@, |a: u64, b: u64| hash_le(a, b)),
{
    let ghost leq = |a: u64, b: u64| hash_le(a, b);
    let sx = swap64_exec(x);
    let mut pos: usize = 0;
    while pos < hs.len() && swap64_exec(hs[pos]) <= sx
        invariant
            sx == swap64(x),
            pos <= hs@.len(),
            vstd::relations::sorted_by(hs@, leq),
            leq == (|a: u64, b: u64| hash_le(a, b)),
            forall|j: int| 0 <= j < pos ==> hash_le(#[trigger] hs@[j], x),
        decreases hs@.len() - pos,
    {
        pos = pos + 1;
    }
    proof {
        if pos < hs@.len() {
            assert(!hash_le(hs@[pos as int], x));
            lemma_hash_le_total_ordering();
            assert(hash_le(x, hs@[pos as int]));
        }
    }
    let mut out: Vec<u64> = Vec::new();
    let mut i: usize = 0;
    while i < pos
        invariant
            pos <= hs@.len(),
            i <= pos,
            out@ =~= hs@.take(i as int),
        decreases pos - i,
    {
        out.push(hs[i]);
        proof {
            assert(out@ =~= hs@.take(i + 1 as int));
        }
        i = i + 1;
    }
    out.push(x);
    let mut k: usize = pos;
    while k < hs.len()
        invariant
            pos <= k <= hs@.len(),
            out@ =~= hs@.take(pos as int).push(x) + hs@.skip(pos as int).take(k - pos as int),
        decreases hs@.len() - k,
    {
        out.push(hs[k]);
        proof {
            assert(hs@.skip(pos as int).take(k + 1 - pos as int) =~= hs@.skip(pos as int).take(
                k - pos as int,
            ).push(hs@[k as int]));
            assert(out@ =~= hs@.take(pos as int).push(x) + hs@.skip(pos as int).take(
                k + 1 - pos as int,
            ));
        }
        k = k + 1;
    }
    proof {
        assert(hs@.skip(pos as int).take(hs@.len() - pos as int) =~= hs@.skip(pos as int));
        assert(out@ =~= hs@.take(pos as int).push(x) + hs@.skip(pos as int));
        lemma_hash_insert_multiset(hs@, x, pos as int);
        lemma_hash_insert_sorted(hs@, x, pos as int);
    }
    out
}

proof fn lemma_hash_insert_multiset(hs: Seq<u64>, x: u64, pos: int)
    requires
        0 <= pos <= hs.len(),
    ensures
        (hs.take(pos).push(x) + hs.skip(pos)).to_multiset() == hs.to_multiset().insert(x),
{
    vstd::seq_lib::lemma_multiset_commutative(hs.take(pos).push(x), hs.skip(pos));
    hs.take(pos).to_multiset_ensures();
    assert(hs.take(pos).push(x).to_multiset() =~= hs.take(pos).to_multiset().insert(x));
    vstd::seq_lib::lemma_multiset_commutative(hs.take(pos), hs.skip(pos));
    assert(hs.take(pos) + hs.skip(pos) =~= hs);
    assert((hs.take(pos).push(x) + hs.skip(pos)).to_multiset() =~= hs.to_multiset().insert(x));
}

proof fn lemma_hash_insert_sorted(hs: Seq<u64>, x: u64, pos: int)
    requires
        0 <= pos <= hs.len(),
        vstd::relations::sorted_by(hs, |a: u64, b: u64| hash_le(a, b)),
        forall|j: int| 0 <= j < pos ==> hash_le(#[trigger] hs[j], x),
        pos < hs.len() ==> hash_le(x, hs[pos]),
    ensures
        vstd::relations::sorted_by(
            hs.take(pos).push(x) + hs.skip(pos),
            |a: u64, b: u64| hash_le(a, b),
        ),
{
    let leq = |a: u64, b: u64| hash_le(a, b);
    let merged = hs.take(pos).push(x) + hs.skip(pos);
    assert forall|i: int, j: int| 0 <= i < j < merged.len() implies leq(merged[i], merged[j]) by {
        lemma_hash_le_total_ordering();
        if j < pos {
            assert(leq(hs[i], hs[j]));
        } else if j == pos {
            assert(merged[j] == x);
            assert(hash_le(hs[i], x));
        } else if i == pos {
            assert(merged[i] == x);
            if pos < j - 1 {
                assert(leq(hs[pos], hs[j - 1]));
            }
            assert(hash_le(x, hs[pos]));
            assert(hash_le(x, hs[j - 1]));
        } else if i < pos {
            if i < j - 1 {
                assert(leq(hs[i], hs[j - 1]));
            } else {
                assert(hash_le(hs[i], hs[j - 1]));
            }
        } else {
            assert(leq(hs[i - 1], hs[j - 1]));
        }
    }
}

/// Removes adjacent duplicates from a vector of hash codes.
pub fn dedup_hashes_exec(hs: &Vec<u64>) -> (r: Vec<u64>)
    ensures
        r@ == dedup_hashes(hs@),
{
    let mut out: Vec<u64> = Vec::new();
    let mut i: usize = 0;
    proof {
        assert(hs@.take(0) =~= Seq::<u64>::empty());
    }
    while i < hs.len()
        invariant
            i <= hs@.len(),
            out@ == dedup_hashes(hs@.take(i as int)),
        decreases hs@.len() - i,
    {
        let keep = if out.len() == 0 {
            true
        } else {
            out[out.len() - 1] != hs[i]
        };
        if keep {
            out.push(hs[i]);
        }
        proof {
            assert(hs@.take(i + 1 as int).drop_last() =~= hs@.take(i as int));
            assert(hs@.take(i + 1 as int).last() == hs@[i as int]);
        }
        i = i + 1;
    }
    proof {
        assert(hs@.take(hs@.len() as int) =~= hs@);
    }
    out
}

/// Computes the hash code of a node under the given array interpretation.
#[verifier::loop_isolation(false)]
pub fn hash_node(n: &Node, mode: ArrayMode) -> (r: u64)
    ensures
        r == node_hash(n@, mode),
    decreases *n,
{
    broadcast use lemma_view_nodes, lemma_view_entries, lemma_child_hashes;

    match n {
        Node::Void => VOID_HASH64,
        Node::Null => NULL_HASH64,
        Node::Bool(b) => if *b {
            TRUE_HASH64
        } else {
            FALSE_HASH64
        },
        Node::Number(num) => fnv1a_u64(u64_to_le_bytes(num.get()).as_slice()),
        Node::String(s) => fnv1a_u64(s.as_str().as_bytes()),
        Node::Array(items) => {
            let ghost vs = view_nodes(items@);
            let mut hs: Vec<u64> = Vec::new();
            let mut i: usize = 0;
            while i < items.len()
                invariant
                    i <= items@.len(),
                    hs@.len() == i,
                    forall|j: int| 0 <= j < i ==> hs@[j] == node_hash(#[trigger] vs[j], mode),
                decreases items@.len() - i,
            {
                proof {
                    assert(decreases_to!(*n => n->Array_0));
                    assert(n->Array_0 == *items);
                    assert(decreases_to!(*items => items@));
                    assert(decreases_to!(items@ => items@[i as int]));
                }
                let h = hash_node(&items[i], mode);
                hs.push(h);
                i = i + 1;
            }
            proof {
                assert(hs@ =~= child_hashes(vs, mode));
            }
            match mode {
                ArrayMode::List => {
                    let mut bytes: Vec<u8> = Vec::new();
                    push_seed(&mut bytes, true);
                    let ghost seeded = bytes@;
                    let mut k: usize = 0;
                    proof {
                        assert(bytes@ =~= list_seed() + concat_le(hs@.take(0)));
                    }
                    while k < hs.len()
                        invariant
                            k <= hs@.len(),
                            bytes@ == list_seed() + concat_le(hs@.take(k as int)),
                        decreases hs@.len() - k,
                    {
                        push_le_bytes(&mut bytes, hs[k]);
                        proof {
                            assert(hs@.take(k + 1 as int) =~= hs@.take(k as int).push(
                                hs@[k as int],
                            ));
                            lemma_concat_le_push(hs@.take(k as int), hs@[k as int]);
                            assert(bytes@ =~= list_seed() + concat_le(hs@.take(k + 1 as int)));
                        }
                        k = k + 1;
                    }
                    proof {
                        assert(hs@.take(hs@.len() as int) =~= hs@);
                    }
                    fnv1a_u64(bytes.as_slice())
                },
                ArrayMode::SetMode => {
                    let sorted = sort_hashes_exec(hs);
                    let unique = dedup_hashes_exec(&sorted);
                    hash_code_sequence(&unique)
                },
                ArrayMode::MultiSet => {
                    let sorted = sort_hashes_exec(hs);
                    hash_code_sequence(&sorted)
                },
            }
        },
        Node::Object(entries) => {
            let ghost vs = view_entries(entries@);
            let mut bytes: Vec<u8> = Vec::new();
            push_seed(&mut bytes, false);
            let mut i: usize = 0;
            proof {
                assert(bytes@ =~= object_seed() + obj_hash_bytes(vs.take(0), mode));
            }
            while i < entries.len()
                invariant
                    i <= entries@.len(),
                    bytes@ == object_seed() + obj_hash_bytes(vs.take(i as int), mode),
                decreases entries@.len() - i,
            {
                let key_hash = fnv1a_u64(entries[i].0.as_str().as_bytes());
                push_le_bytes(&mut bytes, key_hash);
                proof {
                    assert(decreases_to!(*n => n->Object_0));
                    assert(n->Object_0 == *entries);
                    assert(decreases_to!(*entries => entries@));
                    assert(decreases_to!(entries@ => entries@[i as int]));
                    assert(decreases_to!(entries@[i as int] => entries@[i as int].1));
                }
                let value_hash = hash_node(&entries[i].1, mode);
                push_le_bytes(&mut bytes, value_hash);
                proof {
                    let pre = vs.take(i as int);
                    let now = vs.take(i + 1 as int);
                    assert(now.drop_last() =~= pre);
                    assert(now.last() == vs[i as int]);
                    assert(vs[i as int] == (entries@[i as int].0@, view_node(
                        entries@[i as int].1,
                    )));
                    assert(obj_hash_bytes(now, mode) == obj_hash_bytes(pre, mode) + le_bytes(
                        fnv1a(vstd::utf8::encode_utf8(vs[i as int].0)),
                    ) + le_bytes(node_hash(vs[i as int].1, mode)));
                    assert(bytes@ =~= object_seed() + obj_hash_bytes(now, mode));
                }
                i = i + 1;
            }
            proof {
                assert(vs.take(vs.len() as int) =~= vs);
            }
            fnv1a_u64(bytes.as_slice())
        },
    }
}

/// Hashes the concatenated little-endian bytes of a sequence of hash codes.
fn hash_code_sequence(hs: &Vec<u64>) -> (r: u64)
    ensures
        r == fnv1a(concat_le(hs@)),
{
    let mut bytes: Vec<u8> = Vec::new();
    let mut k: usize = 0;
    proof {
        assert(bytes@ =~= concat_le(hs@.take(0)));
    }
    while k < hs.len()
        invariant
            k <= hs@.len(),
            bytes@ == concat_le(hs@.take(k as int)),
        decreases hs@.len() - k,
    {
        push_le_bytes(&mut bytes, hs[k]);
        proof {
            assert(hs@.take(k + 1 as int) =~= hs@.take(k as int).push(hs@[k as int]));
            lemma_concat_le_push(hs@.take(k as int), hs@[k as int]);
            assert(bytes@ =~= concat_le(hs@.take(k + 1 as int)));
        }
        k = k + 1;
    }
    proof {
        assert(hs@.take(hs@.len() as int) =~= hs@);
    }
    fnv1a_u64(bytes.as_slice())
}

/// Appends one of the two domain separators.
fn push_seed(bytes: &mut Vec<u8>, list: bool)
    ensures
        list ==> final(bytes)@ == old(bytes)@ + list_seed(),
        !list ==> final(bytes)@ == old(bytes)@ + object_seed(),
{
    if list {
        bytes.push(0xF5);
        bytes.push(0x18);
        bytes.push(0x0A);
        bytes.push(0x71);
        bytes.push(0xA4);
        bytes.push(0xC4);
        bytes.push(0x03);
        bytes.push(0xF3);
        proof {
            assert(bytes@ =~= old(bytes)@ + list_seed());
        }
    } else {
        bytes.push(0x00);
        bytes.push(0x5D);
        bytes.push(0x39);
        bytes.push(0xA4);
        bytes.push(0x18);
        bytes.push(0x10);
        bytes.push(0xEA);
        bytes.push(0xD5);
        proof {
            assert(bytes@ =~= old(bytes)@ + object_seed());
        }
    }
}

/// Appends the 8 little-endian bytes of a hash code.
fn push_le_bytes(bytes: &mut Vec<u8>, h: u64)
    ensures
        final(bytes)@ == old(bytes)@ + le_bytes(h),
{
    bytes.push((h & 0xff) as u8);
    bytes.push(((h >> 8) & 0xff) as u8);
    bytes.push(((h >> 16) & 0xff) as u8);
    bytes.push(((h >> 24) & 0xff) as u8);
    bytes.push(((h >> 32) & 0xff) as u8);
    bytes.push(((h >> 40) & 0xff) as u8);
    bytes.push(((h >> 48) & 0xff) as u8);
    bytes.push(((h >> 56) & 0xff) as u8);
    proof {
        assert(bytes@ =~= old(bytes)@ + le_bytes(h));
    }
}

impl Node {
    /// Computes the hash code for this node: 8 little-endian bytes of the
    /// 64-bit per-kind hash, honoring the configured array mode.
    pub fn hash_code(&self, options: &DiffOptions) -> (r: HashCode)
        ensures
            r@ == le_bytes(node_hash(self@, options@.array_mode)),
    {
        u64_to_le_bytes(hash_node(self, options.array_mode()))
    }
}

} // verus!
