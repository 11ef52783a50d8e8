//! Global laws of the library, proved once and for all: equality under any
//! options is reflexive on well-formed nodes; the empty diff changes
//! nothing; and reversal is an involution on diffs that carry no metadata.
//!
//! Together with the engine's own contracts these give: a node's diff with
//! itself is empty (reflexivity plus the diff contract), and applying an
//! empty diff returns the input (the patch contract plus the law below).
use crate::dtypes::{effective_meta, inherited_meta, ElemV};
use crate::eq::node_eq_opts;
use crate::node::{node_wf, obj_lookup, NodeV};
use crate::number::{f64_is_neg, finite_bits, f64_val_scaled, within_tolerance};
use crate::options::{ArrayMode, OptionsV};
use crate::patch::{apply_spec, apply_upto};
use crate::reverse::{reversed_elem, reversed_meta};
use vstd::prelude::*;

verus! {

/// Equality under any options with a valid tolerance is reflexive on
/// well-formed nodes.
pub proof fn lemma_eq_opts_reflexive(a: NodeV, opts: OptionsV)
    requires
        node_wf(a),
        finite_bits(opts.precision),
        !f64_is_neg(opts.precision),
    ensures
        node_eq_opts(a, a, opts),
    decreases a,
{
    match a {
        NodeV::Num { bits, .. } => {
            assert(f64_val_scaled(opts.precision) >= 0);
            assert(within_tolerance(bits, bits, opts.precision));
        },
        NodeV::Arr(items) => {
            match opts.array_mode {
                ArrayMode::List => {
                    assert forall|i: int| 0 <= i < items.len() implies node_eq_opts(
                        #[trigger] items[i],
                        items[i],
                        opts,
                    ) by {
                        assert(node_wf(a->Arr_0[i]));
                        lemma_eq_opts_reflexive(items[i], opts);
                    }
                },
                _ => {
                },
            }
        },
        NodeV::Obj(entries) => {
            assert forall|i: int| 0 <= i < entries.len() implies match obj_lookup(
                entries,
                (#[trigger] entries[i]).0,
            ) {
                Some(v) => node_eq_opts(entries[i].1, v, opts),
                None => false,
            } by {
                assert(node_wf(a->Obj_0[i].1));
                assert forall|j: int| 0 <= j < i implies (#[trigger] entries[j]).0
                    != entries[i].0 by {
                    assert(crate::strutil::str_lt(a->Obj_0[j].0, a->Obj_0[i].0));
                }
                crate::eq::lemma_lookup_skip_public(entries, entries[i].0, i);
                lemma_eq_opts_reflexive(entries[i].1, opts);
            }
        },
        _ => {
        },
    }
}

/// Applying an empty diff returns the input unchanged.
pub proof fn lemma_apply_empty(a: NodeV)
    ensures
        apply_spec(a, Seq::<ElemV>::empty()) == Ok::<NodeV, Seq<char>>(a),
{
}

/// On a diff whose elements carry no metadata at all, reversal is an
/// involution: reversing twice gives back the original element sequence.
/// (With carried metadata the re-emission that suppresses redundant
/// headers is not injective, so the law is stated for the metadata-free
/// diffs the engine itself produces.)
pub proof fn lemma_reverse_involution(elems: Seq<ElemV>)
    requires
        forall|i: int| 0 <= i < elems.len() ==> (#[trigger] elems[i]).metadata is None,
    ensures
        Seq::new(
            elems.len(),
            |k: int|
                reversed_elem(Seq::new(elems.len(), |j: int| reversed_elem(elems, j)), k),
        ) =~= elems,
{
    let rev = Seq::new(elems.len(), |j: int| reversed_elem(elems, j));
    lemma_no_meta_inherited(elems, elems.len() as int);
    assert forall|j: int| 0 <= j < elems.len() implies (#[trigger] rev[j]).metadata is None by {
        lemma_no_meta_inherited(elems, elems.len() - j);
        assert(effective_meta(elems, elems.len() - 1 - j) is None);
    }
    let rev2 = Seq::new(elems.len(), |k: int| reversed_elem(rev, k));
    assert forall|k: int| 0 <= k < elems.len() implies rev2[k] == elems[k] by {
        lemma_no_meta_inherited(rev, elems.len() - k);
        assert(effective_meta(rev, elems.len() - 1 - k) is None);
        assert(rev[elems.len() - 1 - k] == reversed_elem(elems, elems.len() - 1 - k));
        lemma_no_meta_inherited(elems, k + 1);
        assert(effective_meta(elems, k) is None);
        assert(reversed_elem(elems, elems.len() - 1 - k).metadata is None);
    }
}

/// A diff without metadata inherits none.
proof fn lemma_no_meta_inherited(elems: Seq<ElemV>, n: int)
    requires
        forall|i: int| 0 <= i < elems.len() ==> (#[trigger] elems[i]).metadata is None,
        n <= elems.len(),
    ensures
        inherited_meta(elems, n) is None,
    decreases n,
{
    if n > 0 {
        lemma_no_meta_inherited(elems, n - 1);
    }
}

} // verus!
