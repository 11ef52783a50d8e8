//! Strict diff reversal: swap each element's removals and additions, walk
//! the elements backwards, and re-emit effective metadata only where it
//! changes. Merge diffs are not invertible and are rejected.
use crate::dtypes::{
    effectively_merge, effective_meta, lemma_view_elems, Diff, DiffElement, ElemV, MetaV,
    RenderError,
};
use crate::jsontext::push_path_display;
use crate::node::NodeV;
use vstd::prelude::*;
use vstd::string::StringExecFns;

verus! {

/// A diff is reversible when no element carries effective merge metadata.
pub open spec fn reversible(elems: Seq<ElemV>) -> bool {
    forall|i: int| 0 <= i < elems.len() ==> !effectively_merge(elems, i)
}

/// The highest position below `n` that is effectively merge-flagged, or -1.
/// Reversal walks the elements backwards, so this is the element whose
/// path its rejection names.
pub open spec fn last_merge_at(elems: Seq<ElemV>, n: int) -> int
    decreases n,
{
    if n <= 0 {
        -1
    } else if effectively_merge(elems, n - 1) {
        n - 1
    } else {
        last_merge_at(elems, n - 1)
    }
}

/// The message reversal rejects a merge diff with.
pub open spec fn reverse_err_msg(elems: Seq<ElemV>) -> Seq<char> {
    "cannot reverse merge diff element at "@ + crate::jsontext::path_display(
        elems[last_merge_at(elems, elems.len() as int)].path,
    )
}

/// If position `i` is merge-flagged and everything above it is not, the
/// backwards walk stops at `i`.
proof fn lemma_last_merge_at(elems: Seq<ElemV>, i: int, n: int)
    requires
        0 <= i < n <= elems.len(),
        effectively_merge(elems, i),
        forall|j: int| i < j < n ==> !#[trigger] effectively_merge(elems, j),
    ensures
        last_merge_at(elems, n) == i,
    decreases n,
{
    if n - 1 > i {
        lemma_last_merge_at(elems, i, n - 1);
    }
}

/// The metadata the reversed element at output position `k` carries: the
/// source element's effective metadata, emitted only where it differs from
/// the previously emitted one.
pub open spec fn reversed_meta(elems: Seq<ElemV>, k: int) -> Option<MetaV> {
    let n = elems.len() as int;
    match effective_meta(elems, n - 1 - k) {
        Some(m) => if k > 0 && effective_meta(elems, n - k) == Some(m) {
            None
        } else {
            Some(m)
        },
        None => None,
    }
}

/// The reversed element at output position `k`: removals and additions
/// swapped, contexts kept, metadata re-emitted where it changes.
pub open spec fn reversed_elem(elems: Seq<ElemV>, k: int) -> ElemV {
    let e = elems[elems.len() - 1 - k];
    ElemV {
        metadata: reversed_meta(elems, k),
        path: e.path,
        before: e.before,
        remove: e.add,
        add: e.remove,
        after: e.after,
    }
}

impl Diff {
    /// Reverses a strict diff so that applying the result to the target of
    /// the original diff undoes the change. A diff whose elements carry
    /// effective merge metadata is rejected.
    #[verifier::loop_isolation(false)]
    pub fn reverse(&self) -> (r: Result<Diff, RenderError>)
        ensures
            match r {
                Ok(rev) => {
                    &&& reversible(self@)
                    &&& rev@.len() == self@.len()
                    &&& forall|k: int|
                        0 <= k < self@.len() ==> rev@[k] == reversed_elem(self@, k)
                },
                Err(e) => !reversible(self@) && e@ == reverse_err_msg(self@),
            },
    {
        broadcast use lemma_view_elems;

        let ghost ev = self@;
        let elements = self.elements();
        if elements.len() == 0 {
            proof {
                assert(crate::dtypes::view_elems(Seq::<DiffElement>::empty()) =~= Seq::<
                    ElemV,
                >::empty());
            }
            return Ok(Diff::empty());
        }
        // Compute each element's effective metadata by a forward pass.
        let mut active: Vec<Option<crate::dtypes::DiffMetadata>> = Vec::new();
        let mut inherited: Option<crate::dtypes::DiffMetadata> = None;
        let mut i: usize = 0;
        while i < elements.len()
            invariant
                i <= elements@.len(),
                active@.len() == i,
                match inherited {
                    Some(ref m) => crate::dtypes::inherited_meta(ev, i as int) == Some(m@),
                    None => crate::dtypes::inherited_meta(ev, i as int) is None,
                },
                forall|j: int|
                    0 <= j < i ==> match #[trigger] active@[j] {
                        Some(ref m) => effective_meta(ev, j) == Some(m@),
                        None => effective_meta(ev, j) is None,
                    },
            decreases elements@.len() - i,
        {
            let element = &elements[i];
            if let Some(meta) = &element.metadata {
                if meta.is_effective() {
                    match inherited {
                        Some(ref mut existing) => {
                            existing.absorb(meta);
                        },
                        None => {
                            inherited = Some(meta.clone());
                        },
                    }
                }
            }
            proof {
                assert(ev[i as int] == elements@[i as int]@);
            }
            let snapshot = match &inherited {
                Some(m) => Some(m.clone()),
                None => None,
            };
            active.push(snapshot);
            i = i + 1;
        }
        // Emit the reversed elements, rejecting effective merge metadata.
        let mut reversed: Vec<DiffElement> = Vec::new();
        let mut last_emitted: Option<crate::dtypes::DiffMetadata> = None;
        let n = elements.len();
        let mut k: usize = 0;
        while k < n
            invariant
                n == elements@.len(),
                n == ev.len(),
                active@.len() == n,
                k <= n,
                forall|j: int|
                    0 <= j < n ==> match #[trigger] active@[j] {
                        Some(ref m) => effective_meta(ev, j) == Some(m@),
                        None => effective_meta(ev, j) is None,
                    },
                forall|j: int| 0 <= j < k ==> !#[trigger] effectively_merge(ev, n - 1 - j),
                reversed@.len() == k,
                forall|j: int|
                    0 <= j < k ==> (#[trigger] reversed@[j])@ == reversed_elem(ev, j),
                match last_emitted {
                    Some(ref m) => k > 0 && effective_meta(ev, n - k as int) == Some(m@),
                    None => k == 0 || effective_meta(ev, n - k as int) is None,
                },
            decreases n - k,
        {
            let idx = n - 1 - k;
            let element = &elements[idx];
            proof {
                assert(ev[idx as int] == elements@[idx as int]@);
            }
            let is_merge = match &active[idx] {
                Some(m) => m.merge,
                None => false,
            };
            if is_merge {
                let mut msg = String::new();
                msg.append("cannot reverse merge diff element at ");
                let segs = element.path.segments();
                push_path_display(&mut msg, segs);
                proof {
                    assert(effectively_merge(ev, idx as int));
                    assert(!reversible(ev));
                    assert forall|j: int| idx < j < n implies !#[trigger] effectively_merge(
                        ev,
                        j,
                    ) by {
                        assert(!effectively_merge(ev, n - 1 - (n - 1 - j)));
                    }
                    lemma_last_merge_at(ev, idx as int, n as int);
                    assert(crate::path::segs_view(segs@) == ev[idx as int].path);
                    assert(msg@ =~= reverse_err_msg(ev));
                }
                return Err(RenderError::new(msg));
            }
            proof {
                assert(!effectively_merge(ev, idx as int));
            }
            let new_meta: Option<crate::dtypes::DiffMetadata> = match &active[idx] {
                Some(meta) => {
                    let same = match &last_emitted {
                        Some(prev) => *prev == *meta,
                        None => false,
                    };
                    if same {
                        None
                    } else {
                        last_emitted = Some(meta.clone());
                        Some(meta.clone())
                    }
                },
                None => {
                    last_emitted = None;
                    None
                },
            };
            let out = DiffElement {
                metadata: new_meta,
                path: element.path.clone(),
                before: crate::dtypes::clone_nodes(&element.before),
                remove: crate::dtypes::clone_nodes(&element.add),
                add: crate::dtypes::clone_nodes(&element.remove),
                after: crate::dtypes::clone_nodes(&element.after),
            };
            proof {
                assert(out@ =~= reversed_elem(ev, k as int));
            }
            reversed.push(out);
            k = k + 1;
        }
        let r = Diff::from_elements(reversed);
        proof {
            assert forall|j: int| 0 <= j < ev.len() implies !effectively_merge(ev, j) by {
                assert(!effectively_merge(ev, ev.len() - 1 - (ev.len() - 1 - j)));
            }
            assert(forall|j: int|
                0 <= j < ev.len() ==> #[trigger] r@[j] == reversed_elem(ev, j));
        }
        Ok(r)
    }
}

} // verus!
