//! Diff data structures: per-hunk metadata, diff elements, the diff itself,
//! render configuration, and the render and patch error types.
use crate::node::{node_eq_exact, view_nodes, Node, NodeV};
use crate::path::{segs_view, Path, SegV};
use crate::strutil::{string_views, CloneString};
use vstd::prelude::*;

verus! {

/// The abstract value of per-hunk metadata.
pub struct MetaV {
    /// Merge-patch semantics requested.
    pub merge: bool,
    /// Optional set-key metadata.
    pub set_keys: Option<Seq<Seq<char>>>,
    /// Optional color rendering hint.
    pub color: Option<bool>,
}

/// Metadata associated with a diff element.
#[derive(Debug)]
pub struct DiffMetadata {
    /// Indicates that merge patch semantics should be used.
    pub merge: bool,
    /// Optional set-key metadata.
    pub set_keys: Option<Vec<String>>,
    /// Optional color rendering hint.
    pub color: Option<bool>,
}

impl View for DiffMetadata {
    type V = MetaV;

    open spec fn view(&self) -> MetaV {
        MetaV {
            merge: self.merge,
            set_keys: match self.set_keys {
                Some(ref keys) => Some(string_views(keys@)),
                None => None,
            },
            color: self.color,
        }
    }
}

/// Metadata carries some effective content.
pub open spec fn meta_effective(m: MetaV) -> bool {
    m.merge || m.set_keys is Some || m.color is Some
}

/// Forward absorption of metadata: merge sticks once true; set keys and
/// color overwrite when present.
pub open spec fn meta_absorb(a: MetaV, b: MetaV) -> MetaV {
    MetaV {
        merge: a.merge || b.merge,
        set_keys: if b.set_keys is Some {
            b.set_keys
        } else {
            a.set_keys
        },
        color: if b.color is Some {
            b.color
        } else {
            a.color
        },
    }
}

impl Clone for DiffMetadata {
    fn clone(&self) -> (r: Self)
        ensures
            r@ == self@,
    {
        DiffMetadata {
            merge: self.merge,
            set_keys: clone_opt_keys(&self.set_keys),
            color: self.color,
        }
    }
}

/// Clones an optional key vector, keeping its view.
#[verifier::loop_isolation(false)]
fn clone_opt_keys(keys: &Option<Vec<String>>) -> (r: Option<Vec<String>>)
    ensures
        match keys {
            Some(ks) => r matches Some(rs) && string_views(rs@) == string_views(ks@),
            None => r is None,
        },
{
    match keys {
        Some(ks) => {
            let mut out: Vec<String> = Vec::new();
            let mut i: usize = 0;
            while i < ks.len()
                invariant
                    i <= ks@.len(),
                    out@.len() == i,
                    forall|j: int| 0 <= j < i ==> out@[j]@ == #[trigger] ks@[j]@,
                decreases ks@.len() - i,
            {
                out.push(ks[i].clone_string());
                i = i + 1;
            }
            proof {
                assert(string_views(out@) =~= string_views(ks@));
            }
            Some(out)
        },
        None => None,
    }
}

impl PartialEq for DiffMetadata {
    fn eq(&self, other: &Self) -> (r: bool) {
        let keys_eq = match (&self.set_keys, &other.set_keys) {
            (None, None) => true,
            (Some(a), Some(b)) => keys_equal(a, b),
            _ => false,
        };
        let r = self.merge == other.merge && keys_eq && match (self.color, other.color) {
            (None, None) => true,
            (Some(a), Some(b)) => a == b,
            _ => false,
        };
        proof {
            if r {
                assert(self@ =~= other@);
            }
        }
        r
    }
}

impl Eq for DiffMetadata {

}

impl vstd::std_specs::cmp::PartialEqSpecImpl for DiffMetadata {
    open spec fn obeys_eq_spec() -> bool {
        true
    }

    open spec fn eq_spec(&self, other: &Self) -> bool {
        self@ == other@
    }
}

/// Compares two key vectors by view.
#[verifier::loop_isolation(false)]
fn keys_equal(a: &Vec<String>, b: &Vec<String>) -> (r: bool)
    ensures
        r == (string_views(a@) == string_views(b@)),
{
    if a.len() != b.len() {
        proof {
            assert(string_views(a@).len() == a@.len());
            assert(string_views(b@).len() == b@.len());
        }
        return false;
    }
    let mut i: usize = 0;
    while i < a.len()
        invariant
            a@.len() == b@.len(),
            i <= a@.len(),
            forall|j: int| 0 <= j < i ==> a@[j]@ == #[trigger] b@[j]@,
        decreases a@.len() - i,
    {
        if !(a[i] == b[i]) {
            proof {
                assert(string_views(a@)[i as int] == a@[i as int]@);
                assert(string_views(b@)[i as int] == b@[i as int]@);
            }
            return false;
        }
        i = i + 1;
    }
    proof {
        assert(string_views(a@) =~= string_views(b@));
    }
    true
}

impl DiffMetadata {
    /// Constructs metadata for merge mode.
    pub fn merge() -> (r: Self)
        ensures
            r@ == (MetaV { merge: true, set_keys: None, color: None }),
    {
        DiffMetadata { merge: true, set_keys: None, color: None }
    }

    /// Constructs empty metadata.
    pub fn none() -> (r: Self)
        ensures
            r@ == (MetaV { merge: false, set_keys: None, color: None }),
    {
        DiffMetadata { merge: false, set_keys: None, color: None }
    }

    /// Metadata carries some effective content.
    pub fn is_effective(&self) -> (r: bool)
        ensures
            r == meta_effective(self@),
    {
        self.merge || self.set_keys.is_some() || self.color.is_some()
    }

    /// Absorbs later metadata into this one: merge sticks once true; set
    /// keys and color overwrite when present.
    pub fn absorb(&mut self, other: &Self)
        ensures
            final(self)@ == meta_absorb(old(self)@, other@),
    {
        if other.merge {
            self.merge = true;
        }
        if other.set_keys.is_some() {
            self.set_keys = clone_opt_keys(&other.set_keys);
        }
        if let Some(color) = other.color {
            self.color = Some(color);
        }
        proof {
            assert(self@ =~= meta_absorb(old(self)@, other@));
        }
    }
}

/// The abstract value of a diff element.
pub struct ElemV {
    /// Optional metadata for this hunk.
    pub metadata: Option<MetaV>,
    /// The path to the affected location.
    pub path: Seq<SegV>,
    /// Context before the change (list hunks only).
    pub before: Seq<NodeV>,
    /// Values removed at the path.
    pub remove: Seq<NodeV>,
    /// Values added at the path.
    pub add: Seq<NodeV>,
    /// Context after the change (list hunks only).
    pub after: Seq<NodeV>,
}

/// Represents a single diff hunk.
#[derive(Debug)]
pub struct DiffElement {
    /// Optional metadata for this hunk.
    pub metadata: Option<DiffMetadata>,
    /// The path to the affected location.
    pub path: Path,
    /// Context before the change (list hunks only).
    pub before: Vec<Node>,
    /// Values removed at the path.
    pub remove: Vec<Node>,
    /// Values added at the path.
    pub add: Vec<Node>,
    /// Context after the change (list hunks only).
    pub after: Vec<Node>,
}

impl View for DiffElement {
    type V = ElemV;

    open spec fn view(&self) -> ElemV {
        ElemV {
            metadata: match self.metadata {
                Some(ref m) => Some(m@),
                None => None,
            },
            path: self.path@,
            before: view_nodes(self.before@),
            remove: view_nodes(self.remove@),
            add: view_nodes(self.add@),
            after: view_nodes(self.after@),
        }
    }
}

impl DiffElement {
    /// Creates a blank diff element.
    pub fn new() -> (r: Self)
        ensures
            r@ == (ElemV {
                metadata: None,
                path: Seq::<SegV>::empty(),
                before: Seq::<NodeV>::empty(),
                remove: Seq::<NodeV>::empty(),
                add: Seq::<NodeV>::empty(),
                after: Seq::<NodeV>::empty(),
            }),
    {
        let r = DiffElement {
            metadata: None,
            path: Path::new(),
            before: Vec::new(),
            remove: Vec::new(),
            add: Vec::new(),
            after: Vec::new(),
        };
        proof {
            assert(view_nodes(Seq::<Node>::empty()) =~= Seq::<NodeV>::empty());
        }
        r
    }

    /// Sets the metadata for the element.
    pub fn with_metadata(self, metadata: DiffMetadata) -> (r: Self)
        ensures
            r@ == (ElemV { metadata: Some(metadata@), ..self@ }),
    {
        DiffElement { metadata: Some(metadata), ..self }
    }

    /// Sets the path for the element.
    pub fn with_path(self, path: Path) -> (r: Self)
        ensures
            r@ == (ElemV { path: path@, ..self@ }),
    {
        DiffElement { path, ..self }
    }

    /// Sets the before context.
    pub fn with_before(self, before: Vec<Node>) -> (r: Self)
        ensures
            r@ == (ElemV { before: view_nodes(before@), ..self@ }),
    {
        DiffElement { before, ..self }
    }

    /// Sets the removal list.
    pub fn with_remove(self, remove: Vec<Node>) -> (r: Self)
        ensures
            r@ == (ElemV { remove: view_nodes(remove@), ..self@ }),
    {
        DiffElement { remove, ..self }
    }

    /// Sets the addition list.
    pub fn with_add(self, add: Vec<Node>) -> (r: Self)
        ensures
            r@ == (ElemV { add: view_nodes(add@), ..self@ }),
    {
        DiffElement { add, ..self }
    }

    /// Sets the after context.
    pub fn with_after(self, after: Vec<Node>) -> (r: Self)
        ensures
            r@ == (ElemV { after: view_nodes(after@), ..self@ }),
    {
        DiffElement { after, ..self }
    }
}

/// Structural equality of abstract metadata options.
pub open spec fn opt_meta_eq(a: Option<MetaV>, b: Option<MetaV>) -> bool {
    match (a, b) {
        (None, None) => true,
        (Some(x), Some(y)) => x == y,
        _ => false,
    }
}

/// Equality of node sequences, elementwise by exact node equality.
pub open spec fn nodes_eq_exact(a: Seq<NodeV>, b: Seq<NodeV>) -> bool {
    &&& a.len() == b.len()
    &&& forall|i: int| 0 <= i < a.len() ==> node_eq_exact(#[trigger] a[i], b[i])
}

/// Equality of diff elements: metadata and path structurally, node lists by
/// exact node equality.
pub open spec fn elem_eq(a: ElemV, b: ElemV) -> bool {
    &&& opt_meta_eq(a.metadata, b.metadata)
    &&& a.path == b.path
    &&& nodes_eq_exact(a.before, b.before)
    &&& nodes_eq_exact(a.remove, b.remove)
    &&& nodes_eq_exact(a.add, b.add)
    &&& nodes_eq_exact(a.after, b.after)
}

/// Compares two node vectors by exact node equality.
#[verifier::loop_isolation(false)]
pub fn node_vecs_equal(a: &Vec<Node>, b: &Vec<Node>) -> (r: bool)
    ensures
        r == nodes_eq_exact(view_nodes(a@), view_nodes(b@)),
{
    broadcast use crate::node::lemma_view_nodes;

    if a.len() != b.len() {
        proof {
            assert(view_nodes(a@).len() == a@.len());
            assert(view_nodes(b@).len() == b@.len());
        }
        return false;
    }
    let mut i: usize = 0;
    while i < a.len()
        invariant
            a@.len() == b@.len(),
            i <= a@.len(),
            forall|j: int|
                0 <= j < i ==> node_eq_exact(
                    #[trigger] view_nodes(a@)[j],
                    view_nodes(b@)[j],
                ),
        decreases a@.len() - i,
    {
        if !crate::node::nodes_equal(&a[i], &b[i]) {
            proof {
                assert(view_nodes(a@)[i as int] == a@[i as int]@);
                assert(view_nodes(b@)[i as int] == b@[i as int]@);
                assert(!node_eq_exact(view_nodes(a@)[i as int], view_nodes(b@)[i as int]));
            }
            return false;
        }
        i = i + 1;
    }
    true
}

impl PartialEq for DiffElement {
    fn eq(&self, other: &Self) -> (r: bool) {
        let meta_eq = match (&self.metadata, &other.metadata) {
            (None, None) => true,
            (Some(a), Some(b)) => *a == *b,
            _ => false,
        };
        if !meta_eq {
            return false;
        }
        if !(self.path == other.path) {
            return false;
        }
        let r = node_vecs_equal(&self.before, &other.before) && node_vecs_equal(
            &self.remove,
            &other.remove,
        ) && node_vecs_equal(&self.add, &other.add) && node_vecs_equal(&self.after, &other.after);
        r
    }
}

impl vstd::std_specs::cmp::PartialEqSpecImpl for DiffElement {
    open spec fn obeys_eq_spec() -> bool {
        true
    }

    open spec fn eq_spec(&self, other: &Self) -> bool {
        elem_eq(self@, other@)
    }
}

impl Clone for DiffElement {
    fn clone(&self) -> (r: Self)
        ensures
            r@ == self@,
    {
        let r = DiffElement {
            metadata: match &self.metadata {
                Some(m) => Some(m.clone()),
                None => None,
            },
            path: self.path.clone(),
            before: clone_nodes(&self.before),
            remove: clone_nodes(&self.remove),
            add: clone_nodes(&self.add),
            after: clone_nodes(&self.after),
        };
        proof {
            assert(r@ =~= self@);
        }
        r
    }
}

/// Deep-copies a vector of nodes, keeping its abstract value.
#[verifier::loop_isolation(false)]
pub fn clone_nodes(nodes: &Vec<Node>) -> (r: Vec<Node>)
    ensures
        view_nodes(r@) == view_nodes(nodes@),
{
    broadcast use crate::node::lemma_view_nodes;

    let mut out: Vec<Node> = Vec::new();
    let mut i: usize = 0;
    while i < nodes.len()
        invariant
            i <= nodes@.len(),
            out@.len() == i,
            forall|j: int| 0 <= j < i ==> (#[trigger] out@[j])@ == nodes@[j]@,
        decreases nodes@.len() - i,
    {
        out.push(crate::node::clone_node(&nodes[i]));
        i = i + 1;
    }
    proof {
        assert(view_nodes(out@) =~= view_nodes(nodes@));
    }
    out
}

/// Collection of diff elements, in emission order.
#[derive(Debug)]
pub struct Diff {
    elements: Vec<DiffElement>,
}

/// The abstract values of a sequence of diff elements.
pub open spec fn view_elems(elems: Seq<DiffElement>) -> Seq<ElemV>
    decreases elems,
{
    if elems.len() == 0 {
        Seq::empty()
    } else {
        proof {
            broadcast use vstd::seq::axiom_seq_subrange_decreases;

            assert(decreases_to!(elems => elems.subrange(0, elems.len() - 1)));
        }
        view_elems(elems.subrange(0, elems.len() - 1)).push(elems.last()@)
    }
}

/// The elementwise element view keeps lengths and maps each element.
pub broadcast proof fn lemma_view_elems(elems: Seq<DiffElement>)
    ensures
        (#[trigger] view_elems(elems)).len() == elems.len(),
        forall|i: int| 0 <= i < elems.len() ==> #[trigger] view_elems(elems)[i] == elems[i]@,
    decreases elems.len(),
{
    if elems.len() > 0 {
        lemma_view_elems(elems.subrange(0, elems.len() - 1));
        assert forall|i: int| 0 <= i < elems.len() implies #[trigger] view_elems(elems)[i]
            == elems[i]@ by {
            if i < elems.len() - 1 {
                assert(elems.subrange(0, elems.len() - 1)[i] == elems[i]);
            }
        }
    }
}

impl View for Diff {
    type V = Seq<ElemV>;

    closed spec fn view(&self) -> Seq<ElemV> {
        view_elems(self.elements@)
    }
}

impl Diff {
    /// Constructs an empty diff.
    pub fn empty() -> (r: Self)
        ensures
            r@ == Seq::<ElemV>::empty(),
    {
        proof {
            assert(view_elems(Seq::<DiffElement>::empty()) =~= Seq::<ElemV>::empty());
        }
        Diff { elements: Vec::new() }
    }

    /// Builds a diff from the provided elements.
    pub fn from_elements(elements: Vec<DiffElement>) -> (r: Self)
        ensures
            r@ == view_elems(elements@),
    {
        Diff { elements }
    }

    /// Returns the number of elements in the diff.
    pub fn len(&self) -> (r: usize)
        ensures
            r == self@.len(),
    {
        proof {
            broadcast use lemma_view_elems;

        }
        self.elements.len()
    }

    /// Indicates whether the diff is empty.
    pub fn is_empty(&self) -> (r: bool)
        ensures
            r == (self@.len() == 0),
    {
        proof {
            broadcast use lemma_view_elems;

        }
        self.elements.len() == 0
    }

    /// Returns the elements.
    pub fn elements(&self) -> (r: &Vec<DiffElement>)
        ensures
            view_elems(r@) == self@,
    {
        &self.elements
    }

    /// Consumes the diff and returns the elements.
    pub fn into_elements(self) -> (r: Vec<DiffElement>)
        ensures
            view_elems(r@) == self@,
    {
        self.elements
    }
}

impl Default for Diff {
    fn default() -> (r: Self)
        ensures
            r@ == Seq::<ElemV>::empty(),
    {
        Diff::empty()
    }
}

impl PartialEq for Diff {
    #[verifier::loop_isolation(false)]
    fn eq(&self, other: &Self) -> (r: bool) {
        broadcast use lemma_view_elems;

        if self.elements.len() != other.elements.len() {
            return false;
        }
        let mut i: usize = 0;
        while i < self.elements.len()
            invariant
                self.elements@.len() == other.elements@.len(),
                i <= self.elements@.len(),
                forall|j: int| 0 <= j < i ==> elem_eq(self@[j], #[trigger] other@[j]),
            decreases self.elements@.len() - i,
        {
            proof {
                assert(self@[i as int] == self.elements@[i as int]@);
                assert(other@[i as int] == other.elements@[i as int]@);
            }
            if !(self.elements[i] == other.elements[i]) {
                return false;
            }
            i = i + 1;
        }
        true
    }
}

impl vstd::std_specs::cmp::PartialEqSpecImpl for Diff {
    open spec fn obeys_eq_spec() -> bool {
        true
    }

    open spec fn eq_spec(&self, other: &Self) -> bool {
        self@.len() == other@.len() && forall|i: int|
            0 <= i < self@.len() ==> elem_eq(self@[i], #[trigger] other@[i])
    }
}

impl Clone for Diff {
    #[verifier::loop_isolation(false)]
    fn clone(&self) -> (r: Self)
        ensures
            r@ == self@,
    {
        broadcast use lemma_view_elems;

        let mut out: Vec<DiffElement> = Vec::new();
        let mut i: usize = 0;
        while i < self.elements.len()
            invariant
                i <= self.elements@.len(),
                out@.len() == i,
                forall|j: int| 0 <= j < i ==> (#[trigger] out@[j])@ == self.elements@[j]@,
            decreases self.elements@.len() - i,
        {
            out.push(self.elements[i].clone());
            i = i + 1;
        }
        proof {
            assert(view_elems(out@) =~= view_elems(self.elements@));
        }
        Diff { elements: out }
    }
}

/// The metadata carried forward by elements `0..n` of a diff: ineffective
/// metadata is skipped, effective metadata absorbs forward.
pub open spec fn inherited_meta(elems: Seq<ElemV>, n: int) -> Option<MetaV>
    decreases n,
{
    if n <= 0 {
        None
    } else {
        let prev = inherited_meta(elems, n - 1);
        match elems[n - 1].metadata {
            Some(m) => if meta_effective(m) {
                match prev {
                    None => Some(m),
                    Some(p) => Some(meta_absorb(p, m)),
                }
            } else {
                prev
            },
            None => prev,
        }
    }
}

/// The effective metadata of element `i`: what it inherits after its own
/// metadata has been absorbed.
pub open spec fn effective_meta(elems: Seq<ElemV>, i: int) -> Option<MetaV> {
    inherited_meta(elems, i + 1)
}

/// Element `i` is effectively a merge hunk.
pub open spec fn effectively_merge(elems: Seq<ElemV>, i: int) -> bool {
    match effective_meta(elems, i) {
        Some(m) => m.merge,
        None => false,
    }
}

/// Configuration toggles for diff rendering.
#[derive(Clone, Copy, Debug, PartialEq, Eq, Structural)]
pub struct RenderConfig {
    color: bool,
}

impl Default for RenderConfig {
    fn default() -> (r: Self)
        ensures
            r.color_on() == false,
    {
        RenderConfig { color: false }
    }
}

impl RenderConfig {
    /// Whether color output is enabled, as a specification value.
    pub closed spec fn color_on(&self) -> bool {
        self.color
    }

    /// Constructs a configuration with default settings (no ANSI color).
    pub fn new() -> (r: Self)
        ensures
            r.color_on() == false,
    {
        RenderConfig { color: false }
    }

    /// Enables or disables ANSI color output.
    pub fn with_color(self, enabled: bool) -> (r: Self)
        ensures
            r.color_on() == enabled,
    {
        RenderConfig { color: enabled }
    }

    /// Indicates whether color output is enabled.
    pub fn color_enabled(self) -> (r: bool)
        ensures
            r == self.color_on(),
    {
        self.color
    }

    /// Convenience constructor choosing color output.
    pub fn color(enabled: bool) -> (r: Self)
        ensures
            r.color_on() == enabled,
    {
        RenderConfig { color: enabled }
    }
}

/// Errors that can occur while rendering or reversing diffs.
#[derive(Debug)]
pub struct RenderError {
    message: String,
}

impl RenderError {
    /// Wraps a message.
    pub(crate) fn new(message: String) -> (r: Self)
        ensures
            r@ == message@,
    {
        RenderError { message }
    }

    /// Returns the user-visible message.
    pub fn message(&self) -> (r: &str)
        ensures
            r@ == self@,
    {
        self.message.as_str()
    }
}

impl View for RenderError {
    type V = Seq<char>;

    closed spec fn view(&self) -> Seq<char> {
        self.message@
    }
}

impl Clone for RenderError {
    fn clone(&self) -> (r: Self)
        ensures
            r@ == self@,
    {
        RenderError { message: self.message.clone_string() }
    }
}

impl PartialEq for RenderError {
    fn eq(&self, other: &Self) -> (r: bool) {
        self.message == other.message
    }
}

impl Eq for RenderError {

}

impl vstd::std_specs::cmp::PartialEqSpecImpl for RenderError {
    open spec fn obeys_eq_spec() -> bool {
        true
    }

    open spec fn eq_spec(&self, other: &Self) -> bool {
        self@ == other@
    }
}

/// Errors that can occur while applying a diff.
#[derive(Debug)]
pub struct PatchError {
    message: String,
}

impl PatchError {
    /// Wraps a message.
    pub(crate) fn new(message: String) -> (r: Self)
        ensures
            r@ == message@,
    {
        PatchError { message }
    }

    /// Returns the user-visible message.
    pub fn message(&self) -> (r: &str)
        ensures
            r@ == self@,
    {
        self.message.as_str()
    }
}

impl View for PatchError {
    type V = Seq<char>;

    closed spec fn view(&self) -> Seq<char> {
        self.message@
    }
}

impl Clone for PatchError {
    fn clone(&self) -> (r: Self)
        ensures
            r@ == self@,
    {
        PatchError { message: self.message.clone_string() }
    }
}

impl PartialEq for PatchError {
    fn eq(&self, other: &Self) -> (r: bool) {
        self.message == other.message
    }
}

impl Eq for PatchError {

}

impl vstd::std_specs::cmp::PartialEqSpecImpl for PatchError {
    open spec fn obeys_eq_spec() -> bool {
        true
    }

    open spec fn eq_spec(&self, other: &Self) -> bool {
        self@ == other@
    }
}

/// The diff output format of the command-line frontend.
#[derive(Clone, Copy, Debug, PartialEq, Eq, Structural)]
pub enum OutputFormat {
    /// The native text format.
    Native,
    /// RFC 6902 JSON Patch.
    Patch,
    /// RFC 7386 JSON Merge Patch.
    Merge,
}

impl Default for OutputFormat {
    fn default() -> (r: Self)
        ensures
            r == OutputFormat::Native,
    {
        OutputFormat::Native
    }
}

} // verus!
