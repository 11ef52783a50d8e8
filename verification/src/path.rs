//! Paths: ordered sequences of object keys and array indices that locate a
//! subtree of a document.
use vstd::prelude::*;

verus! {

/// The abstract value of a path segment.
pub enum SegV {
    /// Object key lookup.
    Key(Seq<char>),
    /// Array index lookup.
    Index(i64),
}

/// Represents a single element within a diff path: an object key or an
/// array index.
#[derive(Debug, Hash)]
pub enum PathSegment {
    /// Object key lookup.
    Key(String),
    /// Array index lookup.
    Index(i64),
}

impl View for PathSegment {
    type V = SegV;

    open spec fn view(&self) -> SegV {
        match self {
            PathSegment::Key(k) => SegV::Key(k@),
            PathSegment::Index(i) => SegV::Index(*i),
        }
    }
}

impl PathSegment {
    /// Creates a key segment.
    pub fn key(value: &str) -> (r: Self)
        ensures
            r@ == SegV::Key(value@),
    {
        PathSegment::Key(value.to_owned())
    }

    /// Creates an index segment.
    pub fn index(value: i64) -> (r: Self)
        ensures
            r@ == SegV::Index(value),
    {
        PathSegment::Index(value)
    }
}

impl Clone for PathSegment {
    fn clone(&self) -> (r: Self)
        ensures
            r@ == self@,
    {
        match self {
            PathSegment::Key(k) => PathSegment::Key(k.clone()),
            PathSegment::Index(i) => PathSegment::Index(*i),
        }
    }
}

impl PartialEq for PathSegment {
    fn eq(&self, other: &Self) -> (r: bool) {
        let r = match (self, other) {
            (PathSegment::Key(a), PathSegment::Key(b)) => *a == *b,
            (PathSegment::Index(a), PathSegment::Index(b)) => *a == *b,
            _ => false,
        };
        proof {
            if r {
                assert(self@ == other@);
            } else {
                assert(self@ != other@);
            }
        }
        r
    }
}

impl Eq for PathSegment {

}

impl vstd::std_specs::cmp::PartialEqSpecImpl for PathSegment {
    open spec fn obeys_eq_spec() -> bool {
        true
    }

    open spec fn eq_spec(&self, other: &Self) -> bool {
        self@ == other@
    }
}

/// The views of a sequence of path segments.
pub open spec fn segs_view(s: Seq<PathSegment>) -> Seq<SegV> {
    s.map_values(|seg: PathSegment| seg@)
}

/// The elementwise segment view keeps lengths and maps each segment.
pub broadcast proof fn lemma_segs_view(segs: Seq<PathSegment>)
    ensures
        (#[trigger] segs_view(segs)).len() == segs.len(),
        forall|i: int| 0 <= i < segs.len() ==> #[trigger] segs_view(segs)[i] == segs[i]@,
{
}

/// Represents the fully qualified location of a diff hunk within a document.
/// A path with no segments denotes the document root.
#[derive(Debug)]
pub struct Path(pub Vec<PathSegment>);

impl View for Path {
    type V = Seq<SegV>;

    open spec fn view(&self) -> Seq<SegV> {
        segs_view(self.0@)
    }
}

impl Clone for Path {
    fn clone(&self) -> (r: Self)
        ensures
            r@ == self@,
    {
        let mut segments: Vec<PathSegment> = Vec::new();
        let mut i: usize = 0;
        while i < self.0.len()
            invariant
                i <= self.0@.len(),
                segments@.len() == i,
                forall|j: int| 0 <= j < i ==> segments@[j]@ == self.0@[j]@,
            decreases self.0@.len() - i,
        {
            segments.push(self.0[i].clone());
            i = i + 1;
        }
        proof {
            assert(segs_view(segments@) =~= segs_view(self.0@));
        }
        Path(segments)
    }
}

impl PartialEq for Path {
    fn eq(&self, other: &Self) -> (r: bool) {
        if self.0.len() != other.0.len() {
            proof {
                assert(self@.len() == self.0@.len());
                assert(other@.len() == other.0@.len());
            }
            return false;
        }
        let mut i: usize = 0;
        while i < self.0.len()
            invariant
                self.0@.len() == other.0@.len(),
                i <= self.0@.len(),
                forall|j: int| 0 <= j < i ==> self.0@[j]@ == other.0@[j]@,
            decreases self.0@.len() - i,
        {
            if !(self.0[i] == other.0[i]) {
                proof {
                    assert(self@[i as int] == self.0@[i as int]@);
                    assert(other@[i as int] == other.0@[i as int]@);
                    assert(self@[i as int] != other@[i as int]);
                }
                return false;
            }
            i = i + 1;
        }
        proof {
            assert(self@ =~= other@);
        }
        true
    }
}

impl Eq for Path {

}

impl vstd::std_specs::cmp::PartialEqSpecImpl for Path {
    open spec fn obeys_eq_spec() -> bool {
        true
    }

    open spec fn eq_spec(&self, other: &Self) -> bool {
        self@ == other@
    }
}

impl Default for Path {
    fn default() -> (r: Self)
        ensures
            r@ == Seq::<SegV>::empty(),
    {
        proof {
            assert(segs_view(Seq::<PathSegment>::empty()) =~= Seq::<SegV>::empty());
        }
        Path(Vec::new())
    }
}

impl From<Vec<PathSegment>> for Path {
    fn from(value: Vec<PathSegment>) -> (r: Self) {
        Path(value)
    }
}

impl vstd::std_specs::convert::FromSpecImpl<Vec<PathSegment>> for Path {
    open spec fn obeys_from_spec() -> bool {
        true
    }

    open spec fn from_spec(v: Vec<PathSegment>) -> Path {
        Path(v)
    }
}

impl Path {
    /// Creates an empty path, denoting the document root.
    pub fn new() -> (r: Self)
        ensures
            r@ == Seq::<SegV>::empty(),
    {
        proof {
            assert(segs_view(Seq::<PathSegment>::empty()) =~= Seq::<SegV>::empty());
        }
        Path(Vec::new())
    }

    /// Creates a path holding one segment.
    pub fn single(segment: PathSegment) -> (r: Self)
        ensures
            r@ == seq![segment@],
    {
        let mut segments: Vec<PathSegment> = Vec::new();
        segments.push(segment);
        proof {
            assert(segs_view(segments@) =~= seq![segments@[0]@]);
        }
        Path(segments)
    }

    /// Appends a new segment, returning the extended path.
    pub fn with_segment(self, segment: PathSegment) -> (r: Self)
        ensures
            r@ == self@.push(segment@),
    {
        let mut segments = self.0;
        let ghost pre = segments@;
        segments.push(segment);
        proof {
            assert(segs_view(pre.push(segment)) =~= segs_view(pre).push(segment@));
        }
        Path(segments)
    }

    /// Returns the underlying segments.
    pub fn segments(&self) -> (r: &[PathSegment])
        ensures
            segs_view(r@) == self@,
    {
        self.0.as_slice()
    }

    /// Returns the number of segments.
    pub fn len(&self) -> (r: usize)
        ensures
            r == self@.len(),
    {
        self.0.len()
    }

    /// Indicates whether the path is empty, that is, denotes the root.
    pub fn is_empty(&self) -> (r: bool)
        ensures
            r == (self@.len() == 0),
    {
        self.0.len() == 0
    }

    /// Returns a new path with the last segment removed, if any.
    pub fn drop_last(&self) -> (r: Self)
        ensures
            self@.len() == 0 ==> r@ == self@,
            self@.len() > 0 ==> r@ == self@.drop_last(),
    {
        let mut segments = self.clone().0;
        let ghost pre = segments@;
        let popped = segments.pop();
        proof {
            if pre.len() > 0 {
                assert(segs_view(pre.drop_last()) =~= segs_view(pre).drop_last());
            } else {
                assert(segs_view(pre) =~= Seq::<SegV>::empty());
            }
        }
        Path(segments)
    }

    /// Consumes the path and returns the owned segments.
    pub fn into_segments(self) -> (r: Vec<PathSegment>)
        ensures
            segs_view(r@) == self@,
    {
        self.0
    }

    /// Pushes a new segment in place.
    pub fn push(&mut self, segment: PathSegment)
        ensures
            final(self)@ == old(self)@.push(segment@),
    {
        let ghost pre = self.0@;
        self.0.push(segment);
        proof {
            assert(segs_view(pre.push(segment)) =~= segs_view(pre).push(segment@));
        }
    }

    /// Pops the last segment off the path.
    pub fn pop(&mut self) -> (r: Option<PathSegment>)
        ensures
            old(self)@.len() == 0 ==> final(self)@ == old(self)@ && r is None,
            old(self)@.len() > 0 ==> {
                &&& final(self)@ == old(self)@.drop_last()
                &&& r matches Some(seg) && seg@ == old(self)@.last()
            },
    {
        let ghost pre = self.0@;
        let r = self.0.pop();
        proof {
            if pre.len() > 0 {
                assert(segs_view(pre.drop_last()) =~= segs_view(pre).drop_last());
            } else {
                assert(segs_view(pre) =~= Seq::<SegV>::empty());
            }
        }
        r
    }
}

/// Creates a path representing the root of a document.
pub fn root_path() -> (r: Path)
    ensures
        r@ == Seq::<SegV>::empty(),
{
    Path::new()
}

/// Builds a path from a vector of segments.
pub fn path_from_segments(segments: Vec<PathSegment>) -> (r: Path)
    ensures
        r@ == segs_view(segments@),
{
    Path(segments)
}

} // verus!
