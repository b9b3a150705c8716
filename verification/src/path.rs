use vstd::prelude::*;

verus! {

/// A hierarchical path, represented as its sequence of segment names.
///
/// The empty sequence is the root of a namespace (or an empty relative
/// remainder). Prefix containment is segment-wise: `a/b` is a prefix of
/// `a/b/c`, but not of `a/bc`.
#[derive(Debug)]
pub struct Path {
    segments: Vec<String>,
}

impl View for Path {
    type V = Seq<Seq<char>>;

    closed spec fn view(&self) -> Seq<Seq<char>> {
        self.segments.deep_view()
    }
}

/// `prefix` is a segment-wise prefix of `path`.
pub open spec fn is_path_prefix(prefix: Seq<Seq<char>>, path: Seq<Seq<char>>) -> bool {
    prefix.len() <= path.len() && path.take(prefix.len() as int) == prefix
}

/// The remainder of `path` once the prefix `prefix` is stripped off.
pub open spec fn path_rest(path: Seq<Seq<char>>, prefix: Seq<Seq<char>>) -> Seq<Seq<char>> {
    path.skip(prefix.len() as int)
}

impl Path {
    /// The empty path.
    pub fn empty() -> (r: Path)
        ensures
            r@ == Seq::<Seq<char>>::empty(),
    {
        let segments: Vec<String> = Vec::new();
        let r = Path { segments };
        proof {
            assert(r@ =~= Seq::<Seq<char>>::empty());
        }
        r
    }

    /// A path made of the given segment names.
    pub fn from_segments(segments: Vec<String>) -> (r: Path)
        ensures
            r@ == segments.deep_view(),
    {
        Path { segments }
    }

    pub fn len(&self) -> (r: usize)
        ensures
            r == self@.len(),
    {
        self.segments.len()
    }

    pub fn segment(&self, i: usize) -> (r: &String)
        requires
            i < self@.len(),
        ensures
            r@ == self@[i as int],
    {
        &self.segments[i]
    }

    /// Appends one segment.
    pub fn push(&mut self, segment: String)
        ensures
            final(self)@ == old(self)@.push(segment@),
    {
        self.segments.push(segment);
        proof {
            assert(self@ =~= old(self)@.push(segment@));
        }
    }

    /// A copy of this path with one more segment joined on, as listing
    /// consumers do to rebuild an entry's full path from its parent
    /// directory and its name.
    pub fn join(&self, name: &String) -> (r: Path)
        ensures
            r@ == self@.push(name@),
    {
        let mut r = self.clone();
        r.push(name.clone());
        r
    }

    /// Strips `prefix` off the front of this path: the remainder iff
    /// `prefix` is a segment-wise prefix of this path, `None` otherwise.
    pub fn strip_prefix(&self, prefix: &Path) -> (r: Option<Path>)
        ensures
            r is Some <==> is_path_prefix(prefix@, self@),
            r matches Some(rest) ==> rest@ == path_rest(self@, prefix@),
    {
        if prefix.segments.len() > self.segments.len() {
            return None;
        }
        let mut i: usize = 0;
        while i < prefix.segments.len()
            invariant
                i <= prefix.segments.len() <= self.segments.len(),
                forall|j: int| 0 <= j < i ==> self@[j] == prefix@[j],
            decreases prefix.segments.len() - i,
        {
            if self.segments[i] != prefix.segments[i] {
                proof {
                    assert(self@[i as int] != prefix@[i as int]);
                    assert(!is_path_prefix(prefix@, self@)) by {
                        if is_path_prefix(prefix@, self@) {
                            assert(self@.take(prefix@.len() as int)[i as int] == self@[i as int]);
                        }
                    }
                }
                return None;
            }
            i += 1;
        }
        let mut rest: Vec<String> = Vec::new();
        let mut j: usize = prefix.segments.len();
        while j < self.segments.len()
            invariant
                prefix.segments.len() <= j <= self.segments.len(),
                rest@.len() == j - prefix.segments.len(),
                forall|k: int| 0 <= k < rest@.len()
                    ==> rest@[k] == self.segments@[prefix.segments.len() + k],
            decreases self.segments.len() - j,
        {
            rest.push(self.segments[j].clone());
            j += 1;
        }
        let out = Path { segments: rest };
        proof {
            assert(self@.take(prefix@.len() as int) =~= prefix@);
            assert(out@ =~= path_rest(self@, prefix@));
        }
        Some(out)
    }
}

impl Clone for Path {
    /// Copies the path; the copy denotes the same sequence of segments.
    fn clone(&self) -> (r: Path)
        ensures
            r@ == self@,
    {
        let mut segments: Vec<String> = Vec::new();
        let mut i: usize = 0;
        while i < self.segments.len()
            invariant
                i <= self.segments.len(),
                segments@.len() == i,
                forall|j: int| 0 <= j < i ==> segments@[j] == self.segments@[j],
            decreases self.segments.len() - i,
        {
            segments.push(self.segments[i].clone());
            i += 1;
        }
        let r = Path { segments };
        proof {
            assert(r.segments@ =~= self.segments@);
            assert(r@ =~= self@);
        }
        r
    }
}

impl PartialEq for Path {
    fn eq(&self, other: &Path) -> (r: bool) {
        if self.segments.len() != other.segments.len() {
            proof {
                assert(self@.len() == self.segments@.len());
                assert(other@.len() == other.segments@.len());
            }
            return false;
        }
        let mut i: usize = 0;
        while i < self.segments.len()
            invariant
                i <= self.segments.len(),
                self.segments.len() == other.segments.len(),
                forall|j: int| 0 <= j < i ==> self@[j] == other@[j],
            decreases self.segments.len() - i,
        {
            if self.segments[i] != other.segments[i] {
                proof {
                    assert(self@[i as int] != other@[i as int]);
                }
                return false;
            }
            i += 1;
        }
        proof {
            assert(self@ =~= other@);
        }
        true
    }
}

impl vstd::std_specs::cmp::PartialEqSpecImpl for Path {
    open spec fn obeys_eq_spec() -> bool {
        true
    }

    open spec fn eq_spec(&self, other: &Path) -> bool {
        self@ == other@
    }
}

} // verus!
