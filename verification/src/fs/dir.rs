use vstd::prelude::*;
use crate::path::Path;

verus! {

/// The mathematical content of a directory entry: the (mount-relative)
/// parent directory it was listed under, and the child name.
#[verifier::ext_equal]
pub struct DirEntryView {
    pub dir: Seq<Seq<char>>,
    pub name: Seq<char>,
}

/// One entry of a directory listing, produced fresh on each `read_dir`
/// call and not cached.
pub struct DirEntry {
    dir: Path,
    name: String,
}

impl View for DirEntry {
    type V = DirEntryView;

    closed spec fn view(&self) -> DirEntryView {
        DirEntryView { dir: self.dir@, name: self.name@ }
    }
}

impl DirEntry {
    pub(crate) fn new(dir: Path, name: String) -> (r: DirEntry)
        ensures
            r@ == (DirEntryView { dir: dir@, name: name@ }),
    {
        DirEntry { dir, name }
    }

    /// The full path of the entry: its parent directory joined with its
    /// name.
    pub fn path(&self) -> (r: Path)
        ensures
            r@ == self@.dir.push(self@.name),
    {
        self.dir.join(&self.name)
    }

    pub fn name(&self) -> (r: &str)
        ensures
            r@ == self@.name,
    {
        self.name.as_str()
    }
}

impl PartialEq for DirEntry {
    fn eq(&self, other: &DirEntry) -> (r: bool) {
        self.dir == other.dir && self.name == other.name
    }
}

impl vstd::std_specs::cmp::PartialEqSpecImpl for DirEntry {
    open spec fn obeys_eq_spec() -> bool {
        true
    }

    open spec fn eq_spec(&self, other: &DirEntry) -> bool {
        self@ == other@
    }
}

/// The content of a directory listing: the raw child names a backend
/// returned, kept together with the path they were listed under.
#[verifier::ext_equal]
pub struct ReadDirView {
    pub path: Seq<Seq<char>>,
    pub names: Seq<Seq<char>>,
}

/// A directory listing from one backend: the raw child name sequence,
/// wrapped together with the (mount-relative) path it was listed under,
/// so consumers can rebuild full entry paths.
pub struct ReadDir {
    path: Path,
    names: Vec<String>,
}

impl View for ReadDir {
    type V = ReadDirView;

    closed spec fn view(&self) -> ReadDirView {
        ReadDirView { path: self.path@, names: self.names.deep_view() }
    }
}

impl ReadDir {
    pub fn new(path: Path, names: Vec<String>) -> (r: ReadDir)
        ensures
            r@ == (ReadDirView { path: path@, names: names.deep_view() }),
    {
        ReadDir { path, names }
    }

    /// The listing as entries, each pairing the listed path with one of
    /// the names.
    pub fn entries(&self) -> (r: Vec<DirEntry>)
        ensures
            r@.len() == self@.names.len(),
            forall|i: int| 0 <= i < r@.len()
                ==> r@[i]@ == (DirEntryView { dir: self@.path, name: self@.names[i] }),
    {
        let mut out: Vec<DirEntry> = Vec::new();
        let mut i: usize = 0;
        while i < self.names.len()
            invariant
                i <= self.names.len(),
                out@.len() == i,
                forall|j: int| 0 <= j < i
                    ==> out@[j]@ == (DirEntryView { dir: self@.path, name: self@.names[j] }),
            decreases self.names.len() - i,
        {
            out.push(DirEntry::new(self.path.clone(), self.names[i].clone()));
            i += 1;
        }
        out
    }
}

} // verus!
