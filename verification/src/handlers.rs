use vstd::prelude::*;
use crate::error::Error;
use crate::fs::file::File;
use crate::fs::stat::Stat;
use crate::path::Path;

pub mod archive;
pub mod mem;
pub mod utils;

verus! {

/// The abstract behaviour of a backend, as the overlay engine sees it:
/// which relative paths exist and with what metadata, which can be
/// listed and with what child names, and which can be opened and with
/// what bytes.
#[verifier::ext_equal]
pub struct HandlerModel {
    pub stats: Map<Seq<Seq<char>>, Stat>,
    pub dirs: Map<Seq<Seq<char>>, Set<Seq<char>>>,
    pub files: Map<Seq<Seq<char>>, Seq<u8>>,
}

/// The capability interface every backend must satisfy, over
/// backend-relative paths.
///
/// A backend answers `stat`, `read_dir`, `open` and `exists` against its
/// abstract model. It never reports `Error::NotFound`: that kind is
/// reserved to the overlay engine for "no mount claims this path".
pub trait Handler: Sized {
    /// The byte stream type this backend's `open` produces.
    type Stream;

    /// The backend's abstract model. A backend outside the verified
    /// boundary may leave the default, an arbitrary model: nothing is
    /// then known of its answers.
    open spec fn model(&self) -> HandlerModel {
        arbitrary()
    }

    /// The bytes a produced stream carries.
    open spec fn stream_model(s: Self::Stream) -> Seq<u8> {
        arbitrary()
    }

    /// Metadata for `path`; succeeds exactly on the paths that exist.
    fn stat(&self, path: &Path) -> (r: Result<Stat, Error>)
        ensures
            r is Ok <==> self.model().stats.dom().contains(path@),
            r matches Ok(s) ==> s == self.model().stats[path@],
            r matches Err(e) ==> !(e is NotFound),
    ;

    /// The immediate child names under `path`, in a backend-chosen order
    /// and possibly with repetitions; succeeds exactly on the listable
    /// paths, and the set of names is exactly the model's.
    fn read_dir(&self, path: &Path) -> (r: Result<Vec<String>, Error>)
        ensures
            r is Ok <==> self.model().dirs.dom().contains(path@),
            r matches Ok(names) ==> names.deep_view().to_set() == self.model().dirs[path@],
            r matches Err(e) ==> !(e is NotFound),
    ;

    /// A stream over the bytes of the file at `path`; succeeds exactly
    /// on the openable paths.
    fn open(&self, path: &Path) -> (r: Result<File<Self::Stream>, Error>)
        ensures
            r is Ok <==> self.model().files.dom().contains(path@),
            r matches Ok(f) ==> Self::stream_model(f@) == self.model().files[path@],
            r matches Err(e) ==> !(e is NotFound),
    ;

    /// Whether `path` exists: equivalent to `stat` succeeding, which a
    /// backend may answer more cheaply.
    fn exists_at(&self, path: &Path) -> (r: bool)
        ensures
            r == self.model().stats.dom().contains(path@),
    ;
}

} // verus!
