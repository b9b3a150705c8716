use vstd::prelude::*;
use crate::error::Error;
use crate::fs::file::File;
use crate::fs::stat::Stat;
use crate::handlers::utils::{assoc_find, assoc_get, clone_bytes, clone_names, error};
use crate::handlers::{Handler, HandlerModel};
use crate::path::Path;

verus! {

/// An in-memory backend whose answers are laid down explicitly: which
/// relative paths exist and with what metadata, which directories can
/// be listed and with what child names, and which files can be opened
/// and with what bytes. A path given no listing fails `read_dir`, and a
/// path given no bytes fails `open`, so the handler also stands in for
/// a backend with a broken layer.
pub struct MemHandler {
    stats: Vec<(Path, Stat)>,
    dirs: Vec<(Path, Vec<String>)>,
    files: Vec<(Path, Vec<u8>)>,
}

impl MemHandler {
    /// A backend that knows no path at all.
    pub fn new() -> (r: MemHandler)
        ensures
            r.model() == (HandlerModel {
                stats: Map::empty(),
                dirs: Map::empty(),
                files: Map::empty(),
            }),
    {
        let r = MemHandler { stats: Vec::new(), dirs: Vec::new(), files: Vec::new() };
        proof {
            assert(r.model().stats =~= Map::<Seq<Seq<char>>, Stat>::empty());
            assert(r.model().dirs =~= Map::<Seq<Seq<char>>, Set<Seq<char>>>::empty());
            assert(r.model().files =~= Map::<Seq<Seq<char>>, Seq<u8>>::empty());
            assert(r.model() =~= (HandlerModel {
                stats: Map::empty(),
                dirs: Map::empty(),
                files: Map::empty(),
            }));
        }
        r
    }

    /// Declares `path` to exist, with the given metadata.
    pub fn add_stat(&mut self, path: Path, stat: Stat)
        ensures
            final(self).model() == (HandlerModel {
                stats: old(self).model().stats.insert(path@, stat),
                ..old(self).model()
            }),
    {
        self.stats.insert(0, (path, stat));
        proof {
            assert(self.stats@.drop_first() =~= old(self).stats@);
            assert(self.model().stats =~= old(self).model().stats.insert(path@, stat));
            assert(self.model() =~= (HandlerModel {
                stats: old(self).model().stats.insert(path@, stat),
                ..old(self).model()
            }));
        }
    }

    /// Declares `path` to be listable, with the given child names.
    pub fn add_dir(&mut self, path: Path, names: Vec<String>)
        ensures
            final(self).model() == (HandlerModel {
                dirs: old(self).model().dirs.insert(path@, names.deep_view().to_set()),
                ..old(self).model()
            }),
    {
        self.dirs.insert(0, (path, names));
        proof {
            assert(self.dirs@.drop_first() =~= old(self).dirs@);
            assert(self.model().dirs =~= old(self).model().dirs.insert(
                path@,
                names.deep_view().to_set(),
            ));
            assert(self.model() =~= (HandlerModel {
                dirs: old(self).model().dirs.insert(path@, names.deep_view().to_set()),
                ..old(self).model()
            }));
        }
    }

    /// Declares `path` to be openable, with the given bytes.
    pub fn add_file(&mut self, path: Path, data: Vec<u8>)
        ensures
            final(self).model() == (HandlerModel {
                files: old(self).model().files.insert(path@, data@),
                ..old(self).model()
            }),
    {
        self.files.insert(0, (path, data));
        proof {
            assert(self.files@.drop_first() =~= old(self).files@);
            assert(self.model().files =~= old(self).model().files.insert(path@, data@));
            assert(self.model() =~= (HandlerModel {
                files: old(self).model().files.insert(path@, data@),
                ..old(self).model()
            }));
        }
    }
}

impl Handler for MemHandler {
    type Stream = Vec<u8>;

    closed spec fn model(&self) -> HandlerModel {
        HandlerModel {
            stats: Map::new(
                |p: Seq<Seq<char>>| assoc_find(self.stats@, p) is Some,
                |p: Seq<Seq<char>>| assoc_find(self.stats@, p)->0,
            ),
            dirs: Map::new(
                |p: Seq<Seq<char>>| assoc_find(self.dirs@, p) is Some,
                |p: Seq<Seq<char>>| (assoc_find(self.dirs@, p)->0).deep_view().to_set(),
            ),
            files: Map::new(
                |p: Seq<Seq<char>>| assoc_find(self.files@, p) is Some,
                |p: Seq<Seq<char>>| (assoc_find(self.files@, p)->0)@,
            ),
        }
    }

    open spec fn stream_model(s: Vec<u8>) -> Seq<u8> {
        s@
    }

    fn exists_at(&self, path: &Path) -> (r: bool) {
        self.stat(path).is_ok()
    }

    fn stat(&self, path: &Path) -> (r: Result<Stat, Error>) {
        match assoc_get(&self.stats, path) {
            Some(stat) => Ok(*stat),
            None => Err(error("memory backend holds no such path".to_string())),
        }
    }

    fn read_dir(&self, path: &Path) -> (r: Result<Vec<String>, Error>) {
        match assoc_get(&self.dirs, path) {
            Some(names) => Ok(clone_names(names)),
            None => Err(error("memory backend cannot list this path".to_string())),
        }
    }

    fn open(&self, path: &Path) -> (r: Result<File<Vec<u8>>, Error>) {
        match assoc_get(&self.files, path) {
            Some(data) => Ok(File::new(Box::new(clone_bytes(data)))),
            None => Err(error("memory backend cannot open this path".to_string())),
        }
    }

}

} // verus!
