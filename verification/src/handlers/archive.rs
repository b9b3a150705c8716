use vstd::prelude::*;
use crate::error::Error;
use crate::fs::file::File;
use crate::fs::stat::{FileType, Permissions, Stat};
use crate::handlers::utils::{assoc_find, assoc_get, clone_bytes, error};
use crate::handlers::{Handler, HandlerModel};
use crate::path::{is_path_prefix, Path};

verus! {

/// One archive entry as the model sees it: its full name, split into
/// segments, and its bytes.
pub type ArchiveEntryModel = (Seq<Seq<char>>, Seq<u8>);

/// Some entry name has `p` as a prefix: the archive can answer for `p`.
pub open spec fn archive_covered(entries: Seq<ArchiveEntryModel>, p: Seq<Seq<char>>) -> bool {
    exists|i: int| 0 <= i < entries.len() && is_path_prefix(p, entries[i].0)
}

/// The bytes of the first entry whose name is exactly `p`, if any.
pub open spec fn archive_file_at(entries: Seq<ArchiveEntryModel>, p: Seq<Seq<char>>) -> Option<
    Seq<u8>,
>
    decreases entries.len(),
{
    if entries.len() == 0 {
        None
    } else if entries[0].0 == p {
        Some(entries[0].1)
    } else {
        archive_file_at(entries.drop_first(), p)
    }
}

/// The metadata the archive reports for a covered path `p`: a full
/// entry name is a read-only file of the entry's size; any other
/// covered prefix is a synthesized read-only directory.
pub open spec fn archive_stat(entries: Seq<ArchiveEntryModel>, p: Seq<Seq<char>>) -> Stat {
    match archive_file_at(entries, p) {
        Some(data) => Stat {
            file_type: FileType::File,
            permissions: Permissions { read: true, write: false },
            size: data.len() as usize,
        },
        None => Stat {
            file_type: FileType::Directory,
            permissions: Permissions { read: true, write: false },
            size: 0,
        },
    }
}

/// Entry `i` places the child name `n` immediately under `p`: its name
/// strictly extends `p` and `n` is the first segment past `p`.
pub open spec fn archive_entry_child(
    entries: Seq<ArchiveEntryModel>,
    p: Seq<Seq<char>>,
    i: int,
    n: Seq<char>,
) -> bool {
    &&& is_path_prefix(p, entries[i].0)
    &&& entries[i].0.len() > p.len()
    &&& entries[i].0[p.len() as int] == n
}

/// The immediate child names under `p`: the first segment past `p` of
/// every entry name that strictly extends it, as a set.
pub open spec fn archive_children(entries: Seq<ArchiveEntryModel>, p: Seq<Seq<char>>) -> Set<
    Seq<char>,
> {
    Set::new(|n: Seq<char>| exists|i: int| 0 <= i < entries.len() && archive_entry_child(entries, p, i, n))
}

/// A child name placed by one of the first `upto` entries.
spec fn archive_children_upto(
    entries: Seq<ArchiveEntryModel>,
    p: Seq<Seq<char>>,
    upto: int,
    n: Seq<char>,
) -> bool {
    exists|i: int| 0 <= i < upto && archive_entry_child(entries, p, i, n)
}

/// The names of `s` include `n`.
spec fn names_has(s: Seq<String>, n: Seq<char>) -> bool {
    exists|j: int| 0 <= j < s.len() && s[j]@ == n
}

/// The entry list as the model sees it.
spec fn entry_models(s: Seq<(Path, Vec<u8>)>) -> Seq<ArchiveEntryModel> {
    Seq::new(s.len(), |i: int| (s[i].0@, s[i].1@))
}

/// A backend over a flat collection of named entries, as a compressed
/// archive presents them: a logical path is matched by prefix against
/// the entry names; a full entry name is a file, any other covered
/// prefix a synthesized directory; listing derives the child-name set
/// from the names that extend the requested prefix.
pub struct ArchiveHandler {
    entries: Vec<(Path, Vec<u8>)>,
}

impl View for ArchiveHandler {
    type V = Seq<ArchiveEntryModel>;

    closed spec fn view(&self) -> Seq<ArchiveEntryModel> {
        entry_models(self.entries@)
    }
}

proof fn lemma_file_at_assoc(s: Seq<(Path, Vec<u8>)>, p: Seq<Seq<char>>)
    ensures
        (archive_file_at(entry_models(s), p) is Some) <==> (assoc_find(s, p) is Some),
        assoc_find(s, p) matches Some(v) ==> archive_file_at(entry_models(s), p) == Some(v@),
    decreases s.len(),
{
    if s.len() > 0 {
        assert(entry_models(s).drop_first() =~= entry_models(s.drop_first()));
        lemma_file_at_assoc(s.drop_first(), p);
    }
}

proof fn lemma_names_has_push(s: Seq<String>, x: String)
    ensures
        forall|n: Seq<char>| names_has(s.push(x), n) <==> (names_has(s, n) || x@ == n),
{
    assert forall|n: Seq<char>| names_has(s.push(x), n) implies (names_has(s, n) || x@ == n) by {
        let j = choose|j: int| 0 <= j < s.push(x).len() && s.push(x)[j]@ == n;
        if j < s.len() {
            assert(s[j]@ == n);
        } else {
            assert(s.push(x)[j] == x);
        }
    }
    assert forall|n: Seq<char>| names_has(s, n) implies names_has(s.push(x), n) by {
        let j = choose|j: int| 0 <= j < s.len() && s[j]@ == n;
        assert(s.push(x)[j]@ == n);
    }
    assert(s.push(x)[s.len() as int] == x);
}

/// Whether the names gathered so far include `name`.
fn contains_name(names: &Vec<String>, name: &String) -> (r: bool)
    ensures
        r == names_has(names@, name@),
{
    let n = names.len();
    let mut i: usize = 0;
    while i < n
        invariant
            n == names@.len(),
            i <= n,
            forall|j: int| 0 <= j < i ==> names@[j]@ != name@,
        decreases n - i,
    {
        if names[i] == *name {
            proof {
                assert(names@[i as int]@ == name@);
            }
            return true;
        }
        i += 1;
    }
    proof {
        if names_has(names@, name@) {
            let j = choose|j: int| 0 <= j < names@.len() && names@[j]@ == name@;
            assert(false);
        }
    }
    false
}

impl ArchiveHandler {
    /// An archive with no entries.
    pub fn new() -> (r: ArchiveHandler)
        ensures
            r@ == Seq::<ArchiveEntryModel>::empty(),
    {
        let r = ArchiveHandler { entries: Vec::new() };
        proof {
            assert(r@ =~= Seq::<ArchiveEntryModel>::empty());
        }
        r
    }

    /// Adds one named entry with its bytes, in front of the existing
    /// ones: of two entries with the same name, the one added later
    /// answers `stat` and `open`.
    pub fn add_entry(&mut self, path: Path, data: Vec<u8>)
        ensures
            final(self)@ == old(self)@.insert(0, (path@, data@)),
    {
        self.entries.insert(0, (path, data));
        proof {
            assert(self@ =~= old(self)@.insert(0, (path@, data@)));
        }
    }
}

impl Handler for ArchiveHandler {
    type Stream = Vec<u8>;

    open spec fn model(&self) -> HandlerModel {
        HandlerModel {
            stats: Map::new(
                |p: Seq<Seq<char>>| archive_covered(self@, p),
                |p: Seq<Seq<char>>| archive_stat(self@, p),
            ),
            dirs: Map::new(|p: Seq<Seq<char>>| true, |p: Seq<Seq<char>>| archive_children(self@, p)),
            files: Map::new(
                |p: Seq<Seq<char>>| archive_file_at(self@, p) is Some,
                |p: Seq<Seq<char>>| archive_file_at(self@, p)->0,
            ),
        }
    }

    open spec fn stream_model(s: Vec<u8>) -> Seq<u8> {
        s@
    }

    fn exists_at(&self, path: &Path) -> (r: bool) {
        self.stat(path).is_ok()
    }

    fn stat(&self, path: &Path) -> (r: Result<Stat, Error>) {
        proof {
            lemma_file_at_assoc(self.entries@, path@);
        }
        match assoc_get(&self.entries, path) {
            Some(data) => {
                proof {
                    crate::handlers::utils::lemma_assoc_find_has_key(self.entries@, path@);
                    let i = choose|i: int|
                        0 <= i < self.entries@.len() && self.entries@[i].0@ == path@;
                    assert(path@.take(path@.len() as int) =~= path@);
                    assert(is_path_prefix(path@, self@[i].0));
                    assert(archive_covered(self@, path@));
                }
                Ok(
                    Stat {
                        file_type: FileType::File,
                        permissions: Permissions { read: true, write: false },
                        size: data.len(),
                    },
                )
            },
            None => {
                proof {
                    assert(self@ == entry_models(self.entries@));
                    assert(archive_file_at(self@, path@) is None);
                }
                let n = self.entries.len();
                let mut i: usize = 0;
                while i < n
                    invariant
                        n == self.entries@.len(),
                        i <= n,
                        archive_file_at(self@, path@) is None,
                        forall|j: int| 0 <= j < i ==> !is_path_prefix(path@, self@[j].0),
                    decreases n - i,
                {
                    if self.entries[i].0.strip_prefix(path).is_some() {
                        proof {
                            assert(is_path_prefix(path@, self@[i as int].0));
                            assert(archive_covered(self@, path@));
                            assert(self.model().stats.dom().contains(path@));
                            assert(self.model().stats[path@] == archive_stat(self@, path@));
                        }
                        return Ok(
                            Stat {
                                file_type: FileType::Directory,
                                permissions: Permissions { read: true, write: false },
                                size: 0,
                            },
                        );
                    }
                    i += 1;
                }
                proof {
                    if archive_covered(self@, path@) {
                        let j = choose|j: int|
                            0 <= j < self@.len() && is_path_prefix(path@, self@[j].0);
                        assert(false);
                    }
                }
                Err(error("archive holds no entry under this path".to_string()))
            },
        }
    }

    fn read_dir(&self, path: &Path) -> (r: Result<Vec<String>, Error>) {
        let n = self.entries.len();
        let mut names: Vec<String> = Vec::new();
        let mut i: usize = 0;
        while i < n
            invariant
                n == self.entries@.len(),
                i <= n,
                forall|m: Seq<char>|
                    names_has(names@, m) <==> archive_children_upto(self@, path@, i as int, m),
            decreases n - i,
        {
            let ghost names_before = names@;
            match self.entries[i].0.strip_prefix(path) {
                Some(rest) => {
                    if rest.len() > 0 {
                        let name = rest.segment(0).clone();
                        proof {
                            assert(rest@[0] == self@[i as int].0[path@.len() as int]);
                            assert(archive_entry_child(self@, path@, i as int, name@));
                        }
                        if !contains_name(&names, &name) {
                            names.push(name);
                            proof {
                                lemma_names_has_push(names_before, name);
                            }
                        }
                    } else {
                        proof {
                            assert(self@[i as int].0.len() == path@.len());
                        }
                    }
                },
                None => {},
            }
            proof {
                assert forall|m: Seq<char>|
                    names_has(names@, m) <==> archive_children_upto(
                        self@,
                        path@,
                        i as int + 1,
                        m,
                    ) by {
                    assert(names_has(names_before, m) <==> archive_children_upto(
                        self@,
                        path@,
                        i as int,
                        m,
                    ));
                    if archive_children_upto(self@, path@, i as int + 1, m) {
                        let k = choose|k: int|
                            0 <= k < i as int + 1 && archive_entry_child(self@, path@, k, m);
                        if k < i as int {
                            assert(archive_children_upto(self@, path@, i as int, m));
                        }
                    }
                    if archive_children_upto(self@, path@, i as int, m) {
                        let k = choose|k: int|
                            0 <= k < i as int && archive_entry_child(self@, path@, k, m);
                        assert(0 <= k < i as int + 1);
                        assert(archive_children_upto(self@, path@, i as int + 1, m));
                    }
                }
            }
            i += 1;
        }
        proof {
            assert forall|m: Seq<char>|
                names.deep_view().to_set().contains(m) <==> self.model().dirs[path@].contains(
                    m,
                ) by {
                if names.deep_view().contains(m) {
                    let j = choose|j: int|
                        0 <= j < names.deep_view().len() && names.deep_view()[j] == m;
                    assert(names@[j]@ == m);
                    assert(names_has(names@, m));
                }
                if names_has(names@, m) {
                    let j = choose|j: int| 0 <= j < names@.len() && names@[j]@ == m;
                    assert(names.deep_view()[j] == m);
                    assert(names.deep_view().contains(m));
                }
                if archive_children_upto(self@, path@, n as int, m) {
                    let k = choose|k: int|
                        0 <= k < n as int && archive_entry_child(self@, path@, k, m);
                    assert(archive_children(self@, path@).contains(m));
                }
                if archive_children(self@, path@).contains(m) {
                    let k = choose|k: int|
                        0 <= k < self@.len() && archive_entry_child(self@, path@, k, m);
                    assert(archive_children_upto(self@, path@, n as int, m));
                }
            }
            assert(names.deep_view().to_set() =~= self.model().dirs[path@]);
        }
        Ok(names)
    }

    fn open(&self, path: &Path) -> (r: Result<File<Vec<u8>>, Error>) {
        proof {
            lemma_file_at_assoc(self.entries@, path@);
        }
        match assoc_get(&self.entries, path) {
            Some(data) => Ok(File::new(Box::new(clone_bytes(data)))),
            None => Err(error("archive holds no entry of this exact name".to_string())),
        }
    }

}

} // verus!
