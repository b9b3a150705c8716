use vstd::prelude::*;
use crate::error::Error;
use crate::fs::dir::{DirEntry, DirEntryView, ReadDir};
use crate::fs::file::File;
use crate::handlers::{Handler, HandlerModel};
use crate::path::{is_path_prefix, path_rest, Path};

pub mod dir;
pub mod file;
pub mod stat;

verus! {

/// The identifier a `mount` call hands back, retained to later
/// `unmount`. Opaque: only equality is meaningful.
#[derive(Clone, Copy, PartialEq, Eq, Structural, Debug)]
pub struct MountId {
    value: u128,
}

impl View for MountId {
    type V = u128;

    closed spec fn view(&self) -> u128 {
        self.value
    }
}

/// Relies on `uuid::Uuid::new_v4` and `uuid::Uuid::as_u128`: a freshly
/// generated random (version 4) identifier, as its 128-bit value.
/// Nothing is promised of the value; uniqueness is only statistical.
#[verifier::external_body]
fn random_id_value() -> u128 {
    uuid::Uuid::new_v4().as_u128()
}

/// What the overlay engine sees of one mount point: its identifier, its
/// mount path, and its handler's abstract model.
#[verifier::ext_equal]
pub struct MountModel {
    pub id: u128,
    pub path: Seq<Seq<char>>,
    pub handler: HandlerModel,
}

/// One binding of a mount path to a backend handler, with a priority
/// implied by its position in the mount table. It exclusively owns its
/// handler and translates request paths by stripping its own mount path.
pub struct MountPoint<H> {
    id: MountId,
    path: Path,
    handler: H,
}

impl<H: Handler> View for MountPoint<H> {
    type V = MountModel;

    closed spec fn view(&self) -> MountModel {
        MountModel { id: self.id@, path: self.path@, handler: self.handler.model() }
    }
}

impl<H: Handler> MountPoint<H> {
    fn new(path: Path, handler: H) -> (r: MountPoint<H>)
        ensures
            r@.path == path@,
            r@.handler == handler.model(),
    {
        MountPoint { id: MountId { value: random_id_value() }, path, handler }
    }

    pub fn id(&self) -> (r: MountId)
        ensures
            r@ == self@.id,
    {
        self.id
    }

    pub fn path(&self) -> (r: &Path)
        ensures
            r@ == self@.path,
    {
        &self.path
    }

    /// Matches a request against this mount point: the stripped
    /// remainder iff the mount path is a prefix of the request and, when
    /// `gate` is set, the handler reports the remainder to exist.
    fn match_request(&self, path: &Path, gate: bool) -> (r: Option<Path>)
        ensures
            r is Some <==> (is_path_prefix(self@.path, path@) && (gate
                ==> self@.handler.stats.dom().contains(path_rest(path@, self@.path)))),
            r matches Some(rest) ==> rest@ == path_rest(path@, self@.path),
    {
        match path.strip_prefix(&self.path) {
            Some(rest) => {
                if gate && !self.handler.exists_at(&rest) {
                    None
                } else {
                    Some(rest)
                }
            },
            None => None,
        }
    }

    fn exists_at(&self, path: &Path) -> (r: bool)
        ensures
            r == self@.handler.stats.dom().contains(path@),
    {
        self.handler.exists_at(path)
    }

    fn read_dir(&self, path: Path) -> (r: Result<ReadDir, Error>)
        ensures
            r is Ok <==> self@.handler.dirs.dom().contains(path@),
            r matches Ok(rd) ==> rd@.path == path@ && rd@.names.to_set() == self@.handler.dirs[path@],
            r matches Err(e) ==> !(e is NotFound),
    {
        match self.handler.read_dir(&path) {
            Ok(names) => Ok(ReadDir::new(path, names)),
            Err(e) => Err(e),
        }
    }

    fn open(&self, path: &Path) -> (r: Result<File<H::Stream>, Error>)
        ensures
            r is Ok <==> self@.handler.files.dom().contains(path@),
            r matches Ok(f) ==> H::stream_model(f@) == self@.handler.files[path@],
            r matches Err(e) ==> !(e is NotFound),
    {
        self.handler.open(path)
    }
}

/// Mount `m` claims request `p` for an existence-gated query: its mount
/// path is a prefix of `p` and its handler reports the remainder to
/// exist.
pub open spec fn mount_claims(m: MountModel, p: Seq<Seq<char>>) -> bool {
    is_path_prefix(m.path, p) && m.handler.stats.dom().contains(path_rest(p, m.path))
}

/// Some active mount claims `p`.
pub open spec fn table_claims(table: Seq<MountModel>, p: Seq<Seq<char>>) -> bool {
    exists|i: int| 0 <= i < table.len() && mount_claims(table[i], p)
}

/// The index of the highest-priority mount claiming `p`: the largest
/// claiming index, or -1 when none claims it.
pub open spec fn winner_index(table: Seq<MountModel>, p: Seq<Seq<char>>) -> int
    decreases table.len(),
{
    if table.len() == 0 {
        -1
    } else if mount_claims(table.last(), p) {
        table.len() - 1
    } else {
        winner_index(table.drop_last(), p)
    }
}

/// Mount `m` contributes entry `e` to the union listing of request `p`.
pub open spec fn mount_lists(m: MountModel, p: Seq<Seq<char>>, e: DirEntryView) -> bool {
    mount_claims(m, p) && m.handler.dirs.dom().contains(path_rest(p, m.path)) && e.dir
        == path_rest(p, m.path) && m.handler.dirs[path_rest(p, m.path)].contains(e.name)
}

/// Entry `e` appears in the union listing of request `p`.
pub open spec fn table_lists(table: Seq<MountModel>, p: Seq<Seq<char>>, e: DirEntryView) -> bool {
    exists|i: int| 0 <= i < table.len() && mount_lists(table[i], p, e)
}

/// The table with every mount of identifier `id` removed, order kept.
pub open spec fn without_id(table: Seq<MountModel>, id: u128) -> Seq<MountModel>
    decreases table.len(),
{
    if table.len() == 0 {
        Seq::empty()
    } else {
        let rest = without_id(table.drop_last(), id);
        if table.last().id != id {
            rest.push(table.last())
        } else {
            rest
        }
    }
}

/// The models of a sequence of mount points, in table order.
spec fn mount_models<H: Handler>(points: Seq<MountPoint<H>>) -> Seq<MountModel> {
    Seq::new(points.len(), |i: int| points[i]@)
}

/// The views of the entries of `s` include `e`.
pub open spec fn has_entry(s: Seq<DirEntry>, e: DirEntryView) -> bool {
    exists|j: int| 0 <= j < s.len() && s[j]@ == e
}

/// No two entries of `s` denote the same (directory, name) pair.
pub open spec fn distinct_entries(s: Seq<DirEntry>) -> bool {
    forall|j: int, k: int| 0 <= j < k < s.len() ==> s[j]@ != s[k]@
}

/// The views of the entries of `s` at position `from` or later include
/// `e`.
spec fn has_entry_from(s: Seq<DirEntry>, from: int, e: DirEntryView) -> bool {
    exists|j: int| from <= j < s.len() && s[j]@ == e
}

/// Some mount at position `from` or later contributes `e` to the union
/// listing of request `p`.
spec fn table_lists_from(
    table: Seq<MountModel>,
    p: Seq<Seq<char>>,
    from: int,
    e: DirEntryView,
) -> bool {
    exists|m: int| from <= m < table.len() && mount_lists(table[m], p, e)
}

/// Whether the views of the entries of `entries` include `entry`'s.
fn contains_entry(entries: &Vec<DirEntry>, entry: &DirEntry) -> (r: bool)
    ensures
        r == has_entry(entries@, entry@),
{
    let n = entries.len();
    let mut i: usize = 0;
    while i < n
        invariant
            n == entries@.len(),
            i <= n,
            forall|j: int| 0 <= j < i ==> entries@[j]@ != entry@,
        decreases n - i,
    {
        if entries[i] == *entry {
            proof {
                assert(entries@[i as int]@ == entry@);
            }
            return true;
        }
        i += 1;
    }
    proof {
        if has_entry(entries@, entry@) {
            let j = choose|j: int| 0 <= j < entries@.len() && entries@[j]@ == entry@;
            assert(false);
        }
    }
    false
}

proof fn lemma_has_entry_push(s: Seq<DirEntry>, x: DirEntry)
    ensures
        forall|e: DirEntryView| has_entry(s.push(x), e) <==> (has_entry(s, e) || x@ == e),
{
    assert forall|e: DirEntryView| has_entry(s.push(x), e) implies (has_entry(s, e) || x@
        == e) by {
        let j = choose|j: int| 0 <= j < s.push(x).len() && s.push(x)[j]@ == e;
        if j < s.len() {
            assert(s[j]@ == e);
        } else {
            assert(s.push(x)[j] == x);
        }
    }
    assert forall|e: DirEntryView| has_entry(s, e) implies has_entry(s.push(x), e) by {
        let j = choose|j: int| 0 <= j < s.len() && s[j]@ == e;
        assert(s.push(x)[j]@ == e);
    }
    assert(s.push(x)[s.len() as int] == x);
}

/// The entries of `post` denote exactly the pairs denoted by `pre` or
/// by `add`.
spec fn merged(pre: Seq<DirEntry>, add: Seq<DirEntry>, post: Seq<DirEntry>) -> bool {
    forall|e: DirEntryView| has_entry(post, e) <==> (has_entry(pre, e) || has_entry(add, e))
}

/// Folds freshly listed entries into the union being built: an entry
/// already present (it came from a higher-priority mount) shadows the
/// incoming duplicate, which is discarded.
fn merge_new_entries(out: &mut Vec<DirEntry>, entries: Vec<DirEntry>)
    requires
        distinct_entries(old(out)@),
    ensures
        distinct_entries(final(out)@),
        merged(old(out)@, entries@, final(out)@),
{
    let ghost ents0 = entries@;
    let mut entries = entries;
    proof {
        assert(ents0.take(ents0.len() as int) =~= ents0);
        assert forall|e: DirEntryView|
            has_entry(out@, e) <==> (has_entry(old(out)@, e) || has_entry_from(
                ents0,
                ents0.len() as int,
                e,
            )) by {
            assert(!has_entry_from(ents0, ents0.len() as int, e));
        }
    }
    while entries.len() > 0
        invariant
            distinct_entries(out@),
            entries@.len() <= ents0.len(),
            entries@ == ents0.take(entries@.len() as int),
            forall|e: DirEntryView|
                has_entry(out@, e) <==> (has_entry(old(out)@, e) || has_entry_from(
                    ents0,
                    entries@.len() as int,
                    e,
                )),
        decreases entries@.len(),
    {
        let ghost len_before = entries@.len() as int;
        let ent = entries.pop().unwrap();
        proof {
            assert(entries@ =~= ents0.take(entries@.len() as int));
            assert(ents0.take(len_before)[len_before - 1] == ents0[len_before - 1]);
            assert(ent == ents0[len_before - 1]);
        }
        let ghost out_before = out@;
        let present = contains_entry(out, &ent);
        if !present {
            out.push(ent);
            proof {
                lemma_has_entry_push(out_before, ent);
            }
        }
        proof {
            assert forall|e: DirEntryView|
                has_entry_from(ents0, len_before - 1, e) <==> (ent@ == e || has_entry_from(
                    ents0,
                    len_before,
                    e,
                )) by {
                if has_entry_from(ents0, len_before - 1, e) {
                    let j = choose|j: int| len_before - 1 <= j < ents0.len() && ents0[j]@ == e;
                    if j >= len_before {
                        assert(has_entry_from(ents0, len_before, e));
                    }
                }
                if has_entry_from(ents0, len_before, e) {
                    let j = choose|j: int| len_before <= j < ents0.len() && ents0[j]@ == e;
                    assert(len_before - 1 <= j < ents0.len() && ents0[j]@ == e);
                }
                if ent@ == e {
                    assert(len_before - 1 <= len_before - 1 < ents0.len() && ents0[len_before
                        - 1]@ == e);
                }
            }
            assert(has_entry(out@, ent@));
        }
    }
    proof {
        assert forall|e: DirEntryView|
            has_entry_from(ents0, 0, e) <==> has_entry(ents0, e) by {
            if has_entry_from(ents0, 0, e) {
                let j = choose|j: int| 0 <= j < ents0.len() && ents0[j]@ == e;
                assert(has_entry(ents0, e));
            }
            if has_entry(ents0, e) {
                let j = choose|j: int| 0 <= j < ents0.len() && ents0[j]@ == e;
                assert(has_entry_from(ents0, 0, e));
            }
        }
    }
}

/// The mount table and overlay engine: an ordered sequence of mount
/// points. Order encodes priority: a mount appended later shadows an
/// earlier one when both can answer the same logical path.
pub struct CellFs<H> {
    mount_points: Vec<MountPoint<H>>,
}

impl<H: Handler> View for CellFs<H> {
    type V = Seq<MountModel>;

    closed spec fn view(&self) -> Seq<MountModel> {
        mount_models(self.mount_points@)
    }
}

impl<H: Handler> CellFs<H> {
    pub fn new() -> (r: CellFs<H>)
        ensures
            r@ == Seq::<MountModel>::empty(),
    {
        let r = CellFs { mount_points: Vec::new() };
        proof {
            assert(r@ =~= Seq::<MountModel>::empty());
        }
        r
    }

    /// Appends a new mount point at the end of the table, where it has
    /// the highest priority, and returns its identifier. Always
    /// succeeds; no path normalization or collision detection is done,
    /// and two mounts may legally share or nest paths.
    pub fn mount(&mut self, path: Path, handler: H) -> (r: MountId)
        ensures
            final(self)@ == old(self)@.push(
                MountModel { id: r@, path: path@, handler: handler.model() },
            ),
    {
        let mount_point = MountPoint::new(path, handler);
        let id = mount_point.id();
        proof {
            assert(mount_point@ =~= (MountModel {
                id: id@,
                path: path@,
                handler: handler.model(),
            }));
        }
        self.mount_points.push(mount_point);
        proof {
            assert(self@ =~= old(self)@.push(
                MountModel { id: id@, path: path@, handler: handler.model() },
            ));
        }
        id
    }

    /// Removes every mount point whose identifier matches; a no-op if
    /// none does. Streams previously returned by the removed handler are
    /// unaffected.
    pub fn unmount(&mut self, id: MountId)
        ensures
            final(self)@ == without_id(old(self)@, id@),
    {
        let ghost table = old(self)@;
        let ghost n = table.len();
        let mut kept: Vec<MountPoint<H>> = Vec::new();
        proof {
            assert(without_id(table.take(0int), id@) =~= Seq::<MountModel>::empty());
        }
        while self.mount_points.len() > 0
            invariant
                n == table.len(),
                self.mount_points@.len() <= n,
                forall|j: int|
                    0 <= j < self.mount_points@.len() ==> self.mount_points@[j]@ == table[n
                        - self.mount_points@.len() + j],
                mount_models(kept@) == without_id(table.take(n - self.mount_points@.len()), id@),
            decreases self.mount_points@.len(),
        {
            let ghost i = n - self.mount_points@.len();
            let ghost kept_before = mount_models(kept@);
            proof {
                assert(table.take(i + 1).drop_last() =~= table.take(i));
                assert(table.take(i + 1).last() == table[i]);
            }
            let mp = self.mount_points.remove(0);
            proof {
                assert(mp@ == table[i]);
            }
            if !(mp.id() == id) {
                kept.push(mp);
                proof {
                    assert(mount_models(kept@) =~= kept_before.push(table[i]));
                }
            }
            proof {
                assert(mount_models(kept@) =~= without_id(table.take(i + 1), id@));
            }
        }
        proof {
            assert(table.take(n as int) =~= table);
        }
        self.mount_points = kept;
        proof {
            assert(self@ =~= without_id(table, id@));
        }
    }

    /// True iff at least one active mount point has a mount path that is
    /// a prefix of `path` and whose handler reports existence for the
    /// remaining relative path. A pure disjunction: order plays no role.
    pub fn exists_at(&mut self, path: &Path) -> (r: bool)
        ensures
            *final(self) == *old(self),
            r == table_claims(old(self)@, path@),
    {
        let n = self.mount_points.len();
        let mut i: usize = 0;
        while i < n
            invariant
                n == self.mount_points@.len(),
                i <= n,
                forall|j: int| 0 <= j < i ==> !mount_claims(self@[j], path@),
            decreases n - i,
        {
            if self.mount_points[i].match_request(path, true).is_some() {
                proof {
                    assert(mount_claims(self@[i as int], path@));
                }
                return true;
            }
            i += 1;
        }
        false
    }

    /// The union of the listings of every mount point whose mount path
    /// is a prefix of `path` and which currently reports that the
    /// remainder exists. Mounts are consulted in reverse insertion
    /// order, highest priority first; entries are deduplicated by their
    /// exact (parent directory, name) pair, the occurrence from the
    /// highest-priority mount being kept. A mount point that errors
    /// while listing is silently skipped and contributes nothing.
    pub fn read_dir(&mut self, path: &Path) -> (r: Vec<DirEntry>)
        ensures
            *final(self) == *old(self),
            distinct_entries(r@),
            forall|e: DirEntryView| has_entry(r@, e) <==> table_lists(old(self)@, path@, e),
    {
        let n = self.mount_points.len();
        let mut out: Vec<DirEntry> = Vec::new();
        let mut i: usize = n;
        while i > 0
            invariant
                n == self.mount_points@.len(),
                i <= n,
                distinct_entries(out@),
                forall|e: DirEntryView|
                    has_entry(out@, e) <==> table_lists_from(self@, path@, i as int, e),
            decreases i,
        {
            i -= 1;
            let ghost before = out@;
            proof {
                lemma_table_lists_from_step(self@, path@, i as int);
            }
            match self.mount_points[i].match_request(path, true) {
                Some(rel) => {
                    let ghost relv = rel@;
                    match self.mount_points[i].read_dir(rel) {
                        Ok(listing) => {
                            let entries = listing.entries();
                            proof {
                                assert forall|e: DirEntryView|
                                    has_entry(entries@, e) <==> mount_lists(
                                        self@[i as int],
                                        path@,
                                        e,
                                    ) by {
                                    if has_entry(entries@, e) {
                                        let k = choose|k: int|
                                            0 <= k < entries@.len() && entries@[k]@ == e;
                                        assert(e.dir == relv);
                                        assert(listing@.names.contains(listing@.names[k]));
                                        assert(listing@.names.to_set().contains(e.name));
                                    }
                                    if mount_lists(self@[i as int], path@, e) {
                                        assert(listing@.names.to_set().contains(e.name));
                                        let k = choose|k: int|
                                            0 <= k < listing@.names.len() && listing@.names[k]
                                                == e.name;
                                        assert(entries@[k]@ == e);
                                    }
                                }
                            }
                            let ghost entsv = entries@;
                            merge_new_entries(&mut out, entries);
                            proof {
                                assert forall|e: DirEntryView|
                                    has_entry(out@, e) <==> (has_entry(before, e) || mount_lists(
                                        self@[i as int],
                                        path@,
                                        e,
                                    )) by {
                                    assert(has_entry(out@, e) <==> (has_entry(before, e)
                                        || has_entry(entsv, e)));
                                }
                            }
                        },
                        Err(_) => {
                            proof {
                                assert forall|e: DirEntryView|
                                    has_entry(out@, e) <==> (has_entry(before, e) || mount_lists(
                                        self@[i as int],
                                        path@,
                                        e,
                                    )) by {
                                    assert(!mount_lists(self@[i as int], path@, e));
                                }
                            }
                        },
                    }
                },
                None => {
                    proof {
                        assert(!mount_claims(self@[i as int], path@));
                        assert forall|e: DirEntryView|
                            has_entry(out@, e) <==> (has_entry(before, e) || mount_lists(
                                self@[i as int],
                                path@,
                                e,
                            )) by {
                            assert(!mount_lists(self@[i as int], path@, e));
                        }
                    }
                },
            }
            proof {
                assert forall|e: DirEntryView|
                    has_entry(out@, e) <==> table_lists_from(self@, path@, i as int, e) by {
                    assert(has_entry(before, e) <==> table_lists_from(
                        self@,
                        path@,
                        i as int + 1,
                        e,
                    ));
                    assert(table_lists_from(self@, path@, i as int, e) <==> (mount_lists(
                        self@[i as int],
                        path@,
                        e,
                    ) || table_lists_from(self@, path@, i as int + 1, e)));
                }
            }
        }
        proof {
            assert forall|e: DirEntryView|
                has_entry(out@, e) <==> table_lists(self@, path@, e) by {
                if has_entry(out@, e) {
                    let m = choose|m: int|
                        0 <= m < self@.len() && mount_lists(self@[m], path@, e);
                    assert(table_lists(self@, path@, e));
                }
                if table_lists(self@, path@, e) {
                    let m = choose|m: int|
                        0 <= m < self@.len() && mount_lists(self@[m], path@, e);
                    assert(table_lists_from(self@, path@, 0, e));
                }
            }
        }
        out
    }

    /// Resolves `path` to the highest-priority mount point whose
    /// existence check passes and asks it for a stream. With no claiming
    /// mount the result is exactly `Error::NotFound(path)`; a failure of
    /// the claiming handler's own `open` is propagated verbatim, never
    /// masked as `NotFound`.
    pub fn open(&mut self, path: &Path) -> (r: Result<File<H::Stream>, Error>)
        ensures
            *final(self) == *old(self),
            !table_claims(old(self)@, path@) ==> (r matches Err(e) && e matches Error::NotFound(q)
                && q@ == path@),
            table_claims(old(self)@, path@) ==> ({
                let w = winner_index(old(self)@, path@);
                let rel = path_rest(path@, old(self)@[w].path);
                &&& (r is Ok <==> old(self)@[w].handler.files.dom().contains(rel))
                &&& (r matches Ok(f) ==> H::stream_model(f@) == old(self)@[w].handler.files[rel])
                &&& (r matches Err(e) ==> !(e is NotFound))
            }),
    {
        let n = self.mount_points.len();
        let mut best: usize = 0;
        let mut best_rel: Option<Path> = None;
        let mut i: usize = 0;
        while i < n
            invariant
                n == self.mount_points@.len(),
                i <= n,
                best_rel is Some <==> table_claims(self@.take(i as int), path@),
                best_rel matches Some(rel) ==> ({
                    &&& best < i
                    &&& winner_index(self@.take(i as int), path@) == best
                    &&& mount_claims(self@[best as int], path@)
                    &&& rel@ == path_rest(path@, self@[best as int].path)
                }),
                best_rel is None ==> winner_index(self@.take(i as int), path@) == -1,
            decreases n - i,
        {
            proof {
                lemma_winner_take_step(self@, path@, i as int);
                lemma_claims_take_step(self@, path@, i as int);
            }
            match self.mount_points[i].match_request(path, true) {
                Some(rel) => {
                    best = i;
                    best_rel = Some(rel);
                },
                None => {},
            }
            i += 1;
        }
        proof {
            assert(self@.take(n as int) =~= self@);
        }
        match best_rel {
            Some(rel) => {
                proof {
                    lemma_winner_properties(self@, path@);
                }
                self.mount_points[best].open(&rel)
            },
            None => Err(Error::NotFound(path.clone())),
        }
    }
}

/// Splitting the range of a union off at its first mount: an entry is
/// contributed at position `i` or later iff mount `i` contributes it or
/// a later mount does.
proof fn lemma_table_lists_from_step(table: Seq<MountModel>, p: Seq<Seq<char>>, i: int)
    requires
        0 <= i < table.len(),
    ensures
        forall|e: DirEntryView|
            table_lists_from(table, p, i, e) <==> (mount_lists(table[i], p, e)
                || table_lists_from(table, p, i + 1, e)),
{
    assert forall|e: DirEntryView|
        table_lists_from(table, p, i, e) <==> (mount_lists(table[i], p, e) || table_lists_from(
            table,
            p,
            i + 1,
            e,
        )) by {
        if table_lists_from(table, p, i, e) {
            let m = choose|m: int| i <= m < table.len() && mount_lists(table[m], p, e);
            if m > i {
                assert(table_lists_from(table, p, i + 1, e));
            }
        }
        if mount_lists(table[i], p, e) {
            assert(i <= i < table.len() && mount_lists(table[i], p, e));
            assert(table_lists_from(table, p, i, e));
        }
        if table_lists_from(table, p, i + 1, e) {
            let m = choose|m: int| i + 1 <= m < table.len() && mount_lists(table[m], p, e);
            assert(i <= m < table.len() && mount_lists(table[m], p, e));
            assert(table_lists_from(table, p, i, e));
        }
    }
}

/// Extending a prefix of the table by one mount: the prefix claims a
/// request iff the new mount claims it or the shorter prefix did.
proof fn lemma_claims_take_step(table: Seq<MountModel>, p: Seq<Seq<char>>, i: int)
    requires
        0 <= i < table.len(),
    ensures
        table_claims(table.take(i + 1), p) <==> (mount_claims(table[i], p) || table_claims(
            table.take(i),
            p,
        )),
{
    let t1 = table.take(i + 1);
    let t0 = table.take(i);
    if table_claims(t1, p) {
        let j = choose|j: int| 0 <= j < t1.len() && mount_claims(t1[j], p);
        if j < i {
            assert(mount_claims(t0[j], p));
            assert(table_claims(t0, p));
        } else {
            assert(mount_claims(table[i], p));
        }
    }
    if mount_claims(table[i], p) {
        assert(mount_claims(t1[i], p));
        assert(table_claims(t1, p));
    }
    if table_claims(t0, p) {
        let j = choose|j: int| 0 <= j < t0.len() && mount_claims(t0[j], p);
        assert(mount_claims(t1[j], p));
        assert(table_claims(t1, p));
    }
}

/// Extending a prefix of the table by one mount moves the winner to the
/// new mount exactly when that mount claims the request.
proof fn lemma_winner_take_step(table: Seq<MountModel>, p: Seq<Seq<char>>, i: int)
    requires
        0 <= i < table.len(),
    ensures
        winner_index(table.take(i + 1), p) == if mount_claims(table[i], p) {
            i
        } else {
            winner_index(table.take(i), p)
        },
{
    assert(table.take(i + 1).drop_last() =~= table.take(i));
    assert(table.take(i + 1).last() == table[i]);
}

/// The winner of a claimed request is a claiming mount, and no mount of
/// higher priority claims the request.
pub proof fn lemma_winner_properties(table: Seq<MountModel>, p: Seq<Seq<char>>)
    requires
        table_claims(table, p),
    ensures
        0 <= winner_index(table, p) < table.len(),
        mount_claims(table[winner_index(table, p)], p),
        forall|j: int| winner_index(table, p) < j < table.len() ==> !mount_claims(table[j], p),
    decreases table.len(),
{
    if mount_claims(table.last(), p) {
    } else {
        assert(table_claims(table.drop_last(), p)) by {
            let j = choose|j: int| 0 <= j < table.len() && mount_claims(table[j], p);
            assert(j < table.len() - 1);
            assert(mount_claims(table.drop_last()[j], p));
        }
        lemma_winner_properties(table.drop_last(), p);
        let w = winner_index(table.drop_last(), p);
        assert(winner_index(table, p) == w);
        assert(table[w] == table.drop_last()[w]);
        assert forall|j: int| w < j < table.len() implies !mount_claims(table[j], p) by {
            if j < table.len() - 1 {
                assert(table.drop_last()[j] == table[j]);
            }
        }
    }
}

/// Shadowing: when a later mount claims a request, the winner lies at
/// that mount or later, so an earlier claiming mount never answers a
/// single-valued query.
pub proof fn lemma_open_shadowing(table: Seq<MountModel>, p: Seq<Seq<char>>, i: int, j: int)
    requires
        0 <= i < j < table.len(),
        mount_claims(table[j], p),
    ensures
        table_claims(table, p),
        j <= winner_index(table, p) < table.len(),
        winner_index(table, p) != i,
{
    assert(table_claims(table, p));
    lemma_winner_properties(table, p);
    if winner_index(table, p) < j {
        assert(!mount_claims(table[j], p));
    }
}

/// Resilience: a mount whose handler cannot list the request's
/// remainder contributes nothing to the union listing, which equals
/// that of the table with the mount removed.
pub proof fn lemma_read_dir_resilient(table: Seq<MountModel>, p: Seq<Seq<char>>, i: int)
    requires
        0 <= i < table.len(),
        !table[i].handler.dirs.dom().contains(path_rest(p, table[i].path)),
    ensures
        forall|e: DirEntryView|
            table_lists(table, p, e) <==> table_lists(table.remove(i), p, e),
{
    let rest = table.remove(i);
    assert forall|e: DirEntryView|
        table_lists(table, p, e) <==> table_lists(rest, p, e) by {
        if table_lists(table, p, e) {
            let m = choose|m: int| 0 <= m < table.len() && mount_lists(table[m], p, e);
            assert(m != i);
            if m < i {
                assert(rest[m] == table[m]);
                assert(table_lists(rest, p, e));
            } else {
                assert(rest[m - 1] == table[m]);
                assert(table_lists(rest, p, e));
            }
        }
        if table_lists(rest, p, e) {
            let m = choose|m: int| 0 <= m < rest.len() && mount_lists(rest[m], p, e);
            if m < i {
                assert(rest[m] == table[m]);
                assert(table_lists(table, p, e));
            } else {
                assert(rest[m] == table[m + 1]);
                assert(table_lists(table, p, e));
            }
        }
    }
}

/// Listing is a function of the mount table alone: two tables with
/// equal models list exactly the same entries, so two `read_dir` calls
/// with no intervening `mount` or `unmount` return the same set of
/// (directory, name) pairs.
pub proof fn lemma_read_dir_deterministic(
    table1: Seq<MountModel>,
    table2: Seq<MountModel>,
    p: Seq<Seq<char>>,
)
    requires
        table1 == table2,
    ensures
        forall|e: DirEntryView| table_lists(table1, p, e) <==> table_lists(table2, p, e),
{
}

} // verus!
