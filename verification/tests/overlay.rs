use cellfs::error::Error;
use cellfs::fs::stat::{FileType, Permissions, Stat};
use cellfs::handlers::mem::MemHandler;
use cellfs::path::Path;
use cellfs::CellFs;

fn p(segments: &[&str]) -> Path {
    Path::from_segments(segments.iter().map(|s| s.to_string()).collect())
}

fn names(segments: &[&str]) -> Vec<String> {
    segments.iter().map(|s| s.to_string()).collect()
}

fn dir_stat() -> Stat {
    Stat {
        file_type: FileType::Directory,
        permissions: Permissions { read: true, write: true },
        size: 0,
    }
}

fn file_stat(size: usize) -> Stat {
    Stat {
        file_type: FileType::File,
        permissions: Permissions { read: true, write: true },
        size,
    }
}

/// A backend covering one file `a` with the given content, everything
/// relative to its mount path.
fn one_file_backend(content: &[u8]) -> MemHandler {
    let mut h = MemHandler::new();
    h.add_stat(p(&["a"]), file_stat(content.len()));
    h.add_file(p(&["a"]), content.to_vec());
    h
}

#[test]
fn exists_reports_any_covering_mount() {
    let mut fs: CellFs<MemHandler> = CellFs::new();
    assert!(!fs.exists_at(&p(&["x", "a"])));

    fs.mount(p(&["x"]), one_file_backend(b"one"));
    assert!(fs.exists_at(&p(&["x", "a"])));
    assert!(!fs.exists_at(&p(&["x", "b"])));
    assert!(!fs.exists_at(&p(&["y", "a"])));
    // Prefixes are segment-wise: a mount at `x` does not cover `xy/a`.
    assert!(!fs.exists_at(&p(&["xy", "a"])));
}

#[test]
fn open_prefers_the_mount_added_last() {
    let mut fs: CellFs<MemHandler> = CellFs::new();
    fs.mount(p(&["x"]), one_file_backend(b"one"));
    fs.mount(p(&["x"]), one_file_backend(b"two"));

    let file = fs.open(&p(&["x", "a"])).unwrap();
    assert_eq!(*file.into_inner(), b"two".to_vec());
}

#[test]
fn unmount_reveals_the_older_mount() {
    let mut fs: CellFs<MemHandler> = CellFs::new();
    let id1 = fs.mount(p(&["x"]), one_file_backend(b"one"));
    let id2 = fs.mount(p(&["x"]), one_file_backend(b"two"));
    assert!(id1 == id1 && id2 == id2);

    fs.unmount(id2);
    let file = fs.open(&p(&["x", "a"])).unwrap();
    assert_eq!(*file.into_inner(), b"one".to_vec());

    // Unmounting an id that is no longer present is a no-op.
    fs.unmount(id2);
    let file = fs.open(&p(&["x", "a"])).unwrap();
    assert_eq!(*file.into_inner(), b"one".to_vec());

    fs.unmount(id1);
    assert!(matches!(fs.open(&p(&["x", "a"])), Err(Error::NotFound(_))));
}

#[test]
fn read_dir_unions_all_layers_and_dedups() {
    let mut fs: CellFs<MemHandler> = CellFs::new();

    let mut m1 = MemHandler::new();
    m1.add_stat(p(&[]), dir_stat());
    m1.add_dir(p(&[]), names(&["a", "b"]));

    let mut m2 = MemHandler::new();
    m2.add_stat(p(&[]), dir_stat());
    m2.add_dir(p(&[]), names(&["b", "c"]));

    fs.mount(p(&["x"]), m1);
    fs.mount(p(&["x"]), m2);

    let entries = fs.read_dir(&p(&["x"]));
    assert_eq!(entries.len(), 3);
    let mut seen: Vec<&str> = entries.iter().map(|e| e.name()).collect();
    seen.sort();
    assert_eq!(seen, vec!["a", "b", "c"]);
    assert_eq!(entries.iter().filter(|e| e.name() == "b").count(), 1);
    // Every entry was listed under the empty relative remainder.
    for e in &entries {
        assert!(e.path() == p(&[e.name()]));
    }
}

#[test]
fn read_dir_skips_a_layer_that_fails_to_list() {
    let mut fs: CellFs<MemHandler> = CellFs::new();

    let mut m1 = MemHandler::new();
    m1.add_stat(p(&["x"]), dir_stat());
    m1.add_dir(p(&["x"]), names(&["a"]));

    // The second layer reports `x` to exist but cannot list it.
    let mut m2 = MemHandler::new();
    m2.add_stat(p(&["x"]), dir_stat());

    fs.mount(p(&[]), m1);
    fs.mount(p(&[]), m2);

    let entries = fs.read_dir(&p(&["x"]));
    assert_eq!(entries.len(), 1);
    assert_eq!(entries[0].name(), "a");
}

#[test]
fn open_distinguishes_uncovered_from_failing() {
    let mut fs: CellFs<MemHandler> = CellFs::new();

    // Covered but not openable: the handler knows the path exists yet
    // holds no bytes for it.
    let mut m = MemHandler::new();
    m.add_stat(p(&["a"]), file_stat(3));
    fs.mount(p(&["x"]), m);

    match fs.open(&p(&["y"])) {
        Err(Error::NotFound(path)) => assert!(path == p(&["y"])),
        _ => panic!("an uncovered path must fail with NotFound"),
    }
    match fs.open(&p(&["x", "a"])) {
        Err(Error::Handler(_)) => {}
        _ => panic!("a covered path must propagate the handler's own failure"),
    }
}

#[test]
fn read_dir_twice_yields_the_same_set() {
    let mut fs: CellFs<MemHandler> = CellFs::new();

    let mut m1 = MemHandler::new();
    m1.add_stat(p(&[]), dir_stat());
    m1.add_dir(p(&[]), names(&["a", "b"]));
    let mut m2 = MemHandler::new();
    m2.add_stat(p(&[]), dir_stat());
    m2.add_dir(p(&[]), names(&["c"]));
    fs.mount(p(&["x"]), m1);
    fs.mount(p(&["x"]), m2);

    let first = fs.read_dir(&p(&["x"]));
    let second = fs.read_dir(&p(&["x"]));
    assert_eq!(first.len(), second.len());
    for e in &first {
        assert!(second
            .iter()
            .any(|o| o.name() == e.name() && o.path() == e.path()));
    }
    for e in &second {
        assert!(first
            .iter()
            .any(|o| o.name() == e.name() && o.path() == e.path()));
    }
}

#[test]
fn read_dir_of_an_uncovered_path_is_empty() {
    let mut fs: CellFs<MemHandler> = CellFs::new();
    assert_eq!(fs.read_dir(&p(&["x"])).len(), 0);

    fs.mount(p(&["x"]), one_file_backend(b"one"));
    assert_eq!(fs.read_dir(&p(&["y"])).len(), 0);
}

#[test]
fn read_dir_consults_only_mounts_that_report_existence() {
    let mut fs: CellFs<MemHandler> = CellFs::new();

    // This layer could list `x` but does not report it to exist, so the
    // existence gate keeps it out of the union.
    let mut m = MemHandler::new();
    m.add_dir(p(&["x"]), names(&["a"]));
    fs.mount(p(&[]), m);

    assert_eq!(fs.read_dir(&p(&["x"])).len(), 0);
}

#[test]
fn nested_mounts_answer_by_their_own_remainder() {
    let mut fs: CellFs<MemHandler> = CellFs::new();

    let mut outer = MemHandler::new();
    outer.add_stat(p(&["b", "f"]), file_stat(5));
    outer.add_file(p(&["b", "f"]), b"outer".to_vec());

    let mut inner = MemHandler::new();
    inner.add_stat(p(&["f"]), file_stat(5));
    inner.add_file(p(&["f"]), b"inner".to_vec());

    fs.mount(p(&["a"]), outer);
    fs.mount(p(&["a", "b"]), inner);

    let file = fs.open(&p(&["a", "b", "f"])).unwrap();
    assert_eq!(*file.into_inner(), b"inner".to_vec());
}
