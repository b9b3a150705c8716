use cellfs::error::Error;
use cellfs::fs::stat::FileType;
use cellfs::handlers::archive::ArchiveHandler;
use cellfs::handlers::Handler;
use cellfs::path::Path;
use cellfs::CellFs;

fn p(segments: &[&str]) -> Path {
    Path::from_segments(segments.iter().map(|s| s.to_string()).collect())
}

fn sample_archive() -> ArchiveHandler {
    let mut archive = ArchiveHandler::new();
    archive.add_entry(p(&["a.txt"]), vec![0u8; 42]);
    archive.add_entry(p(&["sub", "c.txt"]), b"ccc".to_vec());
    archive.add_entry(p(&["sub", "d.txt"]), b"dddd".to_vec());
    archive
}

#[test]
fn archive_stat_reports_files_and_synthesized_directories() {
    let archive = sample_archive();

    let file = archive.stat(&p(&["a.txt"])).unwrap();
    assert_eq!(file.file_type, FileType::File);
    assert_eq!(file.size, 42);
    assert!(file.permissions.readonly());
    assert!(!file.permissions.writeonly());

    // `sub` names no entry but prefixes two: a synthesized directory.
    let dir = archive.stat(&p(&["sub"])).unwrap();
    assert_eq!(dir.file_type, FileType::Directory);
    assert_eq!(dir.size, 0);

    // The whole archive root is a directory as well.
    let root = archive.stat(&p(&[])).unwrap();
    assert_eq!(root.file_type, FileType::Directory);

    assert!(matches!(
        archive.stat(&p(&["missing"])),
        Err(Error::Handler(_))
    ));
}

#[test]
fn archive_read_dir_derives_first_segments() {
    let archive = sample_archive();

    let mut root = archive.read_dir(&p(&[])).unwrap();
    root.sort();
    assert_eq!(root, vec!["a.txt".to_string(), "sub".to_string()]);

    let mut sub = archive.read_dir(&p(&["sub"])).unwrap();
    sub.sort();
    assert_eq!(sub, vec!["c.txt".to_string(), "d.txt".to_string()]);

    // Listing an uncovered path is not an error: it is simply empty.
    assert_eq!(archive.read_dir(&p(&["missing"])).unwrap().len(), 0);
}

#[test]
fn archive_open_requires_an_exact_entry_name() {
    let archive = sample_archive();

    let file = archive.open(&p(&["sub", "c.txt"])).unwrap();
    assert_eq!(*file.into_inner(), b"ccc".to_vec());

    assert!(matches!(archive.open(&p(&["sub"])), Err(Error::Handler(_))));
}

#[test]
fn archive_exists_follows_stat() {
    let archive = sample_archive();
    assert!(archive.exists_at(&p(&["a.txt"])));
    assert!(archive.exists_at(&p(&["sub"])));
    assert!(!archive.exists_at(&p(&["missing"])));
}

#[test]
fn later_entries_shadow_equal_names() {
    let mut archive = ArchiveHandler::new();
    archive.add_entry(p(&["a"]), b"old".to_vec());
    archive.add_entry(p(&["a"]), b"new".to_vec());
    let file = archive.open(&p(&["a"])).unwrap();
    assert_eq!(*file.into_inner(), b"new".to_vec());
    assert_eq!(archive.stat(&p(&["a"])).unwrap().size, 3);
}

#[test]
fn archives_layer_inside_the_overlay() {
    let mut lower = ArchiveHandler::new();
    lower.add_entry(p(&["a.txt"]), b"lower-a".to_vec());
    lower.add_entry(p(&["sub", "b.txt"]), b"lower-b".to_vec());

    let mut upper = ArchiveHandler::new();
    upper.add_entry(p(&["a.txt"]), vec![1u8; 42]);
    upper.add_entry(p(&["sub", "c.txt"]), b"upper-c".to_vec());

    let mut fs: CellFs<ArchiveHandler> = CellFs::new();
    fs.mount(p(&[]), lower);
    fs.mount(p(&[]), upper);

    let mut root: Vec<String> = fs
        .read_dir(&p(&[]))
        .iter()
        .map(|e| e.name().to_string())
        .collect();
    root.sort();
    assert_eq!(root, vec!["a.txt".to_string(), "sub".to_string()]);

    // The upper archive shadows `a.txt`.
    let file = fs.open(&p(&["a.txt"])).unwrap();
    assert_eq!(*file.into_inner(), vec![1u8; 42]);

    // The upper archive has no `sub/b.txt`, so the lower one answers,
    // even though the upper mount path also matches.
    let file = fs.open(&p(&["sub", "b.txt"])).unwrap();
    assert_eq!(*file.into_inner(), b"lower-b".to_vec());
}
