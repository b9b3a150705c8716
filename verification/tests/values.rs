use cellfs::fs::dir::ReadDir;
use cellfs::fs::file::File;
use cellfs::fs::stat::{FileType, Permissions, Stat};
use cellfs::handlers::utils::error;
use cellfs::error::Error;
use cellfs::path::Path;

fn p(segments: &[&str]) -> Path {
    Path::from_segments(segments.iter().map(|s| s.to_string()).collect())
}

#[test]
fn prefixes_are_segment_wise() {
    let long = p(&["a", "b", "c"]);
    let rest = long.strip_prefix(&p(&["a", "b"])).unwrap();
    assert!(rest == p(&["c"]));

    // `a/b` is not a prefix of `a/bc`.
    assert!(p(&["a", "bc"]).strip_prefix(&p(&["a", "b"])).is_none());
    // The empty path is a prefix of everything.
    assert!(long.strip_prefix(&p(&[])).unwrap() == long);
    // A path is a prefix of itself, with an empty remainder.
    assert!(long.strip_prefix(&long).unwrap() == p(&[]));
    // A longer path is no prefix of a shorter one.
    assert!(p(&["a"]).strip_prefix(&long).is_none());
}

#[test]
fn paths_build_and_compare() {
    let mut grown = p(&["a"]);
    grown.push("b".to_string());
    assert!(grown == p(&["a", "b"]));
    assert!(grown != p(&["a", "c"]));
    assert_eq!(grown.len(), 2);
    assert_eq!(grown.segment(1), "b");
    assert!(grown.join(&"c".to_string()) == p(&["a", "b", "c"]));
    assert!(grown.clone() == grown);
    assert!(Path::empty() == p(&[]));
}

#[test]
fn read_dir_wraps_path_and_names() {
    let listing = ReadDir::new(p(&["sub"]), vec!["x".to_string(), "y".to_string()]);
    let entries = listing.entries();
    assert_eq!(entries.len(), 2);
    assert_eq!(entries[0].name(), "x");
    assert!(entries[0].path() == p(&["sub", "x"]));
    assert_eq!(entries[1].name(), "y");
    assert!(entries[1].path() == p(&["sub", "y"]));
}

#[test]
fn permissions_derive_their_predicates() {
    let ro = Permissions { read: true, write: false };
    assert!(ro.readonly() && !ro.writeonly());
    let wo = Permissions { read: false, write: true };
    assert!(wo.writeonly() && !wo.readonly());
    let rw = Permissions { read: true, write: true };
    assert!(!rw.readonly() && !rw.writeonly());

    let stat = Stat { file_type: FileType::File, permissions: rw, size: 9 };
    assert_eq!(stat, stat.clone());
    assert_ne!(FileType::File, FileType::Directory);
}

#[test]
fn files_hand_back_their_stream() {
    let file = File::new(Box::new(b"bytes".to_vec()));
    assert_eq!(*file.get_ref(), b"bytes".to_vec());
    assert_eq!(*file.into_inner(), b"bytes".to_vec());
}

#[test]
fn backend_failures_wrap_as_handler_errors() {
    match error("boom".to_string()) {
        Error::Handler(message) => assert_eq!(message, "boom"),
        _ => panic!("error() must produce the Handler kind"),
    }
    // The three kinds stay distinguishable.
    assert!(matches!(Error::Io("disk".to_string()), Error::Io(_)));
    assert!(matches!(
        Error::NotFound(p(&["a"])),
        Error::NotFound(_)
    ));
}
