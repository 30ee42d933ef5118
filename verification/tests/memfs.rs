use termscp::error::FsErrorKind;
use termscp::fs::FsPath;
use termscp::memfs::MemProvider;
use termscp::provider::Provider;

fn path(segs: &[&str]) -> FsPath {
    FsPath::from_segs(segs.iter().map(|s| s.to_string()).collect())
}

#[test]
fn test_memfs_mkdir_reports_already_exists() {
    let mut fs = MemProvider::new();
    assert!(fs.mkdir(&path(&["d"]), false).is_ok());
    let again = fs.mkdir(&path(&["d"]), false);
    assert!(again.is_err());
    assert_eq!(again.unwrap_err().kind(), FsErrorKind::AlreadyExists);
    assert!(fs.contains_dir(&path(&["d"])));
}

#[test]
fn test_memfs_recursive_mkdir_creates_ancestors() {
    let mut fs = MemProvider::new();
    assert!(fs.mkdir(&path(&["a", "b", "c"]), true).is_ok());
    assert!(fs.contains_dir(&path(&["a"])));
    assert!(fs.contains_dir(&path(&["a", "b"])));
    assert!(fs.contains_dir(&path(&["a", "b", "c"])));
}

#[test]
fn test_memfs_remove_takes_subtree() {
    let mut fs = MemProvider::new();
    assert!(fs.mkdir(&path(&["d"]), false).is_ok());
    assert!(fs.put_file(&path(&["d", "f"]), 4));
    assert!(fs.put_file(&path(&["keep"]), 2));
    assert!(fs.remove(&path(&["d"])).is_ok());
    assert!(!fs.exists_node(&path(&["d"])));
    assert!(!fs.exists_node(&path(&["d", "f"])));
    assert!(fs.contains_file_of_size(&path(&["keep"]), 2));
}

#[test]
fn test_memfs_scan_lists_children() {
    let mut fs = MemProvider::new();
    assert!(fs.mkdir(&path(&["d"]), false).is_ok());
    assert!(fs.put_file(&path(&["d", "one"]), 1));
    assert!(fs.put_file(&path(&["d", "two"]), 2));
    assert!(fs.mkdir(&path(&["d", "sub"]), false).is_ok());
    assert!(fs.put_file(&path(&["d", "sub", "deep"]), 3));
    let listing = fs.scan_dir(&path(&["d"])).unwrap();
    assert_eq!(listing.len(), 3);
    let names: Vec<String> = listing.iter().map(|e| e.get_name().clone()).collect();
    assert!(names.contains(&String::from("one")));
    assert!(names.contains(&String::from("two")));
    assert!(names.contains(&String::from("sub")));
}

#[test]
fn test_memfs_open_write_truncates() {
    let mut fs = MemProvider::new();
    assert!(fs.put_file(&path(&["f"]), 10));
    assert!(fs.open_write(&path(&["f"])).is_ok());
    assert!(fs.contains_file_of_size(&path(&["f"]), 0));
    let chunk: Vec<u8> = vec![7, 7, 7, 7, 7, 7];
    assert!(fs.write_chunk(&path(&["f"]), &chunk).is_ok());
    assert!(fs.contains_file_of_size(&path(&["f"]), 6));
}
