use peckish::errors::Error;
use peckish::inject::Injection;
use peckish::paths::VfsPath;
use peckish::vfs::{MemFS, Meta, NodeKind};

fn p(s: &str) -> VfsPath {
    VfsPath::parse(s.as_bytes())
}

fn file_meta() -> Meta {
    Meta { mode: 0o644, uid: 0, gid: 0, mtime: 0 }
}

#[test]
fn test_write_and_read_file() {
    let mut fs = MemFS::new();
    fs.write_file(&p("/a/b/c.txt"), b"hello".to_vec(), file_meta()).unwrap();
    let content = fs.read_file(&p("/a/b/c.txt")).unwrap();
    assert_eq!(content, b"hello".to_vec());
    // parents were created as directories
    assert_eq!(fs.kind_of(&p("/a")), Some(NodeKind::Dir));
    assert_eq!(fs.kind_of(&p("/a/b")), Some(NodeKind::Dir));
    // a missing path reads as NotFound
    assert_eq!(fs.read_file(&p("/nope")), Err(Error::NotFound));
}

#[test]
fn test_size_accounting_create_100_bytes() {
    // an otherwise-empty tree with one 100-byte file reports exactly 100
    let mut fs = MemFS::new();
    let inj = Injection::Create { path: p("/blob.bin"), content: vec![7u8; 100] };
    inj.inject(&mut fs).unwrap();
    assert_eq!(fs.size(), 100);
}

#[test]
fn test_create_then_delete_leaves_path_absent() {
    let mut fs = MemFS::new();
    fs.write_file(&p("/keep.txt"), b"keep".to_vec(), file_meta()).unwrap();
    let c = Injection::Create { path: p("/x/y.txt"), content: b"data".to_vec() };
    c.inject(&mut fs).unwrap();
    assert_eq!(fs.kind_of(&p("/x/y.txt")), Some(NodeKind::File));
    let d = Injection::Delete { path: p("/x/y.txt") };
    d.inject(&mut fs).unwrap();
    assert_eq!(fs.kind_of(&p("/x/y.txt")), None);
    // the other file is untouched
    assert_eq!(fs.read_file(&p("/keep.txt")).unwrap(), b"keep".to_vec());
}

#[test]
fn test_touch_twice_leaves_one_empty_file() {
    let mut fs = MemFS::new();
    let t1 = Injection::Touch { path: p("/touched") };
    t1.inject(&mut fs).unwrap();
    let t2 = Injection::Touch { path: p("/touched") };
    t2.inject(&mut fs).unwrap();
    assert_eq!(fs.kind_of(&p("/touched")), Some(NodeKind::File));
    assert_eq!(fs.read_file(&p("/touched")).unwrap(), Vec::<u8>::new());
    assert_eq!(fs.entry_count(), 1);
}

#[test]
fn test_symlink_depth_seven_resolves() {
    let mut fs = MemFS::new();
    fs.write_file(&p("/real"), b"content".to_vec(), file_meta()).unwrap();
    // a chain of 7 symlinks: link1 -> link2 -> ... -> link7 -> real
    for i in (1..=7).rev() {
        let target = if i == 7 { "/real".to_string() } else { format!("/link{}", i + 1) };
        fs.symlink(
            target.into_bytes(),
            &p(&format!("/link{}", i)),
            Meta { mode: 0o777, uid: 0, gid: 0, mtime: 0 },
        )
        .unwrap();
    }
    let resolved = fs.resolve_symlink(&p("/link1")).unwrap();
    assert_eq!(resolved.to_bytes(), b"/real".to_vec());
}

#[test]
fn test_symlink_depth_nine_fails() {
    let mut fs = MemFS::new();
    fs.write_file(&p("/real"), b"content".to_vec(), file_meta()).unwrap();
    // a chain of 9 symlinks must trip the depth bound
    for i in (1..=9).rev() {
        let target = if i == 9 { "/real".to_string() } else { format!("/link{}", i + 1) };
        fs.symlink(
            target.into_bytes(),
            &p(&format!("/link{}", i)),
            Meta { mode: 0o777, uid: 0, gid: 0, mtime: 0 },
        )
        .unwrap();
    }
    match fs.resolve_symlink(&p("/link1")) {
        Err(e) => assert_eq!(e, Error::TooManySymlinks),
        Ok(_) => panic!("expected the depth bound to trip"),
    }
}

#[test]
fn test_move_file_onto_file_replaces() {
    let mut fs = MemFS::new();
    fs.write_file(&p("/src.txt"), b"new".to_vec(), file_meta()).unwrap();
    fs.write_file(&p("/dest.txt"), b"old".to_vec(), file_meta()).unwrap();
    let mv = Injection::Move { src: p("/src.txt"), dest: p("/dest.txt") };
    mv.inject(&mut fs).unwrap();
    assert_eq!(fs.kind_of(&p("/src.txt")), None);
    assert_eq!(fs.read_file(&p("/dest.txt")).unwrap(), b"new".to_vec());
}

#[test]
fn test_move_file_into_dir_nests() {
    let mut fs = MemFS::new();
    fs.write_file(&p("/src.txt"), b"data".to_vec(), file_meta()).unwrap();
    fs.create_dir_all(&p("/target"), Meta { mode: 0o755, uid: 0, gid: 0, mtime: 0 }).unwrap();
    let mv = Injection::Move { src: p("/src.txt"), dest: p("/target") };
    mv.inject(&mut fs).unwrap();
    assert_eq!(fs.kind_of(&p("/src.txt")), None);
    assert_eq!(fs.read_file(&p("/target/src.txt")).unwrap(), b"data".to_vec());
}

#[test]
fn test_move_nonexistent_fails_without_mutation() {
    let mut fs = MemFS::new();
    fs.write_file(&p("/only.txt"), b"x".to_vec(), file_meta()).unwrap();
    let before = fs.entry_count();
    let mv = Injection::Move { src: p("/ghost"), dest: p("/dest") };
    assert_eq!(mv.inject(&mut fs), Err(Error::NotFound));
    assert_eq!(fs.entry_count(), before);
    assert_eq!(fs.kind_of(&p("/dest")), None);
}

#[test]
fn test_move_directory_subtree() {
    let mut fs = MemFS::new();
    fs.write_file(&p("/d/one.txt"), b"1".to_vec(), file_meta()).unwrap();
    fs.write_file(&p("/d/sub/two.txt"), b"2".to_vec(), file_meta()).unwrap();
    let mv = Injection::Move { src: p("/d"), dest: p("/e") };
    mv.inject(&mut fs).unwrap();
    assert_eq!(fs.kind_of(&p("/d")), None);
    assert_eq!(fs.read_file(&p("/e/one.txt")).unwrap(), b"1".to_vec());
    assert_eq!(fs.read_file(&p("/e/sub/two.txt")).unwrap(), b"2".to_vec());
}

#[test]
fn test_move_directory_onto_directory_is_refused() {
    let mut fs = MemFS::new();
    fs.write_file(&p("/a/f"), b"1".to_vec(), file_meta()).unwrap();
    fs.write_file(&p("/b/g"), b"2".to_vec(), file_meta()).unwrap();
    let mv = Injection::Move { src: p("/a"), dest: p("/b") };
    assert_eq!(mv.inject(&mut fs), Err(Error::UnsupportedOperation));
}

#[test]
fn test_copy_injection_duplicates_file() {
    let mut fs = MemFS::new();
    fs.write_file(&p("/orig"), b"payload".to_vec(), file_meta()).unwrap();
    let cp = Injection::Copy { src: p("/orig"), dest: p("/copy") };
    cp.inject(&mut fs).unwrap();
    assert_eq!(fs.read_file(&p("/orig")).unwrap(), b"payload".to_vec());
    assert_eq!(fs.read_file(&p("/copy")).unwrap(), b"payload".to_vec());
}

#[test]
fn test_read_dir_is_sorted() {
    let mut fs = MemFS::new();
    fs.write_file(&p("/dir/zeta"), b"z".to_vec(), file_meta()).unwrap();
    fs.write_file(&p("/dir/alpha"), b"a".to_vec(), file_meta()).unwrap();
    fs.write_file(&p("/dir/mid"), b"m".to_vec(), file_meta()).unwrap();
    let names = fs.read_dir(&p("/dir")).unwrap();
    assert_eq!(names, vec![b"alpha".to_vec(), b"mid".to_vec(), b"zeta".to_vec()]);
}

#[test]
fn test_remove_dir_all_removes_subtree() {
    let mut fs = MemFS::new();
    fs.write_file(&p("/t/a"), b"1".to_vec(), file_meta()).unwrap();
    fs.write_file(&p("/t/b/c"), b"2".to_vec(), file_meta()).unwrap();
    fs.write_file(&p("/stay"), b"3".to_vec(), file_meta()).unwrap();
    fs.remove_dir_all(&p("/t")).unwrap();
    assert_eq!(fs.kind_of(&p("/t")), None);
    assert_eq!(fs.kind_of(&p("/t/b/c")), None);
    assert_eq!(fs.read_file(&p("/stay")).unwrap(), b"3".to_vec());
}

#[test]
fn test_parse_path_normalises_slashes() {
    assert_eq!(p("/a/b").to_bytes(), b"/a/b".to_vec());
    assert_eq!(p("a//b/").to_bytes(), b"/a/b".to_vec());
    assert_eq!(p("").depth(), 0);
    assert!(p("/").is_root());
}

#[test]
fn test_hex_and_decimal_rendering() {
    assert_eq!(peckish::util::to_hex(&vec![0x00, 0xff, 0x1a]), b"00ff1a".to_vec());
    assert_eq!(peckish::util::u64_to_dec(0), b"0".to_vec());
    assert_eq!(peckish::util::u64_to_dec(1234567890), b"1234567890".to_vec());
}
