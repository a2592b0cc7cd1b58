use socd::tmpfs::{TmpFs, FsError, ROOT_INODE, read, ls, snapshot_extent, restore};

#[test]
fn standard_tree_is_there() {
    let fs = TmpFs::new();
    assert_eq!(read(&fs, "/etc/hostname").unwrap(), b"socd-node-1\n".to_vec());
    assert_eq!(read(&fs, "/proc/uptime").unwrap(), b"0\n".to_vec());
    let names: Vec<String> = ls(&fs, "/").unwrap().into_iter().map(|(n, _)| n).collect();
    for d in ["bin", "dev", "etc", "mod", "proc", "tmp", "var"] {
        assert!(names.iter().any(|n| n == d), "missing {}", d);
    }
    assert!(!names.iter().any(|n| n == "." || n == ".."));
}

#[test]
fn file_read_after_write() {
    let mut fs = TmpFs::new();
    let tmp = fs.resolve_path("/tmp").unwrap();
    let id = fs.create_file(tmp, "notes.txt", b"one").unwrap();
    assert_eq!(fs.read_file(id).unwrap(), b"one");
    socd::tmpfs::write(&mut fs, "/tmp/notes.txt", b"two").unwrap();
    assert_eq!(read(&fs, "/tmp/notes.txt").unwrap(), b"two".to_vec());
}

#[test]
fn errors_of_the_file_system() {
    let mut fs = TmpFs::new();
    assert!(matches!(read(&fs, "/nope"), Err(FsError::NotFound(_))));
    assert!(matches!(read(&fs, "/etc"), Err(FsError::NotAFile(_))));
    assert!(matches!(ls(&fs, "/etc/hostname"), Err(FsError::NotADirectory(_))));
    let etc = fs.resolve_path("/etc").unwrap();
    assert!(matches!(fs.create_file(etc, "hostname", b"x"), Err(FsError::AlreadyExists(_))));
    assert!(matches!(fs.mkdir(ROOT_INODE, "etc"), Err(FsError::AlreadyExists(_))));
}

#[test]
fn mkdir_then_resolve() {
    let mut fs = TmpFs::new();
    let id = fs.mkdir(ROOT_INODE, "home").unwrap();
    assert_eq!(fs.resolve_path("/home").unwrap(), id);
    assert_eq!(fs.resolve_path("/home/.").unwrap(), id);
    assert_eq!(fs.resolve_path("/home/..").unwrap(), ROOT_INODE);
}

#[test]
fn snapshot_restores_what_was_saved() {
    let mut fs = TmpFs::new();
    socd::tmpfs::write(&mut fs, "/etc/hostname", b"edge-7\n").unwrap();
    let bytes = fs.serialize(40);
    assert_eq!(&bytes[0..8], b"SOCDFS01");
    let total = u64::from_le_bytes(bytes[8..16].try_into().unwrap());
    assert_eq!(total as usize, bytes.len());
    let (back, next) = TmpFs::deserialize(&bytes).unwrap();
    assert_eq!(next, 40);
    assert_eq!(read(&back, "/etc/hostname").unwrap(), b"edge-7\n".to_vec());
    assert_eq!(read(&back, "/etc/version").unwrap(), read(&fs, "/etc/version").unwrap());
    assert_eq!(back.fs_stats().total_inodes, fs.fs_stats().total_inodes);
    assert_eq!(back.serialize(40), bytes);
}

#[test]
fn snapshot_refuses_damage() {
    let fs = TmpFs::new();
    let bytes = fs.serialize(20);
    let mut bad = bytes.clone();
    bad[0] = b'X';
    assert!(TmpFs::deserialize(&bad).is_none());
    assert!(TmpFs::deserialize(&bytes[..bytes.len() - 1]).is_none());
    assert!(TmpFs::deserialize(&bytes[..30]).is_none());
}

#[test]
fn disk_extent_and_restore() {
    let fs = TmpFs::new();
    let bytes = fs.serialize(30);
    let (total, padded) = snapshot_extent(&bytes[..16]).unwrap();
    assert_eq!(total, bytes.len());
    assert_eq!(padded % 512, 0);
    assert!(padded >= total && padded < total + 512);
    let mut disk = bytes.clone();
    disk.resize(padded, 0);
    let (back, next) = restore(&disk, total).unwrap();
    assert_eq!(next, 30);
    assert_eq!(read(&back, "/etc/hostname").unwrap(), b"socd-node-1\n".to_vec());
    let mut zero_len = bytes[..16].to_vec();
    zero_len[8..16].copy_from_slice(&0u64.to_le_bytes());
    assert!(snapshot_extent(&zero_len).is_none());
    let mut huge = bytes[..16].to_vec();
    huge[8..16].copy_from_slice(&(64u64 * 1024 * 1024 + 1).to_le_bytes());
    assert!(snapshot_extent(&huge).is_none());
    assert!(snapshot_extent(&[0u8; 16]).is_none());
}

#[test]
fn restored_counter_moves_past_ids() {
    let fs = TmpFs::new();
    let bytes = fs.serialize(0);
    let (mut back, next) = TmpFs::deserialize(&bytes).unwrap();
    assert_eq!(next, 0);
    let tmp = back.resolve_path("/tmp").unwrap();
    let id = back.create_file(tmp, "fresh", b"").unwrap();
    let mut max_old = 0;
    for (_, i) in ls(&fs, "/").unwrap() { if i > max_old { max_old = i; } }
    assert!(id > max_old);
}

#[test]
fn fresh_root_lists_the_standard_directories_in_order() {
    let fs = TmpFs::new();
    let names: Vec<String> = fs.list_dir(ROOT_INODE).unwrap().into_iter().map(|(n, _)| n).collect();
    assert_eq!(names, vec!["bin", "dev", "etc", "mod", "proc", "tmp", "var"]);
    let ids: Vec<u64> = fs.list_dir(ROOT_INODE).unwrap().into_iter().map(|(_, i)| i).collect();
    assert_eq!(ids, vec![2, 3, 4, 5, 6, 7, 8]);
}

#[test]
fn create_file_under_a_file_is_refused() {
    let mut fs = TmpFs::new();
    let etc = fs.resolve_path("/etc").unwrap();
    let f = fs.create_file(etc, "motd", b"hi").unwrap();
    let before = fs.fs_stats().total_inodes;
    assert!(matches!(fs.create_file(f, "x", b"y"), Err(FsError::NotADirectory(n)) if n == "motd"));
    assert_eq!(fs.fs_stats().total_inodes, before);
    assert!(matches!(fs.create_file(999, "x", b"y"), Err(FsError::NotFound(n)) if n == "999"));
}

#[test]
fn listings_are_ordered_by_name() {
    let mut fs = TmpFs::new();
    let names: Vec<String> = ls(&fs, "/etc").unwrap().into_iter().map(|(n, _)| n).collect();
    assert_eq!(names, vec!["hostname", "version"]);
    let tmp = fs.resolve_path("/tmp").unwrap();
    for n in ["zeta", "Alpha", "beta", "alpha", "b"] {
        fs.create_file(tmp, n, b"").unwrap();
    }
    let names: Vec<String> = ls(&fs, "/tmp").unwrap().into_iter().map(|(n, _)| n).collect();
    assert_eq!(names, vec!["Alpha", "alpha", "b", "beta", "zeta"]);
}
