use gfs::election::{KubeLeaseElector, LeaseAction, LeaseObservation, StaticLeader};
use gfs::fuse::{getattr, FileKind, FsError, FsState, ROOT_INO};
use gfs::proto::{FileInfo, ListDirectoryResponse, RpcCode, RpcStatus};
use gfs::inode::InodeTable;
use gfs::path::GfsPath;

fn path(text: &str) -> GfsPath {
    GfsPath::from_text(text.to_string())
}

#[test]
fn root_is_inode_one() {
    let t = InodeTable::new();
    assert_eq!(t.get_path(1).unwrap().text, "/");
    assert_eq!(t.next_inode(), 2);
    assert!(t.get_path(2).is_none());
}

#[test]
fn inodes_are_stable_and_distinct() {
    let mut t = InodeTable::default();
    let a = t.get_or_insert(&path("/a"));
    let b = t.get_or_insert(&path("/b"));
    assert_eq!(a, 2);
    assert_eq!(b, 3);
    assert_eq!(t.get_or_insert(&path("/a")), 2);
    assert_eq!(t.get_or_insert(&path("/a/")), 2);
    assert_eq!(t.get_or_insert(&path("/")), 1);
    assert_eq!(t.get_path(3).unwrap().text, "/b");
}

#[test]
fn removed_path_gets_a_fresh_inode() {
    let mut t = InodeTable::new();
    let a = t.get_or_insert(&path("/a"));
    t.remove_by_path(&path("/a"));
    assert!(t.get_path(a).is_none());
    assert_eq!(t.get_or_insert(&path("/a")), a + 1);
    t.remove_by_path(&path("/missing"));
    assert_eq!(t.next_inode(), a + 2);
}

#[test]
fn getattr_of_root_and_file() {
    let root = getattr(ROOT_INO);
    assert_eq!(root.kind, FileKind::Directory);
    assert_eq!(root.perm, 0o755);
    assert_eq!(root.nlink, 2);
    let file = getattr(7);
    assert_eq!(file.kind, FileKind::RegularFile);
    assert_eq!(file.perm, 0o644);
    assert_eq!(file.nlink, 1);
    assert_eq!(file.ino, 7);
    assert_eq!(file.uid, 1000);
    assert_eq!(file.blksize, 4096);
}

fn file_info(path: &str, size: u64, is_directory: bool) -> FileInfo {
    FileInfo { path: path.to_string(), size, chunks: Vec::new(), mtime: None, ctime: None, is_directory }
}

#[test]
fn readdir_lists_master_entries_from_offset() {
    let mut fs = FsState::new();
    let listing = ListDirectoryResponse {
        entries: vec![file_info("/logs", 0, true), file_info("/data.bin", 10, false)],
    };
    let all = fs.readdir(ROOT_INO, 0, &listing);
    let names: Vec<&str> = all.iter().map(|e| e.name.as_str()).collect();
    assert_eq!(names, vec![".", "..", "logs", "data.bin"]);
    assert_eq!(all[0].ino, ROOT_INO);
    assert_eq!(all[1].ino, ROOT_INO);
    assert_eq!(all[2].kind, FileKind::Directory);
    assert_eq!(all[3].kind, FileKind::RegularFile);
    assert_eq!(all[2].ino, 2);
    assert_eq!(all[3].ino, 3);
    let offsets: Vec<i64> = all.iter().map(|e| e.next_offset).collect();
    assert_eq!(offsets, vec![1, 2, 3, 4]);
    assert_eq!(fs.path_of(3).unwrap().text, "/data.bin");
    // Listing again hands out the same inodes.
    let again = fs.readdir(ROOT_INO, 2, &listing);
    assert_eq!(again.len(), 2);
    assert_eq!(again[0].name, "logs");
    assert_eq!(again[0].ino, 2);
    assert_eq!(again[1].ino, 3);
    assert!(fs.readdir(ROOT_INO, 4, &listing).is_empty());
    assert!(fs.readdir(ROOT_INO, -1, &listing).is_empty());
    let empty = fs.readdir(ROOT_INO, 0, &ListDirectoryResponse { entries: Vec::new() });
    assert_eq!(empty.len(), 2);
    assert_eq!(fs.next_inode(), 4);
}

#[test]
fn lookup_and_unlink() {
    let mut fs = FsState::new();
    let target = fs.child_path(ROOT_INO, "data.bin").unwrap();
    assert_eq!(target.text, "/data.bin");
    let attr = fs.lookup(&target, &Ok(file_info("/data.bin", 4096, false))).unwrap();
    assert_eq!(attr.ino, 2);
    assert_eq!(attr.size, 4096);
    assert_eq!(attr.kind, FileKind::RegularFile);
    assert_eq!(attr.perm, 0o644);
    assert_eq!(fs.path_of(2).unwrap().text, "/data.bin");
    assert_eq!(fs.lookup(&target, &Ok(file_info("/data.bin", 4096, false))).unwrap().ino, 2);
    let dir = fs.child_path(ROOT_INO, "logs").unwrap();
    let dattr = fs.lookup(&dir, &Ok(file_info("/logs", 0, true))).unwrap();
    assert_eq!(dattr.ino, 3);
    assert_eq!(dattr.kind, FileKind::Directory);
    assert_eq!(dattr.perm, 0o755);
    assert_eq!(dattr.nlink, 2);
    assert_eq!(fs.child_path(99, "x").err(), Some(FsError::NoEntry));
    fs.unlinked(&target);
    assert_eq!(fs.path_of(2).err(), Some(FsError::NoEntry));
}

#[test]
fn lookup_of_unknown_name_is_enoent_and_allocates_nothing() {
    let mut fs = FsState::new();
    let target = fs.child_path(ROOT_INO, "missing").unwrap();
    let missing = RpcStatus { code: RpcCode::NotFound, message: "no such file".to_string() };
    assert_eq!(fs.lookup(&target, &Err(missing)), Err(FsError::NoEntry));
    assert_eq!(fs.next_inode(), 2);
    let down = RpcStatus { code: RpcCode::Unavailable, message: "master down".to_string() };
    assert_eq!(fs.lookup(&target, &Err(down)), Err(FsError::Io));
    assert_eq!(fs.next_inode(), 2);
}

#[test]
fn static_leader_flag() {
    let mut s = StaticLeader::new(false);
    assert!(!s.is_leader());
    s.set_leader(true);
    assert!(s.is_leader());
}

#[test]
fn kube_elector_follows_the_lease_holder() {
    let mut e = KubeLeaseElector::new("gfs-master".to_string(), "default".to_string(), "me".to_string());
    assert!(!e.is_leader());
    assert_eq!(e.lease_name, "gfs-master");
    assert_eq!(e.namespace, "default");
    assert_eq!(e.holder_id, "me");
    let held = |h: &str, t: u64| LeaseObservation::Found { holder: Some(h.to_string()), renewed_at: Some(t) };
    assert_eq!(e.observe(&held("me", 1000), 2000), LeaseAction::Renew);
    assert!(e.is_leader());
    assert_eq!(e.observe(&held("other", 1000), 2000), LeaseAction::Wait);
    assert!(!e.is_leader());
    assert_eq!(e.observe(&held("other", 1000), 15_999), LeaseAction::Wait);
    assert_eq!(e.observe(&held("other", 1000), 16_000), LeaseAction::Acquire);
    assert!(!e.is_leader());
    e.written(true);
    assert!(e.is_leader());
    assert_eq!(e.observe(&LeaseObservation::Missing, 0), LeaseAction::Acquire);
    assert!(!e.is_leader());
    e.written(false);
    assert!(!e.is_leader());
    assert_eq!(e.observe(&LeaseObservation::Failed, 0), LeaseAction::Wait);
    assert_eq!(e.observe(&LeaseObservation::Found { holder: None, renewed_at: None }, 0), LeaseAction::Acquire);
    assert_eq!(e.observe(&LeaseObservation::Found { holder: Some("other".to_string()), renewed_at: None }, 0), LeaseAction::Acquire);
    e.written(true);
    e.step_down();
    assert!(!e.is_leader());
}

#[test]
fn only_the_leader_admits_mutations() {
    assert!(gfs::election::admit_mutation(true).is_ok());
    let refused = gfs::election::admit_mutation(false).unwrap_err();
    assert_eq!(refused.code, gfs::proto::RpcCode::Unavailable);
    assert_eq!(refused.message, "Not the leader");
}

#[test]
fn getattr_reports_what_the_master_knows() {
    let root = gfs::fuse::getattr_with(ROOT_INO, &Err(RpcStatus { code: RpcCode::Unavailable, message: String::new() }));
    assert_eq!(root, Ok(getattr(ROOT_INO)));
    let file = gfs::fuse::getattr_with(5, &Ok(file_info("/data.bin", 123, false))).unwrap();
    assert_eq!((file.ino, file.size, file.kind, file.perm), (5, 123, FileKind::RegularFile, 0o644));
    let dir = gfs::fuse::getattr_with(6, &Ok(file_info("/logs", 0, true))).unwrap();
    assert_eq!((dir.kind, dir.perm, dir.nlink), (FileKind::Directory, 0o755, 2));
    let gone = RpcStatus { code: RpcCode::NotFound, message: "File not found: /x".to_string() };
    assert_eq!(gfs::fuse::getattr_with(7, &Err(gone)), Err(FsError::NoEntry));
    let down = RpcStatus { code: RpcCode::Internal, message: String::new() };
    assert_eq!(gfs::fuse::getattr_with(7, &Err(down)), Err(FsError::Io));
}
