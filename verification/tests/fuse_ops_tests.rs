use ulbox360::datetime::CivilDateTime;
use ulbox360::dirent::DirEntryInfo;
use ulbox360::fuse_ops::{
    attr_reply, dirent_to_attr, lookup_reply, lookup_target, read_progress, read_start, read_window,
    readdir_listing, readdir_listing_with_parent, readdir_window, FsError, NodeKind, ReadProgress,
    ReadWindow,
};
use ulbox360::inode::InodeTracker;

fn when() -> CivilDateTime {
    CivilDateTime { year: 2012, month: 5, day: 6, hour: 7, minute: 8, second: 9 }
}

fn bad_when() -> CivilDateTime {
    CivilDateTime { year: 2012, month: 2, day: 30, hour: 7, minute: 8, second: 9 }
}

fn entry(name: &str, is_directory: bool, is_file: bool, size: u32) -> DirEntryInfo {
    DirEntryInfo {
        name: name.to_string(),
        is_directory,
        is_file,
        file_size: size,
        created: when(),
        modified: when(),
        accessed: bad_when(),
    }
}

#[test]
fn directory_attributes() {
    let a = dirent_to_attr(7, &entry("d", true, false, 123), 1000, 100).unwrap();
    assert_eq!(a.ino, 7);
    assert_eq!(a.size, 0);
    assert_eq!(a.blocks, 0);
    assert_eq!(a.kind, NodeKind::Directory);
    assert_eq!(a.perm, 0o755);
    assert_eq!(a.nlink, 2);
    assert_eq!(a.uid, 1000);
    assert_eq!(a.gid, 100);
    assert_eq!(a.blksize, 4096);
    assert_eq!(a.mtime, when());
    assert_eq!(a.ctime, when());
    assert_eq!(a.crtime, when());
    assert_eq!(a.atime, CivilDateTime { year: 2000, month: 1, day: 1, hour: 0, minute: 0, second: 0 });
}

#[test]
fn file_attributes_and_block_count() {
    let a = dirent_to_attr(9, &entry("f", false, true, 513), 0, 0).unwrap();
    assert_eq!(a.kind, NodeKind::RegularFile);
    assert_eq!(a.size, 513);
    assert_eq!(a.blocks, 2);
    assert_eq!(a.perm, 0o644);
    assert_eq!(a.nlink, 1);
    assert_eq!(dirent_to_attr(9, &entry("f", false, true, 0), 0, 0).unwrap().blocks, 0);
    assert_eq!(dirent_to_attr(9, &entry("f", false, true, 1), 0, 0).unwrap().blocks, 1);
    assert_eq!(dirent_to_attr(9, &entry("f", false, true, 512), 0, 0).unwrap().blocks, 1);
    assert_eq!(dirent_to_attr(9, &entry("f", false, true, u32::MAX), 0, 0).unwrap().blocks, 8388608);
}

#[test]
fn directory_wins_over_file_flag() {
    let a = dirent_to_attr(3, &entry("x", true, true, 10), 0, 0).unwrap();
    assert_eq!(a.kind, NodeKind::Directory);
}

#[test]
fn neither_file_nor_directory_has_no_attributes() {
    assert!(dirent_to_attr(3, &entry("x", false, false, 10), 0, 0).is_none());
    assert_eq!(attr_reply(3, Some(entry("x", false, false, 10)), 0, 0), Err(FsError::NotFound));
}

#[test]
fn attr_reply_missing_entry_is_not_found() {
    assert_eq!(attr_reply(3, None, 0, 0), Err(FsError::NotFound));
    assert_eq!(attr_reply(3, Some(entry("x", false, true, 10)), 0, 0).unwrap().size, 10);
}

#[test]
fn lookup_builds_child_path() {
    let mut t = InodeTracker::new();
    assert_eq!(lookup_target(&t, 1, "Content").as_deref(), Some("/Content"));
    assert_eq!(lookup_target(&t, 5, "Content"), None);
    let ino = t.get_or_create_inode("/Content");
    assert_eq!(lookup_target(&t, ino, "x").as_deref(), Some("/Content/x"));
}

#[test]
fn lookup_reply_gives_inode_only_to_existing_paths() {
    let mut t = InodeTracker::new();
    assert_eq!(lookup_reply(&mut t, "/missing", None, 0, 0), Err(FsError::NotFound));
    assert_eq!(t.get_path(2), None);
    let a = lookup_reply(&mut t, "/here", Some(entry("here", false, true, 4)), 0, 0).unwrap();
    assert_eq!(a.ino, 2);
    assert_eq!(t.get_path(2).as_deref(), Some("/here"));
    let b = lookup_reply(&mut t, "/here", Some(entry("here", false, true, 4)), 0, 0).unwrap();
    assert_eq!(b.ino, 2);
}

#[test]
fn lookup_reply_of_odd_entry_still_takes_an_inode() {
    let mut t = InodeTracker::new();
    assert_eq!(lookup_reply(&mut t, "/odd", Some(entry("odd", false, false, 0)), 0, 0), Err(FsError::NotFound));
    assert_eq!(t.get_path(2).as_deref(), Some("/odd"));
}

#[test]
fn read_window_caps_at_end_of_file() {
    assert_eq!(read_window(0, 4096, 100), Some(ReadWindow { start: 0, len: 100 }));
    assert_eq!(read_window(10, 20, 100), Some(ReadWindow { start: 10, len: 20 }));
    assert_eq!(read_window(90, 20, 100), Some(ReadWindow { start: 90, len: 10 }));
    assert_eq!(read_window(100, 20, 100), None);
    assert_eq!(read_window(1000, 20, 100), None);
    assert_eq!(read_window(-1, 20, 100), None);
    assert_eq!(read_window(5, 0, 100), Some(ReadWindow { start: 5, len: 0 }));
}

#[test]
fn read_loop_steps() {
    assert_eq!(read_start(0), ReadProgress::Done(0));
    assert_eq!(read_start(10), ReadProgress::More(0));
    assert_eq!(read_progress(0, 10, Some(4)), ReadProgress::More(4));
    assert_eq!(read_progress(4, 10, Some(6)), ReadProgress::Done(10));
    assert_eq!(read_progress(4, 10, Some(0)), ReadProgress::Done(4));
    assert_eq!(read_progress(4, 10, None), ReadProgress::Failed);
}

#[test]
fn readdir_of_root() {
    let mut t = InodeTracker::new();
    let children = vec![entry("Content", true, false, 0), entry("name.txt", false, true, 3), entry("weird", false, false, 0)];
    let l = readdir_listing(&mut t, 1, "/", &children);
    assert_eq!(l.len(), 4);
    assert_eq!((l[0].ino, l[0].kind, l[0].name.as_str()), (1, NodeKind::Directory, "."));
    assert_eq!((l[1].ino, l[1].kind, l[1].name.as_str()), (1, NodeKind::Directory, ".."));
    assert_eq!((l[2].ino, l[2].kind, l[2].name.as_str()), (2, NodeKind::Directory, "Content"));
    assert_eq!((l[3].ino, l[3].kind, l[3].name.as_str()), (3, NodeKind::RegularFile, "name.txt"));
    assert_eq!(t.get_path(2).as_deref(), Some("/Content"));
    assert_eq!(t.get_path(3).as_deref(), Some("/name.txt"));
}

#[test]
fn readdir_of_subdirectory_links_parent() {
    let mut t = InodeTracker::new();
    let sub = t.get_or_create_inode("/a/b");
    let l = readdir_listing(&mut t, sub, "/a/b", &vec![entry("c", false, true, 1)]);
    assert_eq!(l[0].ino, sub);
    assert_eq!(t.get_path(l[1].ino).as_deref(), Some("/a"));
    assert_eq!(t.get_path(l[2].ino).as_deref(), Some("/a/b/c"));
    let l2 = readdir_listing_with_parent(&mut t, sub, "/a/b", "/a", &vec![]);
    assert_eq!(l2[1].ino, l[1].ino);
    assert_eq!(l2.len(), 2);
}

#[test]
fn lookup_after_readdir_gives_same_inode() {
    let mut t = InodeTracker::new();
    let l = readdir_listing(&mut t, 1, "/", &vec![entry("x", false, true, 1), entry("y", true, false, 0)]);
    for line in &l[2..] {
        let path = lookup_target(&t, 1, &line.name).unwrap();
        let a = lookup_reply(&mut t, &path, Some(entry(&line.name, false, true, 1)), 0, 0).unwrap();
        assert_eq!(a.ino, line.ino);
    }
}

#[test]
fn readdir_window_resumes_after_offset() {
    let mut t = InodeTracker::new();
    let l = readdir_listing(&mut t, 1, "/", &vec![entry("a", false, true, 1), entry("b", false, true, 1)]);
    let all = readdir_window(&l, 0);
    assert_eq!(all.len(), 4);
    assert_eq!(all.iter().map(|e| e.next_offset).collect::<Vec<_>>(), vec![1, 2, 3, 4]);
    let rest = readdir_window(&l, all[1].next_offset);
    assert_eq!(rest.len(), 2);
    assert_eq!(rest[0].name, "a");
    assert_eq!(rest[0].next_offset, 3);
    assert_eq!(readdir_window(&l, 4).len(), 0);
    assert_eq!(readdir_window(&l, 99).len(), 0);
    assert_eq!(readdir_window(&l, -1).len(), 0);
}

#[test]
fn readdir_parent_follows_std_path_parent() {
    for dir in ["/a/b/c", "/a", "/Content/0000000000000000"] {
        let mut t = InodeTracker::new();
        let ino = t.get_or_create_inode(dir);
        let l = readdir_listing(&mut t, ino, dir, &vec![]);
        let expected = std::path::Path::new(dir).parent().unwrap().to_str().unwrap().to_string();
        assert_eq!(t.get_path(l[1].ino), Some(expected));
    }
}

#[test]
fn second_listing_gives_same_lines_and_no_new_inodes() {
    let mut t = InodeTracker::new();
    let sub = t.get_or_create_inode("/d");
    let children = vec![entry("a", false, true, 1), entry("b", true, false, 0), entry("a2", false, true, 5)];
    let first = readdir_listing(&mut t, sub, "/d", &children);
    let free = t.free_inodes();
    let second = readdir_listing(&mut t, sub, "/d", &children);
    assert_eq!(t.free_inodes(), free);
    assert_eq!(first.len(), second.len());
    for (x, y) in first.iter().zip(second.iter()) {
        assert_eq!((x.ino, x.kind, x.name.as_str()), (y.ino, y.kind, y.name.as_str()));
    }
}

#[test]
fn listing_after_lookup_shows_the_looked_up_inode() {
    let mut t = InodeTracker::new();
    let path = lookup_target(&t, 1, "late").unwrap();
    let a = lookup_reply(&mut t, &path, Some(entry("late", false, true, 2)), 0, 0).unwrap();
    let l = readdir_listing(&mut t, 1, "/", &vec![entry("early", false, true, 1), entry("late", false, true, 2)]);
    assert_eq!(l[3].name, "late");
    assert_eq!(l[3].ino, a.ino);
    assert_ne!(l[2].ino, l[3].ino);
}
