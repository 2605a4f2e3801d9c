use ulbox360::inode::InodeTracker;

#[test]
fn new_tracker_knows_only_the_root() {
    let t = InodeTracker::new();
    assert_eq!(t.get_path(1).as_deref(), Some("/"));
    assert_eq!(t.get_path(0), None);
    assert_eq!(t.get_path(2), None);
}

#[test]
fn root_path_keeps_inode_one() {
    let mut t = InodeTracker::new();
    assert_eq!(t.get_or_create_inode("/"), 1);
    assert_eq!(t.get_or_create_inode("/a"), 2);
    assert_eq!(t.get_or_create_inode("/"), 1);
}

#[test]
fn new_paths_get_consecutive_inodes() {
    let mut t = InodeTracker::new();
    assert_eq!(t.get_or_create_inode("/Content"), 2);
    assert_eq!(t.get_or_create_inode("/Content/0000000000000000"), 3);
    assert_eq!(t.get_or_create_inode("/Apps"), 4);
}

#[test]
fn asking_twice_gives_the_same_inode() {
    let mut t = InodeTracker::new();
    let a = t.get_or_create_inode("/games/halo");
    let b = t.get_or_create_inode("/games/halo");
    assert_eq!(a, b);
    assert_eq!(t.get_or_create_inode("/other"), a + 1);
}

#[test]
fn inode_leads_back_to_its_path() {
    let mut t = InodeTracker::new();
    let a = t.get_or_create_inode("/x/y");
    let b = t.get_or_create_inode("/x");
    assert_eq!(t.get_path(a).as_deref(), Some("/x/y"));
    assert_eq!(t.get_path(b).as_deref(), Some("/x"));
    assert_ne!(a, b);
}

#[test]
fn free_inodes_shrink_only_for_new_paths() {
    let mut t = InodeTracker::new();
    assert_eq!(t.free_inodes(), u64::MAX - 2);
    t.get_or_create_inode("/a");
    assert_eq!(t.free_inodes(), u64::MAX - 3);
    t.get_or_create_inode("/a");
    assert_eq!(t.free_inodes(), u64::MAX - 3);
}

#[test]
fn only_requested_paths_have_inodes() {
    let mut t = InodeTracker::new();
    let paths = ["/a", "/b", "/a", "/", "/c", "/b"];
    let got: Vec<u64> = paths.iter().map(|p| t.get_or_create_inode(p)).collect();
    assert_eq!(got, vec![2, 3, 2, 1, 4, 3]);
    assert_eq!(t.get_path(1).as_deref(), Some("/"));
    assert_eq!(t.get_path(4).as_deref(), Some("/c"));
    assert_eq!(t.get_path(5), None);
    assert_eq!(t.free_inodes(), u64::MAX - 5);
}
