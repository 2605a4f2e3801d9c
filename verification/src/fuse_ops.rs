use vstd::prelude::*;

use crate::datetime::{fatx_datetime_to_civil, spec_fatx_datetime, CivilDateTime};
use crate::dirent::DirEntryInfo;
use crate::inode::{root_inode, InodeTable, InodeTracker, lemma_create_then_path_of};
use crate::paths::{path_parent, push_path, spec_push_path, std_path_parent};

verus! {

/// The two kinds of node a FATX volume shows through the mount.
#[derive(Clone, Copy, Debug, PartialEq, Eq, Structural)]
pub enum NodeKind {
    Directory,
    RegularFile,
}

/// Why a file system request is answered with an error.
#[derive(Clone, Copy, Debug, PartialEq, Eq, Structural)]
pub enum FsError {
    /// No such file or directory.
    NotFound,
    /// The volume could not be read.
    Io,
}

/// The attributes the mount reports for a node.
#[derive(Clone, Copy, Debug, PartialEq, Eq, Structural)]
pub struct FileAttributes {
    pub ino: u64,
    pub size: u64,
    pub blocks: u64,
    pub atime: CivilDateTime,
    pub mtime: CivilDateTime,
    pub ctime: CivilDateTime,
    pub crtime: CivilDateTime,
    pub kind: NodeKind,
    pub perm: u16,
    pub nlink: u32,
    pub uid: u32,
    pub gid: u32,
    pub rdev: u32,
    pub blksize: u32,
    pub flags: u32,
}

/// The attributes of a directory entry shown as inode `ino`, owned by
/// `uid`/`gid`: directories get mode 755, two links and no size; files get
/// mode 644, one link, their size and the number of 512-byte blocks it
/// takes; anything else has no attributes.
pub open spec fn spec_dirent_attr(ino: u64, e: DirEntryInfo, uid: u32, gid: u32) -> Option<FileAttributes> {
    if e.is_directory {
        Some(FileAttributes {
            ino,
            size: 0,
            blocks: 0,
            atime: spec_fatx_datetime(e.accessed),
            mtime: spec_fatx_datetime(e.modified),
            ctime: spec_fatx_datetime(e.modified),
            crtime: spec_fatx_datetime(e.created),
            kind: NodeKind::Directory,
            perm: 0o755,
            nlink: 2,
            uid,
            gid,
            rdev: 0,
            flags: 0,
            blksize: 4096,
        })
    } else if e.is_file {
        Some(FileAttributes {
            ino,
            size: e.file_size as u64,
            blocks: ((e.file_size + 511) / 512) as u64,
            atime: spec_fatx_datetime(e.accessed),
            mtime: spec_fatx_datetime(e.modified),
            ctime: spec_fatx_datetime(e.modified),
            crtime: spec_fatx_datetime(e.created),
            kind: NodeKind::RegularFile,
            perm: 0o644,
            nlink: 1,
            uid,
            gid,
            rdev: 0,
            flags: 0,
            blksize: 4096,
        })
    } else {
        None
    }
}

/// The attributes of `dirent` shown as inode `inode`, owned by `uid`/`gid`.
pub fn dirent_to_attr(inode: u64, dirent: &DirEntryInfo, uid: u32, gid: u32) -> (r: Option<
    FileAttributes,
>)
    ensures
        r == spec_dirent_attr(inode, *dirent, uid, gid),
        (dirent.is_directory || dirent.is_file) <==> r is Some,
        r matches Some(a) ==> (a.ino == inode && a.uid == uid && a.gid == gid && a.atime
            == spec_fatx_datetime(dirent.accessed) && a.mtime == spec_fatx_datetime(dirent.modified) && a.ctime
            == spec_fatx_datetime(dirent.modified) && a.crtime == spec_fatx_datetime(dirent.created) && a.rdev
            == 0 && a.flags == 0 && a.blksize == 4096),
        dirent.is_directory ==> (r matches Some(a) && a.kind == NodeKind::Directory && a.size == 0
            && a.blocks == 0 && a.perm == 0o755 && a.nlink == 2),
        !dirent.is_directory && dirent.is_file ==> (r matches Some(a) && a.kind == NodeKind::RegularFile
            && a.size == dirent.file_size && a.blocks * 512 >= dirent.file_size && a.blocks * 512 < dirent.file_size
            + 512 && a.perm == 0o644 && a.nlink == 1),
{
    if dirent.is_directory {
        return Some(FileAttributes {
            ino: inode,
            size: 0,
            blocks: 0,
            atime: fatx_datetime_to_civil(dirent.accessed),
            mtime: fatx_datetime_to_civil(dirent.modified),
            ctime: fatx_datetime_to_civil(dirent.modified),
            crtime: fatx_datetime_to_civil(dirent.created),
            kind: NodeKind::Directory,
            perm: 0o755,
            nlink: 2,
            uid,
            gid,
            rdev: 0,
            flags: 0,
            blksize: 4096,
        });
    }
    if dirent.is_file {
        let size = dirent.file_size as u64;
        return Some(FileAttributes {
            ino: inode,
            size,
            blocks: (size + 511) / 512,
            atime: fatx_datetime_to_civil(dirent.accessed),
            mtime: fatx_datetime_to_civil(dirent.modified),
            ctime: fatx_datetime_to_civil(dirent.modified),
            crtime: fatx_datetime_to_civil(dirent.created),
            kind: NodeKind::RegularFile,
            perm: 0o644,
            nlink: 1,
            uid,
            gid,
            rdev: 0,
            flags: 0,
            blksize: 4096,
        });
    }
    None
}

/// The answer to a request for the attributes of inode `ino`, given what
/// reading its entry gave (`None` when the entry could not be read).
pub open spec fn spec_attr_reply(ino: u64, entry: Option<DirEntryInfo>, uid: u32, gid: u32) -> Result<
    FileAttributes,
    FsError,
> {
    match entry {
        Some(e) => match spec_dirent_attr(ino, e, uid, gid) {
            Some(a) => Ok(a),
            None => Err(FsError::NotFound),
        },
        None => Err(FsError::NotFound),
    }
}

/// Answers a request for the attributes of inode `ino` from what reading its
/// entry gave.
pub fn attr_reply(ino: u64, entry: Option<DirEntryInfo>, uid: u32, gid: u32) -> (r: Result<
    FileAttributes,
    FsError,
>)
    ensures
        r == spec_attr_reply(ino, entry, uid, gid),
        r is Err ==> r == Err::<FileAttributes, FsError>(FsError::NotFound),
        entry is None ==> r is Err,
        entry matches Some(e) ==> (r is Ok <==> (e.is_directory || e.is_file)),
        r matches Ok(a) ==> (entry matches Some(e) && Some(a) == spec_dirent_attr(ino, e, uid, gid)),
{
    match entry {
        Some(e) => match dirent_to_attr(ino, &e, uid, gid) {
            Some(a) => Ok(a),
            None => Err(FsError::NotFound),
        },
        None => Err(FsError::NotFound),
    }
}

/// The path to look up for `name` in directory inode `parent`: `None` when
/// the parent inode names no path.
pub fn lookup_target(tracker: &InodeTracker, parent: u64, name: &str) -> (r: Option<String>)
    ensures
        r matches Some(p) ==> tracker@.path_of(parent) is Some && p@ == spec_push_path(
            tracker@.path_of(parent)->0,
            name@,
        ),
        r is None ==> tracker@.path_of(parent) is None,
{
    match tracker.get_path(parent) {
        Some(dir) => Some(push_path(dir.as_str(), name)),
        None => None,
    }
}

/// Answers a lookup of `path` from what reading its entry gave: a path that
/// exists gets an inode (a new one if it had none) and its attributes.
pub fn lookup_reply(
    tracker: &mut InodeTracker,
    path: &str,
    entry: Option<DirEntryInfo>,
    uid: u32,
    gid: u32,
) -> (r: Result<FileAttributes, FsError>)
    requires
        old(tracker)@.can_create(path@),
    ensures
        final(tracker)@.wf(),
        entry is None ==> final(tracker)@ == old(tracker)@ && r == Err::<FileAttributes, FsError>(
            FsError::NotFound,
        ),
        entry is Some ==> final(tracker)@ == old(tracker)@.create(path@).0 && r == spec_attr_reply(
            old(tracker)@.create(path@).1,
            entry,
            uid,
            gid,
        ),
{
    proof {
        use_type_invariant(&*tracker);
    }
    match entry {
        Some(e) => {
            let ino = tracker.get_or_create_inode(path);
            attr_reply(ino, Some(e), uid, gid)
        },
        None => Err(FsError::NotFound),
    }
}

/// The part of a file that a read asks for: where it starts and how many
/// bytes it spans.
#[derive(Clone, Copy, Debug, PartialEq, Eq, Structural)]
pub struct ReadWindow {
    pub start: u64,
    pub len: usize,
}

/// The bytes a read of `size` bytes at `offset` gets from a file of
/// `file_size` bytes: nothing from the end of the file on, else as many as
/// asked for that the file still holds.
pub open spec fn spec_read_window(offset: i64, size: u32, file_size: u32) -> Option<ReadWindow> {
    let start = offset as u64;
    if start >= file_size {
        None
    } else {
        Some(
            ReadWindow {
                start,
                len: (if size <= file_size - start {
                    size as int
                } else {
                    file_size - start
                }) as usize,
            },
        )
    }
}

/// The part of a file of `file_size` bytes that a read of `size` bytes at
/// `offset` covers; `None` when the read starts at or after the end.
pub fn read_window(offset: i64, size: u32, file_size: u32) -> (r: Option<ReadWindow>)
    ensures
        r == spec_read_window(offset, size, file_size),
        (offset as u64) >= file_size ==> r is None,
        (offset as u64) < file_size ==> (r matches Some(w) && w.start == offset as u64 && w.len
            <= size && w.start + w.len <= file_size && (w.len == size || w.start + w.len
            == file_size)),
{
    let start = offset as u64;
    if start >= file_size as u64 {
        return None;
    }
    let left = file_size as u64 - start;
    let len: u64 = if (size as u64) <= left {
        size as u64
    } else {
        left
    };
    Some(ReadWindow { start, len: len as usize })
}

/// Where a read loop stands.
#[derive(Clone, Copy, Debug, PartialEq, Eq, Structural)]
pub enum ReadProgress {
    /// This many bytes are in; read on.
    More(usize),
    /// This many bytes are in; answer with them.
    Done(usize),
    /// A read failed; answer with an I/O error.
    Failed,
}

/// How a read loop for `wanted` bytes starts: with nothing to read it is
/// already done.
pub fn read_start(wanted: usize) -> (r: ReadProgress)
    ensures
        r == (if wanted == 0 {
            ReadProgress::Done(0)
        } else {
            ReadProgress::More(0)
        }),
{
    if wanted == 0 {
        ReadProgress::Done(0)
    } else {
        ReadProgress::More(0)
    }
}

/// The next step of a read loop that has `total_read` of `wanted` bytes and
/// whose last read gave `outcome` (`None` for an error, else the number of
/// bytes it gave): an error fails the read, an empty read ends it early,
/// and the loop ends once every wanted byte is in.
pub fn read_progress(total_read: usize, wanted: usize, outcome: Option<usize>) -> (r: ReadProgress)
    requires
        total_read < wanted,
        outcome matches Some(n) ==> n <= wanted - total_read,
    ensures
        outcome is None ==> r == ReadProgress::Failed,
        outcome == Some(0usize) ==> r == ReadProgress::Done(total_read),
        outcome matches Some(n) ==> (n > 0 ==> r == (if total_read + n < wanted {
            ReadProgress::More((total_read + n) as usize)
        } else {
            ReadProgress::Done((total_read + n) as usize)
        })),
{
    match outcome {
        None => ReadProgress::Failed,
        Some(n) => {
            if n == 0 {
                ReadProgress::Done(total_read)
            } else if total_read + n < wanted {
                ReadProgress::More(total_read + n)
            } else {
                ReadProgress::Done(total_read + n)
            }
        },
    }
}

/// One line of a directory listing.
#[derive(Clone, Debug)]
pub struct DirListing {
    pub ino: u64,
    pub kind: NodeKind,
    pub name: String,
}

/// The value of a listing line.
pub struct DirListingView {
    pub ino: u64,
    pub kind: NodeKind,
    pub name: Seq<char>,
}

impl View for DirListing {
    type V = DirListingView;

    open spec fn view(&self) -> DirListingView {
        DirListingView { ino: self.ino, kind: self.kind, name: self.name@ }
    }
}

pub open spec fn listing_views(v: Seq<DirListing>) -> Seq<DirListingView> {
    v.map_values(|d: DirListing| d@)
}

/// Whether a directory entry is shown in listings: files and directories
/// are, anything else is not.
pub open spec fn is_listed(e: DirEntryInfo) -> bool {
    e.is_file || e.is_directory
}

/// The kind shown for a listed entry.
pub open spec fn listed_kind(e: DirEntryInfo) -> NodeKind {
    if e.is_file {
        NodeKind::RegularFile
    } else {
        NodeKind::Directory
    }
}

/// The listing lines for the entries `children` of directory `dir`, in
/// order, and the inode table after each listed child got its inode.
pub open spec fn spec_child_listing(t: InodeTable, dir: Seq<char>, children: Seq<DirEntryInfo>) -> (
    InodeTable,
    Seq<DirListingView>,
)
    decreases children.len(),
{
    if children.len() == 0 {
        (t, seq![])
    } else {
        let (t1, lines) = spec_child_listing(t, dir, children.drop_last());
        let c = children.last();
        if is_listed(c) {
            let (t2, ino) = t1.create(spec_push_path(dir, c.name@));
            (t2, lines.push(DirListingView { ino, kind: listed_kind(c), name: c.name@ }))
        } else {
            (t1, lines)
        }
    }
}

/// The full listing of directory inode `ino` at path `dir`, whose parent
/// path is `parent`: `.`, then `..` (the root is its own parent), then the
/// listed children; and the inode table once every path in it has an inode.
pub open spec fn spec_readdir_listing(
    t: InodeTable,
    ino: u64,
    dir: Seq<char>,
    parent: Seq<char>,
    children: Seq<DirEntryInfo>,
) -> (InodeTable, Seq<DirListingView>) {
    let dot = DirListingView { ino, kind: NodeKind::Directory, name: "."@ };
    let (t1, up) = if ino == root_inode() {
        (t, root_inode())
    } else {
        t.create(parent)
    };
    let dotdot = DirListingView { ino: up, kind: NodeKind::Directory, name: ".."@ };
    let (t2, rest) = spec_child_listing(t1, dir, children);
    (t2, seq![dot, dotdot] + rest)
}

/// The parent used for the `..` line of `dir`: its parent path, or `dir`
/// itself when it has none.
pub open spec fn spec_parent_or_self(dir: Seq<char>) -> Seq<char> {
    match std_path_parent(dir) {
        Some(p) => p,
        None => dir,
    }
}

proof fn lemma_child_listing_grows(t: InodeTable, dir: Seq<char>, children: Seq<DirEntryInfo>)
    requires
        t.wf(),
        t.next_inode + children.len() < u64::MAX,
    ensures
        spec_child_listing(t, dir, children).0.wf(),
        spec_child_listing(t, dir, children).0.next_inode <= t.next_inode + children.len(),
    decreases children.len(),
{
    if children.len() > 0 {
        lemma_child_listing_grows(t, dir, children.drop_last());
        let (t1, _) = spec_child_listing(t, dir, children.drop_last());
        let c = children.last();
        if is_listed(c) {
            lemma_create_then_path_of(t1, spec_push_path(dir, c.name@));
        }
    }
}

/// The listing of directory inode `ino` at path `dir`, with `parent` as the
/// path of its parent, for the directory entries `children`.
pub fn readdir_listing_with_parent(
    tracker: &mut InodeTracker,
    ino: u64,
    dir: &str,
    parent: &str,
    children: &Vec<DirEntryInfo>,
) -> (r: Vec<DirListing>)
    requires
        old(tracker)@.next_inode + children.len() + 1 < u64::MAX,
    ensures
        r.len() >= 2,
        r@[0].ino == ino && r@[0].kind == NodeKind::Directory && r@[0].name@ == seq!['.'],
        r@[1].kind == NodeKind::Directory && r@[1].name@ == seq!['.', '.'],
        ino == 1 ==> r@[1].ino == 1,
        ino != 1 ==> final(tracker)@.path_of(r@[1].ino) == Some(parent@),
        forall|k: int|
            #![trigger r@[k]]
            2 <= k < r.len() ==> final(tracker)@.path_of(r@[k].ino) == Some(
                spec_push_path(dir@, r@[k].name@),
            ),
        final(tracker)@.wf(),
        (final(tracker)@, listing_views(r@)) == spec_readdir_listing(
            old(tracker)@,
            ino,
            dir@,
            parent@,
            children@,
        ),
{
    proof {
        use_type_invariant(&*tracker);
    }
    let ghost t0 = tracker@;
    let up = if ino == 1 {
        1
    } else {
        proof {
            lemma_create_then_path_of(tracker@, parent@);
        }
        tracker.get_or_create_inode(parent)
    };
    let ghost t1 = tracker@;
    assert(t1.next_inode <= t0.next_inode + 1);
    let mut out: Vec<DirListing> = Vec::new();
    out.push(DirListing { ino, kind: NodeKind::Directory, name: ".".to_owned() });
    out.push(DirListing { ino: up, kind: NodeKind::Directory, name: "..".to_owned() });
    let ghost head = seq![
        DirListingView { ino, kind: NodeKind::Directory, name: "."@ },
        DirListingView { ino: up, kind: NodeKind::Directory, name: ".."@ },
    ];
    assert(listing_views(out@) =~= head + spec_child_listing(t1, dir@, children@.take(0)).1) by {
        assert(children@.take(0).len() == 0);
    }
    let mut i: usize = 0;
    while i < children.len()
        invariant
            i <= children.len(),
            t1.wf(),
            t1.next_inode + children.len() < u64::MAX,
            (tracker@, listing_views(out@).skip(2)) == spec_child_listing(
                t1,
                dir@,
                children@.take(i as int),
            ),
            listing_views(out@).take(2) == head,
            listing_views(out@).len() >= 2,
        decreases children.len() - i,
    {
        proof {
            lemma_child_listing_grows(t1, dir@, children@.take(i as int));
            assert(children@.take(i + 1).drop_last() =~= children@.take(i as int));
        }
        let c = &children[i];
        let ghost prev = listing_views(out@);
        if c.is_file || c.is_directory {
            let child_path = push_path(dir, c.name.as_str());
            proof {
                lemma_create_then_path_of(tracker@, child_path@);
            }
            let child_ino = tracker.get_or_create_inode(child_path.as_str());
            let kind = if c.is_file {
                NodeKind::RegularFile
            } else {
                NodeKind::Directory
            };
            out.push(DirListing { ino: child_ino, kind, name: c.name.clone() });
            assert(listing_views(out@) =~= prev.push(
                DirListingView { ino: child_ino, kind, name: c.name@ },
            ));
            assert(listing_views(out@).skip(2) =~= prev.skip(2).push(
                DirListingView { ino: child_ino, kind, name: c.name@ },
            ));
            assert(listing_views(out@).take(2) =~= prev.take(2));
        }
        i = i + 1;
    }
    proof {
        assert(children@.take(children.len() as int) =~= children@);
        lemma_child_listing_grows(t1, dir@, children@);
        assert(listing_views(out@) =~= head + listing_views(out@).skip(2));
        lemma_readdir_listing_shape(t0, ino, dir@, parent@, children@);
        let lines = listing_views(out@);
        assert forall|k: int| #![trigger out@[k]] 0 <= k < out.len() implies out@[k].ino == lines[k].ino
            && out@[k].kind == lines[k].kind && out@[k].name@ == lines[k].name by {}
        assert(out@[0].name@ == lines[0].name);
        assert(out@[1].name@ == lines[1].name);
    }
    out
}

/// The listing of directory inode `ino` at path `dir` for the directory
/// entries `children`; the `..` line goes to the parent that
/// `std::path::Path::parent` gives, or to `dir` itself at the top.
pub fn readdir_listing(
    tracker: &mut InodeTracker,
    ino: u64,
    dir: &str,
    children: &Vec<DirEntryInfo>,
) -> (r: Vec<DirListing>)
    requires
        old(tracker)@.next_inode + children.len() + 1 < u64::MAX,
    ensures
        r.len() >= 2,
        r@[0].ino == ino && r@[0].kind == NodeKind::Directory && r@[0].name@ == seq!['.'],
        r@[1].kind == NodeKind::Directory && r@[1].name@ == seq!['.', '.'],
        ino == 1 ==> r@[1].ino == 1,
        ino != 1 ==> final(tracker)@.path_of(r@[1].ino) == Some(spec_parent_or_self(dir@)),
        forall|k: int|
            #![trigger r@[k]]
            2 <= k < r.len() ==> final(tracker)@.path_of(r@[k].ino) == Some(
                spec_push_path(dir@, r@[k].name@),
            ),
        final(tracker)@.wf(),
        (final(tracker)@, listing_views(r@)) == spec_readdir_listing(
            old(tracker)@,
            ino,
            dir@,
            spec_parent_or_self(dir@),
            children@,
        ),
{
    if ino == 1 {
        readdir_listing_with_parent(tracker, ino, dir, dir, children)
    } else {
        let parent = match path_parent(dir) {
            Some(p) => p,
            None => dir.to_owned(),
        };
        readdir_listing_with_parent(tracker, ino, dir, parent.as_str(), children)
    }
}

/// A listing line handed to the kernel, with the offset at which the
/// listing goes on after it.
#[derive(Clone, Debug)]
pub struct ListedEntry {
    pub ino: u64,
    pub kind: NodeKind,
    pub name: String,
    pub next_offset: i64,
}

/// The index at which a listing of `len` lines resumes for the kernel's
/// `offset`: a negative offset, or one past the end, leaves nothing.
pub open spec fn spec_window_start(offset: i64, len: nat) -> int {
    if offset < 0 || offset >= len {
        len as int
    } else {
        offset as int
    }
}

/// The lines of `entries` from the kernel's `offset` on, each with the
/// offset that follows it (its index plus one).
pub fn readdir_window(entries: &Vec<DirListing>, offset: i64) -> (r: Vec<ListedEntry>)
    requires
        entries.len() < i64::MAX,
    ensures
        r.len() == entries.len() - spec_window_start(offset, entries.len() as nat),
        forall|k: int|
            #![trigger r@[k]]
            0 <= k < r.len() ==> {
                let j = spec_window_start(offset, entries.len() as nat) + k;
                &&& r@[k].ino == entries@[j].ino
                &&& r@[k].kind == entries@[j].kind
                &&& r@[k].name@ == entries@[j].name@
                &&& r@[k].next_offset == j + 1
            },
{
    let len = entries.len();
    let start: usize = if offset < 0 || offset as u64 >= len as u64 {
        len
    } else {
        offset as usize
    };
    let mut r: Vec<ListedEntry> = Vec::new();
    let mut j: usize = start;
    while j < len
        invariant
            start <= j <= len,
            len == entries.len(),
            len < i64::MAX,
            start == spec_window_start(offset, len as nat),
            r.len() == j - start,
            forall|k: int|
                #![trigger r@[k]]
                0 <= k < r.len() ==> {
                    let jj = start + k;
                    &&& r@[k].ino == entries@[jj].ino
                    &&& r@[k].kind == entries@[jj].kind
                    &&& r@[k].name@ == entries@[jj].name@
                    &&& r@[k].next_offset == jj + 1
                },
        decreases len - j,
    {
        let e = &entries[j];
        r.push(
            ListedEntry {
                ino: e.ino,
                kind: e.kind,
                name: e.name.clone(),
                next_offset: (j + 1) as i64,
            },
        );
        j = j + 1;
    }
    r
}

} // verus!

verus! {

/// A read never goes past the end of the file nor past the size asked for.
pub proof fn lemma_read_window_within_file(offset: i64, size: u32, file_size: u32)
    ensures
        spec_read_window(offset, size, file_size) matches Some(w) ==> w.start + w.len <= file_size
            && w.len <= size && w.start == offset as u64,
{
}

/// The attributes of an entry: its inode, owner and timestamps (access time
/// from the accessed stamp, modification and change times from the modified
/// stamp, creation time from the created stamp); directories with mode 755,
/// two links and no size; files with mode 644, one link, their size and just
/// enough 512-byte blocks to hold it; anything else has none.
pub proof fn lemma_dirent_attr_fields(ino: u64, e: DirEntryInfo, uid: u32, gid: u32)
    ensures
        (e.is_directory || e.is_file) <==> spec_dirent_attr(ino, e, uid, gid) is Some,
        spec_dirent_attr(ino, e, uid, gid) matches Some(a) ==> (a.ino == ino && a.uid == uid && a.gid == gid && a.atime
            == spec_fatx_datetime(e.accessed) && a.mtime == spec_fatx_datetime(e.modified) && a.ctime
            == spec_fatx_datetime(e.modified) && a.crtime == spec_fatx_datetime(e.created) && a.rdev
            == 0 && a.flags == 0 && a.blksize == 4096),
        e.is_directory ==> (spec_dirent_attr(ino, e, uid, gid) matches Some(a) && a.kind == NodeKind::Directory && a.size == 0
            && a.blocks == 0 && a.perm == 0o755 && a.nlink == 2),
        !e.is_directory && e.is_file ==> (spec_dirent_attr(ino, e, uid, gid) matches Some(a) && a.kind == NodeKind::RegularFile
            && a.size == e.file_size && a.blocks * 512 >= e.file_size && a.blocks * 512 < e.file_size
            + 512 && a.perm == 0o644 && a.nlink == 1),
{
}

/// A read that starts before the end of the file gets every byte asked for
/// that the file holds: the smaller of the size asked for and what is left
/// from the offset; a read from the end of the file on gets nothing.
pub proof fn lemma_read_window_is_min(offset: i64, size: u32, file_size: u32)
    ensures
        (offset as u64) >= file_size ==> spec_read_window(offset, size, file_size) is None,
        (offset as u64) < file_size ==> (spec_read_window(offset, size, file_size) matches Some(w)
            && w.start == offset as u64 && w.len as int == (if (size as int) <= file_size - (
        offset as u64) {
            size as int
        } else {
            file_size - (offset as u64)
        })),
{
}

/// The offset handed out with line `j` of a listing resumes the listing at
/// the line after it.
pub proof fn lemma_readdir_offset_resumes(len: nat, j: int)
    requires
        0 <= j < len,
        len < i64::MAX,
    ensures
        spec_window_start((j + 1) as i64, len) == j + 1,
{
}

/// Every child line of a listing names an inode that, in the table after
/// the listing, leads back to the child's full path.
pub proof fn lemma_listing_inodes_resolve(
    t: InodeTable,
    dir: Seq<char>,
    children: Seq<DirEntryInfo>,
    k: int,
)
    requires
        t.wf(),
        t.next_inode + children.len() < u64::MAX,
        0 <= k < spec_child_listing(t, dir, children).1.len(),
    ensures
        spec_child_listing(t, dir, children).0.path_of(spec_child_listing(t, dir, children).1[k].ino)
            == Some(spec_push_path(dir, spec_child_listing(t, dir, children).1[k].name)),
    decreases children.len(),
{
    let (t1, l1) = spec_child_listing(t, dir, children.drop_last());
    lemma_child_listing_grows(t, dir, children.drop_last());
    let c = children.last();
    if is_listed(c) {
        let p = spec_push_path(dir, c.name@);
        lemma_create_then_path_of(t1, p);
        if k < l1.len() {
            lemma_listing_inodes_resolve(t, dir, children.drop_last(), k);
            crate::inode::lemma_create_keeps_existing(t1, p, l1[k].ino);
        }
    } else {
        lemma_listing_inodes_resolve(t, dir, children.drop_last(), k);
    }
}

/// Looking up a name that a listing showed gives the inode the listing
/// showed for it, and leaves the table unchanged.
pub proof fn lemma_lookup_matches_listing(
    t: InodeTable,
    dir: Seq<char>,
    children: Seq<DirEntryInfo>,
    k: int,
)
    requires
        t.wf(),
        t.next_inode + children.len() < u64::MAX,
        0 <= k < spec_child_listing(t, dir, children).1.len(),
    ensures
        ({
            let (t2, lines) = spec_child_listing(t, dir, children);
            t2.create(spec_push_path(dir, lines[k].name)) == (t2, lines[k].ino)
        }),
{
    let (t2, lines) = spec_child_listing(t, dir, children);
    lemma_listing_inodes_resolve(t, dir, children, k);
    lemma_child_listing_grows(t, dir, children);
    crate::inode::lemma_inode_of_names_path(t2, spec_push_path(dir, lines[k].name), lines[k].ino);
}

} // verus!

verus! {

/// A listing never changes which path an existing inode names.
pub proof fn lemma_child_listing_keeps_existing(
    t: InodeTable,
    dir: Seq<char>,
    children: Seq<DirEntryInfo>,
    ino: u64,
)
    requires
        t.wf(),
        t.next_inode + children.len() < u64::MAX,
        t.path_of(ino) is Some,
    ensures
        spec_child_listing(t, dir, children).0.path_of(ino) == t.path_of(ino),
    decreases children.len(),
{
    if children.len() > 0 {
        lemma_child_listing_keeps_existing(t, dir, children.drop_last(), ino);
        lemma_child_listing_grows(t, dir, children.drop_last());
        let (t1, _) = spec_child_listing(t, dir, children.drop_last());
        let c = children.last();
        if is_listed(c) {
            let p = spec_push_path(dir, c.name@);
            lemma_create_then_path_of(t1, p);
            crate::inode::lemma_create_keeps_existing(t1, p, ino);
        }
    }
}

/// Listing again in a table where every listed path already has the inode
/// the listing showed gives the same lines and changes nothing.
proof fn lemma_listing_stable_in(
    u: InodeTable,
    t: InodeTable,
    dir: Seq<char>,
    children: Seq<DirEntryInfo>,
)
    requires
        t.wf(),
        t.next_inode + children.len() < u64::MAX,
        u.wf(),
        forall|k: int|
            0 <= k < spec_child_listing(t, dir, children).1.len() ==> u.inode_of(
                spec_push_path(dir, #[trigger] spec_child_listing(t, dir, children).1[k].name),
            ) == Some(spec_child_listing(t, dir, children).1[k].ino),
    ensures
        spec_child_listing(u, dir, children) == (u, spec_child_listing(t, dir, children).1),
    decreases children.len(),
{
    if children.len() > 0 {
        let (t1, l1) = spec_child_listing(t, dir, children.drop_last());
        let l = spec_child_listing(t, dir, children).1;
        assert forall|k: int| 0 <= k < l1.len() implies u.inode_of(
            spec_push_path(dir, #[trigger] l1[k].name),
        ) == Some(l1[k].ino) by {
            assert(l[k] == l1[k]);
        }
        lemma_child_listing_grows(t, dir, children.drop_last());
        lemma_listing_stable_in(u, t, dir, children.drop_last());
        let c = children.last();
        if is_listed(c) {
            assert(l[l1.len() as int].name == c.name@);
        }
    }
}

/// Listing the same directory a second time, with the same entries, gives
/// the same child lines and gives out no new inode.
pub proof fn lemma_child_listing_repeats(t: InodeTable, dir: Seq<char>, children: Seq<DirEntryInfo>)
    requires
        t.wf(),
        t.next_inode + children.len() < u64::MAX,
    ensures
        ({
            let (t2, lines) = spec_child_listing(t, dir, children);
            spec_child_listing(t2, dir, children) == (t2, lines)
        }),
{
    let (t2, lines) = spec_child_listing(t, dir, children);
    lemma_child_listing_grows(t, dir, children);
    assert forall|k: int| 0 <= k < lines.len() implies t2.inode_of(
        spec_push_path(dir, #[trigger] lines[k].name),
    ) == Some(lines[k].ino) by {
        lemma_lookup_matches_listing(t, dir, children, k);
    }
    lemma_listing_stable_in(t2, t, dir, children);
}

/// A full directory listing repeated with the same entries gives the same
/// lines and leaves the inode table as the first one left it.
pub proof fn lemma_readdir_listing_repeats(
    t: InodeTable,
    ino: u64,
    dir: Seq<char>,
    parent: Seq<char>,
    children: Seq<DirEntryInfo>,
)
    requires
        t.wf(),
        t.next_inode + children.len() + 1 < u64::MAX,
    ensures
        ({
            let (t2, lines) = spec_readdir_listing(t, ino, dir, parent, children);
            spec_readdir_listing(t2, ino, dir, parent, children) == (t2, lines)
        }),
{
    let (t2, lines) = spec_readdir_listing(t, ino, dir, parent, children);
    let (t1, up) = if ino == root_inode() {
        (t, root_inode())
    } else {
        t.create(parent)
    };
    if ino != root_inode() {
        lemma_create_then_path_of(t, parent);
        lemma_child_listing_grows(t1, dir, children);
        lemma_child_listing_keeps_existing(t1, dir, children, up);
        crate::inode::lemma_inode_of_names_path(t2, parent, up);
    }
    lemma_child_listing_grows(t1, dir, children);
    let (t3, rest) = spec_child_listing(t1, dir, children);
    assert(t3 == t2);
    assert forall|k: int| 0 <= k < rest.len() implies t2.inode_of(
        spec_push_path(dir, #[trigger] rest[k].name),
    ) == Some(rest[k].ino) by {
        lemma_lookup_matches_listing(t1, dir, children, k);
    }
    lemma_listing_stable_in(t2, t1, dir, children);
}

/// Two child lines of a listing carry the same inode exactly when they
/// stand for the same full path.
pub proof fn lemma_listing_inodes_distinct(
    t: InodeTable,
    dir: Seq<char>,
    children: Seq<DirEntryInfo>,
    j: int,
    k: int,
)
    requires
        t.wf(),
        t.next_inode + children.len() < u64::MAX,
        0 <= j < spec_child_listing(t, dir, children).1.len(),
        0 <= k < spec_child_listing(t, dir, children).1.len(),
    ensures
        ({
            let lines = spec_child_listing(t, dir, children).1;
            lines[j].ino == lines[k].ino <==> spec_push_path(dir, lines[j].name) == spec_push_path(
                dir,
                lines[k].name,
            )
        }),
{
    let (t2, lines) = spec_child_listing(t, dir, children);
    lemma_lookup_matches_listing(t, dir, children, j);
    lemma_lookup_matches_listing(t, dir, children, k);
    lemma_listing_inodes_resolve(t, dir, children, j);
    lemma_listing_inodes_resolve(t, dir, children, k);
}

/// A child whose path was looked up before the listing is listed with the
/// inode that lookup gave it.
pub proof fn lemma_listing_agrees_with_earlier_lookup(
    t: InodeTable,
    dir: Seq<char>,
    children: Seq<DirEntryInfo>,
    k: int,
    ino: u64,
)
    requires
        t.wf(),
        t.next_inode + children.len() < u64::MAX,
        0 <= k < spec_child_listing(t, dir, children).1.len(),
        t.inode_of(spec_push_path(dir, spec_child_listing(t, dir, children).1[k].name)) == Some(ino),
    ensures
        spec_child_listing(t, dir, children).1[k].ino == ino,
{
    let (t2, lines) = spec_child_listing(t, dir, children);
    let p = spec_push_path(dir, lines[k].name);
    let w = choose|i: u64| #[trigger] t.paths.dom().contains(i) && t.paths[i] == p;
    assert(t.paths.dom().contains(w) && t.paths[w] == p);
    lemma_child_listing_keeps_existing(t, dir, children, ino);
    lemma_child_listing_grows(t, dir, children);
    crate::inode::lemma_inode_of_names_path(t2, p, ino);
    lemma_lookup_matches_listing(t, dir, children, k);
}

} // verus!

verus! {

/// Every directory listing starts with `.` (the directory itself) and `..`
/// (its parent: inode 1 for the root, else the inode of the parent path);
/// every later line names an inode that leads to the directory's path with
/// the line's name pushed onto it.
pub proof fn lemma_readdir_listing_shape(
    t: InodeTable,
    ino: u64,
    dir: Seq<char>,
    parent: Seq<char>,
    children: Seq<DirEntryInfo>,
)
    requires
        t.wf(),
        t.next_inode + children.len() + 1 < u64::MAX,
    ensures
        ({
            let (t2, lines) = spec_readdir_listing(t, ino, dir, parent, children);
            &&& lines.len() >= 2
            &&& lines[0].ino == ino && lines[0].kind == NodeKind::Directory && lines[0].name == seq!['.']
            &&& lines[1].kind == NodeKind::Directory && lines[1].name == seq!['.', '.']
            &&& ino == 1 ==> lines[1].ino == 1
            &&& ino != 1 ==> t2.path_of(lines[1].ino) == Some(parent)
            &&& forall|k: int|
                #![trigger lines[k]]
                2 <= k < lines.len() ==> t2.path_of(lines[k].ino) == Some(
                    spec_push_path(dir, lines[k].name),
                )
        }),
{
    reveal_strlit(".");
    reveal_strlit("..");
    assert("."@ =~= seq!['.']);
    assert(".."@ =~= seq!['.', '.']);
    let (t2, lines) = spec_readdir_listing(t, ino, dir, parent, children);
    let (t1, up) = if ino == root_inode() {
        (t, root_inode())
    } else {
        t.create(parent)
    };
    if ino != root_inode() {
        lemma_create_then_path_of(t, parent);
    }
    lemma_child_listing_grows(t1, dir, children);
    if ino != root_inode() {
        lemma_child_listing_keeps_existing(t1, dir, children, up);
    }
    let rest = spec_child_listing(t1, dir, children).1;
    assert forall|k: int| #![trigger lines[k]] 2 <= k < lines.len() implies t2.path_of(lines[k].ino)
        == Some(spec_push_path(dir, lines[k].name)) by {
        assert(lines[k] == rest[k - 2]);
        lemma_listing_inodes_resolve(t1, dir, children, k - 2);
    }
}

} // verus!
