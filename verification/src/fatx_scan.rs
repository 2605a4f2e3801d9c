use vstd::prelude::*;

use crate::dirent::DirEntryInfo;
use crate::paths::{
    join_remote_path, spec_join_remote, spec_trim_leading_slashes, string_views, trim_leading_slashes,
};

verus! {

/// A file found on the FATX volume: its full remote path and its size.
#[derive(Clone, Debug)]
pub struct ScannedFile {
    pub remote_path: String,
    pub size: u32,
}

/// The value of a found file.
pub struct ScannedFileView {
    pub remote_path: Seq<char>,
    pub size: u32,
}

impl View for ScannedFile {
    type V = ScannedFileView;

    open spec fn view(&self) -> ScannedFileView {
        ScannedFileView { remote_path: self.remote_path@, size: self.size }
    }
}

/// The state of a walk over the directories of a FATX volume: the
/// directories still to read (the last one is read next) and the files
/// found so far, in the order they were found.
pub struct ScanView {
    pub pending: Seq<Seq<char>>,
    pub files: Seq<ScannedFileView>,
}

/// The subdirectories among `entries` of directory `dir`, as full remote
/// paths, in order.
pub open spec fn spec_subdirs(dir: Seq<char>, entries: Seq<DirEntryInfo>) -> Seq<Seq<char>>
    decreases entries.len(),
{
    if entries.len() == 0 {
        seq![]
    } else {
        let rest = spec_subdirs(dir, entries.drop_last());
        let e = entries.last();
        if e.is_directory {
            rest.push(spec_join_remote(dir, e.name@))
        } else {
            rest
        }
    }
}

/// The files among `entries` of directory `dir` (entries that are not
/// directories but files), with their full remote paths and sizes, in order.
pub open spec fn spec_files(dir: Seq<char>, entries: Seq<DirEntryInfo>) -> Seq<ScannedFileView>
    decreases entries.len(),
{
    if entries.len() == 0 {
        seq![]
    } else {
        let rest = spec_files(dir, entries.drop_last());
        let e = entries.last();
        if !e.is_directory && e.is_file {
            rest.push(ScannedFileView { remote_path: spec_join_remote(dir, e.name@), size: e.file_size })
        } else {
            rest
        }
    }
}

pub open spec fn file_views(v: Seq<ScannedFile>) -> Seq<ScannedFileView> {
    v.map_values(|f: ScannedFile| f@)
}

/// A walk over the directories of a FATX volume that collects every file
/// below a starting directory.
pub struct FatxScan {
    pending: Vec<String>,
    files: Vec<ScannedFile>,
}

impl View for FatxScan {
    type V = ScanView;

    closed spec fn view(&self) -> ScanView {
        ScanView { pending: string_views(self.pending@), files: file_views(self.files@) }
    }
}

impl FatxScan {
    /// A walk that starts at `root` with no file found yet.
    pub fn new(root: &str) -> (r: Self)
        ensures
            r@.pending == seq![root@],
            r@.files == Seq::<ScannedFileView>::empty(),
    {
        let mut pending: Vec<String> = Vec::new();
        pending.push(root.to_owned());
        let r = FatxScan { pending, files: Vec::new() };
        assert(r@.pending =~= seq![root@]);
        assert(r@.files =~= Seq::<ScannedFileView>::empty());
        r
    }

    /// The next directory to read, taken off the pending list (the one added
    /// last); `None` once every directory has been read.
    pub fn next_dir(&mut self) -> (r: Option<String>)
        ensures
            old(self)@.pending.len() == 0 ==> r is None && final(self)@ == old(self)@,
            old(self)@.pending.len() > 0 ==> (r matches Some(d) && d@ == old(self)@.pending.last()),
            old(self)@.pending.len() > 0 ==> final(self)@.pending == old(self)@.pending.drop_last(),
            final(self)@.files == old(self)@.files,
    {
        let r = self.pending.pop();
        proof {
            if old(self)@.pending.len() > 0 {
                assert(string_views(self.pending@) =~= old(self)@.pending.drop_last());
            } else {
                assert(string_views(self.pending@) =~= old(self)@.pending);
            }
        }
        r
    }

    /// Takes in the entries read from directory `dir`: its subdirectories
    /// join the pending list and its files join the found files, both in
    /// the order they were read.
    pub fn absorb(&mut self, dir: &str, entries: &Vec<DirEntryInfo>)
        ensures
            final(self)@.pending == old(self)@.pending + spec_subdirs(dir@, entries@),
            final(self)@.files == old(self)@.files + spec_files(dir@, entries@),
    {
        let mut i: usize = 0;
        assert(entries@.take(0) =~= Seq::<DirEntryInfo>::empty());
        assert(self@.pending =~= old(self)@.pending + spec_subdirs(dir@, entries@.take(0)));
        assert(self@.files =~= old(self)@.files + spec_files(dir@, entries@.take(0)));
        while i < entries.len()
            invariant
                i <= entries.len(),
                self@.pending == old(self)@.pending + spec_subdirs(dir@, entries@.take(i as int)),
                self@.files == old(self)@.files + spec_files(dir@, entries@.take(i as int)),
            decreases entries.len() - i,
        {
            assert(entries@.take(i + 1).drop_last() =~= entries@.take(i as int));
            let ghost before = self@;
            let e = &entries[i];
            let full = join_remote_path(dir, e.name.as_str());
            if e.is_directory {
                self.pending.push(full);
                assert(self@.pending =~= before.pending.push(full@));
                assert(self@.files =~= before.files);
            } else if e.is_file {
                self.files.push(ScannedFile { remote_path: full, size: e.file_size });
                assert(self@.files =~= before.files.push(
                    ScannedFileView { remote_path: full@, size: e.file_size },
                ));
                assert(self@.pending =~= before.pending);
            }
            i = i + 1;
        }
        assert(entries@.take(entries.len() as int) =~= entries@);
    }

    /// The files found, in the order they were found.
    pub fn into_files(self) -> (r: Vec<ScannedFile>)
        ensures
            file_views(r@) == self@.files,
    {
        self.files
    }
}

/// One file to copy off the volume: where it is, where it goes below the
/// destination folder (its path without leading slashes), and its size.
#[derive(Clone, Debug)]
pub struct ExtractStep {
    pub remote_path: String,
    pub relative_path: String,
    pub size: u32,
}

/// The copy steps for the files found, one per file, in the same order.
pub fn plan_extraction(files: &Vec<ScannedFile>) -> (r: Vec<ExtractStep>)
    ensures
        r.len() == files.len(),
        forall|k: int|
            #![trigger r@[k]]
            0 <= k < r.len() ==> {
                &&& r@[k].remote_path@ == files@[k].remote_path@
                &&& r@[k].relative_path@ == spec_trim_leading_slashes(files@[k].remote_path@)
                &&& r@[k].size == files@[k].size
            },
{
    let mut r: Vec<ExtractStep> = Vec::new();
    let mut i: usize = 0;
    while i < files.len()
        invariant
            i <= files.len(),
            r.len() == i,
            forall|k: int|
                #![trigger r@[k]]
                0 <= k < r.len() ==> {
                    &&& r@[k].remote_path@ == files@[k].remote_path@
                    &&& r@[k].relative_path@ == spec_trim_leading_slashes(files@[k].remote_path@)
                    &&& r@[k].size == files@[k].size
                },
        decreases files.len() - i,
    {
        let f = &files[i];
        let relative = trim_leading_slashes(f.remote_path.as_str());
        r.push(ExtractStep { remote_path: f.remote_path.clone(), relative_path: relative, size: f.size });
        i = i + 1;
    }
    r
}

} // verus!

verus! {

/// One step of the walk over a volume whose directory `d` reads as
/// `vol(d)`: the pending directory added last is read, its subdirectories
/// join the pending list and its files join the found files. The second
/// part is the list of directories read so far.
pub open spec fn walk(
    root: Seq<char>,
    vol: spec_fn(Seq<char>) -> Seq<DirEntryInfo>,
    steps: nat,
) -> (ScanView, Seq<Seq<char>>)
    decreases steps,
{
    if steps == 0 {
        (ScanView { pending: seq![root], files: seq![] }, seq![])
    } else {
        let (s, visited) = walk(root, vol, (steps - 1) as nat);
        if s.pending.len() == 0 {
            (s, visited)
        } else {
            let d = s.pending.last();
            (
                ScanView {
                    pending: s.pending.drop_last() + spec_subdirs(d, vol(d)),
                    files: s.files + spec_files(d, vol(d)),
                },
                visited.push(d),
            )
        }
    }
}

/// Directory `d` can be reached from `root` in `n` steps down through
/// subdirectories.
pub open spec fn reachable(
    root: Seq<char>,
    vol: spec_fn(Seq<char>) -> Seq<DirEntryInfo>,
    d: Seq<char>,
    n: nat,
) -> bool
    decreases n,
{
    if n == 0 {
        d == root
    } else {
        exists|p: Seq<char>|
            reachable(root, vol, p, (n - 1) as nat) && #[trigger] spec_subdirs(p, vol(p)).contains(
                d,
            )
    }
}

spec fn walk_inv(
    root: Seq<char>,
    vol: spec_fn(Seq<char>) -> Seq<DirEntryInfo>,
    s: ScanView,
    visited: Seq<Seq<char>>,
) -> bool {
    &&& (visited.contains(root) || s.pending.contains(root))
    &&& forall|v: Seq<char>, sd: Seq<char>|
        visited.contains(v) && #[trigger] spec_subdirs(v, vol(v)).contains(sd) ==> visited.contains(
            sd,
        ) || s.pending.contains(sd)
    &&& forall|v: Seq<char>, f: ScannedFileView|
        visited.contains(v) && #[trigger] spec_files(v, vol(v)).contains(f) ==> s.files.contains(f)
}

proof fn lemma_contains_drop_last<A>(s: Seq<A>, x: A)
    requires
        s.contains(x),
        s.len() > 0,
        x != s.last(),
    ensures
        s.drop_last().contains(x),
{
    let i = choose|i: int| 0 <= i < s.len() && s[i] == x;
    assert(s.drop_last()[i] == x);
}

proof fn lemma_contains_concat<A>(a: Seq<A>, b: Seq<A>, x: A)
    ensures
        a.contains(x) ==> (a + b).contains(x),
        b.contains(x) ==> (a + b).contains(x),
{
    if a.contains(x) {
        let i = choose|i: int| 0 <= i < a.len() && a[i] == x;
        assert((a + b)[i] == x);
    }
    if b.contains(x) {
        let i = choose|i: int| 0 <= i < b.len() && b[i] == x;
        assert((a + b)[a.len() + i] == x);
    }
}

proof fn lemma_walk_inv(root: Seq<char>, vol: spec_fn(Seq<char>) -> Seq<DirEntryInfo>, steps: nat)
    ensures
        walk_inv(root, vol, walk(root, vol, steps).0, walk(root, vol, steps).1),
    decreases steps,
{
    broadcast use vstd::seq_lib::lemma_seq_contains_after_push;

    if steps == 0 {
        assert(seq![root][0] == root);
    } else {
        lemma_walk_inv(root, vol, (steps - 1) as nat);
        let (s, visited) = walk(root, vol, (steps - 1) as nat);
        if s.pending.len() > 0 {
            let d = s.pending.last();
            let (s2, visited2) = walk(root, vol, steps);
            assert(visited2 == visited.push(d));
            if !visited.contains(root) {
                if root != d {
                    lemma_contains_drop_last(s.pending, root);
                    lemma_contains_concat(s.pending.drop_last(), spec_subdirs(d, vol(d)), root);
                }
            }
            assert forall|v: Seq<char>, sd: Seq<char>|
                visited2.contains(v) && #[trigger] spec_subdirs(v, vol(v)).contains(
                    sd,
                ) implies visited2.contains(sd) || s2.pending.contains(sd) by {
                if v == d {
                    lemma_contains_concat(s.pending.drop_last(), spec_subdirs(d, vol(d)), sd);
                } else {
                    assert(visited.contains(v));
                    if !visited.contains(sd) && sd != d {
                        lemma_contains_drop_last(s.pending, sd);
                        lemma_contains_concat(s.pending.drop_last(), spec_subdirs(d, vol(d)), sd);
                    }
                }
            }
            assert forall|v: Seq<char>, f: ScannedFileView|
                visited2.contains(v) && #[trigger] spec_files(v, vol(v)).contains(
                    f,
                ) implies s2.files.contains(f) by {
                if v == d {
                    lemma_contains_concat(s.files, spec_files(d, vol(d)), f);
                } else {
                    assert(visited.contains(v));
                    lemma_contains_concat(s.files, spec_files(d, vol(d)), f);
                }
            }
        }
    }
}

proof fn lemma_reachable_visited(
    root: Seq<char>,
    vol: spec_fn(Seq<char>) -> Seq<DirEntryInfo>,
    steps: nat,
    d: Seq<char>,
    n: nat,
)
    requires
        walk(root, vol, steps).0.pending.len() == 0,
        reachable(root, vol, d, n),
    ensures
        walk(root, vol, steps).1.contains(d),
    decreases n,
{
    lemma_walk_inv(root, vol, steps);
    let (s, visited) = walk(root, vol, steps);
    if n > 0 {
        let p = choose|p: Seq<char>|
            reachable(root, vol, p, (n - 1) as nat) && #[trigger] spec_subdirs(p, vol(p)).contains(d);
        lemma_reachable_visited(root, vol, steps, p, (n - 1) as nat);
    }
}

/// A walk that has run until no directory is pending has found every file of
/// every directory reachable from where it started.
pub proof fn lemma_finished_walk_finds_every_file(
    root: Seq<char>,
    vol: spec_fn(Seq<char>) -> Seq<DirEntryInfo>,
    steps: nat,
    d: Seq<char>,
    n: nat,
    f: ScannedFileView,
)
    requires
        walk(root, vol, steps).0.pending.len() == 0,
        reachable(root, vol, d, n),
        spec_files(d, vol(d)).contains(f),
    ensures
        walk(root, vol, steps).0.files.contains(f),
{
    lemma_reachable_visited(root, vol, steps, d, n);
    lemma_walk_inv(root, vol, steps);
}

/// One walk step is what `next_dir` followed by `absorb` of the directory's
/// entries does to a scan.
pub proof fn lemma_walk_step_matches_scan(
    root: Seq<char>,
    vol: spec_fn(Seq<char>) -> Seq<DirEntryInfo>,
    steps: nat,
)
    requires
        walk(root, vol, steps).0.pending.len() > 0,
    ensures
        ({
            let s = walk(root, vol, steps).0;
            let d = s.pending.last();
            walk(root, vol, steps + 1).0 == ScanView {
                pending: s.pending.drop_last() + spec_subdirs(d, vol(d)),
                files: s.files + spec_files(d, vol(d)),
            }
        }),
{
}

} // verus!
