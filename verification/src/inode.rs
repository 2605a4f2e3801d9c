use vstd::prelude::*;

use bimap::BiHashMap;

verus! {

#[verifier::external_type_specification]
#[verifier::external_body]
#[verifier::reject_recursive_types(L)]
#[verifier::reject_recursive_types(R)]
#[verifier::reject_recursive_types(LS)]
#[verifier::reject_recursive_types(RS)]
pub struct ExBiHashMap<L, R, LS, RS>(BiHashMap<L, R, LS, RS>);

/// The left-to-right pairs that a `BiHashMap` of inodes and paths holds.
pub uninterp spec fn bimap_pairs(m: BiHashMap<u64, String>) -> Map<u64, Seq<char>>;

/// The pairs of a bimap after `(left, right)` is inserted: every pair that
/// shared its left or its right value with the new pair is gone.
pub open spec fn pairs_after_insert(
    pairs: Map<u64, Seq<char>>,
    left: u64,
    right: Seq<char>,
) -> Map<u64, Seq<char>> {
    Map::new(
        |k: u64| k == left || (pairs.dom().contains(k) && pairs[k] != right),
        |k: u64|
            if k == left {
                right
            } else {
                pairs[k]
            },
    )
}

/// `bimap::BiHashMap::new`: the new map holds no pair.
#[verifier::external_body]
fn bimap_new() -> (r: BiHashMap<u64, String>)
    ensures
        bimap_pairs(r).dom().is_empty(),
{
    BiHashMap::new()
}

/// `bimap::BiHashMap::insert`: the pair is added, and the pairs that had the
/// same left value or the same right value are removed (what `insert`
/// returns about them is dropped).
#[verifier::external_body]
fn bimap_insert(m: &mut BiHashMap<u64, String>, left: u64, right: String)
    ensures
        bimap_pairs(*final(m)) == pairs_after_insert(bimap_pairs(*old(m)), left, right@),
{
    m.insert(left, right);
}

/// `bimap::BiHashMap::get_by_right`: the left value paired with `right`, if
/// there is one.
#[verifier::external_body]
fn bimap_get_by_right(m: &BiHashMap<u64, String>, right: &str) -> (r: Option<u64>)
    ensures
        r matches Some(l) ==> bimap_pairs(*m).dom().contains(l) && bimap_pairs(*m)[l] == right@,
        r is None ==> forall|l: u64| #[trigger]
            bimap_pairs(*m).dom().contains(l) ==> bimap_pairs(*m)[l] != right@,
{
    m.get_by_right(right).copied()
}

/// `bimap::BiHashMap::get_by_left`: a copy of the right value paired with
/// `left`, if there is one.
#[verifier::external_body]
fn bimap_get_by_left(m: &BiHashMap<u64, String>, left: u64) -> (r: Option<String>)
    ensures
        r matches Some(s) ==> bimap_pairs(*m).dom().contains(left) && bimap_pairs(*m)[left] == s@,
        r is None ==> !bimap_pairs(*m).dom().contains(left),
{
    m.get_by_left(&left).cloned()
}

/// The abstract state of an [`InodeTracker`]: which path each inode names,
/// and the inode that the next new path will get.
pub struct InodeTable {
    pub paths: Map<u64, Seq<char>>,
    pub next_inode: u64,
}

/// The inode of the file system's root directory.
pub open spec fn root_inode() -> u64 {
    1
}

/// The path of the file system's root directory, `/`.
pub open spec fn root_path() -> Seq<char> {
    seq!['/']
}

impl InodeTable {
    /// The table a new tracker starts with: only the root is known.
    pub open spec fn initial() -> InodeTable {
        InodeTable { paths: Map::empty().insert(root_inode(), root_path()), next_inode: 2 }
    }

    /// Every inode names one path, no path has two inodes, the root keeps
    /// inode 1, and every inode handed out is below `next_inode`.
    pub open spec fn wf(self) -> bool {
        &&& self.paths.dom().contains(root_inode())
        &&& self.paths[root_inode()] == root_path()
        &&& 2 <= self.next_inode
        &&& forall|i: u64| #[trigger] self.paths.dom().contains(i) ==> 1 <= i < self.next_inode
        &&& forall|i: u64, j: u64|
            #![trigger self.paths[i], self.paths[j]]
            self.paths.dom().contains(i) && self.paths.dom().contains(j) && self.paths[i]
                == self.paths[j] ==> i == j
    }

    /// The path that inode `ino` names, if any.
    pub open spec fn path_of(self, ino: u64) -> Option<Seq<char>> {
        if self.paths.dom().contains(ino) {
            Some(self.paths[ino])
        } else {
            None
        }
    }

    /// The inode that names `path`, if any.
    pub open spec fn inode_of(self, path: Seq<char>) -> Option<u64> {
        if exists|i: u64| #[trigger] self.paths.dom().contains(i) && self.paths[i] == path {
            Some(choose|i: u64| #[trigger] self.paths.dom().contains(i) && self.paths[i] == path)
        } else {
            None
        }
    }

    /// Looking up `path`, giving it the next free inode when it has none:
    /// the new table and the inode of `path`.
    pub open spec fn create(self, path: Seq<char>) -> (InodeTable, u64) {
        match self.inode_of(path) {
            Some(i) => (self, i),
            None => (
                InodeTable {
                    paths: self.paths.insert(self.next_inode, path),
                    next_inode: (self.next_inode + 1) as u64,
                },
                self.next_inode,
            ),
        }
    }

    /// Whether `create(path)` can run without the inode counter overflowing.
    pub open spec fn can_create(self, path: Seq<char>) -> bool {
        self.inode_of(path) is None ==> self.next_inode < u64::MAX
    }
}

/// In a well-formed table, an inode found for a path names that path.
pub proof fn lemma_inode_of_names_path(t: InodeTable, path: Seq<char>, ino: u64)
    requires
        t.wf(),
        t.paths.dom().contains(ino),
        t.paths[ino] == path,
    ensures
        t.inode_of(path) == Some(ino),
{
    let i = choose|i: u64| #[trigger] t.paths.dom().contains(i) && t.paths[i] == path;
    assert(t.paths[i] == t.paths[ino]);
}

/// A path given an inode can be read back from that inode, the table stays
/// well formed, and the path now has that inode.
pub proof fn lemma_create_then_path_of(t: InodeTable, path: Seq<char>)
    requires
        t.wf(),
        t.can_create(path),
    ensures
        t.create(path).0.wf(),
        t.create(path).0.path_of(t.create(path).1) == Some(path),
        t.create(path).0.inode_of(path) == Some(t.create(path).1),
{
    let (t2, ino) = t.create(path);
    match t.inode_of(path) {
        Some(i) => {
            let w = choose|i: u64| #[trigger] t.paths.dom().contains(i) && t.paths[i] == path;
            assert(t.paths.dom().contains(w) && t.paths[w] == path);
        },
        None => {
            assert forall|i: u64| #[trigger] t2.paths.dom().contains(i) implies 1 <= i
                < t2.next_inode by {}
            assert forall|i: u64, j: u64|
                t2.paths.dom().contains(i) && t2.paths.dom().contains(j) && #[trigger] t2.paths[i]
                    == #[trigger] t2.paths[j] implies i == j by {
                if i != ino && j != ino {
                    assert(t.paths[i] == t.paths[j]);
                } else if i != ino {
                    assert(t.paths.dom().contains(i) && t.paths[i] == path);
                } else if j != ino {
                    assert(t.paths.dom().contains(j) && t.paths[j] == path);
                }
            }
            assert(t.paths.dom().contains(root_inode()));
            lemma_inode_of_names_path(t2, path, ino);
        },
    }
}

/// Asking twice for the same path gives the same inode and leaves the table
/// as the first call left it.
pub proof fn lemma_create_idempotent(t: InodeTable, path: Seq<char>)
    requires
        t.wf(),
        t.can_create(path),
    ensures
        t.create(path).0.create(path) == t.create(path),
{
    lemma_create_then_path_of(t, path);
}

/// A path given an inode never changes which path an existing inode names.
pub proof fn lemma_create_keeps_existing(t: InodeTable, path: Seq<char>, ino: u64)
    requires
        t.wf(),
        t.can_create(path),
        t.path_of(ino) is Some,
    ensures
        t.create(path).0.path_of(ino) == t.path_of(ino),
{
}

/// Two different paths never share an inode.
pub proof fn lemma_distinct_paths_distinct_inodes(t: InodeTable, p: Seq<char>, q: Seq<char>)
    requires
        t.wf(),
        t.inode_of(p) is Some,
        t.inode_of(q) is Some,
        p != q,
    ensures
        t.inode_of(p) != t.inode_of(q),
{
}

/// The root always has inode 1.
pub proof fn lemma_root_is_inode_one(t: InodeTable)
    requires
        t.wf(),
    ensures
        t.inode_of(root_path()) == Some(root_inode()),
        t.path_of(root_inode()) == Some(root_path()),
{
    lemma_inode_of_names_path(t, root_path(), root_inode());
}

/// The inodes of a mounted file system: each path that was looked up gets a
/// number of its own, and the number leads back to the path.
pub struct InodeTracker {
    bimap: BiHashMap<u64, String>,
    next_inode: u64,
}

impl View for InodeTracker {
    type V = InodeTable;

    closed spec fn view(&self) -> InodeTable {
        InodeTable { paths: bimap_pairs(self.bimap), next_inode: self.next_inode }
    }
}

impl InodeTracker {
    /// Every tracker's table is well formed.
    #[verifier::type_invariant]
    pub open spec fn well_formed(self) -> bool {
        self@.wf()
    }

    /// A tracker that knows only the root, `/`, as inode 1.
    pub fn new() -> (r: Self)
        ensures
            r@ == InodeTable::initial(),
            r@.wf(),
    {
        let mut bimap = bimap_new();
        let root = "/".to_owned();
        proof {
            reveal_strlit("/");
            assert("/"@ =~= root_path());
        }
        let ghost before = bimap_pairs(bimap);
        bimap_insert(&mut bimap, 1, root);
        assert(bimap_pairs(bimap) =~= before.insert(1, root_path()));
        let r = InodeTracker { bimap, next_inode: 2 };
        assert(r@.paths =~= InodeTable::initial().paths);
        r
    }

    /// The inode of `path`; a path seen for the first time gets the next
    /// free inode.
    pub fn get_or_create_inode(&mut self, path: &str) -> (ino: u64)
        requires
            old(self)@.can_create(path@),
        ensures
            (final(self)@, ino) == old(self)@.create(path@),
            final(self)@.wf(),
    {
        proof {
            use_type_invariant(&*self);
            lemma_create_then_path_of(self@, path@);
        }
        match bimap_get_by_right(&self.bimap, path) {
            Some(ino) => {
                proof {
                    lemma_inode_of_names_path(self@, path@, ino);
                }
                ino
            },
            None => {
                let ghost old_view = self@;
                assert(old_view.inode_of(path@) is None);
                // The map is taken out whole, so that the tracker is never
                // seen half updated.
                let mut taken = InodeTracker::new();
                std::mem::swap(self, &mut taken);
                let ino = taken.next_inode;
                let mut bimap = taken.bimap;
                bimap_insert(&mut bimap, ino, path.to_owned());
                assert(bimap_pairs(bimap) =~= old_view.paths.insert(ino, path@));
                *self = InodeTracker { bimap, next_inode: ino + 1 };
                ino
            },
        }
    }

    /// How many inodes are still free to hand out.
    pub fn free_inodes(&self) -> (r: u64)
        ensures
            r == u64::MAX - self@.next_inode,
    {
        u64::MAX - self.next_inode
    }

    /// The path that inode `ino` names, if it names one.
    pub fn get_path(&self, ino: u64) -> (r: Option<String>)
        ensures
            r matches Some(s) ==> self@.path_of(ino) == Some(s@),
            r is None ==> self@.path_of(ino) is None,
    {
        bimap_get_by_left(&self.bimap, ino)
    }
}

} // verus!

verus! {

/// The table of a tracker that was created new and then asked, in order,
/// for the inodes of the paths in `requests`.
pub open spec fn table_after(requests: Seq<Seq<char>>) -> InodeTable
    decreases requests.len(),
{
    if requests.len() == 0 {
        InodeTable::initial()
    } else {
        table_after(requests.drop_last()).create(requests.last()).0
    }
}

/// The inode the last of `requests` was given.
pub open spec fn inode_given(requests: Seq<Seq<char>>) -> u64
    recommends
        requests.len() > 0,
{
    table_after(requests.drop_last()).create(requests.last()).1
}

/// How many of `requests` asked for a path seen for the first time: not the
/// root and not asked for before.
pub open spec fn new_request_count(requests: Seq<Seq<char>>) -> nat
    decreases requests.len(),
{
    if requests.len() == 0 {
        0
    } else {
        let prev = requests.drop_last();
        new_request_count(prev) + if requests.last() == root_path() || prev.contains(
            requests.last(),
        ) {
            0nat
        } else {
            1nat
        }
    }
}

/// Whether `path` has an inode after `requests`: the root, or a path that
/// was asked for.
pub open spec fn is_known(requests: Seq<Seq<char>>, path: Seq<char>) -> bool {
    path == root_path() || requests.contains(path)
}

proof fn lemma_new_request_count_bound(requests: Seq<Seq<char>>)
    ensures
        new_request_count(requests) <= requests.len(),
    decreases requests.len(),
{
    if requests.len() > 0 {
        lemma_new_request_count_bound(requests.drop_last());
    }
}

/// A tracker made new and then asked for `requests` is well formed; its
/// inodes are exactly 1 up to (not including) the next free one, which is 2
/// plus the number of new requests; and a path has an inode exactly when it
/// is the root or was asked for.
pub proof fn lemma_history_table(requests: Seq<Seq<char>>)
    requires
        requests.len() + 2 < u64::MAX,
    ensures
        table_after(requests).wf(),
        table_after(requests).next_inode == 2 + new_request_count(requests),
        forall|i: u64|
            #![trigger table_after(requests).paths.dom().contains(i)]
            table_after(requests).paths.dom().contains(i) <==> 1 <= i < table_after(
                requests,
            ).next_inode,
        forall|p: Seq<char>|
            #![trigger table_after(requests).inode_of(p)]
            table_after(requests).inode_of(p) is Some <==> is_known(requests, p),
    decreases requests.len(),
{
    broadcast use vstd::seq_lib::lemma_seq_contains_after_push;

    let t0 = InodeTable::initial();
    if requests.len() == 0 {
        assert forall|i: u64| #[trigger] t0.paths.dom().contains(i) <==> 1 <= i < t0.next_inode by {}
        assert forall|p: Seq<char>| #[trigger] t0.inode_of(p) is Some <==> is_known(requests, p) by {
            if p == root_path() {
                lemma_inode_of_names_path(t0, p, 1);
            }
        }
    } else {
        let prev = requests.drop_last();
        let last = requests.last();
        assert(requests =~= prev.push(last));
        lemma_history_table(prev);
        lemma_new_request_count_bound(prev);
        let t = table_after(prev);
        lemma_create_then_path_of(t, last);
        let t2 = table_after(requests);
        if is_known(prev, last) {
            assert(t.inode_of(last) is Some);
            assert forall|p: Seq<char>| #[trigger] t2.inode_of(p) is Some <==> is_known(
                requests,
                p,
            ) by {
                assert(t.inode_of(p) is Some <==> is_known(prev, p));
            }
        } else {
            assert(t.inode_of(last) is None);
            assert forall|i: u64| #[trigger] t2.paths.dom().contains(i) <==> 1 <= i < t2.next_inode by {
                assert(t.paths.dom().contains(i) <==> 1 <= i < t.next_inode);
            }
            assert forall|p: Seq<char>| #[trigger] t2.inode_of(p) is Some <==> is_known(
                requests,
                p,
            ) by {
                assert(t.inode_of(p) is Some <==> is_known(prev, p));
                if p == last {
                } else if t.inode_of(p) is Some {
                    let w = choose|i: u64| #[trigger] t.paths.dom().contains(i) && t.paths[i] == p;
                    assert(t2.paths.dom().contains(w) && t2.paths[w] == p);
                } else {
                    if t2.inode_of(p) is Some {
                        let w = choose|i: u64| #[trigger] t2.paths.dom().contains(i) && t2.paths[i] == p;
                        assert(t.paths.dom().contains(w) && t.paths[w] == p);
                    }
                }
            }
        }
    }
}

/// A path asked for the first time gets the next number: 2 plus the number
/// of new paths asked for before it (so new inodes count up from 2, in the
/// order the paths were first asked for, and are never reused).
pub proof fn lemma_new_path_gets_next_number(requests: Seq<Seq<char>>)
    requires
        requests.len() > 0,
        requests.len() + 2 < u64::MAX,
        !is_known(requests.drop_last(), requests.last()),
    ensures
        inode_given(requests) == 2 + new_request_count(requests.drop_last()),
        table_after(requests).path_of(inode_given(requests)) == Some(requests.last()),
{
    lemma_history_table(requests.drop_last());
    lemma_new_request_count_bound(requests.drop_last());
    lemma_create_then_path_of(table_after(requests.drop_last()), requests.last());
}

/// Asking again for a path that already has an inode gives that inode and
/// changes nothing.
pub proof fn lemma_repeat_request_allocates_nothing(requests: Seq<Seq<char>>)
    requires
        requests.len() > 0,
        requests.len() + 2 < u64::MAX,
        is_known(requests.drop_last(), requests.last()),
    ensures
        table_after(requests) == table_after(requests.drop_last()),
        Some(inode_given(requests)) == table_after(requests.drop_last()).inode_of(requests.last()),
{
    lemma_history_table(requests.drop_last());
}

/// An existing path keeps its inode when another path is given one.
pub proof fn lemma_existing_path_keeps_inode(t: InodeTable, path: Seq<char>, other: Seq<char>)
    requires
        t.wf(),
        t.can_create(other),
        t.inode_of(path) is Some,
    ensures
        t.create(other).0.inode_of(path) == t.inode_of(path),
{
    let i = t.inode_of(path)->0;
    lemma_inode_of_names_path(t, path, choose|i: u64| #[trigger] t.paths.dom().contains(i) && t.paths[i] == path);
    lemma_create_then_path_of(t, other);
    lemma_inode_of_names_path(t.create(other).0, path, i);
}

/// After any history of requests, an inode leads to a path exactly when
/// that path is the root (inode 1) or was asked for and got that inode; two
/// different paths never share an inode.
pub proof fn lemma_history_path_of(requests: Seq<Seq<char>>, ino: u64, path: Seq<char>, other: Seq<char>)
    requires
        requests.len() + 2 < u64::MAX,
    ensures
        table_after(requests).path_of(ino) == Some(path) <==> (is_known(requests, path)
            && table_after(requests).inode_of(path) == Some(ino)),
        table_after(requests).path_of(root_inode()) == Some(root_path()),
        path != other && table_after(requests).inode_of(path) is Some ==> table_after(
            requests,
        ).inode_of(path) != table_after(requests).inode_of(other),
{
    lemma_history_table(requests);
    let t = table_after(requests);
    if t.path_of(ino) == Some(path) {
        lemma_inode_of_names_path(t, path, ino);
    }
    if t.inode_of(path) == Some(ino) {
        let w = choose|i: u64| #[trigger] t.paths.dom().contains(i) && t.paths[i] == path;
        assert(t.paths.dom().contains(w) && t.paths[w] == path);
    }
    if t.inode_of(path) is Some && t.inode_of(other) is Some {
        let a = choose|i: u64| #[trigger] t.paths.dom().contains(i) && t.paths[i] == path;
        let b = choose|i: u64| #[trigger] t.paths.dom().contains(i) && t.paths[i] == other;
        assert(t.paths.dom().contains(a) && t.paths[a] == path);
        assert(t.paths.dom().contains(b) && t.paths[b] == other);
    }
}

} // verus!
