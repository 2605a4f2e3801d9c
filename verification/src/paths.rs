use vstd::prelude::*;

use crate::text::{chars_of, string_from_chars, string_push};

verus! {

/// What `PathBuf::push` makes of `base` and `comp` on Unix: an absolute
/// `comp` replaces `base`; otherwise `comp` is appended, after a `/` unless
/// `base` is empty or already ends with one.
pub open spec fn spec_push_path(base: Seq<char>, comp: Seq<char>) -> Seq<char> {
    if comp.len() > 0 && comp[0] == '/' {
        comp
    } else if base.len() == 0 || base.last() == '/' {
        base + comp
    } else {
        base + seq!['/'] + comp
    }
}

/// `base` with the path component `comp` pushed onto it.
pub fn push_path(base: &str, comp: &str) -> (r: String)
    ensures
        r@ == spec_push_path(base@, comp@),
{
    let b = chars_of(base);
    let c = chars_of(comp);
    if c.len() > 0 && c[0] == '/' {
        comp.to_owned()
    } else if b.len() == 0 || b[b.len() - 1] == '/' {
        let mut s = base.to_owned();
        s.append(comp);
        s
    } else {
        let mut s = base.to_owned();
        string_push(&mut s, '/');
        s.append(comp);
        s
    }
}

/// A remote path and a name below it: `dir` and `name` joined by one `/`,
/// with no second `/` when `dir` already ends with one.
pub open spec fn spec_join_remote(dir: Seq<char>, name: Seq<char>) -> Seq<char> {
    if dir.len() > 0 && dir.last() == '/' {
        dir + name
    } else {
        dir + seq!['/'] + name
    }
}

/// Joins a remote directory and a name below it.
pub fn join_remote_path(dir: &str, name: &str) -> (r: String)
    ensures
        r@ == spec_join_remote(dir@, name@),
{
    let d = chars_of(dir);
    let mut s = dir.to_owned();
    if !(d.len() > 0 && d[d.len() - 1] == '/') {
        string_push(&mut s, '/');
    }
    s.append(name);
    s
}

/// `s` without the slashes it starts with.
pub open spec fn spec_trim_leading_slashes(s: Seq<char>) -> Seq<char>
    decreases s.len(),
{
    if s.len() > 0 && s[0] == '/' {
        spec_trim_leading_slashes(s.drop_first())
    } else {
        s
    }
}

/// Removes every `/` at the start of `s`.
pub fn trim_leading_slashes(s: &str) -> (r: String)
    ensures
        r@ == spec_trim_leading_slashes(s@),
{
    let c = chars_of(s);
    let mut k: usize = 0;
    assert(c@.skip(0) =~= c@);
    while k < c.len() && c[k] == '/'
        invariant
            k <= c.len(),
            spec_trim_leading_slashes(c@) == spec_trim_leading_slashes(c@.skip(k as int)),
        decreases c.len() - k,
    {
        assert(c@.skip(k as int).drop_first() =~= c@.skip(k + 1));
        k = k + 1;
    }
    let mut rest: Vec<char> = Vec::new();
    let mut j: usize = k;
    while j < c.len()
        invariant
            k <= j <= c.len(),
            rest@ =~= c@.subrange(k as int, j as int),
        decreases c.len() - j,
    {
        rest.push(c[j]);
        j = j + 1;
    }
    assert(rest@ =~= c@.skip(k as int));
    string_from_chars(&rest)
}

/// `s` with every backslash turned into a slash.
pub open spec fn spec_backslashes_to_slashes(s: Seq<char>) -> Seq<char> {
    Seq::new(s.len(), |i: int| if s[i] == '\\' { '/' } else { s[i] })
}

/// Turns every backslash of `s` into a slash.
pub fn backslashes_to_slashes(s: &str) -> (r: String)
    ensures
        r@ == spec_backslashes_to_slashes(s@),
{
    let c = chars_of(s);
    let mut out: Vec<char> = Vec::new();
    let mut i: usize = 0;
    while i < c.len()
        invariant
            i <= c.len(),
            out@ =~= spec_backslashes_to_slashes(c@).take(i as int),
        decreases c.len() - i,
    {
        if c[i] == '\\' {
            out.push('/');
        } else {
            out.push(c[i]);
        }
        i = i + 1;
    }
    assert(spec_backslashes_to_slashes(c@).take(c.len() as int) =~= spec_backslashes_to_slashes(
        c@,
    ));
    string_from_chars(&out)
}

/// Reading `s` from the left and cutting it at each `/`: the non-empty
/// segments already ended by a `/`, and the segment still open.
pub open spec fn split_state(s: Seq<char>) -> (Seq<Seq<char>>, Seq<char>)
    decreases s.len(),
{
    if s.len() == 0 {
        (seq![], seq![])
    } else {
        let (done, open) = split_state(s.drop_last());
        if s.last() == '/' {
            if open.len() == 0 {
                (done, seq![])
            } else {
                (done.push(open), seq![])
            }
        } else {
            (done, open.push(s.last()))
        }
    }
}

/// The non-empty segments of `s` between slashes, in order.
pub open spec fn path_components(s: Seq<char>) -> Seq<Seq<char>> {
    let (done, open) = split_state(s);
    if open.len() == 0 {
        done
    } else {
        done.push(open)
    }
}

/// The segments in `parts` joined by single slashes.
pub open spec fn join_with_slash(parts: Seq<Seq<char>>) -> Seq<char>
    decreases parts.len(),
{
    if parts.len() == 0 {
        seq![]
    } else if parts.len() == 1 {
        parts[0]
    } else {
        join_with_slash(parts.drop_last()) + seq!['/'] + parts.last()
    }
}

/// The directories to create, outermost first, for the segments `parts`:
/// the first segment, then the first two joined by a slash, and so on.
pub open spec fn chain_of(parts: Seq<Seq<char>>) -> Seq<Seq<char>> {
    Seq::new(parts.len(), |i: int| join_with_slash(parts.take(i + 1)))
}

/// The directories to create, outermost first, so that the relative
/// directory `path` exists: one for each segment of `path`, made of that
/// segment and the ones before it.
pub open spec fn spec_dir_chain(path: Seq<char>) -> Seq<Seq<char>> {
    chain_of(path_components(path))
}

pub open spec fn string_views(v: Seq<String>) -> Seq<Seq<char>> {
    v.map_values(|s: String| s@)
}

proof fn lemma_chain_close(done: Seq<Seq<char>>, open: Seq<char>)
    ensures
        chain_of(done.push(open)) =~= chain_of(done).push(join_with_slash(done.push(open))),
{
    let a = chain_of(done.push(open));
    let b = chain_of(done).push(join_with_slash(done.push(open)));
    assert forall|i: int| 0 <= i < a.len() implies #[trigger] a[i] == b[i] by {
        if i < done.len() {
            assert(done.push(open).take(i + 1) =~= done.take(i + 1));
        } else {
            assert(done.push(open).take(i + 1) =~= done.push(open));
        }
    }
}

/// Ends the open segment: the directory made of the segments so far and
/// `segment` is appended to `out`, and `current` becomes that directory.
fn close_segment(
    out: &mut Vec<String>,
    current: &mut String,
    segment: &Vec<char>,
    Ghost(done): Ghost<Seq<Seq<char>>>,
)
    requires
        segment.len() > 0,
        string_views(old(out)@) == chain_of(done),
        done.len() > 0 ==> old(current)@ == join_with_slash(done),
    ensures
        string_views(final(out)@) == chain_of(done.push(segment@)),
        final(current)@ == join_with_slash(done.push(segment@)),
{
    proof {
        lemma_chain_close(done, segment@);
        assert(done.push(segment@).drop_last() =~= done);
    }
    let seg = string_from_chars(segment);
    assert(string_views(old(out)@).len() == old(out)@.len());
    if out.len() == 0 {
        assert(done.push(segment@).len() == 1);
        *current = seg;
    } else {
        string_push(current, '/');
        current.append(seg.as_str());
    }
    assert(current@ == join_with_slash(done.push(segment@)));
    out.push(current.clone());
    assert(string_views(out@) =~= string_views(old(out)@).push(current@));
}

/// The directories to create, outermost first, so that the relative remote
/// directory `path` exists (leading slashes and empty segments are skipped).
pub fn remote_dir_chain(path: &str) -> (r: Vec<String>)
    ensures
        string_views(r@) == spec_dir_chain(path@),
{
    let c = chars_of(path);
    let mut out: Vec<String> = Vec::new();
    let mut current = String::new();
    let mut segment: Vec<char> = Vec::new();
    let mut i: usize = 0;
    assert(string_views(out@) =~= chain_of(seq![]));
    while i < c.len()
        invariant
            i <= c.len(),
            segment@ == split_state(c@.take(i as int)).1,
            string_views(out@) == chain_of(split_state(c@.take(i as int)).0),
            split_state(c@.take(i as int)).0.len() > 0 ==> current@ == join_with_slash(
                split_state(c@.take(i as int)).0,
            ),
        decreases c.len() - i,
    {
        let ghost before = c@.take(i as int);
        let ghost done = split_state(before).0;
        assert(c@.take(i + 1).drop_last() =~= before);
        assert(c@.take(i + 1).last() == c@[i as int]);
        let ch = c[i];
        if ch == '/' {
            if segment.len() > 0 {
                close_segment(&mut out, &mut current, &segment, Ghost(done));
                segment = Vec::new();
                assert(segment@ =~= seq![]);
            }
        } else {
            segment.push(ch);
        }
        i = i + 1;
    }
    assert(c@.take(c.len() as int) =~= c@);
    if segment.len() > 0 {
        close_segment(&mut out, &mut current, &segment, Ghost(split_state(c@).0));
    }
    out
}

/// The parent that `std::path::Path::parent` gives for a path, if it gives
/// one.
pub uninterp spec fn std_path_parent(path: Seq<char>) -> Option<Seq<char>>;

/// `std::path::Path::parent`: the path without its last component, or
/// `None` for a root or an empty path. Nothing is stated of the parent
/// beyond its being the same value for the same path.
#[verifier::external_body]
pub(crate) fn path_parent(path: &str) -> (r: Option<String>)
    ensures
        r matches Some(p) ==> std_path_parent(path@) == Some(p@),
        r is None ==> std_path_parent(path@) is None,
{
    match std::path::Path::new(path).parent() {
        Some(p) => Some(p.to_string_lossy().into_owned()),
        None => None,
    }
}

} // verus!

verus! {

/// After trimming, a path no longer starts with a slash, and trimming it
/// again changes nothing.
pub proof fn lemma_trim_leading_slashes(s: Seq<char>)
    ensures
        spec_trim_leading_slashes(s).len() > 0 ==> spec_trim_leading_slashes(s)[0] != '/',
        spec_trim_leading_slashes(spec_trim_leading_slashes(s)) == spec_trim_leading_slashes(s),
    decreases s.len(),
{
    if s.len() > 0 && s[0] == '/' {
        lemma_trim_leading_slashes(s.drop_first());
    }
}

/// Pushing a relative component onto a path keeps the path as a prefix and
/// ends with the component.
pub proof fn lemma_push_relative_extends(base: Seq<char>, comp: Seq<char>)
    requires
        !(comp.len() > 0 && comp[0] == '/'),
    ensures
        spec_push_path(base, comp).take(base.len() as int) == base,
        spec_push_path(base, comp).skip(spec_push_path(base, comp).len() - comp.len()) == comp,
{
    let r = spec_push_path(base, comp);
    assert(r.take(base.len() as int) =~= base);
    assert(r.skip(r.len() - comp.len()) =~= comp);
}

/// The directory chain of a path: the first directory is its first
/// segment, each later one is the one before, a slash and the next
/// segment, and the last one is every segment joined by slashes.
pub proof fn lemma_dir_chain_steps(path: Seq<char>, i: int)
    requires
        0 <= i < spec_dir_chain(path).len(),
    ensures
        i == 0 ==> spec_dir_chain(path)[i] == path_components(path)[0],
        i > 0 ==> spec_dir_chain(path)[i] == spec_dir_chain(path)[i - 1] + seq!['/']
            + path_components(path)[i],
        i == spec_dir_chain(path).len() - 1 ==> spec_dir_chain(path)[i] == join_with_slash(
            path_components(path),
        ),
{
    let parts = path_components(path);
    if i > 0 {
        assert(parts.take(i + 1).drop_last() =~= parts.take(i));
    }
    assert(parts.take(parts.len() as int) =~= parts);
}

proof fn lemma_split_state_segments(s: Seq<char>)
    ensures
        forall|k: int|
            #![trigger split_state(s).0[k]]
            0 <= k < split_state(s).0.len() ==> split_state(s).0[k].len() > 0 && !split_state(
                s,
            ).0[k].contains('/'),
        !split_state(s).1.contains('/'),
    decreases s.len(),
{
    if s.len() > 0 {
        lemma_split_state_segments(s.drop_last());
        let (done, open) = split_state(s.drop_last());
        if s.last() != '/' {
            assert forall|j: int| 0 <= j < open.push(s.last()).len() implies open.push(
                s.last(),
            )[j] != '/' by {
                if j < open.len() {
                    assert(open[j] != '/') by {
                        if open[j] == '/' {
                            assert(open.contains('/'));
                        }
                    }
                }
            }
        }
    }
}

/// Every segment of a path is non-empty and holds no slash.
pub proof fn lemma_components_are_segments(path: Seq<char>, k: int)
    requires
        0 <= k < path_components(path).len(),
    ensures
        path_components(path)[k].len() > 0,
        !path_components(path)[k].contains('/'),
{
    lemma_split_state_segments(path);
}

} // verus!

verus! {

/// Trimming removes a run of slashes from the front and nothing else: the
/// result is what follows some number of leading slashes.
pub proof fn lemma_trim_removes_only_leading_slashes(s: Seq<char>)
    ensures
        exists|k: int|
            0 <= k <= s.len() && spec_trim_leading_slashes(s) == s.skip(k) && forall|j: int|
                0 <= j < k ==> #[trigger] s[j] == '/',
    decreases s.len(),
{
    if s.len() > 0 && s[0] == '/' {
        lemma_trim_removes_only_leading_slashes(s.drop_first());
        let k = choose|k: int|
            0 <= k <= s.drop_first().len() && spec_trim_leading_slashes(s.drop_first())
                == s.drop_first().skip(k) && forall|j: int|
                0 <= j < k ==> #[trigger] s.drop_first()[j] == '/';
        assert(s.drop_first().skip(k) =~= s.skip(k + 1));
        assert forall|j: int| 0 <= j < k + 1 implies #[trigger] s[j] == '/' by {
            if j > 0 {
                assert(s[j] == s.drop_first()[j - 1]);
            }
        }
    } else {
        assert(s.skip(0) =~= s);
    }
}

} // verus!

verus! {

/// Pushing an absolute component gives that component; pushing a relative
/// one gives the base, then exactly one slash when the base is non-empty and
/// does not already end with one, then the component.
pub proof fn lemma_push_path_shape(base: Seq<char>, comp: Seq<char>)
    ensures
        comp.len() > 0 && comp[0] == '/' ==> spec_push_path(base, comp) == comp,
        !(comp.len() > 0 && comp[0] == '/') ==> {
            let r = spec_push_path(base, comp);
            &&& r.take(base.len() as int) == base
            &&& r.skip(r.len() - comp.len()) == comp
            &&& (base.len() == 0 || base.last() == '/') ==> r.len() == base.len() + comp.len()
            &&& !(base.len() == 0 || base.last() == '/') ==> r.len() == base.len() + comp.len() + 1
                && r[base.len() as int] == '/'
        },
{
    let r = spec_push_path(base, comp);
    if !(comp.len() > 0 && comp[0] == '/') {
        assert(r.take(base.len() as int) =~= base);
        assert(r.skip(r.len() - comp.len()) =~= comp);
    }
}

/// Joining a remote directory and a name gives the directory, one slash
/// unless the directory already ends with one, and the name.
pub proof fn lemma_join_remote_shape(dir: Seq<char>, name: Seq<char>)
    ensures
        ({
            let r = spec_join_remote(dir, name);
            &&& r.take(dir.len() as int) == dir
            &&& r.skip(r.len() - name.len()) == name
            &&& (dir.len() > 0 && dir.last() == '/') ==> r.len() == dir.len() + name.len()
            &&& !(dir.len() > 0 && dir.last() == '/') ==> r.len() == dir.len() + name.len() + 1
                && r[dir.len() as int] == '/'
        }),
{
    let r = spec_join_remote(dir, name);
    assert(r.take(dir.len() as int) =~= dir);
    assert(r.skip(r.len() - name.len()) =~= name);
}

} // verus!
