use vstd::prelude::*;

use crate::paths::{spec_trim_leading_slashes, trim_leading_slashes};

verus! {

/// Where the entries of image directory `dir` go below the destination
/// folder: the directory path without leading slashes, or `None` for the
/// destination folder itself.
pub fn xiso_target_subdir(dir: &str) -> (r: Option<String>)
    ensures
        spec_trim_leading_slashes(dir@).len() == 0 ==> r is None,
        spec_trim_leading_slashes(dir@).len() > 0 ==> (r matches Some(s) && s@
            == spec_trim_leading_slashes(dir@)),
{
    let clean = trim_leading_slashes(dir);
    if clean.as_str().is_empty() {
        None
    } else {
        Some(clean)
    }
}

/// What unpacking does with one image entry.
#[derive(Clone, Copy, Debug, PartialEq, Eq, Structural)]
pub enum XisoEntryKind {
    /// Create the directory.
    Directory,
    /// Create the file and write nothing into it.
    EmptyFile,
    /// Create the file and copy its bytes off the image.
    DataFile,
}

/// What unpacking does with an entry: directories are created, files are
/// created, and only files that hold bytes are copied.
pub fn xiso_entry_kind(is_directory: bool, size: u64) -> (r: XisoEntryKind)
    ensures
        is_directory ==> r == XisoEntryKind::Directory,
        !is_directory && size == 0 ==> r == XisoEntryKind::EmptyFile,
        !is_directory && size > 0 ==> r == XisoEntryKind::DataFile,
{
    if is_directory {
        XisoEntryKind::Directory
    } else if size > 0 {
        XisoEntryKind::DataFile
    } else {
        XisoEntryKind::EmptyFile
    }
}

/// One read of a file copy: where on the image it starts and how many
/// bytes it takes.
#[derive(Clone, Copy, Debug, PartialEq, Eq, Structural)]
pub struct CopyChunk {
    pub image_offset: u64,
    pub len: u64,
}

/// The reads that copy `size` bytes starting at `start` on the image
/// through a buffer of `buf_len` bytes: back to back from `start`, every
/// read but the last filling the buffer, the last one ending exactly at
/// `start + size`; no read at all for an empty file.
pub open spec fn is_copy_plan(chunks: Seq<CopyChunk>, start: u64, size: u64, buf_len: u64) -> bool {
    &&& (chunks.len() == 0 <==> size == 0)
    &&& chunks.len() > 0 ==> chunks[0].image_offset == start
    &&& forall|k: int|
        #![trigger chunks[k]]
        0 <= k < chunks.len() - 1 ==> chunks[k].len == buf_len && chunks[k + 1].image_offset
            == chunks[k].image_offset + buf_len
    &&& chunks.len() > 0 ==> {
        let last = chunks.last();
        &&& 0 < last.len <= buf_len
        &&& last.image_offset + last.len == start + size
    }
}

/// The reads that copy a file of `size` bytes at `start` on the image
/// through a buffer of `buf_len` bytes.
pub fn copy_chunks(start: u64, size: u64, buf_len: u64) -> (r: Vec<CopyChunk>)
    requires
        buf_len > 0,
        start + size <= u64::MAX,
    ensures
        is_copy_plan(r@, start, size, buf_len),
{
    let mut r: Vec<CopyChunk> = Vec::new();
    let mut done: u64 = 0;
    while done < size
        invariant
            done <= size,
            buf_len > 0,
            start + size <= u64::MAX,
            r.len() == 0 <==> done == 0,
            r.len() > 0 ==> r@[0].image_offset == start,
            forall|k: int|
                #![trigger r@[k]]
                0 <= k < r.len() - 1 ==> r@[k].len == buf_len && r@[k + 1].image_offset
                    == r@[k].image_offset + buf_len,
            r.len() > 0 ==> {
                let last = r@.last();
                &&& 0 < last.len <= buf_len
                &&& last.image_offset + last.len == start + done
                &&& done < size ==> last.len == buf_len
            },
        decreases size - done,
    {
        let left = size - done;
        let len = if buf_len < left {
            buf_len
        } else {
            left
        };
        r.push(CopyChunk { image_offset: start + done, len });
        done = done + len;
    }
    r
}

/// A copy plan reads every byte of the file once: the reads add up to the
/// file's size, and each starts where the one before it ended.
pub proof fn lemma_copy_plan_tiles(chunks: Seq<CopyChunk>, start: u64, size: u64, buf_len: u64, k: int)
    requires
        is_copy_plan(chunks, start, size, buf_len),
        0 <= k < chunks.len(),
    ensures
        chunks[k].image_offset >= start,
        chunks[k].image_offset + chunks[k].len <= start + size,
        k + 1 < chunks.len() ==> chunks[k + 1].image_offset == chunks[k].image_offset + chunks[k].len,
    decreases chunks.len() - k,
{
    if k + 1 < chunks.len() {
        lemma_copy_plan_tiles(chunks, start, size, buf_len, k + 1);
    }
    lemma_copy_plan_starts_at(chunks, start, size, buf_len, k);
}

proof fn lemma_copy_plan_starts_at(chunks: Seq<CopyChunk>, start: u64, size: u64, buf_len: u64, k: int)
    requires
        is_copy_plan(chunks, start, size, buf_len),
        0 <= k < chunks.len(),
    ensures
        chunks[k].image_offset >= start,
    decreases k,
{
    if k > 0 {
        lemma_copy_plan_starts_at(chunks, start, size, buf_len, k - 1);
        assert(chunks[k - 1].len == buf_len);
    }
}

} // verus!

verus! {

/// The number of bytes the reads of a plan take, in all.
pub open spec fn total_len(chunks: Seq<CopyChunk>) -> int
    decreases chunks.len(),
{
    if chunks.len() == 0 {
        0
    } else {
        total_len(chunks.drop_last()) + chunks.last().len
    }
}

proof fn lemma_copy_plan_prefix(chunks: Seq<CopyChunk>, start: u64, size: u64, buf_len: u64, k: int)
    requires
        is_copy_plan(chunks, start, size, buf_len),
        0 <= k < chunks.len(),
    ensures
        chunks[k].image_offset == start + total_len(chunks.take(k)),
    decreases k,
{
    if k > 0 {
        lemma_copy_plan_prefix(chunks, start, size, buf_len, k - 1);
        assert(chunks.take(k).drop_last() =~= chunks.take(k - 1));
    } else {
        assert(chunks.take(0).len() == 0);
    }
}

/// A copy plan reads exactly as many bytes as the file holds.
pub proof fn lemma_copy_plan_reads_whole_file(chunks: Seq<CopyChunk>, start: u64, size: u64, buf_len: u64)
    requires
        is_copy_plan(chunks, start, size, buf_len),
    ensures
        total_len(chunks) == size,
{
    if chunks.len() > 0 {
        let k = chunks.len() - 1;
        lemma_copy_plan_prefix(chunks, start, size, buf_len, k);
        assert(chunks.take(k) =~= chunks.drop_last());
    }
}

} // verus!
