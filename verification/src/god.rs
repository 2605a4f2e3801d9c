use vstd::prelude::*;

use crate::text::string_push;

verus! {

/// The sixteen upper-case hexadecimal digits, in order.
pub open spec fn hex_digits() -> Seq<char> {
    seq!['0', '1', '2', '3', '4', '5', '6', '7', '8', '9', 'A', 'B', 'C', 'D', 'E', 'F']
}

/// Bits `4*(7-i)` to `4*(7-i)+3` of `id`: its `i`-th hexadecimal digit,
/// counting from the most significant one.
pub open spec fn nibble(id: u32, i: int) -> u32 {
    (id >> ((28 - 4 * i) as u32)) & 0xf
}

/// A title id as eight upper-case hexadecimal digits, zero-padded.
pub open spec fn spec_title_id_hex(id: u32) -> Seq<char> {
    Seq::new(8, |i: int| hex_digits()[nibble(id, i) as int])
}

/// Formats a title id as eight upper-case hexadecimal digits.
pub fn title_id_hex(id: u32) -> (r: String)
    ensures
        r@ == spec_title_id_hex(id),
{
    let table: [char; 16] = ['0', '1', '2', '3', '4', '5', '6', '7', '8', '9', 'A', 'B', 'C', 'D', 'E', 'F'];
    assert(table@ =~= hex_digits());
    let mut r = String::new();
    let mut i: u32 = 0;
    while i < 8
        invariant
            i <= 8,
            table@ == hex_digits(),
            r@ =~= spec_title_id_hex(id).take(i as int),
        decreases 8 - i,
    {
        let shift: u32 = 28 - 4 * i;
        let d: u32 = (id >> shift) & 0xf;
        assert(d < 16) by (bit_vector)
            requires
                d == (id >> shift) & 0xf,
        ;
        assert(d == nibble(id, i as int));
        string_push(&mut r, table[d as usize]);
        i = i + 1;
    }
    r
}

/// The title shown for a game: the one the title list gave, else
/// "Unknown Game".
pub fn game_title_or_unknown(found: Option<String>) -> (r: String)
    ensures
        found matches Some(t) ==> r@ == t@,
        found is None ==> r@ == "Unknown Game"@,
{
    match found {
        Some(t) => t,
        None => "Unknown Game".to_owned(),
    }
}

/// The number of bytes of an image that go into the package: the used
/// prefix when trimming, else everything after the start of the data.
pub open spec fn spec_god_data_size(trim: bool, used_prefix: u64, iso_len: u64, root_offset: u64) -> int {
    if trim {
        used_prefix as int
    } else {
        iso_len - root_offset
    }
}

/// The number of bytes of the image that go into the package.
pub fn god_data_size(trim: bool, used_prefix: u64, iso_len: u64, root_offset: u64) -> (r: u64)
    requires
        !trim ==> root_offset <= iso_len,
    ensures
        r == spec_god_data_size(trim, used_prefix, iso_len, root_offset),
{
    if trim {
        used_prefix
    } else {
        iso_len - root_offset
    }
}

/// `a / b` rounded up.
pub open spec fn ceil_div(a: int, b: int) -> int {
    a / b + if a % b == 0 {
        0int
    } else {
        1int
    }
}

/// `a / b` rounded up.
pub fn div_ceil(a: u64, b: u64) -> (r: u64)
    requires
        b > 0,
    ensures
        r == ceil_div(a as int, b as int),
        r * b >= a,
        r > 0 ==> (r - 1) * b < a,
{
    proof {
        lemma_ceil_div_tight(a as int, b as int);
    }
    let q = a / b;
    if a % b == 0 {
        q
    } else {
        assert(q < u64::MAX) by (nonlinear_arith)
            requires
                q == a / b,
                b > 0,
                a % b != 0,
        {
            if b == 1 {
                assert(a % b == 0);
            }
        }
        q + 1
    }
}

/// How a package is cut: the number of blocks the data takes, and the
/// number of part files those blocks fill.
#[derive(Clone, Copy, Debug, PartialEq, Eq, Structural)]
pub struct GodLayout {
    pub block_count: u64,
    pub part_count: u64,
}

/// The layout of `data_size` bytes cut into blocks of `block_size` bytes,
/// `blocks_per_part` blocks to a part file.
pub open spec fn spec_god_layout(data_size: u64, block_size: u64, blocks_per_part: u64) -> GodLayout {
    let blocks = ceil_div(data_size as int, block_size as int);
    GodLayout {
        block_count: blocks as u64,
        part_count: ceil_div(blocks, blocks_per_part as int) as u64,
    }
}

/// Cuts `data_size` bytes into blocks and the blocks into parts.
pub fn plan_god_layout(data_size: u64, block_size: u64, blocks_per_part: u64) -> (r: GodLayout)
    requires
        block_size > 0,
        blocks_per_part > 0,
    ensures
        r == spec_god_layout(data_size, block_size, blocks_per_part),
{
    let block_count = div_ceil(data_size, block_size);
    let part_count = div_ceil(block_count, blocks_per_part);
    GodLayout { block_count, part_count }
}

/// Blocks are enough for the data and no block is spare; parts are enough
/// for the blocks and no part is spare.
pub proof fn lemma_layout_is_tight(data_size: u64, block_size: u64, blocks_per_part: u64)
    requires
        block_size > 0,
        blocks_per_part > 0,
    ensures
        ({
            let l = spec_god_layout(data_size, block_size, blocks_per_part);
            &&& l.block_count * block_size >= data_size
            &&& l.block_count > 0 ==> (l.block_count - 1) * block_size < data_size
            &&& l.part_count * blocks_per_part >= l.block_count
            &&& l.part_count > 0 ==> (l.part_count - 1) * blocks_per_part < l.block_count
        }),
{
    lemma_ceil_div_tight(data_size as int, block_size as int);
    let blocks = ceil_div(data_size as int, block_size as int);
    lemma_ceil_div_tight(blocks, blocks_per_part as int);
}

proof fn lemma_ceil_div_tight(a: int, b: int)
    requires
        a >= 0,
        b > 0,
    ensures
        ceil_div(a, b) * b >= a,
        ceil_div(a, b) > 0 ==> (ceil_div(a, b) - 1) * b < a,
        0 <= ceil_div(a, b) <= a,
{
    let q = a / b;
    let r = a % b;
    assert(a == q * b + r && 0 <= r < b) by (nonlinear_arith)
        requires
            q == a / b,
            r == a % b,
            b > 0,
    ;
    assert(q >= 0) by (nonlinear_arith)
        requires
            q == a / b,
            a >= 0,
            b > 0,
    ;
    if r == 0 {
        assert(q * b >= a);
        if q > 0 {
            assert((q - 1) * b < a) by (nonlinear_arith)
                requires
                    a == q * b,
                    b > 0,
            ;
        }
    } else {
        assert((q + 1) * b >= a) by (nonlinear_arith)
            requires
                a == q * b + r,
                r < b,
        ;
        assert(q * b < a);
    }
    let c = ceil_div(a, b);
    if c > 0 {
        assert((c - 1) <= (c - 1) * b) by (nonlinear_arith)
            requires
                c >= 1,
                b >= 1,
        ;
    }
}

/// The order in which the hash lists of the parts are chained: every part
/// but the last, from the second to last down to the first, so that each
/// part takes in the digest of a successor that is already final.
pub fn mht_chain_order(part_count: u64) -> (r: Vec<u64>)
    requires
        part_count >= 1,
        part_count - 1 <= usize::MAX,
    ensures
        r.len() == part_count - 1,
        forall|j: int| #![trigger r@[j]] 0 <= j < r.len() ==> r@[j] == part_count - 2 - j,
{
    let mut r: Vec<u64> = Vec::new();
    let mut k: u64 = part_count - 1;
    while k > 0
        invariant
            k <= part_count - 1,
            part_count - 1 <= usize::MAX,
            r.len() == part_count - 1 - k,
            forall|j: int| #![trigger r@[j]] 0 <= j < r.len() ==> r@[j] == part_count - 2 - j,
        decreases k,
    {
        k = k - 1;
        r.push(k);
    }
    r
}

/// Every part but the last takes in the digest of the part after it, and
/// that part was finished just before it: it is the last part, or the one
/// handled in the step before.
pub proof fn lemma_mht_chain_successor_first(part_count: u64, order: Seq<u64>, j: int)
    requires
        part_count >= 1,
        order.len() == part_count - 1,
        forall|i: int| #![trigger order[i]] 0 <= i < order.len() ==> order[i] == part_count - 2 - i,
        0 <= j < order.len(),
    ensures
        j == 0 ==> order[j] + 1 == part_count - 1,
        j > 0 ==> order[j] + 1 == order[j - 1],
{
}

/// How many blocks of data parts a full part file holds on disk, hash
/// blocks included.
pub const PART_FILE_BLOCKS: u64 = 0xa290;

/// The sizes written into the package header.
#[derive(Clone, Copy, Debug, PartialEq, Eq, Structural)]
pub struct ConHeaderSizes {
    pub block_count: u32,
    pub part_count: u32,
    pub data_parts_size: u64,
}

/// The header sizes for a layout whose last part file is `last_part_size`
/// bytes: the counts as 32-bit values, and the size of all part files, every
/// part but the last counted as full.
pub open spec fn spec_con_header_sizes(layout: GodLayout, last_part_size: u64, block_size: u64) -> ConHeaderSizes {
    ConHeaderSizes {
        block_count: layout.block_count as u32,
        part_count: layout.part_count as u32,
        data_parts_size: (last_part_size + (layout.part_count - 1) * block_size * PART_FILE_BLOCKS) as u64,
    }
}

/// Computes the sizes written into the package header.
pub fn con_header_sizes(layout: GodLayout, last_part_size: u64, block_size: u64) -> (r: ConHeaderSizes)
    requires
        layout.part_count >= 1,
        last_part_size + (layout.part_count - 1) * block_size * PART_FILE_BLOCKS <= u64::MAX,
    ensures
        r == spec_con_header_sizes(layout, last_part_size, block_size),
        r.data_parts_size == last_part_size + (layout.part_count - 1) * block_size * 0xa290,
        r.block_count == layout.block_count as u32,
        r.part_count == layout.part_count as u32,
{
    let full_parts = layout.part_count - 1;
    assert(full_parts * block_size <= full_parts * block_size * PART_FILE_BLOCKS) by (nonlinear_arith)
        requires
            full_parts >= 0,
            block_size >= 0,
    ;
    let per = full_parts * block_size;
    let full = per * PART_FILE_BLOCKS;
    let data_parts_size = last_part_size + full;
    ConHeaderSizes {
        block_count: layout.block_count as u32,
        part_count: layout.part_count as u32,
        data_parts_size,
    }
}

} // verus!

verus! {

proof fn lemma_nibbles_determine(a: u32, b: u32)
    by (bit_vector)
    requires
        (a >> 28u32) & 0xf == (b >> 28u32) & 0xf,
        (a >> 24u32) & 0xf == (b >> 24u32) & 0xf,
        (a >> 20u32) & 0xf == (b >> 20u32) & 0xf,
        (a >> 16u32) & 0xf == (b >> 16u32) & 0xf,
        (a >> 12u32) & 0xf == (b >> 12u32) & 0xf,
        (a >> 8u32) & 0xf == (b >> 8u32) & 0xf,
        (a >> 4u32) & 0xf == (b >> 4u32) & 0xf,
        (a >> 0u32) & 0xf == (b >> 0u32) & 0xf,
    ensures
        a == b,
{
}

/// The value of an upper-case hexadecimal digit.
pub open spec fn hex_value(c: char) -> int {
    match c {
        '0' => 0,
        '1' => 1,
        '2' => 2,
        '3' => 3,
        '4' => 4,
        '5' => 5,
        '6' => 6,
        '7' => 7,
        '8' => 8,
        '9' => 9,
        'A' => 10,
        'B' => 11,
        'C' => 12,
        'D' => 13,
        'E' => 14,
        'F' => 15,
        _ => -1,
    }
}

proof fn lemma_hex_value_inverse(x: int)
    requires
        0 <= x < 16,
    ensures
        hex_value(hex_digits()[x]) == x,
{
    let d = hex_digits();
    if x == 0 {
        assert(d[0] == '0');
    } else if x == 1 {
        assert(d[1] == '1');
    } else if x == 2 {
        assert(d[2] == '2');
    } else if x == 3 {
        assert(d[3] == '3');
    } else if x == 4 {
        assert(d[4] == '4');
    } else if x == 5 {
        assert(d[5] == '5');
    } else if x == 6 {
        assert(d[6] == '6');
    } else if x == 7 {
        assert(d[7] == '7');
    } else if x == 8 {
        assert(d[8] == '8');
    } else if x == 9 {
        assert(d[9] == '9');
    } else if x == 10 {
        assert(d[10] == 'A');
    } else if x == 11 {
        assert(d[11] == 'B');
    } else if x == 12 {
        assert(d[12] == 'C');
    } else if x == 13 {
        assert(d[13] == 'D');
    } else if x == 14 {
        assert(d[14] == 'E');
    } else {
        assert(d[15] == 'F');
    }
}

proof fn lemma_nibble_small(a: u32, s: u32)
    by (bit_vector)
    ensures
        (a >> s) & 0xf < 16,
{
}

/// Different title ids are formatted differently: the eight digits give
/// back the title id.
pub proof fn lemma_title_id_hex_injective(a: u32, b: u32)
    requires
        spec_title_id_hex(a) == spec_title_id_hex(b),
    ensures
        a == b,
{
    assert forall|i: int| 0 <= i < 8 implies nibble(a, i) == nibble(b, i) by {
        lemma_nibble_small(a, (28 - 4 * i) as u32);
        lemma_nibble_small(b, (28 - 4 * i) as u32);
        assert(spec_title_id_hex(a)[i] == spec_title_id_hex(b)[i]);
        let x = nibble(a, i) as int;
        let y = nibble(b, i) as int;
        assert(spec_title_id_hex(a)[i] == hex_digits()[x]);
        assert(spec_title_id_hex(b)[i] == hex_digits()[y]);
        lemma_hex_value_inverse(x);
        lemma_hex_value_inverse(y);
    }
    assert(nibble(a, 0) == nibble(b, 0));
    assert(nibble(a, 1) == nibble(b, 1));
    assert(nibble(a, 2) == nibble(b, 2));
    assert(nibble(a, 3) == nibble(b, 3));
    assert(nibble(a, 4) == nibble(b, 4));
    assert(nibble(a, 5) == nibble(b, 5));
    assert(nibble(a, 6) == nibble(b, 6));
    assert(nibble(a, 7) == nibble(b, 7));
    lemma_nibbles_determine(a, b);
}

} // verus!

verus! {

/// The header gives the whole size of the part files: the last part's size
/// plus 0xa290 blocks for every part before it, as an exact sum; and the
/// block and part counts as 32-bit values.
pub proof fn lemma_con_header_data_size(layout: GodLayout, last_part_size: u64, block_size: u64)
    requires
        layout.part_count >= 1,
        last_part_size + (layout.part_count - 1) * block_size * 0xa290 <= u64::MAX,
    ensures
        spec_con_header_sizes(layout, last_part_size, block_size).data_parts_size == last_part_size
            + (layout.part_count - 1) * block_size * 0xa290,
        spec_con_header_sizes(layout, last_part_size, block_size).block_count == layout.block_count as u32,
        spec_con_header_sizes(layout, last_part_size, block_size).part_count == layout.part_count as u32,
{
}

} // verus!

verus! {

proof fn lemma_nibbles_sum(id: u32)
    by (bit_vector)
    ensures
        id == ((id >> 28u32) & 0xf) * 0x10000000 + ((id >> 24u32) & 0xf) * 0x1000000 + ((id >> 20u32)
            & 0xf) * 0x100000 + ((id >> 16u32) & 0xf) * 0x10000 + ((id >> 12u32) & 0xf) * 0x1000 + ((id
            >> 8u32) & 0xf) * 0x100 + ((id >> 4u32) & 0xf) * 0x10 + ((id >> 0u32) & 0xf),
{
}

/// The formatted title id is eight upper-case hexadecimal digits that, read
/// as a base-16 number, most significant digit first, give back the id.
pub proof fn lemma_title_id_hex_value(id: u32)
    ensures
        spec_title_id_hex(id).len() == 8,
        forall|i: int|
            0 <= i < 8 ==> ('0' <= #[trigger] spec_title_id_hex(id)[i] <= '9' || 'A'
                <= spec_title_id_hex(id)[i] <= 'F'),
        ({
            let s = spec_title_id_hex(id);
            hex_value(s[0]) * 0x10000000 + hex_value(s[1]) * 0x1000000 + hex_value(s[2]) * 0x100000
                + hex_value(s[3]) * 0x10000 + hex_value(s[4]) * 0x1000 + hex_value(s[5]) * 0x100
                + hex_value(s[6]) * 0x10 + hex_value(s[7]) == id
        }),
{
    let s = spec_title_id_hex(id);
    assert forall|i: int| 0 <= i < 8 implies hex_value(s[i]) == nibble(id, i) && ('0' <= #[trigger] s[i]
        <= '9' || 'A' <= s[i] <= 'F') by {
        lemma_nibble_small(id, (28 - 4 * i) as u32);
        lemma_hex_value_inverse(nibble(id, i) as int);
        lemma_hex_digit_range(nibble(id, i) as int);
    }
    assert(hex_value(s[0]) == nibble(id, 0));
    assert(hex_value(s[1]) == nibble(id, 1));
    assert(hex_value(s[2]) == nibble(id, 2));
    assert(hex_value(s[3]) == nibble(id, 3));
    assert(hex_value(s[4]) == nibble(id, 4));
    assert(hex_value(s[5]) == nibble(id, 5));
    assert(hex_value(s[6]) == nibble(id, 6));
    assert(hex_value(s[7]) == nibble(id, 7));
    lemma_nibbles_sum(id);
}

proof fn lemma_hex_digit_range(x: int)
    requires
        0 <= x < 16,
    ensures
        ('0' <= hex_digits()[x] <= '9' || 'A' <= hex_digits()[x] <= 'F'),
{
    let d = hex_digits();
    assert(d[0] == '0' && d[1] == '1' && d[2] == '2' && d[3] == '3' && d[4] == '4' && d[5] == '5');
    assert(d[6] == '6' && d[7] == '7' && d[8] == '8' && d[9] == '9' && d[10] == 'A');
    assert(d[11] == 'B' && d[12] == 'C' && d[13] == 'D' && d[14] == 'E' && d[15] == 'F');
}

} // verus!
