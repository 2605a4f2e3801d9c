use vstd::prelude::*;

use crate::text::str_eq;

verus! {

/// One preset partition of an Xbox or Xbox 360 hard disk: a short key, a
/// readable name, and the byte range the partition occupies on the disk. A
/// size of 0 marks a partition that runs to the end of the disk, whose size
/// depends on the disk (the Xbox Original F partition).
#[derive(Clone, Copy, Debug)]
pub struct PartitionMapEntry {
    pub letter: &'static str,
    pub name: &'static str,
    pub offset_bytes: u64,
    pub size_bytes: u64,
}

/// The mathematical value of a partition entry.
pub struct PartitionView {
    pub letter: Seq<char>,
    pub name: Seq<char>,
    pub offset_bytes: u64,
    pub size_bytes: u64,
}

impl View for PartitionMapEntry {
    type V = PartitionView;

    open spec fn view(&self) -> PartitionView {
        PartitionView {
            letter: self.letter@,
            name: self.name@,
            offset_bytes: self.offset_bytes,
            size_bytes: self.size_bytes,
        }
    }
}

pub open spec fn preset_view(letter: &str, name: &str, offset_bytes: u64, size_bytes: u64) -> PartitionView {
    PartitionView { letter: letter@, name: name@, offset_bytes, size_bytes }
}

/// The preset partition table, Xbox Original partitions first, then the
/// Xbox 360 ones.
pub open spec fn spec_default_partition_layout() -> Seq<PartitionView> {
    seq![
        preset_view("x", "Xbox Original X", 0x00080000, 0x02ee00000),
        preset_view("y", "Xbox Original Y", 0x2ee80000, 0x02ee00000),
        preset_view("z", "Xbox Original Z", 0x5dc80000, 0x02ee00000),
        preset_view("c", "Xbox Original C", 0x8ca80000, 0x01f400000),
        preset_view("e", "Xbox Original E (Data)", 0xabe80000, 0x1312d6000),
        preset_view("f", "Xbox Original F", 0x1dd156000, 0),
        preset_view("360_p1", "Xbox 360 Partition 1 (Cache)", 0x00110000, 0x80000000),
        preset_view("360_p2", "Xbox 360 Partition 2 (System)", 0x120EB0000, 0x10000000),
        preset_view("360_p3", "Xbox 360 Partition 3 (Data)", 0x130EB0000, 0x20000000000),
    ]
}

/// The first entry of `table` whose letter is `letter`, if any.
pub open spec fn first_with_letter(table: Seq<PartitionView>, letter: Seq<char>) -> Option<PartitionView>
    decreases table.len(),
{
    if table.len() == 0 {
        None
    } else if table[0].letter == letter {
        Some(table[0])
    } else {
        first_with_letter(table.drop_first(), letter)
    }
}

/// The preset partition table.
pub fn default_partition_layout() -> (r: Vec<PartitionMapEntry>)
    ensures
        r@.map_values(|e: PartitionMapEntry| e@) == spec_default_partition_layout(),
{
    let r = vec![
        PartitionMapEntry { letter: "x", name: "Xbox Original X", offset_bytes: 0x00080000, size_bytes: 0x02ee00000 },
        PartitionMapEntry { letter: "y", name: "Xbox Original Y", offset_bytes: 0x2ee80000, size_bytes: 0x02ee00000 },
        PartitionMapEntry { letter: "z", name: "Xbox Original Z", offset_bytes: 0x5dc80000, size_bytes: 0x02ee00000 },
        PartitionMapEntry { letter: "c", name: "Xbox Original C", offset_bytes: 0x8ca80000, size_bytes: 0x01f400000 },
        PartitionMapEntry { letter: "e", name: "Xbox Original E (Data)", offset_bytes: 0xabe80000, size_bytes: 0x1312d6000 },
        PartitionMapEntry { letter: "f", name: "Xbox Original F", offset_bytes: 0x1dd156000, size_bytes: 0 },
        PartitionMapEntry { letter: "360_p1", name: "Xbox 360 Partition 1 (Cache)", offset_bytes: 0x00110000, size_bytes: 0x80000000 },
        PartitionMapEntry { letter: "360_p2", name: "Xbox 360 Partition 2 (System)", offset_bytes: 0x120EB0000, size_bytes: 0x10000000 },
        PartitionMapEntry { letter: "360_p3", name: "Xbox 360 Partition 3 (Data)", offset_bytes: 0x130EB0000, size_bytes: 0x20000000000 },
    ];
    assert(r@.map_values(|e: PartitionMapEntry| e@) =~= spec_default_partition_layout());
    r
}

impl PartitionMapEntry {
    /// Looks up the preset partition whose letter is `letter`.
    pub fn from_letter(letter: &str) -> (r: Option<PartitionMapEntry>)
        ensures
            r matches Some(e) ==> first_with_letter(spec_default_partition_layout(), letter@) == Some(e@),
            r is None ==> first_with_letter(spec_default_partition_layout(), letter@) is None,
            letter@ == "x"@ ==> (r matches Some(e) && e.letter@ == "x"@ && e.name@ == "Xbox Original X"@
                && e.offset_bytes == 0x00080000 && e.size_bytes == 0x02ee00000),
            letter@ == "y"@ ==> (r matches Some(e) && e.letter@ == "y"@ && e.name@ == "Xbox Original Y"@
                && e.offset_bytes == 0x2ee80000 && e.size_bytes == 0x02ee00000),
            letter@ == "z"@ ==> (r matches Some(e) && e.letter@ == "z"@ && e.name@ == "Xbox Original Z"@
                && e.offset_bytes == 0x5dc80000 && e.size_bytes == 0x02ee00000),
            letter@ == "c"@ ==> (r matches Some(e) && e.letter@ == "c"@ && e.name@ == "Xbox Original C"@
                && e.offset_bytes == 0x8ca80000 && e.size_bytes == 0x01f400000),
            letter@ == "e"@ ==> (r matches Some(e) && e.letter@ == "e"@ && e.name@ == "Xbox Original E (Data)"@
                && e.offset_bytes == 0xabe80000 && e.size_bytes == 0x1312d6000),
            letter@ == "f"@ ==> (r matches Some(e) && e.letter@ == "f"@ && e.name@ == "Xbox Original F"@
                && e.offset_bytes == 0x1dd156000 && e.size_bytes == 0),
            letter@ == "360_p1"@ ==> (r matches Some(e) && e.letter@ == "360_p1"@ && e.name@ == "Xbox 360 Partition 1 (Cache)"@
                && e.offset_bytes == 0x00110000 && e.size_bytes == 0x80000000),
            letter@ == "360_p2"@ ==> (r matches Some(e) && e.letter@ == "360_p2"@ && e.name@ == "Xbox 360 Partition 2 (System)"@
                && e.offset_bytes == 0x120EB0000 && e.size_bytes == 0x10000000),
            letter@ == "360_p3"@ ==> (r matches Some(e) && e.letter@ == "360_p3"@ && e.name@ == "Xbox 360 Partition 3 (Data)"@
                && e.offset_bytes == 0x130EB0000 && e.size_bytes == 0x20000000000),
    {
        proof {
            lemma_presets_by_letter();
        }
        Self::find_in_table(letter)
    }

    /// The first preset of the table whose letter is `letter`.
    fn find_in_table(letter: &str) -> (r: Option<PartitionMapEntry>)
        ensures
            r matches Some(e) ==> first_with_letter(spec_default_partition_layout(), letter@) == Some(e@),
            r is None ==> first_with_letter(spec_default_partition_layout(), letter@) is None,
    {
        let table = default_partition_layout();
        let ghost vt = table@.map_values(|e: PartitionMapEntry| e@);
        let mut i: usize = 0;
        assert(vt.skip(0) =~= vt);
        while i < table.len()
            invariant
                i <= table.len(),
                vt == spec_default_partition_layout(),
                vt == table@.map_values(|e: PartitionMapEntry| e@),
                first_with_letter(vt, letter@) == first_with_letter(vt.skip(i as int), letter@),
            decreases table.len() - i,
        {
            let e = table[i];
            assert(vt.skip(i as int)[0] == e@);
            assert(vt.skip(i as int).drop_first() =~= vt.skip(i + 1));
            if str_eq(e.letter, letter) {
                return Some(e);
            }
            i = i + 1;
        }
        assert(vt.skip(i as int).len() == 0);
        None
    }
}

} // verus!

verus! {

proof fn lemma_first_with_letter_at(t: Seq<PartitionView>, letter: Seq<char>, i: int)
    requires
        0 <= i < t.len(),
        t[i].letter == letter,
        forall|j: int| 0 <= j < i ==> #[trigger] t[j].letter != letter,
    ensures
        first_with_letter(t, letter) == Some(t[i]),
    decreases i,
{
    if i > 0 {
        assert(t[0].letter != letter);
        assert forall|j: int| 0 <= j < i - 1 implies #[trigger] t.drop_first()[j].letter != letter by {
            assert(t.drop_first()[j] == t[j + 1]);
        }
        lemma_first_with_letter_at(t.drop_first(), letter, i - 1);
    }
}

/// The letters of the presets, written out.
proof fn lemma_preset_letters()
    ensures
        spec_default_partition_layout()[0].letter == seq!['x'],
        spec_default_partition_layout()[1].letter == seq!['y'],
        spec_default_partition_layout()[2].letter == seq!['z'],
        spec_default_partition_layout()[3].letter == seq!['c'],
        spec_default_partition_layout()[4].letter == seq!['e'],
        spec_default_partition_layout()[5].letter == seq!['f'],
        spec_default_partition_layout()[6].letter == seq!['3', '6', '0', '_', 'p', '1'],
        spec_default_partition_layout()[7].letter == seq!['3', '6', '0', '_', 'p', '2'],
        spec_default_partition_layout()[8].letter == seq!['3', '6', '0', '_', 'p', '3'],
{
    reveal_strlit("x");
    reveal_strlit("y");
    reveal_strlit("z");
    reveal_strlit("c");
    reveal_strlit("e");
    reveal_strlit("f");
    reveal_strlit("360_p1");
    reveal_strlit("360_p2");
    reveal_strlit("360_p3");
    assert("x"@ =~= seq!['x']);
    assert("y"@ =~= seq!['y']);
    assert("z"@ =~= seq!['z']);
    assert("c"@ =~= seq!['c']);
    assert("e"@ =~= seq!['e']);
    assert("f"@ =~= seq!['f']);
    assert("360_p1"@ =~= seq!['3', '6', '0', '_', 'p', '1']);
    assert("360_p2"@ =~= seq!['3', '6', '0', '_', 'p', '2']);
    assert("360_p3"@ =~= seq!['3', '6', '0', '_', 'p', '3']);
}

/// Every preset partition is found by its own letter: no two presets share
/// a letter.
pub proof fn lemma_each_preset_found_by_letter(i: int)
    requires
        0 <= i < spec_default_partition_layout().len(),
    ensures
        first_with_letter(spec_default_partition_layout(), spec_default_partition_layout()[i].letter)
            == Some(spec_default_partition_layout()[i]),
{
    let t = spec_default_partition_layout();
    lemma_preset_letters();
    assert forall|j: int| 0 <= j < i implies #[trigger] t[j].letter != t[i].letter by {
        if t[j].letter == t[i].letter {
            assert(t[j].letter.len() == t[i].letter.len());
            assert(t[j].letter[0] == t[i].letter[0]);
            assert(t[j].letter[5] == t[i].letter[5]);
        }
    }
    lemma_first_with_letter_at(t, t[i].letter, i);
}

/// The Xbox Original partitions (the first six presets) lie back to back
/// on the disk, each starting where the one before it ends.
pub proof fn lemma_original_xbox_partitions_back_to_back(i: int)
    requires
        0 <= i < 5,
    ensures
        spec_default_partition_layout()[i].offset_bytes + spec_default_partition_layout()[i].size_bytes
            == spec_default_partition_layout()[i + 1].offset_bytes,
{
}

/// The Xbox 360 presets (the last three) do not overlap one another.
pub proof fn lemma_xbox360_partitions_disjoint(i: int, j: int)
    requires
        6 <= i < j < 9,
    ensures
        spec_default_partition_layout()[i].offset_bytes + spec_default_partition_layout()[i].size_bytes
            <= spec_default_partition_layout()[j].offset_bytes,
{
}

} // verus!

verus! {

/// The preset found for each letter, with its name, offset and size.
pub proof fn lemma_presets_by_letter()
    ensures
        first_with_letter(spec_default_partition_layout(), "x"@) == Some(
            (PartitionView { letter: "x"@, name: "Xbox Original X"@, offset_bytes: 0x00080000, size_bytes: 0x02ee00000 }),
        ),
        first_with_letter(spec_default_partition_layout(), "y"@) == Some(
            (PartitionView { letter: "y"@, name: "Xbox Original Y"@, offset_bytes: 0x2ee80000, size_bytes: 0x02ee00000 }),
        ),
        first_with_letter(spec_default_partition_layout(), "z"@) == Some(
            (PartitionView { letter: "z"@, name: "Xbox Original Z"@, offset_bytes: 0x5dc80000, size_bytes: 0x02ee00000 }),
        ),
        first_with_letter(spec_default_partition_layout(), "c"@) == Some(
            (PartitionView { letter: "c"@, name: "Xbox Original C"@, offset_bytes: 0x8ca80000, size_bytes: 0x01f400000 }),
        ),
        first_with_letter(spec_default_partition_layout(), "e"@) == Some(
            (PartitionView { letter: "e"@, name: "Xbox Original E (Data)"@, offset_bytes: 0xabe80000, size_bytes: 0x1312d6000 }),
        ),
        first_with_letter(spec_default_partition_layout(), "f"@) == Some(
            (PartitionView { letter: "f"@, name: "Xbox Original F"@, offset_bytes: 0x1dd156000, size_bytes: 0 }),
        ),
        first_with_letter(spec_default_partition_layout(), "360_p1"@) == Some(
            (PartitionView { letter: "360_p1"@, name: "Xbox 360 Partition 1 (Cache)"@, offset_bytes: 0x00110000, size_bytes: 0x80000000 }),
        ),
        first_with_letter(spec_default_partition_layout(), "360_p2"@) == Some(
            (PartitionView { letter: "360_p2"@, name: "Xbox 360 Partition 2 (System)"@, offset_bytes: 0x120EB0000, size_bytes: 0x10000000 }),
        ),
        first_with_letter(spec_default_partition_layout(), "360_p3"@) == Some(
            (PartitionView { letter: "360_p3"@, name: "Xbox 360 Partition 3 (Data)"@, offset_bytes: 0x130EB0000, size_bytes: 0x20000000000 }),
        ),
{
    lemma_each_preset_found_by_letter(0);
    lemma_each_preset_found_by_letter(1);
    lemma_each_preset_found_by_letter(2);
    lemma_each_preset_found_by_letter(3);
    lemma_each_preset_found_by_letter(4);
    lemma_each_preset_found_by_letter(5);
    lemma_each_preset_found_by_letter(6);
    lemma_each_preset_found_by_letter(7);
    lemma_each_preset_found_by_letter(8);
}

} // verus!
