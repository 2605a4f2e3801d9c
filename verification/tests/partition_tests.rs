use ulbox360::partition::{default_partition_layout, PartitionMapEntry};

#[test]
fn from_letter_finds_original_xbox_data_partition() {
    let e = PartitionMapEntry::from_letter("e").unwrap();
    assert_eq!(e.letter, "e");
    assert_eq!(e.name, "Xbox Original E (Data)");
    assert_eq!(e.offset_bytes, 0xabe80000);
    assert_eq!(e.size_bytes, 0x1312d6000);
}

#[test]
fn from_letter_finds_xbox360_data_partition() {
    let e = PartitionMapEntry::from_letter("360_p3").unwrap();
    assert_eq!(e.name, "Xbox 360 Partition 3 (Data)");
    assert_eq!(e.offset_bytes, 0x130EB0000);
    assert_eq!(e.size_bytes, 0x20000000000);
}

#[test]
fn from_letter_unknown_is_none() {
    assert!(PartitionMapEntry::from_letter("q").is_none());
    assert!(PartitionMapEntry::from_letter("").is_none());
    assert!(PartitionMapEntry::from_letter("360_p").is_none());
    assert!(PartitionMapEntry::from_letter("X").is_none());
}

#[test]
fn every_preset_is_found_by_its_letter() {
    let table = default_partition_layout();
    assert_eq!(table.len(), 9);
    for entry in table.iter() {
        let found = PartitionMapEntry::from_letter(entry.letter).unwrap();
        assert_eq!(found.name, entry.name);
        assert_eq!(found.offset_bytes, entry.offset_bytes);
    }
}

#[test]
fn default_layout_order_and_values() {
    let table = default_partition_layout();
    let letters: Vec<&str> = table.iter().map(|e| e.letter).collect();
    assert_eq!(letters, vec!["x", "y", "z", "c", "e", "f", "360_p1", "360_p2", "360_p3"]);
    assert_eq!(table[0].offset_bytes, 0x00080000);
    assert_eq!(table[6].size_bytes, 0x80000000);
    assert_eq!(table[7].offset_bytes, 0x120EB0000);
}

#[test]
fn original_xbox_partitions_are_back_to_back() {
    let table = default_partition_layout();
    for i in 0..5 {
        assert_eq!(table[i].offset_bytes + table[i].size_bytes, table[i + 1].offset_bytes);
    }
}

#[test]
fn xbox360_partitions_do_not_overlap() {
    let table = default_partition_layout();
    for i in 6..9 {
        for j in (i + 1)..9 {
            assert!(table[i].offset_bytes + table[i].size_bytes <= table[j].offset_bytes);
        }
    }
}

#[test]
fn from_letter_finds_original_xbox_f_partition() {
    let f = PartitionMapEntry::from_letter("f").unwrap();
    assert_eq!(f.letter, "f");
    assert_eq!(f.name, "Xbox Original F");
    assert_eq!(f.offset_bytes, 0x1DD156000);
    assert_eq!(f.size_bytes, 0);
    let e = PartitionMapEntry::from_letter("e").unwrap();
    assert_eq!(e.offset_bytes + e.size_bytes, f.offset_bytes);
}
