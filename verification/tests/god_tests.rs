use ulbox360::god::{
    con_header_sizes, div_ceil, game_title_or_unknown, god_data_size, mht_chain_order,
    plan_god_layout, title_id_hex, ConHeaderSizes, GodLayout,
};

const BLOCK: u64 = 0x1000;
const PER_PART: u64 = 0xa1c4;

#[test]
fn title_id_is_eight_upper_hex_digits() {
    assert_eq!(title_id_hex(0x4D5307E6), "4D5307E6");
    assert_eq!(title_id_hex(0), "00000000");
    assert_eq!(title_id_hex(0xABCDEF01), "ABCDEF01");
    assert_eq!(title_id_hex(0x1F), "0000001F");
    for id in [0u32, 1, 0xFFFF_FFFF, 0x1234_5678, 0x0BAD_F00D] {
        assert_eq!(title_id_hex(id), format!("{:08X}", id));
    }
}

#[test]
fn different_ids_format_differently() {
    assert_ne!(title_id_hex(0x10), title_id_hex(0x01));
}

#[test]
fn unknown_game_title() {
    assert_eq!(game_title_or_unknown(None), "Unknown Game");
    assert_eq!(game_title_or_unknown(Some("Halo 3".to_string())), "Halo 3");
}

#[test]
fn data_size_trim_or_full() {
    assert_eq!(god_data_size(true, 1234, 99999, 500), 1234);
    assert_eq!(god_data_size(false, 1234, 99999, 500), 99499);
}

#[test]
fn ceiling_division() {
    assert_eq!(div_ceil(0, 7), 0);
    assert_eq!(div_ceil(7, 7), 1);
    assert_eq!(div_ceil(8, 7), 2);
    assert_eq!(div_ceil(u64::MAX, 2), u64::MAX / 2 + 1);
    for a in [0u64, 1, 4095, 4096, 4097, 1 << 40] {
        assert_eq!(div_ceil(a, BLOCK), a.div_ceil(BLOCK));
    }
}

#[test]
fn layout_of_small_and_multi_part_images() {
    assert_eq!(plan_god_layout(0, BLOCK, PER_PART), GodLayout { block_count: 0, part_count: 0 });
    assert_eq!(plan_god_layout(1, BLOCK, PER_PART), GodLayout { block_count: 1, part_count: 1 });
    assert_eq!(plan_god_layout(BLOCK * PER_PART, BLOCK, PER_PART), GodLayout { block_count: PER_PART, part_count: 1 });
    assert_eq!(
        plan_god_layout(BLOCK * PER_PART + 1, BLOCK, PER_PART),
        GodLayout { block_count: PER_PART + 1, part_count: 2 }
    );
}

#[test]
fn layout_is_tight() {
    for size in [1u64, 4095, 4096, 4097, 7_838_695_424] {
        let l = plan_god_layout(size, BLOCK, PER_PART);
        assert!(l.block_count * BLOCK >= size);
        assert!((l.block_count - 1) * BLOCK < size);
        assert!(l.part_count * PER_PART >= l.block_count);
        assert!((l.part_count - 1) * PER_PART < l.block_count);
    }
}

#[test]
fn mht_chain_goes_from_second_to_last_down() {
    assert_eq!(mht_chain_order(1), Vec::<u64>::new());
    assert_eq!(mht_chain_order(4), vec![2, 1, 0]);
}

#[test]
fn con_header_sizes_count_full_parts() {
    let l = GodLayout { block_count: PER_PART + 5, part_count: 2 };
    assert_eq!(
        con_header_sizes(l, 777, BLOCK),
        ConHeaderSizes { block_count: (PER_PART + 5) as u32, part_count: 2, data_parts_size: 777 + BLOCK * 0xa290 }
    );
    let one = GodLayout { block_count: 3, part_count: 1 };
    assert_eq!(con_header_sizes(one, 12345, BLOCK).data_parts_size, 12345);
}
