use ulbox360::xiso::{copy_chunks, xiso_entry_kind, xiso_target_subdir, CopyChunk, XisoEntryKind};

#[test]
fn target_subdir_of_root_is_destination() {
    assert_eq!(xiso_target_subdir("/"), None);
    assert_eq!(xiso_target_subdir(""), None);
    assert_eq!(xiso_target_subdir("//"), None);
    assert_eq!(xiso_target_subdir("/media/sounds").as_deref(), Some("media/sounds"));
}

#[test]
fn empty_file_needs_no_read() {
    assert!(copy_chunks(100, 0, 65536).is_empty());
}

#[test]
fn chunks_fill_the_buffer_then_the_rest() {
    assert_eq!(
        copy_chunks(1000, 130, 64),
        vec![
            CopyChunk { image_offset: 1000, len: 64 },
            CopyChunk { image_offset: 1064, len: 64 },
            CopyChunk { image_offset: 1128, len: 2 },
        ]
    );
    assert_eq!(
        copy_chunks(0, 128, 64),
        vec![CopyChunk { image_offset: 0, len: 64 }, CopyChunk { image_offset: 64, len: 64 }]
    );
    assert_eq!(copy_chunks(5, 10, 65536), vec![CopyChunk { image_offset: 5, len: 10 }]);
}

#[test]
fn chunks_add_up_to_the_file() {
    let size = 3 * 65536 + 17;
    let chunks = copy_chunks(2048, size, 65536);
    assert_eq!(chunks.iter().map(|c| c.len).sum::<u64>(), size);
    for w in chunks.windows(2) {
        assert_eq!(w[0].image_offset + w[0].len, w[1].image_offset);
    }
}

#[test]
fn entry_kinds() {
    assert_eq!(xiso_entry_kind(true, 0), XisoEntryKind::Directory);
    assert_eq!(xiso_entry_kind(true, 10), XisoEntryKind::Directory);
    assert_eq!(xiso_entry_kind(false, 0), XisoEntryKind::EmptyFile);
    assert_eq!(xiso_entry_kind(false, 1), XisoEntryKind::DataFile);
}
