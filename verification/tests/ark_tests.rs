use dtacheck::ark::AmpArchive;
use dtacheck::ark::AmpFileEntry;
use dtacheck::ark::ArkKind;
use dtacheck::ark::FreqArchive;
use dtacheck::ark::classify_ark_version;
use dtacheck::art::swap_art_bytes;

#[test]
fn amp_file_entry_new_is_zeroed() {
    let e = AmpFileEntry::new();
    assert_eq!(e.offset, 0);
    assert_eq!(e.file_name_idx, 0);
    assert_eq!(e.folder_name_idx, 0);
    assert_eq!(e.size, 0);
    assert_eq!(e.inflated_size, 0);
}

#[test]
fn amp_archive_new_is_empty() {
    let a = AmpArchive::new();
    assert_eq!(a.version, 0);
    assert_eq!(a.entry_ct, 0);
    assert!(a.entries.is_empty());
    assert_eq!(a.str_table_size, 0);
    assert!(a.string_table.is_empty());
    assert_eq!(a.string_idx_count, 0);
    assert!(a.string_idx_entries.is_empty());
}

#[test]
fn freq_archive_new_has_expected_constants() {
    let f = FreqArchive::new();
    assert_eq!(f.magic, 0x204B5241);
    assert_eq!(f.version, 0);
    assert_eq!(f.file_entry_offset, 256);
    assert_eq!(f.file_entry_count, 0);
    assert_eq!(f.folder_entry_offset, 0);
    assert_eq!(f.folder_entry_count, 0);
    assert_eq!(f.string_table_offset, 0);
    assert_eq!(f.string_count, 0);
    assert_eq!(f.total_hdr_size, 40);
    assert_eq!(f.block_size, 2048);
}

#[test]
fn classify_ark_version_dispatch() {
    assert_eq!(classify_ark_version(0x004B5241), ArkKind::Freq);
    assert_eq!(classify_ark_version(0), ArkKind::Amp);
    assert_eq!(classify_ark_version(1), ArkKind::Amp);
    assert_eq!(classify_ark_version(2), ArkKind::Amp);
    assert_eq!(classify_ark_version(3), ArkKind::Unknown);
    assert_eq!(classify_ark_version(0xFFFFFFFF), ArkKind::Unknown);
}

#[test]
fn swap_art_bytes_swaps_pairs_after_the_header() {
    let mut buf: Vec<u8> = (0u8..36u8).collect();
    swap_art_bytes(&mut buf);
    for i in 0..32u8 {
        assert_eq!(buf[i as usize], i);
    }
    assert_eq!(&buf[32..], &[33, 32, 35, 34]);
}

#[test]
fn swap_art_bytes_leaves_short_buffers_alone() {
    let mut buf: Vec<u8> = (0u8..20u8).collect();
    swap_art_bytes(&mut buf);
    assert_eq!(buf, (0u8..20u8).collect::<Vec<u8>>());
}
