use fskey_search::scanner::{find_filesystem_magic, Endianness, FilesystemMatch, FsType};

fn buffer_with(len: usize, at: usize, bytes: &[u8]) -> Vec<u8> {
    let mut data = vec![0u8; len];
    data[at..at + bytes.len()].copy_from_slice(bytes);
    data
}

#[test]
fn short_buffers_yield_nothing() {
    assert!(find_filesystem_magic(&[]).is_empty());
    assert!(find_filesystem_magic(&[0x19]).is_empty());
    assert!(find_filesystem_magic(&[0x19, 0x85]).is_empty());
    assert!(find_filesystem_magic(&[0x19, 0x85, 0x00]).is_empty());
}

#[test]
fn squashfs_big_endian_at_offset_100() {
    let data = buffer_with(256, 100, &[0x68, 0x73, 0x71, 0x73]);
    let matches = find_filesystem_magic(&data);
    assert_eq!(
        matches,
        vec![FilesystemMatch { offset: 100, fs_type: FsType::Squashfs, endian: Endianness::Big }]
    );
}

#[test]
fn squashfs_little_endian_is_found() {
    let data = buffer_with(8, 4, &[0x73, 0x71, 0x73, 0x68]);
    assert_eq!(
        find_filesystem_magic(&data),
        vec![FilesystemMatch { offset: 4, fs_type: FsType::Squashfs, endian: Endianness::Little }]
    );
}

#[test]
fn cramfs_is_found_in_both_byte_orders() {
    let data = buffer_with(32, 3, &[0x28, 0xcd, 0x3d, 0x45]);
    assert_eq!(
        find_filesystem_magic(&data),
        vec![FilesystemMatch { offset: 3, fs_type: FsType::CramFS, endian: Endianness::Little }]
    );
    let data = buffer_with(32, 28, &[0x45, 0x3d, 0xcd, 0x28]);
    assert_eq!(
        find_filesystem_magic(&data),
        vec![FilesystemMatch { offset: 28, fs_type: FsType::CramFS, endian: Endianness::Big }]
    );
}

#[test]
fn jffs2_is_found_in_both_byte_orders() {
    let data = buffer_with(10, 0, &[0x19, 0x85]);
    assert_eq!(
        find_filesystem_magic(&data),
        vec![FilesystemMatch { offset: 0, fs_type: FsType::JFFS2, endian: Endianness::Little }]
    );
    let data = buffer_with(10, 6, &[0x85, 0x19]);
    assert_eq!(
        find_filesystem_magic(&data),
        vec![FilesystemMatch { offset: 6, fs_type: FsType::JFFS2, endian: Endianness::Big }]
    );
}

#[test]
fn exactly_four_bytes_are_scanned_at_offset_zero() {
    assert_eq!(
        find_filesystem_magic(&[0x68, 0x73, 0x71, 0x73]),
        vec![FilesystemMatch { offset: 0, fs_type: FsType::Squashfs, endian: Endianness::Big }]
    );
}

#[test]
fn two_byte_signature_in_the_last_three_bytes_is_not_examined() {
    let data = buffer_with(10, 8, &[0x19, 0x85]);
    assert!(find_filesystem_magic(&data).is_empty());
    let data = buffer_with(10, 7, &[0x19, 0x85]);
    assert!(find_filesystem_magic(&data).is_empty());
}

#[test]
fn scan_goes_on_after_a_match_and_reports_in_offset_order() {
    let mut data = vec![0u8; 40];
    data[2..6].copy_from_slice(&[0x45, 0x3d, 0xcd, 0x28]);
    data[6..8].copy_from_slice(&[0x85, 0x19]);
    data[10..14].copy_from_slice(&[0x73, 0x71, 0x73, 0x68]);
    data[20..22].copy_from_slice(&[0x19, 0x85]);
    data[30..34].copy_from_slice(&[0x68, 0x73, 0x71, 0x73]);
    assert_eq!(
        find_filesystem_magic(&data),
        vec![
            FilesystemMatch { offset: 2, fs_type: FsType::CramFS, endian: Endianness::Big },
            FilesystemMatch { offset: 6, fs_type: FsType::JFFS2, endian: Endianness::Big },
            FilesystemMatch { offset: 10, fs_type: FsType::Squashfs, endian: Endianness::Little },
            FilesystemMatch { offset: 20, fs_type: FsType::JFFS2, endian: Endianness::Little },
            FilesystemMatch { offset: 30, fs_type: FsType::Squashfs, endian: Endianness::Big },
        ]
    );
}

#[test]
fn overlapping_signatures_are_all_reported() {
    // 85 19 85 19: big-endian JFFS2 at 0 and 2, little-endian at 1.
    let data = [0x85, 0x19, 0x85, 0x19, 0x00, 0x00, 0x00];
    assert_eq!(
        find_filesystem_magic(&data),
        vec![
            FilesystemMatch { offset: 0, fs_type: FsType::JFFS2, endian: Endianness::Big },
            FilesystemMatch { offset: 1, fs_type: FsType::JFFS2, endian: Endianness::Little },
            FilesystemMatch { offset: 2, fs_type: FsType::JFFS2, endian: Endianness::Big },
        ]
    );
}

#[test]
fn scanning_twice_gives_the_same_matches() {
    let mut data = vec![0xabu8; 64];
    data[5..9].copy_from_slice(&[0x28, 0xcd, 0x3d, 0x45]);
    data[40..42].copy_from_slice(&[0x19, 0x85]);
    let first = find_filesystem_magic(&data);
    let second = find_filesystem_magic(&data);
    assert_eq!(first.len(), 2);
    assert_eq!(first, second);
}

#[test]
fn a_partial_signature_is_no_match() {
    let data = buffer_with(16, 4, &[0x73, 0x71, 0x73, 0x69]);
    assert!(find_filesystem_magic(&data).is_empty());
}

#[test]
fn names_for_reports() {
    assert_eq!(FsType::Squashfs.name(), "Squashfs");
    assert_eq!(FsType::CramFS.name(), "CramFS");
    assert_eq!(FsType::JFFS2.name(), "JFFS2");
    assert_eq!(Endianness::Little.name(), "Little Endian");
    assert_eq!(Endianness::Big.name(), "Big Endian");
}
