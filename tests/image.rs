use rs_disk_reader::{
    extract_file, read_boot_sector, read_entry_content, read_fat, read_root_directory, Directory,
    DirectoryEntry, Fat, ReadError, BOOT_SECTOR_SIZE, END_OF_CHAIN,
};

const SECTOR: usize = 512;
const FAT_AT: usize = SECTOR;
const ROOT_AT: usize = 2 * SECTOR;
const DATA_AT: usize = 3 * SECTOR;

/// A boot sector for 512-byte sectors, one sector per cluster, one reserved
/// sector, one table of one sector and a root directory of 16 entries.
fn boot_bytes() -> Vec<u8> {
    let mut b = vec![0u8; SECTOR];
    b[0..3].copy_from_slice(&[0xEB, 0x3C, 0x90]);
    b[3..11].copy_from_slice(b"MSWIN4.1");
    b[11..13].copy_from_slice(&512u16.to_le_bytes());
    b[13] = 1;
    b[14..16].copy_from_slice(&1u16.to_le_bytes());
    b[16] = 1;
    b[17..19].copy_from_slice(&16u16.to_le_bytes());
    b[19..21].copy_from_slice(&2880u16.to_le_bytes());
    b[21] = 0xF0;
    b[22..24].copy_from_slice(&1u16.to_le_bytes());
    b[24..26].copy_from_slice(&18u16.to_le_bytes());
    b[26..28].copy_from_slice(&2u16.to_le_bytes());
    b[28..32].copy_from_slice(&7u32.to_le_bytes());
    b[32..36].copy_from_slice(&0x0102_0304u32.to_le_bytes());
    b[36] = 0x80;
    b[37] = 0;
    b[38..42].copy_from_slice(&0xDEAD_BEEFu32.to_le_bytes());
    b[42..53].copy_from_slice(b"NO NAME    ");
    b[53..61].copy_from_slice(b"FAT12   ");
    b
}

/// Stores `value` as 12-bit entry `n` of the table that starts at `at`.
fn set_entry(image: &mut [u8], at: usize, n: usize, value: u16) {
    let i = at + n * 3 / 2;
    if n % 2 == 0 {
        image[i] = (value & 0xFF) as u8;
        image[i + 1] = (image[i + 1] & 0xF0) | ((value >> 8) as u8 & 0x0F);
    } else {
        image[i] = (image[i] & 0x0F) | (((value & 0x0F) as u8) << 4);
        image[i + 1] = (value >> 4) as u8;
    }
}

/// Writes a directory entry into slot `slot` of the root directory.
fn set_dir_entry(image: &mut [u8], slot: usize, name: &[u8; 11], first_cluster: u16, size: u32) {
    let at = ROOT_AT + 32 * slot;
    image[at..at + 11].copy_from_slice(name);
    image[at + 11] = 0x20;
    image[at + 26..at + 28].copy_from_slice(&first_cluster.to_le_bytes());
    image[at + 28..at + 32].copy_from_slice(&size.to_le_bytes());
}

/// An image with `clusters` data clusters after the root directory, each
/// filled with its own number.
fn image_with(clusters: usize) -> Vec<u8> {
    let mut image = boot_bytes();
    image.resize(DATA_AT + clusters * SECTOR, 0);
    set_entry(&mut image, FAT_AT, 0, 0xFF0);
    set_entry(&mut image, FAT_AT, 1, 0xFFF);
    for c in 0..clusters {
        let at = DATA_AT + c * SECTOR;
        for b in &mut image[at..at + SECTOR] {
            *b = (c + 2) as u8;
        }
    }
    image
}

fn pattern() -> Vec<u8> {
    (0..SECTOR).map(|i| (i * 7 % 251) as u8).collect()
}

#[test]
fn boot_sector_fields_are_read_in_order() {
    let image = boot_bytes();
    let bs = read_boot_sector(&image).unwrap();
    assert_eq!(bs.jump_instruction, [0xEB, 0x3C, 0x90]);
    assert_eq!(&bs.oem_id, b"MSWIN4.1");
    assert_eq!(bs.bytes_per_sector, 512);
    assert_eq!(bs.sectors_per_cluster, 1);
    assert_eq!(bs.reserved_sectors, 1);
    assert_eq!(bs.fat_count, 1);
    assert_eq!(bs.root_entries, 16);
    assert_eq!(bs.sector_count, 2880);
    assert_eq!(bs.media_descriptor, 0xF0);
    assert_eq!(bs.sectors_per_fat, 1);
    assert_eq!(bs.sectors_per_cylinder, 18);
    assert_eq!(bs.heads_count, 2);
    assert_eq!(bs.hidden_sectors_count, 7);
    assert_eq!(bs.large_sector_count, 0x0102_0304);
    assert_eq!(bs.drive_number, 0x80);
    assert_eq!(bs.reserved, 0);
    assert_eq!(bs.volume_id, 0xDEAD_BEEF);
    assert_eq!(&bs.volume_label, b"NO NAME    ");
    assert_eq!(&bs.system_id, b"FAT12   ");
}

#[test]
fn boot_sector_needs_all_its_bytes() {
    let image = boot_bytes();
    assert_eq!(BOOT_SECTOR_SIZE, 61);
    assert!(read_boot_sector(&image[..61]).is_ok());
    assert_eq!(read_boot_sector(&image[..60]).err(), Some(ReadError::TruncatedRead));
    assert_eq!(read_boot_sector(&[]).err(), Some(ReadError::TruncatedRead));
}

#[test]
fn derived_offsets() {
    let mut image = boot_bytes();
    image[13] = 4;
    image[16] = 2;
    image[22..24].copy_from_slice(&9u16.to_le_bytes());
    image[17..19].copy_from_slice(&224u16.to_le_bytes());
    let bs = read_boot_sector(&image).unwrap();
    assert_eq!(bs.get_fat_start(), 512);
    assert_eq!(bs.get_fat_size(), 9 * 512);
    assert_eq!(bs.get_root_dir_start(), 512 + 2 * 9 * 512);
    assert_eq!(bs.get_root_dir_size(), 224 * 32);
    assert_eq!(bs.get_cluster_region_start(), 512 + 2 * 9 * 512 + 224 * 32);
    assert_eq!(bs.get_cluster_size(), 4 * 512);
    assert_eq!(bs.get_cluster_start(5), 512 + 2 * 9 * 512 + 224 * 32 + 3 * 4 * 512);
}

#[test]
fn offsets_do_not_wrap_at_the_largest_fields() {
    let mut image = boot_bytes();
    image[11..13].copy_from_slice(&0xFFFFu16.to_le_bytes());
    image[13] = 0xFF;
    image[14..16].copy_from_slice(&0xFFFFu16.to_le_bytes());
    image[16] = 0xFF;
    image[17..19].copy_from_slice(&0xFFFFu16.to_le_bytes());
    image[22..24].copy_from_slice(&0xFFFFu16.to_le_bytes());
    let bs = read_boot_sector(&image).unwrap();
    let sq: u64 = 0xFFFF * 0xFFFF;
    assert_eq!(bs.get_fat_start(), sq);
    assert_eq!(bs.get_root_dir_start(), sq + sq * 0xFF);
    assert_eq!(bs.get_cluster_start(0xFFFF), sq + sq * 0xFF + 0xFFFF * 32 + 0xFF * 0xFFFF * 0xFFFD);
}

#[test]
fn first_cluster_starts_the_data_region() {
    let bs = read_boot_sector(&boot_bytes()).unwrap();
    assert_eq!(bs.get_cluster_start(2), bs.get_cluster_region_start());
    assert_eq!(bs.get_cluster_start(2), DATA_AT as u64);
}

#[test]
fn even_entry_takes_the_low_twelve_bits() {
    let fat = Fat::new(vec![0x34, 0x12]);
    assert_eq!(fat.get_entry(0), 0x234);
}

#[test]
fn odd_entry_takes_the_high_twelve_bits() {
    let fat = Fat::new(vec![0x34, 0x12, 0xAB]);
    assert_eq!(fat.get_entry(0), 0x234);
    assert_eq!(fat.get_entry(1), 0xAB1);
}

#[test]
fn entries_round_trip_through_the_packing() {
    let mut bytes = vec![0u8; 12];
    let values = [0xFF0, 0xFFF, 0x003, 0xFF8, 0x000, 0xFF7, 0x123, 0xABC];
    for (n, v) in values.iter().enumerate() {
        set_entry(&mut bytes, 0, n, *v);
    }
    let fat = Fat::new(bytes);
    assert_eq!(fat.capacity(), 8);
    for (n, v) in values.iter().enumerate() {
        assert!(fat.has_entry(n));
        assert_eq!(fat.get_entry(n), *v);
    }
    assert!(!fat.has_entry(8));
}

#[test]
fn capacity_counts_whole_entries() {
    assert_eq!(Fat::new(vec![0; 0]).capacity(), 0);
    assert_eq!(Fat::new(vec![0; 2]).capacity(), 1);
    assert_eq!(Fat::new(vec![0; 3]).capacity(), 2);
    assert_eq!(Fat::new(vec![0; 4]).capacity(), 2);
    assert_eq!(Fat::new(vec![0; 5]).capacity(), 3);
    assert_eq!(Fat::new(vec![0; 512]).capacity(), 341);
    assert!(!Fat::new(vec![0; 1]).has_entry(0));
    assert!(Fat::new(vec![0; 2]).has_entry(0));
    assert!(!Fat::new(vec![0; 2]).has_entry(1));
}

#[test]
fn read_fat_copies_the_first_table() {
    let mut image = image_with(1);
    set_entry(&mut image, FAT_AT, 2, 0xFF8);
    let bs = read_boot_sector(&image).unwrap();
    let fat = read_fat(&image, &bs).unwrap();
    assert_eq!(fat.byte_len(), 512);
    assert_eq!(fat.get_entry(0), 0xFF0);
    assert_eq!(fat.get_entry(1), 0xFFF);
    assert_eq!(fat.get_entry(2), 0xFF8);
    assert!(read_fat(&image[..1023], &bs).is_err());
}

fn entry_named(name: &[u8; 11]) -> DirectoryEntry {
    DirectoryEntry {
        name: *name,
        attributes: 0,
        reserved: 0,
        creation_time_tenths: 0,
        creation_time: 0,
        creation_date: 0,
        last_access_date: 0,
        upper_first_cluster: 0,
        last_change_time: 0,
        last_change_date: 0,
        lower_first_cluster: 2,
        file_size: 0,
    }
}

#[test]
fn lookup_finds_the_first_exact_name() {
    let mut second = entry_named(b"FILE    TXT");
    second.lower_first_cluster = 9;
    let mut third = entry_named(b"FILE    TXT");
    third.lower_first_cluster = 10;
    let dir = Directory::new(vec![entry_named(b"OTHER   BIN"), second, third]);
    assert_eq!(dir.len(), 3);
    assert_eq!(dir.find(b"FILE    TXT"), Some(1));
    assert_eq!(dir.get_entry("FILE    TXT").unwrap().lower_first_cluster, 9);
}

#[test]
fn lookup_stops_at_the_end_marker() {
    let mut end = entry_named(b"GONE    TXT");
    end.name[0] = 0;
    let dir = Directory::new(vec![entry_named(b"OTHER   BIN"), end, entry_named(b"LATER   TXT")]);
    assert!(dir.get_entry("LATER   TXT").is_none());
    assert!(dir.get_entry("OTHER   BIN").is_some());
}

#[test]
fn lookup_needs_the_padding() {
    let dir = Directory::new(vec![entry_named(b"FILE    TXT")]);
    assert!(dir.get_entry("FILE.TXT").is_none());
    assert!(dir.get_entry("FILE TXT").is_none());
    assert!(dir.get_entry("FILE    TX").is_none());
    assert!(dir.get_entry("FILE    TXT ").is_none());
    assert!(dir.get_entry("file    txt").is_none());
    assert!(dir.get_entry("FILE    TXT").is_some());
}

#[test]
fn lookup_in_empty_directory() {
    let dir = Directory::new(vec![]);
    assert!(dir.get_entry("FILE    TXT").is_none());
}

#[test]
fn root_directory_is_read_entry_by_entry() {
    let mut image = image_with(1);
    set_dir_entry(&mut image, 0, b"A       TXT", 2, 10);
    set_dir_entry(&mut image, 1, b"B       TXT", 3, 20);
    let bs = read_boot_sector(&image).unwrap();
    let dir = read_root_directory(&image, &bs).unwrap();
    assert_eq!(dir.len(), 16);
    let b = dir.get_entry("B       TXT").unwrap();
    assert_eq!(b.lower_first_cluster, 3);
    assert_eq!(b.file_size, 20);
    assert_eq!(b.attributes, 0x20);
    assert_eq!(read_root_directory(&image[..ROOT_AT + 511], &bs).err(), Some(ReadError::TruncatedRead));
}

#[test]
fn single_cluster_file_is_extracted() {
    let mut image = image_with(1);
    set_entry(&mut image, FAT_AT, 2, 0xFF8);
    set_dir_entry(&mut image, 0, b"FILE    TXT", 2, 512);
    image[DATA_AT..DATA_AT + SECTOR].copy_from_slice(&pattern());
    assert_eq!(extract_file(&image, "FILE    TXT").unwrap(), pattern());
}

#[test]
fn two_cluster_chain_is_read_in_order() {
    let mut image = image_with(2);
    set_entry(&mut image, FAT_AT, 2, 3);
    set_entry(&mut image, FAT_AT, 3, 0xFFF);
    set_dir_entry(&mut image, 0, b"FILE    TXT", 2, 1000);
    let content = extract_file(&image, "FILE    TXT").unwrap();
    let mut expected = vec![2u8; SECTOR];
    expected.extend(vec![3u8; SECTOR]);
    assert_eq!(content, expected);
}

#[test]
fn chain_order_is_traversal_order_not_allocation_order() {
    let mut image = image_with(3);
    set_entry(&mut image, FAT_AT, 4, 2);
    set_entry(&mut image, FAT_AT, 2, END_OF_CHAIN);
    set_dir_entry(&mut image, 0, b"FILE    TXT", 4, 1024);
    let content = extract_file(&image, "FILE    TXT").unwrap();
    let mut expected = vec![4u8; SECTOR];
    expected.extend(vec![2u8; SECTOR]);
    assert_eq!(content, expected);
}

#[test]
fn content_is_whole_clusters() {
    let mut image = boot_bytes();
    image[13] = 2;
    image.resize(DATA_AT + 3 * 2 * SECTOR, 0);
    set_entry(&mut image, FAT_AT, 2, 3);
    set_entry(&mut image, FAT_AT, 3, 4);
    set_entry(&mut image, FAT_AT, 4, 0xFFA);
    set_dir_entry(&mut image, 0, b"SMALL   TXT", 2, 1);
    let content = extract_file(&image, "SMALL   TXT").unwrap();
    assert_eq!(content.len(), 3 * 2 * SECTOR);
}

#[test]
fn empty_file_still_reads_its_first_cluster() {
    let mut image = image_with(1);
    set_entry(&mut image, FAT_AT, 2, 0xFF8);
    set_dir_entry(&mut image, 0, b"EMPTY   TXT", 2, 0);
    assert_eq!(extract_file(&image, "EMPTY   TXT").unwrap(), vec![2u8; SECTOR]);
}

#[test]
fn missing_file_is_not_found() {
    let mut image = image_with(1);
    set_entry(&mut image, FAT_AT, 2, 0xFF8);
    set_dir_entry(&mut image, 0, b"FILE    TXT", 2, 512);
    assert_eq!(extract_file(&image, "NOPE    TXT"), Err(ReadError::EntryNotFound));
    assert_eq!(extract_file(&image, "FILE.TXT"), Err(ReadError::EntryNotFound));
}

#[test]
fn name_after_end_marker_is_not_found() {
    let mut image = image_with(1);
    set_entry(&mut image, FAT_AT, 2, 0xFF8);
    set_dir_entry(&mut image, 1, b"LATER   TXT", 2, 512);
    assert_eq!(extract_file(&image, "LATER   TXT"), Err(ReadError::EntryNotFound));
}

#[test]
fn truncated_images_are_reported() {
    let mut image = image_with(2);
    set_entry(&mut image, FAT_AT, 2, 3);
    set_entry(&mut image, FAT_AT, 3, 0xFF8);
    set_dir_entry(&mut image, 0, b"FILE    TXT", 2, 1024);
    assert_eq!(extract_file(&image[..40], "FILE    TXT"), Err(ReadError::TruncatedRead));
    assert_eq!(extract_file(&image[..1000], "FILE    TXT"), Err(ReadError::TruncatedRead));
    assert_eq!(extract_file(&image[..ROOT_AT + 100], "FILE    TXT"), Err(ReadError::TruncatedRead));
    assert_eq!(extract_file(&image[..DATA_AT + 700], "FILE    TXT"), Err(ReadError::TruncatedRead));
    assert_eq!(extract_file(&image, "FILE    TXT").unwrap().len(), 1024);
}

#[test]
fn reserved_clusters_are_bad_references() {
    let mut image = image_with(2);
    set_entry(&mut image, FAT_AT, 2, 1);
    set_dir_entry(&mut image, 0, b"ZERO    TXT", 0, 0);
    set_dir_entry(&mut image, 1, b"LINK    TXT", 2, 0);
    assert_eq!(extract_file(&image, "ZERO    TXT"), Err(ReadError::BadCluster));
    assert_eq!(extract_file(&image, "LINK    TXT"), Err(ReadError::BadCluster));
}

#[test]
fn cluster_past_the_table_is_a_bad_reference() {
    let mut image = image_with(1);
    set_dir_entry(&mut image, 0, b"FAR     TXT", 341, 0);
    assert_eq!(extract_file(&image, "FAR     TXT"), Err(ReadError::BadCluster));
}

#[test]
fn looping_chain_is_reported() {
    let mut image = image_with(2);
    set_entry(&mut image, FAT_AT, 2, 3);
    set_entry(&mut image, FAT_AT, 3, 2);
    set_dir_entry(&mut image, 0, b"LOOP    TXT", 2, 0);
    assert_eq!(extract_file(&image, "LOOP    TXT"), Err(ReadError::CyclicChain));
}

#[test]
fn entry_content_follows_the_given_entry() {
    let mut image = image_with(2);
    set_entry(&mut image, FAT_AT, 3, 0xFF8);
    let bs = read_boot_sector(&image).unwrap();
    let fat = read_fat(&image, &bs).unwrap();
    let mut entry = entry_named(b"X       BIN");
    entry.lower_first_cluster = 3;
    assert_eq!(read_entry_content(&image, &entry, &fat, &bs).unwrap(), vec![3u8; SECTOR]);
}
