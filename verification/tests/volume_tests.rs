use rom_manager::directory_record::DirectoryRecord;
use rom_manager::directory_record::DirectoryRecordError;
use rom_manager::primary_volume_descriptor::PrimaryVolumeDescriptor;
use rom_manager::volume::CDROMXAVolume;
use rom_manager::volume::Sector;
use rom_manager::volume::VolumeDescriptorType;
use rom_manager::volume::VolumeError;

const SECTOR: usize = 2352;

const XA_HEADER: [u8; 24] = [
    0x00, 0xFF, 0xFF, 0xFF, 0xFF, 0xFF, 0xFF, 0xFF, 0xFF, 0xFF, 0xFF, 0x00, 0x00, 0x02, 0x16,
    0x02, 0x00, 0x00, 0x09, 0x00, 0x00, 0x00, 0x09, 0x00,
];

fn put_both_endian_u16(img: &mut [u8], off: usize, v: u16) {
    img[off..off + 2].copy_from_slice(&v.to_le_bytes());
    img[off + 2..off + 4].copy_from_slice(&v.to_be_bytes());
}

fn put_both_endian_u32(img: &mut [u8], off: usize, v: u32) {
    img[off..off + 4].copy_from_slice(&v.to_le_bytes());
    img[off + 4..off + 8].copy_from_slice(&v.to_be_bytes());
}

fn put_text(img: &mut [u8], begin: usize, end: usize, text: &[u8]) {
    for b in img[begin..end].iter_mut() {
        *b = 32;
    }
    img[begin..begin + text.len()].copy_from_slice(text);
}

/// Writes one directory record at `off` and returns its total length.
fn put_record(
    img: &mut [u8],
    off: usize,
    location: u32,
    data_length: u32,
    flags: u8,
    id: &[u8],
) -> usize {
    let length = {
        let raw = 33 + id.len();
        raw + raw % 2
    };
    img[off] = length as u8;
    img[off + 1] = 0;
    put_both_endian_u32(img, off + 2, location);
    put_both_endian_u32(img, off + 10, data_length);
    img[off + 18..off + 25].copy_from_slice(&[0x62, 0x08, 0x0D, 0x10, 0x38, 0x05, 0x24]);
    img[off + 25] = flags;
    img[off + 26] = 0;
    img[off + 27] = 0;
    put_both_endian_u16(img, off + 28, 1);
    img[off + 32] = id.len() as u8;
    img[off + 33..off + 33 + id.len()].copy_from_slice(id);
    length
}

/// A small, well-formed volume image: a primary volume descriptor in sector
/// 16, a set terminator in sector 17, the root directory in sector 22 with a
/// `SOURCE` subdirectory (sector 23) and a `DATA.BIN` file (sector 24).
fn build_volume_image() -> Vec<u8> {
    let mut img = vec![0_u8; SECTOR * 26];

    let base = 16 * SECTOR;
    img[base..base + 24].copy_from_slice(&XA_HEADER);
    let p = base + 24;
    img[p] = 1; // primary descriptor tag
    img[p + 1..p + 6].copy_from_slice(b"CD001");
    put_text(&mut img, p + 40, p + 72, b"TESTVOL");
    put_both_endian_u32(&mut img, p + 80, 26);
    put_both_endian_u16(&mut img, p + 128, 2048);
    img[p + 140..p + 144].copy_from_slice(&19_u32.to_le_bytes());
    put_record(&mut img, p + 156, 22, 2048, 2, &[0]);
    put_text(&mut img, p + 318, p + 446, b"PUBLISHER");
    put_text(&mut img, p + 574, p + 702, b"APP");

    img[17 * SECTOR + 24] = 255; // set terminator tag

    // Root directory content in sector 22.
    let root = 22 * SECTOR + 24;
    let first = put_record(&mut img, root, 23, 2048, 2, b"SOURCE");
    put_record(&mut img, root + first, 24, 1000, 0, b"DATA.BIN;1");

    // The SOURCE directory content in sector 23.
    put_record(&mut img, 23 * SECTOR + 24, 25, 10, 0, b"SOURCE.TRD;1");

    // The DATA.BIN content in sector 24.
    let data = 24 * SECTOR + 24;
    for i in 0..1000 {
        img[data + i] = (i % 251) as u8;
    }

    img
}

fn find_entry(records: &[DirectoryRecord], name: &str) -> DirectoryRecord {
    for r in records.iter() {
        if r.file_identifier_as_string().unwrap() == name {
            return *r;
        }
    }
    panic!("entry not found");
}

#[test]
fn magic_check_rejects_wrong_tag() {
    let buf = vec![0_u8; SECTOR];
    let err = PrimaryVolumeDescriptor::try_from_buffer(&buf, 5000).unwrap_err();
    assert_eq!(err, VolumeError::MagicMismatch { offset: 5000 });
}

#[test]
fn known_good_volume_scans_and_decodes() {
    let volume = CDROMXAVolume::new(build_volume_image());
    let locations = volume.read_volume_descriptor_locations().unwrap();
    assert_eq!(locations.len(), 2);
    assert_eq!(locations[0].descriptor_type, VolumeDescriptorType::Primary);
    assert_eq!(locations[0].descriptor_offset, (16 * SECTOR + 24) as u64);
    assert_eq!(locations[1].descriptor_type, VolumeDescriptorType::SetTerminator);
    assert_eq!(locations[1].descriptor_offset, (17 * SECTOR + 24) as u64);

    let pvd = volume.read_primary_volume_descriptor(&locations).unwrap();
    assert_eq!(pvd.volume_identifier, "TESTVOL");
    assert_eq!(pvd.volume_space_size, 26);
    assert_eq!(pvd.logical_block_size, 2048);
    assert_eq!(pvd.location_of_type_l_path_table, 19);
    assert_eq!(pvd.publisher_identifier, "PUBLISHER");
    assert_eq!(pvd.application_identifier, "APP");

    let root = &pvd.directory_record_for_root_directory;
    assert_eq!(root.length, 34);
    assert_eq!(root.location_of_extent, 22);
    assert_eq!(root.data_length, 2048);
    assert!(root.is_dir());
    assert_eq!(root.recording_date_and_time_formatted(), "1998-08-13 16:56:05");
}

#[test]
fn listing_and_lookup_find_nested_entry() {
    let volume = CDROMXAVolume::new(build_volume_image());
    let locations = volume.read_volume_descriptor_locations().unwrap();
    let pvd = volume.read_primary_volume_descriptor(&locations).unwrap();

    let records = volume
        .read_directory_records(&pvd.directory_record_for_root_directory, pvd.logical_block_size)
        .unwrap();
    assert_eq!(records.len(), 2);
    assert_eq!(records[0].file_identifier_as_string().unwrap(), "SOURCE");
    assert!(records[0].is_dir());
    assert_eq!(records[1].file_identifier_as_string().unwrap(), "DATA.BIN");

    let source_records = volume
        .read_directory_records(&records[0], pvd.logical_block_size)
        .unwrap();
    assert_eq!(source_records.len(), 1);
    assert_eq!(
        source_records[0].file_identifier_as_string().unwrap(),
        "SOURCE.TRD"
    );
    assert!(!source_records[0].is_dir());
    assert_eq!(source_records[0].file_version(), 1);
}

#[test]
fn read_and_replace_are_symmetric() {
    let mut volume = CDROMXAVolume::new(build_volume_image());
    let locations = volume.read_volume_descriptor_locations().unwrap();
    let pvd = volume.read_primary_volume_descriptor(&locations).unwrap();
    let records = volume
        .read_directory_records(&pvd.directory_record_for_root_directory, pvd.logical_block_size)
        .unwrap();
    let entry = find_entry(&records, "DATA.BIN");
    assert_eq!(entry.data_length, 1000);

    let content = volume
        .read_directory_record_data(&entry, pvd.logical_block_size)
        .unwrap();
    assert_eq!(content.len(), 1000);
    let expected: Vec<u8> = (0..1000).map(|i| (i % 251) as u8).collect();
    assert_eq!(content, expected);

    let replacement: Vec<u8> = (0..1000).map(|i| (i % 13) as u8).collect();
    volume
        .replace_file(&entry, pvd.logical_block_size, &replacement)
        .unwrap();
    let back = volume
        .read_directory_record_data(&entry, pvd.logical_block_size)
        .unwrap();
    assert_eq!(back, replacement);
}

#[test]
fn scan_reports_unsupported_descriptor_type() {
    let mut img = vec![0_u8; SECTOR * 18];
    img[16 * SECTOR + 24] = 7;
    let volume = CDROMXAVolume::new(img);
    let err = volume.read_volume_descriptor_locations().unwrap_err();
    assert_eq!(err, VolumeError::UnsupportedDescriptorType { value: 7 });
}

#[test]
fn scan_reports_missing_terminator_as_out_of_bounds() {
    let volume = CDROMXAVolume::new(vec![0_u8; 1000]);
    let err = volume.read_volume_descriptor_locations().unwrap_err();
    assert_eq!(
        err,
        VolumeError::OutOfBounds { offset: (16 * SECTOR + 24) as u64 }
    );
}

#[test]
fn missing_primary_descriptor_is_reported() {
    let volume = CDROMXAVolume::new(vec![0_u8; 1000]);
    let err = volume.read_primary_volume_descriptor(&Vec::new()).unwrap_err();
    assert_eq!(err, VolumeError::NoPrimaryVolumeDescriptor);
}

#[test]
fn reading_content_of_a_directory_is_refused() {
    let volume = CDROMXAVolume::new(build_volume_image());
    let locations = volume.read_volume_descriptor_locations().unwrap();
    let pvd = volume.read_primary_volume_descriptor(&locations).unwrap();
    let err = volume
        .read_directory_record_data(&pvd.directory_record_for_root_directory, 2048)
        .unwrap_err();
    assert_eq!(err, VolumeError::NotAFile);
}

#[test]
fn listing_a_file_is_refused() {
    let volume = CDROMXAVolume::new(build_volume_image());
    let locations = volume.read_volume_descriptor_locations().unwrap();
    let pvd = volume.read_primary_volume_descriptor(&locations).unwrap();
    let records = volume
        .read_directory_records(&pvd.directory_record_for_root_directory, 2048)
        .unwrap();
    let entry = find_entry(&records, "DATA.BIN");
    let err = volume.read_directory_records(&entry, 2048).unwrap_err();
    assert_eq!(err, VolumeError::NotADirectory);
}

#[test]
fn nonpositive_block_size_is_refused() {
    let volume = CDROMXAVolume::new(build_volume_image());
    let locations = volume.read_volume_descriptor_locations().unwrap();
    let pvd = volume.read_primary_volume_descriptor(&locations).unwrap();
    let records = volume
        .read_directory_records(&pvd.directory_record_for_root_directory, 2048)
        .unwrap();
    let entry = find_entry(&records, "DATA.BIN");
    let err = volume.read_directory_record_data(&entry, 0).unwrap_err();
    assert_eq!(err, VolumeError::UnsupportedBlockSize { value: 0 });
    let err = volume.read_directory_record_data(&entry, -5).unwrap_err();
    assert_eq!(err, VolumeError::UnsupportedBlockSize { value: -5 });
}

#[test]
fn negative_extent_is_refused() {
    let volume = CDROMXAVolume::new(build_volume_image());
    let locations = volume.read_volume_descriptor_locations().unwrap();
    let pvd = volume.read_primary_volume_descriptor(&locations).unwrap();
    let records = volume
        .read_directory_records(&pvd.directory_record_for_root_directory, 2048)
        .unwrap();
    let mut entry = find_entry(&records, "DATA.BIN");
    entry.location_of_extent = -1;
    let err = volume.read_directory_record_data(&entry, 2048).unwrap_err();
    assert_eq!(
        err,
        VolumeError::InvalidExtent { location: -1, data_length: 1000 }
    );
}

#[test]
fn reading_past_the_image_end_is_reported() {
    let volume = CDROMXAVolume::new(build_volume_image());
    let locations = volume.read_volume_descriptor_locations().unwrap();
    let pvd = volume.read_primary_volume_descriptor(&locations).unwrap();
    let records = volume
        .read_directory_records(&pvd.directory_record_for_root_directory, 2048)
        .unwrap();
    let mut entry = find_entry(&records, "DATA.BIN");
    entry.location_of_extent = 40; // far past the 26 sectors of the image
    let err = volume.read_directory_record_data(&entry, 2048).unwrap_err();
    assert_eq!(
        err,
        VolumeError::OutOfBounds { offset: (40 * SECTOR + 24) as u64 }
    );
}

#[test]
fn malformed_record_aborts_a_listing() {
    let mut img = build_volume_image();
    // The root directory's first record claims a longer identifier tail
    // than its own length holds.
    let root = 22 * SECTOR + 24;
    img[root + 32] = 50;
    let volume = CDROMXAVolume::new(img);
    let locations = volume.read_volume_descriptor_locations().unwrap();
    let pvd = volume.read_primary_volume_descriptor(&locations).unwrap();
    let err = volume
        .read_directory_records(&pvd.directory_record_for_root_directory, 2048)
        .unwrap_err();
    assert_eq!(
        err,
        VolumeError::Record { error: DirectoryRecordError::NotEnoughBytes }
    );
}

#[test]
fn invalid_text_in_a_descriptor_field_is_reported() {
    let mut img = build_volume_image();
    let p = 16 * SECTOR + 24;
    img[p + 40] = 0xFF;
    let volume = CDROMXAVolume::new(img);
    let locations = volume.read_volume_descriptor_locations().unwrap();
    let err = volume.read_primary_volume_descriptor(&locations).unwrap_err();
    assert_eq!(
        err,
        VolumeError::InvalidTextField { offset: (16 * SECTOR + 24 + 40) as u64 }
    );
}

#[test]
fn rebuilding_a_descriptor_sector_reproduces_it() {
    let img = build_volume_image();
    let volume = CDROMXAVolume::new(img.clone());
    let locations = volume.read_volume_descriptor_locations().unwrap();
    let pvd = volume.read_primary_volume_descriptor(&locations).unwrap();

    let sector_bytes = &img[16 * SECTOR..17 * SECTOR];
    let sector = Sector::from_primary_volume_descriptor(&pvd, sector_bytes).unwrap();
    assert_eq!(sector.as_bytes(), sector_bytes);
}

#[test]
fn rebuilding_over_a_changed_sector_is_refused() {
    let img = build_volume_image();
    let volume = CDROMXAVolume::new(img.clone());
    let locations = volume.read_volume_descriptor_locations().unwrap();
    let pvd = volume.read_primary_volume_descriptor(&locations).unwrap();

    let mut sector_bytes = img[16 * SECTOR..17 * SECTOR].to_vec();
    sector_bytes[0] = 0x55; // the rebuilt subheader will not match
    let err = Sector::from_primary_volume_descriptor(&pvd, &sector_bytes).unwrap_err();
    assert_eq!(err, VolumeError::RebuildMismatch);
}

#[test]
fn sector_size_follows_the_logical_block_size() {
    assert_eq!(Sector::get_size_by_logical_block_size(2048), 2352);
    assert_eq!(Sector::get_size_by_logical_block_size(1024), 1328);
}
