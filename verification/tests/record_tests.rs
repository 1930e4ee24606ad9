use rom_manager::directory_record::DirectoryRecord;
use rom_manager::directory_record::DirectoryRecordError;

fn record_with_identifier(id: &[u8], flags: u8) -> DirectoryRecord {
    let mut file_identifier = [0_u8; 255];
    file_identifier[..id.len()].copy_from_slice(id);
    DirectoryRecord {
        length: 34,
        extended_attribute_record: 0,
        location_of_extent: 22,
        data_length: 2048,
        recording_date_and_time: [0x62, 0x08, 0x0D, 0x10, 0x38, 0x05, 0x24],
        file_flags: flags,
        file_unit_size: 0,
        interleave_gap_size: 0,
        volume_sequence_number: 1,
        file_identifier_length: id.len() as u8,
        file_identifier,
    }
}

#[test]
fn serialize_root_directory_record() {
    let directory_record_for_root_directory = DirectoryRecord {
        length: 34,
        extended_attribute_record: 0,
        location_of_extent: 22,
        data_length: 2048,
        recording_date_and_time: [0x62, 0x08, 0x0D, 0x10, 0x38, 0x05, 0x24],
        file_flags: 2,
        file_unit_size: 0,
        interleave_gap_size: 0,
        volume_sequence_number: 1,
        file_identifier_length: 1,
        file_identifier: [0_u8; 255],
    };

    // Ensure correct bytes are written
    let bytes = directory_record_for_root_directory.serialize();
    assert_eq!(
        bytes,
        vec![
            0x22, 0x00, 0x16, 0x00, 0x00, 0x00, 0x00, 0x00, 0x00, 0x16, 0x00, 0x08, 0x00, 0x00,
            0x00, 0x00, 0x08, 0x00, 0x62, 0x08, 0x0d, 0x10, 0x38, 0x05, 0x24, 0x02, 0x00, 0x00,
            0x01, 0x00, 0x00, 0x01, 0x01, 0x00
        ]
    );
}

#[test]
fn serialize_then_unserialize_reproduces_core_fields() {
    let mut record = record_with_identifier(b"DATA.BIN;1", 0);
    record.length = 44;
    record.extended_attribute_record = 7;
    record.location_of_extent = 123456;
    record.data_length = -77; // an arbitrary bit pattern survives the trip
    record.file_unit_size = 3;
    record.interleave_gap_size = 5;
    record.volume_sequence_number = -2;

    let bytes = record.serialize();
    assert_eq!(bytes.len(), 44);
    let back = DirectoryRecord::unserialize(&bytes).unwrap();

    assert_eq!(back.length, record.length);
    assert_eq!(back.extended_attribute_record, record.extended_attribute_record);
    assert_eq!(back.location_of_extent, record.location_of_extent);
    assert_eq!(back.data_length, record.data_length);
    assert_eq!(back.recording_date_and_time, record.recording_date_and_time);
    assert_eq!(back.file_flags, record.file_flags);
    assert_eq!(back.file_unit_size, record.file_unit_size);
    assert_eq!(back.interleave_gap_size, record.interleave_gap_size);
    assert_eq!(back.volume_sequence_number, record.volume_sequence_number);
    assert_eq!(back.file_identifier_length, record.file_identifier_length);
    // The identifier text itself is not rendered, so it reads back zeroed.
    assert_eq!(back.file_identifier, [0_u8; 255]);
}

#[test]
fn unserialize_rejects_short_buffers() {
    assert_eq!(
        DirectoryRecord::unserialize(&[1, 2, 3]),
        Err(DirectoryRecordError::NotEnoughBytes)
    );
    let exactly_33 = vec![0_u8; 33];
    assert_eq!(
        DirectoryRecord::unserialize(&exactly_33),
        Err(DirectoryRecordError::NotEnoughBytes)
    );
}

#[test]
fn unserialize_rejects_identifier_past_buffer_end() {
    let mut bytes = vec![0_u8; 34];
    bytes[32] = 5; // five identifier bytes claimed, one byte present
    assert_eq!(
        DirectoryRecord::unserialize(&bytes),
        Err(DirectoryRecordError::NotEnoughBytes)
    );
}

#[test]
fn is_dir_requires_directory_bit_alone() {
    // Directory bit set, bits 2, 3 and 7 clear.
    assert!(record_with_identifier(b"A", 2).is_dir());
    // The existence bit does not matter.
    assert!(record_with_identifier(b"A", 3).is_dir());
    // Directory bit clear.
    assert!(!record_with_identifier(b"A", 0).is_dir());
    assert!(!record_with_identifier(b"A", 1).is_dir());
    // Directory bit set together with a forbidden bit.
    assert!(!record_with_identifier(b"A", 2 | 4).is_dir());
    assert!(!record_with_identifier(b"A", 2 | 8).is_dir());
    assert!(!record_with_identifier(b"A", 2 | 128).is_dir());
}

#[test]
fn file_identifier_drops_version_suffix() {
    let record = record_with_identifier(b"SOURCE.TRD;1", 0);
    assert_eq!(record.file_identifier_as_string().unwrap(), "SOURCE.TRD");
    assert_eq!(record.file_version(), 1);
}

#[test]
fn file_identifier_without_version() {
    let record = record_with_identifier(b"SYSTEM.CNF", 0);
    assert_eq!(record.file_identifier_as_string().unwrap(), "SYSTEM.CNF");
    assert_eq!(record.file_version(), 0);
}

#[test]
fn zero_led_identifier_reads_as_empty_name() {
    let record = record_with_identifier(&[0], 2);
    assert_eq!(record.file_identifier_as_string().unwrap(), "");
    assert_eq!(record.file_version(), 0);
}

#[test]
fn file_version_of_larger_number() {
    let record = record_with_identifier(b"GAME.DAT;255", 0);
    assert_eq!(record.file_version(), 255);
}

#[test]
fn file_version_of_unreadable_suffix_is_zero() {
    assert_eq!(record_with_identifier(b"GAME.DAT;", 0).file_version(), 0);
    assert_eq!(record_with_identifier(b"GAME.DAT;XY", 0).file_version(), 0);
    assert_eq!(record_with_identifier(b"GAME.DAT;999", 0).file_version(), 0);
}

#[test]
fn invalid_identifier_text_yields_no_name() {
    let record = record_with_identifier(&[0xFF, 0xFE], 0);
    assert!(record.file_identifier_as_string().is_none());
}

#[test]
fn recording_timestamp_formats() {
    let record = record_with_identifier(b"A", 2);
    assert_eq!(record.recording_date_and_time_formatted(), "1998-08-13 16:56:05");
}
