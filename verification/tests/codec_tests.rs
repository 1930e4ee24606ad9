use rom_manager::byte_range::ByteRange;
use rom_manager::byte_range::FromBothEndian;
use rom_manager::fields::BothEndianI16;
use rom_manager::fields::BothEndianI32;
use rom_manager::fields::DateAndTime;
use rom_manager::fields::LittleEndian;
use rom_manager::fields::StringField;

#[test]
fn write_into_array_as_both_endian_i16() {
    let mut data = vec![0_u8; 4];

    let range = ByteRange::new(0, 1);
    let field = BothEndianI16::with_range(&range);
    field.write_into(&mut data, 0, 16);

    assert_eq!(data, vec![16, 0, 0, 16]);
}

#[test]
fn write_into_array_as_both_endian_i32() {
    let mut data = vec![0_u8; 8];

    let range = ByteRange::new(0, 1);
    let field = BothEndianI32::with_range(&range);
    field.write_into(&mut data, 0, 16);

    assert_eq!(data, vec![16, 0, 0, 0, 0, 0, 0, 16]);
}

#[test]
fn read_as_string() {
    // Spells out "SPYRO" + extra characters
    let buf: [u8; 8] = [0x53, 0x50, 0x59, 0x52, 0x4F, 0x20, 0x20, 0x20];
    let s = ByteRange::new(0, 5).read_as_string(&buf).unwrap();
    assert_eq!(s, "SPYRO");
    assert_eq!(s.len(), 5);
}

#[test]
fn both_endian_i16_round_trip_through_either_half() {
    for v in [0_i16, 1, -1, 2048, -2048, i16::MAX, i16::MIN, 0x1234] {
        let mut data = vec![0_u8; 4];
        let range = ByteRange::new(0, 4);
        BothEndianI16::with_range(&range).write_into(&mut data, 0, v);

        // Little-endian half.
        let back: i16 = ByteRange::new(0, 4).read_as_both_endian(&data);
        assert_eq!(back, v);

        // Big-endian half, read independently.
        let be = i16::from_be_bytes([data[2], data[3]]);
        assert_eq!(be, v);
    }
}

#[test]
fn both_endian_i32_round_trip_through_either_half() {
    for v in [0_i32, 1, -1, 2048, -123456789, i32::MAX, i32::MIN, 0x12345678] {
        let mut data = vec![0_u8; 8];
        let range = ByteRange::new(0, 8);
        BothEndianI32::with_range(&range).write_into(&mut data, 0, v);

        let back: i32 = ByteRange::new(0, 8).read_as_both_endian(&data);
        assert_eq!(back, v);

        let be = i32::from_be_bytes([data[4], data[5], data[6], data[7]]);
        assert_eq!(be, v);
    }
}

#[test]
fn little_endian_write_and_read() {
    let mut data = vec![0_u8; 4];
    let range = ByteRange::new(0, 4);
    LittleEndian::with_range(&range).write_into(&mut data, 0, 0x01020304);
    assert_eq!(data, vec![4, 3, 2, 1]);

    let back: i32 = rom_manager::byte_range::FromLittleEndian::from_little_endian(&data[..]);
    assert_eq!(back, 0x01020304);
}

#[test]
fn from_both_endian_reads_little_half_only() {
    let bytes = [0x2C_u8, 0x01, 0xFF, 0xFF];
    let v = <i16 as FromBothEndian>::from_both_endian(&bytes);
    assert_eq!(v, 300);
}

#[test]
fn string_field_round_trip_strips_trailing_pads() {
    // The field covers bytes 2..12; the buffer already holds pads there.
    let mut data = vec![32_u8; 16];
    let range = ByteRange::new(2, 12);
    let value = String::from("HELLO");
    StringField::with_range(&range).write_into(&mut data, 0, &value);
    assert_eq!(&data[2..7], b"HELLO");
    assert_eq!(&data[7..12], b"     ");

    let back = ByteRange::new(2, 12).read_as_string(&data).unwrap();
    assert_eq!(back, "HELLO");
}

#[test]
fn string_field_leaves_reserved_final_byte() {
    let mut data = vec![0_u8; 8];
    data[7] = 0xAB;
    let range = ByteRange::new(0, 8);
    StringField::with_range(&range).write_into(&mut data, 0, &String::from("AB"));
    assert_eq!(data, vec![65, 66, 32, 32, 32, 32, 32, 0xAB]);
}

#[test]
fn timestamp_formats_with_zero_padding() {
    let s = DateAndTime::format_by_bytes(&[98, 8, 13, 16, 56, 5, 0x24]);
    assert_eq!(s, "1998-08-13 16:56:05");
}

#[test]
fn timestamp_keeps_all_digits_of_large_raw_bytes() {
    // Raw field bytes above 99 keep all their digits, as the format does.
    let s = DateAndTime::format_by_bytes(&[123, 123, 3, 4, 5, 6, 0]);
    assert_eq!(s, "2023-123-03 04:05:06");
}

#[test]
fn date_and_time_write_copies_raw_bytes() {
    let mut data = vec![0_u8; 10];
    let range = ByteRange::new(1, 8);
    DateAndTime::with_range(&range).write_into(&mut data, 1, &[9, 8, 7, 6, 5, 4, 3]);
    assert_eq!(data, vec![0, 0, 9, 8, 7, 6, 5, 4, 3, 0]);
}

#[test]
fn read_as_string_rejects_invalid_text() {
    let buf = [0xFF_u8, 0xFE, 0x20];
    assert!(ByteRange::new(0, 3).read_as_string(&buf).is_none());
}

#[test]
fn byte_range_length() {
    assert_eq!(ByteRange::new(40, 72).get_length_in_bytes(), 32);
}
