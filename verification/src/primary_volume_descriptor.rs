//! The primary volume descriptor: the fixed-layout sector that anchors a
//! volume (ECMA-119, section 8.4).

use vstd::prelude::*;
use vstd::utf8::decode_utf8;
use vstd::utf8::valid_utf8;
use crate::byte_range::ByteRange;
use crate::byte_range::le_unsigned;
use crate::byte_range::signed16;
use crate::byte_range::signed32;
use crate::directory_record::DirectoryRecord;
use crate::directory_record::DirectoryRecordView;
use crate::directory_record::spec_unserialize;
use crate::text::strip_pad;
use crate::volume::VolumeError;

verus! {

/// The descriptor of the whole volume: its name, geometry, and the root of
/// its directory tree.
#[derive(Debug)]
pub struct PrimaryVolumeDescriptor {
    /// Name of the volume, read from a space-padded text field.
    pub volume_identifier: String,
    /// Number of logical blocks the volume records (dual-endian).
    pub volume_space_size: i32,
    /// Size in bytes of one logical block, normally 2048 (dual-endian).
    pub logical_block_size: i16,
    /// Logical block number of the type-L path table (little-endian only;
    /// this engine never walks the path table).
    pub location_of_type_l_path_table: i32,
    /// The root directory's own record, embedded in the descriptor.
    pub directory_record_for_root_directory: DirectoryRecord,
    /// Publisher of the volume, space-padded text.
    pub publisher_identifier: String,
    /// Application that wrote the volume, space-padded text.
    pub application_identifier: String,
}

/// The five magic bytes `CD001`, expected at payload offset 1.
pub open spec fn magic_bytes() -> Seq<u8> {
    seq![67u8, 68u8, 48u8, 48u8, 49u8]
}

/// Whether the sector carries the `CD001` magic tag.
pub open spec fn spec_magic_ok(buf: Seq<u8>) -> bool {
    buf.subrange(1, 6) == magic_bytes()
}

/// The text bytes of a descriptor field: the range's bytes with every pad
/// byte removed.
pub open spec fn field_text(buf: Seq<u8>, begin: int, end: int) -> Seq<u8> {
    strip_pad(buf.subrange(begin, end))
}

/// The first failure a descriptor decode meets, if any: a missing magic
/// tag, a text field that does not decode, or a malformed embedded root
/// record, in the order the fields are read.  `offset` is the sector's
/// byte offset in the volume image, carried for diagnostics.
pub open spec fn spec_pvd_error(buf: Seq<u8>, offset: u64) -> Option<VolumeError> {
    if !spec_magic_ok(buf) {
        Option::Some(VolumeError::MagicMismatch { offset })
    } else if !valid_utf8(field_text(buf, 40, 72)) {
        Option::Some(VolumeError::InvalidTextField { offset: (offset + 40) as u64 })
    } else {
        match spec_unserialize(buf.subrange(156, 190)) {
            Result::Err(e) => Option::Some(VolumeError::Record { error: e }),
            Result::Ok(_) => {
                if !valid_utf8(field_text(buf, 318, 446)) {
                    Option::Some(VolumeError::InvalidTextField { offset: (offset + 318) as u64 })
                } else if !valid_utf8(field_text(buf, 574, 702)) {
                    Option::Some(VolumeError::InvalidTextField { offset: (offset + 574) as u64 })
                } else {
                    Option::None
                }
            },
        }
    }
}

/// Whether `d` holds exactly the fields that decoding `buf` yields.
pub open spec fn spec_pvd_matches(d: PrimaryVolumeDescriptor, buf: Seq<u8>) -> bool {
    &&& d.volume_identifier@ == decode_utf8(field_text(buf, 40, 72))
    &&& d.volume_space_size == signed32(le_unsigned(buf.subrange(80, 84))) as i32
    &&& d.logical_block_size == signed16(le_unsigned(buf.subrange(128, 130))) as i16
    &&& d.location_of_type_l_path_table == signed32(le_unsigned(buf.subrange(140, 144))) as i32
    &&& spec_unserialize(buf.subrange(156, 190)) == Result::<
        DirectoryRecordView,
        crate::directory_record::DirectoryRecordError,
    >::Ok(d.directory_record_for_root_directory@)
    &&& d.publisher_identifier@ == decode_utf8(field_text(buf, 318, 446))
    &&& d.application_identifier@ == decode_utf8(field_text(buf, 574, 702))
}

impl PrimaryVolumeDescriptor {
    /// Decodes a descriptor out of one sector's raw bytes.  `offset_in_file`
    /// is where the sector stands in the volume image; it is carried into
    /// error values for diagnostics.
    pub fn try_from_buffer(buf: &[u8], offset_in_file: u64) -> (r: Result<Self, VolumeError>)
        requires
            buf@.len() >= 702,
            offset_in_file <= 0xFFFF_FFFF_FFFF_0000u64,
        ensures
            r is Ok <==> spec_pvd_error(buf@, offset_in_file) is None,
            r matches Ok(d) ==> spec_pvd_matches(d, buf@),
            r matches Err(e) ==> Option::Some(e) == spec_pvd_error(buf@, offset_in_file),
    {
        if !(buf[1] == 67 && buf[2] == 68 && buf[3] == 48 && buf[4] == 48 && buf[5] == 49) {
            proof {
                assert(buf@.subrange(1, 6).len() == 5);
                assert(!spec_magic_ok(buf@));
            }
            return Result::Err(VolumeError::MagicMismatch { offset: offset_in_file });
        }
        proof {
            assert(buf@.subrange(1, 6) =~= magic_bytes());
        }

        let volume_identifier = match ByteRange::new(40, 72).read_as_string(buf) {
            Option::Some(s) => s,
            Option::None => {
                return Result::Err(
                    VolumeError::InvalidTextField { offset: offset_in_file + 40 },
                );
            },
        };

        let volume_space_size = ByteRange::new(80, 88).read_as_both_endian::<i32>(buf);
        let logical_block_size = ByteRange::new(128, 132).read_as_both_endian::<i16>(buf);
        let location_of_type_l_path_table = ByteRange::new(140, 144).read_as_little_endian::<
            i32,
        >(buf);

        let root_bytes: [u8; 34] = ByteRange::new(156, 190).read_as_bytes::<34>(buf);
        let directory_record_for_root_directory = match DirectoryRecord::unserialize(
            root_bytes.as_slice(),
        ) {
            Result::Ok(record) => record,
            Result::Err(e) => {
                return Result::Err(VolumeError::Record { error: e });
            },
        };

        let publisher_identifier = match ByteRange::new(318, 446).read_as_string(buf) {
            Option::Some(s) => s,
            Option::None => {
                return Result::Err(
                    VolumeError::InvalidTextField { offset: offset_in_file + 318 },
                );
            },
        };

        let application_identifier = match ByteRange::new(574, 702).read_as_string(buf) {
            Option::Some(s) => s,
            Option::None => {
                return Result::Err(
                    VolumeError::InvalidTextField { offset: offset_in_file + 574 },
                );
            },
        };

        Result::Ok(
            Self {
                volume_identifier,
                volume_space_size,
                logical_block_size,
                location_of_type_l_path_table,
                directory_record_for_root_directory,
                publisher_identifier,
                application_identifier,
            },
        )
    }
}

} // verus!
