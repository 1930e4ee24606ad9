//! The CD-ROM/XA volume engine: locating volume descriptors, loading the
//! primary volume descriptor, walking directory extents, reading file
//! contents across sectors, and writing same-length replacement content.
//!
//! The engine works on an in-memory image of the volume.  A caller that
//! keeps the volume in a file reads the file into memory first and writes
//! the bytes back once an operation that changes them has succeeded.

use vstd::prelude::*;
use crate::buffer::copy_range;
use crate::buffer::splice_bytes;
use crate::buffer::write_bytes_into;
use crate::byte_range::ByteRange;
use crate::byte_range::be_bytes_16;
use crate::byte_range::be_bytes_32;
use crate::byte_range::le_bytes_16;
use crate::byte_range::le_bytes_32;
use crate::directory_record::DirectoryRecord;
use crate::directory_record::DirectoryRecordError;
use crate::directory_record::DirectoryRecordView;
use crate::directory_record::spec_serialize;
use crate::directory_record::spec_unserialize;
use crate::fields::BothEndianI16;
use crate::fields::BothEndianI32;
use crate::fields::DateAndTime;
use crate::fields::LittleEndian;
use crate::fields::StringField;
use crate::fields::string_field_write;
use crate::primary_volume_descriptor::PrimaryVolumeDescriptor;
use vstd::utf8::encode_utf8;

verus! {

/// Failure of a volume operation.  Every variant carries the offset or the
/// raw value that the operation stopped on.
#[derive(Clone, Copy, Debug, PartialEq, Eq, Structural)]
pub enum VolumeError {
    /// Content was requested from a record that marks a directory.
    NotAFile,
    /// A directory listing was requested for a record that is no directory.
    NotADirectory,
    /// A read or write would leave the volume image; the offset is where it
    /// would have started.
    OutOfBounds {
        /// First byte offset of the failed access.
        offset: u64,
    },
    /// A volume descriptor sector carries a type tag other than the primary
    /// tag (1) and the set terminator tag (255).
    UnsupportedDescriptorType {
        /// The tag that was found.
        value: u8,
    },
    /// No primary volume descriptor stands among the scanned locations.
    NoPrimaryVolumeDescriptor,
    /// The five magic bytes `CD001` are missing from a descriptor sector.
    MagicMismatch {
        /// Byte offset of the sector in the volume image.
        offset: u64,
    },
    /// A text field does not decode as UTF-8 once pad bytes are removed.
    InvalidTextField {
        /// Byte offset of the field in the volume image.
        offset: u64,
    },
    /// A directory record inside a descriptor or a directory block is
    /// malformed.
    Record {
        /// The record-level failure.
        error: DirectoryRecordError,
    },
    /// The logical block size read from the volume is not positive.
    UnsupportedBlockSize {
        /// The block size that was found.
        value: i16,
    },
    /// A record points at a negative extent location or length.
    InvalidExtent {
        /// The record's extent location.
        location: i32,
        /// The record's data length.
        data_length: i32,
    },
    /// Re-rendering a descriptor did not reproduce the sector it was read
    /// from.
    RebuildMismatch,
}

/// Which kind of volume descriptor a scanned sector announces.
#[derive(Clone, Copy, Debug, PartialEq, Eq, Structural)]
pub enum VolumeDescriptorType {
    /// The primary volume descriptor, tag value 1.
    Primary,
    /// The descriptor set terminator, tag value 255.
    SetTerminator,
}

/// Where a volume descriptor was found during a scan.
#[derive(Clone, Copy, Debug, PartialEq, Eq, Structural)]
pub struct VolumeDescriptorLocation {
    /// Byte offset of the descriptor's type tag in the volume image.
    pub descriptor_offset: u64,
    /// The descriptor's kind.
    pub descriptor_type: VolumeDescriptorType,
}

/// Bytes of the XA subheader that leads every sector.
pub const XA_HEADER_BYTE_COUNT: usize = 24;

/// Combined framing overhead of a sector: the leading subheader and the
/// trailing region together.
pub const XA_DATA_BYTE_COUNT: usize = 304;

/// Bytes of the trailing region that follows a sector's payload.
pub const XA_DATA_LAST_BYTES_COUNT: usize = 280;

/// Physical size of a sector in bytes.
pub const SECTOR_LOGICAL_SIZE: usize = 2352;

/// The fixed bytes this engine writes over a rebuilt sector's XA subheader.
pub open spec fn xa_header_bytes() -> Seq<u8> {
    seq![
        0x00u8, 0xFFu8, 0xFFu8, 0xFFu8, 0xFFu8, 0xFFu8, 0xFFu8, 0xFFu8, 0xFFu8, 0xFFu8, 0xFFu8,
        0x00u8, 0x00u8, 0x02u8, 0x16u8, 0x02u8, 0x00u8, 0x00u8, 0x09u8, 0x00u8, 0x00u8, 0x00u8,
        0x09u8, 0x00u8,
    ]
}

/// Builds the fixed XA subheader as a buffer.
fn xa_header() -> (r: Vec<u8>)
    ensures
        r@ == xa_header_bytes(),
{
    let mut r: Vec<u8> = Vec::new();
    r.push(0x00);
    r.push(0xFF);
    r.push(0xFF);
    r.push(0xFF);
    r.push(0xFF);
    r.push(0xFF);
    r.push(0xFF);
    r.push(0xFF);
    r.push(0xFF);
    r.push(0xFF);
    r.push(0xFF);
    r.push(0x00);
    r.push(0x00);
    r.push(0x02);
    r.push(0x16);
    r.push(0x02);
    r.push(0x00);
    r.push(0x00);
    r.push(0x09);
    r.push(0x00);
    r.push(0x00);
    r.push(0x00);
    r.push(0x09);
    r.push(0x00);
    proof {
        assert(r@ =~= xa_header_bytes());
    }
    r
}

/// The sector bytes that rebuilding a descriptor produces: the fixed XA
/// subheader, then every known descriptor field rendered at its declared
/// offset, shifted past the subheader, over the original bytes.
pub open spec fn spec_rebuild_descriptor_sector(
    d: PrimaryVolumeDescriptor,
    old_bytes: Seq<u8>,
) -> Seq<u8> {
    let h = XA_HEADER_BYTE_COUNT as int;
    let s0 = splice_bytes(old_bytes, 0, xa_header_bytes());
    let s1 = string_field_write(s0, h + 40, h + 72, encode_utf8(d.volume_identifier@));
    let s2 = splice_bytes(
        s1,
        h + 80,
        le_bytes_32(d.volume_space_size) + be_bytes_32(d.volume_space_size),
    );
    let s3 = splice_bytes(
        s2,
        h + 128,
        le_bytes_16(d.logical_block_size) + be_bytes_16(d.logical_block_size),
    );
    let s4 = splice_bytes(s3, h + 140, le_bytes_32(d.location_of_type_l_path_table));
    let s5 = splice_bytes(s4, h + 156, spec_serialize(d.directory_record_for_root_directory@));
    let s6 = string_field_write(s5, h + 318, h + 446, encode_utf8(d.publisher_identifier@));
    let s7 = string_field_write(s6, h + 574, h + 702, encode_utf8(d.application_identifier@));
    s7
}

/// A physical sector: 2352 raw bytes.
#[derive(Debug)]
pub struct Sector {
    data: Vec<u8>,
}

impl View for Sector {
    type V = Seq<u8>;

    closed spec fn view(&self) -> Seq<u8> {
        self.data@
    }
}

impl Sector {
    /// The sector's raw bytes.
    pub fn as_bytes(&self) -> (r: &[u8])
        ensures
            r@ == self@,
    {
        self.data.as_slice()
    }

    /// Re-renders `descriptor` into a copy of the sector it was read from,
    /// keeping every byte the engine does not model.  The rebuilt bytes
    /// must reproduce the original sector exactly; a difference is
    /// reported, not written.
    pub fn from_primary_volume_descriptor(
        descriptor: &PrimaryVolumeDescriptor,
        old_data: &[u8],
    ) -> (r: Result<Sector, VolumeError>)
        requires
            old_data@.len() == SECTOR_LOGICAL_SIZE,
            descriptor.directory_record_for_root_directory.length >= 34,
            encode_utf8(descriptor.volume_identifier@).len() <= 32,
            encode_utf8(descriptor.publisher_identifier@).len() <= 128,
            encode_utf8(descriptor.application_identifier@).len() <= 128,
        ensures
            r is Ok <==> spec_rebuild_descriptor_sector(*descriptor, old_data@) == old_data@,
            r matches Ok(s) ==> s@ == old_data@,
            r is Err ==> r == Result::<Sector, VolumeError>::Err(VolumeError::RebuildMismatch),
    {
        let mut data: Vec<u8> = copy_range(old_data, 0, old_data.len());

        let header = xa_header();
        write_bytes_into(&mut data, 0, header.as_slice());
        let ghost s0 = data@;

        StringField::with_range(&ByteRange::new(40, 72)).write_into(
            &mut data,
            XA_HEADER_BYTE_COUNT,
            &descriptor.volume_identifier,
        );
        proof {
            assert(data@ =~= string_field_write(
                s0,
                XA_HEADER_BYTE_COUNT + 40,
                XA_HEADER_BYTE_COUNT + 72,
                encode_utf8(descriptor.volume_identifier@),
            ));
        }
        let ghost s1 = data@;

        BothEndianI32::with_range(&ByteRange::new(80, 88)).write_into(
            &mut data,
            XA_HEADER_BYTE_COUNT,
            descriptor.volume_space_size,
        );
        let ghost s2 = data@;

        BothEndianI16::with_range(&ByteRange::new(128, 132)).write_into(
            &mut data,
            XA_HEADER_BYTE_COUNT,
            descriptor.logical_block_size,
        );
        let ghost s3 = data@;

        LittleEndian::with_range(&ByteRange::new(140, 144)).write_into(
            &mut data,
            XA_HEADER_BYTE_COUNT,
            descriptor.location_of_type_l_path_table,
        );
        let ghost s4 = data@;

        let root = descriptor.directory_record_for_root_directory.serialize();
        write_bytes_into(&mut data, XA_HEADER_BYTE_COUNT + 156, root.as_slice());
        let ghost s5 = data@;

        StringField::with_range(&ByteRange::new(318, 446)).write_into(
            &mut data,
            XA_HEADER_BYTE_COUNT,
            &descriptor.publisher_identifier,
        );
        proof {
            assert(data@ =~= string_field_write(
                s5,
                XA_HEADER_BYTE_COUNT + 318,
                XA_HEADER_BYTE_COUNT + 446,
                encode_utf8(descriptor.publisher_identifier@),
            ));
        }
        let ghost s6 = data@;

        StringField::with_range(&ByteRange::new(574, 702)).write_into(
            &mut data,
            XA_HEADER_BYTE_COUNT,
            &descriptor.application_identifier,
        );
        proof {
            assert(data@ =~= string_field_write(
                s6,
                XA_HEADER_BYTE_COUNT + 574,
                XA_HEADER_BYTE_COUNT + 702,
                encode_utf8(descriptor.application_identifier@),
            ));
            assert(data@ == spec_rebuild_descriptor_sector(*descriptor, old_data@));
        }

        if bytes_equal(data.as_slice(), old_data) {
            Result::Ok(Sector { data })
        } else {
            Result::Err(VolumeError::RebuildMismatch)
        }
    }

    /// The size in bytes of a payload-bearing sector for the given logical
    /// block size: the block itself plus the framing overhead.
    pub fn get_size_by_logical_block_size(logical_block_size: i16) -> (r: usize)
        requires
            logical_block_size >= 0,
        ensures
            r == logical_block_size + XA_DATA_BYTE_COUNT,
    {
        logical_block_size as usize + XA_DATA_BYTE_COUNT
    }
}

/// Sectors reserved for the system area at the start of a volume.
pub const SYSTEM_AREA_SECTOR_COUNT: u64 = 16;

/// Largest volume image the engine accepts, comfortably above any real
/// disc; it keeps every byte-offset computation inside 64 bits.
pub const MAX_IMAGE_BYTES: u64 = 0x4000_0000_0000;

/// Byte offset of sector `i`'s descriptor type tag: past `i` sectors and
/// the sector's own XA subheader.
pub open spec fn vd_tag_offset(i: int) -> int {
    i * 2352 + 24
}

/// The locations a descriptor scan yields from sector `i` on: one entry
/// per sector, stopping at the first set terminator.  A tag that cannot be
/// read or is not supported stops the scan with the failure.
pub open spec fn spec_scan(image: Seq<u8>, i: int) -> Result<
    Seq<VolumeDescriptorLocation>,
    VolumeError,
>
    decreases
            (if vd_tag_offset(i) <= image.len() {
                image.len() + 2352 - vd_tag_offset(i)
            } else {
                0
            }),
{
    if vd_tag_offset(i) + 1 > image.len() {
        Result::Err(VolumeError::OutOfBounds { offset: vd_tag_offset(i) as u64 })
    } else {
        let tag = image[vd_tag_offset(i)];
        if tag == 255 {
            Result::Ok(
                seq![
                    VolumeDescriptorLocation {
                        descriptor_offset: vd_tag_offset(i) as u64,
                        descriptor_type: VolumeDescriptorType::SetTerminator,
                    },
                ],
            )
        } else if tag == 1 {
            match spec_scan(image, i + 1) {
                Result::Ok(rest) => Result::Ok(
                    seq![
                        VolumeDescriptorLocation {
                            descriptor_offset: vd_tag_offset(i) as u64,
                            descriptor_type: VolumeDescriptorType::Primary,
                        },
                    ] + rest,
                ),
                Result::Err(e) => Result::Err(e),
            }
        } else {
            Result::Err(VolumeError::UnsupportedDescriptorType { value: tag })
        }
    }
}

/// The first location of a primary descriptor in `locs`, if any.
pub open spec fn spec_find_primary(locs: Seq<VolumeDescriptorLocation>) -> Option<
    VolumeDescriptorLocation,
>
    decreases locs.len(),
{
    if locs.len() == 0 {
        Option::None
    } else if locs[0].descriptor_type == VolumeDescriptorType::Primary {
        Option::Some(locs[0])
    } else {
        spec_find_primary(locs.skip(1))
    }
}

/// A volume image held in memory, with the engine's operations over it.
/// PlayStation discs follow the CD-ROM XA flavor of ISO 9660.
pub struct CDROMXAVolume {
    data: Vec<u8>,
}

impl View for CDROMXAVolume {
    type V = Seq<u8>;

    closed spec fn view(&self) -> Seq<u8> {
        self.data@
    }
}

impl CDROMXAVolume {
    /// Whether the engine can address every sector of the image.
    pub open spec fn wf(&self) -> bool {
        self@.len() <= MAX_IMAGE_BYTES
    }

    /// Wraps a volume image.
    pub fn new(data: Vec<u8>) -> (r: Self)
        requires
            data@.len() <= MAX_IMAGE_BYTES,
        ensures
            r@ == data@,
            r.wf(),
    {
        Self { data }
    }

    /// The image's raw bytes.
    pub fn as_bytes(&self) -> (r: &[u8])
        ensures
            r@ == self@,
    {
        self.data.as_slice()
    }

    /// Scans for volume descriptor sectors: skips the system area, then
    /// reads one type tag per sector in ascending order, recording each
    /// location, and stops right after the set terminator.
    pub fn read_volume_descriptor_locations(&self) -> (r: Result<
        Vec<VolumeDescriptorLocation>,
        VolumeError,
    >)
        requires
            self.wf(),
        ensures
            match r {
                Result::Ok(v) => spec_scan(self@, SYSTEM_AREA_SECTOR_COUNT as int) == Result::<
                    Seq<VolumeDescriptorLocation>,
                    VolumeError,
                >::Ok(v@),
                Result::Err(e) => spec_scan(self@, SYSTEM_AREA_SECTOR_COUNT as int) == Result::<
                    Seq<VolumeDescriptorLocation>,
                    VolumeError,
                >::Err(e),
            },
    {
        let image_len: u64 = self.data.len() as u64;
        let mut result: Vec<VolumeDescriptorLocation> = Vec::new();
        let mut off: u64 = SYSTEM_AREA_SECTOR_COUNT * 2352 + 24;
        let ghost mut i: int = SYSTEM_AREA_SECTOR_COUNT as int;
        loop
            invariant
                self.wf(),
                image_len == self@.len(),
                image_len <= usize::MAX,
                i >= SYSTEM_AREA_SECTOR_COUNT as int,
                off == vd_tag_offset(i),
                off <= MAX_IMAGE_BYTES + 2352 + 24,
                ({
                    match spec_scan(self@, i) {
                        Result::Ok(rest) => spec_scan(self@, SYSTEM_AREA_SECTOR_COUNT as int)
                            == Result::<Seq<VolumeDescriptorLocation>, VolumeError>::Ok(
                            result@ + rest,
                        ),
                        Result::Err(e) => spec_scan(self@, SYSTEM_AREA_SECTOR_COUNT as int)
                            == Result::<Seq<VolumeDescriptorLocation>, VolumeError>::Err(e),
                    }
                }),
            decreases (if off <= self@.len() {
                self@.len() - off + 2352
            } else {
                0int
            }),
        {
            if off >= image_len {
                return Result::Err(VolumeError::OutOfBounds { offset: off });
            }
            let tag: u8 = self.data[off as usize];
            proof {
                assert(self@[vd_tag_offset(i)] == tag);
            }
            if tag == 255 {
                let loc = VolumeDescriptorLocation {
                    descriptor_offset: off,
                    descriptor_type: VolumeDescriptorType::SetTerminator,
                };
                let ghost before = result@;
                result.push(loc);
                proof {
                    reveal_with_fuel(spec_scan, 2);
                    assert(spec_scan(self@, i) == Result::<
                        Seq<VolumeDescriptorLocation>,
                        VolumeError,
                    >::Ok(seq![loc]));
                    assert(result@ =~= before + seq![loc]);
                }
                return Result::Ok(result);
            } else if tag == 1 {
                let loc = VolumeDescriptorLocation {
                    descriptor_offset: off,
                    descriptor_type: VolumeDescriptorType::Primary,
                };
                let ghost before = result@;
                result.push(loc);
                proof {
                    reveal_with_fuel(spec_scan, 2);
                    assert(result@ =~= before + seq![loc]);
                    match spec_scan(self@, i + 1) {
                        Result::Ok(rest) => {
                            assert(spec_scan(self@, i) == Result::<
                                Seq<VolumeDescriptorLocation>,
                                VolumeError,
                            >::Ok(seq![loc] + rest));
                            assert(before + (seq![loc] + rest) =~= result@ + rest);
                        },
                        Result::Err(e) => {
                            assert(spec_scan(self@, i) == Result::<
                                Seq<VolumeDescriptorLocation>,
                                VolumeError,
                            >::Err(e));
                        },
                    }
                    i = i + 1;
                }
                off = off + 2352;
            } else {
                return Result::Err(VolumeError::UnsupportedDescriptorType { value: tag });
            }
        }
    }

    /// Loads the primary volume descriptor: finds the first scanned
    /// location tagged primary, reads its full sector, and decodes it.
    pub fn read_primary_volume_descriptor(
        &self,
        descriptor_locations: &Vec<VolumeDescriptorLocation>,
    ) -> (r: Result<PrimaryVolumeDescriptor, VolumeError>)
        requires
            self.wf(),
        ensures
            match spec_find_primary(descriptor_locations@) {
                Option::None => r == Result::<
                    PrimaryVolumeDescriptor,
                    VolumeError,
                >::Err(VolumeError::NoPrimaryVolumeDescriptor),
                Option::Some(loc) => {
                    if loc.descriptor_offset + SECTOR_LOGICAL_SIZE > self@.len() {
                        r == Result::<PrimaryVolumeDescriptor, VolumeError>::Err(
                            VolumeError::OutOfBounds { offset: loc.descriptor_offset },
                        )
                    } else {
                        let sector = self@.subrange(
                            loc.descriptor_offset as int,
                            loc.descriptor_offset + SECTOR_LOGICAL_SIZE,
                        );
                        &&& r is Ok <==> crate::primary_volume_descriptor::spec_pvd_error(
                            sector,
                            loc.descriptor_offset,
                        ) is None
                        &&& (r matches Ok(d)
                            ==> crate::primary_volume_descriptor::spec_pvd_matches(d, sector))
                        &&& (r matches Err(e) ==> Option::Some(e)
                            == crate::primary_volume_descriptor::spec_pvd_error(
                            sector,
                            loc.descriptor_offset,
                        ))
                    }
                },
            },
    {
        let n = descriptor_locations.len();
        let mut k: usize = 0;
        let mut found: Option<VolumeDescriptorLocation> = Option::None;
        proof {
            assert(descriptor_locations@.skip(0) =~= descriptor_locations@);
        }
        while k < n && found.is_none()
            invariant
                k <= n,
                n == descriptor_locations@.len(),
                found is None ==> spec_find_primary(descriptor_locations@) == spec_find_primary(
                    descriptor_locations@.skip(k as int),
                ),
                found matches Some(loc) ==> spec_find_primary(descriptor_locations@)
                    == Option::Some(loc),
            decreases n - k + (if found is None { 1int } else { 0int }),
        {
            proof {
                assert(descriptor_locations@.skip(k as int).len() == n - k);
                assert(descriptor_locations@.skip(k as int)[0]
                    == descriptor_locations@[k as int]);
                assert(descriptor_locations@.skip(k as int).skip(1) =~= descriptor_locations@.skip(
                    k + 1,
                ));
            }
            let loc = descriptor_locations[k];
            if matches!(loc.descriptor_type, VolumeDescriptorType::Primary) {
                found = Option::Some(loc);
            } else {
                k = k + 1;
            }
        }
        let descriptor_location = match found {
            Option::Some(loc) => loc,
            Option::None => {
                proof {
                    assert(descriptor_locations@.skip(n as int).len() == 0);
                }
                return Result::Err(VolumeError::NoPrimaryVolumeDescriptor);
            },
        };

        let image_len: u64 = self.data.len() as u64;
        let off: u64 = descriptor_location.descriptor_offset;
        if off > image_len || SECTOR_LOGICAL_SIZE as u64 > image_len - off {
            return Result::Err(VolumeError::OutOfBounds { offset: off });
        }
        let sector_bytes = copy_range(
            self.data.as_slice(),
            off as usize,
            off as usize + SECTOR_LOGICAL_SIZE,
        );
        PrimaryVolumeDescriptor::try_from_buffer(sector_bytes.as_slice(), off)
    }

    /// Lists the records of a directory: reads the directory's extent one
    /// logical block at a time and decodes the records packed into each
    /// block, keeping their on-disk order.
    pub fn read_directory_records(
        &self,
        directory_record: &DirectoryRecord,
        logical_block_size: i16,
    ) -> (r: Result<Vec<DirectoryRecord>, VolumeError>)
        requires
            self.wf(),
        ensures
            !crate::directory_record::spec_is_dir(directory_record.file_flags) ==> r
                == Result::<Vec<DirectoryRecord>, VolumeError>::Err(VolumeError::NotADirectory),
            crate::directory_record::spec_is_dir(directory_record.file_flags)
                && logical_block_size <= 0 ==> r == Result::<Vec<DirectoryRecord>, VolumeError>::Err(
                VolumeError::UnsupportedBlockSize { value: logical_block_size },
            ),
            crate::directory_record::spec_is_dir(directory_record.file_flags)
                && logical_block_size > 0 && (directory_record.location_of_extent < 0
                || directory_record.data_length < 0) ==> r == Result::<
                Vec<DirectoryRecord>,
                VolumeError,
            >::Err(
                VolumeError::InvalidExtent {
                    location: directory_record.location_of_extent,
                    data_length: directory_record.data_length,
                },
            ),
            crate::directory_record::spec_is_dir(directory_record.file_flags)
                && logical_block_size > 0 && directory_record.location_of_extent >= 0
                && directory_record.data_length >= 0 ==> ({
                let spec_r = spec_read_records(
                    self@,
                    directory_record.location_of_extent * (logical_block_size + 304),
                    logical_block_size as int,
                    logical_block_size + 304,
                    directory_record.data_length as int,
                );
                match r {
                    Result::Ok(v) => spec_r == Result::<
                        Seq<DirectoryRecordView>,
                        VolumeError,
                    >::Ok(record_views(v@)),
                    Result::Err(e) => spec_r == Result::<
                        Seq<DirectoryRecordView>,
                        VolumeError,
                    >::Err(e),
                }
            }),
    {
        if !directory_record.is_dir() {
            return Result::Err(VolumeError::NotADirectory);
        }
        if logical_block_size <= 0 {
            return Result::Err(
                VolumeError::UnsupportedBlockSize { value: logical_block_size },
            );
        }
        if directory_record.location_of_extent < 0 || directory_record.data_length < 0 {
            return Result::Err(
                VolumeError::InvalidExtent {
                    location: directory_record.location_of_extent,
                    data_length: directory_record.data_length,
                },
            );
        }

        let lbs: usize = logical_block_size as usize;
        let ss: usize = lbs + 304;
        let image_len: u64 = self.data.len() as u64;
        let data_length: u64 = directory_record.data_length as u64;
        proof {
            assert((directory_record.location_of_extent as int) * (ss as int) <= 0x7FFF_FFFF
                * 33071) by (nonlinear_arith)
                requires
                    0 <= directory_record.location_of_extent as int <= 0x7FFF_FFFF,
                    0 <= ss as int <= 33071,
            ;
        }
        let mut pos: u64 = directory_record.location_of_extent as u64 * ss as u64;
        let mut bytes_read: u64 = 0;
        let mut result: Vec<DirectoryRecord> = Vec::new();
        let ghost pos0: int = pos as int;
        let ghost left0: int = data_length as int;

        while bytes_read < data_length
            invariant
                self.wf(),
                image_len == self@.len(),
                image_len <= usize::MAX,
                1 <= lbs <= 32767,
                ss == lbs + 304,
                lbs == logical_block_size,
                crate::directory_record::spec_is_dir(directory_record.file_flags),
                directory_record.location_of_extent >= 0,
                directory_record.data_length >= 0,
                data_length == directory_record.data_length,
                pos0 == directory_record.location_of_extent * (logical_block_size + 304),
                left0 == directory_record.data_length,
                bytes_read <= data_length + lbs,
                ({
                    match spec_read_records(
                        self@,
                        pos as int,
                        lbs as int,
                        ss as int,
                        data_length - bytes_read,
                    ) {
                        Result::Ok(rest) => spec_read_records(
                            self@,
                            pos0,
                            lbs as int,
                            ss as int,
                            left0,
                        ) == Result::<Seq<DirectoryRecordView>, VolumeError>::Ok(
                            record_views(result@) + rest,
                        ),
                        Result::Err(e) => spec_read_records(
                            self@,
                            pos0,
                            lbs as int,
                            ss as int,
                            left0,
                        ) == Result::<Seq<DirectoryRecordView>, VolumeError>::Err(e),
                    }
                }),
            decreases (if bytes_read < data_length {
                data_length - bytes_read
            } else {
                0int
            }),
        {
            if pos > image_len || ss as u64 > image_len - pos {
                return Result::Err(VolumeError::OutOfBounds { offset: pos });
            }
            let block = copy_range(self.data.as_slice(), pos as usize, pos as usize + ss);
            match records_in_block(&block, lbs) {
                Result::Ok(mut recs) => {
                    let ghost before = result@;
                    let ghost recs_view = recs@;
                    result.append(&mut recs);
                    proof {
                        assert(record_views(result@) =~= record_views(before) + record_views(
                            recs_view,
                        ));
                        match spec_read_records(
                            self@,
                            pos + ss,
                            lbs as int,
                            ss as int,
                            data_length - bytes_read - lbs,
                        ) {
                            Result::Ok(rest) => {
                                assert(record_views(before) + (record_views(recs_view) + rest)
                                    =~= record_views(result@) + rest);
                            },
                            Result::Err(e) => {},
                        }
                    }
                    bytes_read = bytes_read + lbs as u64;
                    pos = pos + ss as u64;
                },
                Result::Err(e) => {
                    return Result::Err(VolumeError::Record { error: e });
                },
            }
        }
        proof {
            assert(record_views(result@) + Seq::<DirectoryRecordView>::empty() =~= record_views(
                result@,
            ));
        }
        Result::Ok(result)
    }

    /// Reads a file's content: one payload per sector, skipping each
    /// sector's XA framing, until the record's `data_length` bytes are
    /// assembled in block order.
    pub fn read_directory_record_data(
        &self,
        directory_record: &DirectoryRecord,
        logical_block_size: i16,
    ) -> (r: Result<Vec<u8>, VolumeError>)
        requires
            self.wf(),
        ensures
            crate::directory_record::spec_is_dir(directory_record.file_flags) ==> r == Result::<
                Vec<u8>,
                VolumeError,
            >::Err(VolumeError::NotAFile),
            !crate::directory_record::spec_is_dir(directory_record.file_flags)
                && logical_block_size <= 0 ==> r == Result::<Vec<u8>, VolumeError>::Err(
                VolumeError::UnsupportedBlockSize { value: logical_block_size },
            ),
            !crate::directory_record::spec_is_dir(directory_record.file_flags)
                && logical_block_size > 0 && (directory_record.location_of_extent < 0
                || directory_record.data_length < 0) ==> r == Result::<Vec<u8>, VolumeError>::Err(
                VolumeError::InvalidExtent {
                    location: directory_record.location_of_extent,
                    data_length: directory_record.data_length,
                },
            ),
            !crate::directory_record::spec_is_dir(directory_record.file_flags)
                && logical_block_size > 0 && directory_record.location_of_extent >= 0
                && directory_record.data_length >= 0 ==> ({
                let ss = logical_block_size + 304;
                let spec_r = spec_read_file(
                    self@,
                    directory_record.location_of_extent * ss,
                    logical_block_size as int,
                    ss,
                    directory_record.data_length as int,
                    spec_block_count(directory_record.data_length as int, ss),
                );
                match r {
                    Result::Ok(v) => spec_r == Result::<Seq<u8>, VolumeError>::Ok(v@),
                    Result::Err(e) => spec_r == Result::<Seq<u8>, VolumeError>::Err(e),
                }
            }),
    {
        if directory_record.is_dir() {
            return Result::Err(VolumeError::NotAFile);
        }
        if logical_block_size <= 0 {
            return Result::Err(
                VolumeError::UnsupportedBlockSize { value: logical_block_size },
            );
        }
        if directory_record.location_of_extent < 0 || directory_record.data_length < 0 {
            return Result::Err(
                VolumeError::InvalidExtent {
                    location: directory_record.location_of_extent,
                    data_length: directory_record.data_length,
                },
            );
        }

        let lbs: usize = logical_block_size as usize;
        let ss: usize = lbs + 304;
        let image_len: u64 = self.data.len() as u64;
        let data_length: u64 = directory_record.data_length as u64;
        let blocks: u64 = (data_length + ss as u64 - 1) / ss as u64;
        proof {
            assert((directory_record.location_of_extent as int) * (ss as int) <= 0x7FFF_FFFF
                * 33071) by (nonlinear_arith)
                requires
                    0 <= directory_record.location_of_extent as int <= 0x7FFF_FFFF,
                    0 <= ss as int <= 33071,
            ;
            assert(blocks == spec_block_count(data_length as int, ss as int));
            if data_length > 0 {
                lemma_block_count_covers(data_length as int, ss as int);
            }
        }
        let mut pos: u64 = directory_record.location_of_extent as u64 * ss as u64;
        let mut left: u64 = data_length;
        let mut out: Vec<u8> = Vec::new();
        let mut i: u64 = 0;
        let ghost pos0: int = pos as int;
        proof {
            if data_length > 0 {
                assert(blocks >= 1);
                assert((blocks - 1) * (ss as int) < data_length);
            } else {
                vstd::arithmetic::div_mod::lemma_basic_div(ss - 1, ss as int);
                assert(blocks == 0);
            }
            assert(i < blocks ==> left > (blocks - 1 - i) * (ss as int)) by (nonlinear_arith)
                requires
                    i == 0,
                    left == data_length,
                    data_length > 0 ==> blocks >= 1 && (blocks - 1) * (ss as int) < data_length,
                    data_length == 0 ==> blocks == 0,
            ;
        }

        while i < blocks
            invariant
                self.wf(),
                image_len == self@.len(),
                image_len <= usize::MAX,
                1 <= lbs <= 32767,
                ss == lbs + 304,
                lbs == logical_block_size,
                i <= blocks,
                data_length <= 0x7FFF_FFFF,
                pos <= 0x8000_0000_0000,
                !crate::directory_record::spec_is_dir(directory_record.file_flags),
                logical_block_size > 0,
                directory_record.location_of_extent >= 0,
                directory_record.data_length >= 0,
                data_length == directory_record.data_length,
                pos0 == directory_record.location_of_extent * (logical_block_size + 304),
                blocks == spec_block_count(data_length as int, ss as int),
                i < blocks ==> left > (blocks - 1 - i) * (ss as int),
                left <= data_length,
                ({
                    match spec_read_file(
                        self@,
                        pos as int,
                        lbs as int,
                        ss as int,
                        left as int,
                        blocks - i,
                    ) {
                        Result::Ok(rest) => spec_read_file(
                            self@,
                            pos0,
                            lbs as int,
                            ss as int,
                            data_length as int,
                            blocks as int,
                        ) == Result::<Seq<u8>, VolumeError>::Ok(out@ + rest),
                        Result::Err(e) => spec_read_file(
                            self@,
                            pos0,
                            lbs as int,
                            ss as int,
                            data_length as int,
                            blocks as int,
                        ) == Result::<Seq<u8>, VolumeError>::Err(e),
                    }
                }),
            decreases blocks - i,
        {
            if i == blocks - 1 {
                // The last sector: exactly the outstanding bytes, without
                // touching the trailing framing.
                if pos + 24 > image_len || left > image_len - (pos + 24) {
                    return Result::Err(VolumeError::OutOfBounds { offset: pos + 24 });
                }
                let payload = copy_range(
                    self.data.as_slice(),
                    (pos + 24) as usize,
                    (pos + 24) as usize + left as usize,
                );
                let ghost before = out@;
                let mut payload_vec = payload;
                out.append(&mut payload_vec);
                proof {
                    assert(out@ =~= before + self@.subrange(
                        pos + 24,
                        pos + 24 + left,
                    ));
                    assert(out@ + Seq::<u8>::empty() =~= out@);
                }
                left = 0;
                i = i + 1;
            } else {
                if pos + 24 > image_len || lbs as u64 > image_len - (pos + 24) {
                    return Result::Err(VolumeError::OutOfBounds { offset: pos + 24 });
                }
                let payload = copy_range(
                    self.data.as_slice(),
                    (pos + 24) as usize,
                    (pos + 24) as usize + lbs,
                );
                let ghost before = out@;
                let mut payload_vec = payload;
                out.append(&mut payload_vec);
                proof {
                    assert((blocks - 1 - i) * (ss as int) >= ss) by (nonlinear_arith)
                        requires
                            blocks - 1 - i >= 1,
                            ss >= 1,
                    ;
                    assert((blocks - 1 - (i + 1)) * (ss as int) == (blocks - 1 - i) * (ss as int)
                        - ss) by (nonlinear_arith);
                    match spec_read_file(
                        self@,
                        pos + ss,
                        lbs as int,
                        ss as int,
                        left - lbs,
                        blocks - i - 1,
                    ) {
                        Result::Ok(rest) => {
                            assert(before + (self@.subrange(pos + 24, pos + 24 + lbs) + rest)
                                =~= before + self@.subrange(pos + 24, pos + 24 + lbs) + rest);
                            assert(out@ =~= before + self@.subrange(pos + 24, pos + 24 + lbs));
                        },
                        Result::Err(e) => {},
                    }
                }
                left = left - lbs as u64;
                pos = pos + ss as u64;
                i = i + 1;
            }
        }
        Result::Ok(out)
    }

    /// Replaces a file's content in place.  The new content must occupy the
    /// record's exact byte span; the engine never resizes a record or moves
    /// an extent.  Every target offset is validated before any byte is
    /// written, so a failed call leaves the image untouched.
    pub fn replace_file(
        &mut self,
        directory_record: &DirectoryRecord,
        logical_block_size: i16,
        content: &Vec<u8>,
    ) -> (r: Result<(), VolumeError>)
        requires
            old(self).wf(),
            content@.len() == directory_record.data_length,
        ensures
            final(self).wf(),
            final(self)@.len() == old(self)@.len(),
            logical_block_size <= 0 ==> r == Result::<(), VolumeError>::Err(
                VolumeError::UnsupportedBlockSize { value: logical_block_size },
            ) && final(self)@ == old(self)@,
            logical_block_size > 0 && directory_record.location_of_extent < 0 ==> r == Result::<
                (),
                VolumeError,
            >::Err(
                VolumeError::InvalidExtent {
                    location: directory_record.location_of_extent,
                    data_length: directory_record.data_length,
                },
            ) && final(self)@ == old(self)@,
            logical_block_size > 0 && directory_record.location_of_extent >= 0 ==> ({
                let ss = logical_block_size + 304;
                let spec_r = spec_replace(
                    old(self)@,
                    directory_record.location_of_extent * ss,
                    logical_block_size as int,
                    ss,
                    content@,
                    0,
                    spec_block_count(content@.len() as int, ss),
                );
                match r {
                    Result::Ok(u) => spec_r == Result::<Seq<u8>, VolumeError>::Ok(final(self)@),
                    Result::Err(e) => spec_r == Result::<Seq<u8>, VolumeError>::Err(e)
                        && final(self)@ == old(self)@,
                }
            }),
    {
        if logical_block_size <= 0 {
            return Result::Err(
                VolumeError::UnsupportedBlockSize { value: logical_block_size },
            );
        }
        if directory_record.location_of_extent < 0 {
            return Result::Err(
                VolumeError::InvalidExtent {
                    location: directory_record.location_of_extent,
                    data_length: directory_record.data_length,
                },
            );
        }

        let lbs: usize = logical_block_size as usize;
        let ss: usize = lbs + 304;
        let image_len: u64 = self.data.len() as u64;
        let clen: u64 = content.len() as u64;
        let blocks: u64 = (clen + ss as u64 - 1) / ss as u64;
        proof {
            assert((directory_record.location_of_extent as int) * (ss as int) <= 0x7FFF_FFFF
                * 33071) by (nonlinear_arith)
                requires
                    0 <= directory_record.location_of_extent as int <= 0x7FFF_FFFF,
                    0 <= ss as int <= 33071,
            ;
        }
        let base: u64 = directory_record.location_of_extent as u64 * ss as u64;
        let ghost base0: int = base as int;
        let ghost image0: Seq<u8> = self@;

        // Validate every target offset before the first byte is written.
        let mut pos: u64 = base;
        let mut written: u64 = 0;
        let mut i: u64 = 0;
        while i < blocks
            invariant
                self.wf(),
                self@ == image0,
                image0 == old(self)@,
                image_len == self@.len(),
                image_len <= usize::MAX,
                1 <= lbs <= 32767,
                ss == lbs + 304,
                lbs == logical_block_size,
                directory_record.location_of_extent >= 0,
                base0 == directory_record.location_of_extent * (logical_block_size + 304),
                blocks == spec_block_count(clen as int, ss as int),
                i <= blocks,
                written <= clen,
                clen == content@.len(),
                clen <= 0x7FFF_FFFF,
                pos <= 0x8000_0000_0000,
                ({
                    let head = spec_replace(
                        image0,
                        base0,
                        lbs as int,
                        ss as int,
                        content@,
                        0,
                        blocks as int,
                    );
                    let tail = spec_replace(
                        image0,
                        pos as int,
                        lbs as int,
                        ss as int,
                        content@,
                        written as int,
                        blocks - i,
                    );
                    &&& (head is Err <==> tail is Err)
                    &&& (head is Err ==> head == tail)
                }),
            decreases blocks - i,
        {
            let tw: u64 = if written + lbs as u64 > clen {
                clen - written
            } else {
                lbs as u64
            };
            if pos + 24 > image_len || tw > image_len - (pos + 24) {
                return Result::Err(VolumeError::OutOfBounds { offset: pos + 24 });
            }
            proof {
                let spliced = splice_bytes(
                    image0,
                    pos + 24,
                    content@.subrange(written as int, written + tw),
                );
                lemma_replace_err_same_len(
                    spliced,
                    image0,
                    pos + ss,
                    lbs as int,
                    ss as int,
                    content@,
                    written + tw,
                    blocks - i - 1,
                );
            }
            written = written + tw;
            pos = pos + ss as u64;
            i = i + 1;
        }

        // Every write fits; now apply them.
        let mut pos: u64 = base;
        let mut written: u64 = 0;
        let mut i: u64 = 0;
        while i < blocks
            invariant
                image_len == self@.len(),
                image_len <= usize::MAX,
                image_len <= MAX_IMAGE_BYTES,
                1 <= lbs <= 32767,
                ss == lbs + 304,
                i <= blocks,
                written <= clen,
                clen == content@.len(),
                clen <= 0x7FFF_FFFF,
                pos <= 0x8000_0000_0000,
                spec_replace(image0, base0, lbs as int, ss as int, content@, 0, blocks as int)
                    is Ok,
                spec_replace(
                    self@,
                    pos as int,
                    lbs as int,
                    ss as int,
                    content@,
                    written as int,
                    blocks - i,
                ) == spec_replace(
                    image0,
                    base0,
                    lbs as int,
                    ss as int,
                    content@,
                    0,
                    blocks as int,
                ),
            decreases blocks - i,
        {
            let tw: u64 = if written + lbs as u64 > clen {
                clen - written
            } else {
                lbs as u64
            };
            proof {
                assert(spec_replace(
                    self@,
                    pos as int,
                    lbs as int,
                    ss as int,
                    content@,
                    written as int,
                    blocks - i,
                ) is Ok);
                assert(pos + 24 + tw <= self@.len());
            }
            let patch = copy_range(content.as_slice(), written as usize, (written + tw) as usize);
            write_bytes_into(&mut self.data, (pos + 24) as usize, patch.as_slice());
            written = written + tw;
            pos = pos + ss as u64;
            i = i + 1;
        }
        proof {
            assert(spec_replace(
                self@,
                pos as int,
                lbs as int,
                ss as int,
                content@,
                written as int,
                0,
            ) == Result::<Seq<u8>, VolumeError>::Ok(self@));
        }
        Result::Ok(())
    }
}

/// The mathematical images of a run of records.
pub open spec fn record_views(s: Seq<DirectoryRecord>) -> Seq<DirectoryRecordView> {
    s.map_values(|r: DirectoryRecord| r@)
}

/// The records packed into one directory block, read from payload offset
/// `idx` on.  Each record starts just past the block's XA subheader region,
/// announces its own length, and a length byte of zero ends the block.
pub open spec fn spec_block_records(block: Seq<u8>, idx: int, lbs: int) -> Result<
    Seq<DirectoryRecordView>,
    DirectoryRecordError,
>
    decreases
            (if idx < lbs {
                lbs - idx
            } else {
                0
            }),
{
    if idx >= lbs {
        Result::Ok(Seq::empty())
    } else {
        let rb = idx + 24;
        let rl = block[rb] as int;
        if rl == 0 {
            Result::Ok(Seq::empty())
        } else {
            match spec_unserialize(block.subrange(rb, rb + rl)) {
                Result::Ok(v) => match spec_block_records(block, idx + rl, lbs) {
                    Result::Ok(rest) => Result::Ok(seq![v] + rest),
                    Result::Err(e) => Result::Err(e),
                },
                Result::Err(e) => Result::Err(e),
            }
        }
    }
}

/// The records of a directory extent, read one sector at a time from byte
/// offset `pos` while `left` content bytes remain.
pub open spec fn spec_read_records(
    image: Seq<u8>,
    pos: int,
    lbs: int,
    ss: int,
    left: int,
) -> Result<Seq<DirectoryRecordView>, VolumeError>
    decreases
            (if left > 0 {
                left
            } else {
                0
            }),
{
    if left <= 0 || lbs <= 0 {
        Result::Ok(Seq::empty())
    } else if pos + ss > image.len() {
        Result::Err(VolumeError::OutOfBounds { offset: pos as u64 })
    } else {
        match spec_block_records(image.subrange(pos, pos + ss), 0, lbs) {
            Result::Ok(recs) => match spec_read_records(image, pos + ss, lbs, ss, left - lbs) {
                Result::Ok(rest) => Result::Ok(recs + rest),
                Result::Err(e) => Result::Err(e),
            },
            Result::Err(e) => Result::Err(VolumeError::Record { error: e }),
        }
    }
}

/// Reads the records packed into one directory block.
fn records_in_block(block: &Vec<u8>, lbs: usize) -> (r: Result<
    Vec<DirectoryRecord>,
    DirectoryRecordError,
>)
    requires
        1 <= lbs <= 32767,
        block@.len() == lbs + 304,
    ensures
        match r {
            Result::Ok(v) => spec_block_records(block@, 0, lbs as int) == Result::<
                Seq<DirectoryRecordView>,
                DirectoryRecordError,
            >::Ok(record_views(v@)),
            Result::Err(e) => spec_block_records(block@, 0, lbs as int) == Result::<
                Seq<DirectoryRecordView>,
                DirectoryRecordError,
            >::Err(e),
        },
{
    let mut acc: Vec<DirectoryRecord> = Vec::new();
    let mut idx: usize = 0;
    while idx < lbs
        invariant
            1 <= lbs <= 32767,
            block@.len() == lbs + 304,
            idx <= lbs + 254,
            ({
                match spec_block_records(block@, idx as int, lbs as int) {
                    Result::Ok(rest) => spec_block_records(block@, 0, lbs as int) == Result::<
                        Seq<DirectoryRecordView>,
                        DirectoryRecordError,
                    >::Ok(record_views(acc@) + rest),
                    Result::Err(e) => spec_block_records(block@, 0, lbs as int) == Result::<
                        Seq<DirectoryRecordView>,
                        DirectoryRecordError,
                    >::Err(e),
                }
            }),
        decreases (if idx < lbs {
            lbs - idx
        } else {
            0int
        }),
    {
        let rb: usize = idx + 24;
        let rl: usize = block[rb] as usize;
        if rl == 0 {
            proof {
                assert(record_views(acc@) + Seq::<DirectoryRecordView>::empty() =~= record_views(
                    acc@,
                ));
            }
            return Result::Ok(acc);
        }
        let record_bytes = copy_range(block.as_slice(), rb, rb + rl);
        match DirectoryRecord::unserialize(record_bytes.as_slice()) {
            Result::Ok(record) => {
                let ghost before = acc@;
                acc.push(record);
                proof {
                    assert(record_views(acc@) =~= record_views(before) + seq![record@]);
                    match spec_block_records(block@, idx + rl, lbs as int) {
                        Result::Ok(rest) => {
                            assert(record_views(before) + (seq![record@] + rest) =~= record_views(
                                acc@,
                            ) + rest);
                        },
                        Result::Err(e) => {},
                    }
                }
            },
            Result::Err(e) => {
                return Result::Err(e);
            },
        }
        idx = idx + rl;
    }
    proof {
        assert(record_views(acc@) + Seq::<DirectoryRecordView>::empty() =~= record_views(acc@));
    }
    Result::Ok(acc)
}

/// The content bytes of a file extent, read from byte offset `pos` with
/// `blocks` sectors to go and `left` content bytes outstanding.  Every
/// block's payload is read past the XA subheader; the last block supplies
/// exactly the outstanding bytes and its trailing framing is never touched.
pub open spec fn spec_read_file(
    image: Seq<u8>,
    pos: int,
    lbs: int,
    ss: int,
    left: int,
    blocks: int,
) -> Result<Seq<u8>, VolumeError>
    decreases
            (if blocks > 0 {
                blocks
            } else {
                0
            }),
{
    if blocks <= 0 {
        Result::Ok(Seq::empty())
    } else if blocks == 1 {
        if pos + 24 + left > image.len() {
            Result::Err(VolumeError::OutOfBounds { offset: (pos + 24) as u64 })
        } else {
            Result::Ok(image.subrange(pos + 24, pos + 24 + left))
        }
    } else if pos + 24 + lbs > image.len() {
        Result::Err(VolumeError::OutOfBounds { offset: (pos + 24) as u64 })
    } else {
        match spec_read_file(image, pos + ss, lbs, ss, left - lbs, blocks - 1) {
            Result::Ok(rest) => Result::Ok(image.subrange(pos + 24, pos + 24 + lbs) + rest),
            Result::Err(e) => Result::Err(e),
        }
    }
}

/// Number of sectors a read or write of `dl` content bytes touches.
pub open spec fn spec_block_count(dl: int, ss: int) -> int {
    (dl + ss - 1) / ss
}

/// All blocks but the last start strictly inside the `dl` content bytes.
pub proof fn lemma_block_count_covers(dl: int, ss: int)
    requires
        dl >= 1,
        ss >= 1,
    ensures
        (spec_block_count(dl, ss) - 1) * ss < dl,
        spec_block_count(dl, ss) >= 1,
{
    let x = dl + ss - 1;
    let q = x / ss;
    let r = x % ss;
    vstd::arithmetic::div_mod::lemma_fundamental_div_mod(x, ss);
    vstd::arithmetic::div_mod::lemma_mod_bound(x, ss);
    assert((q - 1) * ss == ss * q - ss) by (nonlinear_arith);
    assert(ss * q == x - r);
    assert((q - 1) * ss == dl - 1 - r);
    assert(q >= 1) by (nonlinear_arith)
        requires
            ss * q == x - r,
            x - r >= 1,
            ss >= 1,
            q == x / ss,
            0 <= r < ss,
            x >= ss,
    ;
}

/// The image after writing replacement content block by block: each block
/// takes up to one logical block of content just past its XA subheader,
/// the last block only what remains, and the framing bytes are preserved.
/// A write that would leave the image fails with its offset.
pub open spec fn spec_replace(
    image: Seq<u8>,
    pos: int,
    lbs: int,
    ss: int,
    content: Seq<u8>,
    written: int,
    blocks: int,
) -> Result<Seq<u8>, VolumeError>
    decreases
            (if blocks > 0 {
                blocks
            } else {
                0
            }),
{
    if blocks <= 0 {
        Result::Ok(image)
    } else {
        let tw = if written + lbs > content.len() {
            content.len() - written
        } else {
            lbs
        };
        if pos + 24 + tw > image.len() {
            Result::Err(VolumeError::OutOfBounds { offset: (pos + 24) as u64 })
        } else {
            spec_replace(
                splice_bytes(image, pos + 24, content.subrange(written, written + tw)),
                pos + ss,
                lbs,
                ss,
                content,
                written + tw,
                blocks - 1,
            )
        }
    }
}

/// Whether a block-by-block write fails, and with which failure, depends
/// only on the image's length, never on its bytes.
pub proof fn lemma_replace_err_same_len(
    img1: Seq<u8>,
    img2: Seq<u8>,
    pos: int,
    lbs: int,
    ss: int,
    content: Seq<u8>,
    written: int,
    blocks: int,
)
    requires
        img1.len() == img2.len(),
    ensures
        spec_replace(img1, pos, lbs, ss, content, written, blocks) is Err <==> spec_replace(
            img2,
            pos,
            lbs,
            ss,
            content,
            written,
            blocks,
        ) is Err,
        spec_replace(img1, pos, lbs, ss, content, written, blocks) is Err ==> spec_replace(
            img1,
            pos,
            lbs,
            ss,
            content,
            written,
            blocks,
        ) == spec_replace(img2, pos, lbs, ss, content, written, blocks),
    decreases
            (if blocks > 0 {
                blocks
            } else {
                0
            }),
{
    if blocks <= 0 {
    } else {
        let tw = if written + lbs > content.len() {
            content.len() - written
        } else {
            lbs
        };
        if pos + 24 + tw > img1.len() {
        } else {
            lemma_replace_err_same_len(
                splice_bytes(img1, pos + 24, content.subrange(written, written + tw)),
                splice_bytes(img2, pos + 24, content.subrange(written, written + tw)),
                pos + ss,
                lbs,
                ss,
                content,
                written + tw,
                blocks - 1,
            );
        }
    }
}

/// A successful block-by-block write keeps the image's length.
pub proof fn lemma_replace_keeps_len(
    image: Seq<u8>,
    pos: int,
    lbs: int,
    ss: int,
    content: Seq<u8>,
    written: int,
    blocks: int,
)
    ensures
        spec_replace(image, pos, lbs, ss, content, written, blocks) matches Ok(out) ==> out.len()
            == image.len(),
    decreases
            (if blocks > 0 {
                blocks
            } else {
                0
            }),
{
    if blocks <= 0 {
    } else {
        let tw = if written + lbs > content.len() {
            content.len() - written
        } else {
            lbs
        };
        if pos + 24 + tw > image.len() {
        } else {
            lemma_replace_keeps_len(
                splice_bytes(image, pos + 24, content.subrange(written, written + tw)),
                pos + ss,
                lbs,
                ss,
                content,
                written + tw,
                blocks - 1,
            );
        }
    }
}

/// A block-by-block write never touches bytes before its first payload.
proof fn lemma_replace_untouched_below(
    image: Seq<u8>,
    pos: int,
    lbs: int,
    ss: int,
    content: Seq<u8>,
    written: int,
    blocks: int,
    j: int,
)
    requires
        ss >= 1,
        lbs >= 0,
        0 <= written <= content.len(),
        0 <= j < pos + 24,
        spec_replace(image, pos, lbs, ss, content, written, blocks) is Ok,
    ensures
        spec_replace(image, pos, lbs, ss, content, written, blocks) matches Ok(out) ==> out[j]
            == image[j],
    decreases
            (if blocks > 0 {
                blocks
            } else {
                0
            }),
{
    if blocks <= 0 {
    } else {
        let tw = if written + lbs > content.len() {
            content.len() - written
        } else {
            lbs
        };
        assert(pos + 24 + tw <= image.len());
        let spliced = splice_bytes(image, pos + 24, content.subrange(written, written + tw));
        assert(spec_replace(image, pos, lbs, ss, content, written, blocks) == spec_replace(
            spliced,
            pos + ss,
            lbs,
            ss,
            content,
            written + tw,
            blocks - 1,
        ));
        lemma_replace_untouched_below(
            spliced,
            pos + ss,
            lbs,
            ss,
            content,
            written + tw,
            blocks - 1,
            j,
        );
        assert(spliced[j] == image[j]);
    }
}

/// After a block-by-block write succeeds, reading the same span back gives
/// exactly the bytes that were written, as long as every remaining content
/// byte fits in the payloads of the remaining blocks.
proof fn lemma_replace_read_back(
    image: Seq<u8>,
    pos: int,
    lbs: int,
    ss: int,
    content: Seq<u8>,
    written: int,
    blocks: int,
)
    requires
        lbs >= 1,
        ss == lbs + 304,
        pos >= 0,
        0 <= written <= content.len(),
        content.len() - written <= blocks * lbs,
        blocks >= 1 ==> content.len() - written > (blocks - 1) * lbs,
        blocks >= 0,
        spec_replace(image, pos, lbs, ss, content, written, blocks) is Ok,
    ensures
        spec_replace(image, pos, lbs, ss, content, written, blocks) matches Ok(out)
            ==> spec_read_file(out, pos, lbs, ss, content.len() - written, blocks) == Result::<
            Seq<u8>,
            VolumeError,
        >::Ok(content.skip(written)),
    decreases
            (if blocks > 0 {
                blocks
            } else {
                0
            }),
{
    let rem = content.len() - written;
    if blocks <= 0 {
        assert(blocks * lbs <= 0) by (nonlinear_arith)
            requires
                blocks <= 0,
                lbs >= 1,
        ;
        assert(rem == 0);
        assert(content.skip(written) =~= Seq::<u8>::empty());
    } else if blocks == 1 {
        assert(rem <= lbs);
        let tw = if written + lbs > content.len() {
            content.len() - written
        } else {
            lbs
        };
        assert(tw == rem);
        assert(pos + 24 + tw <= image.len());
        let out = splice_bytes(image, pos + 24, content.subrange(written, written + rem));
        assert(spec_replace(image, pos, lbs, ss, content, written, blocks) == spec_replace(
            out,
            pos + ss,
            lbs,
            ss,
            content,
            written + rem,
            0,
        ));
        assert(out.subrange(pos + 24, pos + 24 + rem) =~= content.subrange(
            written,
            written + rem,
        ));
        assert(content.subrange(written, written + rem) =~= content.skip(written));
    } else {
        assert((blocks - 1) * lbs >= lbs) by (nonlinear_arith)
            requires
                blocks >= 2,
                lbs >= 1,
        ;
        assert(rem > lbs);
        let tw = lbs;
        assert(pos + 24 + tw <= image.len());
        let spliced = splice_bytes(image, pos + 24, content.subrange(written, written + lbs));
        assert(spec_replace(image, pos, lbs, ss, content, written, blocks) == spec_replace(
            spliced,
            pos + ss,
            lbs,
            ss,
            content,
            written + lbs,
            blocks - 1,
        ));
        assert((blocks - 1) * lbs == blocks * lbs - lbs) by (nonlinear_arith);
        assert((blocks - 2) * lbs == (blocks - 1) * lbs - lbs) by (nonlinear_arith);
        lemma_replace_read_back(spliced, pos + ss, lbs, ss, content, written + lbs, blocks - 1);
        let out = spec_replace(
            spliced,
            pos + ss,
            lbs,
            ss,
            content,
            written + lbs,
            blocks - 1,
        )->Ok_0;
        assert forall|j: int| pos + 24 <= j < pos + 24 + lbs implies out[j] == spliced[j] by {
            lemma_replace_untouched_below(
                spliced,
                pos + ss,
                lbs,
                ss,
                content,
                written + lbs,
                blocks - 1,
                j,
            );
        }
        lemma_replace_keeps_len(
            spliced,
            pos + ss,
            lbs,
            ss,
            content,
            written + lbs,
            blocks - 1,
        );
        assert(out.subrange(pos + 24, pos + 24 + lbs) =~= content.subrange(
            written,
            written + lbs,
        ));
        assert(content.subrange(written, written + lbs) + content.skip(written + lbs)
            =~= content.skip(written));
    }
}

/// Law: after `spec_replace` stores a file's content, `spec_read_file`
/// over the same span returns exactly that content, whenever the content
/// fits in the payload bytes of the sectors its own length spans (that is,
/// its length is at most the block count times the logical block size).
pub proof fn lemma_replace_then_read(
    image: Seq<u8>,
    base: int,
    lbs: int,
    content: Seq<u8>,
)
    requires
        lbs >= 1,
        base >= 0,
        content.len() <= spec_block_count(content.len() as int, lbs + 304) * lbs,
        spec_replace(
            image,
            base,
            lbs,
            lbs + 304,
            content,
            0,
            spec_block_count(content.len() as int, lbs + 304),
        ) is Ok,
    ensures
        spec_replace(
            image,
            base,
            lbs,
            lbs + 304,
            content,
            0,
            spec_block_count(content.len() as int, lbs + 304),
        ) matches Ok(out) ==> spec_read_file(
            out,
            base,
            lbs,
            lbs + 304,
            content.len() as int,
            spec_block_count(content.len() as int, lbs + 304),
        ) == Result::<Seq<u8>, VolumeError>::Ok(content),
{
    let ss = lbs + 304;
    let blocks = spec_block_count(content.len() as int, ss);
    if content.len() == 0 {
        vstd::arithmetic::div_mod::lemma_basic_div(ss - 1, ss);
        assert(blocks == 0);
    } else {
        lemma_block_count_covers(content.len() as int, ss);
        assert((blocks - 1) * ss >= (blocks - 1) * lbs) by (nonlinear_arith)
            requires
                blocks >= 1,
                ss >= lbs,
        ;
    }
    lemma_replace_read_back(image, base, lbs, ss, content, 0, blocks);
    assert(content.skip(0) =~= content);
}

/// Whether two byte slices hold the same bytes.
fn bytes_equal(a: &[u8], b: &[u8]) -> (r: bool)
    ensures
        r == (a@ == b@),
{
    let n = a.len();
    if n != b.len() {
        proof {
            assert(a@.len() != b@.len());
        }
        return false;
    }
    let mut i: usize = 0;
    while i < n
        invariant
            i <= n,
            n == a@.len() == b@.len(),
            forall|j: int| 0 <= j < i ==> a@[j] == b@[j],
        decreases n - i,
    {
        if a[i] != b[i] {
            return false;
        }
        i = i + 1;
    }
    proof {
        assert(a@ =~= b@);
    }
    true
}

} // verus!
