//! Directory records: the catalog entries of a volume's directory tree
//! (ECMA-119, section 9.1).

use vstd::prelude::*;
use vstd::utf8::decode_utf8;
use vstd::utf8::valid_utf8;
use vstd::string::StrSliceExecFns;
use crate::byte_range::ByteRange;
use crate::byte_range::be_bytes_16;
use crate::byte_range::be_bytes_32;
use crate::byte_range::le_bytes_16;
use crate::byte_range::le_bytes_32;
use crate::byte_range::le_unsigned;
use crate::byte_range::signed16;
use crate::byte_range::signed32;
use crate::fields::BothEndianI16;
use crate::fields::BothEndianI32;
use crate::fields::DateAndTime;
use crate::fields::timestamp_chars;
use crate::numeric::spec_parse_int;
use crate::text::utf8_to_string;
use crate::traits::Serialize;
use crate::traits::Unserialize;

verus! {

/// Failure while reading a directory record out of bytes.
#[derive(Clone, Copy, Debug, PartialEq, Eq, Structural)]
pub enum DirectoryRecordError {
    /// The buffer is shorter than the record claims to be.
    NotEnoughBytes,
}

/// File flag bit marking a directory (ECMA-119, table 10, bit 1).
pub const FLAG_DIRECTORY: u8 = 2;

/// File flag bit marking an associated file (bit 2).
pub const FLAG_ASSOCIATED_FILE: u8 = 4;

/// File flag bit marking a record-format file (bit 3).
pub const FLAG_RECORD: u8 = 8;

/// File flag bit marking a multi-extent file (bit 7).
pub const FLAG_MULTI_EXTENT: u8 = 128;

/// One catalog entry: a file or a subdirectory.
#[derive(Clone, Copy, Debug, PartialEq, Eq)]
pub struct DirectoryRecord {
    /// Length of the whole record in bytes (LEN_DR, byte position 1).
    /// Zero is the end-of-block sentinel, never a real record.
    pub length: u8,
    /// Extended attribute record length (byte position 2); zero when no
    /// extended attribute record is recorded.
    pub extended_attribute_record: u8,
    /// Logical block number of the first block of the extent
    /// (byte positions 3 to 10, dual-endian).
    pub location_of_extent: i32,
    /// Byte size of the extent's content (byte positions 11 to 18,
    /// dual-endian).
    pub data_length: i32,
    /// Raw recording timestamp: years since 1900, month, day, hour, minute,
    /// second, and an offset byte this engine does not read.
    pub recording_date_and_time: [u8; 7],
    /// File flag bits (byte position 26).
    pub file_flags: u8,
    /// File unit size for interleaved recording, else zero.
    pub file_unit_size: u8,
    /// Interleave gap size for interleaved recording, else zero.
    pub interleave_gap_size: u8,
    /// Ordinal of the volume holding the extent (dual-endian).
    pub volume_sequence_number: i16,
    /// Length in bytes of the identifier tail.
    pub file_identifier_length: u8,
    /// The identifier bytes, zero-filled past `file_identifier_length`.
    pub file_identifier: [u8; 255],
}

/// The mathematical image of a [`DirectoryRecord`].
pub struct DirectoryRecordView {
    /// Length of the whole record in bytes.
    pub length: u8,
    /// Extended attribute record length.
    pub extended_attribute_record: u8,
    /// First logical block of the extent.
    pub location_of_extent: i32,
    /// Byte size of the extent's content.
    pub data_length: i32,
    /// The 7 raw timestamp bytes.
    pub recording_date_and_time: Seq<u8>,
    /// File flag bits.
    pub file_flags: u8,
    /// File unit size.
    pub file_unit_size: u8,
    /// Interleave gap size.
    pub interleave_gap_size: u8,
    /// Ordinal of the volume holding the extent.
    pub volume_sequence_number: i16,
    /// Length of the identifier tail.
    pub file_identifier_length: u8,
    /// The 255 identifier bytes, zero-filled past the identifier length.
    pub file_identifier: Seq<u8>,
}

impl View for DirectoryRecord {
    type V = DirectoryRecordView;

    open spec fn view(&self) -> DirectoryRecordView {
        DirectoryRecordView {
            length: self.length,
            extended_attribute_record: self.extended_attribute_record,
            location_of_extent: self.location_of_extent,
            data_length: self.data_length,
            recording_date_and_time: self.recording_date_and_time@,
            file_flags: self.file_flags,
            file_unit_size: self.file_unit_size,
            interleave_gap_size: self.interleave_gap_size,
            volume_sequence_number: self.volume_sequence_number,
            file_identifier_length: self.file_identifier_length,
            file_identifier: self.file_identifier@,
        }
    }
}

/// The record read from the front of `data`: every fixed field at its
/// declared offset, then `data[32]` identifier bytes from offset 33 on.
/// Fails when the buffer is shorter than the fixed 34-byte prefix or than
/// the identifier tail needs.
pub open spec fn spec_unserialize(data: Seq<u8>) -> Result<
    DirectoryRecordView,
    DirectoryRecordError,
> {
    if data.len() < 34 {
        Result::Err(DirectoryRecordError::NotEnoughBytes)
    } else if 33 + data[32] > data.len() {
        Result::Err(DirectoryRecordError::NotEnoughBytes)
    } else {
        Result::Ok(
            DirectoryRecordView {
                length: data[0],
                extended_attribute_record: data[1],
                location_of_extent: signed32(le_unsigned(data.subrange(2, 6))) as i32,
                data_length: signed32(le_unsigned(data.subrange(10, 14))) as i32,
                recording_date_and_time: data.subrange(18, 25),
                file_flags: data[25],
                file_unit_size: data[26],
                interleave_gap_size: data[27],
                volume_sequence_number: signed16(le_unsigned(data.subrange(28, 30))) as i16,
                file_identifier_length: data[32],
                file_identifier: Seq::new(
                    255,
                    |i: int|
                        if i < data[32] {
                            data[33 + i]
                        } else {
                            0u8
                        },
                ),
            },
        )
    }
}

/// The bytes `serialize` renders for a record: every fixed field at its
/// declared offset, the identifier length, and zero padding out to
/// `length` bytes.  The identifier text itself is not rendered.
pub open spec fn spec_serialize(v: DirectoryRecordView) -> Seq<u8> {
    seq![v.length, v.extended_attribute_record] + le_bytes_32(v.location_of_extent) + be_bytes_32(
        v.location_of_extent,
    ) + le_bytes_32(v.data_length) + be_bytes_32(v.data_length)
        + v.recording_date_and_time.subrange(0, 7) + seq![
        v.file_flags,
        v.file_unit_size,
        v.interleave_gap_size,
    ] + le_bytes_16(v.volume_sequence_number) + be_bytes_16(v.volume_sequence_number) + seq![
        v.file_identifier_length,
    ] + Seq::new((v.length - 33) as nat, |i: int| 0u8)
}

/// Whether flag bits mark a directory: the directory bit is set and the
/// associated-file, record, and multi-extent bits are all clear
/// (ECMA-119, 9.1.6).
pub open spec fn spec_is_dir(flags: u8) -> bool {
    &&& flags & FLAG_DIRECTORY != 0
    &&& flags & FLAG_ASSOCIATED_FILE == 0
    &&& flags & FLAG_RECORD == 0
    &&& flags & FLAG_MULTI_EXTENT == 0
}

/// Index of the first `';'` in `cs`, or the length when there is none.
pub open spec fn semicolon_index(cs: Seq<char>) -> int
    decreases cs.len(),
{
    if cs.len() == 0 {
        0
    } else if cs[0] == ';' {
        0
    } else {
        1 + semicolon_index(cs.skip(1))
    }
}

/// The first semicolon index is the first scan position that is either the
/// end or a semicolon.
pub proof fn lemma_semicolon_index_of_scan(cs: Seq<char>, j: int)
    requires
        0 <= j <= cs.len(),
        forall|k: int| 0 <= k < j ==> cs[k] != ';',
        j == cs.len() || cs[j] == ';',
    ensures
        semicolon_index(cs) == j,
    decreases cs.len(),
{
    if cs.len() == 0 {
    } else if cs[0] == ';' {
    } else {
        assert(j >= 1);
        let rest = cs.skip(1);
        assert forall|k: int| 0 <= k < j - 1 implies rest[k] != ';' by {
            assert(rest[k] == cs[k + 1]);
        }
        assert(j - 1 == rest.len() || rest[j - 1] == ';');
        lemma_semicolon_index_of_scan(rest, j - 1);
    }
}

/// The identifier bytes a record's name and version are read from.
pub open spec fn identifier_bytes(v: DirectoryRecordView) -> Seq<u8> {
    v.file_identifier.subrange(0, v.file_identifier_length as int)
}

/// The name of a record: the identifier's characters before the first
/// `';'`, or nothing at all when the identifier starts with a zero byte.
pub open spec fn spec_name_chars(v: DirectoryRecordView) -> Seq<char> {
    if v.file_identifier[0] == 0 {
        Seq::empty()
    } else {
        let cs = decode_utf8(identifier_bytes(v));
        cs.take(semicolon_index(cs))
    }
}

/// Whether the name of a record can be read at all: a zero-led identifier
/// is always readable (as the empty name); anything else must be valid
/// UTF-8.
pub open spec fn spec_name_readable(v: DirectoryRecordView) -> bool {
    v.file_identifier[0] == 0 || valid_utf8(identifier_bytes(v))
}

/// The version of a record: the decimal number after the first `';'` of
/// the identifier, or zero when there is no `';'`, no readable identifier,
/// or no number an 8-bit value can hold.
pub open spec fn spec_file_version(v: DirectoryRecordView) -> u8 {
    if v.file_identifier[0] == 0 || !valid_utf8(identifier_bytes(v)) {
        0
    } else {
        let cs = decode_utf8(identifier_bytes(v));
        let j = semicolon_index(cs);
        if j == cs.len() {
            0
        } else {
            match spec_parse_int(cs.skip(j + 1), 10, 0, 255) {
                Option::Some(n) => n as u8,
                Option::None => 0,
            }
        }
    }
}

impl DirectoryRecord {
    /// Reads one record from the front of `data`.
    pub fn unserialize(data: &[u8]) -> (r: Result<Self, DirectoryRecordError>)
        ensures
            match r {
                Result::Ok(rec) => spec_unserialize(data@) == Result::<
                    DirectoryRecordView,
                    DirectoryRecordError,
                >::Ok(rec@),
                Result::Err(e) => spec_unserialize(data@) == Result::<
                    DirectoryRecordView,
                    DirectoryRecordError,
                >::Err(e),
            },
    {
        let len: usize = data.len();
        if len < 34 {
            return Result::Err(DirectoryRecordError::NotEnoughBytes);
        }

        let file_identifier_length = data[32];
        if 33 + file_identifier_length as usize > len {
            return Result::Err(DirectoryRecordError::NotEnoughBytes);
        }

        let length = data[0];
        let extended_attribute_record = data[1];
        let location_of_extent = ByteRange::new(2, 10).read_as_both_endian::<i32>(data);
        let data_length = ByteRange::new(10, 18).read_as_both_endian::<i32>(data);
        let recording_date_and_time: [u8; 7] = ByteRange::new(18, 25).read_as_bytes::<7>(data);
        let file_flags = data[25];
        let file_unit_size = data[26];
        let interleave_gap_size = data[27];
        let volume_sequence_number = ByteRange::new(28, 32).read_as_both_endian::<i16>(data);

        let mut file_identifier: [u8; 255] = [0u8; 255];
        let mut i: usize = 0;
        while i < file_identifier_length as usize
            invariant
                i <= file_identifier_length as usize,
                33 + file_identifier_length as usize <= data@.len(),
                file_identifier@.len() == 255,
                forall|j: int| 0 <= j < i ==> file_identifier@[j] == data@[33 + j],
                forall|j: int| i <= j < 255 ==> file_identifier@[j] == 0,
            decreases file_identifier_length as usize - i,
        {
            file_identifier[i] = data[33 + i];
            i = i + 1;
        }
        proof {
            assert(file_identifier@ =~= Seq::new(
                255,
                |j: int|
                    if j < data@[32] {
                        data@[33 + j]
                    } else {
                        0u8
                    },
            ));
        }

        Result::Ok(
            Self {
                length,
                extended_attribute_record,
                location_of_extent,
                data_length,
                recording_date_and_time,
                file_flags,
                file_unit_size,
                interleave_gap_size,
                volume_sequence_number,
                file_identifier_length,
                file_identifier,
            },
        )
    }

    /// Renders the record into a buffer of exactly `length` bytes.  The
    /// identifier text is not rendered; its bytes stay zero.
    pub fn serialize(&self) -> (r: Vec<u8>)
        requires
            self.length >= 34,
        ensures
            r@ == spec_serialize(self@),
    {
        let mut result: Vec<u8> = vec![0u8; self.length as usize];

        result[0] = self.length;
        result[1] = self.extended_attribute_record;
        BothEndianI32::with_range(&ByteRange::new(2, 10)).write_into(
            &mut result,
            0,
            self.location_of_extent,
        );
        BothEndianI32::with_range(&ByteRange::new(10, 18)).write_into(
            &mut result,
            0,
            self.data_length,
        );
        DateAndTime::with_range(&ByteRange::new(18, 25)).write_into(
            &mut result,
            0,
            &self.recording_date_and_time,
        );
        result[25] = self.file_flags;
        result[26] = self.file_unit_size;
        result[27] = self.interleave_gap_size;
        BothEndianI16::with_range(&ByteRange::new(28, 32)).write_into(
            &mut result,
            0,
            self.volume_sequence_number,
        );
        result[32] = self.file_identifier_length;

        proof {
            assert(result@ =~= spec_serialize(self@));
        }
        result
    }

    /// The identifier's text before any `;version` suffix, or the empty
    /// string for a zero-led identifier.  Nothing is returned when the
    /// identifier is not valid UTF-8.
    pub fn file_identifier_as_string(&self) -> (r: Option<String>)
        ensures
            r is Some <==> spec_name_readable(self@),
            r matches Some(s) ==> s@ == spec_name_chars(self@),
    {
        if self.file_identifier[0] == 0 {
            return Option::Some(String::new());
        }
        let id = crate::buffer::copy_range(
            self.file_identifier.as_slice(),
            0,
            self.file_identifier_length as usize,
        );
        match utf8_to_string(id.as_slice()) {
            Option::None => Option::None,
            Option::Some(s) => {
                let n: usize = s.as_str().unicode_len();
                let mut j: usize = 0;
                while j < n && s.as_str().get_char(j) != ';'
                    invariant
                        0 <= j <= n,
                        n == s@.len(),
                        forall|k: int| 0 <= k < j ==> s@[k] != ';',
                    decreases n - j,
                {
                    j = j + 1;
                }
                proof {
                    lemma_semicolon_index_of_scan(s@, j as int);
                }
                let name = s.as_str().substring_char(0, j);
                proof {
                    assert(name@ =~= s@.take(j as int));
                }
                Option::Some(name.to_owned())
            },
        }
    }

    /// The version number after the identifier's `';'`, or zero when there
    /// is none to read.
    pub fn file_version(&self) -> (r: u8)
        ensures
            r == spec_file_version(self@),
    {
        if self.file_identifier[0] == 0 {
            return 0;
        }
        let id = crate::buffer::copy_range(
            self.file_identifier.as_slice(),
            0,
            self.file_identifier_length as usize,
        );
        match utf8_to_string(id.as_slice()) {
            Option::None => 0,
            Option::Some(s) => {
                let n: usize = s.as_str().unicode_len();
                let mut j: usize = 0;
                while j < n && s.as_str().get_char(j) != ';'
                    invariant
                        0 <= j <= n,
                        n == s@.len(),
                        forall|k: int| 0 <= k < j ==> s@[k] != ';',
                    decreases n - j,
                {
                    j = j + 1;
                }
                proof {
                    lemma_semicolon_index_of_scan(s@, j as int);
                }
                if j == n {
                    0
                } else {
                    match crate::numeric::parse_u8_span(s.as_str(), j + 1) {
                        Option::Some(v) => v,
                        Option::None => 0,
                    }
                }
            },
        }
    }

    /// Whether the record marks a directory (ECMA-119, 9.1.6): true exactly
    /// when the directory bit is set and the associated-file, record, and
    /// multi-extent bits are all clear.
    pub fn is_dir(&self) -> (r: bool)
        ensures
            r == spec_is_dir(self.file_flags),
    {
        (self.file_flags & FLAG_DIRECTORY != 0) && (self.file_flags & FLAG_ASSOCIATED_FILE == 0)
            && (self.file_flags & FLAG_RECORD == 0) && (self.file_flags & FLAG_MULTI_EXTENT == 0)
    }

    /// The recording timestamp rendered as `YYYY-MM-DD HH:MM:SS`.
    pub fn recording_date_and_time_formatted(&self) -> (r: String)
        ensures
            r@ == timestamp_chars(self.recording_date_and_time@),
    {
        DateAndTime::format_by_bytes(&self.recording_date_and_time)
    }
}

impl Serialize for DirectoryRecord {
    fn serialize(&self) -> Vec<u8> {
        if self.length >= 34 {
            DirectoryRecord::serialize(self)
        } else {
            Vec::new()
        }
    }
}

impl Unserialize<DirectoryRecordError> for DirectoryRecord {
    fn unserialize(data: &[u8]) -> Result<Self, DirectoryRecordError> {
        DirectoryRecord::unserialize(data)
    }
}

/// Law: decoding what `serialize` rendered reproduces every fixed field of
/// the record — extent location, data length, timestamp, flags, file unit
/// size, interleave gap size, volume sequence number, and identifier
/// length.  The identifier bytes themselves are not rendered, so they read
/// back as zero.
pub proof fn lemma_serialize_round_trip(v: DirectoryRecordView)
    requires
        v.length >= 34,
        33 + v.file_identifier_length <= v.length,
        v.recording_date_and_time.len() == 7,
    ensures
        spec_unserialize(spec_serialize(v)) is Ok,
        ({
            let u = spec_unserialize(spec_serialize(v))->Ok_0;
            &&& u.length == v.length
            &&& u.extended_attribute_record == v.extended_attribute_record
            &&& u.location_of_extent == v.location_of_extent
            &&& u.data_length == v.data_length
            &&& u.recording_date_and_time == v.recording_date_and_time
            &&& u.file_flags == v.file_flags
            &&& u.file_unit_size == v.file_unit_size
            &&& u.interleave_gap_size == v.interleave_gap_size
            &&& u.volume_sequence_number == v.volume_sequence_number
            &&& u.file_identifier_length == v.file_identifier_length
        }),
{
    let s = spec_serialize(v);
    assert(s.len() == v.length);
    crate::fields::lemma_both_endian_round_trip_i32(v.location_of_extent);
    crate::fields::lemma_both_endian_round_trip_i32(v.data_length);
    crate::fields::lemma_both_endian_round_trip_i16(v.volume_sequence_number);
    assert(s.subrange(2, 6) =~= le_bytes_32(v.location_of_extent));
    assert(s.subrange(10, 14) =~= le_bytes_32(v.data_length));
    assert(s.subrange(18, 25) =~= v.recording_date_and_time.subrange(0, 7));
    assert(s.subrange(28, 30) =~= le_bytes_16(v.volume_sequence_number));
    assert(v.recording_date_and_time.subrange(0, 7) =~= v.recording_date_and_time);
}

} // verus!
