//! The ZIP/APK container model: byte-level structures, parsing, and
//! re-serialization.
//!
//! Every structure is modelled twice: an executable struct holding owned
//! buffers, and a mathematical view over `Seq<u8>`. The spec functions
//! `spec_parse_*` and `*_bytes` define what parsing and serialization mean;
//! each executable function is proved to match them exactly.

use vstd::prelude::*;

verus! {

use vstd::slice::{slice_subrange, slice_to_vec};
use vstd::utf8::valid_utf8;

/// Why an archive or one of its structures could not be parsed.
#[derive(Debug, Clone, Copy, PartialEq, Eq, Structural)]
pub enum FormatError {
    /// A declared length field exceeds the remaining buffer.
    Truncated,
    /// No end-of-central-directory signature within range of the buffer tail.
    EocdNotFound,
    /// The first extra-field byte carries the zip64 marker.
    UnsupportedZip64,
    /// A file-name field does not hold valid UTF-8.
    InvalidUtf8FileName,
}

/// Reads the little-endian `u16` at offset `i`.
pub open spec fn spec_le16(b: Seq<u8>, i: int) -> u16 {
    (b[i] + b[i + 1] * 0x100) as u16
}

/// Reads the little-endian `u32` at offset `i`.
pub open spec fn spec_le32(b: Seq<u8>, i: int) -> u32 {
    (b[i] + b[i + 1] * 0x100 + b[i + 2] * 0x10000 + b[i + 3] * 0x1000000) as u32
}

/// The two little-endian bytes of `x`.
pub open spec fn le16_bytes(x: u16) -> Seq<u8> {
    seq![(x % 0x100) as u8, (x / 0x100) as u8]
}

/// The four little-endian bytes of `x`.
pub open spec fn le32_bytes(x: u32) -> Seq<u8> {
    seq![
        (x % 0x100) as u8,
        ((x / 0x100) % 0x100) as u8,
        ((x / 0x10000) % 0x100) as u8,
        ((x / 0x1000000) % 0x100) as u8,
    ]
}

/// Reading back the two little-endian bytes of `x` recovers `x`.
pub proof fn lemma_le16_roundtrip(x: u16)
    ensures
        le16_bytes(x).len() == 2,
        le16_bytes(x)[0] + le16_bytes(x)[1] * 0x100 == x,
{
}

/// Reading back the four little-endian bytes of `x` recovers `x`.
pub proof fn lemma_le32_roundtrip(x: u32)
    ensures
        le32_bytes(x).len() == 4,
        le32_bytes(x)[0] + le32_bytes(x)[1] * 0x100 + le32_bytes(x)[2] * 0x10000 + le32_bytes(x)[3]
            * 0x1000000 == x,
{
    let b0 = x % 0x100;
    let b1 = (x / 0x100) % 0x100;
    let b2 = (x / 0x10000) % 0x100;
    let b3 = (x / 0x1000000) % 0x100;
    assert(b0 + b1 * 0x100 + b2 * 0x10000 + b3 * 0x1000000 == x) by (nonlinear_arith)
        requires
            b0 == x % 0x100,
            b1 == (x / 0x100) % 0x100,
            b2 == (x / 0x10000) % 0x100,
            b3 == (x / 0x1000000) % 0x100,
            0 <= x < 0x100000000,
    ;
}

/// Relies on `core::str::from_utf8`, which accepts exactly the byte
/// sequences that are valid UTF-8.
#[verifier::external_body]
fn is_utf8_bytes(b: &[u8]) -> (r: bool)
    ensures
        r == valid_utf8(b@),
{
    core::str::from_utf8(b).is_ok()
}

/// Reads the little-endian `u16` at offset `i` of `b`.
fn read_le16(b: &[u8], i: usize) -> (r: u16)
    requires
        i + 2 <= b@.len(),
    ensures
        r == spec_le16(b@, i as int),
{
    let _n: usize = b.len();
    (byte_at(b, i) as u16) + (byte_at(b, i + 1) as u16) * 0x100
}

/// Reads the little-endian `u32` at offset `i` of `b`.
fn read_le32(b: &[u8], i: usize) -> (r: u32)
    requires
        i + 4 <= b@.len(),
    ensures
        r == spec_le32(b@, i as int),
{
    let _n: usize = b.len();
    (byte_at(b, i) as u32) + (byte_at(b, i + 1) as u32) * 0x100 + (byte_at(b, i + 2) as u32)
        * 0x10000 + (byte_at(b, i + 3) as u32) * 0x1000000
}

/// Appends the two little-endian bytes of `x` to `out`.
fn push_le16(out: &mut Vec<u8>, x: u16)
    ensures
        final(out)@ == old(out)@ + le16_bytes(x),
{
    out.push((x % 0x100) as u8);
    out.push((x / 0x100) as u8);
    assert(out@ =~= old(out)@ + le16_bytes(x));
}

/// Appends the four little-endian bytes of `x` to `out`.
fn push_le32(out: &mut Vec<u8>, x: u32)
    ensures
        final(out)@ == old(out)@ + le32_bytes(x),
{
    out.push((x % 0x100) as u8);
    out.push(((x / 0x100) % 0x100) as u8);
    out.push(((x / 0x10000) % 0x100) as u8);
    out.push(((x / 0x1000000) % 0x100) as u8);
    assert(out@ =~= old(out)@ + le32_bytes(x));
}

/// The mathematical content of a [`LocalFileHeader`].
pub struct LfhView {
    pub signature: u32,
    pub version_needed_to_extract: u16,
    pub general_purpose: u16,
    pub compression_method: u16,
    pub last_mod_file_time: u16,
    pub last_mod_file_date: u16,
    pub crc_32: u32,
    pub compressed_size: u32,
    pub uncompressed_size: u32,
    pub file_name_length: u16,
    pub extra_field_length: u16,
    pub file_name: Seq<u8>,
    pub extra_field: Seq<u8>,
}

/// A ZIP local file header: the fixed 30-byte portion followed by the
/// length-prefixed file name and extra field.
#[derive(Debug, PartialEq, Eq)]
pub struct LocalFileHeader {
    pub signature: u32,
    pub version_needed_to_extract: u16,
    pub general_purpose: u16,
    pub compression_method: u16,
    pub last_mod_file_time: u16,
    pub last_mod_file_date: u16,
    pub crc_32: u32,
    pub compressed_size: u32,
    pub uncompressed_size: u32,
    pub file_name_length: u16,
    pub extra_field_length: u16,
    pub file_name: Vec<u8>,
    pub extra_field: Vec<u8>,
}

impl View for LocalFileHeader {
    type V = LfhView;

    open spec fn view(&self) -> LfhView {
        LfhView {
            signature: self.signature,
            version_needed_to_extract: self.version_needed_to_extract,
            general_purpose: self.general_purpose,
            compression_method: self.compression_method,
            last_mod_file_time: self.last_mod_file_time,
            last_mod_file_date: self.last_mod_file_date,
            crc_32: self.crc_32,
            compressed_size: self.compressed_size,
            uncompressed_size: self.uncompressed_size,
            file_name_length: self.file_name_length,
            extra_field_length: self.extra_field_length,
            file_name: self.file_name@,
            extra_field: self.extra_field@,
        }
    }
}

/// Total byte length of a local file header, computed from its length
/// fields alone.
pub open spec fn lfh_len(h: LfhView) -> int {
    30 + h.file_name_length + h.extra_field_length
}

/// The serialization of a local file header: fixed fields in declared
/// order, then file name, then extra field.
#[verifier::opaque]
pub open spec fn lfh_bytes(h: LfhView) -> Seq<u8> {
    le32_bytes(h.signature) + le16_bytes(h.version_needed_to_extract)
        + le16_bytes(h.general_purpose) + le16_bytes(h.compression_method)
        + le16_bytes(h.last_mod_file_time) + le16_bytes(h.last_mod_file_date)
        + le32_bytes(h.crc_32) + le32_bytes(h.compressed_size)
        + le32_bytes(h.uncompressed_size) + le16_bytes(h.file_name_length)
        + le16_bytes(h.extra_field_length) + h.file_name + h.extra_field
}

/// A structurally valid local file header: length fields agree with the
/// variable fields, the name is UTF-8, and no zip64 marker leads the
/// extra field.
pub open spec fn lfh_wf(h: LfhView) -> bool {
    &&& h.file_name_length == h.file_name.len()
    &&& h.extra_field_length == h.extra_field.len()
    &&& valid_utf8(h.file_name)
    &&& !(h.extra_field.len() > 0 && h.extra_field[0] == 1)
}

/// What parsing a local file header from the start of `b` yields: reads
/// the fixed fields, validates the two declared lengths against the
/// buffer, requires a UTF-8 name, and rejects a zip64 extra field.
#[verifier::opaque]
pub open spec fn spec_parse_lfh(b: Seq<u8>) -> Result<LfhView, FormatError> {
    if b.len() < 30 {
        Err(FormatError::Truncated)
    } else {
        let file_name_length = spec_le16(b, 26);
        let extra_field_length = spec_le16(b, 28);
        if 30 + file_name_length > b.len() {
            Err(FormatError::Truncated)
        } else {
            let file_name = b.subrange(30, 30 + file_name_length as int);
            if !valid_utf8(file_name) {
                Err(FormatError::InvalidUtf8FileName)
            } else if 30 + file_name_length + extra_field_length > b.len() {
                Err(FormatError::Truncated)
            } else {
                let extra_field = b.subrange(
                    30 + file_name_length as int,
                    30 + file_name_length + extra_field_length,
                );
                if extra_field.len() > 0 && extra_field[0] == 1 {
                    Err(FormatError::UnsupportedZip64)
                } else {
                    Ok(
                        LfhView {
                            signature: spec_le32(b, 0),
                            version_needed_to_extract: spec_le16(b, 4),
                            general_purpose: spec_le16(b, 6),
                            compression_method: spec_le16(b, 8),
                            last_mod_file_time: spec_le16(b, 10),
                            last_mod_file_date: spec_le16(b, 12),
                            crc_32: spec_le32(b, 14),
                            compressed_size: spec_le32(b, 18),
                            uncompressed_size: spec_le32(b, 22),
                            file_name_length,
                            extra_field_length,
                            file_name,
                            extra_field,
                        },
                    )
                }
            }
        }
    }
}

impl LocalFileHeader {
    /// Byte length of this header as declared by its length fields.
    pub fn len(&self) -> (r: usize)
        ensures
            r == lfh_len(self@),
    {
        30 + self.file_name_length as usize + self.extra_field_length as usize
    }

    /// Parses a local file header from the start of `value`.
    pub fn parse(value: &[u8]) -> (r: Result<LocalFileHeader, FormatError>)
        ensures
            match (r, spec_parse_lfh(value@)) {
                (Ok(h), Ok(v)) => h@ == v,
                (Err(e), Err(v)) => e == v,
                _ => false,
            },
    {
        proof { reveal(spec_parse_lfh); }
        if value.len() < 30 {
            return Err(FormatError::Truncated);
        }
        let file_name_length = read_le16(value, 26);
        let extra_field_length = read_le16(value, 28);

        let name_stop: usize = 30 + file_name_length as usize;
        if name_stop > value.len() {
            return Err(FormatError::Truncated);
        }
        let name_slice = slice_subrange(value, 30, name_stop);
        if !is_utf8_bytes(name_slice) {
            return Err(FormatError::InvalidUtf8FileName);
        }
        let file_name = slice_to_vec(name_slice);

        let extra_stop: usize = name_stop + extra_field_length as usize;
        if extra_stop > value.len() {
            return Err(FormatError::Truncated);
        }
        let extra_field = slice_to_vec(slice_subrange(value, name_stop, extra_stop));
        if extra_field.len() > 0 && extra_field[0] == 1 {
            return Err(FormatError::UnsupportedZip64);
        }

        Ok(
            LocalFileHeader {
                signature: read_le32(value, 0),
                version_needed_to_extract: read_le16(value, 4),
                general_purpose: read_le16(value, 6),
                compression_method: read_le16(value, 8),
                last_mod_file_time: read_le16(value, 10),
                last_mod_file_date: read_le16(value, 12),
                crc_32: read_le32(value, 14),
                compressed_size: read_le32(value, 18),
                uncompressed_size: read_le32(value, 22),
                file_name_length,
                extra_field_length,
                file_name,
                extra_field,
            },
        )
    }

    /// Serializes this header in declared field order.
    pub fn to_bytes(&self) -> (r: Vec<u8>)
        ensures
            r@ == lfh_bytes(self@),
    {
        proof { reveal(lfh_bytes); }
        let mut out: Vec<u8> = Vec::new();
        push_le32(&mut out, self.signature);
        push_le16(&mut out, self.version_needed_to_extract);
        push_le16(&mut out, self.general_purpose);
        push_le16(&mut out, self.compression_method);
        push_le16(&mut out, self.last_mod_file_time);
        push_le16(&mut out, self.last_mod_file_date);
        push_le32(&mut out, self.crc_32);
        push_le32(&mut out, self.compressed_size);
        push_le32(&mut out, self.uncompressed_size);
        push_le16(&mut out, self.file_name_length);
        push_le16(&mut out, self.extra_field_length);
        out.extend_from_slice(self.file_name.as_slice());
        out.extend_from_slice(self.extra_field.as_slice());
        assert(out@ =~= lfh_bytes(self@));
        out
    }
}

/// The mathematical content of a [`DataDiscriptor`].
pub struct DdView {
    pub signature: Option<u32>,
    pub crc_32: u32,
    pub compressed_size: u32,
    pub uncompressed_size: u32,
}

/// A trailing data descriptor; its optional leading signature is detected
/// from the bytes, never assumed.
#[derive(Debug, PartialEq, Eq)]
pub struct DataDiscriptor {
    pub signature: Option<u32>,
    pub crc_32: u32,
    pub compressed_size: u32,
    pub uncompressed_size: u32,
}

impl View for DataDiscriptor {
    type V = DdView;

    open spec fn view(&self) -> DdView {
        DdView {
            signature: self.signature,
            crc_32: self.crc_32,
            compressed_size: self.compressed_size,
            uncompressed_size: self.uncompressed_size,
        }
    }
}

/// Serialized byte length of a data descriptor.
pub open spec fn dd_len(d: DdView) -> int {
    if d.signature is Some {
        16
    } else {
        12
    }
}

/// The serialization of a data descriptor: the signature when present,
/// then CRC-32 and the two sizes.
#[verifier::opaque]
pub open spec fn dd_bytes(d: DdView) -> Seq<u8> {
    (match d.signature {
        Some(sig) => le32_bytes(sig),
        None => Seq::<u8>::empty(),
    }) + le32_bytes(d.crc_32) + le32_bytes(d.compressed_size)
        + le32_bytes(d.uncompressed_size)
}

/// A data descriptor whose serialization parses back to itself: a stored
/// signature is the magic value, and an absent one means the CRC does not
/// mimic the magic.
pub open spec fn dd_wf(d: DdView) -> bool {
    match d.signature {
        Some(sig) => sig == 0x08074b50u32,
        None => d.crc_32 != 0x08074b50u32,
    }
}

/// What parsing a data descriptor from the start of `b` yields: the
/// signature is present exactly when the first four bytes decode to the
/// descriptor magic.
#[verifier::opaque]
pub open spec fn spec_parse_dd(b: Seq<u8>) -> Result<DdView, FormatError> {
    if b.len() < 4 {
        Err(FormatError::Truncated)
    } else {
        let first = spec_le32(b, 0);
        if first == 0x08074b50u32 {
            if b.len() < 16 {
                Err(FormatError::Truncated)
            } else {
                Ok(
                    DdView {
                        signature: Some(first),
                        crc_32: spec_le32(b, 4),
                        compressed_size: spec_le32(b, 8),
                        uncompressed_size: spec_le32(b, 12),
                    },
                )
            }
        } else {
            if b.len() < 12 {
                Err(FormatError::Truncated)
            } else {
                Ok(
                    DdView {
                        signature: None,
                        crc_32: first,
                        compressed_size: spec_le32(b, 4),
                        uncompressed_size: spec_le32(b, 8),
                    },
                )
            }
        }
    }
}

impl DataDiscriptor {
    /// Serialized byte length: 16 with the leading signature, 12 without.
    pub fn len(&self) -> (r: usize)
        ensures
            r == dd_len(self@),
    {
        if self.signature.is_some() {
            16
        } else {
            12
        }
    }

    /// Parses a data descriptor from the start of `value`, detecting the
    /// optional signature from the first four bytes.
    pub fn parse(value: &[u8]) -> (r: Result<DataDiscriptor, FormatError>)
        ensures
            match (r, spec_parse_dd(value@)) {
                (Ok(d), Ok(v)) => d@ == v,
                (Err(e), Err(v)) => e == v,
                _ => false,
            },
    {
        proof { reveal(spec_parse_dd); }
        if value.len() < 4 {
            return Err(FormatError::Truncated);
        }
        let first = read_le32(value, 0);
        if first == 0x08074b50u32 {
            if value.len() < 16 {
                return Err(FormatError::Truncated);
            }
            Ok(
                DataDiscriptor {
                    signature: Some(first),
                    crc_32: read_le32(value, 4),
                    compressed_size: read_le32(value, 8),
                    uncompressed_size: read_le32(value, 12),
                },
            )
        } else {
            if value.len() < 12 {
                return Err(FormatError::Truncated);
            }
            Ok(
                DataDiscriptor {
                    signature: None,
                    crc_32: first,
                    compressed_size: read_le32(value, 4),
                    uncompressed_size: read_le32(value, 8),
                },
            )
        }
    }

    /// Serializes this descriptor, leading with the signature when present.
    pub fn to_bytes(&self) -> (r: Vec<u8>)
        ensures
            r@ == dd_bytes(self@),
    {
        proof { reveal(dd_bytes); }
        let mut out: Vec<u8> = Vec::new();
        match self.signature {
            Some(sig) => {
                push_le32(&mut out, sig);
            },
            None => {},
        }
        push_le32(&mut out, self.crc_32);
        push_le32(&mut out, self.compressed_size);
        push_le32(&mut out, self.uncompressed_size);
        assert(out@ =~= dd_bytes(self@));
        out
    }
}

/// The mathematical content of a [`CDH`].
pub struct CdhView {
    pub signature: u32,
    pub version_made_by: u16,
    pub version_needed_to_extract: u16,
    pub general_purpose: u16,
    pub compression_method: u16,
    pub last_mod_file_time: u16,
    pub last_mod_file_date: u16,
    pub crc_32: u32,
    pub compressed_size: u32,
    pub uncompressed_size: u32,
    pub file_name_length: u16,
    pub extra_field_length: u16,
    pub file_comment_length: u16,
    pub disk_number_start: u16,
    pub internal_file_attributes: u16,
    pub external_file_attributes: u32,
    pub local_header_offset: u32,
    pub file_name: Seq<u8>,
    pub extra_field: Seq<u8>,
    pub file_comment: Seq<u8>,
}

/// A central directory header: the authoritative per-entry record, whose
/// `local_header_offset` joins it to its local file header.
#[derive(Debug, PartialEq, Eq)]
pub struct CDH {
    pub signature: u32,
    pub version_made_by: u16,
    pub version_needed_to_extract: u16,
    pub general_purpose: u16,
    pub compression_method: u16,
    pub last_mod_file_time: u16,
    pub last_mod_file_date: u16,
    pub crc_32: u32,
    pub compressed_size: u32,
    pub uncompressed_size: u32,
    pub file_name_length: u16,
    pub extra_field_length: u16,
    pub file_comment_length: u16,
    pub disk_number_start: u16,
    pub internal_file_attributes: u16,
    pub external_file_attributes: u32,
    pub local_header_offset: u32,
    pub file_name: Vec<u8>,
    pub extra_field: Vec<u8>,
    pub file_comment: Vec<u8>,
}

impl View for CDH {
    type V = CdhView;

    open spec fn view(&self) -> CdhView {
        CdhView {
            signature: self.signature,
            version_made_by: self.version_made_by,
            version_needed_to_extract: self.version_needed_to_extract,
            general_purpose: self.general_purpose,
            compression_method: self.compression_method,
            last_mod_file_time: self.last_mod_file_time,
            last_mod_file_date: self.last_mod_file_date,
            crc_32: self.crc_32,
            compressed_size: self.compressed_size,
            uncompressed_size: self.uncompressed_size,
            file_name_length: self.file_name_length,
            extra_field_length: self.extra_field_length,
            file_comment_length: self.file_comment_length,
            disk_number_start: self.disk_number_start,
            internal_file_attributes: self.internal_file_attributes,
            external_file_attributes: self.external_file_attributes,
            local_header_offset: self.local_header_offset,
            file_name: self.file_name@,
            extra_field: self.extra_field@,
            file_comment: self.file_comment@,
        }
    }
}

impl DeepView for CDH {
    type V = CdhView;

    open spec fn deep_view(&self) -> CdhView {
        self.view()
    }
}

/// Total byte length of a central directory header, from its length
/// fields alone.
pub open spec fn cdh_len(c: CdhView) -> int {
    46 + c.file_name_length + c.extra_field_length + c.file_comment_length
}

/// The serialization of a central directory header in declared field
/// order.
#[verifier::opaque]
pub open spec fn cdh_bytes(c: CdhView) -> Seq<u8> {
    le32_bytes(c.signature) + le16_bytes(c.version_made_by)
        + le16_bytes(c.version_needed_to_extract) + le16_bytes(
        c.general_purpose,
    ) + le16_bytes(c.compression_method) + le16_bytes(c.last_mod_file_time)
        + le16_bytes(c.last_mod_file_date) + le32_bytes(c.crc_32)
        + le32_bytes(c.compressed_size) + le32_bytes(c.uncompressed_size)
        + le16_bytes(c.file_name_length) + le16_bytes(c.extra_field_length)
        + le16_bytes(c.file_comment_length) + le16_bytes(c.disk_number_start)
        + le16_bytes(c.internal_file_attributes) + le32_bytes(
        c.external_file_attributes,
    ) + le32_bytes(c.local_header_offset) + c.file_name + c.extra_field + c.file_comment
}

/// A structurally valid central directory header: the three length fields
/// agree with the variable fields and the name is UTF-8.
pub open spec fn cdh_wf(c: CdhView) -> bool {
    &&& c.file_name_length == c.file_name.len()
    &&& c.extra_field_length == c.extra_field.len()
    &&& c.file_comment_length == c.file_comment.len()
    &&& valid_utf8(c.file_name)
}

/// What parsing a central directory header from the start of `b` yields:
/// fixed fields, then name, extra field and comment, each validated
/// against the remaining buffer.
#[verifier::opaque]
pub open spec fn spec_parse_cdh(b: Seq<u8>) -> Result<CdhView, FormatError> {
    if b.len() < 46 {
        Err(FormatError::Truncated)
    } else {
        let file_name_length = spec_le16(b, 28);
        let extra_field_length = spec_le16(b, 30);
        let file_comment_length = spec_le16(b, 32);
        if 46 + file_name_length > b.len() {
            Err(FormatError::Truncated)
        } else {
            let file_name = b.subrange(46, 46 + file_name_length as int);
            if !valid_utf8(file_name) {
                Err(FormatError::InvalidUtf8FileName)
            } else if 46 + file_name_length + extra_field_length > b.len() {
                Err(FormatError::Truncated)
            } else if 46 + file_name_length + extra_field_length + file_comment_length > b.len() {
                Err(FormatError::Truncated)
            } else {
                Ok(
                    CdhView {
                        signature: spec_le32(b, 0),
                        version_made_by: spec_le16(b, 4),
                        version_needed_to_extract: spec_le16(b, 6),
                        general_purpose: spec_le16(b, 8),
                        compression_method: spec_le16(b, 10),
                        last_mod_file_time: spec_le16(b, 12),
                        last_mod_file_date: spec_le16(b, 14),
                        crc_32: spec_le32(b, 16),
                        compressed_size: spec_le32(b, 20),
                        uncompressed_size: spec_le32(b, 24),
                        file_name_length,
                        extra_field_length,
                        file_comment_length,
                        disk_number_start: spec_le16(b, 34),
                        internal_file_attributes: spec_le16(b, 36),
                        external_file_attributes: spec_le32(b, 38),
                        local_header_offset: spec_le32(b, 42),
                        file_name,
                        extra_field: b.subrange(
                            46 + file_name_length as int,
                            46 + file_name_length + extra_field_length,
                        ),
                        file_comment: b.subrange(
                            46 + file_name_length + extra_field_length,
                            46 + file_name_length + extra_field_length + file_comment_length,
                        ),
                    },
                )
            }
        }
    }
}

/// What parsing a contiguous run of central directory headers yields:
/// records back to back from `pos` until the buffer is consumed.
pub open spec fn spec_parse_cdh_list(b: Seq<u8>, pos: int) -> Result<Seq<CdhView>, FormatError>
    decreases b.len() - pos,
    via spec_parse_cdh_list_dec
{
    if pos < 0 || pos >= b.len() {
        Ok(Seq::<CdhView>::empty())
    } else {
        match spec_parse_cdh(b.subrange(pos, b.len() as int)) {
            Err(e) => Err(e),
            Ok(c) => match spec_parse_cdh_list(b, pos + cdh_len(c)) {
                Err(e) => Err(e),
                Ok(rest) => Ok(seq![c] + rest),
            },
        }
    }
}

#[via_fn]
proof fn spec_parse_cdh_list_dec(b: Seq<u8>, pos: int) {
    reveal(spec_parse_cdh);
    if 0 <= pos < b.len() {
        let sub = b.subrange(pos, b.len() as int);
        match spec_parse_cdh(sub) {
            Ok(c) => {
                assert(cdh_len(c) <= sub.len());
            },
            Err(_) => {},
        }
    }
}

impl CDH {
    /// Byte length of this record as declared by its length fields.
    pub fn len(&self) -> (r: usize)
        ensures
            r == cdh_len(self@),
    {
        self.file_name_length as usize + self.extra_field_length as usize
            + self.file_comment_length as usize + 46
    }

    /// Parses one central directory header from the start of `value`.
    pub fn parse(value: &[u8]) -> (r: Result<CDH, FormatError>)
        ensures
            match (r, spec_parse_cdh(value@)) {
                (Ok(c), Ok(v)) => c@ == v,
                (Err(e), Err(v)) => e == v,
                _ => false,
            },
            r matches Ok(c) ==> cdh_len(c@) <= value@.len(),
    {
        proof { reveal(spec_parse_cdh); }
        if value.len() < 46 {
            return Err(FormatError::Truncated);
        }
        let file_name_length = read_le16(value, 28);
        let extra_field_length = read_le16(value, 30);
        let file_comment_length = read_le16(value, 32);

        let name_stop: usize = 46 + file_name_length as usize;
        if name_stop > value.len() {
            return Err(FormatError::Truncated);
        }
        let name_slice = slice_subrange(value, 46, name_stop);
        if !is_utf8_bytes(name_slice) {
            return Err(FormatError::InvalidUtf8FileName);
        }
        let file_name = slice_to_vec(name_slice);

        let extra_stop: usize = name_stop + extra_field_length as usize;
        if extra_stop > value.len() {
            return Err(FormatError::Truncated);
        }
        let extra_field = slice_to_vec(slice_subrange(value, name_stop, extra_stop));

        let comment_stop: usize = extra_stop + file_comment_length as usize;
        if comment_stop > value.len() {
            return Err(FormatError::Truncated);
        }
        let file_comment = slice_to_vec(slice_subrange(value, extra_stop, comment_stop));

        Ok(
            CDH {
                signature: read_le32(value, 0),
                version_made_by: read_le16(value, 4),
                version_needed_to_extract: read_le16(value, 6),
                general_purpose: read_le16(value, 8),
                compression_method: read_le16(value, 10),
                last_mod_file_time: read_le16(value, 12),
                last_mod_file_date: read_le16(value, 14),
                crc_32: read_le32(value, 16),
                compressed_size: read_le32(value, 20),
                uncompressed_size: read_le32(value, 24),
                file_name_length,
                extra_field_length,
                file_comment_length,
                disk_number_start: read_le16(value, 34),
                internal_file_attributes: read_le16(value, 36),
                external_file_attributes: read_le32(value, 38),
                local_header_offset: read_le32(value, 42),
                file_name,
                extra_field,
                file_comment,
            },
        )
    }

    /// Parses the central directory as a contiguous run of records, each
    /// one's declared length advancing the cursor to the next.
    pub fn get_vec_from_bytes(value: &[u8]) -> (r: Result<Vec<CDH>, FormatError>)
        ensures
            match (r, spec_parse_cdh_list(value@, 0)) {
                (Ok(cs), Ok(v)) => cs.deep_view() == v,
                (Err(e), Err(v)) => e == v,
                _ => false,
            },
    {
        let mut cdhs: Vec<CDH> = Vec::new();
        let mut pos: usize = 0;

        loop
            invariant
                pos <= value@.len(),
                forall|cs: Seq<CdhView>|
                    spec_parse_cdh_list(value@, pos as int) == Ok::<Seq<CdhView>, FormatError>(cs)
                        ==> spec_parse_cdh_list(value@, 0) == Ok::<Seq<CdhView>, FormatError>(
                        cdhs.deep_view() + cs,
                    ),
                forall|e: FormatError|
                    spec_parse_cdh_list(value@, pos as int) == Err::<Seq<CdhView>, FormatError>(e)
                        ==> spec_parse_cdh_list(value@, 0) == Err::<Seq<CdhView>, FormatError>(e),
            decreases value@.len() - pos,
        {
            if pos >= value.len() {
                assert(cdhs.deep_view() + Seq::<CdhView>::empty() =~= cdhs.deep_view());
                return Ok(cdhs);
            }
            let rest = slice_subrange(value, pos, value.len());
            match CDH::parse(rest) {
                Err(e) => {
                    return Err(e);
                },
                Ok(cdh) => {
                    let ghost prev = cdhs.deep_view();
                    let ghost c = cdh@;
                    let step = cdh.len();
                    cdhs.push(cdh);
                    assert(cdhs.deep_view() =~= prev + seq![c]);
                    proof {
                        assert forall|cs: Seq<CdhView>|
                            spec_parse_cdh_list(value@, pos + cdh_len(c)) == Ok::<
                                Seq<CdhView>,
                                FormatError,
                            >(cs) implies spec_parse_cdh_list(value@, 0) == Ok::<
                            Seq<CdhView>,
                            FormatError,
                        >((prev + seq![c]) + cs) by {
                            assert(spec_parse_cdh_list(value@, pos as int) == Ok::<
                                Seq<CdhView>,
                                FormatError,
                            >(seq![c] + cs));
                            assert(prev + (seq![c] + cs) =~= (prev + seq![c]) + cs);
                        }
                    }
                    pos = pos + step;
                },
            }
        }
    }

    /// Serializes this record in declared field order.
    pub fn to_bytes(&self) -> (r: Vec<u8>)
        ensures
            r@ == cdh_bytes(self@),
    {
        proof { reveal(cdh_bytes); }
        let mut out: Vec<u8> = Vec::new();
        push_le32(&mut out, self.signature);
        push_le16(&mut out, self.version_made_by);
        push_le16(&mut out, self.version_needed_to_extract);
        push_le16(&mut out, self.general_purpose);
        push_le16(&mut out, self.compression_method);
        push_le16(&mut out, self.last_mod_file_time);
        push_le16(&mut out, self.last_mod_file_date);
        push_le32(&mut out, self.crc_32);
        push_le32(&mut out, self.compressed_size);
        push_le32(&mut out, self.uncompressed_size);
        push_le16(&mut out, self.file_name_length);
        push_le16(&mut out, self.extra_field_length);
        push_le16(&mut out, self.file_comment_length);
        push_le16(&mut out, self.disk_number_start);
        push_le16(&mut out, self.internal_file_attributes);
        push_le32(&mut out, self.external_file_attributes);
        push_le32(&mut out, self.local_header_offset);
        out.extend_from_slice(self.file_name.as_slice());
        out.extend_from_slice(self.extra_field.as_slice());
        out.extend_from_slice(self.file_comment.as_slice());
        assert(out@ =~= cdh_bytes(self@));
        out
    }
}

/// Reads the byte at index `i` of `b`.
fn byte_at(b: &[u8], i: usize) -> (r: u8)
    requires
        i < b@.len(),
    ensures
        r == b@[i as int],
{
    *vstd::slice::slice_index_get(b, i)
}

/// The mathematical content of an [`EOCD`].
pub struct EocdView {
    pub signature: u32,
    pub disk_number: u16,
    pub central_dir_start_disk: u16,
    pub cental_dir_entries_disk: u16,
    pub cental_dir_entries_total: u16,
    pub central_dir_size: u32,
    pub central_dir_offset: u32,
    pub comment_length: u16,
    pub comment: Seq<u8>,
}

/// The end-of-central-directory record, located by scanning the buffer
/// tail backward for its signature.
#[derive(Debug, PartialEq, Eq)]
pub struct EOCD {
    pub signature: u32,
    pub disk_number: u16,
    pub central_dir_start_disk: u16,
    pub cental_dir_entries_disk: u16,
    pub cental_dir_entries_total: u16,
    pub central_dir_size: u32,
    pub central_dir_offset: u32,
    pub comment_length: u16,
    pub comment: Vec<u8>,
}

impl View for EOCD {
    type V = EocdView;

    open spec fn view(&self) -> EocdView {
        EocdView {
            signature: self.signature,
            disk_number: self.disk_number,
            central_dir_start_disk: self.central_dir_start_disk,
            cental_dir_entries_disk: self.cental_dir_entries_disk,
            cental_dir_entries_total: self.cental_dir_entries_total,
            central_dir_size: self.central_dir_size,
            central_dir_offset: self.central_dir_offset,
            comment_length: self.comment_length,
            comment: self.comment@,
        }
    }
}

/// Byte length of the record: the 22 fixed bytes plus the declared
/// comment length.
pub open spec fn eocd_len(e: EocdView) -> int {
    22 + e.comment_length
}

/// The serialization of the end-of-central-directory record.
#[verifier::opaque]
pub open spec fn eocd_bytes(e: EocdView) -> Seq<u8> {
    le32_bytes(e.signature) + le16_bytes(e.disk_number)
        + le16_bytes(e.central_dir_start_disk) + le16_bytes(
        e.cental_dir_entries_disk,
    ) + le16_bytes(e.cental_dir_entries_total) + le32_bytes(e.central_dir_size)
        + le32_bytes(e.central_dir_offset) + le16_bytes(e.comment_length)
        + e.comment
}

/// A structurally valid record: the comment length field agrees with the
/// comment and the signature is the end-of-central-directory magic.
pub open spec fn eocd_wf(e: EocdView) -> bool {
    &&& e.comment_length == e.comment.len()
    &&& e.signature == 0x06054b50u32
}

/// True when the four end-of-central-directory signature bytes stand at
/// offset `o` of `b`.
pub open spec fn is_eocd_sig_at(b: Seq<u8>, o: int) -> bool {
    &&& 0 <= o
    &&& o + 4 <= b.len()
    &&& b[o] == 0x50u8
    &&& b[o + 1] == 0x4bu8
    &&& b[o + 2] == 0x05u8
    &&& b[o + 3] == 0x06u8
}

/// The largest offset at or below `o` holding the signature, provided it
/// lies within the trailing window of 65558 bytes (22 fixed bytes plus
/// the largest possible comment).
pub open spec fn spec_find_eocd_from(b: Seq<u8>, o: int) -> Option<int>
    decreases o + 1,
{
    if o < 0 || b.len() - o > 65558 {
        None
    } else if is_eocd_sig_at(b, o) {
        Some(o)
    } else {
        spec_find_eocd_from(b, o - 1)
    }
}

/// Where the end-of-central-directory record starts: the signature
/// occurrence nearest the end of the buffer, within the trailing window.
pub open spec fn spec_find_eocd(b: Seq<u8>) -> Option<int> {
    spec_find_eocd_from(b, b.len() - 4)
}

/// What parsing the end-of-central-directory record from `b` yields:
/// locate the signature from the tail, then read the fixed fields and the
/// length-prefixed comment.
pub open spec fn spec_parse_eocd(b: Seq<u8>) -> Result<EocdView, FormatError> {
    match spec_find_eocd(b) {
        None => Err(FormatError::EocdNotFound),
        Some(o) => {
            if o + 22 > b.len() {
                Err(FormatError::Truncated)
            } else {
                let comment_length = spec_le16(b, o + 20);
                if o + 22 + comment_length > b.len() {
                    Err(FormatError::Truncated)
                } else {
                    Ok(
                        EocdView {
                            signature: spec_le32(b, o),
                            disk_number: spec_le16(b, o + 4),
                            central_dir_start_disk: spec_le16(b, o + 6),
                            cental_dir_entries_disk: spec_le16(b, o + 8),
                            cental_dir_entries_total: spec_le16(b, o + 10),
                            central_dir_size: spec_le32(b, o + 12),
                            central_dir_offset: spec_le32(b, o + 16),
                            comment_length,
                            comment: b.subrange(o + 22, o + 22 + comment_length),
                        },
                    )
                }
            }
        },
    }
}

impl EOCD {
    /// Byte length of this record as declared by its comment length.
    pub fn len(&self) -> (r: usize)
        ensures
            r == eocd_len(self@),
    {
        self.comment_length as usize + 22
    }

    /// Locates and parses the end-of-central-directory record by scanning
    /// the buffer tail backward for its signature.
    pub fn parse(value: &[u8]) -> (r: Result<EOCD, FormatError>)
        ensures
            match (r, spec_parse_eocd(value@)) {
                (Ok(e), Ok(v)) => e@ == v,
                (Err(e), Err(v)) => e == v,
                _ => false,
            },
    {
        let n: usize = value.len();
        if n < 4 {
            return Err(FormatError::EocdNotFound);
        }
        let mut o: usize = n - 4;
        loop
            invariant
                o + 4 <= n,
                n == value@.len(),
                spec_find_eocd(value@) == spec_find_eocd_from(value@, o as int),
            ensures
                is_eocd_sig_at(value@, o as int),
                spec_find_eocd(value@) == Some(o as int),
            decreases o,
        {
            if n - o > 65558 {
                return Err(FormatError::EocdNotFound);
            }
            if byte_at(value, o) == 0x50u8 && byte_at(value, o + 1) == 0x4bu8 && byte_at(
                value,
                o + 2,
            ) == 0x05u8 && byte_at(value, o + 3) == 0x06u8 {
                break;
            }
            if o == 0 {
                return Err(FormatError::EocdNotFound);
            }
            o = o - 1;
        }

        let avail: usize = n - o;
        if avail < 22 {
            return Err(FormatError::Truncated);
        }
        let comment_length = read_le16(value, o + 20);
        if comment_length as usize > avail - 22 {
            return Err(FormatError::Truncated);
        }
        let comment_stop: usize = o + 22 + comment_length as usize;
        let comment = slice_to_vec(slice_subrange(value, o + 22, comment_stop));

        Ok(
            EOCD {
                signature: read_le32(value, o),
                disk_number: read_le16(value, o + 4),
                central_dir_start_disk: read_le16(value, o + 6),
                cental_dir_entries_disk: read_le16(value, o + 8),
                cental_dir_entries_total: read_le16(value, o + 10),
                central_dir_size: read_le32(value, o + 12),
                central_dir_offset: read_le32(value, o + 16),
                comment_length,
                comment,
            },
        )
    }

    /// Serializes this record in declared field order.
    pub fn to_bytes(&self) -> (r: Vec<u8>)
        ensures
            r@ == eocd_bytes(self@),
    {
        proof { reveal(eocd_bytes); }
        let mut out: Vec<u8> = Vec::new();
        push_le32(&mut out, self.signature);
        push_le16(&mut out, self.disk_number);
        push_le16(&mut out, self.central_dir_start_disk);
        push_le16(&mut out, self.cental_dir_entries_disk);
        push_le16(&mut out, self.cental_dir_entries_total);
        push_le32(&mut out, self.central_dir_size);
        push_le32(&mut out, self.central_dir_offset);
        push_le16(&mut out, self.comment_length);
        out.extend_from_slice(self.comment.as_slice());
        assert(out@ =~= eocd_bytes(self@));
        out
    }
}

/// The mathematical content of a [`ZipFile`].
pub struct ZipFileView {
    pub local_file_header: LfhView,
    pub file_data: Seq<u8>,
    pub data_discriptor: Option<DdView>,
}

/// One archived file: its local header, the raw file data sized by the
/// central directory, and the trailing descriptor when the header's bit 3
/// announces one.
#[derive(Debug, PartialEq, Eq)]
pub struct ZipFile {
    pub local_file_header: LocalFileHeader,
    pub file_data: Vec<u8>,
    pub data_discriptor: Option<DataDiscriptor>,
}

impl View for ZipFile {
    type V = ZipFileView;

    open spec fn view(&self) -> ZipFileView {
        ZipFileView {
            local_file_header: self.local_file_header@,
            file_data: self.file_data@,
            data_discriptor: match self.data_discriptor {
                Some(dd) => Some(dd@),
                None => None,
            },
        }
    }
}

impl DeepView for ZipFile {
    type V = ZipFileView;

    open spec fn deep_view(&self) -> ZipFileView {
        self.view()
    }
}

/// Serialized byte length of one archived file.
pub open spec fn zipfile_len(z: ZipFileView) -> int {
    lfh_len(z.local_file_header) + z.file_data.len() + (match z.data_discriptor {
        Some(dd) => dd_len(dd),
        None => 0,
    })
}

/// The serialization of one archived file: header, data, then the
/// descriptor when present.
pub open spec fn zipfile_bytes(z: ZipFileView) -> Seq<u8> {
    lfh_bytes(z.local_file_header) + z.file_data + (match z.data_discriptor {
        Some(dd) => dd_bytes(dd),
        None => Seq::<u8>::empty(),
    })
}

/// A structurally valid archived file: the header is valid and carries a
/// descriptor exactly when its bit 3 is set.
pub open spec fn zipfile_wf(z: ZipFileView) -> bool {
    &&& lfh_wf(z.local_file_header)
    &&& (z.local_file_header.general_purpose & 0x0008u16 != 0) <==> (z.data_discriptor is Some)
    &&& match z.data_discriptor {
        Some(dd) => dd_wf(dd),
        None => true,
    }
}

/// What parsing one archived file from the start of `b` yields, with the
/// data length taken from the central directory's `compressed_size`.
pub open spec fn spec_parse_zipfile(b: Seq<u8>, compressed_size: u32) -> Result<
    ZipFileView,
    FormatError,
> {
    match spec_parse_lfh(b) {
        Err(e) => Err(e),
        Ok(lfh) => {
            let start = lfh_len(lfh);
            let stop = start + compressed_size;
            if stop > b.len() {
                Err(FormatError::Truncated)
            } else {
                let file_data = b.subrange(start, stop);
                if lfh.general_purpose & 0x0008u16 != 0 {
                    match spec_parse_dd(b.subrange(stop, b.len() as int)) {
                        Err(e) => Err(e),
                        Ok(dd) => Ok(
                            ZipFileView {
                                local_file_header: lfh,
                                file_data,
                                data_discriptor: Some(dd),
                            },
                        ),
                    }
                } else {
                    Ok(ZipFileView { local_file_header: lfh, file_data, data_discriptor: None })
                }
            }
        },
    }
}

impl ZipFile {
    /// Serialized byte length of this archived file.
    pub fn len(&self) -> (r: usize)
        requires
            zipfile_len(self@) <= usize::MAX,
        ensures
            r == zipfile_len(self@),
    {
        let mut len: usize = self.local_file_header.len();
        len = len + self.file_data.len();
        if let Some(dd) = &self.data_discriptor {
            len = len + dd.len();
        }
        len
    }

    /// Parses one archived file from the start of `value`; the data slice
    /// is sized by the central directory record, not by the local header,
    /// whose size fields are unreliable when bit 3 is set.
    pub fn try_from_with_compressed_size(value: &[u8], cdh: &CDH) -> (r: Result<
        ZipFile,
        FormatError,
    >)
        ensures
            match (r, spec_parse_zipfile(value@, cdh.compressed_size)) {
                (Ok(z), Ok(v)) => z@ == v,
                (Err(e), Err(v)) => e == v,
                _ => false,
            },
    {
        let local_file_header = match LocalFileHeader::parse(value) {
            Ok(h) => h,
            Err(e) => {
                return Err(e);
            },
        };

        let n: usize = value.len();
        let start: usize = local_file_header.len();
        let csize: usize = cdh.compressed_size as usize;
        if start > n {
            return Err(FormatError::Truncated);
        }
        if csize > n - start {
            return Err(FormatError::Truncated);
        }
        let stop: usize = start + csize;
        let file_data = slice_to_vec(slice_subrange(value, start, stop));

        let data_discriptor = if local_file_header.general_purpose & 0x0008u16 != 0 {
            match DataDiscriptor::parse(slice_subrange(value, stop, n)) {
                Ok(dd) => Some(dd),
                Err(e) => {
                    return Err(e);
                },
            }
        } else {
            None
        };

        Ok(ZipFile { local_file_header, file_data, data_discriptor })
    }

    /// Serializes this archived file: header, data, then the descriptor
    /// when present.
    pub fn to_bytes(&self) -> (r: Vec<u8>)
        ensures
            r@ == zipfile_bytes(self@),
    {
        let mut out = self.local_file_header.to_bytes();
        out.extend_from_slice(self.file_data.as_slice());
        if let Some(dd) = &self.data_discriptor {
            let mut piece = dd.to_bytes();
            out.append(&mut piece);
        }
        assert(out@ =~= zipfile_bytes(self@));
        out
    }
}

/// The mathematical content of a [`ZipArchive`].
pub struct ZipArchiveView {
    pub zip_files: Seq<ZipFileView>,
    pub central_directory_headers: Seq<CdhView>,
    pub eocd: EocdView,
}

/// A full in-memory archive: the archived files in central-directory
/// order, the central directory records, and the trailer that locates
/// them.
#[derive(Debug, PartialEq, Eq)]
pub struct ZipArchive {
    pub zip_files: Vec<ZipFile>,
    pub central_directory_headers: Vec<CDH>,
    pub eocd: EOCD,
}

impl View for ZipArchive {
    type V = ZipArchiveView;

    open spec fn view(&self) -> ZipArchiveView {
        ZipArchiveView {
            zip_files: self.zip_files.deep_view(),
            central_directory_headers: self.central_directory_headers.deep_view(),
            eocd: self.eocd@,
        }
    }
}

/// The concatenated serializations of a run of archived files.
pub open spec fn zipfiles_bytes(s: Seq<ZipFileView>) -> Seq<u8>
    decreases s.len(),
{
    if s.len() == 0 {
        Seq::<u8>::empty()
    } else {
        zipfiles_bytes(s.drop_last()) + zipfile_bytes(s.last())
    }
}

/// The concatenated serializations of a run of central directory
/// records.
pub open spec fn cdhs_bytes(s: Seq<CdhView>) -> Seq<u8>
    decreases s.len(),
{
    if s.len() == 0 {
        Seq::<u8>::empty()
    } else {
        cdhs_bytes(s.drop_last()) + cdh_bytes(s.last())
    }
}

/// The serialization of a whole archive: all archived files in order,
/// then the central directory, then the trailer.
pub open spec fn archive_bytes(a: ZipArchiveView) -> Seq<u8> {
    zipfiles_bytes(a.zip_files) + cdhs_bytes(a.central_directory_headers) + eocd_bytes(a.eocd)
}

/// A structurally valid archive: every part is valid, the files
/// correspond one to one with the central directory records, and each
/// file's data is sized by its record.
pub open spec fn archive_wf(a: ZipArchiveView) -> bool {
    &&& eocd_wf(a.eocd)
    &&& a.zip_files.len() == a.central_directory_headers.len()
    &&& forall|i: int|
        0 <= i < a.zip_files.len() ==> #[trigger] zipfile_wf(a.zip_files[i])
    &&& forall|i: int|
        0 <= i < a.central_directory_headers.len() ==> #[trigger] cdh_wf(
            a.central_directory_headers[i],
        )
    &&& forall|i: int|
        0 <= i < a.zip_files.len() ==> (#[trigger] a.zip_files[i]).file_data.len()
            == a.central_directory_headers[i].compressed_size
}

/// What parsing the archived files named by the central directory yields:
/// one file per record, each at its `local_header_offset`.
pub open spec fn spec_parse_zipfiles(b: Seq<u8>, cdhs: Seq<CdhView>, i: int) -> Result<
    Seq<ZipFileView>,
    FormatError,
>
    decreases cdhs.len() - i,
{
    if i < 0 || i >= cdhs.len() {
        Ok(Seq::<ZipFileView>::empty())
    } else {
        let c = cdhs[i];
        if c.local_header_offset > b.len() {
            Err(FormatError::Truncated)
        } else {
            match spec_parse_zipfile(
                b.subrange(c.local_header_offset as int, b.len() as int),
                c.compressed_size,
            ) {
                Err(e) => Err(e),
                Ok(z) => match spec_parse_zipfiles(b, cdhs, i + 1) {
                    Err(e) => Err(e),
                    Ok(rest) => Ok(seq![z] + rest),
                },
            }
        }
    }
}

/// What parsing a whole archive from `b` yields: locate the trailer, walk
/// the central directory it points at, then parse each archived file at
/// its recorded offset.
pub open spec fn spec_parse_archive(b: Seq<u8>) -> Result<ZipArchiveView, FormatError> {
    match spec_parse_eocd(b) {
        Err(e) => Err(e),
        Ok(eocd) => {
            let start = eocd.central_dir_offset as int;
            let stop = start + eocd.central_dir_size;
            if stop > b.len() {
                Err(FormatError::Truncated)
            } else {
                match spec_parse_cdh_list(b.subrange(start, stop), 0) {
                    Err(e) => Err(e),
                    Ok(cdhs) => match spec_parse_zipfiles(b, cdhs, 0) {
                        Err(e) => Err(e),
                        Ok(zfs) => Ok(
                            ZipArchiveView {
                                zip_files: zfs,
                                central_directory_headers: cdhs,
                                eocd,
                            },
                        ),
                    },
                }
            }
        },
    }
}

impl ZipArchive {
    /// Parses a whole archive from `data`: locate the trailer, walk the
    /// central directory it points at, and read each archived file at
    /// its recorded offset. Total on all inputs: a malformed or
    /// truncated buffer yields a typed error, never a panic, so a
    /// caller can mark such a sample as cut and move on.
    #[verifier::loop_isolation(false)]
    pub fn parse(data: &[u8]) -> (r: Result<ZipArchive, FormatError>)
        ensures
            match (r, spec_parse_archive(data@)) {
                (Ok(a), Ok(v)) => a@ == v,
                (Err(e), Err(v)) => e == v,
                _ => false,
            },
    {
        let n: usize = data.len();
        let eocd = match EOCD::parse(data) {
            Ok(e) => e,
            Err(e) => {
                return Err(e);
            },
        };

        let start: usize = eocd.central_dir_offset as usize;
        let size: usize = eocd.central_dir_size as usize;
        if start > n {
            return Err(FormatError::Truncated);
        }
        if size > n - start {
            return Err(FormatError::Truncated);
        }
        let stop: usize = start + size;

        let central_directory_headers = match CDH::get_vec_from_bytes(
            slice_subrange(data, start, stop),
        ) {
            Ok(cs) => cs,
            Err(e) => {
                return Err(e);
            },
        };

        let ghost cdhs = central_directory_headers.deep_view();
        let mut zip_files: Vec<ZipFile> = Vec::new();
        let mut i: usize = 0;
        loop
            invariant
                i <= cdhs.len(),
                n == data@.len(),
                cdhs == central_directory_headers.deep_view(),
                central_directory_headers@.len() == cdhs.len(),
                forall|zs: Seq<ZipFileView>|
                    spec_parse_zipfiles(data@, cdhs, i as int) == Ok::<
                        Seq<ZipFileView>,
                        FormatError,
                    >(zs) ==> spec_parse_zipfiles(data@, cdhs, 0) == Ok::<
                        Seq<ZipFileView>,
                        FormatError,
                    >(zip_files.deep_view() + zs),
                forall|e: FormatError|
                    spec_parse_zipfiles(data@, cdhs, i as int) == Err::<
                        Seq<ZipFileView>,
                        FormatError,
                    >(e) ==> spec_parse_zipfiles(data@, cdhs, 0) == Err::<
                        Seq<ZipFileView>,
                        FormatError,
                    >(e),
            decreases cdhs.len() - i,
        {
            if i >= central_directory_headers.len() {
                assert(zip_files.deep_view() + Seq::<ZipFileView>::empty() =~= zip_files.deep_view());
                break;
            }
            let cdh = &central_directory_headers[i];
            assert(cdh@ == cdhs[i as int]);
            let off: usize = cdh.local_header_offset as usize;
            if off > n {
                return Err(FormatError::Truncated);
            }
            match ZipFile::try_from_with_compressed_size(slice_subrange(data, off, n), cdh) {
                Err(e) => {
                    return Err(e);
                },
                Ok(zf) => {
                    let ghost prev = zip_files.deep_view();
                    let ghost z = zf@;
                    zip_files.push(zf);
                    assert(zip_files.deep_view() =~= prev + seq![z]);
                    proof {
                        assert forall|zs: Seq<ZipFileView>|
                            spec_parse_zipfiles(data@, cdhs, i + 1) == Ok::<
                                Seq<ZipFileView>,
                                FormatError,
                            >(zs) implies spec_parse_zipfiles(data@, cdhs, 0) == Ok::<
                            Seq<ZipFileView>,
                            FormatError,
                        >((prev + seq![z]) + zs) by {
                            assert(spec_parse_zipfiles(data@, cdhs, i as int) == Ok::<
                                Seq<ZipFileView>,
                                FormatError,
                            >(seq![z] + zs));
                            assert(prev + (seq![z] + zs) =~= (prev + seq![z]) + zs);
                        }
                    }
                    i = i + 1;
                },
            }
        }

        Ok(ZipArchive { zip_files, central_directory_headers, eocd })
    }

    /// Serializes the archive: all archived files in order, then the
    /// central directory records, then the trailer.
    pub fn to_bytes(self) -> (r: Vec<u8>)
        ensures
            r@ == archive_bytes(self@),
    {
        let ghost view = self@;
        let mut out: Vec<u8> = Vec::new();

        let mut i: usize = 0;
        while i < self.zip_files.len()
            invariant
                i <= self.zip_files@.len(),
                out@ == zipfiles_bytes(self.zip_files.deep_view().take(i as int)),
            decreases self.zip_files@.len() - i,
        {
            let ghost taken = self.zip_files.deep_view().take(i as int);
            let mut piece = self.zip_files[i].to_bytes();
            out.append(&mut piece);
            proof {
                let taken2 = self.zip_files.deep_view().take(i + 1);
                assert(taken2.drop_last() =~= taken);
                assert(taken2.last() == self.zip_files.deep_view()[i as int]);
            }
            i = i + 1;
        }
        assert(self.zip_files.deep_view().take(self.zip_files@.len() as int) =~= self
            .zip_files
            .deep_view());

        let mut j: usize = 0;
        while j < self.central_directory_headers.len()
            invariant
                j <= self.central_directory_headers@.len(),
                out@ == zipfiles_bytes(self.zip_files.deep_view()) + cdhs_bytes(
                    self.central_directory_headers.deep_view().take(j as int),
                ),
            decreases self.central_directory_headers@.len() - j,
        {
            let ghost taken = self.central_directory_headers.deep_view().take(j as int);
            let mut piece = self.central_directory_headers[j].to_bytes();
            out.append(&mut piece);
            proof {
                let taken2 = self.central_directory_headers.deep_view().take(j + 1);
                assert(taken2.drop_last() =~= taken);
                assert(taken2.last() == self.central_directory_headers.deep_view()[j as int]);
                assert(zipfiles_bytes(self.zip_files.deep_view()) + (cdhs_bytes(taken) + cdh_bytes(
                    taken2.last(),
                )) =~= zipfiles_bytes(self.zip_files.deep_view()) + cdhs_bytes(taken) + cdh_bytes(
                    taken2.last(),
                ));
            }
            j = j + 1;
        }
        assert(self.central_directory_headers.deep_view().take(
            self.central_directory_headers@.len() as int,
        ) =~= self.central_directory_headers.deep_view());

        let mut piece = self.eocd.to_bytes();
        out.append(&mut piece);
        assert(out@ =~= archive_bytes(view));
        out
    }
}

/// A local file header with the data-descriptor flag (bit 3) cleared.
pub open spec fn clear_lfh(h: LfhView) -> LfhView {
    LfhView { general_purpose: h.general_purpose & !0x0008u16, ..h }
}

/// An archived file whose header flag is cleared; the descriptor bytes,
/// when present, are deliberately kept.
pub open spec fn clear_zipfile(z: ZipFileView) -> ZipFileView {
    ZipFileView { local_file_header: clear_lfh(z.local_file_header), ..z }
}

/// A central directory record with the data-descriptor flag cleared.
pub open spec fn clear_cdh(c: CdhView) -> CdhView {
    CdhView { general_purpose: c.general_purpose & !0x0008u16, ..c }
}

/// The archive with bit 3 cleared on every local header and every
/// central directory record.
pub open spec fn clear_archive(a: ZipArchiveView) -> ZipArchiveView {
    ZipArchiveView {
        zip_files: a.zip_files.map_values(|z: ZipFileView| clear_zipfile(z)),
        central_directory_headers: a.central_directory_headers.map_values(
            |c: CdhView| clear_cdh(c),
        ),
        eocd: a.eocd,
    }
}

/// What stripping the encryption bits from an archive buffer yields:
/// parse, clear bit 3 everywhere, re-serialize.
pub open spec fn spec_strip(b: Seq<u8>) -> Result<Seq<u8>, FormatError> {
    match spec_parse_archive(b) {
        Err(e) => Err(e),
        Ok(a) => Ok(archive_bytes(clear_archive(a))),
    }
}

/// Parses `data` as an archive, clears the data-descriptor flag (bit 3)
/// on every local file header and central directory record, and
/// re-serializes. The descriptor bytes themselves are not stripped.
#[verifier::loop_isolation(false)]
pub fn try_remove_encryption_bits(data: &[u8]) -> (r: Result<Vec<u8>, FormatError>)
    ensures
        match (r, spec_strip(data@)) {
            (Ok(out), Ok(v)) => out@ == v,
            (Err(e), Err(v)) => e == v,
            _ => false,
        },
{
    let mut ziparchive = match ZipArchive::parse(data) {
        Ok(a) => a,
        Err(e) => {
            return Err(e);
        },
    };
    let ghost parsed = ziparchive@;

    let mut i: usize = 0;
    while i < ziparchive.zip_files.len()
        invariant
            i <= ziparchive.zip_files@.len(),
            ziparchive.zip_files@.len() == parsed.zip_files.len(),
            ziparchive.central_directory_headers.deep_view() == parsed.central_directory_headers,
            ziparchive.eocd@ == parsed.eocd,
            forall|k: int|
                0 <= k < i ==> ziparchive.zip_files.deep_view()[k] == clear_zipfile(
                    #[trigger] parsed.zip_files[k],
                ),
            forall|k: int|
                i <= k < parsed.zip_files.len() ==> ziparchive.zip_files.deep_view()[k]
                    == #[trigger] parsed.zip_files[k],
        decreases ziparchive.zip_files@.len() - i,
    {
        let gp = ziparchive.zip_files[i].local_file_header.general_purpose;
        ziparchive.zip_files[i].local_file_header.general_purpose = gp & !0x0008u16;
        i = i + 1;
    }

    let mut j: usize = 0;
    while j < ziparchive.central_directory_headers.len()
        invariant
            j <= ziparchive.central_directory_headers@.len(),
            ziparchive.central_directory_headers@.len()
                == parsed.central_directory_headers.len(),
            ziparchive.zip_files.deep_view() == parsed.zip_files.map_values(
                |z: ZipFileView| clear_zipfile(z),
            ),
            ziparchive.eocd@ == parsed.eocd,
            forall|k: int|
                0 <= k < j ==> ziparchive.central_directory_headers.deep_view()[k] == clear_cdh(
                    #[trigger] parsed.central_directory_headers[k],
                ),
            forall|k: int|
                j <= k < parsed.central_directory_headers.len()
                    ==> ziparchive.central_directory_headers.deep_view()[k]
                    == #[trigger] parsed.central_directory_headers[k],
        decreases ziparchive.central_directory_headers@.len() - j,
    {
        let gp = ziparchive.central_directory_headers[j].general_purpose;
        ziparchive.central_directory_headers[j].general_purpose = gp & !0x0008u16;
        j = j + 1;
    }

    proof {
        assert(ziparchive.zip_files.deep_view() =~= parsed.zip_files.map_values(
            |z: ZipFileView| clear_zipfile(z),
        ));
        assert(ziparchive.central_directory_headers.deep_view()
            =~= parsed.central_directory_headers.map_values(|c: CdhView| clear_cdh(c)));
        assert(ziparchive@ == clear_archive(parsed));
    }

    Ok(ziparchive.to_bytes())
}

} // verus!
