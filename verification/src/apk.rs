//! Reading APK (ZIP) members through the zip crate, behind trusted
//! wrappers whose results are named functions of the archive bytes, and
//! the fallback that strips encryption bits and retries.
//!
//! The zip crate is built with its stored and deflate codecs only — the
//! methods APK members actually use. A member compressed with one of
//! the crate's optional codecs reads as absent, the same skip path an
//! encrypted member takes; this keeps the native codec stack out of
//! the trusted surface, deliberately.

use vstd::prelude::*;

verus! {

use crate::archive::{FormatError, spec_strip, try_remove_encryption_bits};

/// The member names of the archive that the zip crate would list, in
/// its stored order; `None` when it cannot open the archive. Depends on
/// the archive bytes alone.
pub uninterp spec fn zip_member_names_of(data: Seq<u8>) -> Option<Seq<Seq<u8>>>;

/// The decompressed bytes of the named member; `None` when the archive
/// cannot be opened, the member is absent, or reading it fails. Depends
/// on the archive bytes and the name alone.
pub uninterp spec fn zip_member_data_of(data: Seq<u8>, name: Seq<u8>) -> Option<Seq<u8>>;

/// Relies on zip's `ZipArchive::new` and `file_names`: lists the member
/// names of an archive opened from bytes.
#[verifier::external_body]
pub fn zip_member_names(data: &[u8]) -> (r: Option<Vec<Vec<u8>>>)
    ensures
        match r {
            Some(v) => zip_member_names_of(data@) == Some(v.deep_view()),
            None => zip_member_names_of(data@) is None,
        },
{
    let cursor = std::io::Cursor::new(data);
    match zip::ZipArchive::new(cursor) {
        Ok(archive) => Some(archive.file_names().map(|s| s.as_bytes().to_vec()).collect()),
        Err(_) => None,
    }
}

/// Relies on zip's `ZipArchive::new`, `by_name` and
/// `Read::read_to_end`: reads and decompresses one member by name. The
/// output buffer starts empty and grows as the member inflates: the
/// member's claimed size is attacker-controlled and pre-allocating it
/// would abort on a crafted archive.
#[verifier::external_body]
pub fn zip_member_data(data: &[u8], name: &[u8]) -> (r: Option<Vec<u8>>)
    ensures
        match r {
            Some(v) => zip_member_data_of(data@, name@) == Some(v@),
            None => zip_member_data_of(data@, name@) is None,
        },
{
    let mut archive = zip::ZipArchive::new(std::io::Cursor::new(data)).ok()?;
    let mut file = archive.by_name(core::str::from_utf8(name).ok()?).ok()?;
    let mut buf = Vec::new();
    std::io::Read::read_to_end(&mut file, &mut buf).ok()?;
    Some(buf)
}

/// Why a member could not be extracted from an archive.
#[derive(Debug, Clone, Copy, PartialEq, Eq, Structural)]
pub enum ExtractError {
    /// The member was not found, or could not be read.
    NotFound,
    /// The encryption-bit-stripping fallback failed to parse the
    /// archive.
    Archive(FormatError),
}

/// What extracting a member yields, with the optional fallback: read it
/// plainly; failing that, strip the encryption bits and read again.
pub open spec fn spec_extract_from_zip(
    data: Seq<u8>,
    name: Seq<u8>,
    try_with_removed_encryption_bits: bool,
) -> Result<Seq<u8>, ExtractError> {
    match zip_member_data_of(data, name) {
        Some(v) => Ok(v),
        None => {
            if !try_with_removed_encryption_bits {
                Err(ExtractError::NotFound)
            } else {
                match spec_strip(data) {
                    Err(e) => Err(ExtractError::Archive(e)),
                    Ok(stripped) => match zip_member_data_of(stripped, name) {
                        Some(v) => Ok(v),
                        None => Err(ExtractError::NotFound),
                    },
                }
            }
        },
    }
}

/// Extracts one member from an archive; when asked, falls back to
/// clearing the data-descriptor bits and extracting again, for readers
/// that refuse archives advertising trailing descriptors.
pub fn extract_from_zip(
    data: &[u8],
    sample_filename: &[u8],
    try_with_removed_encryption_bits: bool,
) -> (r: Result<Vec<u8>, ExtractError>)
    ensures
        match (r, spec_extract_from_zip(data@, sample_filename@, try_with_removed_encryption_bits)) {
            (Ok(v), Ok(s)) => v@ == s,
            (Err(e), Err(s)) => e == s,
            _ => false,
        },
{
    if let Some(buff) = zip_member_data(data, sample_filename) {
        return Ok(buff);
    }

    if !try_with_removed_encryption_bits {
        return Err(ExtractError::NotFound);
    }

    let stripped = match try_remove_encryption_bits(data) {
        Ok(v) => v,
        Err(e) => {
            return Err(ExtractError::Archive(e));
        },
    };

    match zip_member_data(stripped.as_slice(), sample_filename) {
        Some(buff) => Ok(buff),
        None => Err(ExtractError::NotFound),
    }
}

} // verus!
