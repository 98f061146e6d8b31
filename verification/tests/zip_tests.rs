//! Tests for the archive model: round-trips, the encryption-bit
//! transform, the EOCD scan boundary, and tolerance of malformed
//! buffers.

use macon::archive::{
    try_remove_encryption_bits, DataDiscriptor, FormatError, LocalFileHeader, ZipArchive, CDH,
    EOCD,
};

fn le16(out: &mut Vec<u8>, x: u16) {
    out.extend_from_slice(&x.to_le_bytes());
}

fn le32(out: &mut Vec<u8>, x: u32) {
    out.extend_from_slice(&x.to_le_bytes());
}

fn crc32(data: &[u8]) -> u32 {
    let mut crc = flate2::Crc::new();
    crc.update(data);
    crc.sum()
}

/// Builds a stored (uncompressed) archive from `(name, data, flags)`
/// entries, laid out canonically: files from offset zero in order, then
/// the central directory, then the trailer.
fn build_zip(entries: &[(&str, &[u8], u16)]) -> Vec<u8> {
    let mut files: Vec<u8> = Vec::new();
    let mut offsets: Vec<u32> = Vec::new();

    for (name, data, flags) in entries {
        offsets.push(files.len() as u32);
        le32(&mut files, 0x04034b50);
        le16(&mut files, 20);
        le16(&mut files, *flags);
        le16(&mut files, 0);
        le16(&mut files, 0);
        le16(&mut files, 0);
        le32(&mut files, crc32(data));
        le32(&mut files, data.len() as u32);
        le32(&mut files, data.len() as u32);
        le16(&mut files, name.len() as u16);
        le16(&mut files, 0);
        files.extend_from_slice(name.as_bytes());
        files.extend_from_slice(data);
        if *flags & 0x0008 != 0 {
            // trailing data descriptor with its optional signature
            le32(&mut files, 0x08074b50);
            le32(&mut files, crc32(data));
            le32(&mut files, data.len() as u32);
            le32(&mut files, data.len() as u32);
        }
    }

    let cd_offset = files.len() as u32;
    let mut cd: Vec<u8> = Vec::new();
    for (i, (name, data, flags)) in entries.iter().enumerate() {
        le32(&mut cd, 0x02014b50);
        le16(&mut cd, 20);
        le16(&mut cd, 20);
        le16(&mut cd, *flags);
        le16(&mut cd, 0);
        le16(&mut cd, 0);
        le16(&mut cd, 0);
        le32(&mut cd, crc32(data));
        le32(&mut cd, data.len() as u32);
        le32(&mut cd, data.len() as u32);
        le16(&mut cd, name.len() as u16);
        le16(&mut cd, 0);
        le16(&mut cd, 0);
        le16(&mut cd, 0);
        le16(&mut cd, 0);
        le32(&mut cd, 0);
        le32(&mut cd, offsets[i]);
        cd.extend_from_slice(name.as_bytes());
    }

    let mut out = files;
    let cd_size = cd.len() as u32;
    out.extend_from_slice(&cd);
    le32(&mut out, 0x06054b50);
    le16(&mut out, 0);
    le16(&mut out, 0);
    le16(&mut out, entries.len() as u16);
    le16(&mut out, entries.len() as u16);
    le32(&mut out, cd_size);
    le32(&mut out, cd_offset);
    le16(&mut out, 0);
    out
}

#[test]
fn parse_roundtrip_identical_structures() {
    let zip = build_zip(&[("hello.txt", b"hello world", 0), ("b.bin", &[1, 2, 3, 4], 0)]);
    let a1 = ZipArchive::parse(&zip).expect("archive parses");
    let bytes2 = ZipArchive::parse(&zip).unwrap().to_bytes();
    let a2 = ZipArchive::parse(&bytes2).expect("re-serialized archive parses");
    assert_eq!(a1, a2);
    assert_eq!(bytes2, zip);
}

#[test]
fn parse_roundtrip_with_data_descriptor() {
    let zip = build_zip(&[("dd.txt", b"described", 0x0008)]);
    let a1 = ZipArchive::parse(&zip).expect("archive parses");
    assert!(a1.zip_files[0].data_discriptor.is_some());
    let bytes2 = ZipArchive::parse(&zip).unwrap().to_bytes();
    assert_eq!(bytes2, zip);
}

#[test]
fn strip_clears_both_flag_words() {
    let zip = build_zip(&[("x.txt", b"payload", 0x0008)]);
    let stripped = try_remove_encryption_bits(&zip).expect("strip succeeds");
    let a = ZipArchive::parse(&stripped).expect("stripped archive parses");
    assert_eq!(a.zip_files[0].local_file_header.general_purpose & 0x0008, 0);
    assert_eq!(a.central_directory_headers[0].general_purpose & 0x0008, 0);
}

#[test]
fn strip_idempotent_without_local_descriptor_bit() {
    // the descriptor bit set only in the central directory: the local
    // record carries no orphaned descriptor bytes, so a second pass
    // reproduces the first exactly
    let mut zip = build_zip(&[("x.txt", b"payload", 0)]);
    let cd_flag_offset = zip.len() - 22 - 46 - 5 + 8;
    zip[cd_flag_offset] |= 0x08;
    let once = try_remove_encryption_bits(&zip).expect("first strip succeeds");
    let twice = try_remove_encryption_bits(&once).expect("second strip succeeds");
    assert_eq!(once, twice);
}

#[test]
fn strip_keeps_orphaned_descriptor_bytes() {
    // with the local bit set, the descriptor bytes stay in the output
    // as an ignorable trailing sequence inside the file region
    let zip = build_zip(&[("x.txt", b"payload", 0x0008)]);
    let stripped = try_remove_encryption_bits(&zip).expect("strip succeeds");
    assert_eq!(stripped.len(), zip.len());
    let sig = 0x08074b50u32.to_le_bytes();
    assert!(stripped.windows(4).any(|w| w == sig));
}

#[test]
fn eocd_found_at_boundary() {
    // an EOCD standing exactly 22 + k bytes before the end is found for
    // k up to 65536
    for k in [0usize, 1, 100, 65535, 65536] {
        let mut buf = vec![0u8; k];
        let mut eocd = Vec::new();
        le32(&mut eocd, 0x06054b50);
        eocd.extend_from_slice(&[0; 16]);
        le16(&mut eocd, 0);
        let mut whole = eocd;
        whole.append(&mut buf);
        assert_eq!(whole.len(), 22 + k);
        let parsed = EOCD::parse(&whole);
        assert!(parsed.is_ok(), "k = {k} must be found");
    }
}

#[test]
fn eocd_rejected_beyond_boundary() {
    for k in [65537usize, 70000] {
        let mut whole = Vec::new();
        le32(&mut whole, 0x06054b50);
        whole.extend_from_slice(&[0; 16]);
        le16(&mut whole, 0);
        whole.extend_from_slice(&vec![0u8; k]);
        assert_eq!(whole.len(), 22 + k);
        assert_eq!(EOCD::parse(&whole), Err(FormatError::EocdNotFound), "k = {k} must fail");
    }
}

#[test]
fn eocd_scan_takes_the_occurrence_nearest_the_end() {
    // a full trailer whose comment itself holds a second, empty
    // trailer: the backward scan lands on the nested one
    let mut nested = Vec::new();
    le32(&mut nested, 0x06054b50);
    le16(&mut nested, 0);
    le16(&mut nested, 0);
    le16(&mut nested, 7);
    le16(&mut nested, 7);
    le32(&mut nested, 0);
    le32(&mut nested, 0);
    le16(&mut nested, 0);

    let mut outer = Vec::new();
    le32(&mut outer, 0x06054b50);
    outer.extend_from_slice(&[0; 14]);
    le16(&mut outer, 22);
    outer.extend_from_slice(&nested);

    let parsed = EOCD::parse(&outer).expect("nested trailer parses");
    assert_eq!(parsed.cental_dir_entries_total, 7);
    assert_eq!(parsed.comment_length, 0);
}

#[test]
fn strip_of_clean_archive_is_identity() {
    let zip = build_zip(&[("a.txt", b"contents", 0)]);
    assert_eq!(try_remove_encryption_bits(&zip).unwrap(), zip);
}

#[test]
fn truncated_archives_degrade_not_crash() {
    // buffers without a valid EOCD: every length up to 1 KiB yields a
    // typed error, never a panic
    let pattern: Vec<u8> = (0..1024u32).map(|i| (i.wrapping_mul(37) % 251) as u8).collect();
    for len in 0..=1024usize {
        let buf = &pattern[..len];
        match ZipArchive::parse(buf) {
            Ok(_) => panic!("pattern buffer must not parse"),
            Err(_) => {},
        }
        match try_remove_encryption_bits(buf) {
            Ok(_) => panic!("pattern buffer must not strip"),
            Err(_) => {},
        }
    }
}

#[test]
fn truncated_real_archive_degrades() {
    let zip = build_zip(&[("hello.txt", b"hello world", 0)]);
    for cut in 1..zip.len() {
        let _ = ZipArchive::parse(&zip[..cut]);
        let _ = try_remove_encryption_bits(&zip[..cut]);
    }
}

#[test]
fn local_file_header_roundtrip() {
    let mut bytes = Vec::new();
    le32(&mut bytes, 0x04034b50);
    le16(&mut bytes, 20);
    le16(&mut bytes, 0x0008);
    le16(&mut bytes, 8);
    le16(&mut bytes, 0x6000);
    le16(&mut bytes, 0x5000);
    le32(&mut bytes, 0xdeadbeef);
    le32(&mut bytes, 5);
    le32(&mut bytes, 9);
    le16(&mut bytes, 4);
    le16(&mut bytes, 3);
    bytes.extend_from_slice(b"name");
    bytes.extend_from_slice(&[9, 9, 9]);

    let h = LocalFileHeader::parse(&bytes).expect("header parses");
    assert_eq!(h.signature, 0x04034b50);
    assert_eq!(h.general_purpose, 0x0008);
    assert_eq!(h.file_name, b"name".to_vec());
    assert_eq!(h.len(), bytes.len());
    assert_eq!(h.to_bytes(), bytes);
}

#[test]
fn local_file_header_rejects_zip64_and_bad_name() {
    let mut bytes = Vec::new();
    le32(&mut bytes, 0x04034b50);
    bytes.extend_from_slice(&[0; 22]);
    le16(&mut bytes, 1);
    le16(&mut bytes, 1);
    bytes.push(0xff); // invalid UTF-8 file name
    bytes.push(7);
    assert_eq!(LocalFileHeader::parse(&bytes), Err(FormatError::InvalidUtf8FileName));

    let mut bytes = Vec::new();
    le32(&mut bytes, 0x04034b50);
    bytes.extend_from_slice(&[0; 22]);
    le16(&mut bytes, 1);
    le16(&mut bytes, 1);
    bytes.push(b'a');
    bytes.push(1); // zip64 marker leads the extra field
    assert_eq!(LocalFileHeader::parse(&bytes), Err(FormatError::UnsupportedZip64));

    let mut bytes = Vec::new();
    le32(&mut bytes, 0x04034b50);
    bytes.extend_from_slice(&[0; 22]);
    le16(&mut bytes, 9); // declared name length exceeds the buffer
    le16(&mut bytes, 0);
    assert_eq!(LocalFileHeader::parse(&bytes), Err(FormatError::Truncated));
}

#[test]
fn data_descriptor_signature_detected_not_assumed() {
    let mut with_sig = Vec::new();
    le32(&mut with_sig, 0x08074b50);
    le32(&mut with_sig, 0x11111111);
    le32(&mut with_sig, 5);
    le32(&mut with_sig, 9);
    let d = DataDiscriptor::parse(&with_sig).unwrap();
    assert_eq!(d.signature, Some(0x08074b50));
    assert_eq!(d.crc_32, 0x11111111);
    assert_eq!(d.len(), 16);
    assert_eq!(d.to_bytes(), with_sig);

    let mut without = Vec::new();
    le32(&mut without, 0x22222222);
    le32(&mut without, 5);
    le32(&mut without, 9);
    let d = DataDiscriptor::parse(&without).unwrap();
    assert_eq!(d.signature, None);
    assert_eq!(d.crc_32, 0x22222222);
    assert_eq!(d.len(), 12);
    assert_eq!(d.to_bytes(), without);
}

#[test]
fn central_directory_walks_contiguous_records() {
    let zip = build_zip(&[("a", b"1", 0), ("bb", b"22", 0), ("ccc", b"333", 0)]);
    let archive = ZipArchive::parse(&zip).unwrap();
    assert_eq!(archive.central_directory_headers.len(), 3);
    assert_eq!(archive.zip_files.len(), 3);
    assert_eq!(archive.zip_files[0].file_data, b"1".to_vec());
    assert_eq!(archive.zip_files[1].file_data, b"22".to_vec());
    assert_eq!(archive.zip_files[2].file_data, b"333".to_vec());
    let start = archive.eocd.central_dir_offset as usize;
    let stop = start + archive.eocd.central_dir_size as usize;
    let cdhs = CDH::get_vec_from_bytes(&zip[start..stop]).unwrap();
    assert_eq!(cdhs.len(), 3);
    assert_eq!(cdhs[1].file_name, b"bb".to_vec());
    assert_eq!(cdhs[1].len(), 48);
}

#[test]
fn zipfile_sized_by_central_directory() {
    let zip = build_zip(&[("f.txt", b"abcdef", 0)]);
    let archive = ZipArchive::parse(&zip).unwrap();
    let cdh = &archive.central_directory_headers[0];
    let zf = macon::archive::ZipFile::try_from_with_compressed_size(
        &zip[cdh.local_header_offset as usize..],
        cdh,
    )
    .unwrap();
    assert_eq!(zf.file_data, b"abcdef".to_vec());
    assert_eq!(zf.len(), 30 + 5 + 6);
    assert_eq!(zf.to_bytes(), zip[..zf.len()].to_vec());
}
