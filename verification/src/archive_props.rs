//! Round-trip laws for the archive model: serializing a well-formed
//! structure and parsing the result recovers the structure, field for
//! field, and the encryption-bit-stripping transform is idempotent on
//! archives it fully round-trips.

use vstd::prelude::*;

verus! {

use crate::archive::{
    CdhView, DdView, EocdView, FormatError, LfhView, ZipArchiveView, ZipFileView,
};
use crate::archive::{cdh_bytes, cdh_len, cdh_wf, spec_parse_cdh, spec_parse_cdh_list};
use crate::archive::{dd_bytes, dd_len, dd_wf, spec_parse_dd};
use crate::archive::{eocd_bytes, eocd_len, eocd_wf, is_eocd_sig_at, spec_parse_eocd};
use crate::archive::{spec_find_eocd, spec_find_eocd_from};
use crate::archive::{le16_bytes, le32_bytes, lemma_le16_roundtrip, lemma_le32_roundtrip};
use crate::archive::{lfh_bytes, lfh_len, lfh_wf, spec_parse_lfh};
use crate::archive::{spec_le16, spec_le32};
use crate::archive::{
    archive_bytes, archive_wf, cdhs_bytes, spec_parse_archive, spec_parse_zipfile,
    spec_parse_zipfiles, zipfile_bytes, zipfile_len, zipfile_wf, zipfiles_bytes,
};
use crate::archive::{clear_archive, clear_cdh, clear_lfh, clear_zipfile, spec_strip};

/// A little-endian `u16` read back from its own bytes, wherever they
/// stand in a larger buffer.
pub proof fn lemma_le16_at(b: Seq<u8>, i: int, x: u16)
    requires
        0 <= i,
        i + 2 <= b.len(),
        b.subrange(i, i + 2) == le16_bytes(x),
    ensures
        spec_le16(b, i) == x,
{
    assert(b[i] == le16_bytes(x)[0]);
    assert(b[i + 1] == le16_bytes(x)[1]);
    lemma_le16_roundtrip(x);
}

/// A little-endian `u32` read back from its own bytes, wherever they
/// stand in a larger buffer.
pub proof fn lemma_le32_at(b: Seq<u8>, i: int, x: u32)
    requires
        0 <= i,
        i + 4 <= b.len(),
        b.subrange(i, i + 4) == le32_bytes(x),
    ensures
        spec_le32(b, i) == x,
{
    assert(b[i] == le32_bytes(x)[0]);
    assert(b[i + 1] == le32_bytes(x)[1]);
    assert(b[i + 2] == le32_bytes(x)[2]);
    assert(b[i + 3] == le32_bytes(x)[3]);
    lemma_le32_roundtrip(x);
}

/// Parsing a serialized well-formed local file header recovers it, for
/// any trailing bytes.
#[verifier::rlimit(100)]
#[verifier::spinoff_prover]
pub proof fn lemma_parse_lfh_prefix(h: LfhView, tail: Seq<u8>)
    requires
        lfh_wf(h),
    ensures
        spec_parse_lfh(lfh_bytes(h) + tail) == Ok::<LfhView, FormatError>(h),
        lfh_bytes(h).len() == lfh_len(h),
{
    reveal(lfh_bytes);
    reveal(spec_parse_lfh);
    let b = lfh_bytes(h) + tail;
    let fnl = h.file_name_length as int;
    let efl = h.extra_field_length as int;
    assert(lfh_bytes(h).len() == 30 + fnl + efl);

    assert(b.subrange(0, 4) =~= le32_bytes(h.signature));
    lemma_le32_at(b, 0, h.signature);
    assert(b.subrange(4, 6) =~= le16_bytes(h.version_needed_to_extract));
    lemma_le16_at(b, 4, h.version_needed_to_extract);
    assert(b.subrange(6, 8) =~= le16_bytes(h.general_purpose));
    lemma_le16_at(b, 6, h.general_purpose);
    assert(b.subrange(8, 10) =~= le16_bytes(h.compression_method));
    lemma_le16_at(b, 8, h.compression_method);
    assert(b.subrange(10, 12) =~= le16_bytes(h.last_mod_file_time));
    lemma_le16_at(b, 10, h.last_mod_file_time);
    assert(b.subrange(12, 14) =~= le16_bytes(h.last_mod_file_date));
    lemma_le16_at(b, 12, h.last_mod_file_date);
    assert(b.subrange(14, 18) =~= le32_bytes(h.crc_32));
    lemma_le32_at(b, 14, h.crc_32);
    assert(b.subrange(18, 22) =~= le32_bytes(h.compressed_size));
    lemma_le32_at(b, 18, h.compressed_size);
    assert(b.subrange(22, 26) =~= le32_bytes(h.uncompressed_size));
    lemma_le32_at(b, 22, h.uncompressed_size);
    assert(b.subrange(26, 28) =~= le16_bytes(h.file_name_length));
    lemma_le16_at(b, 26, h.file_name_length);
    assert(b.subrange(28, 30) =~= le16_bytes(h.extra_field_length));
    lemma_le16_at(b, 28, h.extra_field_length);

    assert(b.subrange(30, 30 + fnl) =~= h.file_name);
    assert(b.subrange(30 + fnl, 30 + fnl + efl) =~= h.extra_field);
}

/// Parsing a serialized well-formed data descriptor recovers it, for any
/// trailing bytes.
pub proof fn lemma_parse_dd_prefix(d: DdView, tail: Seq<u8>)
    requires
        dd_wf(d),
    ensures
        spec_parse_dd(dd_bytes(d) + tail) == Ok::<DdView, FormatError>(d),
        dd_bytes(d).len() == dd_len(d),
{
    reveal(dd_bytes);
    reveal(spec_parse_dd);
    let b = dd_bytes(d) + tail;
    match d.signature {
        Some(sig) => {
            assert(b.subrange(0, 4) =~= le32_bytes(sig));
            lemma_le32_at(b, 0, sig);
            assert(b.subrange(4, 8) =~= le32_bytes(d.crc_32));
            lemma_le32_at(b, 4, d.crc_32);
            assert(b.subrange(8, 12) =~= le32_bytes(d.compressed_size));
            lemma_le32_at(b, 8, d.compressed_size);
            assert(b.subrange(12, 16) =~= le32_bytes(d.uncompressed_size));
            lemma_le32_at(b, 12, d.uncompressed_size);
        },
        None => {
            assert(b.subrange(0, 4) =~= le32_bytes(d.crc_32));
            lemma_le32_at(b, 0, d.crc_32);
            assert(b.subrange(4, 8) =~= le32_bytes(d.compressed_size));
            lemma_le32_at(b, 4, d.compressed_size);
            assert(b.subrange(8, 12) =~= le32_bytes(d.uncompressed_size));
            lemma_le32_at(b, 8, d.uncompressed_size);
        },
    }
}

/// Parsing a serialized well-formed central directory record recovers
/// it, for any trailing bytes.
#[verifier::rlimit(100)]
#[verifier::spinoff_prover]
pub proof fn lemma_parse_cdh_prefix(c: CdhView, tail: Seq<u8>)
    requires
        cdh_wf(c),
    ensures
        spec_parse_cdh(cdh_bytes(c) + tail) == Ok::<CdhView, FormatError>(c),
        cdh_bytes(c).len() == cdh_len(c),
{
    reveal(cdh_bytes);
    reveal(spec_parse_cdh);
    let b = cdh_bytes(c) + tail;
    let fnl = c.file_name_length as int;
    let efl = c.extra_field_length as int;
    let fcl = c.file_comment_length as int;
    assert(cdh_bytes(c).len() == 46 + fnl + efl + fcl);

    assert(b.subrange(0, 4) =~= le32_bytes(c.signature));
    lemma_le32_at(b, 0, c.signature);
    assert(b.subrange(4, 6) =~= le16_bytes(c.version_made_by));
    lemma_le16_at(b, 4, c.version_made_by);
    assert(b.subrange(6, 8) =~= le16_bytes(c.version_needed_to_extract));
    lemma_le16_at(b, 6, c.version_needed_to_extract);
    assert(b.subrange(8, 10) =~= le16_bytes(c.general_purpose));
    lemma_le16_at(b, 8, c.general_purpose);
    assert(b.subrange(10, 12) =~= le16_bytes(c.compression_method));
    lemma_le16_at(b, 10, c.compression_method);
    assert(b.subrange(12, 14) =~= le16_bytes(c.last_mod_file_time));
    lemma_le16_at(b, 12, c.last_mod_file_time);
    assert(b.subrange(14, 16) =~= le16_bytes(c.last_mod_file_date));
    lemma_le16_at(b, 14, c.last_mod_file_date);
    assert(b.subrange(16, 20) =~= le32_bytes(c.crc_32));
    lemma_le32_at(b, 16, c.crc_32);
    assert(b.subrange(20, 24) =~= le32_bytes(c.compressed_size));
    lemma_le32_at(b, 20, c.compressed_size);
    assert(b.subrange(24, 28) =~= le32_bytes(c.uncompressed_size));
    lemma_le32_at(b, 24, c.uncompressed_size);
    assert(b.subrange(28, 30) =~= le16_bytes(c.file_name_length));
    lemma_le16_at(b, 28, c.file_name_length);
    assert(b.subrange(30, 32) =~= le16_bytes(c.extra_field_length));
    lemma_le16_at(b, 30, c.extra_field_length);
    assert(b.subrange(32, 34) =~= le16_bytes(c.file_comment_length));
    lemma_le16_at(b, 32, c.file_comment_length);
    assert(b.subrange(34, 36) =~= le16_bytes(c.disk_number_start));
    lemma_le16_at(b, 34, c.disk_number_start);
    assert(b.subrange(36, 38) =~= le16_bytes(c.internal_file_attributes));
    lemma_le16_at(b, 36, c.internal_file_attributes);
    assert(b.subrange(38, 42) =~= le32_bytes(c.external_file_attributes));
    lemma_le32_at(b, 38, c.external_file_attributes);
    assert(b.subrange(42, 46) =~= le32_bytes(c.local_header_offset));
    lemma_le32_at(b, 42, c.local_header_offset);

    assert(b.subrange(46, 46 + fnl) =~= c.file_name);
    assert(b.subrange(46 + fnl, 46 + fnl + efl) =~= c.extra_field);
    assert(b.subrange(46 + fnl + efl, 46 + fnl + efl + fcl) =~= c.file_comment);
}

/// Parsing a serialized well-formed archived file recovers it, for any
/// trailing bytes, when the central directory size matches its data.
#[verifier::rlimit(100)]
#[verifier::spinoff_prover]
pub proof fn lemma_parse_zipfile_prefix(z: ZipFileView, csize: u32, tail: Seq<u8>)
    requires
        zipfile_wf(z),
        csize == z.file_data.len(),
    ensures
        spec_parse_zipfile(zipfile_bytes(z) + tail, csize) == Ok::<ZipFileView, FormatError>(z),
        zipfile_bytes(z).len() == zipfile_len(z),
{
    let h = z.local_file_header;
    let ddpart = match z.data_discriptor {
        Some(dd) => dd_bytes(dd),
        None => Seq::<u8>::empty(),
    };
    let rest = z.file_data + ddpart + tail;
    let b = zipfile_bytes(z) + tail;

    assert(b =~= lfh_bytes(h) + rest);
    lemma_parse_lfh_prefix(h, rest);
    assert(spec_parse_lfh(b) == Ok::<LfhView, FormatError>(h));

    let start = lfh_len(h);
    let stop = start + csize;
    assert(b.subrange(start, stop) =~= z.file_data);

    match z.data_discriptor {
        Some(dd) => {
            assert(h.general_purpose & 0x0008u16 != 0);
            assert(b.subrange(stop, b.len() as int) =~= dd_bytes(dd) + tail);
            lemma_parse_dd_prefix(dd, tail);
        },
        None => {
            assert(h.general_purpose & 0x0008u16 == 0);
        },
    }
}

/// The serialization of a run of records decomposes at its head.
pub proof fn lemma_cdhs_bytes_first(cs: Seq<CdhView>)
    requires
        cs.len() > 0,
    ensures
        cdhs_bytes(cs) == cdh_bytes(cs[0]) + cdhs_bytes(cs.drop_first()),
    decreases cs.len(),
{
    if cs.len() == 1 {
        assert(cs.drop_last() =~= Seq::<CdhView>::empty());
        assert(cs.drop_first() =~= Seq::<CdhView>::empty());
        assert(cdhs_bytes(cs) =~= cdh_bytes(cs[0]) + cdhs_bytes(cs.drop_first()));
    } else {
        let init = cs.drop_last();
        lemma_cdhs_bytes_first(init);
        assert(cs.drop_first().drop_last() =~= init.drop_first());
        assert(cs.drop_first().last() == cs.last());
        assert(cdhs_bytes(cs.drop_first()) == cdhs_bytes(init.drop_first()) + cdh_bytes(
            cs.last(),
        ));
        assert(cdhs_bytes(cs) == (cdh_bytes(cs[0]) + cdhs_bytes(init.drop_first())) + cdh_bytes(
            cs.last(),
        ));
        assert((cdh_bytes(cs[0]) + cdhs_bytes(init.drop_first())) + cdh_bytes(cs.last())
            =~= cdh_bytes(cs[0]) + (cdhs_bytes(init.drop_first()) + cdh_bytes(cs.last())));
    }
}

/// Parsing a buffer whose tail from `pos` is exactly the serialization
/// of well-formed records recovers those records.
#[verifier::rlimit(100)]
#[verifier::spinoff_prover]
pub proof fn lemma_parse_cdh_list_at(b: Seq<u8>, pos: int, cs: Seq<CdhView>)
    requires
        0 <= pos <= b.len(),
        b.subrange(pos, b.len() as int) == cdhs_bytes(cs),
        forall|k: int| 0 <= k < cs.len() ==> cdh_wf(#[trigger] cs[k]),
    ensures
        spec_parse_cdh_list(b, pos) == Ok::<Seq<CdhView>, FormatError>(cs),
    decreases cs.len(),
{
    let sub = b.subrange(pos, b.len() as int);
    if cs.len() == 0 {
        assert(sub.len() == 0);
        assert(pos >= b.len());
        assert(cs =~= Seq::<CdhView>::empty());
    } else {
        lemma_cdhs_bytes_first(cs);
        let c0 = cs[0];
        let restbytes = cdhs_bytes(cs.drop_first());
        lemma_parse_cdh_prefix(c0, restbytes);
        assert(sub == cdh_bytes(c0) + restbytes);
        assert(spec_parse_cdh(sub) == Ok::<CdhView, FormatError>(c0));

        let pos2 = pos + cdh_len(c0);
        assert(cdh_bytes(c0).len() == cdh_len(c0));
        assert(pos2 <= b.len());
        assert(b.subrange(pos2, b.len() as int) =~= restbytes) by {
            assert forall|k: int| 0 <= k < b.len() - pos2 implies b.subrange(
                pos2,
                b.len() as int,
            )[k] == restbytes[k] by {
                assert(b[pos2 + k] == sub[cdh_len(c0) + k]);
                assert(sub[cdh_len(c0) + k] == (cdh_bytes(c0) + restbytes)[cdh_len(c0) + k]);
            }
        }
        assert(forall|k: int|
            0 <= k < cs.drop_first().len() ==> cdh_wf(#[trigger] cs.drop_first()[k]));
        lemma_parse_cdh_list_at(b, pos2, cs.drop_first());
        assert(pos < b.len()) by {
            assert(sub.len() > 0);
        }
        assert(seq![c0] + cs.drop_first() =~= cs);
    }
}

/// The serialization of the files from index `i` onward.
pub open spec fn zipfiles_bytes_from(s: Seq<ZipFileView>, i: int) -> Seq<u8>
    decreases s.len() - i,
{
    if i < 0 || i >= s.len() {
        Seq::<u8>::empty()
    } else {
        zipfile_bytes(s[i]) + zipfiles_bytes_from(s, i + 1)
    }
}

/// The serialization of a run of files splits at any index into the
/// prefix files and the files from that index onward.
pub proof fn lemma_zipfiles_bytes_split(s: Seq<ZipFileView>, i: int)
    requires
        0 <= i <= s.len(),
    ensures
        zipfiles_bytes(s) == zipfiles_bytes(s.take(i)) + zipfiles_bytes_from(s, i),
    decreases s.len() - i,
{
    if i == s.len() {
        assert(s.take(i) =~= s);
        assert(zipfiles_bytes(s) =~= zipfiles_bytes(s.take(i)) + zipfiles_bytes_from(s, i));
    } else {
        lemma_zipfiles_bytes_split(s, i + 1);
        let t1 = s.take(i + 1);
        assert(t1.drop_last() =~= s.take(i));
        assert(t1.last() == s[i]);
        assert(zipfiles_bytes(t1) == zipfiles_bytes(s.take(i)) + zipfile_bytes(s[i]));
        assert((zipfiles_bytes(s.take(i)) + zipfile_bytes(s[i])) + zipfiles_bytes_from(s, i + 1)
            =~= zipfiles_bytes(s.take(i)) + (zipfile_bytes(s[i]) + zipfiles_bytes_from(s, i + 1)));
    }
}

/// Parsing the files named by the central directory recovers them, when
/// the buffer opens with their serializations at the recorded offsets.
#[verifier::rlimit(100)]
#[verifier::spinoff_prover]
pub proof fn lemma_parse_zipfiles_at(
    b: Seq<u8>,
    files: Seq<ZipFileView>,
    cdhs: Seq<CdhView>,
    i: int,
)
    requires
        files.len() == cdhs.len(),
        forall|k: int| 0 <= k < files.len() ==> zipfile_wf(#[trigger] files[k]),
        forall|k: int|
            0 <= k < files.len() ==> (#[trigger] files[k]).file_data.len()
                == cdhs[k].compressed_size,
        forall|k: int|
            0 <= k < cdhs.len() ==> (#[trigger] cdhs[k]).local_header_offset == zipfiles_bytes(
                files.take(k),
            ).len(),
        zipfiles_bytes(files).len() <= b.len(),
        b.subrange(0, zipfiles_bytes(files).len() as int) == zipfiles_bytes(files),
        0 <= i <= files.len(),
    ensures
        spec_parse_zipfiles(b, cdhs, i) == Ok::<Seq<ZipFileView>, FormatError>(files.skip(i)),
    decreases files.len() - i,
{
    if i == files.len() {
        assert(files.skip(i) =~= Seq::<ZipFileView>::empty());
    } else {
        let total = zipfiles_bytes(files).len() as int;
        let c = cdhs[i];
        let z = files[i];
        let off = c.local_header_offset as int;
        lemma_zipfiles_bytes_split(files, i);
        assert(off == zipfiles_bytes(files.take(i)).len());
        assert(off + zipfiles_bytes_from(files, i).len() == total);
        assert(off <= total <= b.len());

        let zlen = zipfile_bytes(z).len();
        let sub = b.subrange(off, b.len() as int);
        let tail_i = b.subrange(off + zlen, b.len() as int);
        assert(off + zlen <= total);
        assert(sub =~= zipfile_bytes(z) + tail_i) by {
            assert forall|k: int| 0 <= k < b.len() - off implies sub[k] == (zipfile_bytes(z)
                + tail_i)[k] by {
                if k < zlen {
                    assert(sub[k] == b[off + k]);
                    assert(b[off + k] == b.subrange(0, total)[off + k]);
                    assert(zipfiles_bytes(files)[off + k] == (zipfiles_bytes(files.take(i))
                        + zipfiles_bytes_from(files, i))[off + k]);
                    assert(zipfiles_bytes_from(files, i)[k] == (zipfile_bytes(z)
                        + zipfiles_bytes_from(files, i + 1))[k]);
                }
            }
        }
        lemma_parse_zipfile_prefix(z, c.compressed_size, tail_i);
        assert(spec_parse_zipfile(sub, c.compressed_size) == Ok::<ZipFileView, FormatError>(z));

        lemma_parse_zipfiles_at(b, files, cdhs, i + 1);
        assert(seq![z] + files.skip(i + 1) =~= files.skip(i));
    }
}

/// Serializing back the `u16` read at offset `i` reproduces the two
/// bytes it was read from.
pub proof fn lemma_le16_reverse(b: Seq<u8>, i: int)
    requires
        0 <= i,
        i + 2 <= b.len(),
    ensures
        le16_bytes(spec_le16(b, i)) =~= b.subrange(i, i + 2),
{
    let v = spec_le16(b, i);
    assert(v == b[i] + b[i + 1] * 0x100);
    assert(v % 0x100 == b[i] && v / 0x100 == b[i + 1]) by (nonlinear_arith)
        requires
            v == b[i] + b[i + 1] * 0x100,
            0 <= b[i] < 0x100,
            0 <= b[i + 1] < 0x100,
    ;
}

/// Serializing back the `u32` read at offset `i` reproduces the four
/// bytes it was read from.
pub proof fn lemma_le32_reverse(b: Seq<u8>, i: int)
    requires
        0 <= i,
        i + 4 <= b.len(),
    ensures
        le32_bytes(spec_le32(b, i)) =~= b.subrange(i, i + 4),
{
    let v = spec_le32(b, i);
    assert(v == b[i] + b[i + 1] * 0x100 + b[i + 2] * 0x10000 + b[i + 3] * 0x1000000);
    assert(v % 0x100 == b[i] && (v / 0x100) % 0x100 == b[i + 1] && (v / 0x10000) % 0x100 == b[i
        + 2] && (v / 0x1000000) % 0x100 == b[i + 3]) by (nonlinear_arith)
        requires
            v == b[i] + b[i + 1] * 0x100 + b[i + 2] * 0x10000 + b[i + 3] * 0x1000000,
            0 <= b[i] < 0x100,
            0 <= b[i + 1] < 0x100,
            0 <= b[i + 2] < 0x100,
            0 <= b[i + 3] < 0x100,
    ;
}

/// What a successful backward scan guarantees: the signature stands at
/// the found offset, within the trailing window, and nowhere later.
pub proof fn lemma_find_sig_down_props(b: Seq<u8>, hi: int, o: int)
    requires
        spec_find_eocd_from(b, hi) == Some(o),
    ensures
        is_eocd_sig_at(b, o),
        o <= hi,
        b.len() - o <= 65558,
        forall|j: int| o < j <= hi ==> !is_eocd_sig_at(b, j),
    decreases hi + 1,
{
    if hi < 0 || b.len() - hi > 65558 {
    } else if is_eocd_sig_at(b, hi) {
    } else {
        lemma_find_sig_down_props(b, hi - 1, o);
    }
}

/// A signature inside the trailing window is always found: the scan
/// returns some offset at or above it.
pub proof fn lemma_find_sig_down_some(b: Seq<u8>, hi: int, o: int)
    requires
        is_eocd_sig_at(b, o),
        b.len() - o <= 65558,
        o <= hi <= b.len() - 4,
    ensures
        spec_find_eocd_from(b, hi) matches Some(p) && p >= o,
    decreases hi + 1,
{
    if is_eocd_sig_at(b, hi) {
    } else {
        lemma_find_sig_down_some(b, hi - 1, o);
    }
}

/// The exact offset the scan returns when the signature stands at `o`
/// and nowhere later in the window.
pub proof fn lemma_find_sig_down_exact(b: Seq<u8>, o: int)
    requires
        is_eocd_sig_at(b, o),
        b.len() - o <= 65558,
        forall|j: int| o < j ==> !is_eocd_sig_at(b, j),
    ensures
        spec_find_eocd(b) == Some(o),
{
    lemma_find_sig_down_some(b, b.len() - 4, o);
    let p = spec_find_eocd_from(b, b.len() - 4).unwrap();
    lemma_find_sig_down_props(b, b.len() - 4, p);
    if p > o {
        assert(!is_eocd_sig_at(b, p));
        assert(false);
    }
}

/// A successfully parsed local file header is structurally valid and
/// fits in the buffer it was read from.
pub proof fn lemma_parse_lfh_wf(b: Seq<u8>, h: LfhView)
    requires
        spec_parse_lfh(b) == Ok::<LfhView, FormatError>(h),
    ensures
        lfh_wf(h),
        lfh_len(h) <= b.len(),
{
    reveal(spec_parse_lfh);
}

/// A successfully parsed data descriptor is structurally valid.
pub proof fn lemma_parse_dd_wf(b: Seq<u8>, d: DdView)
    requires
        spec_parse_dd(b) == Ok::<DdView, FormatError>(d),
    ensures
        dd_wf(d),
{
    reveal(spec_parse_dd);
}

/// A successfully parsed central directory record is structurally valid
/// and fits in the buffer it was read from.
pub proof fn lemma_parse_cdh_wf(b: Seq<u8>, c: CdhView)
    requires
        spec_parse_cdh(b) == Ok::<CdhView, FormatError>(c),
    ensures
        cdh_wf(c),
        cdh_len(c) <= b.len(),
{
    reveal(spec_parse_cdh);
}

/// Every record of a successfully parsed central directory is valid.
pub proof fn lemma_parse_cdh_list_wf(b: Seq<u8>, pos: int, cs: Seq<CdhView>)
    requires
        spec_parse_cdh_list(b, pos) == Ok::<Seq<CdhView>, FormatError>(cs),
    ensures
        forall|k: int| 0 <= k < cs.len() ==> cdh_wf(#[trigger] cs[k]),
    decreases b.len() - pos,
{
    if pos < 0 || pos >= b.len() {
    } else {
        let sub = b.subrange(pos, b.len() as int);
        match spec_parse_cdh(sub) {
            Ok(c) => {
                lemma_parse_cdh_wf(sub, c);
                match spec_parse_cdh_list(b, pos + cdh_len(c)) {
                    Ok(rest) => {
                        lemma_parse_cdh_list_wf(b, pos + cdh_len(c), rest);
                        assert(cs == seq![c] + rest);
                        assert(forall|k: int|
                            1 <= k < cs.len() ==> cs[k] == #[trigger] rest[k - 1]);
                    },
                    Err(_) => {},
                }
            },
            Err(_) => {},
        }
    }
}

/// A successfully parsed archived file is structurally valid and its
/// data has exactly the length the central directory declared.
pub proof fn lemma_parse_zipfile_wf(b: Seq<u8>, csize: u32, z: ZipFileView)
    requires
        spec_parse_zipfile(b, csize) == Ok::<ZipFileView, FormatError>(z),
    ensures
        zipfile_wf(z),
        z.file_data.len() == csize,
{
    match spec_parse_lfh(b) {
        Ok(lfh) => {
            lemma_parse_lfh_wf(b, lfh);
            if lfh.general_purpose & 0x0008u16 != 0 {
                let stop = lfh_len(lfh) + csize;
                match spec_parse_dd(b.subrange(stop, b.len() as int)) {
                    Ok(dd) => {
                        lemma_parse_dd_wf(b.subrange(stop, b.len() as int), dd);
                    },
                    Err(_) => {},
                }
            }
        },
        Err(_) => {},
    }
}

/// Every archived file parsed from the central directory is valid and
/// sized by its record.
pub proof fn lemma_parse_zipfiles_wf(b: Seq<u8>, cdhs: Seq<CdhView>, i: int, zs: Seq<ZipFileView>)
    requires
        0 <= i <= cdhs.len(),
        spec_parse_zipfiles(b, cdhs, i) == Ok::<Seq<ZipFileView>, FormatError>(zs),
    ensures
        zs.len() == cdhs.len() - i,
        forall|k: int| 0 <= k < zs.len() ==> zipfile_wf(#[trigger] zs[k]),
        forall|k: int|
            0 <= k < zs.len() ==> (#[trigger] zs[k]).file_data.len() == cdhs[i + k].compressed_size,
    decreases cdhs.len() - i,
{
    if i == cdhs.len() {
    } else {
        let c = cdhs[i];
        let sub = b.subrange(c.local_header_offset as int, b.len() as int);
        match spec_parse_zipfile(sub, c.compressed_size) {
            Ok(z) => {
                lemma_parse_zipfile_wf(sub, c.compressed_size, z);
                match spec_parse_zipfiles(b, cdhs, i + 1) {
                    Ok(rest) => {
                        lemma_parse_zipfiles_wf(b, cdhs, i + 1, rest);
                        assert(zs == seq![z] + rest);
                        assert(forall|k: int|
                            1 <= k < zs.len() ==> zs[k] == #[trigger] rest[k - 1]);
                    },
                    Err(_) => {},
                }
            },
            Err(_) => {},
        }
    }
}

/// The serialized length of the trailer record.
pub proof fn lemma_eocd_bytes_len(e: EocdView)
    ensures
        eocd_bytes(e).len() == 22 + e.comment.len(),
{
    reveal(eocd_bytes);
}

/// Parsing a buffer that ends with a serialized well-formed trailer,
/// whose signature bytes occur nowhere later, recovers the trailer.
#[verifier::rlimit(100)]
#[verifier::spinoff_prover]
pub proof fn lemma_parse_eocd_at(b: Seq<u8>, e: EocdView)
    requires
        eocd_wf(e),
        eocd_bytes(e).len() <= b.len(),
        b.subrange(b.len() - eocd_bytes(e).len(), b.len() as int) == eocd_bytes(e),
        forall|j: int| b.len() - eocd_bytes(e).len() < j ==> !is_eocd_sig_at(b, j),
    ensures
        spec_parse_eocd(b) == Ok::<EocdView, FormatError>(e),
        spec_find_eocd(b) == Some(b.len() - eocd_bytes(e).len()),
{
    reveal(eocd_bytes);
    lemma_eocd_bytes_len(e);
    let elen = eocd_bytes(e).len() as int;
    let o = b.len() - elen;
    let cl = e.comment_length as int;

    assert forall|j: int| o <= j < b.len() implies #[trigger] b[j] == eocd_bytes(e)[j - o] by {
        assert(b.subrange(o, b.len() as int)[j - o] == eocd_bytes(e)[j - o]);
    }

    assert(le32_bytes(e.signature) =~= seq![0x50u8, 0x4bu8, 0x05u8, 0x06u8]);
    assert(b[o] == eocd_bytes(e)[0]);
    assert(b[o + 1] == eocd_bytes(e)[1]);
    assert(b[o + 2] == eocd_bytes(e)[2]);
    assert(b[o + 3] == eocd_bytes(e)[3]);
    assert(is_eocd_sig_at(b, o));
    assert(b.len() - o == 22 + cl <= 65558);
    lemma_find_sig_down_exact(b, o);

    assert(b.subrange(o, o + 4) =~= le32_bytes(e.signature));
    lemma_le32_at(b, o, e.signature);
    assert(b.subrange(o + 4, o + 6) =~= le16_bytes(e.disk_number));
    lemma_le16_at(b, o + 4, e.disk_number);
    assert(b.subrange(o + 6, o + 8) =~= le16_bytes(e.central_dir_start_disk));
    lemma_le16_at(b, o + 6, e.central_dir_start_disk);
    assert(b.subrange(o + 8, o + 10) =~= le16_bytes(e.cental_dir_entries_disk));
    lemma_le16_at(b, o + 8, e.cental_dir_entries_disk);
    assert(b.subrange(o + 10, o + 12) =~= le16_bytes(e.cental_dir_entries_total));
    lemma_le16_at(b, o + 10, e.cental_dir_entries_total);
    assert(b.subrange(o + 12, o + 16) =~= le32_bytes(e.central_dir_size));
    lemma_le32_at(b, o + 12, e.central_dir_size);
    assert(b.subrange(o + 16, o + 20) =~= le32_bytes(e.central_dir_offset));
    lemma_le32_at(b, o + 16, e.central_dir_offset);
    assert(b.subrange(o + 20, o + 22) =~= le16_bytes(e.comment_length));
    lemma_le16_at(b, o + 20, e.comment_length);
    assert(b.subrange(o + 22, o + 22 + cl) =~= e.comment);
}

/// What a successful trailer parse guarantees: the trailer is valid, its
/// serialization stands at the found offset, and its signature occurs
/// nowhere later in the buffer.
#[verifier::rlimit(100)]
#[verifier::spinoff_prover]
pub proof fn lemma_parse_eocd_props(b: Seq<u8>, e: EocdView)
    requires
        spec_parse_eocd(b) == Ok::<EocdView, FormatError>(e),
    ensures
        eocd_wf(e),
        spec_find_eocd(b) matches Some(o) && {
            &&& 0 <= o
            &&& o + eocd_bytes(e).len() <= b.len()
            &&& b.subrange(o, o + eocd_bytes(e).len()) == eocd_bytes(e)
            &&& forall|j: int| o < j ==> !is_eocd_sig_at(b, j)
        },
{
    reveal(eocd_bytes);
    let o = spec_find_eocd(b).unwrap();
    lemma_find_sig_down_props(b, b.len() - 4, o);
    let cl = e.comment_length as int;

    assert(e.signature == spec_le32(b, o));
    assert(e.signature == 0x50 + 0x4b * 0x100 + 0x05 * 0x10000 + 0x06 * 0x1000000);
    assert(eocd_wf(e));

    assert forall|j: int| o < j implies !is_eocd_sig_at(b, j) by {
        if j <= b.len() - 4 {
            assert(!is_eocd_sig_at(b, j));
        }
    }

    lemma_le32_reverse(b, o);
    lemma_le16_reverse(b, o + 4);
    lemma_le16_reverse(b, o + 6);
    lemma_le16_reverse(b, o + 8);
    lemma_le16_reverse(b, o + 10);
    lemma_le32_reverse(b, o + 12);
    lemma_le32_reverse(b, o + 16);
    lemma_le16_reverse(b, o + 20);
    assert(b.subrange(o, o + eocd_bytes(e).len()) =~= eocd_bytes(e));
}

/// The canonical layout that re-serialization reproduces: files packed
/// back to back from offset zero in central-directory order, the
/// central directory immediately after them, and its size exact.
pub open spec fn archive_canonical(a: ZipArchiveView) -> bool {
    &&& forall|i: int|
        0 <= i < a.central_directory_headers.len()
            ==> (#[trigger] a.central_directory_headers[i]).local_header_offset == zipfiles_bytes(
            a.zip_files.take(i),
        ).len()
    &&& a.eocd.central_dir_offset == zipfiles_bytes(a.zip_files).len()
    &&& a.eocd.central_dir_size == cdhs_bytes(a.central_directory_headers).len()
}

/// A successfully parsed archive is structurally valid, and its trailer
/// contains no stray trailer signature after its first byte.
pub proof fn lemma_parse_archive_props(b: Seq<u8>, a: ZipArchiveView)
    requires
        spec_parse_archive(b) == Ok::<ZipArchiveView, FormatError>(a),
    ensures
        archive_wf(a),
        forall|j: int| 0 < j ==> !is_eocd_sig_at(eocd_bytes(a.eocd), j),
{
    let e = spec_parse_eocd(b).unwrap();
    lemma_parse_eocd_props(b, e);
    let o = spec_find_eocd(b).unwrap();
    let elen = eocd_bytes(e).len() as int;

    let start = e.central_dir_offset as int;
    let stop = start + e.central_dir_size;
    let cdhs = spec_parse_cdh_list(b.subrange(start, stop), 0).unwrap();
    lemma_parse_cdh_list_wf(b.subrange(start, stop), 0, cdhs);
    let zfs = spec_parse_zipfiles(b, cdhs, 0).unwrap();
    lemma_parse_zipfiles_wf(b, cdhs, 0, zfs);

    assert forall|j: int| 0 < j implies !is_eocd_sig_at(eocd_bytes(a.eocd), j) by {
        if is_eocd_sig_at(eocd_bytes(e), j) {
            assert(b[o + j] == eocd_bytes(e)[j]);
            assert(b[o + j + 1] == eocd_bytes(e)[j + 1]);
            assert(b[o + j + 2] == eocd_bytes(e)[j + 2]);
            assert(b[o + j + 3] == eocd_bytes(e)[j + 3]);
            assert(is_eocd_sig_at(b, o + j));
        }
    }
}

/// Serializing a well-formed, canonically laid out archive and parsing
/// the result recovers the archive, structure for structure.
#[verifier::rlimit(100)]
#[verifier::spinoff_prover]
pub proof fn lemma_ser_parse_roundtrip(a: ZipArchiveView)
    requires
        archive_wf(a),
        archive_canonical(a),
        forall|j: int| 0 < j ==> !is_eocd_sig_at(eocd_bytes(a.eocd), j),
    ensures
        spec_parse_archive(archive_bytes(a)) == Ok::<ZipArchiveView, FormatError>(a),
{
    let files = a.zip_files;
    let cdhs = a.central_directory_headers;
    let e = a.eocd;
    let zb = zipfiles_bytes(files);
    let cb = cdhs_bytes(cdhs);
    let eb = eocd_bytes(e);
    let b = archive_bytes(a);
    lemma_eocd_bytes_len(e);
    let o = zb.len() + cb.len();

    assert(b.subrange(o as int, b.len() as int) =~= eb);
    assert forall|j: int| b.len() - eb.len() < j implies !is_eocd_sig_at(b, j) by {
        if is_eocd_sig_at(b, j) {
            assert(b[j] == eb[j - o]);
            assert(b[j + 1] == eb[j - o + 1]);
            assert(b[j + 2] == eb[j - o + 2]);
            assert(b[j + 3] == eb[j - o + 3]);
            assert(is_eocd_sig_at(eb, j - o));
        }
    }
    lemma_parse_eocd_at(b, e);

    let start = e.central_dir_offset as int;
    let stop = start + e.central_dir_size;
    assert(start == zb.len());
    assert(stop == o);
    let cdsub = b.subrange(start, stop);
    assert(cdsub =~= cb);
    assert(cdsub.subrange(0, cdsub.len() as int) =~= cdsub);
    lemma_parse_cdh_list_at(cdsub, 0, cdhs);

    assert(b.subrange(0, zb.len() as int) =~= zb);
    lemma_parse_zipfiles_at(b, files, cdhs, 0);
    assert(files.skip(0) =~= files);
}

/// Round-trip: re-serializing a parsed archive with canonical layout and
/// parsing the result yields field-for-field identical structures.
pub proof fn lemma_parse_to_bytes_roundtrip(b: Seq<u8>, a: ZipArchiveView)
    requires
        spec_parse_archive(b) == Ok::<ZipArchiveView, FormatError>(a),
        archive_canonical(a),
    ensures
        spec_parse_archive(archive_bytes(a)) == Ok::<ZipArchiveView, FormatError>(a),
{
    lemma_parse_archive_props(b, a);
    lemma_ser_parse_roundtrip(a);
}

/// Facts about clearing the descriptor flag in a flag word.
proof fn lemma_clear_bit(x: u16)
    by (bit_vector)
    ensures
        (x & !0x0008u16) & 0x0008u16 == 0,
        x & 0x0008u16 == 0 ==> x & !0x0008u16 == x,
        (x & !0x0008u16) & !0x0008u16 == x & !0x0008u16,
{
}

/// Clearing the flag does not change a file's serialized length.
proof fn lemma_clear_zipfile_bytes_len(z: ZipFileView)
    ensures
        zipfile_bytes(clear_zipfile(z)).len() == zipfile_bytes(z).len(),
{
    reveal(lfh_bytes);
}

/// Clearing the flag on every file does not change the serialized
/// length of the run.
proof fn lemma_zipfiles_bytes_clear_len(s: Seq<ZipFileView>)
    ensures
        zipfiles_bytes(s.map_values(|z: ZipFileView| clear_zipfile(z))).len() == zipfiles_bytes(
            s,
        ).len(),
    decreases s.len(),
{
    let m = s.map_values(|z: ZipFileView| clear_zipfile(z));
    if s.len() == 0 {
    } else {
        assert(m.drop_last() =~= s.drop_last().map_values(|z: ZipFileView| clear_zipfile(z)));
        assert(m.last() == clear_zipfile(s.last()));
        lemma_zipfiles_bytes_clear_len(s.drop_last());
        lemma_clear_zipfile_bytes_len(s.last());
    }
}

/// Clearing the flag on every record does not change the serialized
/// length of the central directory.
#[verifier::rlimit(100)]
#[verifier::spinoff_prover]
proof fn lemma_cdhs_bytes_clear_len(s: Seq<CdhView>)
    ensures
        cdhs_bytes(s.map_values(|c: CdhView| clear_cdh(c))).len() == cdhs_bytes(s).len(),
    decreases s.len(),
{
    let m = s.map_values(|c: CdhView| clear_cdh(c));
    if s.len() == 0 {
    } else {
        assert(m.drop_last() =~= s.drop_last().map_values(|c: CdhView| clear_cdh(c)));
        assert(m.last() == clear_cdh(s.last()));
        lemma_cdhs_bytes_clear_len(s.drop_last());
        assert(cdh_bytes(clear_cdh(s.last())).len() == cdh_bytes(s.last()).len()) by {
            reveal(cdh_bytes);
        }
    }
}

/// Bit-clear idempotence of the stripping transform: stripping a
/// canonically laid out archive twice gives the same bytes as stripping
/// it once, provided no local header announces a data descriptor (a
/// descriptor's orphaned bytes would be dropped on the second pass).
pub proof fn lemma_strip_idempotent(b: Seq<u8>, a: ZipArchiveView)
    requires
        spec_parse_archive(b) == Ok::<ZipArchiveView, FormatError>(a),
        archive_canonical(a),
        forall|i: int|
            0 <= i < a.zip_files.len()
                ==> (#[trigger] a.zip_files[i]).local_file_header.general_purpose & 0x0008u16 == 0,
    ensures
        spec_strip(b) == Ok::<Seq<u8>, FormatError>(archive_bytes(clear_archive(a))),
        spec_strip(archive_bytes(clear_archive(a))) == spec_strip(b),
{
    lemma_parse_archive_props(b, a);
    let a2 = clear_archive(a);
    let files = a.zip_files;
    let cdhs = a.central_directory_headers;

    assert forall|i: int| 0 <= i < a2.zip_files.len() implies zipfile_wf(
        #[trigger] a2.zip_files[i],
    ) by {
        let z = files[i];
        assert(zipfile_wf(z));
        assert(z.local_file_header.general_purpose & 0x0008u16 == 0);
        assert(z.data_discriptor is None);
        lemma_clear_bit(z.local_file_header.general_purpose);
        assert(a2.zip_files[i] == clear_zipfile(z));
    }
    assert forall|i: int| 0 <= i < a2.central_directory_headers.len() implies cdh_wf(
        #[trigger] a2.central_directory_headers[i],
    ) by {
        assert(cdh_wf(cdhs[i]));
        assert(a2.central_directory_headers[i] == clear_cdh(cdhs[i]));
    }
    assert(archive_wf(a2));

    assert forall|i: int| 0 <= i < a2.central_directory_headers.len() implies (
    #[trigger] a2.central_directory_headers[i]).local_header_offset == zipfiles_bytes(
        a2.zip_files.take(i),
    ).len() by {
        assert(a2.zip_files.take(i) =~= files.take(i).map_values(
            |z: ZipFileView| clear_zipfile(z),
        ));
        lemma_zipfiles_bytes_clear_len(files.take(i));
        assert(cdhs[i].local_header_offset == zipfiles_bytes(files.take(i)).len());
    }
    lemma_zipfiles_bytes_clear_len(files);
    lemma_cdhs_bytes_clear_len(cdhs);
    assert(archive_canonical(a2));

    lemma_ser_parse_roundtrip(a2);

    assert(clear_archive(a2) == a2) by {
        assert(clear_archive(a2).zip_files =~= a2.zip_files) by {
            assert forall|i: int| 0 <= i < a2.zip_files.len() implies clear_zipfile(
                #[trigger] a2.zip_files[i],
            ) == a2.zip_files[i] by {
                lemma_clear_bit(files[i].local_file_header.general_purpose);
            }
        }
        assert(clear_archive(a2).central_directory_headers =~= a2.central_directory_headers) by {
            assert forall|i: int| 0 <= i < a2.central_directory_headers.len() implies clear_cdh(
                #[trigger] a2.central_directory_headers[i],
            ) == a2.central_directory_headers[i] by {
                lemma_clear_bit(cdhs[i].general_purpose);
            }
        }
    }
}

/// One half of the scan boundary: a signature standing 22 + k bytes
/// before the end, for k up to the largest possible comment length, is
/// always found.
pub proof fn lemma_eocd_scan_boundary_found(b: Seq<u8>, k: int)
    requires
        0 <= k <= 65536,
        is_eocd_sig_at(b, b.len() - 22 - k),
    ensures
        spec_find_eocd(b) matches Some(o) && o >= b.len() - 22 - k,
{
    lemma_find_sig_down_some(b, b.len() - 4, b.len() - 22 - k);
}

/// The scan never returns an offset outside the trailing window.
proof fn lemma_find_sig_down_none(b: Seq<u8>, hi: int)
    requires
        forall|o: int| is_eocd_sig_at(b, o) ==> b.len() - o > 65558,
    ensures
        spec_find_eocd_from(b, hi) == None::<int>,
    decreases hi + 1,
{
    if hi < 0 || b.len() - hi > 65558 {
    } else {
        assert(!is_eocd_sig_at(b, hi));
        lemma_find_sig_down_none(b, hi - 1);
    }
}

/// The other half of the scan boundary: when every signature occurrence
/// lies more than 65558 bytes from the end (that is, more than 22 bytes
/// plus the largest possible comment), parsing fails with
/// `EocdNotFound`.
pub proof fn lemma_eocd_scan_boundary_rejected(b: Seq<u8>)
    requires
        forall|o: int| is_eocd_sig_at(b, o) ==> b.len() - o > 65558,
    ensures
        spec_parse_eocd(b) == Err::<EocdView, FormatError>(FormatError::EocdNotFound),
        spec_parse_archive(b) == Err::<ZipArchiveView, FormatError>(FormatError::EocdNotFound),
{
    lemma_find_sig_down_none(b, b.len() - 4);
}

} // verus!
