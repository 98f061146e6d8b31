//! Tests for the stage decoders: the XOR+gzip chain, text decoding,
//! batch extraction, the Mintsloader patterns, and character
//! deobfuscation.

use base64::Engine;
use std::io::Write;

use macon::carnavalheist;
use macon::carnavalheist::SampleType as CarnavalheistSampleType;
use macon::mintsloader::SampleType as MintsloaderSampleType;
use macon::codec::{decode_base64_with_xor_key, sha256_hex, xor_with_key, DecodeError};
use macon::mintsloader;
use macon::textenc::get_string_from_binary;

fn b64(data: &[u8]) -> Vec<u8> {
    base64::engine::general_purpose::STANDARD.encode(data).into_bytes()
}

fn gzip(data: &[u8]) -> Vec<u8> {
    let mut enc = flate2::write::GzEncoder::new(Vec::new(), flate2::Compression::default());
    enc.write_all(data).unwrap();
    enc.finish().unwrap()
}

#[test]
fn xor_gzip_decode_recovers_plaintext() {
    let plaintext = b"Invoke-Expression (New-Object Net.WebClient).DownloadString('x')";
    let key = b"k3yk3yk3yk3y";
    let gz = gzip(plaintext);
    let xored = xor_with_key(&gz, key);
    let blob = b64(&xored);
    let decoded = decode_base64_with_xor_key(key, &blob).expect("chain decodes");
    assert_eq!(decoded, plaintext.to_vec());
}

#[test]
fn xor_gzip_decode_reports_bad_base64() {
    assert_eq!(
        decode_base64_with_xor_key(b"k", b"!!!not base64!!!"),
        Err(DecodeError::Base64Invalid)
    );
}

#[test]
fn xor_gzip_decode_reports_bad_gzip() {
    let blob = b64(b"not gzip at all");
    // XOR with a zero byte leaves the bytes unchanged, so inflation
    // sees garbage
    assert_eq!(decode_base64_with_xor_key(&[0], &blob), Err(DecodeError::GzipInvalid));
}

#[test]
fn xor_with_key_repeats_the_key() {
    let out = xor_with_key(&[1, 2, 3, 4, 5], &[0x10, 0x20]);
    assert_eq!(out, vec![0x11, 0x22, 0x13, 0x24, 0x15]);
}

#[test]
fn sha256_hex_is_the_known_digest() {
    // the well-known digest of "abc"
    assert_eq!(
        sha256_hex(b"abc"),
        b"ba7816bf8f01cfea414140de5dae2223b00361a396177a9cb410ff61f20015ad".to_vec()
    );
    assert_ne!(sha256_hex(b"abc"), b"abc".to_vec());
}

#[test]
fn text_decoding_passes_utf8_through() {
    let text = b"plain ascii text";
    assert_eq!(get_string_from_binary(text), text.to_vec());
}

#[test]
fn text_decoding_detects_utf16() {
    // "powershell" as UTF-16LE: every odd byte is null
    let wide: Vec<u8> = "powershell".bytes().flat_map(|b| [b, 0]).collect();
    assert_eq!(get_string_from_binary(&wide), b"powershell".to_vec());
}

#[test]
fn text_decoding_threshold_is_strict() {
    // exactly half the odd bytes null: stays UTF-8
    let data = vec![b'a', 0, b'b', b'c'];
    assert_eq!(get_string_from_binary(&data), String::from_utf8_lossy(&data).into_owned().into_bytes());
}

#[test]
fn batch_e_extracts_the_token() {
    let payload = b"Write-Host hi";
    let mut sample = b"@echo off\r\npowershell -WindowStyle Hidden -e ".to_vec();
    sample.extend_from_slice(&b64(payload));
    sample.extend_from_slice(b" \r\nrem tail");
    let out = carnavalheist::extract_from_batch_e(&sample).expect("extraction succeeds");
    assert_eq!(out, payload.to_vec());
}

#[test]
fn batch_e_without_marker_fails() {
    assert_eq!(
        carnavalheist::extract_from_batch_e(b"echo hello"),
        Err(DecodeError::MarkerNotFound)
    );
}

#[test]
fn batch_command_extracts_balanced_braces() {
    let sample = b"powershell -WindowStyle Hidden -Command \"& { if ($x) { b } else { c } }\"";
    let out = carnavalheist::extract_from_batch_command_normal(sample).expect("extraction");
    assert_eq!(out, b"if ($x) { b } else { c } ".to_vec());
}

#[test]
fn python_payload_decoded_once_per_call() {
    let inner = b"import pickle";
    let once = b64(inner);
    let twice = b64(&once);
    let mut sample = b"exec(base64.b64decode('".to_vec();
    sample.extend_from_slice(&twice);
    sample.extend_from_slice(b"')) # base64.b64decode(");
    let out = carnavalheist::extract_python_payload(&sample).expect("payload extracts");
    assert_eq!(out, inner.to_vec());
}

#[test]
fn carnavalheist_detects_by_markers() {
    type SampleType = CarnavalheistSampleType;
    assert!(matches!(
        carnavalheist::detect_sample_type(b"powershell -WindowStyle Hidden -e QUJD"),
        Some(SampleType::BatchE)
    ));
    assert!(matches!(
        carnavalheist::detect_sample_type(b"powershell -WindowStyle Hidden -Command \"& {x}\""),
        Some(SampleType::BatchCommandNormal)
    ));
    assert!(matches!(
        carnavalheist::detect_sample_type(
            b"set \"base64=...\"\r\npowershell -WindowStyle Hidden -Command"
        ),
        Some(SampleType::BatchCommandConcat)
    ));
    assert!(matches!(
        carnavalheist::detect_sample_type(b"import pickle\n"),
        Some(SampleType::Python)
    ));
    assert!(carnavalheist::detect_sample_type(b"nothing to see").is_none());
}

#[test]
fn mintsloader_key_and_blob_extracted() {
    let sample = b"function Xk9 {param($a,$b) } (\"ABCDEF123456\") Xk9 \"SGVsbG8gd29ybGQ=\"";
    let (key, blob) =
        mintsloader::extract_key_and_base64_from_ps_xor_base64(sample).expect("patterns match");
    assert_eq!(key, b"ABCDEF123456".to_vec());
    assert_eq!(blob, b"SGVsbG8gd29ybGQ=".to_vec());
}

#[test]
fn mintsloader_extraction_needs_all_three_patterns() {
    assert_eq!(
        mintsloader::extract_key_and_base64_from_ps_xor_base64(b"(\"ABCDEF123456\")"),
        Err(DecodeError::MarkerNotFound)
    );
    assert_eq!(
        mintsloader::extract_key_and_base64_from_ps_xor_base64(
            b"function Xk9 {param($a) } Xk9 \"QUJD\""
        ),
        Err(DecodeError::MarkerNotFound)
    );
}

#[test]
fn deobfuscation_evaluates_expressions() {
    // 72 = 'H', 33 + 68 = 'e': each comma-separated expression becomes
    // one character
    let out = mintsloader::deobfuscate_string(b"72,33+68,108,108,111").expect("evaluates");
    assert_eq!(out, b"Hello".to_vec());
}

#[test]
fn deobfuscation_reports_bad_expressions() {
    assert_eq!(
        mintsloader::deobfuscate_string(b"72,not-an-expr"),
        Err(DecodeError::ExprEval)
    );
}

#[test]
fn deobfuscation_guards_the_evaluator() {
    // the distribution constructors assert on their arguments and the
    // lexer dies on a digit-`i` number form: those are refused as
    // evaluation failures; everything else evaluates
    assert_eq!(mintsloader::deobfuscate_string(b"72,uniform(1,0)"), Err(DecodeError::ExprEval));
    assert_eq!(mintsloader::deobfuscate_string(b"normal(0,0/0)"), Err(DecodeError::ExprEval));
    assert_eq!(mintsloader::deobfuscate_string(b"lognormal(1,-1)"), Err(DecodeError::ExprEval));
    assert_eq!(mintsloader::deobfuscate_string(b"4i"), Err(DecodeError::ExprEval));
    // operators, constants and the power form evaluate as the crate
    // defines them
    assert_eq!(mintsloader::deobfuscate_string(b"94^1"), Ok(b"^".to_vec()));
    assert_eq!(mintsloader::deobfuscate_string(b"2**6"), Ok(b"@".to_vec()));
    assert_eq!(mintsloader::deobfuscate_string(b"pi"), Ok(vec![3]));
    assert_eq!(mintsloader::deobfuscate_string(b"8*9"), Ok(b"H".to_vec()));
    assert_eq!(mintsloader::deobfuscate_string(b"(70+2)"), Ok(b"H".to_vec()));
    // a random result still comes back as exactly one character
    let random = mintsloader::deobfuscate_string(b"rand(200)").expect("rand evaluates");
    assert_eq!(String::from_utf8(random).unwrap().chars().count(), 1);
}

#[test]
fn obfuscated_strings_found_and_sorted_by_length() {
    let sample = b"junk @(72,105) more @(72,97,108,108,111) tail";
    let strings = mintsloader::get_obfuscated_strings_from_sample(sample);
    assert_eq!(strings, vec![b"72,105".to_vec(), b"72,97,108,108,111".to_vec()]);
    let sorted = mintsloader::get_deobfuscated_strings_from_sample_sorted(sample);
    assert_eq!(sorted, vec![b"Hallo".to_vec(), b"Hi".to_vec()]);
}

#[test]
fn line_count_counts_like_line_splitting() {
    assert_eq!(mintsloader::line_count(b""), 0);
    assert_eq!(mintsloader::line_count(b"one"), 1);
    assert_eq!(mintsloader::line_count(b"one\n"), 1);
    assert_eq!(mintsloader::line_count(b"one\ntwo"), 2);
    assert_eq!(mintsloader::line_count(b"one\ntwo\n\n"), 3);
}

#[test]
fn mintsloader_detects_by_priority() {
    type SampleType = MintsloaderSampleType;
    let xor_sample =
        b"function Ab1 {param($k,$d) } (\"ABCDEF123456\") Ab1 \"QUJDREVG\" extra";
    assert!(matches!(
        mintsloader::detect_sample_type(xor_sample),
        Some(SampleType::PS_Xor_B64(_, _))
    ));
    assert!(matches!(
        mintsloader::detect_sample_type(b"$executioncontext; iex(curl x)\n2\n3\n4\n5\n6"),
        Some(SampleType::PS_DGA_iex)
    ));
    assert!(matches!(
        mintsloader::detect_sample_type(b"start-process powershell -x\n2\n3\n4\n5\n6"),
        Some(SampleType::PS_Start_Process)
    ));
    assert!(matches!(
        mintsloader::detect_sample_type(b"  using System;\nclass C {}\n2\n3\n4\n5\n6"),
        Some(SampleType::Java)
    ));
    assert!(matches!(
        mintsloader::detect_sample_type(b"MIIEabc\n2\n3\n4\n5\n6"),
        Some(SampleType::X509)
    ));
    assert!(matches!(
        mintsloader::detect_sample_type(b"short\nscript"),
        Some(SampleType::PS_Two_Liner)
    ));
    assert!(mintsloader::detect_sample_type(b"a\nb\nc\nd\ne\nf").is_none());
}
