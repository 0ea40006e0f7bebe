use pass_gen::config::SEED_BYTES;
use pass_gen::seed::{
    decode_seed, encode_seed, generate_seed, seed_from_decoded, seed_from_file, seed_mode_ok,
    SEED_BEGIN, SEED_END, SEED_LINE_WIDTH,
};

#[test]
fn encode_seed_frames_base64_text() {
    assert_eq!(
        encode_seed(&[0, 1, 2]),
        "-----BEGIN PASSGEN PRIVATE SEED-----\nAAEC\n-----END PASSGEN PRIVATE SEED-----\n"
    );
    assert_eq!(
        encode_seed(b"hello"),
        "-----BEGIN PASSGEN PRIVATE SEED-----\naGVsbG8=\n-----END PASSGEN PRIVATE SEED-----\n"
    );
    assert_eq!(
        encode_seed(&[]),
        "-----BEGIN PASSGEN PRIVATE SEED-----\n-----END PASSGEN PRIVATE SEED-----\n"
    );
}

#[test]
fn encode_seed_wraps_lines() {
    // 48 bytes give exactly one full line of 64 characters.
    let one = encode_seed(&[0u8; 48]);
    let lines: Vec<&str> = one.lines().collect();
    assert_eq!(lines.len(), 3);
    assert_eq!(lines[0], SEED_BEGIN);
    assert_eq!(lines[1], "A".repeat(64));
    assert_eq!(lines[2], SEED_END);
    // 49 bytes give a full line and a line of four characters.
    let two = encode_seed(&[0u8; 49]);
    let lines: Vec<&str> = two.lines().collect();
    assert_eq!(lines.len(), 4);
    assert_eq!(lines[1].len(), SEED_LINE_WIDTH);
    assert_eq!(lines[2], "AA==");
    assert_eq!(lines[3], SEED_END);
    assert!(two.ends_with("-----\n"));
}

#[test]
fn decode_seed_reads_framed_text() {
    let framed = b"-----BEGIN PASSGEN PRIVATE SEED-----\naGVs\nbG8=\n-----END PASSGEN PRIVATE SEED-----\n";
    assert_eq!(decode_seed(framed), b"hello".to_vec());
    let crlf = b"\r\n-----BEGIN PASSGEN PRIVATE SEED-----\r\n  aGVsbG8=\r\n-----END PASSGEN PRIVATE SEED-----\r\n";
    assert_eq!(decode_seed(crlf), b"hello".to_vec());
}

#[test]
fn decode_seed_reads_plain_base64_text() {
    assert_eq!(decode_seed(b"aGVsbG8=\n"), b"hello".to_vec());
    assert_eq!(decode_seed(b"  \t aGVsbG8=  \r\n"), b"hello".to_vec());
}

#[test]
fn decode_seed_refuses_bad_frames() {
    // Nothing between the markers.
    let empty = b"-----BEGIN PASSGEN PRIVATE SEED-----\n-----END PASSGEN PRIVATE SEED-----\n";
    assert_eq!(decode_seed(empty), empty.to_vec());
    // A payload that is not ASCII.
    let wide = "-----BEGIN PASSGEN PRIVATE SEED-----\naGVsbG8é\n-----END PASSGEN PRIVATE SEED-----\n";
    assert_eq!(decode_seed(wide.as_bytes()), wide.as_bytes().to_vec());
    // No end marker: the whole text is not base64.
    let open = b"-----BEGIN PASSGEN PRIVATE SEED-----\naGVsbG8=\n";
    assert_eq!(decode_seed(open), open.to_vec());
}

#[test]
fn decode_seed_falls_back_to_raw_bytes() {
    // Not UTF-8.
    assert_eq!(decode_seed(&[0xff, 0xfe, 0x00]), vec![0xff, 0xfe, 0x00]);
    // UTF-8 but not base64.
    assert_eq!(decode_seed(b"not base64!"), b"not base64!".to_vec());
    // Decodes to nothing.
    assert_eq!(decode_seed(b"  \n"), b"  \n".to_vec());
}

#[test]
fn seed_file_round_trip() {
    let seed: Vec<u8> = (0..SEED_BYTES).map(|i| (i * 7 % 256) as u8).collect();
    let text = encode_seed(&seed);
    assert_eq!(decode_seed(text.as_bytes()), seed);
}

#[test]
fn seed_from_decoded_prefers_non_empty_decoding() {
    assert_eq!(seed_from_decoded(b"raw", Some(vec![1, 2])), vec![1, 2]);
    assert_eq!(seed_from_decoded(b"raw", Some(vec![])), b"raw".to_vec());
    assert_eq!(seed_from_decoded(b"raw", None), b"raw".to_vec());
}

#[test]
fn generate_seed_has_seed_length() {
    let a = generate_seed().expect("random source");
    let b = generate_seed().expect("random source");
    assert_eq!(a.len(), SEED_BYTES);
    assert_ne!(a, b);
}

#[test]
fn seed_file_contents() {
    assert_eq!(seed_from_file(b""), None);
    assert_eq!(seed_from_file(b"AAEC\n"), Some(vec![0, 1, 2]));
    assert_eq!(seed_from_file(encode_seed(&[7, 8]).as_bytes()), Some(vec![7, 8]));
}

#[test]
fn seed_file_mode() {
    assert!(seed_mode_ok(0o600));
    assert!(seed_mode_ok(0o100600));
    assert!(!seed_mode_ok(0o644));
    assert!(!seed_mode_ok(0o700));
    assert!(!seed_mode_ok(0o400));
}
