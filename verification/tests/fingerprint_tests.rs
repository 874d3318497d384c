use traza::fingerprint::{append_bytes, content_of, fingerprint, shorten, FINGERPRINT_LEN};

#[test]
fn fingerprint_of_empty_content_is_the_known_digest_prefix() {
    assert_eq!(fingerprint("", "", b""), "af1349");
}

#[test]
fn fingerprint_matches_the_digest_of_the_concatenation() {
    let expected = blake3::hash(b"fpga12024-05-01 10:00:00build ok").to_hex()[..6].to_string();
    assert_eq!(fingerprint("fpga1", "2024-05-01 10:00:00", b"build ok"), expected);
}

#[test]
fn fingerprint_matches_the_incremental_hasher() {
    let mut hasher = blake3::Hasher::new();
    hasher.update("núcleo".as_bytes());
    hasher.update(b"2024-05-01 10:00:00");
    hasher.update(&[0u8, 255, 10, 13]);
    let expected = hasher.finalize().to_hex()[..6].to_string();
    assert_eq!(fingerprint("núcleo", "2024-05-01 10:00:00", &[0u8, 255, 10, 13]), expected);
}

#[test]
fn fingerprint_is_the_same_on_every_call() {
    let first = fingerprint("fpga1", "2024-05-01 10:00:00", b"build ok");
    let second = fingerprint("fpga1", "2024-05-01 10:00:00", b"build ok");
    assert_eq!(first, second);
}

#[test]
fn fingerprint_has_six_lower_case_hex_characters() {
    for log in [&b""[..], &b"a"[..], &b"build failed\n"[..]] {
        let hash = fingerprint("fpga1", "2024-05-01 10:00:00", log);
        assert_eq!(hash.chars().count(), FINGERPRINT_LEN);
        assert!(hash.chars().all(|c| c.is_ascii_digit() || ('a'..='f').contains(&c)));
    }
}

#[test]
fn fingerprint_tells_the_inputs_apart_only_by_their_concatenation() {
    assert_eq!(fingerprint("ab", "c", b"d"), fingerprint("a", "bc", b"d"));
    assert_ne!(fingerprint("ab", "c", b"d"), fingerprint("ab", "c", b"e"));
}

#[test]
fn append_bytes_adds_at_the_end() {
    let mut out = vec![1u8, 2];
    append_bytes(&mut out, &[3, 4, 5]);
    assert_eq!(out, vec![1u8, 2, 3, 4, 5]);
    append_bytes(&mut out, &[]);
    assert_eq!(out, vec![1u8, 2, 3, 4, 5]);
}

#[test]
fn content_of_concatenates_without_separators() {
    assert_eq!(content_of("fpga1", "2024-05-01 10:00:00", b"build ok"), b"fpga12024-05-01 10:00:00build ok");
    assert_eq!(content_of("", "", b""), Vec::<u8>::new());
    assert_eq!(content_of("ñ", "", &[0xff]), vec![0xc3, 0xb1, 0xff]);
}

#[test]
fn shorten_takes_the_first_three_bytes_in_hex() {
    let mut digest = [0u8; 32];
    digest[0] = 0xa1;
    digest[1] = 0xb2;
    digest[2] = 0xc3;
    digest[3] = 0xd4;
    assert_eq!(shorten(&digest), "a1b2c3");
    assert_eq!(shorten(&[0u8; 32]), "000000");
    assert_eq!(shorten(&[0xffu8; 32]), "ffffff");
    let mut low = [0u8; 32];
    low[0] = 0x0f;
    low[1] = 0x10;
    low[2] = 0x09;
    assert_eq!(shorten(&low), "0f1009");
}

#[test]
fn shorten_agrees_with_the_hex_notation_of_the_hash() {
    let hash = blake3::hash(b"build ok");
    assert_eq!(shorten(hash.as_bytes()), hash.to_hex()[..6].to_string());
}
