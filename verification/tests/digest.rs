use asthetic_clipboard::digest::{content_hash, digest_text, image_file_name};

#[test]
fn content_hash_is_sha256_in_hex() {
    assert_eq!(
        content_hash(b""),
        "e3b0c44298fc1c149afbf4c8996fb92427ae41e4649b934ca495991b7852b855"
    );
    assert_eq!(
        content_hash(b"hello world"),
        "b94d27b9934d3e08a52e52d7da7dabfac484efe37a5380ee9088f7ace2efcde9"
    );
    assert_eq!(
        content_hash(b"abc"),
        "ba7816bf8f01cfea414140de5dae2223b00361a396177a9cb410ff61f20015ad"
    );
}

#[test]
fn content_hash_is_deterministic_and_64_digits() {
    let bytes: Vec<u8> = (0..=255u8).collect();
    let first = content_hash(&bytes);
    let second = content_hash(&bytes);
    assert_eq!(first, second);
    assert_eq!(first.len(), 64);
    assert!(first.chars().all(|c| c.is_ascii_digit() || ('a'..='f').contains(&c)));
    assert_ne!(first, content_hash(&bytes[1..]));
}

#[test]
fn digest_text_writes_two_lower_case_digits_per_byte() {
    assert_eq!(digest_text(&[]), "");
    assert_eq!(digest_text(&[0xde, 0xad, 0xbe, 0xef]), "deadbeef");
    assert_eq!(digest_text(&[0x00, 0x01, 0x0f, 0x10, 0xff]), "00010f10ff");
    assert_eq!(digest_text(b"Hello world!"), "48656c6c6f20776f726c6421");
}

#[test]
fn image_file_name_appends_png() {
    assert_eq!(image_file_name("abc123"), "abc123.png");
    assert_eq!(image_file_name(""), ".png");
    let hash = content_hash(b"hello world");
    assert_eq!(
        image_file_name(&hash),
        "b94d27b9934d3e08a52e52d7da7dabfac484efe37a5380ee9088f7ace2efcde9.png"
    );
}
