use rnamed::digest::{compute, hex_string, Digest};

#[test]
fn sha256_of_abc_is_the_published_value() {
    let digest = compute(b"abc");
    assert_eq!(
        digest.to_hex(),
        "BA7816BF8F01CFEA414140DE5DAE2223B00361A396177A9CB410FF61F20015AD"
    );
}

#[test]
fn sha256_of_nothing_is_the_published_value() {
    let digest = compute(b"");
    assert_eq!(
        digest.to_hex(),
        "E3B0C44298FC1C149AFBF4C8996FB92427AE41E4649B934CA495991B7852B855"
    );
}

#[test]
fn digest_is_not_the_content() {
    let content = [7u8; 32];
    assert_ne!(compute(&content).bytes, content);
}

#[test]
fn equal_content_gives_equal_digest() {
    assert_eq!(compute(b"same bytes"), compute(b"same bytes"));
    assert_ne!(compute(b"same bytes"), compute(b"other bytes"));
}

#[test]
fn hex_has_two_upper_case_digits_for_each_byte() {
    assert_eq!(hex_string(&[0x00, 0x0f, 0xa0, 0xff, 0x9b]), "000FA0FF9B");
    assert_eq!(hex_string(&[0x12, 0x34, 0x56, 0x78, 0x9a, 0xbc, 0xde, 0xf0]), "123456789ABCDEF0");
}

#[test]
fn hex_of_nothing_is_empty() {
    assert_eq!(hex_string(&[]), "");
}

#[test]
fn digest_renders_as_64_digits() {
    let digest = Digest { bytes: [0xab; 32] };
    let hex = digest.to_hex();
    assert_eq!(hex.len(), 64);
    assert_eq!(hex, "AB".repeat(32));
}
