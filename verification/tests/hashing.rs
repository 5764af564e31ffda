use htknow::hashing::{content_hash, hex_encode};

#[test]
fn content_hash_of_empty_input() {
    assert_eq!(
        content_hash(b""),
        "e3b0c44298fc1c149afbf4c8996fb92427ae41e4649b934ca495991b7852b855"
    );
}

#[test]
fn content_hash_of_abc() {
    assert_eq!(
        content_hash(b"abc"),
        "ba7816bf8f01cfea414140de5dae2223b00361a396177a9cb410ff61f20015ad"
    );
}

#[test]
fn identical_contents_share_a_hash() {
    let a = content_hash("同一份文件".as_bytes());
    let b = content_hash("同一份文件".as_bytes());
    let c = content_hash("另一份文件".as_bytes());
    assert_eq!(a, b);
    assert_ne!(a, c);
    assert_eq!(a.len(), 64);
}

#[test]
fn hex_encoding_is_lower_case_two_digits_per_byte() {
    assert_eq!(hex_encode(&[0x00, 0x0f, 0xa0, 0xff]), "000fa0ff");
    assert_eq!(hex_encode(&[]), "");
}
