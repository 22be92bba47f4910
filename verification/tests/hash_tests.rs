use bittorrent::hash::{b_sha1, hex_sha1};

#[test]
fn sha1_of_hello_world() {
    let digest = b_sha1(&b"hello world".to_vec());
    assert_eq!(
        digest,
        vec![
            0x2a, 0xae, 0x6c, 0x35, 0xc9, 0x4f, 0xcf, 0xb4, 0x15, 0xdb, 0xe9, 0x5f, 0x40, 0x8b,
            0x9c, 0xe9, 0x1e, 0xe8, 0x46, 0xed
        ]
    );
}

#[test]
fn sha1_of_nothing() {
    assert_eq!(hex_sha1(b""), "da39a3ee5e6b4b0d3255bfef95601890afd80709");
    assert_eq!(b_sha1(&Vec::new()).len(), 20);
}

#[test]
fn hex_sha1_is_lowercase_hex_of_the_digest() {
    assert_eq!(hex_sha1(b"hello world"), "2aae6c35c94fcfb415dbe95f408b9ce91ee846ed");
    assert_eq!(hex_sha1(b"hello world"), hex::encode(b_sha1(&b"hello world".to_vec())));
}
