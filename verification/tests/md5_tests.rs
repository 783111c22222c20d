use md5sum::crypto_md5::digest_msg;
use md5sum::md5::{digest_msg_mine, make_k_index, CCMd5, MD5_TABLE};
use md5sum::hex::{hex_digest, words32_to_le_bytes};
use md5sum::HasherAlg;

#[test]
fn md5test1() {
    let res = digest_msg_mine("".as_bytes());
    assert_eq!("d41d8cd98f00b204e9800998ecf8427e", res);
}

#[test]
fn md5_test_a() {
    let res = digest_msg_mine("a".as_bytes());
    assert_eq!("0cc175b9c0f1b6a831c399e269772661", res);
}

#[test]
fn md5_test_abc() {
    let res = digest_msg_mine("abc".as_bytes());
    assert_eq!("900150983cd24fb0d6963f7d28e17f72", res);
}

#[test]
fn md5_test_message_digest() {
    let res = digest_msg_mine("message digest".as_bytes());
    assert_eq!("f96b697d7cb7938d525a2f31aaf161d0", res);
}

#[test]
fn md5_test_message_random() {
    let res = digest_msg_mine("abcdefghijklmnopqrstuvwxyz".as_bytes());
    assert_eq!("c3fcd3d76192e4007dfb496cca67e13b", res);
}

#[test]
fn md5_rfc1321_long_vectors() {
    assert_eq!(
        digest_msg_mine(
            "ABCDEFGHIJKLMNOPQRSTUVWXYZabcdefghijklmnopqrstuvwxyz0123456789".as_bytes()
        ),
        "d174ab98d277d9f5a5611c2c9f419d9f"
    );
    assert_eq!(
        digest_msg_mine(
            "12345678901234567890123456789012345678901234567890123456789012345678901234567890"
                .as_bytes()
        ),
        "57edf4a22be3c955ac49da2e2107b67a"
    );
}

#[test]
fn md5_padding_boundaries() {
    // 55, 56, 63, 64 and 65 bytes straddle the one- and two-block padding cases.
    for len in [55usize, 56, 63, 64, 65, 119, 120, 128] {
        let data = vec![b'x'; len];
        assert_eq!(digest_msg_mine(&data), digest_msg(&data), "length {}", len);
    }
}

#[test]
fn md5_crate_digest_matches_known_value() {
    assert_eq!(digest_msg("abc".as_bytes()), "900150983cd24fb0d6963f7d28e17f72");
    assert_eq!(digest_msg("".as_bytes()), "d41d8cd98f00b204e9800998ecf8427e");
}

#[test]
fn md5_incremental_equals_one_shot() {
    let data: Vec<u8> = (0..1000u32).map(|i| (i * 7 + 3) as u8).collect();
    let whole = digest_msg_mine(&data);
    for chunk in [1usize, 3, 63, 64, 65, 200] {
        let mut h = CCMd5::new();
        for piece in data.chunks(chunk) {
            h.update(piece);
        }
        let words = h.finalize();
        let hex = hex_digest(&words32_to_le_bytes(&words));
        assert_eq!(hex, whole, "chunk {}", chunk);
    }
}

#[test]
fn md5_trait_finalize_restarts() {
    let mut h = CCMd5::new();
    HasherAlg::update(&mut h, "abc".as_bytes());
    let first = HasherAlg::finalize(&mut h);
    let second = HasherAlg::finalize(&mut h);
    assert_eq!(
        hex_digest(&words32_to_le_bytes(&first)),
        "900150983cd24fb0d6963f7d28e17f72"
    );
    assert_eq!(
        hex_digest(&words32_to_le_bytes(&second)),
        "d41d8cd98f00b204e9800998ecf8427e"
    );
    assert_eq!(
        <CCMd5 as HasherAlg>::dgst("message digest".as_bytes()),
        "f96b697d7cb7938d525a2f31aaf161d0"
    );
}

#[test]
fn md5_digest_is_32_hex_digits() {
    for text in ["", "a", "some longer text that spans more than one block of sixty-four bytes!!"] {
        let d = digest_msg_mine(text.as_bytes());
        assert_eq!(d.len(), 32);
        assert!(d.chars().all(|c| c.is_ascii_digit() || ('a'..='f').contains(&c)));
    }
}

#[test]
fn md5_table_is_sine_table() {
    for i in 0..64 {
        let expected = (4294967296.0f64 * ((i + 1) as f64).sin().abs()) as u32;
        assert_eq!(MD5_TABLE[i], expected, "entry {}", i);
    }
}

#[test]
fn md5_k_index_orders() {
    assert_eq!(make_k_index(0, 1), [0, 1, 2, 3, 4, 5, 6, 7, 8, 9, 10, 11, 12, 13, 14, 15]);
    assert_eq!(make_k_index(1, 5), [1, 6, 11, 0, 5, 10, 15, 4, 9, 14, 3, 8, 13, 2, 7, 12]);
    assert_eq!(make_k_index(5, 3), [5, 8, 11, 14, 1, 4, 7, 10, 13, 0, 3, 6, 9, 12, 15, 2]);
    assert_eq!(make_k_index(0, 7), [0, 7, 14, 5, 12, 3, 10, 1, 8, 15, 6, 13, 4, 11, 2, 9]);
}
