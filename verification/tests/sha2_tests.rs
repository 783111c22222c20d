use md5sum::hex::{hex_digest, words32_to_be_bytes, words64_to_be_bytes};
use md5sum::sha256::{digest_sha256_msg_mine, CCSha256, SHA256_INITIAL, SHA256_K};
use md5sum::sha256_batch::{add4, load_k4_at, message_schedule_batch, process, rounds4};
use md5sum::sha512::{digest_sha512_msg_mine, CCSha512};
use md5sum::HasherAlg;

#[test]
fn sha256_known_vectors() {
    assert_eq!(
        digest_sha256_msg_mine("".as_bytes()),
        "e3b0c44298fc1c149afbf4c8996fb92427ae41e4649b934ca495991b7852b855"
    );
    assert_eq!(
        digest_sha256_msg_mine("abc".as_bytes()),
        "ba7816bf8f01cfea414140de5dae2223b00361a396177a9cb410ff61f20015ad"
    );
    assert_eq!(
        digest_sha256_msg_mine("abcdbcdecdefdefgefghfghighijhijkijkljklmklmnlmnomnopnopq".as_bytes()),
        "248d6a61d20638b8e5c026930c3e6039a33ce45964ff2167f6ecedd419db06c1"
    );
}

#[test]
fn sha512_known_vectors() {
    assert_eq!(
        digest_sha512_msg_mine("".as_bytes()),
        "cf83e1357eefb8bdf1542850d66d8007d620e4050b5715dc83f4a921d36ce9ce47d0d13c5d85f2b0ff8318d2877eec2f63b931bd47417a81a538327af927da3e"
    );
    assert_eq!(
        digest_sha512_msg_mine("abc".as_bytes()),
        "ddaf35a193617abacc417349ae20413112e6fa4e89a97ea20a9eeee64b55d39a2192992a274fc1a836ba3c23a3feebbd454d4423643ce80e2a9ac94fa54ca49f"
    );
    assert_eq!(
        digest_sha512_msg_mine(
            "abcdefghbcdefghicdefghijdefghijkefghijklfghijklmghijklmnhijklmnoijklmnopjklmnopqklmnopqrlmnopqrsmnopqrstnopqrstu"
                .as_bytes()
        ),
        "8e959b75dae313da8cf4f72814fc143f8f7779c6eb9f7fa17299aeadb6889018501d289e4900f7e4331b99dec4b5433ac7d329eeb6dd26545e96e55b874be909"
    );
}

#[test]
fn sha256_incremental_equals_one_shot() {
    let data: Vec<u8> = (0..777u32).map(|i| (i * 13 + 1) as u8).collect();
    let whole = digest_sha256_msg_mine(&data);
    for chunk in [1usize, 7, 63, 64, 65, 130] {
        let mut h = CCSha256::new();
        for piece in data.chunks(chunk) {
            h.update(piece);
        }
        let hex = hex_digest(&words32_to_be_bytes(&h.finalize()));
        assert_eq!(hex, whole, "chunk {}", chunk);
    }
}

#[test]
fn sha512_incremental_equals_one_shot() {
    let data: Vec<u8> = (0..999u32).map(|i| (i * 31 + 5) as u8).collect();
    let whole = digest_sha512_msg_mine(&data);
    for chunk in [1usize, 100, 127, 128, 129, 300] {
        let mut h = CCSha512::new();
        for piece in data.chunks(chunk) {
            h.update(piece);
        }
        let hex = hex_digest(&words64_to_be_bytes(&h.finalize()));
        assert_eq!(hex, whole, "chunk {}", chunk);
    }
}

#[test]
fn sha2_padding_boundaries() {
    // Messages of 55/56 (SHA-256) and 111/112 (SHA-512) bytes need one or two final blocks.
    assert_eq!(
        digest_sha256_msg_mine(&vec![b'a'; 55]),
        "9f4390f8d30c2dd92ec9f095b65e2b9ae9b0a925a5258e241c9f1e910f734318"
    );
    assert_eq!(
        digest_sha256_msg_mine(&vec![b'a'; 56]),
        "b35439a4ac6f0948b6d6f9e3c6af0f5f590ce20f1bde7090ef7970686ec6738a"
    );
    assert_eq!(
        digest_sha256_msg_mine(&vec![b'a'; 64]),
        "ffe054fe7ae0cb6dc65c3af9b61d5209f439851db43d0ba5997337df154668eb"
    );
    let one_million_a = vec![b'a'; 1_000_000];
    assert_eq!(
        digest_sha256_msg_mine(&one_million_a),
        "cdc76e5c9914fb9281a1c7e284d73e67f1809a48a497200e046d39ccc7112cd0"
    );
}

#[test]
fn sha2_trait_interface() {
    assert_eq!(
        <CCSha256 as HasherAlg>::dgst("abc".as_bytes()),
        "ba7816bf8f01cfea414140de5dae2223b00361a396177a9cb410ff61f20015ad"
    );
    let mut h = CCSha512::new();
    HasherAlg::update(&mut h, "ab".as_bytes());
    HasherAlg::update(&mut h, "c".as_bytes());
    let out = HasherAlg::finalize(&mut h);
    assert_eq!(
        hex_digest(&words64_to_be_bytes(&out)),
        "ddaf35a193617abacc417349ae20413112e6fa4e89a97ea20a9eeee64b55d39a2192992a274fc1a836ba3c23a3feebbd454d4423643ce80e2a9ac94fa54ca49f"
    );
    let empty = HasherAlg::finalize(&mut h);
    assert_eq!(
        hex_digest(&words64_to_be_bytes(&empty)),
        "cf83e1357eefb8bdf1542850d66d8007d620e4050b5715dc83f4a921d36ce9ce47d0d13c5d85f2b0ff8318d2877eec2f63b931bd47417a81a538327af927da3e"
    );
}

#[test]
fn sha256_batched_block_matches_digest_of_abc() {
    // "abc" padded to one block: its compression from the initial value is the digest.
    let mut block = [0u8; 64];
    block[0] = b'a';
    block[1] = b'b';
    block[2] = b'c';
    block[3] = 0x80;
    block[63] = 24;
    let mut hash = SHA256_INITIAL;
    process(&mut hash, &SHA256_K, &block);
    assert_eq!(
        hex_digest(&words32_to_be_bytes(&hash)),
        "ba7816bf8f01cfea414140de5dae2223b00361a396177a9cb410ff61f20015ad"
    );
}

#[test]
fn sha256_batch_pieces() {
    assert_eq!(add4([1, 2, u32::MAX, 4], [1, 1, 2, 0]), [2, 3, 1, 4]);
    assert_eq!(load_k4_at(&SHA256_K, 4), [0x3956c25b, 0x59f111f1, 0x923f82a4, 0xab1c5ed5]);
    // The schedule of an all-zero block stays zero.
    let z = [0u32; 4];
    assert_eq!(message_schedule_batch(&z, &z, &z, &z), [0, 0, 0, 0]);
    // One batch of four rounds from the initial value with zero addends.
    let mut upper = [SHA256_INITIAL[0], SHA256_INITIAL[1], SHA256_INITIAL[2], SHA256_INITIAL[3]];
    let mut lower = [SHA256_INITIAL[4], SHA256_INITIAL[5], SHA256_INITIAL[6], SHA256_INITIAL[7]];
    let (mut a, mut b, mut c, mut d) = (upper[0], upper[1], upper[2], upper[3]);
    let (mut e, mut f, mut g, mut h) = (lower[0], lower[1], lower[2], lower[3]);
    for _ in 0..4 {
        let s1 = e.rotate_right(6) ^ e.rotate_right(11) ^ e.rotate_right(25);
        let ch = (e & f) ^ (!e & g);
        let t1 = h.wrapping_add(s1).wrapping_add(ch);
        let s0 = a.rotate_right(2) ^ a.rotate_right(13) ^ a.rotate_right(22);
        let maj = (a & b) ^ (a & c) ^ (b & c);
        let t2 = s0.wrapping_add(maj);
        h = g;
        g = f;
        f = e;
        e = d.wrapping_add(t1);
        d = c;
        c = b;
        b = a;
        a = t1.wrapping_add(t2);
    }
    rounds4(&mut upper, &mut lower, &[0, 0, 0, 0]);
    assert_eq!(upper, [a, b, c, d]);
    assert_eq!(lower, [e, f, g, h]);
}

#[test]
fn sha_digest_lengths() {
    assert_eq!(digest_sha256_msg_mine("x".as_bytes()).len(), 64);
    assert_eq!(digest_sha512_msg_mine("x".as_bytes()).len(), 128);
}
