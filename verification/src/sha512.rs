//! SHA-512 (FIPS 180-4): specification and incremental hasher.
use vstd::prelude::*;
use crate::blocks::{
    fold_blocks, lemma_fold_concat, lemma_fold_len, lemma_fold_snoc, lemma_md_pad_len,
    lemma_md_pad_shape, lemma_pad_zero_len_128, md_pad, pad_zero_len, to_block128,
};
use crate::hex::{
    hex_digest, hex_encode, lemma_hex_encode_len, lemma_words64_be_len, words64_be,
    words64_to_be_bytes,
};
use crate::words::{
    be_bytes, be_u64_at, bsig0_64, bsig1_64, ch64, lemma_be_bytes16_read, lemma_wrapping_add_reorder64, load_be_u64,
    maj64, push_be_bytes, ssig0_64, ssig1_64, Word,
};
use crate::HasherAlg;

verus! {

/// The SHA-512 round constants.
pub const SHA512_K: [u64; 80] = [
    0x428a2f98d728ae22, 0x7137449123ef65cd, 0xb5c0fbcfec4d3b2f, 0xe9b5dba58189dbbc,
    0x3956c25bf348b538, 0x59f111f1b605d019, 0x923f82a4af194f9b, 0xab1c5ed5da6d8118,
    0xd807aa98a3030242, 0x12835b0145706fbe, 0x243185be4ee4b28c, 0x550c7dc3d5ffb4e2,
    0x72be5d74f27b896f, 0x80deb1fe3b1696b1, 0x9bdc06a725c71235, 0xc19bf174cf692694,
    0xe49b69c19ef14ad2, 0xefbe4786384f25e3, 0x0fc19dc68b8cd5b5, 0x240ca1cc77ac9c65,
    0x2de92c6f592b0275, 0x4a7484aa6ea6e483, 0x5cb0a9dcbd41fbd4, 0x76f988da831153b5,
    0x983e5152ee66dfab, 0xa831c66d2db43210, 0xb00327c898fb213f, 0xbf597fc7beef0ee4,
    0xc6e00bf33da88fc2, 0xd5a79147930aa725, 0x06ca6351e003826f, 0x142929670a0e6e70,
    0x27b70a8546d22ffc, 0x2e1b21385c26c926, 0x4d2c6dfc5ac42aed, 0x53380d139d95b3df,
    0x650a73548baf63de, 0x766a0abb3c77b2a8, 0x81c2c92e47edaee6, 0x92722c851482353b,
    0xa2bfe8a14cf10364, 0xa81a664bbc423001, 0xc24b8b70d0f89791, 0xc76c51a30654be30,
    0xd192e819d6ef5218, 0xd69906245565a910, 0xf40e35855771202a, 0x106aa07032bbd1b8,
    0x19a4c116b8d2d0c8, 0x1e376c085141ab53, 0x2748774cdf8eeb99, 0x34b0bcb5e19b48a8,
    0x391c0cb3c5c95a63, 0x4ed8aa4ae3418acb, 0x5b9cca4f7763e373, 0x682e6ff3d6b2b8a3,
    0x748f82ee5defb2fc, 0x78a5636f43172f60, 0x84c87814a1f0ab72, 0x8cc702081a6439ec,
    0x90befffa23631e28, 0xa4506cebde82bde9, 0xbef9a3f7b2c67915, 0xc67178f2e372532b,
    0xca273eceea26619c, 0xd186b8c721c0c207, 0xeada7dd6cde0eb1e, 0xf57d4f7fee6ed178,
    0x06f067aa72176fba, 0x0a637dc5a2c898a6, 0x113f9804bef90dae, 0x1b710b35131c471b,
    0x28db77f523047d84, 0x32caab7b40c72493, 0x3c9ebe0a15c9bebc, 0x431d67c49c100d4c,
    0x4cc5d4becb3e42b6, 0x597f299cfc657e2a, 0x5fcb6fab3ad6faec, 0x6c44198c4a475817,
];

/// The SHA-512 initial hash value.
pub const SHA512_INITIAL: [u64; 8] = [
    0x6a09e667f3bcc908, 0xbb67ae8584caa73b, 0x3c6ef372fe94f82b, 0xa54ff53a5f1d36f1,
    0x510e527fade682d1, 0x9b05688c2b3e6c1f, 0x1f83d9abfb41bd6b, 0x5be0cd19137e2179,
];

/// Word `t` of the message schedule of a 128-byte block.
pub open spec fn sha512_w(block: Seq<u8>, t: nat) -> u64
    decreases t,
{
    if t < 16 {
        be_u64_at(block, 8 * t as int)
    } else {
        ssig1_64(sha512_w(block, (t - 2) as nat)).wrapping_add(
            sha512_w(block, (t - 7) as nat),
        ).wrapping_add(ssig0_64(sha512_w(block, (t - 15) as nat))).wrapping_add(
            sha512_w(block, (t - 16) as nat),
        )
    }
}

/// The 80-word message schedule of a block.
pub open spec fn sha512_schedule(block: Seq<u8>) -> Seq<u64> {
    Seq::new(80, |t: int| sha512_w(block, t as nat))
}

/// The per-round addend: schedule word plus round constant.
pub open spec fn sha512_kws(block: Seq<u8>) -> Seq<u64> {
    Seq::new(80, |t: int| sha512_w(block, t as nat).wrapping_add(SHA512_K@[t]))
}

/// One compression round on the working variables `a..h`, with addend `kw`.
pub open spec fn sha512_step(s: Seq<u64>, kw: u64) -> Seq<u64> {
    let t1 = s[7].wrapping_add(bsig1_64(s[4])).wrapping_add(ch64(s[4], s[5], s[6])).wrapping_add(
        kw,
    );
    let t2 = bsig0_64(s[0]).wrapping_add(maj64(s[0], s[1], s[2]));
    seq![t1.wrapping_add(t2), s[0], s[1], s[2], s[3].wrapping_add(t1), s[4], s[5], s[6]]
}

/// The first `n` rounds, with addends `kws[0..n]`.
pub open spec fn sha512_steps(s: Seq<u64>, kws: Seq<u64>, n: nat) -> Seq<u64>
    decreases n,
{
    if n == 0 {
        s
    } else {
        sha512_step(sha512_steps(s, kws, (n - 1) as nat), kws[n - 1])
    }
}

/// The compression function: 80 rounds, then the feed-forward addition.
pub open spec fn sha512_compress(h: Seq<u64>, block: Seq<u8>) -> Seq<u64> {
    let s = sha512_steps(h, sha512_kws(block), 80);
    Seq::new(8, |i: int| h[i].wrapping_add(s[i]))
}

/// The hash state after every whole 128-byte block of `data`.
pub open spec fn sha512_fold(h: Seq<u64>, data: Seq<u8>) -> Seq<u64> {
    fold_blocks(|s: Seq<u64>, b: Seq<u8>| sha512_compress(s, b), h, data, 128)
}

/// The padded message: `0x80`, zeros, and the bit length as 16 big-endian bytes.
pub open spec fn sha512_pad(msg: Seq<u8>) -> Seq<u8> {
    md_pad(
        msg,
        128,
        be_bytes(((msg.len() * 8) % 0x1_0000_0000_0000_0000_0000_0000_0000_0000nat) as u128, 16),
    )
}

/// The SHA-512 digest of `msg`, as eight words.
pub open spec fn sha512(msg: Seq<u8>) -> Seq<u64> {
    sha512_fold(SHA512_INITIAL@, sha512_pad(msg))
}

/// An incremental SHA-512 hasher.
pub struct CCSha512 {
    hash: [u64; 8],
    table: [u64; 80],
    buffer: Vec<u8>,
    message_len: u128,
    absorbed: Ghost<Seq<u8>>,
}

impl View for CCSha512 {
    type V = Seq<u8>;

    /// The bytes absorbed so far.
    closed spec fn view(&self) -> Seq<u8> {
        self.absorbed@
    }
}

impl CCSha512 {
    /// The chaining value (the eight hash words).
    pub closed spec fn state(&self) -> Seq<u64> {
        self.hash@
    }

    /// The bytes waiting for a whole block.
    pub closed spec fn pending(&self) -> Seq<u8> {
        self.buffer@
    }

    /// The message length the hasher counts, in bytes.
    pub closed spec fn length(&self) -> nat {
        self.message_len as nat
    }

    /// Everything but the chaining value: table, pending bytes, length, absorbed bytes.
    pub closed spec fn frame(&self) -> (Seq<u64>, Seq<u8>, u128, Seq<u8>) {
        (self.table@, self.buffer@, self.message_len, self.absorbed@)
    }

    /// The round-constant table is the SHA-512 one.
    pub closed spec fn has_table(&self) -> bool {
        self.table@ == SHA512_K@
    }

    /// The constant table the hasher holds.
    pub closed spec fn table(&self) -> Seq<u64> {
        self.table@
    }

    /// `has_table` says that the table held is `SHA512_K`.
    pub proof fn lemma_has_table(&self)
        ensures
            self.has_table() <==> self.table() == SHA512_K@,
    {
    }

    /// The hasher's invariant: the chaining value is the fold of every whole
    /// block absorbed, and the pending bytes are the rest.
    pub closed spec fn well_formed(&self) -> bool {
        let n = self.absorbed@.len();
        let p = self.buffer@.len();
        &&& self.table@ == SHA512_K@
        &&& p < 128
        &&& p <= n
        &&& self.message_len == n
        &&& (n - p) % 128 == 0
        &&& self.buffer@ == self.absorbed@.skip(n - p)
        &&& self.hash@ == sha512_fold(SHA512_INITIAL@, self.absorbed@.take(n - p))
    }

    pub fn new() -> (s: Self)
        ensures
            s.well_formed(),
            s.has_table(),
            s@ == Seq::<u8>::empty(),
            s.state() == SHA512_INITIAL@,
            s.pending() == Seq::<u8>::empty(),
    {
        let s = CCSha512 {
            hash: SHA512_INITIAL,
            table: SHA512_K,
            buffer: Vec::with_capacity(128),
            message_len: 0,
            absorbed: Ghost(Seq::empty()),
        };
        assert(s.absorbed@.take(0) =~= Seq::<u8>::empty());
        assert(s.absorbed@.skip(0) =~= s.buffer@);
        s
    }

    /// Expands a block into its 80-word message schedule.
    pub fn message_schedule_scalar(content: &[u8; 128]) -> (wt: [u64; 80])
        ensures
            wt@ == sha512_schedule(content@),
    {
        let mut wt = [0u64; 80];
        for i in 0..16
            invariant
                forall|j: int| 0 <= j < i ==> wt@[j] == sha512_w(content@, j as nat),
        {
            wt[i] = load_be_u64(content, 8 * i);
        }
        for t in 16..80
            invariant
                forall|j: int| 0 <= j < t ==> wt@[j] == sha512_w(content@, j as nat),
        {
            wt[t] = u64::ssig1(wt[t - 2]).wrapping_add(wt[t - 7]).wrapping_add(
                u64::ssig0(wt[t - 15]),
            ).wrapping_add(wt[t - 16]);
        }
        assert(wt@ =~= sha512_schedule(content@));
        wt
    }

    /// Adds `state` into the chaining value, word by word, modulo 2^64.
    pub fn update_hash(&mut self, state: [u64; 8])
        ensures
            final(self).state() == Seq::new(8, |i: int| old(self).state()[i].wrapping_add(state@[i])),
            final(self).frame() == old(self).frame(),
    {
        let ghost h0 = self.hash@;
        for i in 0..8
            invariant
                forall|j: int| 0 <= j < i ==> self.hash@[j] == h0[j].wrapping_add(state@[j]),
                forall|j: int| i <= j < 8 ==> self.hash@[j] == h0[j],
                self.buffer@ == old(self).buffer@,
                self.absorbed == old(self).absorbed,
                self.table == old(self).table,
                self.message_len == old(self).message_len,
        {
            self.hash[i] = self.hash[i].wrapping_add(state[i]);
        }
        assert(self.hash@ =~= Seq::new(8, |i: int| h0[i].wrapping_add(state@[i])));
    }

    /// Compresses one block into the chaining value, one round at a time.
    pub fn process_block_scalar(&mut self, content: &[u8; 128])
        requires
            old(self).has_table(),
        ensures
            final(self).state() == sha512_compress(old(self).state(), content@),
            final(self).frame() == old(self).frame(),
    {
        let wt = Self::message_schedule_scalar(content);
        let ghost kws = sha512_kws(content@);
        let ghost h0 = self.hash@;
        let mut a = self.hash[0];
        let mut b = self.hash[1];
        let mut c = self.hash[2];
        let mut d = self.hash[3];
        let mut e = self.hash[4];
        let mut f = self.hash[5];
        let mut g = self.hash[6];
        let mut h = self.hash[7];
        assert(seq![a, b, c, d, e, f, g, h] =~= sha512_steps(h0, kws, 0));
        for t in 0..80
            invariant
                self.table@ == SHA512_K@,
                wt@ == sha512_schedule(content@),
                kws == sha512_kws(content@),
                seq![a, b, c, d, e, f, g, h] == sha512_steps(h0, kws, t as nat),
        {
            let ghost s = seq![a, b, c, d, e, f, g, h];
            let x = h.wrapping_add(u64::bsig1(e)).wrapping_add(u64::ch(e, f, g));
            let t1 = x.wrapping_add(self.table[t]).wrapping_add(wt[t]);
            proof {
                lemma_wrapping_add_reorder64(x, SHA512_K@[t as int], wt@[t as int]);
            }
            let t2 = u64::bsig0(a).wrapping_add(u64::maj(a, b, c));
            h = g;
            g = f;
            f = e;
            e = d.wrapping_add(t1);
            d = c;
            c = b;
            b = a;
            a = t1.wrapping_add(t2);
            assert(seq![a, b, c, d, e, f, g, h] =~= sha512_step(s, kws[t as int]));
        }
        self.update_hash([a, b, c, d, e, f, g, h]);
        assert(self.hash@ =~= sha512_compress(h0, content@));
    }

    /// Absorbs `input`: whole blocks are compressed, the rest is kept.
    pub fn update(&mut self, input: &[u8])
        requires
            old(self).well_formed(),
            old(self)@.len() + input@.len() <= u128::MAX,
        ensures
            final(self).well_formed(),
            final(self)@ == old(self)@ + input@,
    {
        let ghost a0 = self.absorbed@;
        let ghost n0 = a0.len();
        let ghost p0 = self.buffer@.len();
        let ghost a1 = a0 + input@;
        self.message_len = self.message_len + input.len() as u128;
        self.absorbed = Ghost(a1);

        let buffer_size = self.buffer.len();

        if input.len() < 128 - buffer_size {
            self.buffer.extend_from_slice(input);
            assert(a1.take(n0 - p0) =~= a0.take(n0 - p0));
            assert(a1.skip(n0 - p0) =~= self.buffer@);
            return;
        }
        let take = 128 - buffer_size;
        let mut offset = take;

        self.buffer.extend_from_slice(&input[0..offset]);
        let mut buffer: Vec<u8> = Vec::new();
        std::mem::swap(&mut buffer, &mut self.buffer);
        let base_block = to_block128(buffer.as_slice());
        proof {
            assert(a1.take(n0 - p0) =~= a0.take(n0 - p0));
            assert(a1.take(n0 + offset) =~= a1.take(n0 - p0) + base_block@);
            lemma_fold_snoc(
                |s: Seq<u64>, b: Seq<u8>| sha512_compress(s, b),
                SHA512_INITIAL@,
                a1.take(n0 - p0),
                base_block@,
                128,
            );
        }
        self.process_block_scalar(&base_block);

        while input.len() - offset >= 128
            invariant
                self.table@ == SHA512_K@,
                self.absorbed@ == a1,
                a1 == a0 + input@,
                n0 == a0.len(),
                take <= offset <= input@.len(),
                self.message_len == a1.len(),
                (n0 + offset) % 128 == 0,
                self.hash@ == sha512_fold(SHA512_INITIAL@, a1.take(n0 + offset)),
            decreases input@.len() - offset,
        {
            let block = to_block128(&input[offset..(offset + 128)]);
            proof {
                assert(a1.take(n0 + offset + 128) =~= a1.take(n0 + offset) + block@);
                lemma_fold_snoc(
                    |s: Seq<u64>, b: Seq<u8>| sha512_compress(s, b),
                    SHA512_INITIAL@,
                    a1.take(n0 + offset),
                    block@,
                    128,
                );
            }
            self.process_block_scalar(&block);
            offset += 128;
        }

        buffer.clear();
        buffer.extend_from_slice(&input[offset..input.len()]);
        self.buffer = buffer;
        assert(self.buffer@ =~= a1.skip(n0 + offset));
    }

    /// Pads the message, compresses the last blocks, and returns the digest.
    pub fn finalize(self) -> (digest: [u64; 8])
        requires
            self.well_formed(),
            self@.len() * 8 <= u128::MAX,
        ensures
            digest@ == sha512(self@),
    {
        let mut this = self;
        let ghost msg = this.absorbed@;
        let ghost n = msg.len();
        let ghost p = this.buffer@.len();
        let ghost rest = this.buffer@;
        let ghost k = pad_zero_len(n, 128, 16);
        let bit_len = this.message_len * 8;

        this.buffer.push(0x80);
        proof {
            assert(n % 128 == p) by {
                vstd::arithmetic::div_mod::lemma_mod_add_multiples_vanish(p as int, 128);
                vstd::arithmetic::div_mod::lemma_small_mod(p, 128);
                assert(n == (n - p) + p);
                vstd::arithmetic::div_mod::lemma_fundamental_div_mod((n - p) as int, 128);
                vstd::arithmetic::div_mod::lemma_mod_multiples_vanish(((n - p) / 128) as int, p as int, 128);
            }
            lemma_pad_zero_len_128(n, 0);
            assert(this.buffer@ =~= rest + seq![0x80u8] + Seq::new(0, |i: int| 0u8));
        }
        let ghost mut j: nat = 0;
        while this.buffer.len() % 128 != 112
            invariant
                this.hash@ == sha512_fold(SHA512_INITIAL@, msg.take(n - p)),
                this.table@ == SHA512_K@,
                n % 128 == p,
                p < 128,
                k == pad_zero_len(n, 128, 16),
                j <= k,
                this.buffer@ == rest + seq![0x80u8] + Seq::new(j, |i: int| 0u8),
                rest.len() == p,
            decreases k - j,
        {
            proof {
                lemma_pad_zero_len_128(n, j);
            }
            this.buffer.push(0);
            proof {
                j = j + 1;
                assert(this.buffer@ =~= rest + seq![0x80u8] + Seq::new(j, |i: int| 0u8));
            }
        }
        proof {
            lemma_pad_zero_len_128(n, j);
        }
        push_be_bytes(&mut this.buffer, bit_len, 16);

        let mut final_blocks: Vec<u8> = Vec::new();
        std::mem::swap(&mut final_blocks, &mut this.buffer);
        let ghost tail = final_blocks@;
        proof {
            let field = be_bytes(((n * 8) % 0x1_0000_0000_0000_0000_0000_0000_0000_0000nat) as u128, 16);
            assert(field == be_bytes(bit_len, 16));
            assert(msg =~= msg.take(n - p) + rest);
            assert(sha512_pad(msg) =~= msg.take(n - p) + tail);
            lemma_md_pad_len(msg, 128, field);
            assert(tail.len() % 128 == 0) by {
                vstd::arithmetic::div_mod::lemma_mod_sub_multiples_vanish(
                    sha512_pad(msg).len() as int, 128);
                assert(sha512_pad(msg).len() == (n - p) + tail.len());
                vstd::arithmetic::div_mod::lemma_mod_add_multiples_vanish(tail.len() as int, 128);
                vstd::arithmetic::div_mod::lemma_fundamental_div_mod((n - p) as int, 128);
                vstd::arithmetic::div_mod::lemma_mod_multiples_vanish(((n - p) / 128) as int, tail.len() as int, 128);
            }
            lemma_fold_concat(
                |s: Seq<u64>, b: Seq<u8>| sha512_compress(s, b),
                SHA512_INITIAL@,
                msg.take(n - p),
                tail,
                128,
            );
        }
        let ghost h_start = this.hash@;
        let total = final_blocks.len();
        let nblocks = total / 128;
        for i in 0..nblocks
            invariant
                total == tail.len(),
                this.table@ == SHA512_K@,
                final_blocks@ == tail,
                nblocks == tail.len() / 128,
                tail.len() % 128 == 0,
                this.hash@ == sha512_fold(h_start, tail.take(128 * i)),
        {
            assert(128 * i + 128 <= total) by (nonlinear_arith)
                requires
                    i < nblocks,
                    nblocks == total / 128,
            ;
            let block = to_block128(&final_blocks.as_slice()[128 * i..128 * i + 128]);
            proof {
                assert(tail.take(128 * i + 128) =~= tail.take(128 * i) + block@);
                assert(tail.take(128 * i).len() % 128 == 0) by {
                    vstd::arithmetic::div_mod::lemma_mod_multiples_basic(i as int, 128);
                }
                lemma_fold_snoc(
                    |s: Seq<u64>, b: Seq<u8>| sha512_compress(s, b),
                    h_start,
                    tail.take(128 * i),
                    block@,
                    128,
                );
            }
            this.process_block_scalar(&block);
        }
        assert(tail.take(128 * nblocks) =~= tail) by {
            vstd::arithmetic::div_mod::lemma_fundamental_div_mod(tail.len() as int, 128);
        }
        this.hash
    }
}

/// The hexadecimal SHA-512 digest of `contents`: each of the eight words as
/// sixteen digits, most significant first.
pub fn digest_sha512_msg_mine(contents: &[u8]) -> (s: String)
    requires
        contents@.len() * 8 <= u128::MAX,
    ensures
        s@ == hex_encode(words64_be(sha512(contents@))),
{
    let mut hasher = CCSha512::new();
    hasher.update(contents);
    assert(hasher@ =~= contents@);
    let out = hasher.finalize();
    let bytes = words64_to_be_bytes(&out);
    hex_digest(bytes.as_slice())
}

impl HasherAlg for CCSha512 {
    type Output = [u64; 8];

    open spec fn absorbed(&self) -> Seq<u8> {
        self@
    }

    open spec fn inv(&self) -> bool {
        self.well_formed()
    }

    open spec fn len_limit() -> nat {
        u128::MAX as nat
    }

    open spec fn bit_limit() -> nat {
        u128::MAX as nat
    }

    open spec fn is_digest(msg: Seq<u8>, out: [u64; 8]) -> bool {
        out@ == sha512(msg)
    }

    open spec fn hex_digest_of(msg: Seq<u8>) -> Seq<char> {
        hex_encode(words64_be(sha512(msg)))
    }

    fn update(&mut self, input: &[u8]) {
        CCSha512::update(self, input);
    }

    fn finalize(&mut self) -> (out: [u64; 8]) {
        let mut done = CCSha512::new();
        std::mem::swap(self, &mut done);
        CCSha512::finalize(done)
    }

    fn dgst(contents: &[u8]) -> (s: String) {
        digest_sha512_msg_mine(contents)
    }
}

/// A SHA-512 digest is 8 words, rendered as 128 lower-case hexadecimal digits.
pub proof fn law_sha512_digest_len(msg: Seq<u8>)
    ensures
        sha512(msg).len() == 8,
        hex_encode(words64_be(sha512(msg))).len() == 128,
{
    lemma_fold_len(
        |s: Seq<u64>, b: Seq<u8>| sha512_compress(s, b),
        SHA512_INITIAL@,
        sha512_pad(msg),
        128,
        8,
    );
    lemma_words64_be_len(sha512(msg));
    lemma_hex_encode_len(words64_be(sha512(msg)));
}

impl CCSha512 {
    /// The invariant in terms of the public views: the table is SHA-512's,
    /// the pending bytes are the last `length mod 128` absorbed bytes, the
    /// counted length is the absorbed length, and the chaining value is the
    /// fold of every whole block before them.
    pub proof fn lemma_well_formed(&self)
        requires
            self.well_formed(),
        ensures
            self.has_table(),
            self.table() == SHA512_K@,
            self.length() == self@.len(),
            self.pending().len() == self@.len() % 128,
            self.pending() == self@.skip(self@.len() - self.pending().len()),
            (self@.len() - self.pending().len()) % 128 == 0,
            self.state() == sha512_fold(SHA512_INITIAL@, self@.take(self@.len() - self.pending().len())),
    {
        let n = self@.len();
        let p = self.pending().len();
        assert(n % 128 == p) by {
            vstd::arithmetic::div_mod::lemma_fundamental_div_mod((n - p) as int, 128);
            vstd::arithmetic::div_mod::lemma_mod_multiples_vanish(((n - p) / 128) as int, p as int, 128);
            vstd::arithmetic::div_mod::lemma_small_mod(p, 128);
        }
    }

    /// Two well-formed hashers that absorbed the same bytes agree on their
    /// chaining value, pending bytes and counted length; so absorbing `a`
    /// then `b` leaves the same hasher as absorbing `a + b` at once.
    pub proof fn law_same_absorbed_same_fields(s1: &Self, s2: &Self)
        requires
            s1.well_formed(),
            s2.well_formed(),
            s1@ == s2@,
        ensures
            s1.state() == s2.state(),
            s1.pending() == s2.pending(),
            s1.length() == s2.length(),
            s1.frame() == s2.frame(),
    {
        s1.lemma_well_formed();
        s2.lemma_well_formed();
    }
}

/// SHA-512 padding (FIPS 180-4, 5.1.2): the message, the byte `0x80`, fewer
/// than 128 zero bytes, and the message's full bit length as a 128-bit
/// big-endian number, for a whole number of 128-byte blocks.
pub proof fn law_sha512_padding(msg: Seq<u8>)
    requires
        msg.len() * 8 <= u128::MAX,
    ensures
        ({
            let p = sha512_pad(msg);
            &&& p.len() % 128 == 0
            &&& msg.len() + 17 <= p.len() < msg.len() + 145
            &&& p.take(msg.len() as int) == msg
            &&& p[msg.len() as int] == 0x80
            &&& forall|i: int| msg.len() < i < p.len() - 16 ==> #[trigger] p[i] == 0
            &&& be_u64_at(p, p.len() - 16) as int * 0x1_0000_0000_0000_0000 + be_u64_at(
                p,
                p.len() - 8,
            ) as int == msg.len() * 8
        }),
{
    let x = ((msg.len() * 8) % 0x1_0000_0000_0000_0000_0000_0000_0000_0000nat) as u128;
    let field = be_bytes(x, 16);
    let p = sha512_pad(msg);
    lemma_md_pad_shape(msg, 128, field);
    lemma_be_bytes16_read(x);
    let tail = p.subrange(p.len() - 16, p.len() as int);
    assert(tail == field);
    assert(be_u64_at(p, p.len() - 16) == be_u64_at(tail, 0));
    assert(be_u64_at(p, p.len() - 8) == be_u64_at(tail, 8));
}

} // verus!
