//! SHA-256 (FIPS 180-4): specification and incremental hasher.
use vstd::prelude::*;
use crate::blocks::{
    fold_blocks, lemma_fold_concat, lemma_fold_len, lemma_fold_snoc, lemma_md_pad_len,
    lemma_md_pad_shape, lemma_pad_zero_len_64, md_pad, pad_zero_len, to_block64,
};
use crate::hex::{
    hex_digest, hex_encode, lemma_hex_encode_len, lemma_words32_be_len, words32_be,
    words32_to_be_bytes,
};
use crate::sha256_batch;
use crate::words::{
    be_bytes, be_u32_at, be_u64_at, bsig0_32, bsig1_32, ch32, lemma_be_bytes8_read, lemma_wrapping_add_reorder32, load_be_u32,
    maj32, push_be_bytes, ssig0_32, ssig1_32, Word,
};
use crate::HasherAlg;

verus! {

/// The SHA-256 round constants.
pub const SHA256_K: [u32; 64] = [
    0x428a2f98, 0x71374491, 0xb5c0fbcf, 0xe9b5dba5, 0x3956c25b, 0x59f111f1, 0x923f82a4,
    0xab1c5ed5, 0xd807aa98, 0x12835b01, 0x243185be, 0x550c7dc3, 0x72be5d74, 0x80deb1fe,
    0x9bdc06a7, 0xc19bf174, 0xe49b69c1, 0xefbe4786, 0x0fc19dc6, 0x240ca1cc, 0x2de92c6f,
    0x4a7484aa, 0x5cb0a9dc, 0x76f988da, 0x983e5152, 0xa831c66d, 0xb00327c8, 0xbf597fc7,
    0xc6e00bf3, 0xd5a79147, 0x06ca6351, 0x14292967, 0x27b70a85, 0x2e1b2138, 0x4d2c6dfc,
    0x53380d13, 0x650a7354, 0x766a0abb, 0x81c2c92e, 0x92722c85, 0xa2bfe8a1, 0xa81a664b,
    0xc24b8b70, 0xc76c51a3, 0xd192e819, 0xd6990624, 0xf40e3585, 0x106aa070, 0x19a4c116,
    0x1e376c08, 0x2748774c, 0x34b0bcb5, 0x391c0cb3, 0x4ed8aa4a, 0x5b9cca4f, 0x682e6ff3,
    0x748f82ee, 0x78a5636f, 0x84c87814, 0x8cc70208, 0x90befffa, 0xa4506ceb, 0xbef9a3f7,
    0xc67178f2,
];

/// The SHA-256 initial hash value.
pub const SHA256_INITIAL: [u32; 8] = [
    0x6a09e667, 0xbb67ae85, 0x3c6ef372, 0xa54ff53a, 0x510e527f, 0x9b05688c, 0x1f83d9ab,
    0x5be0cd19,
];

/// The four big-endian words at `content[offset..offset + 16]`.
pub fn load_be_u32x4_default(content: &[u8; 64], offset: usize) -> (r: [u32; 4])
    requires
        offset + 16 <= 64,
    ensures
        r@ == Seq::new(4, |j: int| be_u32_at(content@, offset + 4 * j)),
{
    sha256_batch::load_be_u32x4(content, offset)
}

/// Word `t` of the message schedule of a 64-byte block.
pub open spec fn sha256_w(block: Seq<u8>, t: nat) -> u32
    decreases t,
{
    if t < 16 {
        be_u32_at(block, 4 * t as int)
    } else {
        ssig1_32(sha256_w(block, (t - 2) as nat)).wrapping_add(
            sha256_w(block, (t - 7) as nat),
        ).wrapping_add(ssig0_32(sha256_w(block, (t - 15) as nat))).wrapping_add(
            sha256_w(block, (t - 16) as nat),
        )
    }
}

/// The 64-word message schedule of a block.
pub open spec fn sha256_schedule(block: Seq<u8>) -> Seq<u32> {
    Seq::new(64, |t: int| sha256_w(block, t as nat))
}

/// The per-round addend: schedule word plus round constant.
pub open spec fn sha256_kws(block: Seq<u8>) -> Seq<u32> {
    Seq::new(64, |t: int| sha256_w(block, t as nat).wrapping_add(SHA256_K@[t]))
}

/// One compression round on the working variables `a..h`, with addend `kw`.
pub open spec fn sha256_step(s: Seq<u32>, kw: u32) -> Seq<u32> {
    let t1 = s[7].wrapping_add(bsig1_32(s[4])).wrapping_add(ch32(s[4], s[5], s[6])).wrapping_add(
        kw,
    );
    let t2 = bsig0_32(s[0]).wrapping_add(maj32(s[0], s[1], s[2]));
    seq![t1.wrapping_add(t2), s[0], s[1], s[2], s[3].wrapping_add(t1), s[4], s[5], s[6]]
}

/// The first `n` rounds, with addends `kws[0..n]`.
pub open spec fn sha256_steps(s: Seq<u32>, kws: Seq<u32>, n: nat) -> Seq<u32>
    decreases n,
{
    if n == 0 {
        s
    } else {
        sha256_step(sha256_steps(s, kws, (n - 1) as nat), kws[n - 1])
    }
}

/// The compression function: 64 rounds, then the feed-forward addition.
pub open spec fn sha256_compress(h: Seq<u32>, block: Seq<u8>) -> Seq<u32> {
    let s = sha256_steps(h, sha256_kws(block), 64);
    Seq::new(8, |i: int| h[i].wrapping_add(s[i]))
}

/// The hash state after every whole 64-byte block of `data`.
pub open spec fn sha256_fold(h: Seq<u32>, data: Seq<u8>) -> Seq<u32> {
    fold_blocks(|s: Seq<u32>, b: Seq<u8>| sha256_compress(s, b), h, data, 64)
}

/// The padded message: `0x80`, zeros, and the bit length as 8 big-endian bytes.
pub open spec fn sha256_pad(msg: Seq<u8>) -> Seq<u8> {
    md_pad(msg, 64, be_bytes(((msg.len() * 8) % 0x1_0000_0000_0000_0000) as u128, 8))
}

/// The SHA-256 digest of `msg`, as eight words.
pub open spec fn sha256(msg: Seq<u8>) -> Seq<u32> {
    sha256_fold(SHA256_INITIAL@, sha256_pad(msg))
}

/// An incremental SHA-256 hasher.
pub struct CCSha256 {
    hash: [u32; 8],
    table: [u32; 64],
    buffer: Vec<u8>,
    message_len: u64,
    absorbed: Ghost<Seq<u8>>,
}

impl View for CCSha256 {
    type V = Seq<u8>;

    /// The bytes absorbed so far.
    closed spec fn view(&self) -> Seq<u8> {
        self.absorbed@
    }
}

impl CCSha256 {
    /// The chaining value (the eight hash words).
    pub closed spec fn state(&self) -> Seq<u32> {
        self.hash@
    }

    /// The bytes waiting for a whole block.
    pub closed spec fn pending(&self) -> Seq<u8> {
        self.buffer@
    }

    /// The message length the hasher counts, in bytes.
    pub closed spec fn length(&self) -> nat {
        self.message_len as nat
    }

    /// Everything but the chaining value: table, pending bytes, length, absorbed bytes.
    pub closed spec fn frame(&self) -> (Seq<u32>, Seq<u8>, u64, Seq<u8>) {
        (self.table@, self.buffer@, self.message_len, self.absorbed@)
    }

    /// The round-constant table is the SHA-256 one.
    pub closed spec fn has_table(&self) -> bool {
        self.table@ == SHA256_K@
    }

    /// The constant table the hasher holds.
    pub closed spec fn table(&self) -> Seq<u32> {
        self.table@
    }

    /// `has_table` says that the table held is `SHA256_K`.
    pub proof fn lemma_has_table(&self)
        ensures
            self.has_table() <==> self.table() == SHA256_K@,
    {
    }

    /// The hasher's invariant: the chaining value is the fold of every whole
    /// block absorbed, and the pending bytes are the rest.
    pub closed spec fn well_formed(&self) -> bool {
        let n = self.absorbed@.len();
        let p = self.buffer@.len();
        &&& self.table@ == SHA256_K@
        &&& p < 64
        &&& p <= n
        &&& self.message_len == n
        &&& (n - p) % 64 == 0
        &&& self.buffer@ == self.absorbed@.skip(n - p)
        &&& self.hash@ == sha256_fold(SHA256_INITIAL@, self.absorbed@.take(n - p))
    }

    pub fn new() -> (s: Self)
        ensures
            s.well_formed(),
            s.has_table(),
            s@ == Seq::<u8>::empty(),
            s.state() == SHA256_INITIAL@,
            s.pending() == Seq::<u8>::empty(),
    {
        let s = CCSha256 {
            hash: SHA256_INITIAL,
            table: SHA256_K,
            buffer: Vec::with_capacity(64),
            message_len: 0,
            absorbed: Ghost(Seq::empty()),
        };
        assert(s.absorbed@.take(0) =~= Seq::<u8>::empty());
        assert(s.absorbed@.skip(0) =~= s.buffer@);
        s
    }

    /// Expands a block into its 64-word message schedule.
    pub fn message_schedule_scalar(content: &[u8; 64]) -> (wt: [u32; 64])
        ensures
            wt@ == sha256_schedule(content@),
    {
        let mut wt = [0u32; 64];
        for i in 0..16
            invariant
                forall|j: int| 0 <= j < i ==> wt@[j] == sha256_w(content@, j as nat),
        {
            wt[i] = load_be_u32(content, 4 * i);
        }
        for t in 16..64
            invariant
                forall|j: int| 0 <= j < t ==> wt@[j] == sha256_w(content@, j as nat),
        {
            wt[t] = u32::ssig1(wt[t - 2]).wrapping_add(wt[t - 7]).wrapping_add(
                u32::ssig0(wt[t - 15]),
            ).wrapping_add(wt[t - 16]);
        }
        assert(wt@ =~= sha256_schedule(content@));
        wt
    }

    /// Adds `state` into the chaining value, word by word, modulo 2^32.
    pub fn update_hash(&mut self, state: [u32; 8])
        ensures
            final(self).state() == Seq::new(8, |i: int| old(self).state()[i].wrapping_add(state@[i])),
            final(self).frame() == old(self).frame(),
    {
        let ghost h0 = self.hash@;
        for i in 0..8
            invariant
                forall|j: int| 0 <= j < i ==> self.hash@[j] == h0[j].wrapping_add(state@[j]),
                forall|j: int| i <= j < 8 ==> self.hash@[j] == h0[j],
                self.buffer@ == old(self).buffer@,
                self.absorbed == old(self).absorbed,
                self.table == old(self).table,
                self.message_len == old(self).message_len,
        {
            self.hash[i] = self.hash[i].wrapping_add(state[i]);
        }
        assert(self.hash@ =~= Seq::new(8, |i: int| h0[i].wrapping_add(state@[i])));
    }

    /// Compresses one block into the chaining value, one round at a time.
    pub fn process_block_scalar(&mut self, content: &[u8; 64])
        requires
            old(self).has_table(),
        ensures
            final(self).state() == sha256_compress(old(self).state(), content@),
            final(self).frame() == old(self).frame(),
    {
        let wt = Self::message_schedule_scalar(content);
        let ghost kws = sha256_kws(content@);
        let ghost h0 = self.hash@;
        let mut a = self.hash[0];
        let mut b = self.hash[1];
        let mut c = self.hash[2];
        let mut d = self.hash[3];
        let mut e = self.hash[4];
        let mut f = self.hash[5];
        let mut g = self.hash[6];
        let mut h = self.hash[7];
        assert(seq![a, b, c, d, e, f, g, h] =~= sha256_steps(h0, kws, 0));
        for t in 0..64
            invariant
                self.table@ == SHA256_K@,
                wt@ == sha256_schedule(content@),
                kws == sha256_kws(content@),
                seq![a, b, c, d, e, f, g, h] == sha256_steps(h0, kws, t as nat),
        {
            let ghost s = seq![a, b, c, d, e, f, g, h];
            let x = h.wrapping_add(u32::bsig1(e)).wrapping_add(u32::ch(e, f, g));
            let t1 = x.wrapping_add(self.table[t]).wrapping_add(wt[t]);
            proof {
                lemma_wrapping_add_reorder32(x, SHA256_K@[t as int], wt@[t as int]);
            }
            let t2 = u32::bsig0(a).wrapping_add(u32::maj(a, b, c));
            h = g;
            g = f;
            f = e;
            e = d.wrapping_add(t1);
            d = c;
            c = b;
            b = a;
            a = t1.wrapping_add(t2);
            assert(seq![a, b, c, d, e, f, g, h] =~= sha256_step(s, kws[t as int]));
        }
        self.update_hash([a, b, c, d, e, f, g, h]);
        assert(self.hash@ =~= sha256_compress(h0, content@));
    }

    /// The four round constants `table[t..t + 4]`.
    pub fn k4_scalar(table: &[u32; 64], t: usize) -> (r: [u32; 4])
        requires
            t + 4 <= 64,
        ensures
            r@ == table@.subrange(t as int, t + 4),
    {
        sha256_batch::load_k4_at(table, t)
    }

    /// Four compression rounds on `upper = a..d`, `lower = e..h`, with addends `wk`.
    pub fn rounds4_scalar(upper: &mut [u32; 4], lower: &mut [u32; 4], wk: &[u32; 4])
        ensures
            final(upper)@ + final(lower)@ == sha256_batch::sha256_steps4(
                old(upper)@ + old(lower)@,
                wk@,
            ),
    {
        sha256_batch::rounds4(upper, lower, wk)
    }

    /// The next four schedule words from the window `m0 ++ m1 ++ m2 ++ m3`.
    pub fn message_schedule_batch(m0: &[u32; 4], m1: &[u32; 4], m2: &[u32; 4], m3: &[u32; 4]) -> (r:
        [u32; 4])
        ensures
            r@ == sha256_batch::sha256_schedule4(m0@, m1@, m2@, m3@),
    {
        sha256_batch::message_schedule_batch(m0, m1, m2, m3)
    }

    /// Compresses one block into the chaining value, four rounds at a time.
    pub fn process_block_concurrent_scalar(&mut self, content: &[u8; 64])
        requires
            old(self).has_table(),
        ensures
            final(self).state() == sha256_compress(old(self).state(), content@),
            final(self).frame() == old(self).frame(),
    {
        sha256_batch::process(&mut self.hash, &self.table, content);
    }

    /// Compresses one block with the batched rounds (the strategy that
    /// whole blocks absorbed by `update` go through).
    pub fn process_block_concurrent(&mut self, content: &[u8; 64])
        requires
            old(self).has_table(),
        ensures
            final(self).state() == sha256_compress(old(self).state(), content@),
            final(self).frame() == old(self).frame(),
    {
        self.process_block_concurrent_scalar(content);
    }

    /// Absorbs `input`: whole blocks are compressed, the rest is kept.
    pub fn update(&mut self, input: &[u8])
        requires
            old(self).well_formed(),
            old(self)@.len() + input@.len() <= u64::MAX,
        ensures
            final(self).well_formed(),
            final(self)@ == old(self)@ + input@,
    {
        let ghost a0 = self.absorbed@;
        let ghost n0 = a0.len();
        let ghost p0 = self.buffer@.len();
        let ghost a1 = a0 + input@;
        self.message_len = self.message_len + input.len() as u64;
        self.absorbed = Ghost(a1);

        let buffer_size = self.buffer.len();

        if input.len() < 64 - buffer_size {
            self.buffer.extend_from_slice(input);
            assert(a1.take(n0 - p0) =~= a0.take(n0 - p0));
            assert(a1.skip(n0 - p0) =~= self.buffer@);
            return;
        }
        let take = 64 - buffer_size;
        let mut offset = take;

        self.buffer.extend_from_slice(&input[0..offset]);
        let mut buffer: Vec<u8> = Vec::new();
        std::mem::swap(&mut buffer, &mut self.buffer);
        let base_block = to_block64(buffer.as_slice());
        proof {
            assert(a1.take(n0 - p0) =~= a0.take(n0 - p0));
            assert(a1.take(n0 + offset) =~= a1.take(n0 - p0) + base_block@);
            lemma_fold_snoc(
                |s: Seq<u32>, b: Seq<u8>| sha256_compress(s, b),
                SHA256_INITIAL@,
                a1.take(n0 - p0),
                base_block@,
                64,
            );
        }
        self.process_block_concurrent(&base_block);

        while input.len() - offset >= 64
            invariant
                self.table@ == SHA256_K@,
                self.absorbed@ == a1,
                a1 == a0 + input@,
                n0 == a0.len(),
                take <= offset <= input@.len(),
                self.message_len == a1.len(),
                (n0 + offset) % 64 == 0,
                self.hash@ == sha256_fold(SHA256_INITIAL@, a1.take(n0 + offset)),
            decreases input@.len() - offset,
        {
            let block = to_block64(&input[offset..(offset + 64)]);
            proof {
                assert(a1.take(n0 + offset + 64) =~= a1.take(n0 + offset) + block@);
                lemma_fold_snoc(
                    |s: Seq<u32>, b: Seq<u8>| sha256_compress(s, b),
                    SHA256_INITIAL@,
                    a1.take(n0 + offset),
                    block@,
                    64,
                );
            }
            self.process_block_concurrent(&block);
            offset += 64;
        }

        buffer.clear();
        buffer.extend_from_slice(&input[offset..input.len()]);
        self.buffer = buffer;
        assert(self.buffer@ =~= a1.skip(n0 + offset));
    }

    /// Pads the message, compresses the last blocks, and returns the digest.
    pub fn finalize(self) -> (digest: [u32; 8])
        requires
            self.well_formed(),
            self@.len() * 8 <= u64::MAX,
        ensures
            digest@ == sha256(self@),
    {
        let mut this = self;
        let ghost msg = this.absorbed@;
        let ghost n = msg.len();
        let ghost p = this.buffer@.len();
        let ghost rest = this.buffer@;
        let ghost k = pad_zero_len(n, 64, 8);
        let bit_len = this.message_len * 8;

        this.buffer.push(0x80);
        proof {
            assert(n % 64 == p) by {
                vstd::arithmetic::div_mod::lemma_mod_add_multiples_vanish(p as int, 64);
                vstd::arithmetic::div_mod::lemma_small_mod(p, 64);
                assert(n == (n - p) + p);
                vstd::arithmetic::div_mod::lemma_fundamental_div_mod((n - p) as int, 64);
                vstd::arithmetic::div_mod::lemma_mod_multiples_vanish(((n - p) / 64) as int, p as int, 64);
            }
            lemma_pad_zero_len_64(n, 0);
            assert(this.buffer@ =~= rest + seq![0x80u8] + Seq::new(0, |i: int| 0u8));
        }
        let ghost mut j: nat = 0;
        while this.buffer.len() % 64 != 56
            invariant
                this.hash@ == sha256_fold(SHA256_INITIAL@, msg.take(n - p)),
                this.table@ == SHA256_K@,
                n % 64 == p,
                p < 64,
                k == pad_zero_len(n, 64, 8),
                j <= k,
                this.buffer@ == rest + seq![0x80u8] + Seq::new(j, |i: int| 0u8),
                rest.len() == p,
            decreases k - j,
        {
            proof {
                lemma_pad_zero_len_64(n, j);
            }
            this.buffer.push(0);
            proof {
                j = j + 1;
                assert(this.buffer@ =~= rest + seq![0x80u8] + Seq::new(j, |i: int| 0u8));
            }
        }
        proof {
            lemma_pad_zero_len_64(n, j);
        }
        push_be_bytes(&mut this.buffer, bit_len as u128, 8);

        let mut final_blocks: Vec<u8> = Vec::new();
        std::mem::swap(&mut final_blocks, &mut this.buffer);
        let ghost tail = final_blocks@;
        proof {
            let field = be_bytes(((n * 8) % 0x1_0000_0000_0000_0000) as u128, 8);
            assert(field == be_bytes(bit_len as u128, 8));
            assert(msg =~= msg.take(n - p) + rest);
            assert(sha256_pad(msg) =~= msg.take(n - p) + tail);
            lemma_md_pad_len(msg, 64, field);
            assert(tail.len() % 64 == 0) by {
                vstd::arithmetic::div_mod::lemma_mod_sub_multiples_vanish(
                    sha256_pad(msg).len() as int, 64);
                assert(sha256_pad(msg).len() == (n - p) + tail.len());
                vstd::arithmetic::div_mod::lemma_mod_add_multiples_vanish(tail.len() as int, 64);
                vstd::arithmetic::div_mod::lemma_fundamental_div_mod((n - p) as int, 64);
                vstd::arithmetic::div_mod::lemma_mod_multiples_vanish(((n - p) / 64) as int, tail.len() as int, 64);
            }
            lemma_fold_concat(
                |s: Seq<u32>, b: Seq<u8>| sha256_compress(s, b),
                SHA256_INITIAL@,
                msg.take(n - p),
                tail,
                64,
            );
        }
        let ghost h_start = this.hash@;
        let total = final_blocks.len();
        let nblocks = total / 64;
        for i in 0..nblocks
            invariant
                total == tail.len(),
                this.table@ == SHA256_K@,
                final_blocks@ == tail,
                nblocks == tail.len() / 64,
                tail.len() % 64 == 0,
                this.hash@ == sha256_fold(h_start, tail.take(64 * i)),
        {
            assert(64 * i + 64 <= total) by (nonlinear_arith)
                requires
                    i < nblocks,
                    nblocks == total / 64,
            ;
            let block = to_block64(&final_blocks.as_slice()[64 * i..64 * i + 64]);
            proof {
                assert(tail.take(64 * i + 64) =~= tail.take(64 * i) + block@);
                assert(tail.take(64 * i).len() % 64 == 0) by {
                    vstd::arithmetic::div_mod::lemma_mod_multiples_basic(i as int, 64);
                }
                lemma_fold_snoc(
                    |s: Seq<u32>, b: Seq<u8>| sha256_compress(s, b),
                    h_start,
                    tail.take(64 * i),
                    block@,
                    64,
                );
            }
            this.process_block_scalar(&block);
        }
        assert(tail.take(64 * nblocks) =~= tail) by {
            vstd::arithmetic::div_mod::lemma_fundamental_div_mod(tail.len() as int, 64);
        }
        this.hash
    }
}

impl Default for CCSha256 {
    fn default() -> (s: Self)
        ensures
            s.well_formed(),
            s@ == Seq::<u8>::empty(),
    {
        Self::new()
    }
}

/// The hexadecimal SHA-256 digest of `contents`: each of the eight words as
/// eight digits, most significant first.
pub fn digest_sha256_msg_mine(contents: &[u8]) -> (s: String)
    requires
        contents@.len() * 8 <= u64::MAX,
    ensures
        s@ == hex_encode(words32_be(sha256(contents@))),
{
    let mut hasher = CCSha256::new();
    hasher.update(contents);
    assert(hasher@ =~= contents@);
    let out = hasher.finalize();
    let bytes = words32_to_be_bytes(&out);
    hex_digest(bytes.as_slice())
}

impl HasherAlg for CCSha256 {
    type Output = [u32; 8];

    open spec fn absorbed(&self) -> Seq<u8> {
        self@
    }

    open spec fn inv(&self) -> bool {
        self.well_formed()
    }

    open spec fn len_limit() -> nat {
        u64::MAX as nat
    }

    open spec fn bit_limit() -> nat {
        u64::MAX as nat
    }

    open spec fn is_digest(msg: Seq<u8>, out: [u32; 8]) -> bool {
        out@ == sha256(msg)
    }

    open spec fn hex_digest_of(msg: Seq<u8>) -> Seq<char> {
        hex_encode(words32_be(sha256(msg)))
    }

    fn update(&mut self, input: &[u8]) {
        CCSha256::update(self, input);
    }

    fn finalize(&mut self) -> (out: [u32; 8]) {
        let mut done = CCSha256::new();
        std::mem::swap(self, &mut done);
        CCSha256::finalize(done)
    }

    fn dgst(contents: &[u8]) -> (s: String) {
        digest_sha256_msg_mine(contents)
    }
}

/// A SHA-256 digest is 8 words, rendered as 64 lower-case hexadecimal digits.
pub proof fn law_sha256_digest_len(msg: Seq<u8>)
    ensures
        sha256(msg).len() == 8,
        hex_encode(words32_be(sha256(msg))).len() == 64,
{
    lemma_fold_len(
        |s: Seq<u32>, b: Seq<u8>| sha256_compress(s, b),
        SHA256_INITIAL@,
        sha256_pad(msg),
        64,
        8,
    );
    lemma_words32_be_len(sha256(msg));
    lemma_hex_encode_len(words32_be(sha256(msg)));
}

impl CCSha256 {
    /// The invariant in terms of the public views: the table is SHA-256's,
    /// the pending bytes are the last `length mod 64` absorbed bytes, the
    /// counted length is the absorbed length, and the chaining value is the
    /// fold of every whole block before them.
    pub proof fn lemma_well_formed(&self)
        requires
            self.well_formed(),
        ensures
            self.has_table(),
            self.table() == SHA256_K@,
            self.length() == self@.len(),
            self.pending().len() == self@.len() % 64,
            self.pending() == self@.skip(self@.len() - self.pending().len()),
            (self@.len() - self.pending().len()) % 64 == 0,
            self.state() == sha256_fold(SHA256_INITIAL@, self@.take(self@.len() - self.pending().len())),
    {
        let n = self@.len();
        let p = self.pending().len();
        assert(n % 64 == p) by {
            vstd::arithmetic::div_mod::lemma_fundamental_div_mod((n - p) as int, 64);
            vstd::arithmetic::div_mod::lemma_mod_multiples_vanish(((n - p) / 64) as int, p as int, 64);
            vstd::arithmetic::div_mod::lemma_small_mod(p, 64);
        }
    }

    /// Two well-formed hashers that absorbed the same bytes agree on their
    /// chaining value, pending bytes and counted length; so absorbing `a`
    /// then `b` leaves the same hasher as absorbing `a + b` at once.
    pub proof fn law_same_absorbed_same_fields(s1: &Self, s2: &Self)
        requires
            s1.well_formed(),
            s2.well_formed(),
            s1@ == s2@,
        ensures
            s1.state() == s2.state(),
            s1.pending() == s2.pending(),
            s1.length() == s2.length(),
            s1.frame() == s2.frame(),
    {
        s1.lemma_well_formed();
        s2.lemma_well_formed();
    }
}

/// SHA-256 padding (FIPS 180-4, 5.1.1): the message, the byte `0x80`, fewer
/// than 64 zero bytes, and the message's full bit length as a 64-bit
/// big-endian number, for a whole number of 64-byte blocks.
pub proof fn law_sha256_padding(msg: Seq<u8>)
    requires
        msg.len() * 8 <= u64::MAX,
    ensures
        ({
            let p = sha256_pad(msg);
            &&& p.len() % 64 == 0
            &&& msg.len() + 9 <= p.len() < msg.len() + 73
            &&& p.take(msg.len() as int) == msg
            &&& p[msg.len() as int] == 0x80
            &&& forall|i: int| msg.len() < i < p.len() - 8 ==> #[trigger] p[i] == 0
            &&& be_u64_at(p, p.len() - 8) as int == msg.len() * 8
        }),
{
    let x = ((msg.len() * 8) % 0x1_0000_0000_0000_0000) as u128;
    let field = be_bytes(x, 8);
    let p = sha256_pad(msg);
    lemma_md_pad_shape(msg, 64, field);
    lemma_be_bytes8_read(x);
    let tail = p.subrange(p.len() - 8, p.len() as int);
    assert(tail == field);
    assert(be_u64_at(p, p.len() - 8) == be_u64_at(tail, 0));
}

} // verus!
