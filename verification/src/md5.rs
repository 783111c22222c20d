//! MD5 (RFC 1321): specification and incremental hasher.
use vstd::prelude::*;
use crate::blocks::{
    fold_blocks, lemma_fold_concat, lemma_fold_len, lemma_fold_snoc, lemma_md_pad_len,
    lemma_md_pad_shape, lemma_pad_zero_len_64, md_pad, pad_zero_len, to_block64,
};
use crate::hex::{
    hex_digest, hex_encode, lemma_hex_encode_len, lemma_words32_le_len, words32_le,
    words32_to_le_bytes,
};
use crate::words::{
    fm_spec, gm_spec, hm_spec, im_spec, le_bytes, lemma_le_bytes8_read, le_u32_at, load_le_u32, push_le_bytes,
    rotate_left32, Fm, Gm, Hm, Im,
};
use crate::HasherAlg;

verus! {

/// The MD5 sine table: entry `i` is the integer part of `2^32 * |sin(i + 1)|`.
pub const MD5_TABLE: [u32; 64] = [
    0xd76aa478, 0xe8c7b756, 0x242070db, 0xc1bdceee, 0xf57c0faf, 0x4787c62a, 0xa8304613, 0xfd469501,
    0x698098d8, 0x8b44f7af, 0xffff5bb1, 0x895cd7be, 0x6b901122, 0xfd987193, 0xa679438e, 0x49b40821,
    0xf61e2562, 0xc040b340, 0x265e5a51, 0xe9b6c7aa, 0xd62f105d, 0x02441453, 0xd8a1e681, 0xe7d3fbc8,
    0x21e1cde6, 0xc33707d6, 0xf4d50d87, 0x455a14ed, 0xa9e3e905, 0xfcefa3f8, 0x676f02d9, 0x8d2a4c8a,
    0xfffa3942, 0x8771f681, 0x6d9d6122, 0xfde5380c, 0xa4beea44, 0x4bdecfa9, 0xf6bb4b60, 0xbebfbc70,
    0x289b7ec6, 0xeaa127fa, 0xd4ef3085, 0x04881d05, 0xd9d4d039, 0xe6db99e5, 0x1fa27cf8, 0xc4ac5665,
    0xf4292244, 0x432aff97, 0xab9423a7, 0xfc93a039, 0x655b59c3, 0x8f0ccc92, 0xffeff47d, 0x85845dd1,
    0x6fa87e4f, 0xfe2ce6e0, 0xa3014314, 0x4e0811a1, 0xf7537e82, 0xbd3af235, 0x2ad7d2bb, 0xeb86d391,
];

/// The MD5 initial chaining value `A, B, C, D`.
pub const MD5_INITIAL: [u32; 4] = [0x67452301, 0xefcdab89, 0x98badcfe, 0x10325476];

/// Entry `j` of the message-word order `(start + j * shift) mod 16`.
pub open spec fn k_index(start: int, shift: int, j: int) -> int {
    (start + j * shift) % 16
}

/// The first message word of round `r` (0 to 3).
pub open spec fn md5_round_start(r: int) -> int {
    if r == 0 {
        0
    } else if r == 1 {
        1
    } else if r == 2 {
        5
    } else {
        0
    }
}

/// The stride through the message words in round `r`.
pub open spec fn md5_round_stride(r: int) -> int {
    if r == 0 {
        1
    } else if r == 1 {
        5
    } else if r == 2 {
        3
    } else {
        7
    }
}

/// The four rotation amounts of round `r`.
pub open spec fn md5_round_shifts(r: int) -> Seq<u32> {
    if r == 0 {
        seq![7u32, 12, 17, 22]
    } else if r == 1 {
        seq![5u32, 9, 14, 20]
    } else if r == 2 {
        seq![4u32, 11, 16, 23]
    } else {
        seq![6u32, 10, 15, 21]
    }
}

/// The mixing function of round `r`.
pub open spec fn md5_mix(r: int, b: u32, c: u32, d: u32) -> u32 {
    if r == 0 {
        fm_spec(b, c, d)
    } else if r == 1 {
        gm_spec(b, c, d)
    } else if r == 2 {
        hm_spec(b, c, d)
    } else {
        im_spec(b, c, d)
    }
}

/// One MD5 operation on `v = [a, b, c, d]`: `a` becomes
/// `b + ((a + f + x_k + t) <<< s)`, then the four words rotate one place.
pub open spec fn md5_op(v: Seq<u32>, f: u32, xk: u32, t: u32, s: u32) -> Seq<u32> {
    let sum = v[0].wrapping_add(f).wrapping_add(xk).wrapping_add(t);
    seq![v[3], v[1].wrapping_add(rotate_left32(sum, s)), v[1], v[2]]
}

/// Operation `i` (0 to 63) of the compression of message words `x`.
pub open spec fn md5_step(v: Seq<u32>, x: Seq<u32>, i: int) -> Seq<u32> {
    let r = i / 16;
    let j = i % 16;
    md5_op(
        v,
        md5_mix(r, v[1], v[2], v[3]),
        x[k_index(md5_round_start(r), md5_round_stride(r), j)],
        MD5_TABLE@[i],
        md5_round_shifts(r)[j % 4],
    )
}

/// The first `n` operations.
pub open spec fn md5_steps(v: Seq<u32>, x: Seq<u32>, n: nat) -> Seq<u32>
    decreases n,
{
    if n == 0 {
        v
    } else {
        md5_step(md5_steps(v, x, (n - 1) as nat), x, n - 1)
    }
}

/// The sixteen little-endian words of a 64-byte block.
pub open spec fn md5_words(block: Seq<u8>) -> Seq<u32> {
    Seq::new(16, |i: int| le_u32_at(block, 4 * i))
}

/// The compression function: 64 operations, then the feed-forward addition.
pub open spec fn md5_compress(h: Seq<u32>, block: Seq<u8>) -> Seq<u32> {
    let s = md5_steps(h, md5_words(block), 64);
    Seq::new(4, |i: int| h[i].wrapping_add(s[i]))
}

/// The chaining value after every whole 64-byte block of `data`.
pub open spec fn md5_fold(h: Seq<u32>, data: Seq<u8>) -> Seq<u32> {
    fold_blocks(|s: Seq<u32>, b: Seq<u8>| md5_compress(s, b), h, data, 64)
}

/// The padded message: `0x80`, zeros, and the bit length as 8 little-endian bytes.
pub open spec fn md5_pad(msg: Seq<u8>) -> Seq<u8> {
    md_pad(msg, 64, le_bytes(((msg.len() * 8) % 0x1_0000_0000_0000_0000) as u128, 8))
}

/// The MD5 digest of `msg`, as four words.
pub open spec fn md5(msg: Seq<u8>) -> Seq<u32> {
    md5_fold(MD5_INITIAL@, md5_pad(msg))
}

/// The first `n` operations of one round, with message-word order `kv`,
/// rotations `sv`, mixing function `g`, and table entries from `t[i0..]`.
pub open spec fn md5_round_ops(
    v: Seq<u32>,
    x: Seq<u32>,
    kv: Seq<usize>,
    sv: Seq<u32>,
    g: spec_fn(u32, u32, u32) -> u32,
    t: Seq<u32>,
    i0: int,
    n: nat,
) -> Seq<u32>
    decreases n,
{
    if n == 0 {
        v
    } else {
        let w = md5_round_ops(v, x, kv, sv, g, t, i0, (n - 1) as nat);
        md5_op(w, g(w[1], w[2], w[3]), x[kv[n - 1] as int], t[i0 + n - 1], sv[(n - 1) % 4])
    }
}

/// A round run with the parameters of round `r` is operations `16 r .. 16 r + n`.
proof fn lemma_round_is_steps(
    h: Seq<u32>,
    x: Seq<u32>,
    kv: Seq<usize>,
    sv: Seq<u32>,
    g: spec_fn(u32, u32, u32) -> u32,
    r: int,
    n: nat,
)
    requires
        0 <= r < 4,
        n <= 16,
        kv.len() == 16,
        forall|j: int|
            0 <= j < 16 ==> kv[j] as int == k_index(md5_round_start(r), md5_round_stride(r), j),
        sv == md5_round_shifts(r),
        forall|b: u32, c: u32, d: u32| #[trigger] g(b, c, d) == md5_mix(r, b, c, d),
    ensures
        md5_round_ops(md5_steps(h, x, (16 * r) as nat), x, kv, sv, g, MD5_TABLE@, 16 * r, n)
            == md5_steps(h, x, (16 * r + n) as nat),
    decreases n,
{
    if n > 0 {
        lemma_round_is_steps(h, x, kv, sv, g, r, (n - 1) as nat);
        let i = 16 * r + n - 1;
        assert(i / 16 == r && i % 16 == n - 1);
    }
}

/// The registers rotated one place: `[a, b, c, d]` becomes `[d, a, b, c]`.
pub open spec fn rotate_registers(v: Seq<u32>) -> Seq<u32> {
    seq![v[3], v[0], v[1], v[2]]
}

/// Four rotations of four registers give them back unchanged.
pub proof fn law_four_rotations(v: Seq<u32>)
    requires
        v.len() == 4,
    ensures
        rotate_registers(rotate_registers(rotate_registers(rotate_registers(v)))) == v,
{
    assert(rotate_registers(rotate_registers(rotate_registers(rotate_registers(v)))) =~= v);
}

/// The working registers of one block compression.
pub struct State {
    pub values: [u32; 4],
    pub i: usize,
}

/// An incremental MD5 hasher.
pub struct CCMd5 {
    hash: [u32; 4],
    table: [u32; 64],
    state: State,
    buffer: Vec<u8>,
    message_len: u64,
    absorbed: Ghost<Seq<u8>>,
}

/// The message-word order `(start + j * shift) mod 16` for `j` in `0..16`.
pub fn make_k_index(start: usize, shift: usize) -> (r: [usize; 16])
    requires
        start + 15 * shift <= usize::MAX,
    ensures
        forall|j: int| 0 <= j < 16 ==> r@[j] as int == k_index(start as int, shift as int, j),
{
    let mut buffer = [0usize; 16];
    let mut i: usize = 0;
    while i < 16
        invariant
            i <= 16,
            start + 15 * shift <= usize::MAX,
            forall|j: int| 0 <= j < i ==> buffer@[j] as int == k_index(start as int, shift as int, j),
        decreases 16 - i,
    {
        assert(i * shift <= 15 * shift) by (nonlinear_arith)
            requires
                i < 16,
        ;
        buffer[i] = (start + i * shift) % 16;
        i += 1;
    }
    buffer
}

impl View for CCMd5 {
    type V = Seq<u8>;

    /// The bytes absorbed so far.
    closed spec fn view(&self) -> Seq<u8> {
        self.absorbed@
    }
}

impl CCMd5 {
    /// The chaining value `A, B, C, D`.
    pub closed spec fn state(&self) -> Seq<u32> {
        self.hash@
    }

    /// The working registers.
    pub closed spec fn registers(&self) -> Seq<u32> {
        self.state.values@
    }

    /// The number of operations done on the current block.
    pub closed spec fn ops_done(&self) -> nat {
        self.state.i as nat
    }

    /// The bytes waiting for a whole block.
    pub closed spec fn pending(&self) -> Seq<u8> {
        self.buffer@
    }

    /// The message length the hasher counts, in bytes.
    pub closed spec fn length(&self) -> nat {
        self.message_len as nat
    }

    /// Table, pending bytes, length and absorbed bytes.
    pub closed spec fn frame(&self) -> (Seq<u32>, Seq<u8>, u64, Seq<u8>) {
        (self.table@, self.buffer@, self.message_len, self.absorbed@)
    }

    /// The sine table is MD5's.
    pub closed spec fn has_table(&self) -> bool {
        self.table@ == MD5_TABLE@
    }

    /// The constant table the hasher holds.
    pub closed spec fn table(&self) -> Seq<u32> {
        self.table@
    }

    /// `has_table` says that the table held is `MD5_TABLE`.
    pub proof fn lemma_has_table(&self)
        ensures
            self.has_table() <==> self.table() == MD5_TABLE@,
    {
    }

    /// The hasher's invariant: the chaining value is the fold of every whole
    /// block absorbed, and the pending bytes are the rest.
    pub closed spec fn well_formed(&self) -> bool {
        let n = self.absorbed@.len();
        let p = self.buffer@.len();
        &&& self.table@ == MD5_TABLE@
        &&& p < 64
        &&& p <= n
        &&& self.message_len == n
        &&& (n - p) % 64 == 0
        &&& self.buffer@ == self.absorbed@.skip(n - p)
        &&& self.hash@ == md5_fold(MD5_INITIAL@, self.absorbed@.take(n - p))
    }

    pub fn new() -> (s: Self)
        ensures
            s.well_formed(),
            s.has_table(),
            s@ == Seq::<u8>::empty(),
            s.state() == MD5_INITIAL@,
            s.registers() == s.state(),
            s.ops_done() == 0,
            s.pending() == Seq::<u8>::empty(),
    {
        let a: u32 = 0x67452301;
        let b: u32 = 0xefcdab89;
        let c: u32 = 0x98badcfe;
        let d: u32 = 0x10325476;
        let s = CCMd5 {
            hash: [a, b, c, d],
            table: MD5_TABLE,
            state: State { values: [a, b, c, d], i: 0 },
            buffer: Vec::new(),
            message_len: 0,
            absorbed: Ghost(Seq::empty()),
        };
        assert(s.hash@ =~= MD5_INITIAL@);
        assert(s.absorbed@.take(0) =~= Seq::<u8>::empty());
        assert(s.absorbed@.skip(0) =~= s.buffer@);
        s
    }

    /// Starts a block: the registers take the chaining value, no operation done.
    pub fn reset_state(&mut self)
        ensures
            final(self).registers() == old(self).state(),
            final(self).ops_done() == 0,
            final(self).state() == old(self).state(),
            final(self).frame() == old(self).frame(),
    {
        let new_state = State { values: self.hash, i: 0 };
        self.state = new_state;
    }

    /// Adds the registers into the chaining value, word by word, modulo 2^32.
    pub fn update_hash(&mut self)
        ensures
            final(self).state() == Seq::new(
                4,
                |i: int| old(self).state()[i].wrapping_add(old(self).registers()[i]),
            ),
            final(self).registers() == old(self).registers(),
            final(self).ops_done() == old(self).ops_done(),
            final(self).frame() == old(self).frame(),
    {
        let ghost h0 = self.hash@;
        for i in 0..4
            invariant
                forall|j: int|
                    0 <= j < i ==> self.hash@[j] == h0[j].wrapping_add(self.state.values@[j]),
                forall|j: int| i <= j < 4 ==> self.hash@[j] == h0[j],
                self.state.values == old(self).state.values,
                self.state.i == old(self).state.i,
                self.buffer@ == old(self).buffer@,
                self.absorbed == old(self).absorbed,
                self.table == old(self).table,
                self.message_len == old(self).message_len,
        {
            self.hash[i] = self.hash[i].wrapping_add(self.state.values[i]);
        }
        assert(self.hash@ =~= Seq::new(4, |i: int| h0[i].wrapping_add(old(self).state.values@[i])));
    }

    /// There are four registers.
    pub proof fn lemma_registers_len(&self)
        ensures
            self.registers().len() == 4,
    {
    }

    /// Rotates the registers one place: `[a, b, c, d]` becomes `[d, a, b, c]`.
    pub fn rot(&mut self)
        ensures
            old(self).registers().len() == 4,
            final(self).registers() == rotate_registers(old(self).registers()),
            final(self).ops_done() == old(self).ops_done(),
            final(self).state() == old(self).state(),
            final(self).frame() == old(self).frame(),
    {
        let tmp = self.state.values[3];
        self.state.values[3] = self.state.values[2];
        self.state.values[2] = self.state.values[1];
        self.state.values[1] = self.state.values[0];
        self.state.values[0] = tmp;
        assert(self.state.values@ =~= seq![
            old(self).state.values@[3],
            old(self).state.values@[0],
            old(self).state.values@[1],
            old(self).state.values@[2],
        ]);
    }

    /// The new `a` of one operation: `b + ((a + f(b, c, d) + x[k] + table[i]) <<< s)`,
    /// the rotation being by `s mod 32`.
    pub fn mixer<F: Fn(u32, u32, u32) -> u32>(
        state: &mut State,
        k: usize,
        s: u32,
        f: &F,
        x: &[u32; 16],
        table: &[u32; 64],
        Ghost(g): Ghost<spec_fn(u32, u32, u32) -> u32>,
    ) -> (r: u32)
        requires
            k < 16,
            old(state).i < 64,
            forall|b: u32, c: u32, d: u32| f.requires((b, c, d)),
            forall|b: u32, c: u32, d: u32, y: u32| f.ensures((b, c, d), y) ==> y == g(b, c, d),
        ensures
            r == md5_op(
                old(state).values@,
                g(old(state).values@[1], old(state).values@[2], old(state).values@[3]),
                x@[k as int],
                table@[old(state).i as int],
                s,
            )[1],
            *final(state) == *old(state),
    {
        let f_res = f(state.values[1], state.values[2], state.values[3]);
        let sum = state.values[0].wrapping_add(f_res).wrapping_add(x[k]).wrapping_add(table[state.i]);
        let n = s % 32;
        let rot = if n == 0 {
            sum
        } else {
            (sum << n) | (sum >> (32 - n))
        };
        state.values[1].wrapping_add(rot)
    }

    /// One operation: mixes into `a`, counts it, and rotates the registers.
    pub fn block<F: Fn(u32, u32, u32) -> u32>(
        &mut self,
        k: usize,
        s: u32,
        f: &F,
        x: &[u32; 16],
        Ghost(g): Ghost<spec_fn(u32, u32, u32) -> u32>,
    )
        requires
            k < 16,
            old(self).ops_done() < 64,
            old(self).has_table(),
            forall|b: u32, c: u32, d: u32| f.requires((b, c, d)),
            forall|b: u32, c: u32, d: u32, y: u32| f.ensures((b, c, d), y) ==> y == g(b, c, d),
        ensures
            final(self).registers() == md5_op(
                old(self).registers(),
                g(old(self).registers()[1], old(self).registers()[2], old(self).registers()[3]),
                x@[k as int],
                MD5_TABLE@[old(self).ops_done() as int],
                s,
            ),
            final(self).ops_done() == old(self).ops_done() + 1,
            final(self).state() == old(self).state(),
            final(self).frame() == old(self).frame(),
    {
        let v = Self::mixer(&mut self.state, k, s, f, x, &self.table, Ghost(g));
        self.state.values[0] = v;
        self.state.i += 1;
        self.rot();
    }

    /// Sixteen operations with message-word order `k_v`, rotations `s_v` and
    /// mixing function `f`.
    pub fn round<F: Fn(u32, u32, u32) -> u32>(
        &mut self,
        block: &[u32; 16],
        k_v: [usize; 16],
        s_v: [u32; 4],
        f: &F,
        Ghost(g): Ghost<spec_fn(u32, u32, u32) -> u32>,
    )
        requires
            old(self).ops_done() + 16 <= 64,
            old(self).has_table(),
            forall|j: int| 0 <= j < 16 ==> #[trigger] k_v@[j] < 16,
            forall|b: u32, c: u32, d: u32| f.requires((b, c, d)),
            forall|b: u32, c: u32, d: u32, y: u32| f.ensures((b, c, d), y) ==> y == g(b, c, d),
        ensures
            final(self).registers() == md5_round_ops(
                old(self).registers(),
                block@,
                k_v@,
                s_v@,
                g,
                MD5_TABLE@,
                old(self).ops_done() as int,
                16,
            ),
            final(self).ops_done() == old(self).ops_done() + 16,
            final(self).state() == old(self).state(),
            final(self).frame() == old(self).frame(),
    {
        let ghost v0 = self.state.values@;
        let ghost i0 = self.state.i as int;
        let ghost t = MD5_TABLE@;
        for i in 0..4
            invariant
                i0 == old(self).ops_done(),
                v0 == old(self).registers(),
                t == MD5_TABLE@,
                self.table@ == MD5_TABLE@,
                i0 + 16 <= 64,
                self.state.i == i0 + 4 * i,
                self.state.values@ == md5_round_ops(v0, block@, k_v@, s_v@, g, t, i0, (4 * i) as nat),
                self.hash == old(self).hash,
                self.frame() == old(self).frame(),
                forall|j: int| 0 <= j < 16 ==> #[trigger] k_v@[j] < 16,
                    forall|b: u32, c: u32, d: u32| f.requires((b, c, d)),
                forall|b: u32, c: u32, d: u32, y: u32| f.ensures((b, c, d), y) ==> y == g(b, c, d),
        {
            self.block(k_v[i * 4], s_v[0], f, block, Ghost(g));
            assert((4 * i) % 4 == 0);
            assert(self.state.values@ == md5_round_ops(v0, block@, k_v@, s_v@, g, t, i0, (4 * i + 1) as nat));
            self.block(k_v[i * 4 + 1], s_v[1], f, block, Ghost(g));
            assert((4 * i + 1) % 4 == 1);
            assert(self.state.values@ == md5_round_ops(v0, block@, k_v@, s_v@, g, t, i0, (4 * i + 2) as nat));
            self.block(k_v[i * 4 + 2], s_v[2], f, block, Ghost(g));
            assert((4 * i + 2) % 4 == 2);
            assert(self.state.values@ == md5_round_ops(v0, block@, k_v@, s_v@, g, t, i0, (4 * i + 3) as nat));
            self.block(k_v[i * 4 + 3], s_v[3], f, block, Ghost(g));
            assert((4 * i + 3) % 4 == 3);
            assert(self.state.values@ == md5_round_ops(v0, block@, k_v@, s_v@, g, t, i0, (4 * i + 4) as nat));
        }
    }

    /// Compresses one block into the chaining value: four rounds of sixteen operations.
    pub fn process_block(&mut self, content: &[u8; 64])
        requires
            old(self).has_table(),
        ensures
            final(self).state() == md5_compress(old(self).state(), content@),
            final(self).registers() == md5_steps(old(self).state(), md5_words(content@), 64),
            final(self).ops_done() == 64,
            final(self).frame() == old(self).frame(),
    {
        let mut buffer_msg = [0u32; 16];
        for i in 0..16
            invariant
                forall|j: int| 0 <= j < i ==> buffer_msg@[j] == le_u32_at(content@, 4 * j),
        {
            buffer_msg[i] = load_le_u32(content, 4 * i);
        }
        let ghost x = md5_words(content@);
        assert(buffer_msg@ =~= x);
        let ghost h = self.hash@;

        self.reset_state();

        // Round 1
        let ghost g1 = |b: u32, c: u32, d: u32| fm_spec(b, c, d);
        let k1 = make_k_index(0, 1);
        self.round(&buffer_msg, k1, [7, 12, 17, 22], &Fm, Ghost(g1));
        proof {
            assert([7u32, 12, 17, 22]@ =~= md5_round_shifts(0));
            lemma_round_is_steps(h, x, k1@, md5_round_shifts(0), g1, 0, 16);
        }

        // Round 2
        let ghost g2 = |b: u32, c: u32, d: u32| gm_spec(b, c, d);
        let k2 = make_k_index(1, 5);
        self.round(&buffer_msg, k2, [5, 9, 14, 20], &Gm, Ghost(g2));
        proof {
            assert([5u32, 9, 14, 20]@ =~= md5_round_shifts(1));
            lemma_round_is_steps(h, x, k2@, md5_round_shifts(1), g2, 1, 16);
        }

        // Round 3
        let ghost g3 = |b: u32, c: u32, d: u32| hm_spec(b, c, d);
        let k3 = make_k_index(5, 3);
        self.round(&buffer_msg, k3, [4, 11, 16, 23], &Hm, Ghost(g3));
        proof {
            assert([4u32, 11, 16, 23]@ =~= md5_round_shifts(2));
            lemma_round_is_steps(h, x, k3@, md5_round_shifts(2), g3, 2, 16);
        }

        // Round 4
        let ghost g4 = |b: u32, c: u32, d: u32| im_spec(b, c, d);
        let k4 = make_k_index(0, 7);
        self.round(&buffer_msg, k4, [6, 10, 15, 21], &Im, Ghost(g4));
        proof {
            assert([6u32, 10, 15, 21]@ =~= md5_round_shifts(3));
            lemma_round_is_steps(h, x, k4@, md5_round_shifts(3), g4, 3, 16);
        }

        self.update_hash();
        assert(self.hash@ =~= md5_compress(h, content@));
    }

    /// Absorbs `input`: whole blocks are compressed, the rest is kept.
    pub fn update(&mut self, input: &[u8])
        requires
            old(self).well_formed(),
            old(self)@.len() + input@.len() <= u64::MAX,
        ensures
            final(self).well_formed(),
            final(self)@ == old(self)@ + input@,
    {
        let ghost a0 = self.absorbed@;
        let ghost a1 = a0 + input@;
        self.message_len = self.message_len + input.len() as u64;
        self.absorbed = Ghost(a1);
        self.buffer.extend_from_slice(input);
        proof {
            let q = a0.len() - old(self).buffer@.len();
            assert(a1.take(q) =~= a0.take(q));
            assert(a1.skip(q) =~= self.buffer@);
        }

        while self.buffer.len() >= 64
            invariant
                self.table@ == MD5_TABLE@,
                self.absorbed@ == a1,
                self.message_len == a1.len(),
                self.buffer@.len() <= a1.len(),
                (a1.len() - self.buffer@.len()) % 64 == 0,
                self.buffer@ == a1.skip(a1.len() - self.buffer@.len()),
                self.hash@ == md5_fold(MD5_INITIAL@, a1.take(a1.len() - self.buffer@.len())),
            decreases self.buffer@.len(),
        {
            let ghost q = a1.len() - self.buffer@.len();
            let rest = self.buffer.split_off(64);
            let block = to_block64(self.buffer.as_slice());
            self.buffer = rest;
            proof {
                assert(a1.take(q + 64) =~= a1.take(q) + block@);
                assert(self.buffer@ =~= a1.skip(q + 64));
                lemma_fold_snoc(
                    |s: Seq<u32>, b: Seq<u8>| md5_compress(s, b),
                    MD5_INITIAL@,
                    a1.take(q),
                    block@,
                    64,
                );
            }
            self.process_block(&block);
        }
    }

    /// Pads the message, compresses the last blocks, and returns the digest.
    pub fn finalize(self) -> (digest: [u32; 4])
        requires
            self.well_formed(),
            self@.len() * 8 <= u64::MAX,
        ensures
            digest@ == md5(self@),
    {
        let mut this = self;
        let ghost msg = this.absorbed@;
        let ghost n = msg.len();
        let ghost p = this.buffer@.len();
        let ghost rest = this.buffer@;
        let ghost k = pad_zero_len(n, 64, 8);
        let bit_len = this.message_len * 8;

        this.buffer.push(0x80);
        proof {
            assert(n % 64 == p) by {
                vstd::arithmetic::div_mod::lemma_mod_add_multiples_vanish(p as int, 64);
                vstd::arithmetic::div_mod::lemma_small_mod(p, 64);
                assert(n == (n - p) + p);
                vstd::arithmetic::div_mod::lemma_fundamental_div_mod((n - p) as int, 64);
                vstd::arithmetic::div_mod::lemma_mod_multiples_vanish(((n - p) / 64) as int, p as int, 64);
            }
            lemma_pad_zero_len_64(n, 0);
            assert(this.buffer@ =~= rest + seq![0x80u8] + Seq::new(0, |i: int| 0u8));
        }
        let ghost mut j: nat = 0;
        while this.buffer.len() % 64 != 56
            invariant
                this.hash@ == md5_fold(MD5_INITIAL@, msg.take(n - p)),
                this.table@ == MD5_TABLE@,
                n % 64 == p,
                p < 64,
                k == pad_zero_len(n, 64, 8),
                j <= k,
                this.buffer@ == rest + seq![0x80u8] + Seq::new(j, |i: int| 0u8),
                rest.len() == p,
            decreases k - j,
        {
            proof {
                lemma_pad_zero_len_64(n, j);
            }
            this.buffer.push(0);
            proof {
                j = j + 1;
                assert(this.buffer@ =~= rest + seq![0x80u8] + Seq::new(j, |i: int| 0u8));
            }
        }
        proof {
            lemma_pad_zero_len_64(n, j);
        }
        push_le_bytes(&mut this.buffer, bit_len as u128, 8);

        let mut final_blocks: Vec<u8> = Vec::new();
        std::mem::swap(&mut final_blocks, &mut this.buffer);
        let ghost tail = final_blocks@;
        proof {
            let field = le_bytes(((n * 8) % 0x1_0000_0000_0000_0000) as u128, 8);
            assert(field == le_bytes(bit_len as u128, 8));
            assert(msg =~= msg.take(n - p) + rest);
            assert(md5_pad(msg) =~= msg.take(n - p) + tail);
            lemma_md_pad_len(msg, 64, field);
            assert(tail.len() % 64 == 0) by {
                vstd::arithmetic::div_mod::lemma_mod_sub_multiples_vanish(
                    md5_pad(msg).len() as int, 64);
                assert(md5_pad(msg).len() == (n - p) + tail.len());
                vstd::arithmetic::div_mod::lemma_mod_add_multiples_vanish(tail.len() as int, 64);
                vstd::arithmetic::div_mod::lemma_fundamental_div_mod((n - p) as int, 64);
                vstd::arithmetic::div_mod::lemma_mod_multiples_vanish(((n - p) / 64) as int, tail.len() as int, 64);
            }
            lemma_fold_concat(
                |s: Seq<u32>, b: Seq<u8>| md5_compress(s, b),
                MD5_INITIAL@,
                msg.take(n - p),
                tail,
                64,
            );
        }
        let ghost h_start = this.hash@;
        let total = final_blocks.len();
        let nblocks = total / 64;
        for i in 0..nblocks
            invariant
                total == tail.len(),
                this.table@ == MD5_TABLE@,
                final_blocks@ == tail,
                nblocks == tail.len() / 64,
                tail.len() % 64 == 0,
                this.hash@ == md5_fold(h_start, tail.take(64 * i)),
        {
            assert(64 * i + 64 <= total) by (nonlinear_arith)
                requires
                    i < nblocks,
                    nblocks == total / 64,
            ;
            let block = to_block64(&final_blocks.as_slice()[64 * i..64 * i + 64]);
            proof {
                assert(tail.take(64 * i + 64) =~= tail.take(64 * i) + block@);
                assert(tail.take(64 * i).len() % 64 == 0) by {
                    vstd::arithmetic::div_mod::lemma_mod_multiples_basic(i as int, 64);
                }
                lemma_fold_snoc(
                    |s: Seq<u32>, b: Seq<u8>| md5_compress(s, b),
                    h_start,
                    tail.take(64 * i),
                    block@,
                    64,
                );
            }
            this.process_block(&block);
        }
        assert(tail.take(64 * nblocks) =~= tail) by {
            vstd::arithmetic::div_mod::lemma_fundamental_div_mod(tail.len() as int, 64);
        }
        this.hash
    }
}

/// The hexadecimal MD5 digest of `contents`: the four chaining words, each
/// written as its little-endian bytes.
pub fn digest_msg_mine(contents: &[u8]) -> (s: String)
    requires
        contents@.len() * 8 <= u64::MAX,
    ensures
        s@ == hex_encode(words32_le(md5(contents@))),
{
    let mut hasher = CCMd5::new();
    hasher.update(contents);
    assert(hasher@ =~= contents@);
    let out = hasher.finalize();
    let bytes = words32_to_le_bytes(&out);
    hex_digest(bytes.as_slice())
}

impl HasherAlg for CCMd5 {
    type Output = [u32; 4];

    open spec fn absorbed(&self) -> Seq<u8> {
        self@
    }

    open spec fn inv(&self) -> bool {
        self.well_formed()
    }

    open spec fn len_limit() -> nat {
        u64::MAX as nat
    }

    open spec fn bit_limit() -> nat {
        u64::MAX as nat
    }

    open spec fn is_digest(msg: Seq<u8>, out: [u32; 4]) -> bool {
        out@ == md5(msg)
    }

    open spec fn hex_digest_of(msg: Seq<u8>) -> Seq<char> {
        hex_encode(words32_le(md5(msg)))
    }

    fn update(&mut self, input: &[u8]) {
        CCMd5::update(self, input);
    }

    fn finalize(&mut self) -> (out: [u32; 4]) {
        let mut done = CCMd5::new();
        std::mem::swap(self, &mut done);
        CCMd5::finalize(done)
    }

    fn dgst(contents: &[u8]) -> (s: String) {
        digest_msg_mine(contents)
    }
}

/// A MD5 digest is 4 words, rendered as 32 lower-case hexadecimal digits.
pub proof fn law_md5_digest_len(msg: Seq<u8>)
    ensures
        md5(msg).len() == 4,
        hex_encode(words32_le(md5(msg))).len() == 32,
{
    lemma_fold_len(
        |s: Seq<u32>, b: Seq<u8>| md5_compress(s, b),
        MD5_INITIAL@,
        md5_pad(msg),
        64,
        4,
    );
    lemma_words32_le_len(md5(msg));
    lemma_hex_encode_len(words32_le(md5(msg)));
}

impl CCMd5 {
    /// The invariant in terms of the public views: the table is MD5's,
    /// the pending bytes are the last `length mod 64` absorbed bytes, the
    /// counted length is the absorbed length, and the chaining value is the
    /// fold of every whole block before them.
    pub proof fn lemma_well_formed(&self)
        requires
            self.well_formed(),
        ensures
            self.has_table(),
            self.table() == MD5_TABLE@,
            self.registers().len() == 4,
            self.length() == self@.len(),
            self.pending().len() == self@.len() % 64,
            self.pending() == self@.skip(self@.len() - self.pending().len()),
            (self@.len() - self.pending().len()) % 64 == 0,
            self.state() == md5_fold(MD5_INITIAL@, self@.take(self@.len() - self.pending().len())),
    {
        let n = self@.len();
        let p = self.pending().len();
        assert(n % 64 == p) by {
            vstd::arithmetic::div_mod::lemma_fundamental_div_mod((n - p) as int, 64);
            vstd::arithmetic::div_mod::lemma_mod_multiples_vanish(((n - p) / 64) as int, p as int, 64);
            vstd::arithmetic::div_mod::lemma_small_mod(p, 64);
        }
    }

    /// Two well-formed hashers that absorbed the same bytes agree on their
    /// chaining value, pending bytes and counted length; so absorbing `a`
    /// then `b` leaves the same hasher as absorbing `a + b` at once.
    pub proof fn law_same_absorbed_same_fields(s1: &Self, s2: &Self)
        requires
            s1.well_formed(),
            s2.well_formed(),
            s1@ == s2@,
        ensures
            s1.state() == s2.state(),
            s1.pending() == s2.pending(),
            s1.length() == s2.length(),
            s1.frame() == s2.frame(),
    {
        s1.lemma_well_formed();
        s2.lemma_well_formed();
    }
}

/// MD5 padding (RFC 1321, 3.1 and 3.2): the message, the byte `0x80`, fewer
/// than 64 zero bytes, and the message's full bit length as a 64-bit
/// little-endian number (low word first), for a whole number of 64-byte blocks.
pub proof fn law_md5_padding(msg: Seq<u8>)
    requires
        msg.len() * 8 <= u64::MAX,
    ensures
        ({
            let p = md5_pad(msg);
            &&& p.len() % 64 == 0
            &&& msg.len() + 9 <= p.len() < msg.len() + 73
            &&& p.take(msg.len() as int) == msg
            &&& p[msg.len() as int] == 0x80
            &&& forall|i: int| msg.len() < i < p.len() - 8 ==> #[trigger] p[i] == 0
            &&& le_u32_at(p, p.len() - 8) as int + le_u32_at(p, p.len() - 4) as int * 0x1_0000_0000
                == msg.len() * 8
        }),
{
    let x = ((msg.len() * 8) % 0x1_0000_0000_0000_0000) as u128;
    let field = le_bytes(x, 8);
    let p = md5_pad(msg);
    lemma_md_pad_shape(msg, 64, field);
    lemma_le_bytes8_read(x);
    let tail = p.subrange(p.len() - 8, p.len() as int);
    assert(tail == field);
    assert(le_u32_at(p, p.len() - 8) == le_u32_at(tail, 0));
    assert(le_u32_at(p, p.len() - 4) == le_u32_at(tail, 4));
}

/// Each MD5 round reads every one of the sixteen message words exactly once:
/// the round's message-word order is a permutation of `0..16`.
pub proof fn law_md5_rounds_read_every_word(r: int)
    requires
        0 <= r < 4,
    ensures
        forall|j: int|
            0 <= j < 16 ==> 0 <= #[trigger] k_index(md5_round_start(r), md5_round_stride(r), j) < 16,
        forall|j1: int, j2: int|
            0 <= j1 < j2 < 16 ==> #[trigger] k_index(md5_round_start(r), md5_round_stride(r), j1)
                != #[trigger] k_index(md5_round_start(r), md5_round_stride(r), j2),
{
    let s = md5_round_start(r);
    let d = md5_round_stride(r);
    assert forall|j1: int, j2: int| 0 <= j1 < j2 < 16 implies #[trigger] k_index(s, d, j1)
        != #[trigger] k_index(s, d, j2) by {
        if r == 0 {
            assert((0 + j1 * 1) % 16 != (0 + j2 * 1) % 16);
        } else if r == 1 {
            assert((1 + j1 * 5) % 16 != (1 + j2 * 5) % 16) by (nonlinear_arith)
                requires
                    0 <= j1 < j2 < 16,
            ;
        } else if r == 2 {
            assert((5 + j1 * 3) % 16 != (5 + j2 * 3) % 16) by (nonlinear_arith)
                requires
                    0 <= j1 < j2 < 16,
            ;
        } else {
            assert((0 + j1 * 7) % 16 != (0 + j2 * 7) % 16) by (nonlinear_arith)
                requires
                    0 <= j1 < j2 < 16,
            ;
        }
    }
}

} // verus!
