//! SHA-256 compression organised four rounds at a time, with the message
//! schedule computed four words at a time from a sliding window of sixteen.
use vstd::prelude::*;
use crate::sha256::{
    sha256_compress, sha256_kws, sha256_schedule, sha256_step, sha256_steps, sha256_w, SHA256_K,
};
use crate::words::{be_u32_at, load_be_u32, ssig0_32, ssig1_32, Word};

verus! {

/// Four rounds with addends `wk[0..4]`.
pub open spec fn sha256_steps4(s: Seq<u32>, wk: Seq<u32>) -> Seq<u32> {
    sha256_step(sha256_step(sha256_step(sha256_step(s, wk[0]), wk[1]), wk[2]), wk[3])
}

/// The next four schedule words computed from the previous sixteen,
/// `m0 ++ m1 ++ m2 ++ m3`.
pub open spec fn sha256_schedule4(m0: Seq<u32>, m1: Seq<u32>, m2: Seq<u32>, m3: Seq<u32>) -> Seq<
    u32,
> {
    let w0 = ssig1_32(m3[2]).wrapping_add(m2[1]).wrapping_add(ssig0_32(m0[1])).wrapping_add(m0[0]);
    let w1 = ssig1_32(m3[3]).wrapping_add(m2[2]).wrapping_add(ssig0_32(m0[2])).wrapping_add(m0[1]);
    let w2 = ssig1_32(w0).wrapping_add(m2[3]).wrapping_add(ssig0_32(m0[3])).wrapping_add(m0[2]);
    let w3 = ssig1_32(w1).wrapping_add(m3[0]).wrapping_add(ssig0_32(m1[0])).wrapping_add(m0[3]);
    seq![w0, w1, w2, w3]
}

/// Lane-wise addition modulo 2^32.
pub fn add4(a: [u32; 4], b: [u32; 4]) -> (r: [u32; 4])
    ensures
        r@ == Seq::new(4, |i: int| a@[i].wrapping_add(b@[i])),
{
    let r = [
        a[0].wrapping_add(b[0]),
        a[1].wrapping_add(b[1]),
        a[2].wrapping_add(b[2]),
        a[3].wrapping_add(b[3]),
    ];
    assert(r@ =~= Seq::new(4, |i: int| a@[i].wrapping_add(b@[i])));
    r
}

/// The four big-endian words at `content[offset..offset + 16]`.
pub fn load_be_u32x4(content: &[u8; 64], offset: usize) -> (r: [u32; 4])
    requires
        offset + 16 <= 64,
    ensures
        r@ == Seq::new(4, |j: int| be_u32_at(content@, offset + 4 * j)),
{
    let w0 = load_be_u32(content, offset);
    let w1 = load_be_u32(content, offset + 4);
    let w2 = load_be_u32(content, offset + 8);
    let w3 = load_be_u32(content, offset + 12);
    let r = [w0, w1, w2, w3];
    assert(r@ =~= Seq::new(4, |j: int| be_u32_at(content@, offset + 4 * j)));
    r
}

/// The four table entries `table[t..t + 4]`.
pub fn load_k4_at(table: &[u32; 64], t: usize) -> (r: [u32; 4])
    requires
        t + 4 <= 64,
    ensures
        r@ == table@.subrange(t as int, t + 4),
{
    let r = [table[t], table[t + 1], table[t + 2], table[t + 3]];
    assert(r@ =~= table@.subrange(t as int, t + 4));
    r
}

/// The next four schedule words from the window `m0 ++ m1 ++ m2 ++ m3`.
pub fn message_schedule_batch(m0: &[u32; 4], m1: &[u32; 4], m2: &[u32; 4], m3: &[u32; 4]) -> (r:
    [u32; 4])
    ensures
        r@ == sha256_schedule4(m0@, m1@, m2@, m3@),
{
    let m4_0 = u32::ssig1(m3[2]).wrapping_add(m2[1]).wrapping_add(u32::ssig0(m0[1])).wrapping_add(
        m0[0],
    );
    let m4_1 = u32::ssig1(m3[3]).wrapping_add(m2[2]).wrapping_add(u32::ssig0(m0[2])).wrapping_add(
        m0[1],
    );
    let m4_2 = u32::ssig1(m4_0).wrapping_add(m2[3]).wrapping_add(u32::ssig0(m0[3])).wrapping_add(
        m0[2],
    );
    let m4_3 = u32::ssig1(m4_1).wrapping_add(m3[0]).wrapping_add(u32::ssig0(m1[0])).wrapping_add(
        m0[3],
    );
    let r = [m4_0, m4_1, m4_2, m4_3];
    assert(r@ =~= sha256_schedule4(m0@, m1@, m2@, m3@));
    r
}

/// Four compression rounds on `upper = a..d`, `lower = e..h`, with addends `wk`.
pub fn rounds4(upper: &mut [u32; 4], lower: &mut [u32; 4], wk: &[u32; 4])
    ensures
        final(upper)@ + final(lower)@ == sha256_steps4(old(upper)@ + old(lower)@, wk@),
{
    let ghost s0 = upper@ + lower@;
    let mut a = upper[0];
    let mut b = upper[1];
    let mut c = upper[2];
    let mut d = upper[3];
    let mut e = lower[0];
    let mut f = lower[1];
    let mut g = lower[2];
    let mut h = lower[3];
    let ghost mut states: Seq<Seq<u32>> = seq![seq![a, b, c, d, e, f, g, h]];
    assert(states[0] =~= s0);
    for i in 0..4
        invariant
            states.len() == i + 1,
            states[0] == s0,
            forall|j: int| 1 <= j <= i ==> #[trigger] states[j] == sha256_step(states[j - 1], wk@[j - 1]),
            states[i as int] == seq![a, b, c, d, e, f, g, h],
    {
        let ghost s = seq![a, b, c, d, e, f, g, h];
        let t1 = h.wrapping_add(u32::bsig1(e)).wrapping_add(u32::ch(e, f, g)).wrapping_add(wk[i]);
        let t2 = u32::bsig0(a).wrapping_add(u32::maj(a, b, c));
        h = g;
        g = f;
        f = e;
        e = d.wrapping_add(t1);
        d = c;
        c = b;
        b = a;
        a = t1.wrapping_add(t2);
        proof {
            assert(seq![a, b, c, d, e, f, g, h] =~= sha256_step(s, wk@[i as int]));
            states = states.push(seq![a, b, c, d, e, f, g, h]);
        }
    }
    upper[0] = a;
    upper[1] = b;
    upper[2] = c;
    upper[3] = d;
    lower[0] = e;
    lower[1] = f;
    lower[2] = g;
    lower[3] = h;
    assert(states[1] == sha256_step(states[0], wk@[0]));
    assert(states[2] == sha256_step(states[1], wk@[1]));
    assert(states[3] == sha256_step(states[2], wk@[2]));
    assert(states[4] == sha256_step(states[3], wk@[3]));
    assert(upper@ + lower@ =~= states[4]);
}

/// Four more rounds of the real schedule extend `n` rounds to `n + 4`.
pub proof fn lemma_steps_plus4(h0: Seq<u32>, kws: Seq<u32>, n: nat, wk: Seq<u32>)
    requires
        n + 4 <= kws.len(),
        wk.len() == 4,
        forall|j: int| 0 <= j < 4 ==> wk[j] == kws[n + j],
    ensures
        sha256_steps(h0, kws, n + 4) == sha256_steps4(sha256_steps(h0, kws, n), wk),
{
    assert(sha256_steps(h0, kws, n + 1) == sha256_step(sha256_steps(h0, kws, n), wk[0]));
    assert(sha256_steps(h0, kws, n + 2) == sha256_step(sha256_steps(h0, kws, n + 1), wk[1]));
    assert(sha256_steps(h0, kws, n + 3) == sha256_step(sha256_steps(h0, kws, n + 2), wk[2]));
    assert(sha256_steps(h0, kws, n + 4) == sha256_step(sha256_steps(h0, kws, n + 3), wk[3]));
}

/// Sliding the window: from schedule words `t - 16 .. t`, the next four
/// computed are schedule words `t .. t + 4`.
pub proof fn law_schedule_window(block: Seq<u8>, t: nat, m0: Seq<u32>, m1: Seq<u32>, m2: Seq<u32>, m3: Seq<u32>)
    requires
        16 <= t,
        t + 4 <= 64,
        m0.len() == 4 && m1.len() == 4 && m2.len() == 4 && m3.len() == 4,
        forall|j: int| 0 <= j < 4 ==> m0[j] == sha256_w(block, (t - 16 + j) as nat),
        forall|j: int| 0 <= j < 4 ==> m1[j] == sha256_w(block, (t - 12 + j) as nat),
        forall|j: int| 0 <= j < 4 ==> m2[j] == sha256_w(block, (t - 8 + j) as nat),
        forall|j: int| 0 <= j < 4 ==> m3[j] == sha256_w(block, (t - 4 + j) as nat),
    ensures
        forall|j: int|
            0 <= j < 4 ==> sha256_schedule4(m0, m1, m2, m3)[j] == sha256_w(block, (t + j) as nat),
{
    let r = sha256_schedule4(m0, m1, m2, m3);
    assert(m3[2] == sha256_w(block, (t - 2) as nat));
    assert(m2[1] == sha256_w(block, (t - 7) as nat));
    assert(m0[1] == sha256_w(block, (t - 15) as nat));
    assert(m0[0] == sha256_w(block, (t - 16) as nat));
    assert(r[0] == sha256_w(block, t));
    assert(m3[3] == sha256_w(block, (t - 1) as nat));
    assert(m2[2] == sha256_w(block, (t - 6) as nat));
    assert(m0[2] == sha256_w(block, (t - 14) as nat));
    assert(r[1] == sha256_w(block, t + 1));
    assert(m2[3] == sha256_w(block, (t - 5) as nat));
    assert(m0[3] == sha256_w(block, (t - 13) as nat));
    assert(r[2] == sha256_w(block, t + 2));
    assert(m3[0] == sha256_w(block, (t - 4) as nat));
    assert(m1[0] == sha256_w(block, (t - 12) as nat));
    assert(r[3] == sha256_w(block, t + 3));
}

/// Compresses one block into `hash`, four rounds at a time.
#[verifier::rlimit(40)]
pub fn process(hash: &mut [u32; 8], table: &[u32; 64], content: &[u8; 64])
    requires
        table@ == SHA256_K@,
    ensures
        final(hash)@ == sha256_compress(old(hash)@, content@),
{
    let ghost h0 = hash@;
    let ghost kws = sha256_kws(content@);
    let ghost sched = sha256_schedule(content@);
    let a_init: [u32; 4] = [hash[0], hash[1], hash[2], hash[3]];
    let b_init: [u32; 4] = [hash[4], hash[5], hash[6], hash[7]];
    assert(a_init@ + b_init@ =~= h0);
    let mut upper: [u32; 4] = a_init;
    let mut lower: [u32; 4] = b_init;

    let mut m0 = load_be_u32x4(content, 0);
    let mut m1 = load_be_u32x4(content, 16);
    let mut m2 = load_be_u32x4(content, 32);
    let mut m3 = load_be_u32x4(content, 48);

    let wk = add4(m0, load_k4_at(table, 0));
    rounds4(&mut upper, &mut lower, &wk);
    proof { lemma_steps_plus4(h0, kws, 0, wk@); }
    let wk = add4(m1, load_k4_at(table, 4));
    rounds4(&mut upper, &mut lower, &wk);
    proof { lemma_steps_plus4(h0, kws, 4, wk@); }
    let wk = add4(m2, load_k4_at(table, 8));
    rounds4(&mut upper, &mut lower, &wk);
    proof { lemma_steps_plus4(h0, kws, 8, wk@); }
    let wk = add4(m3, load_k4_at(table, 12));
    rounds4(&mut upper, &mut lower, &wk);
    proof { lemma_steps_plus4(h0, kws, 12, wk@); }

    for block in 0usize..12
        invariant
            table@ == SHA256_K@,
            kws == sha256_kws(content@),
            upper@ + lower@ == sha256_steps(h0, kws, (16 + 4 * block) as nat),
            forall|j: int| 0 <= j < 4 ==> m0@[j] == sha256_w(content@, (4 * block + j) as nat),
            forall|j: int| 0 <= j < 4 ==> m1@[j] == sha256_w(content@, (4 * block + 4 + j) as nat),
            forall|j: int| 0 <= j < 4 ==> m2@[j] == sha256_w(content@, (4 * block + 8 + j) as nat),
            forall|j: int| 0 <= j < 4 ==> m3@[j] == sha256_w(content@, (4 * block + 12 + j) as nat),
    {
        let next = message_schedule_batch(&m0, &m1, &m2, &m3);
        proof {
            law_schedule_window(content@, (4 * block + 16) as nat, m0@, m1@, m2@, m3@);
        }
        let kt = load_k4_at(table, 4 * block + 16);
        let k = add4(next, kt);
        rounds4(&mut upper, &mut lower, &k);
        proof {
            lemma_steps_plus4(h0, kws, (16 + 4 * block) as nat, k@);
        }
        m0 = m1;
        m1 = m2;
        m2 = m3;
        m3 = next;
    }

    let a = add4(upper, a_init);
    let b = add4(lower, b_init);
    hash[0] = a[0];
    hash[1] = a[1];
    hash[2] = a[2];
    hash[3] = a[3];
    hash[4] = b[0];
    hash[5] = b[1];
    hash[6] = b[2];
    hash[7] = b[3];
    assert(hash@ =~= sha256_compress(h0, content@));
}

/// `j` batches of four rounds, batch `i` with addends `kws[4 i .. 4 i + 4]`.
pub open spec fn sha256_batches(s: Seq<u32>, kws: Seq<u32>, j: nat) -> Seq<u32>
    decreases j,
{
    if j == 0 {
        s
    } else {
        sha256_steps4(sha256_batches(s, kws, (j - 1) as nat), kws.subrange(4 * (j - 1), 4 * j as int))
    }
}

/// `j` batches of four rounds are the first `4 j` rounds.
pub proof fn lemma_batches_are_steps(s: Seq<u32>, kws: Seq<u32>, j: nat)
    requires
        4 * j <= kws.len(),
    ensures
        sha256_batches(s, kws, j) == sha256_steps(s, kws, 4 * j),
    decreases j,
{
    if j > 0 {
        lemma_batches_are_steps(s, kws, (j - 1) as nat);
        let n = (4 * (j - 1)) as nat;
        lemma_steps_plus4(s, kws, n, kws.subrange(4 * (j - 1), 4 * j as int));
    }
}

/// Sixteen batches of four rounds (`rounds4` sixteen times, with the block's
/// schedule words plus round constants, four at a time), followed by the
/// feed-forward addition, are the compression function.
pub proof fn law_rounds4_compose(h: Seq<u32>, block: Seq<u8>)
    ensures
        Seq::new(8, |i: int| h[i].wrapping_add(sha256_batches(h, sha256_kws(block), 16)[i]))
            == sha256_compress(h, block),
{
    lemma_batches_are_steps(h, sha256_kws(block), 16);
    assert(Seq::new(8, |i: int| h[i].wrapping_add(sha256_batches(h, sha256_kws(block), 16)[i]))
        =~= sha256_compress(h, block));
}

} // verus!
