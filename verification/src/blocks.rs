//! Block iteration and Merkle–Damgård padding, shared by MD5 and SHA-2.
use vstd::prelude::*;

verus! {

/// Feeds each whole `bs`-byte block of `data` to `compress`, in order,
/// starting from `state`; a trailing partial block is ignored.
pub open spec fn fold_blocks<S>(
    compress: spec_fn(S, Seq<u8>) -> S,
    state: S,
    data: Seq<u8>,
    bs: nat,
) -> S
    decreases data.len(),
{
    if bs == 0 || data.len() < bs {
        state
    } else {
        fold_blocks(compress, compress(state, data.take(bs as int)), data.skip(bs as int), bs)
    }
}

/// Folding over `a + b`, where `a` is whole blocks, folds `a` and then `b`.
pub proof fn lemma_fold_concat<S>(
    compress: spec_fn(S, Seq<u8>) -> S,
    state: S,
    a: Seq<u8>,
    b: Seq<u8>,
    bs: nat,
)
    requires
        bs > 0,
        a.len() % bs == 0,
    ensures
        fold_blocks(compress, state, a + b, bs) == fold_blocks(
            compress,
            fold_blocks(compress, state, a, bs),
            b,
            bs,
        ),
    decreases a.len(),
{
    if a.len() == 0 {
        assert(a + b =~= b);
    } else {
        assert(a.len() >= bs) by {
            vstd::arithmetic::div_mod::lemma_mod_self_0(bs as int);
            if a.len() < bs {
                vstd::arithmetic::div_mod::lemma_small_mod(a.len(), bs);
            }
        }
        let s1 = compress(state, a.take(bs as int));
        assert((a + b).take(bs as int) =~= a.take(bs as int));
        assert((a + b).skip(bs as int) =~= a.skip(bs as int) + b);
        assert(a.skip(bs as int).len() % bs == 0) by {
            vstd::arithmetic::div_mod::lemma_mod_sub_multiples_vanish(a.len() as int, bs as int);
        }
        lemma_fold_concat(compress, s1, a.skip(bs as int), b, bs);
    }
}

/// Folding over whole blocks followed by one more block applies `compress` once more.
pub proof fn lemma_fold_snoc<S>(
    compress: spec_fn(S, Seq<u8>) -> S,
    state: S,
    a: Seq<u8>,
    blk: Seq<u8>,
    bs: nat,
)
    requires
        bs > 0,
        a.len() % bs == 0,
        blk.len() == bs,
    ensures
        fold_blocks(compress, state, a + blk, bs) == compress(
            fold_blocks(compress, state, a, bs),
            blk,
        ),
{
    lemma_fold_concat(compress, state, a, blk, bs);
    let s = fold_blocks(compress, state, a, bs);
    assert(blk.take(bs as int) =~= blk);
    assert(blk.skip(bs as int).len() == 0);
    assert(fold_blocks(compress, compress(s, blk), blk.skip(bs as int), bs) == compress(s, blk));
}

/// The number of zero bytes that padding puts between the `0x80` marker and
/// the length field, so that the padded length is a multiple of `bs`.
pub open spec fn pad_zero_len(len: nat, bs: nat, field_len: nat) -> nat {
    ((2 * bs - field_len - 1 - len % bs) % (bs as int)) as nat
}

/// Merkle–Damgård padding: the message, the byte `0x80`, zero bytes, and the
/// encoded length field, to a multiple of `bs` bytes.
pub open spec fn md_pad(msg: Seq<u8>, bs: nat, len_field: Seq<u8>) -> Seq<u8> {
    msg + seq![0x80u8] + Seq::new(pad_zero_len(msg.len(), bs, len_field.len()), |i: int| 0u8)
        + len_field
}

/// The padded message is whole blocks.
pub proof fn lemma_md_pad_len(msg: Seq<u8>, bs: nat, len_field: Seq<u8>)
    requires
        len_field.len() + 1 <= bs,
    ensures
        md_pad(msg, bs, len_field).len() % bs == 0,
        md_pad(msg, bs, len_field).len() >= msg.len() + 1 + len_field.len(),
{
    let r = msg.len() % bs;
    let f = len_field.len();
    let k = pad_zero_len(msg.len(), bs, f);
    assert(0 <= r < bs) by {
        vstd::arithmetic::div_mod::lemma_mod_bound(msg.len() as int, bs as int);
    }
    assert(msg.len() == bs * (msg.len() / bs) + r) by {
        vstd::arithmetic::div_mod::lemma_fundamental_div_mod(msg.len() as int, bs as int);
    }
    let q = msg.len() / bs;
    // (2 bs - f - 1 - r) lies in [bs - f - 1, 2 bs - f - 1], so its remainder is a single subtraction away
    if 2 * bs - f - 1 - r >= bs {
        assert(k == 2 * bs - f - 1 - r - bs) by {
            vstd::arithmetic::div_mod::lemma_mod_sub_multiples_vanish(
                (2 * bs - f - 1 - r) as int,
                bs as int,
            );
            vstd::arithmetic::div_mod::lemma_small_mod((bs - f - 1 - r) as nat, bs);
        }
        assert(msg.len() + 1 + k + f == bs * (q + 1)) by (nonlinear_arith)
            requires
                msg.len() == bs * q + r,
                k == 2 * bs - f - 1 - r - bs,
        ;
        vstd::arithmetic::div_mod::lemma_mod_multiples_basic((q + 1) as int, bs as int);
        assert(((q + 1) * bs) as int == (bs * (q + 1)) as int) by (nonlinear_arith);
    } else {
        assert(k == 2 * bs - f - 1 - r) by {
            vstd::arithmetic::div_mod::lemma_small_mod((2 * bs - f - 1 - r) as nat, bs);
        }
        assert(msg.len() + 1 + k + f == bs * (q + 2)) by (nonlinear_arith)
            requires
                msg.len() == bs * q + r,
                k == 2 * bs - f - 1 - r,
        ;
        vstd::arithmetic::div_mod::lemma_mod_multiples_basic((q + 2) as int, bs as int);
        assert(((q + 2) * bs) as int == (bs * (q + 2)) as int) by (nonlinear_arith);
    }
}

} // verus!

verus! {

/// Copies a 64-byte slice into a block.
pub fn to_block64(s: &[u8]) -> (r: [u8; 64])
    requires
        s@.len() == 64,
    ensures
        r@ == s@,
{
    let mut r = [0u8; 64];
    for i in 0..64
        invariant
            s@.len() == 64,
            forall|j: int| 0 <= j < i ==> r@[j] == s@[j],
    {
        r[i] = s[i];
    }
    assert(r@ =~= s@);
    r
}

/// Copies a 128-byte slice into a block.
pub fn to_block128(s: &[u8]) -> (r: [u8; 128])
    requires
        s@.len() == 128,
    ensures
        r@ == s@,
{
    let mut r = [0u8; 128];
    for i in 0..128
        invariant
            s@.len() == 128,
            forall|j: int| 0 <= j < i ==> r@[j] == s@[j],
    {
        r[i] = s[i];
    }
    assert(r@ =~= s@);
    r
}

/// With `bs = 64` and an 8-byte length field: the zero run `k` is the first
/// count that brings `p + 1 + k` to 56 modulo 64.
pub proof fn lemma_pad_zero_len_64(n: nat, j: nat)
    requires
        j <= pad_zero_len(n, 64, 8),
    ensures
        pad_zero_len(n, 64, 8) < 64,
        ((n % 64) + 1 + j) % 64 == 56 <==> j == pad_zero_len(n, 64, 8),
{
}

/// With `bs = 128` and a 16-byte length field: the zero run `k` is the first
/// count that brings `p + 1 + k` to 112 modulo 128.
pub proof fn lemma_pad_zero_len_128(n: nat, j: nat)
    requires
        j <= pad_zero_len(n, 128, 16),
    ensures
        pad_zero_len(n, 128, 16) < 128,
        ((n % 128) + 1 + j) % 128 == 112 <==> j == pad_zero_len(n, 128, 16),
{
}

/// Folding a length-preserving compression keeps the state's length.
pub proof fn lemma_fold_len<T>(
    compress: spec_fn(Seq<T>, Seq<u8>) -> Seq<T>,
    state: Seq<T>,
    data: Seq<u8>,
    bs: nat,
    k: nat,
)
    requires
        state.len() == k,
        forall|x: Seq<T>, b: Seq<u8>| x.len() == k ==> #[trigger] compress(x, b).len() == k,
    ensures
        fold_blocks(compress, state, data, bs).len() == k,
    decreases data.len(),
{
    if bs > 0 && data.len() >= bs {
        lemma_fold_len(compress, compress(state, data.take(bs as int)), data.skip(bs as int), bs, k);
    }
}

/// The shape of the padded message: the message, `0x80`, fewer than `bs`
/// zero bytes, the length field, for a whole number of blocks.
pub proof fn lemma_md_pad_shape(msg: Seq<u8>, bs: nat, len_field: Seq<u8>)
    requires
        len_field.len() + 1 <= bs,
    ensures
        md_pad(msg, bs, len_field).len() % bs == 0,
        msg.len() + 1 + len_field.len() <= md_pad(msg, bs, len_field).len() < msg.len() + 1
            + len_field.len() + bs,
        md_pad(msg, bs, len_field).take(msg.len() as int) == msg,
        md_pad(msg, bs, len_field)[msg.len() as int] == 0x80,
        forall|i: int|
            msg.len() < i < md_pad(msg, bs, len_field).len() - len_field.len() ==> #[trigger] md_pad(
                msg,
                bs,
                len_field,
            )[i] == 0,
        md_pad(msg, bs, len_field).subrange(
            md_pad(msg, bs, len_field).len() - len_field.len(),
            md_pad(msg, bs, len_field).len() as int,
        ) == len_field,
{
    lemma_md_pad_len(msg, bs, len_field);
    let p = md_pad(msg, bs, len_field);
    let k = pad_zero_len(msg.len(), bs, len_field.len());
    assert(k < bs) by {
        vstd::arithmetic::div_mod::lemma_mod_bound(
            (2 * bs - len_field.len() - 1 - msg.len() % bs) as int,
            bs as int,
        );
    }
    assert(p.take(msg.len() as int) =~= msg);
    assert(p.subrange(p.len() - len_field.len(), p.len() as int) =~= len_field);
    assert forall|i: int| msg.len() < i < p.len() - len_field.len() implies #[trigger] p[i] == 0 by {
        assert(p[i] == Seq::new(k, |j: int| 0u8)[i - msg.len() - 1]);
    }
}

} // verus!
