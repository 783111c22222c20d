//! Machine-word primitives shared by the MD5 and SHA-2 compression functions.
use vstd::prelude::*;

verus! {

/// Logical right shift of a 32-bit word.
pub open spec fn shr32(x: u32, n: u32) -> u32 {
    x >> n
}

/// Right rotation of a 32-bit word by `n` bits, `0 < n < 32`.
pub open spec fn rotr32(x: u32, n: u32) -> u32 {
    (x >> n) | (x << ((32 - n) as u32))
}

/// Left rotation of a 32-bit word by `n` bits, `0 < n < 32`.
pub open spec fn rotl32(x: u32, n: u32) -> u32 {
    (x << n) | (x >> ((32 - n) as u32))
}

/// Left rotation of a 32-bit word by `n` bits, for any `n`: by `n mod 32`.
pub open spec fn rotate_left32(x: u32, n: u32) -> u32 {
    if n % 32 == 0 {
        x
    } else {
        rotl32(x, n % 32)
    }
}

pub open spec fn ch32(x: u32, y: u32, z: u32) -> u32 {
    (x & y) ^ (!x & z)
}

pub open spec fn maj32(x: u32, y: u32, z: u32) -> u32 {
    (x & y) ^ (x & z) ^ (y & z)
}

/// SHA-256 big sigma 0.
pub open spec fn bsig0_32(x: u32) -> u32 {
    rotr32(x, 2) ^ rotr32(x, 13) ^ rotr32(x, 22)
}

/// SHA-256 big sigma 1.
pub open spec fn bsig1_32(x: u32) -> u32 {
    rotr32(x, 6) ^ rotr32(x, 11) ^ rotr32(x, 25)
}

/// SHA-256 small sigma 0.
pub open spec fn ssig0_32(x: u32) -> u32 {
    rotr32(x, 7) ^ rotr32(x, 18) ^ shr32(x, 3)
}

/// SHA-256 small sigma 1.
pub open spec fn ssig1_32(x: u32) -> u32 {
    rotr32(x, 17) ^ rotr32(x, 19) ^ shr32(x, 10)
}

/// Logical right shift of a 64-bit word.
pub open spec fn shr64(x: u64, n: u32) -> u64 {
    x >> n
}

/// Right rotation of a 64-bit word by `n` bits, `0 < n < 64`.
pub open spec fn rotr64(x: u64, n: u32) -> u64 {
    (x >> n) | (x << ((64 - n) as u32))
}

/// Left rotation of a 64-bit word by `n` bits, `0 < n < 64`.
pub open spec fn rotl64(x: u64, n: u32) -> u64 {
    (x << n) | (x >> ((64 - n) as u32))
}

pub open spec fn ch64(x: u64, y: u64, z: u64) -> u64 {
    (x & y) ^ (!x & z)
}

pub open spec fn maj64(x: u64, y: u64, z: u64) -> u64 {
    (x & y) ^ (x & z) ^ (y & z)
}

/// SHA-512 big sigma 0.
pub open spec fn bsig0_64(x: u64) -> u64 {
    rotr64(x, 28) ^ rotr64(x, 34) ^ rotr64(x, 39)
}

/// SHA-512 big sigma 1.
pub open spec fn bsig1_64(x: u64) -> u64 {
    rotr64(x, 14) ^ rotr64(x, 18) ^ rotr64(x, 41)
}

/// SHA-512 small sigma 0.
pub open spec fn ssig0_64(x: u64) -> u64 {
    rotr64(x, 1) ^ rotr64(x, 8) ^ shr64(x, 7)
}

/// SHA-512 small sigma 1.
pub open spec fn ssig1_64(x: u64) -> u64 {
    rotr64(x, 19) ^ rotr64(x, 61) ^ shr64(x, 6)
}

/// The word operations of the SHA-2 family, for 32-bit (SHA-256) and
/// 64-bit (SHA-512) words.
pub trait Word: Sized {
    const BITS: u32;

    spec fn spec_shr(x: Self, n: u32) -> Self;

    spec fn spec_rotr(x: Self, n: u32) -> Self;

    spec fn spec_rotl(x: Self, n: u32) -> Self;

    spec fn spec_ch(x: Self, y: Self, z: Self) -> Self;

    spec fn spec_maj(x: Self, y: Self, z: Self) -> Self;

    spec fn spec_bsig0(x: Self) -> Self;

    spec fn spec_bsig1(x: Self) -> Self;

    spec fn spec_ssig0(x: Self) -> Self;

    spec fn spec_ssig1(x: Self) -> Self;

    fn shr<const N: u32>(self) -> (r: Self)
        requires
            N < Self::BITS,
        ensures
            r == Self::spec_shr(self, N),
    ;

    fn rotr<const N: u32>(self) -> (r: Self)
        requires
            0 < N < Self::BITS,
        ensures
            r == Self::spec_rotr(self, N),
    ;

    fn rotl<const N: u32>(self) -> (r: Self)
        requires
            0 < N < Self::BITS,
        ensures
            r == Self::spec_rotl(self, N),
    ;

    fn ch(x: Self, y: Self, z: Self) -> (r: Self)
        ensures
            r == Self::spec_ch(x, y, z),
    ;

    fn maj(x: Self, y: Self, z: Self) -> (r: Self)
        ensures
            r == Self::spec_maj(x, y, z),
    ;

    fn bsig0(x: Self) -> (r: Self)
        ensures
            r == Self::spec_bsig0(x),
    ;

    fn bsig1(x: Self) -> (r: Self)
        ensures
            r == Self::spec_bsig1(x),
    ;

    fn ssig0(x: Self) -> (r: Self)
        ensures
            r == Self::spec_ssig0(x),
    ;

    fn ssig1(x: Self) -> (r: Self)
        ensures
            r == Self::spec_ssig1(x),
    ;
}

impl Word for u32 {
    const BITS: u32 = 32;

    open spec fn spec_shr(x: u32, n: u32) -> u32 {
        shr32(x, n)
    }

    open spec fn spec_rotr(x: u32, n: u32) -> u32 {
        rotr32(x, n)
    }

    open spec fn spec_rotl(x: u32, n: u32) -> u32 {
        rotl32(x, n)
    }

    open spec fn spec_ch(x: u32, y: u32, z: u32) -> u32 {
        ch32(x, y, z)
    }

    open spec fn spec_maj(x: u32, y: u32, z: u32) -> u32 {
        maj32(x, y, z)
    }

    open spec fn spec_bsig0(x: u32) -> u32 {
        bsig0_32(x)
    }

    open spec fn spec_bsig1(x: u32) -> u32 {
        bsig1_32(x)
    }

    open spec fn spec_ssig0(x: u32) -> u32 {
        ssig0_32(x)
    }

    open spec fn spec_ssig1(x: u32) -> u32 {
        ssig1_32(x)
    }

    fn shr<const N: u32>(self) -> (r: u32) {
        self >> N
    }

    fn rotr<const N: u32>(self) -> (r: u32) {
        (self >> N) | (self << (Self::BITS - N))
    }

    fn rotl<const N: u32>(self) -> (r: u32) {
        (self << N) | (self >> (Self::BITS - N))
    }

    fn ch(x: u32, y: u32, z: u32) -> (r: u32) {
        (x & y) ^ ((!x) & z)
    }

    fn maj(x: u32, y: u32, z: u32) -> (r: u32) {
        (x & y) ^ (x & z) ^ (y & z)
    }

    fn bsig0(x: u32) -> (r: u32) {
        x.rotr::<2>() ^ x.rotr::<13>() ^ x.rotr::<22>()
    }

    fn bsig1(x: u32) -> (r: u32) {
        x.rotr::<6>() ^ x.rotr::<11>() ^ x.rotr::<25>()
    }

    fn ssig0(x: u32) -> (r: u32) {
        x.rotr::<7>() ^ x.rotr::<18>() ^ x.shr::<3>()
    }

    fn ssig1(x: u32) -> (r: u32) {
        x.rotr::<17>() ^ x.rotr::<19>() ^ x.shr::<10>()
    }
}

impl Word for u64 {
    const BITS: u32 = 64;

    open spec fn spec_shr(x: u64, n: u32) -> u64 {
        shr64(x, n)
    }

    open spec fn spec_rotr(x: u64, n: u32) -> u64 {
        rotr64(x, n)
    }

    open spec fn spec_rotl(x: u64, n: u32) -> u64 {
        rotl64(x, n)
    }

    open spec fn spec_ch(x: u64, y: u64, z: u64) -> u64 {
        ch64(x, y, z)
    }

    open spec fn spec_maj(x: u64, y: u64, z: u64) -> u64 {
        maj64(x, y, z)
    }

    open spec fn spec_bsig0(x: u64) -> u64 {
        bsig0_64(x)
    }

    open spec fn spec_bsig1(x: u64) -> u64 {
        bsig1_64(x)
    }

    open spec fn spec_ssig0(x: u64) -> u64 {
        ssig0_64(x)
    }

    open spec fn spec_ssig1(x: u64) -> u64 {
        ssig1_64(x)
    }

    fn shr<const N: u32>(self) -> (r: u64) {
        self >> N
    }

    fn rotr<const N: u32>(self) -> (r: u64) {
        (self >> N) | (self << (Self::BITS - N))
    }

    fn rotl<const N: u32>(self) -> (r: u64) {
        (self << N) | (self >> (Self::BITS - N))
    }

    fn ch(x: u64, y: u64, z: u64) -> (r: u64) {
        (x & y) ^ ((!x) & z)
    }

    fn maj(x: u64, y: u64, z: u64) -> (r: u64) {
        (x & y) ^ (x & z) ^ (y & z)
    }

    fn bsig0(x: u64) -> (r: u64) {
        x.rotr::<28>() ^ x.rotr::<34>() ^ x.rotr::<39>()
    }

    fn bsig1(x: u64) -> (r: u64) {
        x.rotr::<14>() ^ x.rotr::<18>() ^ x.rotr::<41>()
    }

    fn ssig0(x: u64) -> (r: u64) {
        x.rotr::<1>() ^ x.rotr::<8>() ^ x.shr::<7>()
    }

    fn ssig1(x: u64) -> (r: u64) {
        x.rotr::<19>() ^ x.rotr::<61>() ^ x.shr::<6>()
    }
}

} // verus!

verus! {

/// MD5 round-one mixing function.
pub open spec fn fm_spec(b: u32, c: u32, d: u32) -> u32 {
    (b & c) | (!b & d)
}

/// MD5 round-two mixing function.
pub open spec fn gm_spec(b: u32, c: u32, d: u32) -> u32 {
    (b & d) | (c & !d)
}

/// MD5 round-three mixing function.
pub open spec fn hm_spec(b: u32, c: u32, d: u32) -> u32 {
    b ^ c ^ d
}

/// MD5 round-four mixing function.
pub open spec fn im_spec(b: u32, c: u32, d: u32) -> u32 {
    c ^ (b | !d)
}

#[allow(non_snake_case)]
pub fn Fm(b: u32, c: u32, d: u32) -> (r: u32)
    ensures
        r == fm_spec(b, c, d),
{
    (b & c) | (!b & d)
}

#[allow(non_snake_case)]
pub fn Gm(b: u32, c: u32, d: u32) -> (r: u32)
    ensures
        r == gm_spec(b, c, d),
{
    (b & d) | (c & !d)
}

#[allow(non_snake_case)]
pub fn Hm(b: u32, c: u32, d: u32) -> (r: u32)
    ensures
        r == hm_spec(b, c, d),
{
    b ^ c ^ d
}

#[allow(non_snake_case)]
pub fn Im(b: u32, c: u32, d: u32) -> (r: u32)
    ensures
        r == im_spec(b, c, d),
{
    c ^ (b | (!d))
}

/// The 32-bit word whose big-endian bytes are `b0 b1 b2 b3`.
pub open spec fn be_u32(b0: u8, b1: u8, b2: u8, b3: u8) -> u32 {
    ((b0 as u32) << 24u32) | ((b1 as u32) << 16u32) | ((b2 as u32) << 8u32) | (b3 as u32)
}

/// The 32-bit word whose little-endian bytes are `b0 b1 b2 b3`.
pub open spec fn le_u32(b0: u8, b1: u8, b2: u8, b3: u8) -> u32 {
    be_u32(b3, b2, b1, b0)
}

/// The big-endian 32-bit word stored at `s[i..i + 4]`.
pub open spec fn be_u32_at(s: Seq<u8>, i: int) -> u32 {
    be_u32(s[i], s[i + 1], s[i + 2], s[i + 3])
}

/// The little-endian 32-bit word stored at `s[i..i + 4]`.
pub open spec fn le_u32_at(s: Seq<u8>, i: int) -> u32 {
    le_u32(s[i], s[i + 1], s[i + 2], s[i + 3])
}

/// The big-endian 64-bit word stored at `s[i..i + 8]`.
pub open spec fn be_u64_at(s: Seq<u8>, i: int) -> u64 {
    ((s[i] as u64) << 56u64) | ((s[i + 1] as u64) << 48u64) | ((s[i + 2] as u64) << 40u64) | ((
    s[i + 3] as u64) << 32u64) | ((s[i + 4] as u64) << 24u64) | ((s[i + 5] as u64) << 16u64) | ((
    s[i + 6] as u64) << 8u64) | (s[i + 7] as u64)
}

/// Byte `j` (counting from the least significant byte) of a 128-bit value.
pub open spec fn byte_of(x: u128, j: nat) -> u8 {
    ((x >> (8 * j)) & 0xff) as u8
}

/// The `n` bytes of `x` (which must fit in `n` bytes), least significant first.
pub open spec fn le_bytes(x: u128, n: nat) -> Seq<u8> {
    Seq::new(n, |j: int| byte_of(x, j as nat))
}

/// The `n` bytes of `x` (which must fit in `n` bytes), most significant first.
pub open spec fn be_bytes(x: u128, n: nat) -> Seq<u8> {
    Seq::new(n, |j: int| byte_of(x, (n - 1 - j) as nat))
}

/// Reads the big-endian word at `s[i..i + 4]`.
pub fn load_be_u32(s: &[u8], i: usize) -> (r: u32)
    requires
        i + 4 <= s@.len(),
    ensures
        r == be_u32_at(s@, i as int),
{
    ((s[i] as u32) << 24u32) | ((s[i + 1] as u32) << 16u32) | ((s[i + 2] as u32) << 8u32) | (s[i
        + 3] as u32)
}

/// Reads the little-endian word at `s[i..i + 4]`.
pub fn load_le_u32(s: &[u8], i: usize) -> (r: u32)
    requires
        i + 4 <= s@.len(),
    ensures
        r == le_u32_at(s@, i as int),
{
    let b0 = s[i];
    ((s[i + 3] as u32) << 24u32) | ((s[i + 2] as u32) << 16u32) | ((s[i + 1] as u32) << 8u32) | (
    b0 as u32)
}

/// Reads the big-endian 64-bit word at `s[i..i + 8]`.
pub fn load_be_u64(s: &[u8], i: usize) -> (r: u64)
    requires
        i + 8 <= s@.len(),
    ensures
        r == be_u64_at(s@, i as int),
{
    ((s[i] as u64) << 56u64) | ((s[i + 1] as u64) << 48u64) | ((s[i + 2] as u64) << 40u64) | ((s[i
        + 3] as u64) << 32u64) | ((s[i + 4] as u64) << 24u64) | ((s[i + 5] as u64) << 16u64) | ((s[i
        + 6] as u64) << 8u64) | (s[i + 7] as u64)
}

/// Appends the `n` least significant bytes of `x` to `out`, most significant first.
pub fn push_be_bytes(out: &mut Vec<u8>, x: u128, n: usize)
    requires
        n <= 16,
    ensures
        final(out)@ == old(out)@ + be_bytes(x, n as nat),
{
    let ghost start = out@;
    let mut j: usize = 0;
    while j < n
        invariant
            n <= 16,
            j <= n,
            out@ == start + be_bytes(x, n as nat).take(j as int),
        decreases n - j,
    {
        let shift: u32 = (8 * (n - 1 - j)) as u32;
        let b: u8 = ((x >> shift) & 0xff) as u8;
        out.push(b);
        j = j + 1;
        assert(out@ =~= start + be_bytes(x, n as nat).take(j as int));
    }
    assert(be_bytes(x, n as nat).take(n as int) =~= be_bytes(x, n as nat));
}

/// Appends the `n` least significant bytes of `x` to `out`, least significant first.
pub fn push_le_bytes(out: &mut Vec<u8>, x: u128, n: usize)
    requires
        n <= 16,
    ensures
        final(out)@ == old(out)@ + le_bytes(x, n as nat),
{
    let ghost start = out@;
    let mut j: usize = 0;
    while j < n
        invariant
            n <= 16,
            j <= n,
            out@ == start + le_bytes(x, n as nat).take(j as int),
        decreases n - j,
    {
        let shift: u32 = (8 * j) as u32;
        let b: u8 = ((x >> shift) & 0xff) as u8;
        out.push(b);
        j = j + 1;
        assert(out@ =~= start + le_bytes(x, n as nat).take(j as int));
    }
    assert(le_bytes(x, n as nat).take(n as int) =~= le_bytes(x, n as nat));
}

} // verus!

verus! {

/// Adding `k` then `w` modulo 2^32 is adding their sum `w + k`.
pub proof fn lemma_wrapping_add_reorder32(x: u32, k: u32, w: u32)
    ensures
        x.wrapping_add(k).wrapping_add(w) == x.wrapping_add(w.wrapping_add(k)),
{
}

/// Adding `k` then `w` modulo 2^64 is adding their sum `w + k`.
pub proof fn lemma_wrapping_add_reorder64(x: u64, k: u64, w: u64)
    ensures
        x.wrapping_add(k).wrapping_add(w) == x.wrapping_add(w.wrapping_add(k)),
{
}

/// Rotating a 32-bit word left by `n` undoes rotating it right by `n`, and
/// the other way round.
pub proof fn law_rotations_inverse32(x: u32, n: u32)
    requires
        0 < n < 32,
    ensures
        rotl32(rotr32(x, n), n) == x,
        rotr32(rotl32(x, n), n) == x,
{
    assert(((((x >> n) | (x << ((32 - n) as u32))) << n) | (((x >> n) | (x << ((32 - n) as u32)))
        >> ((32 - n) as u32))) == x) by (bit_vector)
        requires
            0 < n < 32,
    ;
    assert(((((x << n) | (x >> ((32 - n) as u32))) >> n) | (((x << n) | (x >> ((32 - n) as u32)))
        << ((32 - n) as u32))) == x) by (bit_vector)
        requires
            0 < n < 32,
    ;
}

/// Rotating a 64-bit word left by `n` undoes rotating it right by `n`, and
/// the other way round.
pub proof fn law_rotations_inverse64(x: u64, n: u32)
    requires
        0 < n < 64,
    ensures
        rotl64(rotr64(x, n), n) == x,
        rotr64(rotl64(x, n), n) == x,
{
    assert(((((x >> n) | (x << ((64 - n) as u32))) << n) | (((x >> n) | (x << ((64 - n) as u32)))
        >> ((64 - n) as u32))) == x) by (bit_vector)
        requires
            0 < n < 64,
    ;
    assert(((((x << n) | (x >> ((64 - n) as u32))) >> n) | (((x << n) | (x >> ((64 - n) as u32)))
        << ((64 - n) as u32))) == x) by (bit_vector)
        requires
            0 < n < 64,
    ;
}

} // verus!

verus! {

/// Reading back 8 big-endian bytes of `x < 2^64` gives `x`.
pub proof fn lemma_be_bytes8_read(x: u128)
    requires
        x < 0x1_0000_0000_0000_0000,
    ensures
        be_u64_at(be_bytes(x, 8), 0) as int == x as int,
{
    let f = be_bytes(x, 8);
    assert(f[0] == ((x >> 56u128) & 0xff) as u8);
    assert(f[1] == ((x >> 48u128) & 0xff) as u8);
    assert(f[2] == ((x >> 40u128) & 0xff) as u8);
    assert(f[3] == ((x >> 32u128) & 0xff) as u8);
    assert(f[4] == ((x >> 24u128) & 0xff) as u8);
    assert(f[5] == ((x >> 16u128) & 0xff) as u8);
    assert(f[6] == ((x >> 8u128) & 0xff) as u8);
    assert(f[7] == ((x >> 0u128) & 0xff) as u8);
    assert(((((x >> 56u128) & 0xff) as u8 as u64) << 56u64) | ((((x >> 48u128) & 0xff) as u8 as u64)
        << 48u64) | ((((x >> 40u128) & 0xff) as u8 as u64) << 40u64) | ((((x >> 32u128) & 0xff) as u8
        as u64) << 32u64) | ((((x >> 24u128) & 0xff) as u8 as u64) << 24u64) | ((((x >> 16u128)
        & 0xff) as u8 as u64) << 16u64) | ((((x >> 8u128) & 0xff) as u8 as u64) << 8u64) | (((x
        >> 0u128) & 0xff) as u8 as u64) == x as u64) by (bit_vector)
        requires
            x < 0x1_0000_0000_0000_0000,
    ;
}

/// Reading back 8 little-endian bytes of `x < 2^64`, as two 32-bit words
/// (low word first), gives `x`.
pub proof fn lemma_le_bytes8_read(x: u128)
    requires
        x < 0x1_0000_0000_0000_0000,
    ensures
        le_u32_at(le_bytes(x, 8), 0) as int + le_u32_at(le_bytes(x, 8), 4) as int * 0x1_0000_0000
            == x as int,
{
    let f = le_bytes(x, 8);
    assert(f[0] == ((x >> 0u128) & 0xff) as u8);
    assert(f[1] == ((x >> 8u128) & 0xff) as u8);
    assert(f[2] == ((x >> 16u128) & 0xff) as u8);
    assert(f[3] == ((x >> 24u128) & 0xff) as u8);
    assert(f[4] == ((x >> 32u128) & 0xff) as u8);
    assert(f[5] == ((x >> 40u128) & 0xff) as u8);
    assert(f[6] == ((x >> 48u128) & 0xff) as u8);
    assert(f[7] == ((x >> 56u128) & 0xff) as u8);
    let lo = ((((x >> 24u128) & 0xff) as u8 as u32) << 24u32) | ((((x >> 16u128) & 0xff) as u8
        as u32) << 16u32) | ((((x >> 8u128) & 0xff) as u8 as u32) << 8u32) | (((x >> 0u128)
        & 0xff) as u8 as u32);
    let hi = ((((x >> 56u128) & 0xff) as u8 as u32) << 24u32) | ((((x >> 48u128) & 0xff) as u8
        as u32) << 16u32) | ((((x >> 40u128) & 0xff) as u8 as u32) << 8u32) | (((x >> 32u128)
        & 0xff) as u8 as u32);
    assert(lo as u128 + (hi as u128) * 0x1_0000_0000u128 == x) by (bit_vector)
        requires
            x < 0x1_0000_0000_0000_0000,
            lo == ((((x >> 24u128) & 0xff) as u8 as u32) << 24u32) | ((((x >> 16u128) & 0xff) as u8
                as u32) << 16u32) | ((((x >> 8u128) & 0xff) as u8 as u32) << 8u32) | (((x >> 0u128)
                & 0xff) as u8 as u32),
            hi == ((((x >> 56u128) & 0xff) as u8 as u32) << 24u32) | ((((x >> 48u128) & 0xff) as u8
                as u32) << 16u32) | ((((x >> 40u128) & 0xff) as u8 as u32) << 8u32) | (((x >> 32u128)
                & 0xff) as u8 as u32),
    ;
}

/// Reading back 16 big-endian bytes of `x`, as two 64-bit words (high word
/// first), gives `x`.
pub proof fn lemma_be_bytes16_read(x: u128)
    ensures
        be_u64_at(be_bytes(x, 16), 0) as int * 0x1_0000_0000_0000_0000 + be_u64_at(
            be_bytes(x, 16),
            8,
        ) as int == x as int,
{
    let f = be_bytes(x, 16);
    assert(f[0] == ((x >> 120u128) & 0xff) as u8);
    assert(f[1] == ((x >> 112u128) & 0xff) as u8);
    assert(f[2] == ((x >> 104u128) & 0xff) as u8);
    assert(f[3] == ((x >> 96u128) & 0xff) as u8);
    assert(f[4] == ((x >> 88u128) & 0xff) as u8);
    assert(f[5] == ((x >> 80u128) & 0xff) as u8);
    assert(f[6] == ((x >> 72u128) & 0xff) as u8);
    assert(f[7] == ((x >> 64u128) & 0xff) as u8);
    assert(f[8] == ((x >> 56u128) & 0xff) as u8);
    assert(f[9] == ((x >> 48u128) & 0xff) as u8);
    assert(f[10] == ((x >> 40u128) & 0xff) as u8);
    assert(f[11] == ((x >> 32u128) & 0xff) as u8);
    assert(f[12] == ((x >> 24u128) & 0xff) as u8);
    assert(f[13] == ((x >> 16u128) & 0xff) as u8);
    assert(f[14] == ((x >> 8u128) & 0xff) as u8);
    assert(f[15] == ((x >> 0u128) & 0xff) as u8);
    let hi = ((((x >> 120u128) & 0xff) as u8 as u64) << 56u64) | ((((x >> 112u128) & 0xff) as u8 as u64) << 48u64) | ((((x >> 104u128) & 0xff) as u8 as u64) << 40u64) | ((((x >> 96u128) & 0xff) as u8 as u64) << 32u64) | ((((x >> 88u128) & 0xff) as u8 as u64) << 24u64) | ((((x >> 80u128) & 0xff) as u8 as u64) << 16u64) | ((((x >> 72u128) & 0xff) as u8 as u64) << 8u64) | (((x >> 64u128) & 0xff) as u8 as u64);
    let lo = ((((x >> 56u128) & 0xff) as u8 as u64) << 56u64) | ((((x >> 48u128) & 0xff) as u8 as u64) << 48u64) | ((((x >> 40u128) & 0xff) as u8 as u64) << 40u64) | ((((x >> 32u128) & 0xff) as u8 as u64) << 32u64) | ((((x >> 24u128) & 0xff) as u8 as u64) << 24u64) | ((((x >> 16u128) & 0xff) as u8 as u64) << 16u64) | ((((x >> 8u128) & 0xff) as u8 as u64) << 8u64) | (((x >> 0u128) & 0xff) as u8 as u64);
    assert(be_u64_at(f, 0) == hi);
    assert(be_u64_at(f, 8) == lo);
    assert((hi as u128) * 0x1_0000_0000_0000_0000u128 + lo as u128 == x) by (bit_vector)
        requires
            hi == ((((x >> 120u128) & 0xff) as u8 as u64) << 56u64) | ((((x >> 112u128) & 0xff) as u8 as u64) << 48u64) | ((((x >> 104u128) & 0xff) as u8 as u64) << 40u64) | ((((x >> 96u128) & 0xff) as u8 as u64) << 32u64) | ((((x >> 88u128) & 0xff) as u8 as u64) << 24u64) | ((((x >> 80u128) & 0xff) as u8 as u64) << 16u64) | ((((x >> 72u128) & 0xff) as u8 as u64) << 8u64) | (((x >> 64u128) & 0xff) as u8 as u64),
            lo == ((((x >> 56u128) & 0xff) as u8 as u64) << 56u64) | ((((x >> 48u128) & 0xff) as u8 as u64) << 48u64) | ((((x >> 40u128) & 0xff) as u8 as u64) << 40u64) | ((((x >> 32u128) & 0xff) as u8 as u64) << 32u64) | ((((x >> 24u128) & 0xff) as u8 as u64) << 24u64) | ((((x >> 16u128) & 0xff) as u8 as u64) << 16u64) | ((((x >> 8u128) & 0xff) as u8 as u64) << 8u64) | (((x >> 0u128) & 0xff) as u8 as u64),
    ;
}

} // verus!
