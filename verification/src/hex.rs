//! Lower-case hexadecimal rendering of digests.
use vstd::prelude::*;
use crate::words::{
    be_bytes, be_u32_at, be_u64_at, byte_of, le_bytes, le_u32_at, lemma_be_bytes8_read, push_be_bytes,
    push_le_bytes,
};

verus! {

/// The sixteen lower-case hexadecimal digits.
pub const HEX_DIGITS: [char; 16] = [
    '0', '1', '2', '3', '4', '5', '6', '7', '8', '9', 'a', 'b', 'c', 'd', 'e', 'f',
];

/// The two lower-case hexadecimal digits of a byte, high nibble first.
pub open spec fn hex_byte(b: u8) -> Seq<char> {
    seq![HEX_DIGITS@[(b >> 4u8) as int], HEX_DIGITS@[(b & 0x0fu8) as int]]
}

/// The lower-case hexadecimal rendering of `bytes`, two digits per byte.
pub open spec fn hex_encode(bytes: Seq<u8>) -> Seq<char>
    decreases bytes.len(),
{
    if bytes.len() == 0 {
        Seq::empty()
    } else {
        hex_encode(bytes.drop_last()) + hex_byte(bytes.last())
    }
}

/// Each 32-bit word as 4 bytes, least significant first.
pub open spec fn words32_le(ws: Seq<u32>) -> Seq<u8>
    decreases ws.len(),
{
    if ws.len() == 0 {
        Seq::empty()
    } else {
        words32_le(ws.drop_last()) + le_bytes(ws.last() as u128, 4)
    }
}

/// Each 32-bit word as 4 bytes, most significant first.
pub open spec fn words32_be(ws: Seq<u32>) -> Seq<u8>
    decreases ws.len(),
{
    if ws.len() == 0 {
        Seq::empty()
    } else {
        words32_be(ws.drop_last()) + be_bytes(ws.last() as u128, 4)
    }
}

/// Each 64-bit word as 8 bytes, most significant first.
pub open spec fn words64_be(ws: Seq<u64>) -> Seq<u8>
    decreases ws.len(),
{
    if ws.len() == 0 {
        Seq::empty()
    } else {
        words64_be(ws.drop_last()) + be_bytes(ws.last() as u128, 8)
    }
}

/// Appends `c` to `s`.
/// Trusted: calls `String::push`, documented to append one character to the end.
#[verifier::external_body]
pub(crate) fn push_char(s: &mut String, c: char)
    ensures
        final(s)@ == old(s)@.push(c),
{
    s.push(c);
}

/// Renders bytes as lower-case hexadecimal, two digits per byte.
pub fn hex_digest(bytes: &[u8]) -> (s: String)
    ensures
        s@ == hex_encode(bytes@),
{
    let mut s = String::new();
    for i in 0..bytes.len()
        invariant
            s@ == hex_encode(bytes@.take(i as int)),
    {
        let b = bytes[i];
        let hi = b >> 4u8;
        let lo = b & 0x0fu8;
        assert(hi < 16 && lo < 16) by (bit_vector)
            requires
                hi == b >> 4u8,
                lo == b & 0x0fu8,
        ;
        push_char(&mut s, HEX_DIGITS[hi as usize]);
        push_char(&mut s, HEX_DIGITS[lo as usize]);
        proof {
            let t = bytes@.take(i + 1);
            assert(t.drop_last() =~= bytes@.take(i as int));
            assert(t.last() == b);
            assert(s@ =~= hex_encode(t));
        }
    }
    assert(bytes@.take(bytes@.len() as int) =~= bytes@);
    s
}

/// The bytes of 32-bit words, each least significant first.
pub fn words32_to_le_bytes(ws: &[u32]) -> (out: Vec<u8>)
    ensures
        out@ == words32_le(ws@),
{
    let mut out: Vec<u8> = Vec::new();
    for i in 0..ws.len()
        invariant
            out@ == words32_le(ws@.take(i as int)),
    {
        push_le_bytes(&mut out, ws[i] as u128, 4);
        proof {
            let t = ws@.take(i + 1);
            assert(t.drop_last() =~= ws@.take(i as int));
        }
    }
    assert(ws@.take(ws@.len() as int) =~= ws@);
    out
}

/// The bytes of 32-bit words, each most significant first.
pub fn words32_to_be_bytes(ws: &[u32]) -> (out: Vec<u8>)
    ensures
        out@ == words32_be(ws@),
{
    let mut out: Vec<u8> = Vec::new();
    for i in 0..ws.len()
        invariant
            out@ == words32_be(ws@.take(i as int)),
    {
        push_be_bytes(&mut out, ws[i] as u128, 4);
        proof {
            let t = ws@.take(i + 1);
            assert(t.drop_last() =~= ws@.take(i as int));
        }
    }
    assert(ws@.take(ws@.len() as int) =~= ws@);
    out
}

/// The bytes of 64-bit words, each most significant first.
pub fn words64_to_be_bytes(ws: &[u64]) -> (out: Vec<u8>)
    ensures
        out@ == words64_be(ws@),
{
    let mut out: Vec<u8> = Vec::new();
    for i in 0..ws.len()
        invariant
            out@ == words64_be(ws@.take(i as int)),
    {
        push_be_bytes(&mut out, ws[i] as u128, 8);
        proof {
            let t = ws@.take(i + 1);
            assert(t.drop_last() =~= ws@.take(i as int));
        }
    }
    assert(ws@.take(ws@.len() as int) =~= ws@);
    out
}

/// Each byte becomes two digits.
pub proof fn lemma_hex_encode_len(bytes: Seq<u8>)
    ensures
        hex_encode(bytes).len() == 2 * bytes.len(),
    decreases bytes.len(),
{
    if bytes.len() > 0 {
        lemma_hex_encode_len(bytes.drop_last());
    }
}

/// Every character of a rendering is one of the sixteen lower-case digits.
pub proof fn lemma_hex_encode_digits(bytes: Seq<u8>)
    ensures
        forall|i: int|
            0 <= i < hex_encode(bytes).len() ==> HEX_DIGITS@.contains(#[trigger] hex_encode(bytes)[i]),
    decreases bytes.len(),
{
    if bytes.len() > 0 {
        lemma_hex_encode_digits(bytes.drop_last());
        let b = bytes.last();
        let prev = hex_encode(bytes.drop_last());
        assert((b >> 4u8) < 16 && (b & 0x0fu8) < 16) by (bit_vector);
        assert forall|i: int| 0 <= i < hex_encode(bytes).len() implies HEX_DIGITS@.contains(
            #[trigger] hex_encode(bytes)[i],
        ) by {
            if i < prev.len() {
                assert(hex_encode(bytes)[i] == prev[i]);
            } else if i == prev.len() {
                assert(HEX_DIGITS@[(b >> 4u8) as int] == hex_encode(bytes)[i]);
            } else {
                assert(HEX_DIGITS@[(b & 0x0fu8) as int] == hex_encode(bytes)[i]);
            }
        }
    }
}

/// Four bytes per 32-bit word.
pub proof fn lemma_words32_le_len(ws: Seq<u32>)
    ensures
        words32_le(ws).len() == 4 * ws.len(),
    decreases ws.len(),
{
    if ws.len() > 0 {
        lemma_words32_le_len(ws.drop_last());
    }
}

/// Four bytes per 32-bit word.
pub proof fn lemma_words32_be_len(ws: Seq<u32>)
    ensures
        words32_be(ws).len() == 4 * ws.len(),
    decreases ws.len(),
{
    if ws.len() > 0 {
        lemma_words32_be_len(ws.drop_last());
    }
}

/// Eight bytes per 64-bit word.
pub proof fn lemma_words64_be_len(ws: Seq<u64>)
    ensures
        words64_be(ws).len() == 8 * ws.len(),
    decreases ws.len(),
{
    if ws.len() > 0 {
        lemma_words64_be_len(ws.drop_last());
    }
}

/// The value of a lower-case hexadecimal digit.
pub open spec fn hex_value(c: char) -> int {
    if '0' <= c && c <= '9' {
        c as int - '0' as int
    } else {
        c as int - 'a' as int + 10
    }
}

/// Byte `i` of `bytes` is rendered as digits `2 i` and `2 i + 1`.
pub proof fn lemma_hex_encode_index(bytes: Seq<u8>, i: int)
    requires
        0 <= i < bytes.len(),
    ensures
        hex_encode(bytes).len() == 2 * bytes.len(),
        hex_encode(bytes)[2 * i] == HEX_DIGITS@[(bytes[i] >> 4u8) as int],
        hex_encode(bytes)[2 * i + 1] == HEX_DIGITS@[(bytes[i] & 0x0fu8) as int],
    decreases bytes.len(),
{
    lemma_hex_encode_len(bytes);
    lemma_hex_encode_len(bytes.drop_last());
    if i < bytes.len() - 1 {
        lemma_hex_encode_index(bytes.drop_last(), i);
    }
}

/// Reading the rendering back: digits `2 i` and `2 i + 1` are the high and
/// low nibble of byte `i`, so the rendering determines the bytes.
pub proof fn law_hex_readback(bytes: Seq<u8>)
    ensures
        hex_encode(bytes).len() == 2 * bytes.len(),
        forall|i: int|
            0 <= i < bytes.len() ==> hex_value(#[trigger] hex_encode(bytes)[2 * i]) * 16 + hex_value(
                hex_encode(bytes)[2 * i + 1],
            ) == bytes[i] as int,
{
    lemma_hex_encode_len(bytes);
    assert(HEX_DIGITS@ =~= seq![
        '0', '1', '2', '3', '4', '5', '6', '7', '8', '9', 'a', 'b', 'c', 'd', 'e', 'f',
    ]);
    assert forall|n: int| 0 <= n < 16 implies hex_value(#[trigger] HEX_DIGITS@[n]) == n by {
        if n < 8 {
            if n < 4 {
                if n < 2 {
                    if n == 0 {} else {}
                } else {
                    if n == 2 {} else {}
                }
            } else {
                if n < 6 {
                    if n == 4 {} else {}
                } else {
                    if n == 6 {} else {}
                }
            }
        } else {
            if n < 12 {
                if n < 10 {
                    if n == 8 {} else {}
                } else {
                    if n == 10 {} else {}
                }
            } else {
                if n < 14 {
                    if n == 12 {} else {}
                } else {
                    if n == 14 {} else {}
                }
            }
        }
    }
    assert forall|i: int| 0 <= i < bytes.len() implies hex_value(
        #[trigger] hex_encode(bytes)[2 * i],
    ) * 16 + hex_value(hex_encode(bytes)[2 * i + 1]) == bytes[i] as int by {
        lemma_hex_encode_index(bytes, i);
        let b = bytes[i];
        assert((b >> 4u8) < 16 && (b & 0x0fu8) < 16 && (b >> 4u8) * 16 + (b & 0x0fu8) == b)
            by (bit_vector);
        assert(hex_value(HEX_DIGITS@[(b >> 4u8) as int]) == (b >> 4u8) as int);
        assert(hex_value(HEX_DIGITS@[(b & 0x0fu8) as int]) == (b & 0x0fu8) as int);
    }
}

/// Byte `k` of word `i` in the little-endian bytes of 32-bit words.
pub proof fn lemma_words32_le_index(ws: Seq<u32>, i: int, k: int)
    requires
        0 <= i < ws.len(),
        0 <= k < 4,
    ensures
        words32_le(ws).len() == 4 * ws.len(),
        words32_le(ws)[4 * i + k] == byte_of(ws[i] as u128, k as nat),
    decreases ws.len(),
{
    lemma_words32_le_len(ws);
    lemma_words32_le_len(ws.drop_last());
    if i < ws.len() - 1 {
        lemma_words32_le_index(ws.drop_last(), i, k);
    }
}

/// Byte `k` of word `i` in the big-endian bytes of 32-bit words.
pub proof fn lemma_words32_be_index(ws: Seq<u32>, i: int, k: int)
    requires
        0 <= i < ws.len(),
        0 <= k < 4,
    ensures
        words32_be(ws).len() == 4 * ws.len(),
        words32_be(ws)[4 * i + k] == byte_of(ws[i] as u128, (3 - k) as nat),
    decreases ws.len(),
{
    lemma_words32_be_len(ws);
    lemma_words32_be_len(ws.drop_last());
    if i < ws.len() - 1 {
        lemma_words32_be_index(ws.drop_last(), i, k);
    }
}

/// Byte `k` of word `i` in the big-endian bytes of 64-bit words.
pub proof fn lemma_words64_be_index(ws: Seq<u64>, i: int, k: int)
    requires
        0 <= i < ws.len(),
        0 <= k < 8,
    ensures
        words64_be(ws).len() == 8 * ws.len(),
        words64_be(ws)[8 * i + k] == byte_of(ws[i] as u128, (7 - k) as nat),
    decreases ws.len(),
{
    lemma_words64_be_len(ws);
    lemma_words64_be_len(ws.drop_last());
    if i < ws.len() - 1 {
        lemma_words64_be_index(ws.drop_last(), i, k);
    }
}

/// Reading back: the little-endian 32-bit word at byte `4 i` is word `i`.
pub proof fn law_words32_le_readback(ws: Seq<u32>)
    ensures
        words32_le(ws).len() == 4 * ws.len(),
        forall|i: int| 0 <= i < ws.len() ==> #[trigger] le_u32_at(words32_le(ws), 4 * i) == ws[i],
{
    lemma_words32_le_len(ws);
    assert forall|i: int| 0 <= i < ws.len() implies #[trigger] le_u32_at(words32_le(ws), 4 * i)
        == ws[i] by {
        lemma_words32_le_index(ws, i, 0);
        lemma_words32_le_index(ws, i, 1);
        lemma_words32_le_index(ws, i, 2);
        lemma_words32_le_index(ws, i, 3);
        let w = ws[i];
        let x = w as u128;
        assert(((((x >> 24u128) & 0xff) as u8 as u32) << 24u32) | ((((x >> 16u128) & 0xff) as u8 as u32) << 16u32) | ((((x >> 8u128) & 0xff) as u8 as u32) << 8u32) | (((x >> 0u128) & 0xff) as u8 as u32) == w) by (bit_vector)
            requires
                x == w as u128,
        ;
    }
}

/// Reading back: the big-endian 32-bit word at byte `4 i` is word `i`.
pub proof fn law_words32_be_readback(ws: Seq<u32>)
    ensures
        words32_be(ws).len() == 4 * ws.len(),
        forall|i: int| 0 <= i < ws.len() ==> #[trigger] be_u32_at(words32_be(ws), 4 * i) == ws[i],
{
    lemma_words32_be_len(ws);
    assert forall|i: int| 0 <= i < ws.len() implies #[trigger] be_u32_at(words32_be(ws), 4 * i)
        == ws[i] by {
        lemma_words32_be_index(ws, i, 0);
        lemma_words32_be_index(ws, i, 1);
        lemma_words32_be_index(ws, i, 2);
        lemma_words32_be_index(ws, i, 3);
        let w = ws[i];
        let x = w as u128;
        assert(((((x >> 24u128) & 0xff) as u8 as u32) << 24u32) | ((((x >> 16u128) & 0xff) as u8 as u32) << 16u32) | ((((x >> 8u128) & 0xff) as u8 as u32) << 8u32) | (((x >> 0u128) & 0xff) as u8 as u32) == w) by (bit_vector)
            requires
                x == w as u128,
        ;
    }
}

/// Reading back: the big-endian 64-bit word at byte `8 i` is word `i`.
pub proof fn law_words64_be_readback(ws: Seq<u64>)
    ensures
        words64_be(ws).len() == 8 * ws.len(),
        forall|i: int| 0 <= i < ws.len() ==> #[trigger] be_u64_at(words64_be(ws), 8 * i) == ws[i],
{
    lemma_words64_be_len(ws);
    assert forall|i: int| 0 <= i < ws.len() implies #[trigger] be_u64_at(words64_be(ws), 8 * i)
        == ws[i] by {
        let s = words64_be(ws);
        let f = be_bytes(ws[i] as u128, 8);
        assert forall|k: int| 0 <= k < 8 implies s[8 * i + k] == f[k] by {
            lemma_words64_be_index(ws, i, k);
        }
        assert(s[8 * i] == f[0] && s[8 * i + 1] == f[1] && s[8 * i + 2] == f[2] && s[8 * i + 3] == f[3]
            && s[8 * i + 4] == f[4] && s[8 * i + 5] == f[5] && s[8 * i + 6] == f[6] && s[8 * i + 7]
            == f[7]);
        assert(be_u64_at(s, 8 * i) == be_u64_at(f, 0));
        lemma_be_bytes8_read(ws[i] as u128);
    }
}

} // verus!
