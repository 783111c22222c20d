//! An `md5sum`-style checksum tool's library: verified MD5, SHA-256 and
//! SHA-512 hashers, their hexadecimal digests, and the command-line logic
//! that computes and checks digest listings.
use vstd::prelude::*;

pub mod blocks;
pub mod cli;
pub mod crypto_md5;
pub mod hex;
pub mod md5;
pub mod sha256;
pub mod sha256_batch;
pub mod sha512;
pub mod text;
pub mod words;

verus! {

/// The interface of an incremental hash algorithm.
pub trait HasherAlg: Sized {
    type Output;

    /// The bytes absorbed so far.
    spec fn absorbed(&self) -> Seq<u8>;

    /// The hasher's internal invariant.
    spec fn inv(&self) -> bool;

    /// The longest message, in bytes, whose length the hasher can count.
    spec fn len_limit() -> nat;

    /// The largest bit length the padding can encode.
    spec fn bit_limit() -> nat;

    /// `out` is the algorithm's digest of `msg`.
    spec fn is_digest(msg: Seq<u8>, out: Self::Output) -> bool;

    /// The hexadecimal digest of `msg`.
    spec fn hex_digest_of(msg: Seq<u8>) -> Seq<char>;

    /// Incrementally absorbs `input`.
    fn update(&mut self, input: &[u8])
        requires
            old(self).inv(),
            old(self).absorbed().len() + input@.len() <= Self::len_limit(),
        ensures
            final(self).inv(),
            final(self).absorbed() == old(self).absorbed() + input@,
    ;

    /// Finishes the computation and returns the digest of everything absorbed;
    /// the hasher starts over empty.
    fn finalize(&mut self) -> (out: Self::Output)
        requires
            old(self).inv(),
            old(self).absorbed().len() * 8 <= Self::bit_limit(),
        ensures
            Self::is_digest(old(self).absorbed(), out),
            final(self).inv(),
            final(self).absorbed() == Seq::<u8>::empty(),
    ;

    /// The hexadecimal digest of `contents`.
    fn dgst(contents: &[u8]) -> (s: String)
        requires
            contents@.len() * 8 <= Self::bit_limit(),
        ensures
            s@ == Self::hex_digest_of(contents@),
    ;
}

} // verus!
