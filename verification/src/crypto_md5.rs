//! MD5 through the `md-5` crate.
use vstd::prelude::*;
use crate::hex::{hex_digest, hex_encode};

verus! {

/// The digest that the `md-5` crate computes for `data`.
pub uninterp spec fn md5_crate_digest(data: Seq<u8>) -> Seq<u8>;

/// Trusted: calls `<md5::Md5 as md5::Digest>::digest`, the `md-5` crate's
/// one-shot hash, and converts its 16-byte output to an array. The contract
/// only names the result `md5_crate_digest(data)`; that it is the RFC 1321
/// digest is not stated.
#[verifier::external_body]
fn md5_crate(data: &[u8]) -> (out: [u8; 16])
    ensures
        out@ == md5_crate_digest(data@),
{
    <md5::Md5 as md5::Digest>::digest(data).into()
}

/// The hexadecimal MD5 digest of `contents`, as the `md-5` crate computes it.
pub fn digest_msg(contents: &[u8]) -> (s: String)
    ensures
        s@ == hex_encode(md5_crate_digest(contents@)),
{
    let hash = md5_crate(contents);
    hex_digest(&hash)
}

} // verus!
