//! Trusted bindings for the message digests the protocol consumes as
//! black boxes: the HMAC-MD5 construction for the password field and the
//! SHA-1 checksum digest.

use vstd::prelude::*;
use crypto::digest::Digest;
use crypto::mac::Mac;

verus! {

/// What HMAC-MD5 with an empty key returns for a password's UTF-8
/// bytes: sixteen bytes that depend on the password's characters alone.
pub uninterp spec fn hmac_md5_of(password: Seq<char>) -> Seq<u8>;

/// What SHA-1 returns for a string's UTF-8 bytes: twenty bytes that depend
/// on the characters alone.
pub uninterp spec fn sha1_of(input: Seq<char>) -> Seq<u8>;

/// Relies on crypto's Md5 and Hmac: HMAC-MD5 with an empty key over the
/// password's bytes. The result is a pure function of the password; its
/// sixteen-byte length is the MD5 output size.
#[verifier::external_body]
pub(crate) fn hmac_md5_digest(password: &str) -> (r: Vec<u8>)
    ensures
        r@ == hmac_md5_of(password@),
        r@.len() == 16,
{
    let mut hmac = crypto::hmac::Hmac::new(crypto::md5::Md5::new(), &[]);
    hmac.input(password.as_bytes());
    hmac.result().code().to_vec()
}

/// Relies on crypto's Sha1: the digest of the input's UTF-8 bytes. The
/// result is a pure function of the input; its twenty-byte length is the
/// SHA-1 output size.
#[verifier::external_body]
pub(crate) fn sha1_digest(input: &str) -> (r: Vec<u8>)
    ensures
        r@ == sha1_of(input@),
        r@.len() == 20,
{
    let mut h = crypto::sha1::Sha1::new();
    h.input_str(input);
    let mut out = [0u8; 20];
    h.result(&mut out);
    out.to_vec()
}

} // verus!
