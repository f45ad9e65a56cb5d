//! The trusted boundary to outside crates: each function here makes one
//! call into an outside crate and states only what that crate's source
//! shows. Everything downstream is verified against these contracts.

use vstd::prelude::*;

verus! {

/// The BLAKE3 digest of a byte string; a function of the bytes alone.
pub uninterp spec fn blake3_of(input: Seq<u8>) -> Seq<u8>;

/// Relies on blake3::hash: the 32-byte BLAKE3 digest of the input, a
/// function of the input bytes alone.
#[verifier::external_body]
pub(crate) fn blake3_digest(input: &[u8]) -> (r: Vec<u8>)
    ensures
        r@ == blake3_of(input@),
        r@.len() == 32,
{
    blake3::hash(input).as_bytes().to_vec()
}

/// The milliseconds denoted by a human-readable duration string, when the
/// string parses; a function of the string alone.
pub uninterp spec fn duration_millis_of(s: Seq<char>) -> Option<u128>;

/// Relies on humantime::parse_duration: the duration a string such as
/// "3s" or "2h 37min" denotes, in milliseconds, a function of the string
/// alone; `None` when the string does not parse.
#[verifier::external_body]
pub(crate) fn parse_human_duration(s: &str) -> (r: Option<u128>)
    ensures
        r == duration_millis_of(s@),
{
    match humantime::parse_duration(s) {
        Ok(d) => Some(d.as_millis()),
        Err(_) => None,
    }
}

/// Relies on uuid::Uuid::new_v4: a freshly generated random uuid, as its
/// 128-bit value. Nothing can be promised of a random value.
#[verifier::external_body]
pub(crate) fn fresh_uuid() -> u128 {
    uuid::Uuid::new_v4().as_u128()
}

/// The DER certificates of the PEM sections of a byte string, a function
/// of the bytes alone; nothing when any section fails to parse.
pub uninterp spec fn pem_certs_of(pem: Seq<u8>) -> Option<Seq<Seq<u8>>>;

/// Relies on rustls_pemfile::certs: the DER bytes of every certificate
/// section of the PEM input, in order, a function of the bytes alone;
/// `None` when a section fails to parse.
#[verifier::external_body]
pub(crate) fn pem_certs(pem: &[u8]) -> (r: Option<Vec<Vec<u8>>>)
    ensures
        match r {
            Some(v) => pem_certs_of(pem@) == Some(v.deep_view()),
            None => pem_certs_of(pem@) is None,
        },
{
    let mut rd = pem;
    let mut out: Vec<Vec<u8>> = Vec::new();
    for cert in rustls_pemfile::certs(&mut rd) {
        match cert {
            Ok(der) => out.push(der.as_ref().to_vec()),
            Err(_) => {
                return None;
            },
        }
    }
    Some(out)
}

/// The DER bytes of the first private-key PEM section of a byte string, a
/// function of the bytes alone: the key when one exists, an inner `None`
/// when no key section exists, and an outer `None` on a parse failure.
pub uninterp spec fn pem_key_of(pem: Seq<u8>) -> Option<Option<Seq<u8>>>;

/// Relies on rustls_pemfile::private_key: the first PEM section holding a
/// private key of any kind, as its DER bytes, a function of the bytes
/// alone.
#[verifier::external_body]
pub(crate) fn pem_private_key(pem: &[u8]) -> (r: Option<Option<Vec<u8>>>)
    ensures
        match r {
            Some(Some(v)) => pem_key_of(pem@) == Some(Some(v@)),
            Some(None) => pem_key_of(pem@) == Some(None::<Seq<u8>>),
            None => pem_key_of(pem@) is None,
        },
{
    let mut rd = pem;
    match rustls_pemfile::private_key(&mut rd) {
        Ok(Some(key)) => Some(Some(key.secret_der().to_vec())),
        Ok(None) => Some(None),
        Err(_) => None,
    }
}

} // verus!
