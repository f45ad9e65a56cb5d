//! Parsing TLS material from the bytes of the configured files: a
//! certificate chain in DER or PEM, and a private key in DER or PEM. The
//! file reads, the crypto provider and the hot-reload watcher live outside
//! the library and call in with the bytes.

use vstd::prelude::*;
use vstd::string::StringSliceAdditionalSpecFns;

use crate::errors::Error;
use crate::outside::{pem_certs, pem_certs_of, pem_key_of, pem_private_key};
use crate::stats::bytes_eq;

verus! {

/// Whether a path names a DER file: it ends in ".der"; anything else is
/// read as PEM.
pub fn has_der_extension(path: &str) -> (r: bool)
    ensures
        r == (path.spec_bytes().len() >= 4 && path.spec_bytes().subrange(
            path.spec_bytes().len() - 4,
            path.spec_bytes().len() as int,
        ) == ".der".spec_bytes()),
{
    let b = path.as_bytes();
    if b.len() < 4 {
        return false;
    }
    let tail = vstd::slice::slice_subrange(b, b.len() - 4, b.len());
    bytes_eq(tail, ".der".as_bytes())
}

/// The certificate chain of the configured file: the bytes themselves for
/// a DER file, the parsed PEM sections otherwise; a PEM parse failure is a
/// TLS setup error.
pub fn load_cert_chain(path: &str, bytes: Vec<u8>) -> (r: Result<Vec<Vec<u8>>, Error>)
    ensures
        ({
            let der = path.spec_bytes().len() >= 4 && path.spec_bytes().subrange(
                path.spec_bytes().len() - 4,
                path.spec_bytes().len() as int,
            ) == ".der".spec_bytes();
            match r {
                Ok(chain) => if der {
                    chain@.len() == 1 && chain@[0]@ == bytes@
                } else {
                    pem_certs_of(bytes@) == Some(chain.deep_view())
                },
                Err(e) => e == Error::TlsSetup && !der && pem_certs_of(bytes@) is None,
            }
        }),
{
    if has_der_extension(path) {
        let mut chain: Vec<Vec<u8>> = Vec::new();
        chain.push(bytes);
        Ok(chain)
    } else {
        match pem_certs(bytes.as_slice()) {
            Some(chain) => Ok(chain),
            None => Err(Error::TlsSetup),
        }
    }
}

/// The private key of the configured file: the bytes themselves for a DER
/// file, the first PEM key section otherwise; a parse failure or a PEM
/// file without a key is a TLS setup error.
pub fn load_priv_key(path: &str, bytes: Vec<u8>) -> (r: Result<Vec<u8>, Error>)
    ensures
        ({
            let der = path.spec_bytes().len() >= 4 && path.spec_bytes().subrange(
                path.spec_bytes().len() - 4,
                path.spec_bytes().len() as int,
            ) == ".der".spec_bytes();
            match r {
                Ok(key) => if der {
                    key@ == bytes@
                } else {
                    pem_key_of(bytes@) == Some(Some(key@))
                },
                Err(e) => e == Error::TlsSetup && !der && (pem_key_of(bytes@) is None
                    || pem_key_of(bytes@) == Some(None::<Seq<u8>>)),
            }
        }),
{
    if has_der_extension(path) {
        Ok(bytes)
    } else {
        match pem_private_key(bytes.as_slice()) {
            Some(Some(key)) => Ok(key),
            Some(None) => Err(Error::TlsSetup),
            None => Err(Error::TlsSetup),
        }
    }
}

} // verus!
