//! The certificate with which a repository is signed.

use vstd::prelude::*;
use x509_certificate::X509Certificate;
use crate::common::CvmfsError;

verus! {

/// Suffix of the objects that are certificates.
pub const CERTIFICATE_ROOT_PREFIX: &'static str = "X";

/// An X.509 certificate as the `x509_certificate` crate holds it. What is
/// in it is not looked at here.
#[verifier::external_type_specification]
#[verifier::external_body]
pub struct ExX509Certificate(X509Certificate);

/// The `x509_certificate` crate reads the bytes as a certificate in DER
/// encoding.
pub uninterp spec fn is_der_certificate(bytes: Seq<u8>) -> bool;

/// `X509Certificate::from_der`: the certificate that the bytes encode, or
/// nothing where they encode none. Which bytes do is only given a name.
#[verifier::external_body]
fn read_der(bytes: &[u8]) -> (certificate: Option<X509Certificate>)
    ensures
        certificate is Some <==> is_der_certificate(bytes@),
{
    X509Certificate::from_der(bytes).ok()
}

/// The certificate of a repository.
#[derive(Debug)]
pub struct Certificate {
    /// The certificate itself.
    pub openssl_certificate: X509Certificate,
}

impl Certificate {
    /// The certificate that was read, or the error that none was.
    pub fn from_parsed(parsed: Option<X509Certificate>) -> (certificate: Result<
        Certificate,
        CvmfsError,
    >)
        ensures
            match parsed {
                Some(read) => certificate matches Ok(c) && c.openssl_certificate == read,
                None => certificate matches Err(e) && e == CvmfsError::Certificate,
            },
    {
        match parsed {
            Some(openssl_certificate) => Ok(Certificate { openssl_certificate }),
            None => Err(CvmfsError::Certificate),
        }
    }

    /// Reads a certificate in DER encoding.
    pub fn try_from(bytes: &[u8]) -> (certificate: Result<Certificate, CvmfsError>)
        ensures
            certificate is Ok <==> is_der_certificate(bytes@),
            certificate matches Err(e) ==> e == CvmfsError::Certificate,
    {
        Self::from_parsed(read_der(bytes))
    }
}

} // verus!
