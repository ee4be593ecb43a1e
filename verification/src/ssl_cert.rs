//! A site's certificate, as the configuration names it.

use vstd::prelude::*;
use vstd::string::StringExecFns;

verus! {

/// Where a site's certificate and its private key are kept, both in PEM.
#[derive(Debug)]
pub struct SslCert {
    /// The path of the certificate.
    pub cert_file: String,
    /// The path of the private key.
    pub key_file: String,
}

impl View for SslCert {
    type V = (Seq<char>, Seq<char>);

    open spec fn view(&self) -> (Seq<char>, Seq<char>) {
        (self.cert_file@, self.key_file@)
    }
}

impl Clone for SslCert {
    fn clone(&self) -> (r: Self)
        ensures
            r == *self,
    {
        SslCert { cert_file: self.cert_file.clone(), key_file: self.key_file.clone() }
    }
}

impl SslCert {
    /// Names a certificate and its private key.
    pub fn new(cert_file: &str, key_file: &str) -> (r: SslCert)
        ensures
            r@ == (cert_file@, key_file@),
    {
        SslCert { cert_file: String::from_str(cert_file), key_file: String::from_str(key_file) }
    }
}

} // verus!
