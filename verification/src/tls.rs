//! Where the TLS certificate chain and private key are read from.
use vstd::prelude::*;

verus! {

/// Paths to a TLS certificate chain and private key.
#[derive(Debug, Clone)]
pub struct TlsConfig {
    pub cert_path: String,
    pub key_path: String,
}

impl TlsConfig {
    /// Create a `TlsConfig` from individual paths.
    pub fn new(cert_path: String, key_path: String) -> (r: Self)
        ensures
            r.cert_path@ == cert_path@,
            r.key_path@ == key_path@,
    {
        TlsConfig { cert_path, key_path }
    }
}

} // verus!
