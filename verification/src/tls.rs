//! TLS configuration from a PEM certificate chain and private key.

use std::sync::Arc;

use vstd::prelude::*;

use crate::error::Error;
use crate::text::{chars_of, push_all, string_of};

verus! {

#[verifier::external_type_specification]
#[verifier::external_body]
pub struct ExServerConfig(rustls::ServerConfig);

/// The encoding of a private key.
#[derive(PartialEq, Eq, Structural, Clone, Copy, Debug)]
pub enum KeyKind {
    /// PKCS#1 (RSA).
    Pkcs1,
    /// SEC1 (elliptic curve).
    Sec1,
    /// PKCS#8.
    Pkcs8,
}

/// What reading the certificates of a PEM text gives
/// (`rustls_pemfile::certs`, stopping at the first error): the DER bytes of
/// each certificate in order, or the text of the error.
pub uninterp spec fn pem_certs_read(pem: Seq<u8>) -> Result<Seq<Seq<u8>>, Seq<char>>;

/// What reading the first private key of a PEM text gives
/// (`rustls_pemfile::private_key`): its encoding and DER bytes, `None`
/// when there is none, or the text of the error.
pub uninterp spec fn pem_key_read(pem: Seq<u8>) -> Result<Option<(KeyKind, Seq<u8>)>, Seq<char>>;

/// What building a server configuration with one certificate chain and
/// key gives (`ServerConfig::builder().with_no_client_auth()
/// .with_single_cert(..)`): `None` when it succeeds, else the text of the
/// error (a key that does not parse or does not match the certificate).
pub uninterp spec fn single_cert_error(certs: Seq<Seq<u8>>, kind: KeyKind, key: Seq<u8>) -> Option<Seq<char>>;

/// The certificate chain and key a server configuration was made with.
pub uninterp spec fn config_made_from(c: rustls::ServerConfig) -> (Seq<Seq<u8>>, KeyKind, Seq<u8>);

/// The views of a list of byte vectors.
pub open spec fn byte_views(v: Seq<Vec<u8>>) -> Seq<Seq<u8>> {
    v.map_values(|b: Vec<u8>| b@)
}

/// `rustls_pemfile::certs` over the bytes of a PEM text, collected: the DER
/// bytes of each certificate, or the first error's text.
#[verifier::external_body]
fn pem_certs(pem: &[u8]) -> (r: Result<Vec<Vec<u8>>, String>)
    ensures
        match r {
            Ok(v) => pem_certs_read(pem@) == Ok::<Seq<Seq<u8>>, Seq<char>>(byte_views(v@)),
            Err(m) => pem_certs_read(pem@) == Err::<Seq<Seq<u8>>, Seq<char>>(m@),
        },
{
    let mut rd: &[u8] = pem;
    let mut out: Vec<Vec<u8>> = Vec::new();
    for c in rustls_pemfile::certs(&mut rd) {
        match c {
            Ok(c) => out.push(c.as_ref().to_vec()),
            Err(e) => return Err(e.to_string()),
        }
    }
    Ok(out)
}

/// `rustls_pemfile::private_key` over the bytes of a PEM text: the first
/// key's encoding and DER bytes, `None` when there is none, or the error's
/// text. (That function yields only the three encodings; another one,
/// which it does not make, would be reported as an error.)
#[verifier::external_body]
fn pem_private_key(pem: &[u8]) -> (r: Result<Option<(KeyKind, Vec<u8>)>, String>)
    ensures
        match r {
            Ok(Some((k, b))) => pem_key_read(pem@) == Ok::<Option<(KeyKind, Seq<u8>)>, Seq<char>>(Some((k, b@))),
            Ok(None) => pem_key_read(pem@) == Ok::<Option<(KeyKind, Seq<u8>)>, Seq<char>>(None),
            Err(m) => pem_key_read(pem@) == Err::<Option<(KeyKind, Seq<u8>)>, Seq<char>>(m@),
        },
{
    let mut rd: &[u8] = pem;
    match rustls_pemfile::private_key(&mut rd) {
        Ok(Some(rustls::pki_types::PrivateKeyDer::Pkcs1(k))) => Ok(Some((KeyKind::Pkcs1, k.secret_pkcs1_der().to_vec()))),
        Ok(Some(rustls::pki_types::PrivateKeyDer::Sec1(k))) => Ok(Some((KeyKind::Sec1, k.secret_sec1_der().to_vec()))),
        Ok(Some(rustls::pki_types::PrivateKeyDer::Pkcs8(k))) => Ok(Some((KeyKind::Pkcs8, k.secret_pkcs8_der().to_vec()))),
        Ok(Some(_)) => Err("unsupported private key encoding".to_string()),
        Ok(None) => Ok(None),
        Err(e) => Err(e.to_string()),
    }
}

/// `ServerConfig::builder().with_no_client_auth().with_single_cert(certs,
/// key)` with the key rebuilt in its encoding: the configuration, or the
/// error's text. The builder takes the crypto provider the crate's
/// features select (`ring`, the only one enabled).
#[verifier::external_body]
fn single_cert_config(certs: Vec<Vec<u8>>, kind: KeyKind, key: Vec<u8>) -> (r: Result<rustls::ServerConfig, String>)
    ensures
        match r {
            Ok(c) => single_cert_error(byte_views(certs@), kind, key@) is None && config_made_from(c) == (
                byte_views(certs@),
                kind,
                key@,
            ),
            Err(m) => single_cert_error(byte_views(certs@), kind, key@) == Some(m@),
        },
{
    let chain: Vec<rustls::pki_types::CertificateDer<'static>> = certs.into_iter().map(rustls::pki_types::CertificateDer::from).collect();
    let key: rustls::pki_types::PrivateKeyDer<'static> = match kind {
        KeyKind::Pkcs1 => rustls::pki_types::PrivatePkcs1KeyDer::from(key).into(),
        KeyKind::Sec1 => rustls::pki_types::PrivateSec1KeyDer::from(key).into(),
        KeyKind::Pkcs8 => rustls::pki_types::PrivatePkcs8KeyDer::from(key).into(),
    };
    rustls::ServerConfig::builder().with_no_client_auth().with_single_cert(chain, key).map_err(|e| e.to_string())
}

/// A TLS error: `label` followed by a message.
fn tls_error(label: &str, message: &str) -> (e: Error)
    ensures
        e matches Error::Tls(m) && m@ == label@ + message@,
{
    let mut t = chars_of(label);
    let mc = chars_of(message);
    push_all(&mut t, mc.as_slice());
    Error::Tls(string_of(t.as_slice()))
}

/// What making a TLS configuration from a certificate PEM text and a key
/// PEM text gives, step by step as [`tls_config_from_pem`] takes them: the
/// certificates are read first (none at all is an error), then the key
/// (none is an error), then the configuration is built from both.
pub open spec fn tls_outcome(cert_pem: Seq<u8>, key_pem: Seq<u8>) -> Result<(Seq<Seq<u8>>, KeyKind, Seq<u8>), Seq<char>> {
    match pem_certs_read(cert_pem) {
        Err(m) => Err("Failed to parse certificates: "@ + m),
        Ok(certs) => if certs.len() == 0 {
            Err("No certificates found in cert file"@)
        } else {
            match pem_key_read(key_pem) {
                Err(m) => Err("Failed to parse private key: "@ + m),
                Ok(None) => Err("No private key found in key file"@),
                Ok(Some((kind, key))) => match single_cert_error(certs, kind, key) {
                    Some(m) => Err("TLS configuration error: "@ + m),
                    None => Ok((certs, kind, key)),
                },
            }
        },
    }
}

/// TLS configuration for HTTPS.
pub struct TlsConfig {
    config: Arc<rustls::ServerConfig>,
}

impl TlsConfig {
    /// The certificate chain and key this configuration was made with.
    pub closed spec fn made_from(&self) -> (Seq<Seq<u8>>, KeyKind, Seq<u8>) {
        config_made_from(*self.config)
    }

    /// The underlying rustls configuration.
    pub fn server_config(&self) -> (c: Arc<rustls::ServerConfig>)
        ensures
            config_made_from(*c) == self.made_from(),
    {
        Arc::clone(&self.config)
    }
}

/// Makes a TLS configuration from the bytes of a PEM certificate chain and
/// of a PEM private key: `Error::Tls` with the step's label when the
/// certificates do not parse or there are none, when the key does not parse
/// or there is none, or when the two do not make a configuration.
pub fn tls_config_from_pem(cert_pem: &[u8], key_pem: &[u8]) -> (r: Result<TlsConfig, Error>)
    ensures
        match tls_outcome(cert_pem@, key_pem@) {
            Ok(made) => r matches Ok(c) && c.made_from() == made,
            Err(m) => r matches Err(Error::Tls(t)) && t@ == m,
        },
{
    proof {
        reveal_strlit("No certificates found in cert file");
        reveal_strlit("No private key found in key file");
    }
    let certs = match pem_certs(cert_pem) {
        Ok(c) => c,
        Err(m) => {
            return Err(tls_error("Failed to parse certificates: ", m.as_str()));
        },
    };
    if certs.len() == 0 {
        assert(byte_views(certs@).len() == 0);
        return Err(Error::Tls("No certificates found in cert file".to_owned()));
    }
    let (kind, key) = match pem_private_key(key_pem) {
        Ok(Some(k)) => k,
        Ok(None) => {
            return Err(Error::Tls("No private key found in key file".to_owned()));
        },
        Err(m) => {
            return Err(tls_error("Failed to parse private key: ", m.as_str()));
        },
    };
    match single_cert_config(certs, kind, key) {
        Ok(c) => Ok(TlsConfig { config: Arc::new(c) }),
        Err(m) => Err(tls_error("TLS configuration error: ", m.as_str())),
    }
}

} // verus!
