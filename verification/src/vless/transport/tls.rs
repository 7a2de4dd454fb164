//! Where the certificate of a TLS server comes from.

use crate::config::{opt_str, VlessTransportConfig};
use vstd::prelude::*;
use vstd::utf8;

verus! {

/// Where a certificate comes from.
#[derive(Debug)]
pub enum CertSource<'a> {
    /// From two PEM files: the certificates, and the key of the first.
    Files { cert: &'a str, key: &'a str },
    /// From this server, for this domain.
    SelfSigned { domain: &'a str },
}

/// Where a certificate comes from, over mathematical values.
pub enum CertSourceView {
    Files { cert: Seq<char>, key: Seq<char> },
    SelfSigned { domain: Seq<char> },
}

impl View for CertSource<'_> {
    type V = CertSourceView;

    open spec fn view(&self) -> CertSourceView {
        match self {
            CertSource::Files { cert, key } => CertSourceView::Files { cert: cert@, key: key@ },
            CertSource::SelfSigned { domain } => CertSourceView::SelfSigned { domain: domain@ },
        }
    }
}

/// The certificate comes from files where both are configured, and is made
/// for the configured domain, or else for `localhost`, where they are not.
pub open spec fn source_of(
    cert: Option<Seq<char>>,
    key: Option<Seq<char>>,
    domain: Option<Seq<char>>,
) -> CertSourceView {
    match (cert, key) {
        (Some(cert), Some(key)) => CertSourceView::Files { cert, key },
        _ => CertSourceView::SelfSigned {
            domain: match domain {
                Some(d) => d,
                None => "localhost"@,
            },
        },
    }
}

/// Decides where a certificate comes from.
pub fn cert_source<'a>(
    cert: Option<&'a str>,
    key: Option<&'a str>,
    domain: Option<&'a str>,
) -> (r: CertSource<'a>)
    ensures
        r@ == source_of(opt_str(cert), opt_str(key), opt_str(domain)),
{
    match (cert, key) {
        (Some(cert), Some(key)) => CertSource::Files { cert, key },
        _ => CertSource::SelfSigned {
            domain: match domain {
                Some(d) => d,
                None => "localhost",
            },
        },
    }
}

/// Decides where the certificate of the VLESS server comes from.
pub fn vless_cert_source(cfg: &VlessTransportConfig) -> (r: CertSource<'_>)
    ensures
        r@ == source_of(
            crate::config::opt_text(cfg.cert),
            crate::config::opt_text(cfg.key),
            Some(cfg.self_signed_domain@),
        ),
{
    let cert = match &cfg.cert {
        Some(s) => Some(s.as_str()),
        None => None,
    };
    let key = match &cfg.key {
        Some(s) => Some(s.as_str()),
        None => None,
    };
    cert_source(cert, key, Some(cfg.self_signed_domain.as_str()))
}

/// Why there is no certificate.
#[derive(Clone, Copy, Debug, PartialEq, Eq, Structural)]
pub enum TlsError {
    /// The file of certificates is no PEM file.
    BadCerts,
    /// There is no certificate in the file.
    NoCerts,
    /// The file of the key is no PEM file.
    BadKey,
    /// There is no private key in the file.
    NoKey,
    /// None could be made.
    NotMade,
}

/// The form of a private key.
#[derive(Clone, Copy, Debug, PartialEq, Eq, Structural)]
pub enum KeyForm {
    Pkcs1,
    Sec1,
    Pkcs8,
}

/// A private key in DER.
#[derive(Debug)]
pub struct PrivateKey {
    pub form: KeyForm,
    pub der: Vec<u8>,
}

/// A certificate in DER with those that vouch for it, and its private key.
#[derive(Debug)]
pub struct Certificate {
    pub chain: Vec<Vec<u8>>,
    pub key: PrivateKey,
}

/// The certificates in a PEM file; `None` where it is malformed.
pub uninterp spec fn pem_certs(pem: Seq<u8>) -> Option<Seq<Seq<u8>>>;

/// The first private key in a PEM file, and its form; `None` where the file is
/// malformed before it.
pub uninterp spec fn pem_key(pem: Seq<u8>) -> Option<Option<(KeyForm, Seq<u8>)>>;

/// The bytes of each vector.
pub open spec fn all_bytes(v: Seq<Vec<u8>>) -> Seq<Seq<u8>> {
    v.map_values(|x: Vec<u8>| x@)
}

/// Certificates that were read, as bytes.
pub open spec fn opt_chain(o: Option<Vec<Vec<u8>>>) -> Option<Seq<Seq<u8>>> {
    match o {
        Some(v) => Some(all_bytes(v@)),
        None => None,
    }
}

/// A private key that was looked for, as bytes.
pub open spec fn opt_key(o: Option<Option<PrivateKey>>) -> Option<Option<(KeyForm, Seq<u8>)>> {
    match o {
        Some(Some(k)) => Some(Some((k.form, k.der@))),
        Some(None) => Some(None),
        None => None,
    }
}

/// `certs` of the `rustls-pemfile` crate, on the bytes of a file: the
/// certificates in it, up to the first that is malformed, which makes the
/// whole `None`.
#[verifier::external_body]
fn read_certs(pem: &[u8]) -> (r: Option<Vec<Vec<u8>>>)
    ensures
        opt_chain(r) == pem_certs(pem@),
{
    let mut rest = pem;
    rustls_pemfile::certs(&mut rest).map(|c| c.map(|der| der.to_vec())).collect::<Result<Vec<_>, _>>().ok()
}

/// `private_key` of the `rustls-pemfile` crate, on the bytes of a file.
#[verifier::external_body]
fn read_key(pem: &[u8]) -> (r: Option<Option<PrivateKey>>)
    ensures
        opt_key(r) == pem_key(pem@),
{
    let mut rest = pem;
    let key = match rustls_pemfile::private_key(&mut rest).ok()? {
        Some(key) => key,
        None => return Some(None),
    };
    let form = match key {
        rustls::pki_types::PrivateKeyDer::Pkcs1(_) => KeyForm::Pkcs1,
        rustls::pki_types::PrivateKeyDer::Sec1(_) => KeyForm::Sec1,
        rustls::pki_types::PrivateKeyDer::Pkcs8(_) => KeyForm::Pkcs8,
        _ => return None,
    };
    Some(Some(PrivateKey { form, der: key.secret_der().to_vec() }))
}

/// A certificate for a domain and the key that it is signed with, where the
/// random bytes `drawn` go into making them; `None` where none can be made.
pub uninterp spec fn self_signed_pair(domain: Seq<char>, drawn: Seq<u8>) -> Option<
    (Seq<u8>, Seq<u8>),
>;

/// A certificate and its key, as bytes.
pub open spec fn opt_pair(o: Option<(Vec<u8>, Vec<u8>)>) -> Option<(Seq<u8>, Seq<u8>)> {
    match o {
        Some((cert, key)) => Some((cert@, key@)),
        None => None,
    }
}

/// `generate_simple_self_signed` of the `rcgen` crate: a certificate for one
/// name and the key that it is signed with, both in DER. They depend on the
/// name and on what is drawn by chance, and on nothing else.
#[verifier::external_body]
fn generate_self_signed(domain: &str) -> (r: Option<(Vec<u8>, Vec<u8>)>)
    ensures
        exists|drawn: Seq<u8>| opt_pair(r) == #[trigger] self_signed_pair(domain@, drawn),
{
    let made = rcgen::generate_simple_self_signed(vec![domain.to_string()]).ok()?;
    Some((made.cert.der().to_vec(), made.key_pair.serialize_der()))
}

/// The chain of certificates that a file holds: at least one.
pub open spec fn chain_in(certs: Option<Seq<Seq<u8>>>) -> Result<Seq<Seq<u8>>, TlsError> {
    match certs {
        None => Err(TlsError::BadCerts),
        Some(chain) => if chain.len() == 0 {
            Err(TlsError::NoCerts)
        } else {
            Ok(chain)
        },
    }
}

/// Takes the certificates of a file for a chain.
pub fn check_chain(certs: Option<Vec<Vec<u8>>>) -> (r: Result<Vec<Vec<u8>>, TlsError>)
    ensures
        match (r, chain_in(opt_chain(certs))) {
            (Ok(chain), Ok(view)) => all_bytes(chain@) == view,
            (Err(e), Err(why)) => e == why,
            _ => false,
        },
{
    match certs {
        None => Err(TlsError::BadCerts),
        Some(chain) => if chain.len() == 0 {
            Err(TlsError::NoCerts)
        } else {
            Ok(chain)
        },
    }
}

/// Reads a chain of certificates from a PEM file.
pub fn load_certs(pem: &[u8]) -> (r: Result<Vec<Vec<u8>>, TlsError>)
    ensures
        match (r, chain_in(pem_certs(pem@))) {
            (Ok(chain), Ok(view)) => all_bytes(chain@) == view,
            (Err(e), Err(why)) => e == why,
            _ => false,
        },
{
    check_chain(read_certs(pem))
}

/// The private key that a file holds.
pub open spec fn key_in(key: Option<Option<(KeyForm, Seq<u8>)>>) -> Result<
    (KeyForm, Seq<u8>),
    TlsError,
> {
    match key {
        None => Err(TlsError::BadKey),
        Some(None) => Err(TlsError::NoKey),
        Some(Some(k)) => Ok(k),
    }
}

/// Takes what was found in a file for a private key.
pub fn check_key(key: Option<Option<PrivateKey>>) -> (r: Result<PrivateKey, TlsError>)
    ensures
        match (r, key_in(opt_key(key))) {
            (Ok(k), Ok(view)) => (k.form, k.der@) == view,
            (Err(e), Err(why)) => e == why,
            _ => false,
        },
{
    match key {
        None => Err(TlsError::BadKey),
        Some(None) => Err(TlsError::NoKey),
        Some(Some(k)) => Ok(k),
    }
}

/// Reads a private key from a PEM file.
pub fn load_key(pem: &[u8]) -> (r: Result<PrivateKey, TlsError>)
    ensures
        match (r, key_in(pem_key(pem@))) {
            (Ok(k), Ok(view)) => (k.form, k.der@) == view,
            (Err(e), Err(why)) => e == why,
            _ => false,
        },
{
    check_key(read_key(pem))
}

/// The certificate of a pair that was made: alone in its chain, with its key
/// in the form that keys are made in.
pub fn certificate_of(made: Option<(Vec<u8>, Vec<u8>)>) -> (r: Result<Certificate, TlsError>)
    ensures
        match made {
            None => r == Err::<Certificate, TlsError>(TlsError::NotMade),
            Some((cert, key)) => {
                &&& r is Ok
                &&& r->Ok_0.chain@ == seq![cert]
                &&& r->Ok_0.key.form == KeyForm::Pkcs8
                &&& r->Ok_0.key.der == key
            },
        },
{
    match made {
        None => Err(TlsError::NotMade),
        Some((cert, key)) => {
            let mut chain: Vec<Vec<u8>> = Vec::new();
            chain.push(cert);
            assert(chain@ =~= seq![cert]);
            Ok(Certificate { chain, key: PrivateKey { form: KeyForm::Pkcs8, der: key } })
        },
    }
}

/// Makes a certificate for a domain that nobody else vouches for.
pub fn self_signed(domain: &str) -> (r: Result<Certificate, TlsError>)
    ensures
        match r {
            Ok(c) => c.chain@.len() == 1 && c.key.form == KeyForm::Pkcs8,
            Err(e) => e == TlsError::NotMade,
        },
        exists|drawn: Seq<u8>|
            match (r, #[trigger] self_signed_pair(domain@, drawn)) {
                (Ok(c), Some((cert, key))) => c.chain@[0]@ == cert && c.key.der@ == key,
                (Err(_), None) => true,
                _ => false,
            },
{
    certificate_of(generate_self_signed(domain))
}

/// The protocols that the server offers inside TLS.
pub fn alpn_protocols() -> (r: Vec<Vec<u8>>)
    ensures
        r@.len() == 2,
        r@[0]@ == utf8::encode_utf8("h2"@),
        r@[1]@ == utf8::encode_utf8("http/1.1"@),
{
    let mut r: Vec<Vec<u8>> = Vec::new();
    r.push(vstd::slice::slice_to_vec("h2".as_bytes()));
    r.push(vstd::slice::slice_to_vec("http/1.1".as_bytes()));
    r
}

/// A certificate comes from files where both are configured. Where one of them
/// is missing it is made, for the configured domain, or else for `localhost`.
pub proof fn law_where_certificates_come_from(
    cert: Seq<char>,
    key: Seq<char>,
    domain: Seq<char>,
    any: Option<Seq<char>>,
)
    ensures
        source_of(Some(cert), Some(key), any) == (CertSourceView::Files { cert, key }),
        source_of(None, any, Some(domain)) == (CertSourceView::SelfSigned { domain }),
        source_of(any, None, Some(domain)) == (CertSourceView::SelfSigned { domain }),
        source_of(None, any, None) == (CertSourceView::SelfSigned { domain: "localhost"@ }),
        source_of(any, None, None) == (CertSourceView::SelfSigned { domain: "localhost"@ }),
{
}

/// What a file holds is taken as it is; a file that is malformed and one that
/// holds nothing are told apart.
pub proof fn law_what_files_hold(chain: Seq<Seq<u8>>, key: (KeyForm, Seq<u8>))
    ensures
        chain_in(None) == Err::<Seq<Seq<u8>>, TlsError>(TlsError::BadCerts),
        chain.len() == 0 ==> chain_in(Some(chain)) == Err::<Seq<Seq<u8>>, TlsError>(
            TlsError::NoCerts,
        ),
        chain.len() > 0 ==> chain_in(Some(chain)) == Ok::<Seq<Seq<u8>>, TlsError>(chain),
        key_in(None) == Err::<(KeyForm, Seq<u8>), TlsError>(TlsError::BadKey),
        key_in(Some(None)) == Err::<(KeyForm, Seq<u8>), TlsError>(TlsError::NoKey),
        key_in(Some(Some(key))) == Ok::<(KeyForm, Seq<u8>), TlsError>(key),
{
}

/// Certificates and keys are seen with all of their bytes.
pub proof fn law_certificates_are_seen(
    v: Vec<Vec<u8>>,
    i: int,
    key: PrivateKey,
    a: Vec<u8>,
    b: Vec<u8>,
    cert: &str,
    name: &str,
)
    requires
        0 <= i < v@.len(),
    ensures
        all_bytes(v@).len() == v@.len(),
        all_bytes(v@)[i] == v@[i]@,
        opt_chain(Some(v)) == Some(all_bytes(v@)),
        opt_chain(None) is None,
        opt_key(Some(Some(key))) == Some(Some((key.form, key.der@))),
        opt_key(Some(None)) == Some(None::<(KeyForm, Seq<u8>)>),
        opt_key(None) is None,
        opt_pair(Some((a, b))) == Some((a@, b@)),
        opt_pair(None) is None,
        (CertSource::Files { cert, key: name })@ == (CertSourceView::Files {
            cert: cert@,
            key: name@,
        }),
        (CertSource::SelfSigned { domain: name })@ == (CertSourceView::SelfSigned {
            domain: name@,
        }),
{
}

} // verus!
