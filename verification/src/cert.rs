//! Certificates: a fingerprint, loading from PEM, and making one that signs
//! itself.
use crate::secret;
use rcgen::{CertificateParams, DistinguishedName, DnType, KeyPair, SanType};
use rustls::pki_types::PrivateKeyDer;
use sha2::{Digest, Sha256};
use vstd::prelude::*;
use vstd::utf8::*;

verus! {

/// The encodings of a private key.
#[derive(Debug, Clone, Copy, PartialEq, Eq, Structural)]
pub enum KeyForm {
    Pkcs1,
    Sec1,
    Pkcs8,
    /// None of the others.
    Other,
}

/// A private key in DER.
#[derive(Debug)]
pub struct PrivateKey {
    pub form: KeyForm,
    pub der: Vec<u8>,
}

impl View for PrivateKey {
    type V = (KeyForm, Seq<u8>);

    open spec fn view(&self) -> (KeyForm, Seq<u8>) {
        (self.form, self.der@)
    }
}

/// Why there is no certificate.
#[derive(Debug)]
pub enum CertError {
    /// A failure of reading or of key generation, in its own words.
    Other(String),
    NoCertificate,
    NoKey,
    /// A failure of signing, in its own words.
    Generation(String),
}

/// A `CertError` as a mathematical value.
pub enum CertErrorView {
    Other(Seq<char>),
    NoCertificate,
    NoKey,
    Generation(Seq<char>),
}

impl View for CertError {
    type V = CertErrorView;

    open spec fn view(&self) -> CertErrorView {
        match self {
            CertError::Other(t) => CertErrorView::Other(t@),
            CertError::NoCertificate => CertErrorView::NoCertificate,
            CertError::NoKey => CertErrorView::NoKey,
            CertError::Generation(t) => CertErrorView::Generation(t@),
        }
    }
}

impl CertErrorView {
    /// The error in words.
    pub open spec fn message_text(self) -> Seq<char> {
        match self {
            CertErrorView::Other(t) => t,
            CertErrorView::NoCertificate => "no certificate found in PEM file"@,
            CertErrorView::NoKey => "no private key found in PEM file"@,
            CertErrorView::Generation(t) => "cert generation failed: "@ + t,
        }
    }
}

impl CertError {
    pub fn message(&self) -> (r: String)
        ensures
            r@ == self@.message_text(),
    {
        match self {
            CertError::Other(t) => t.as_str().to_string(),
            CertError::NoCertificate => "no certificate found in PEM file".to_string(),
            CertError::NoKey => "no private key found in PEM file".to_string(),
            CertError::Generation(t) => {
                let mut s = "cert generation failed: ".to_string();
                s.append(t.as_str());
                s
            },
        }
    }
}

/// A certificate and its key, or the error, as mathematical values.
pub open spec fn cert_view(r: Result<(Vec<u8>, PrivateKey), CertError>) -> Result<
    (Seq<u8>, (KeyForm, Seq<u8>)),
    CertErrorView,
> {
    match r {
        Ok((cert, key)) => Ok((cert@, key@)),
        Err(e) => Err(e@),
    }
}

// ---------------------------------------------------------------------------
// Fingerprints
// ---------------------------------------------------------------------------

/// The SHA-256 digest of bytes.
pub uninterp spec fn sha256_digest(data: Seq<u8>) -> Seq<u8>;

/// Calls `Sha256::new`, `update` and `finalize`, which give a digest of 32
/// bytes for all the bytes at once.
#[verifier::external_body]
fn sha256(data: &[u8]) -> (r: Vec<u8>)
    ensures
        r@ == sha256_digest(data@),
        r@.len() == 32,
{
    let mut hasher = Sha256::new();
    hasher.update(data);
    hasher.finalize().to_vec()
}

/// The fingerprint of a certificate in DER: its digest in hexadecimal.
pub fn fingerprint(cert: &[u8]) -> (r: String)
    ensures
        r@ == secret::hex_text(sha256_digest(cert@)),
        r@.len() == 64,
{
    let digest = sha256(cert);
    proof {
        secret::lemma_hex_text(digest@);
    }
    secret::hex_encode(digest.as_slice())
}

/// Certificates with different digests have different fingerprints.
pub proof fn lemma_fingerprints_differ(a: Seq<u8>, b: Seq<u8>)
    requires
        sha256_digest(a) != sha256_digest(b),
    ensures
        secret::hex_text(sha256_digest(a)) != secret::hex_text(sha256_digest(b)),
{
    secret::lemma_hex_roundtrip(sha256_digest(a));
    secret::lemma_hex_roundtrip(sha256_digest(b));
}

// ---------------------------------------------------------------------------
// Loading
// ---------------------------------------------------------------------------

/// The certificates in a PEM text, in order, or the error of its first bad
/// section in words.
pub uninterp spec fn pem_certificates(pem: Seq<u8>) -> Result<Seq<Seq<u8>>, Seq<char>>;

/// The first private key in a PEM text, where there is one, or the error of a
/// bad section before it in words.
pub uninterp spec fn pem_private_key(pem: Seq<u8>) -> Result<
    Option<(KeyForm, Seq<u8>)>,
    Seq<char>,
>;

/// The contents of each certificate.
pub open spec fn certs_view(r: Result<Vec<Vec<u8>>, String>) -> Result<Seq<Seq<u8>>, Seq<char>> {
    match r {
        Ok(certs) => Ok(certs@.map_values(|c: Vec<u8>| c@)),
        Err(t) => Err(t@),
    }
}

/// The contents of a key.
pub open spec fn key_view(r: Result<Option<PrivateKey>, String>) -> Result<
    Option<(KeyForm, Seq<u8>)>,
    Seq<char>,
> {
    match r {
        Ok(Some(key)) => Ok(Some(key@)),
        Ok(None) => Ok(None),
        Err(t) => Err(t@),
    }
}

/// Calls `rustls_pemfile::certs` and collects what it gives: the certificates
/// of the text, or its first error.
#[verifier::external_body]
fn read_certificates(pem: &[u8]) -> (r: Result<Vec<Vec<u8>>, String>)
    ensures
        certs_view(r) == pem_certificates(pem@),
{
    let mut reader = pem;
    let certs: Result<Vec<_>, _> = rustls_pemfile::certs(&mut reader).collect();
    match certs {
        Ok(certs) => Ok(certs.iter().map(|c| c.to_vec()).collect()),
        Err(e) => Err(e.to_string()),
    }
}

/// Calls `rustls_pemfile::private_key`, which gives the first private key of
/// the text.
#[verifier::external_body]
fn read_private_key(pem: &[u8]) -> (r: Result<Option<PrivateKey>, String>)
    ensures
        key_view(r) == pem_private_key(pem@),
{
    let mut reader = pem;
    let (form, key) = match rustls_pemfile::private_key(&mut reader) {
        Ok(None) => return Ok(None),
        Ok(Some(PrivateKeyDer::Pkcs1(k))) => (KeyForm::Pkcs1, PrivateKeyDer::Pkcs1(k)),
        Ok(Some(PrivateKeyDer::Sec1(k))) => (KeyForm::Sec1, PrivateKeyDer::Sec1(k)),
        Ok(Some(PrivateKeyDer::Pkcs8(k))) => (KeyForm::Pkcs8, PrivateKeyDer::Pkcs8(k)),
        Ok(Some(k)) => (KeyForm::Other, k),
        Err(e) => return Err(e.to_string()),
    };
    Ok(Some(PrivateKey { form, der: key.secret_der().to_vec() }))
}

/// The certificate and the key that a certificate text and a key text give: the
/// first certificate, and the key. A failure of the certificate comes first.
pub open spec fn loaded(
    certs: Result<Seq<Seq<u8>>, Seq<char>>,
    key: Result<Option<(KeyForm, Seq<u8>)>, Seq<char>>,
) -> Result<(Seq<u8>, (KeyForm, Seq<u8>)), CertErrorView> {
    match certs {
        Err(t) => Err(CertErrorView::Other(t)),
        Ok(certs) => if certs.len() == 0 {
            Err(CertErrorView::NoCertificate)
        } else {
            match key {
                Err(t) => Err(CertErrorView::Other(t)),
                Ok(None) => Err(CertErrorView::NoKey),
                Ok(Some(key)) => Ok((certs[0], key)),
            }
        },
    }
}

/// Picks the certificate and the key out of what was read.
pub fn choose_cert_and_key(
    certs: Result<Vec<Vec<u8>>, String>,
    key: Result<Option<PrivateKey>, String>,
) -> (r: Result<(Vec<u8>, PrivateKey), CertError>)
    ensures
        cert_view(r) == loaded(certs_view(certs), key_view(key)),
{
    let mut certs = match certs {
        Ok(certs) => certs,
        Err(t) => {
            return Err(CertError::Other(t));
        },
    };
    if certs.len() == 0 {
        return Err(CertError::NoCertificate);
    }
    let cert = certs.swap_remove(0);
    match key {
        Ok(Some(key)) => Ok((cert, key)),
        Ok(None) => Err(CertError::NoKey),
        Err(t) => Err(CertError::Other(t)),
    }
}

/// The certificate and the key from the contents of their PEM files.
pub fn load_cert_and_key(cert_pem: &[u8], key_pem: &[u8]) -> (r: Result<
    (Vec<u8>, PrivateKey),
    CertError,
>)
    ensures
        cert_view(r) == loaded(pem_certificates(cert_pem@), pem_private_key(key_pem@)),
{
    choose_cert_and_key(read_certificates(cert_pem), read_private_key(key_pem))
}

// ---------------------------------------------------------------------------
// Making
// ---------------------------------------------------------------------------

/// The error of `rcgen`.
#[verifier::external_type_specification]
#[verifier::external_body]
pub struct ExRcgenError(rcgen::Error);

/// Whom a certificate is for.
#[derive(Debug)]
pub struct CertSubject {
    pub common_name: String,
    pub dns_name: String,
    pub ip: [u8; 4],
}

/// Which step of making a certificate failed.
#[derive(Debug)]
pub enum MakeError {
    /// The names or the key pair.
    Setup(rcgen::Error),
    /// The signature.
    Signing(rcgen::Error),
}

/// Whether the bytes of `p` stand somewhere in `d`, one after the other.
pub open spec fn holds_part(d: Seq<u8>, p: Seq<u8>) -> bool {
    exists|i: int| 0 <= i && i + p.len() <= d.len() && #[trigger] d.subrange(i, i + p.len()) == p
}

/// A DER value of at most 127 bytes: its tag, its length and its contents.
pub open spec fn der_value(tag: u8, contents: Seq<u8>) -> Seq<u8> {
    seq![tag, contents.len() as u8] + contents
}

/// Whether a certificate in DER is for a subject: it holds the common name as a
/// UTF-8 string, and among its other names the DNS name and the address. A name
/// of more than 127 bytes is left open.
pub open spec fn certifies(cert: Seq<u8>, name: Seq<char>, dns: Seq<char>, ip: Seq<u8>) -> bool {
    &&& cert.len() > 0 && cert[0] == 0x30
    &&& encode_utf8(name).len() <= 127 ==> holds_part(cert, der_value(0x0c, encode_utf8(name)))
    &&& encode_utf8(dns).len() <= 127 ==> holds_part(cert, der_value(0x82, encode_utf8(dns)))
    &&& holds_part(cert, der_value(0x87, ip))
}

/// Whether a certificate in DER and a private key in PKCS #8 belong together:
/// the key closes with its public half, an uncompressed point of 65 bytes, and
/// the certificate holds the same point as a bit string.
pub open spec fn key_matches(cert: Seq<u8>, key: Seq<u8>) -> bool {
    &&& key.len() > 65 && key[0] == 0x30
    &&& holds_part(cert, der_value(0x03, seq![0u8] + key.skip(key.len() - 65)))
}

/// Calls `rcgen::KeyPair::generate` and `rcgen::CertificateParams::self_signed`
/// for the subject, and gives the certificate and the private key in DER. The
/// key pair is random and so is the signature, and the system may have no
/// randomness to give, so that success and most of the bytes are left open.
/// What holds of every certificate is that it is for the subject and for the
/// key.
#[verifier::external_body]
fn self_signed(subject: &CertSubject) -> (r: Result<(Vec<u8>, Vec<u8>), MakeError>)
    ensures
        r matches Ok((cert, key)) ==> certifies(
            cert@,
            subject.common_name@,
            subject.dns_name@,
            subject.ip@,
        ) && key_matches(cert@, key@),
{
    let mut params = CertificateParams::default();
    params.distinguished_name = DistinguishedName::new();
    params.distinguished_name.push(DnType::CommonName, subject.common_name.as_str());
    let dns = subject.dns_name.as_str().try_into().map_err(MakeError::Setup)?;
    params.subject_alt_names = vec![SanType::DnsName(dns), SanType::IpAddress(subject.ip.into())];
    let key = KeyPair::generate().map_err(MakeError::Setup)?;
    let cert = params.self_signed(&key).map_err(MakeError::Signing)?;
    Ok((cert.der().to_vec(), key.serialize_der()))
}

/// Calls `to_string` of `rcgen::Error`, which puts the error in words. Nothing
/// is stated of them.
#[verifier::external_body]
fn rcgen_error_text(e: &rcgen::Error) -> (r: String) {
    e.to_string()
}

/// The subject of the certificate that a server makes for itself: the name
/// `vs-vpn`, the host `localhost` and the address 127.0.0.1.
pub fn certificate_subject() -> (r: CertSubject)
    ensures
        r.common_name@ == "vs-vpn"@,
        r.dns_name@ == "localhost"@,
        r.ip@ == seq![127u8, 0, 0, 1],
{
    let ip: [u8; 4] = [127, 0, 0, 1];
    assert(ip@ =~= seq![127u8, 0, 0, 1]);
    CertSubject { common_name: "vs-vpn".to_string(), dns_name: "localhost".to_string(), ip }
}

/// What comes of making a certificate, from the key in PKCS #8 and the
/// certificate, or the failure of either in words.
pub fn self_signed_result(key: Result<Vec<u8>, String>, cert: Result<Vec<u8>, String>) -> (r:
    Result<(Vec<u8>, PrivateKey), CertError>)
    ensures
        match (key, cert) {
            (Err(t), _) => cert_view(r) == Err::<(Seq<u8>, (KeyForm, Seq<u8>)), CertErrorView>(
                CertErrorView::Other(t@),
            ),
            (Ok(_), Err(t)) => cert_view(r) == Err::<(Seq<u8>, (KeyForm, Seq<u8>)), CertErrorView>(
                CertErrorView::Generation(t@),
            ),
            (Ok(der), Ok(cert)) => cert_view(r) == Ok::<
                (Seq<u8>, (KeyForm, Seq<u8>)),
                CertErrorView,
            >((cert@, (KeyForm::Pkcs8, der@))),
        },
{
    match key {
        Err(t) => Err(CertError::Other(t)),
        Ok(der) => match cert {
            Err(t) => Err(CertError::Generation(t)),
            Ok(cert) => Ok((cert, PrivateKey { form: KeyForm::Pkcs8, der })),
        },
    }
}

/// What comes of an outcome of making a certificate: a failure of signing is
/// one of generation, and a failure before it is in its own words.
pub fn made_result(made: Result<(Vec<u8>, Vec<u8>), MakeError>) -> (r: Result<
    (Vec<u8>, PrivateKey),
    CertError,
>)
    ensures
        match made {
            Ok((cert, der)) => cert_view(r) == Ok::<(Seq<u8>, (KeyForm, Seq<u8>)), CertErrorView>(
                (cert@, (KeyForm::Pkcs8, der@)),
            ),
            Err(MakeError::Setup(_)) => r matches Err(CertError::Other(_)),
            Err(MakeError::Signing(_)) => r matches Err(CertError::Generation(_)),
        },
{
    match made {
        Ok((cert, der)) => self_signed_result(Ok(der), Ok(cert)),
        Err(MakeError::Setup(e)) => self_signed_result(Err(rcgen_error_text(&e)), Ok(Vec::new())),
        Err(MakeError::Signing(e)) => self_signed_result(Ok(Vec::new()), Err(rcgen_error_text(&e))),
    }
}

/// A certificate that signs itself, and its key. Whether it is made, and which
/// random bytes come of it, rests on the system. A certificate that is made is
/// for `certificate_subject` and for the key that comes with it.
pub fn generate_self_signed() -> (r: Result<(Vec<u8>, PrivateKey), CertError>)
    ensures
        match r {
            Ok((cert, key)) => {
                &&& certifies(cert@, "vs-vpn"@, "localhost"@, seq![127u8, 0, 0, 1])
                &&& holds_part(cert@, der_value(0x0c, encode_utf8("vs-vpn"@)))
                &&& holds_part(cert@, der_value(0x82, encode_utf8("localhost"@)))
                &&& key.form == KeyForm::Pkcs8
                &&& key_matches(cert@, key.der@)
            },
            Err(e) => e is Other || e is Generation,
        },
{
    proof {
        reveal_strlit("vs-vpn");
        reveal_strlit("localhost");
        is_ascii_chars_encode_utf8("vs-vpn"@);
        is_ascii_chars_encode_utf8("localhost"@);
    }
    made_result(self_signed(&certificate_subject()))
}

} // verus!
