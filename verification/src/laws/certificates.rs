//! Laws on certificates.
use crate::cert;
use crate::cert::{CertError, CertErrorView, CertSubject, KeyForm, PrivateKey};
use crate::laws::commands;
use vstd::prelude::*;
use vstd::utf8::*;

verus! {

/// A fingerprint spells the digest of the certificate in lower-case digits, two
/// for each byte in turn.
pub proof fn lemma_fingerprint(c: &[u8], r: String)
    requires
        call_ensures(cert::fingerprint, (c,), r),
    ensures
        commands::spells(r@, cert::sha256_digest(c@)),
        forall|i: int| 0 <= i < r@.len() ==> !(65 <= (#[trigger] r@[i]) as int <= 70),
{
    commands::lemma_hex_text_spells(cert::sha256_digest(c@));
}

/// The certificate is the first one that was read and the key is the one that
/// was read. Without either there is an error, that of the certificate first,
/// and the error of reading is told in its own words.
pub proof fn lemma_chosen(
    certs: Result<Vec<Vec<u8>>, String>,
    key: Result<Option<PrivateKey>, String>,
    r: Result<(Vec<u8>, PrivateKey), CertError>,
)
    requires
        call_ensures(cert::choose_cert_and_key, (certs, key), r),
    ensures
        r is Ok <==> certs is Ok && certs->Ok_0@.len() > 0 && key is Ok && key->Ok_0 is Some,
        r matches Ok((c, k)) ==> c@ == certs->Ok_0@[0]@ && k@ == key->Ok_0->0@,
        certs matches Err(t) ==> (r matches Err(e) && e@ == CertErrorView::Other(t@)),
        certs is Ok && certs->Ok_0@.len() == 0 ==> (r matches Err(e) && e@
            == CertErrorView::NoCertificate),
        certs is Ok && certs->Ok_0@.len() > 0 ==> {
            &&& key matches Err(t) ==> (r matches Err(e) && e@ == CertErrorView::Other(t@))
            &&& key matches Ok(None) ==> (r matches Err(e) && e@ == CertErrorView::NoKey)
        },
{
    if certs is Ok && certs->Ok_0@.len() > 0 {
        assert(cert::certs_view(certs)->Ok_0[0] == certs->Ok_0@[0]@);
    }
}

/// The certificate and the key come from their own files: the first certificate
/// of the one, the key of the other.
pub proof fn lemma_loaded(
    cert_pem: &[u8],
    key_pem: &[u8],
    r: Result<(Vec<u8>, PrivateKey), CertError>,
)
    requires
        call_ensures(cert::load_cert_and_key, (cert_pem, key_pem), r),
    ensures
        r matches Ok((c, k)) ==> {
            &&& cert::pem_certificates(cert_pem@) matches Ok(certs) && certs.len() > 0 && c@
                == certs[0]
            &&& cert::pem_private_key(key_pem@) == Ok::<Option<(KeyForm, Seq<u8>)>, Seq<char>>(
                Some(k@),
            )
        },
        r is Err <==> cert::pem_certificates(cert_pem@) is Err || cert::pem_certificates(
            cert_pem@,
        )->Ok_0.len() == 0 || cert::pem_private_key(key_pem@) is Err || cert::pem_private_key(
            key_pem@,
        )->Ok_0 is None,
        r matches Err(e) ==> match e@ {
            CertErrorView::Other(t) => cert::pem_certificates(cert_pem@) == Err::<
                Seq<Seq<u8>>,
                Seq<char>,
            >(t) || cert::pem_certificates(cert_pem@) is Ok && cert::pem_private_key(key_pem@)
                == Err::<Option<(KeyForm, Seq<u8>)>, Seq<char>>(t),
            CertErrorView::NoCertificate => (cert::pem_certificates(cert_pem@) matches Ok(c)
                && c.len() == 0),
            CertErrorView::NoKey => (cert::pem_certificates(cert_pem@) matches Ok(c) && c.len() > 0)
                && (cert::pem_private_key(key_pem@) matches Ok(None)),
            CertErrorView::Generation(_) => false,
        },
{
}

/// A certificate that signs itself comes with its key in PKCS #8; a failure of
/// the key comes first, and one of the signature is told as one of generation.
pub proof fn lemma_self_signed(
    key: Result<Vec<u8>, String>,
    made: Result<Vec<u8>, String>,
    r: Result<(Vec<u8>, PrivateKey), CertError>,
)
    requires
        call_ensures(cert::self_signed_result, (key, made), r),
    ensures
        r matches Ok((c, k)) ==> {
            &&& made matches Ok(d) && c@ == d@
            &&& key matches Ok(d) && k.der@ == d@
            &&& k.form == KeyForm::Pkcs8
        },
        r matches Err(e) ==> match e@ {
            CertErrorView::Other(t) => key matches Err(u) && t == u@,
            CertErrorView::Generation(t) => key is Ok && (made matches Err(u) && t == u@),
            _ => false,
        },
{
}

/// A server's own certificate is for its name, for the local host and for the
/// local address.
pub proof fn lemma_subject(r: CertSubject)
    requires
        call_ensures(cert::certificate_subject, (), r),
    ensures
        r.common_name@ == "vs-vpn"@,
        r.dns_name@ == "localhost"@,
        crate::ip::ipv4_text(r.ip@) == "127.0.0.1"@,
{
    reveal_strlit("127.0.0.1");
    let t = "127.0.0.1"@;
    let a = seq!['1', '2', '7'];
    let z = seq!['0'];
    let o = seq!['1'];
    assert(crate::laws::addresses::dotted(a, z, z, o) =~= t);
    reveal_with_fuel(crate::laws::numbers::numeral, 4);
    assert(a.drop_last() =~= seq!['1', '2']);
    assert(seq!['1', '2'].drop_last() =~= seq!['1']);
    assert(seq!['1'].drop_last() =~= Seq::<char>::empty());
    assert(z.drop_last() =~= Seq::<char>::empty());
    crate::laws::addresses::lemma_ipv4_spelled(a, z, z, o, r.ip@);
}

/// Whether contents stand in bytes from a place on, after a byte for what they
/// are and a byte for their length.
pub open spec fn tagged_at(d: Seq<u8>, tag: u8, contents: Seq<u8>, i: int) -> bool {
    &&& 0 <= i && i + 2 + contents.len() <= d.len()
    &&& d[i] == tag
    &&& d[i + 1] == contents.len()
    &&& d.subrange(i + 2, i + 2 + contents.len()) == contents
}

proof fn lemma_tagged(d: Seq<u8>, tag: u8, contents: Seq<u8>) -> (i: int)
    requires
        cert::holds_part(d, cert::der_value(tag, contents)),
        contents.len() <= 127,
    ensures
        tagged_at(d, tag, contents, i),
{
    let p = cert::der_value(tag, contents);
    let i = choose|i: int|
        0 <= i && i + p.len() <= d.len() && #[trigger] d.subrange(i, i + p.len()) == p;
    let s = d.subrange(i, i + p.len());
    assert(s[0] == d[i] && s[1] == d[i + 1]);
    assert(d.subrange(i + 2, i + 2 + contents.len()) =~= contents) by {
        assert forall|j: int| 0 <= j < contents.len() implies d[i + 2 + j] == contents[j] by {
            assert(s[2 + j] == p[2 + j]);
        }
    }
    i
}

/// A certificate for a subject holds the common name, the DNS name and the
/// address, each whole and under its own tag.
pub proof fn lemma_certifies(c: Seq<u8>, name: Seq<char>, dns: Seq<char>, ip: Seq<u8>)
    requires
        cert::certifies(c, name, dns, ip),
        encode_utf8(name).len() <= 127,
        encode_utf8(dns).len() <= 127,
        ip.len() <= 127,
    ensures
        exists|i: int| #[trigger] tagged_at(c, 0x0c, encode_utf8(name), i),
        exists|i: int| #[trigger] tagged_at(c, 0x82, encode_utf8(dns), i),
        exists|i: int| #[trigger] tagged_at(c, 0x87, ip, i),
{
    let i = lemma_tagged(c, 0x0c, encode_utf8(name));
    let j = lemma_tagged(c, 0x82, encode_utf8(dns));
    let k = lemma_tagged(c, 0x87, ip);
}

/// What comes of making a certificate: the certificate and the key as they were
/// made, or the failure, which is one of generation just where it was the
/// signature that failed.
pub proof fn lemma_made(
    made: Result<(Vec<u8>, Vec<u8>), cert::MakeError>,
    r: Result<(Vec<u8>, PrivateKey), CertError>,
)
    requires
        call_ensures(cert::made_result, (made,), r),
    ensures
        r is Ok <==> made is Ok,
        r matches Ok((c, k)) ==> (made matches Ok((d, der)) && c@ == d@ && k.der@ == der@
            && k.form == KeyForm::Pkcs8),
        r matches Err(e) ==> (e is Generation <==> (made matches Err(cert::MakeError::Signing(_))))
            && (e is Other <==> (made matches Err(cert::MakeError::Setup(_)))),
{
}

/// A certificate that is made is for the server's own name, for the local host,
/// for the local address, and for the key that comes with it: the last 65 bytes
/// of the key stand in it, after a zero, as a bit string.
pub proof fn lemma_generated(r: Result<(Vec<u8>, PrivateKey), CertError>)
    requires
        call_ensures(cert::generate_self_signed, (), r),
    ensures
        r matches Ok((c, k)) ==> {
            &&& k.form == KeyForm::Pkcs8
            &&& k.der@.len() > 65
            &&& exists|i: int| #[trigger] tagged_at(c@, 0x0c, encode_utf8("vs-vpn"@), i)
            &&& exists|i: int| #[trigger] tagged_at(c@, 0x82, encode_utf8("localhost"@), i)
            &&& exists|i: int| #[trigger] tagged_at(c@, 0x87, local_address(), i)
            &&& exists|i: int| #[trigger]
                tagged_at(c@, 0x03, bit_string(k.der@.skip(k.der@.len() - 65)), i)
        },
        r matches Err(e) ==> e is Other || e is Generation,
{
    reveal_strlit("vs-vpn");
    reveal_strlit("localhost");
    is_ascii_chars_encode_utf8("vs-vpn"@);
    is_ascii_chars_encode_utf8("localhost"@);
    if r is Ok {
        let (c, k) = r->Ok_0;
        lemma_certifies(c@, "vs-vpn"@, "localhost"@, local_address());
        let point = k.der@.skip(k.der@.len() - 65);
        let i = lemma_tagged(c@, 0x03, bit_string(point));
    }
}

/// The local address, 127.0.0.1.
pub open spec fn local_address() -> Seq<u8> {
    seq![127u8, 0u8, 0u8, 1u8]
}

/// Bytes as a bit string: after a zero, for no bit is left over.
pub open spec fn bit_string(d: Seq<u8>) -> Seq<u8> {
    seq![0u8] + d
}

} // verus!
