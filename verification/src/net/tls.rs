//! The self-signed certificate that carries a device's Ed25519 identity into
//! TLS, and the channel binding that ties a pairing exchange to it.
//!
//! There is no CA. A peer is authenticated by the Ed25519 key inside its
//! certificate matching one pinned in the trust store, so the certificate is a
//! transport-shaped envelope around the identity and nothing more.

use ed25519_dalek::pkcs8::EncodePrivateKey;
use rcgen::{CertificateParams, DistinguishedName, DnType, KeyPair, PKCS_ED25519};
use vstd::prelude::*;

use crate::bytes::{bytes_le, law_be_reads_back, law_bytes_le_is_total, lemma_capacities, not_after, same_bytes};
use crate::net::digest::{is_hex, law_hex_reads_back, sha256, sha256_of, sha256_of_three};
use crate::net::error::Error;
use crate::net::identity::{key_fault, public_of, DeviceKey, PublicKey};

verus! {

/// The words before a channel binding, `lattice-channel-binding-v1`.
pub const CHANNEL_BINDING_CONTEXT: [u8; 26] = [
    108, 97, 116, 116, 105, 99, 101, 45, 99, 104, 97, 110, 110, 101, 108, 45, 98, 105, 110, 100,
    105, 110, 103, 45, 118, 49,
];

/// The object identifier of Ed25519, 1.3.101.112, as a certificate holds it.
pub const ED25519: [u8; 3] = [0x2b, 0x65, 0x70];

/// The object identifier of a certificate's public key's algorithm, and the key;
/// or what is said against bytes that are no certificate.
pub uninterp spec fn certificate_key(cert: Seq<u8>) -> Result<(Seq<u8>, Seq<u8>), Seq<char>>;

/// `x509_parser::parse_x509_certificate`: the subject's public key in a
/// certificate, with the bytes of its algorithm's object identifier. What bytes
/// are a certificate takes pages to state, so the answer is named.
#[verifier::external_body]
fn subject_key(cert: &[u8]) -> (out: Result<(Vec<u8>, Vec<u8>), String>)
    ensures
        match out {
            Ok((algorithm, key)) => certificate_key(cert@) matches Ok(k) && k == (
                algorithm@,
                key@,
            ),
            Err(said) => certificate_key(cert@) matches Err(s) && s == said@,
        },
{
    let (_, parsed) = x509_parser::parse_x509_certificate(cert).map_err(|e| e.to_string())?;
    let spki = parsed.public_key();
    let algorithm = spki.algorithm.algorithm.as_bytes().to_vec();
    Ok((algorithm, spki.subject_public_key.data.to_vec()))
}

/// A secret key in PKCS#8 DER.
pub uninterp spec fn pkcs8_of(secret: Seq<u8>) -> Seq<u8>;

/// `SigningKey::to_pkcs8_der`: the secret key in PKCS#8 DER. Every part of it
/// has a fixed length, so writing it cannot fail.
#[verifier::external_body]
fn pkcs8_der(secret: &[u8; 32]) -> (out: Result<Vec<u8>, String>)
    ensures
        match out {
            Ok(der) => der@ == pkcs8_of(secret@),
            Err(_) => false,
        },
{
    let key = ed25519_dalek::SigningKey::from_bytes(secret);
    key.to_pkcs8_der().map(|d| d.as_bytes().to_vec()).map_err(|e| e.to_string())
}

/// `rcgen`'s `CertificateParams::self_signed`: a certificate for a name, signed
/// with the key, that carries the key's public half as Ed25519. With a name of
/// hexadecimal digits and a key in the form that `SigningKey` writes, none of
/// its steps can fail. Nothing else is claimed of what the certificate holds.
#[verifier::external_body]
fn self_signed(secret: &[u8; 32], name: &str) -> (out: Result<Vec<u8>, String>)
    requires
        is_hex(name@, 8),
    ensures
        match out {
            Ok(cert) => certificate_key(cert@) matches Ok(k) && k == (ED25519@, public_of(
                secret@,
            )),
            Err(_) => false,
        },
{
    let key = ed25519_dalek::SigningKey::from_bytes(secret);
    let der = key.to_pkcs8_der().map_err(|e| e.to_string())?;
    let pair = KeyPair::from_pkcs8_der_and_sign_algo(&der.as_bytes().into(), &PKCS_ED25519)
        .map_err(|e| e.to_string())?;
    let mut params = CertificateParams::new(vec![name.to_owned()]).map_err(|e| e.to_string())?;
    let mut subject = DistinguishedName::new();
    subject.push(DnType::CommonName, name);
    params.distinguished_name = subject;
    params.self_signed(&pair).map(|c| c.der().to_vec()).map_err(|e| e.to_string())
}

/// A device's certificate, and its key in the form that TLS takes.
pub struct DeviceCertificate {
    pub cert: Vec<u8>,
    pub key: Vec<u8>,
}

impl DeviceCertificate {
    /// Wraps the device's long-lived key in a certificate. Regenerated on every
    /// start: nothing pins the certificate, only the key inside it.
    pub fn generate(device_key: &DeviceKey) -> (out: Result<Self, Error>)
        ensures
            out matches Ok(certificate) && carries(
                certificate.cert@,
                public_of(device_key.secret@),
            ) && certificate.key@ == pkcs8_of(device_key.secret@),
    {
        let key = match pkcs8_der(&device_key.secret) {
            Ok(der) => der,
            Err(said) => return Err(Error::KeyEncoding(said)),
        };
        let name = device_key.id.text();
        proof {
            lemma_capacities();
            law_be_reads_back(device_key.id.number as nat, 8);
            law_hex_reads_back(device_key.id.bytes());
        }
        match self_signed(&device_key.secret, name.as_str()) {
            Ok(cert) => Ok(DeviceCertificate { cert, key }),
            Err(said) => Err(Error::Rcgen(said)),
        }
    }
}

/// Whether a certificate carries a key as Ed25519.
pub open spec fn carries(cert: Seq<u8>, key: Seq<u8>) -> bool {
    certificate_key(cert) matches Ok(k) && k == (ED25519@, key)
}

/// The key that a certificate authenticates, or what is said against it.
pub open spec fn certified(cert: Seq<u8>) -> Result<Seq<u8>, Seq<char>> {
    match certificate_key(cert) {
        Err(said) => Err(said),
        Ok((algorithm, key)) => if algorithm != ED25519@ {
            Err("peer key is not Ed25519"@)
        } else if key.len() != 32 {
            Err("Ed25519 key is not 32 bytes"@)
        } else {
            match key_fault(key) {
                Some(said) => Err(said),
                None => Ok(key),
            }
        },
    }
}

/// Pulls the Ed25519 public key out of a peer's certificate. This is the value
/// compared against the trust store; everything else in the certificate is
/// ignored, including validity dates and the subject name.
pub fn peer_key(cert: &[u8]) -> (out: Result<PublicKey, Error>)
    ensures
        match certified(cert@) {
            Ok(key) => out matches Ok(k) && k@ == key && k.wf(),
            Err(said) => out matches Err(Error::Certificate(s)) && s@ == said,
        },
{
    match subject_key(cert) {
        Err(said) => Err(Error::Certificate(said)),
        Ok((algorithm, key)) => {
            let ed25519 = ED25519;
            if !same_bytes(algorithm.as_slice(), ed25519.as_slice()) {
                return Err(Error::Certificate("peer key is not Ed25519".to_owned()));
            }
            if key.len() != 32 {
                return Err(Error::Certificate("Ed25519 key is not 32 bytes".to_owned()));
            }
            let mut bytes: [u8; 32] = [0;32];
            for i in 0..32usize
                invariant
                    key@.len() == 32,
                    forall|j: int| 0 <= j < i ==> bytes@[j] == key@[j],
            {
                bytes[i] = key[i];
            }
            assert(bytes@ =~= key@);
            match PublicKey::from_bytes(&bytes) {
                Ok(key) => Ok(key),
                Err(said) => Err(Error::Certificate(said)),
            }
        },
    }
}

/// What is digested for a binding: the digests of both certificates, the lower
/// one first.
pub open spec fn bound(local: Seq<u8>, peer: Seq<u8>) -> Seq<u8> {
    let a = sha256_of(local);
    let b = sha256_of(peer);
    if bytes_le(a, b) {
        CHANNEL_BINDING_CONTEXT@ + a + b
    } else {
        CHANNEL_BINDING_CONTEXT@ + b + a
    }
}

/// The binding of two certificates.
pub open spec fn binding(local: Seq<u8>, peer: Seq<u8>) -> Seq<u8> {
    sha256_of(bound(local, peer))
}

/// Binds a pairing exchange to the TLS connection carrying it.
///
/// Ordering is canonical rather than local-then-peer, so both devices derive
/// the same value. A relay terminating TLS separately on each side presents a
/// different certificate to each, so the two sides derive different bindings
/// and the pairing confirmation fails.
pub fn channel_binding(local: &[u8], peer: &[u8]) -> (out: [u8; 32])
    ensures
        out@ == binding(local@, peer@),
{
    let a = sha256(local);
    let b = sha256(peer);
    let context = CHANNEL_BINDING_CONTEXT;
    if not_after(a.as_slice(), b.as_slice()) {
        sha256_of_three(context.as_slice(), a.as_slice(), b.as_slice())
    } else {
        sha256_of_three(context.as_slice(), b.as_slice(), a.as_slice())
    }
}

/// Both ends of a connection derive the same binding.
pub proof fn law_both_sides_derive_one_binding(a: Seq<u8>, b: Seq<u8>)
    ensures
        binding(a, b) == binding(b, a),
{
    law_bytes_le_is_total(sha256_of(a), sha256_of(b));
}

/// A peer finds in a device's certificate that device's key.
pub proof fn law_certificate_carries_the_device_key(key: DeviceKey, cert: Seq<u8>)
    requires
        key.wf(),
        carries(cert, public_of(key.secret@)),
    ensures
        certified(cert) == Ok::<Seq<u8>, Seq<char>>(key.public@),
{
}

/// Whether two different runs of bytes have one digest.
pub open spec fn digests_collide(x: Seq<u8>, y: Seq<u8>) -> bool {
    x != y && sha256_of(x) == sha256_of(y)
}

/// Different certificates give different bindings: where two connections have one
/// binding they are between the same two certificates, or two of the runs of
/// bytes that are digested for them collide. So a relay that shows its own
/// certificate to each side gives the two sides different bindings. The digests
/// are as long as `sha256` gives them.
pub proof fn law_different_certificates_bind_differently(
    a: Seq<u8>,
    b: Seq<u8>,
    c: Seq<u8>,
    d: Seq<u8>,
)
    requires
        binding(a, b) == binding(c, d),
        sha256_of(a).len() == 32,
        sha256_of(b).len() == 32,
        sha256_of(c).len() == 32,
        sha256_of(d).len() == 32,
    ensures
        ({
            ||| a == c && b == d
            ||| a == d && b == c
            ||| digests_collide(bound(a, b), bound(c, d))
            ||| digests_collide(a, c)
            ||| digests_collide(a, d)
            ||| digests_collide(b, c)
            ||| digests_collide(b, d)
        }),
{
    if bound(a, b) == bound(c, d) {
        let n = CHANNEL_BINDING_CONTEXT@.len() as int;
        let (p, q) = if bytes_le(sha256_of(a), sha256_of(b)) {
            (sha256_of(a), sha256_of(b))
        } else {
            (sha256_of(b), sha256_of(a))
        };
        let (r, s) = if bytes_le(sha256_of(c), sha256_of(d)) {
            (sha256_of(c), sha256_of(d))
        } else {
            (sha256_of(d), sha256_of(c))
        };
        assert(bound(a, b).subrange(n, n + 32) =~= p);
        assert(bound(a, b).skip(n + 32) =~= q);
        assert(bound(c, d).subrange(n, n + 32) =~= r);
        assert(bound(c, d).skip(n + 32) =~= s);
    }
}

/// A certificate gives a key exactly where its algorithm is Ed25519, object
/// identifier 1.3.101.112, and its key is thirty-two bytes that are a key.
pub proof fn law_only_device_keys_are_certified(cert: Seq<u8>, key: Seq<u8>)
    ensures
        certified(cert) == Ok::<Seq<u8>, Seq<char>>(key) <==> {
            &&& certificate_key(cert) matches Ok((algorithm, found))
            &&& algorithm == seq![0x2bu8, 0x65u8, 0x70u8]
            &&& found == key
            &&& key.len() == 32
            &&& key_fault(key) is None
        },
{
    assert(ED25519@ =~= seq![0x2bu8, 0x65u8, 0x70u8]);
}

/// What is bound is a fixed context and the digests of both certificates, the lesser
/// first.
pub proof fn law_binding_is_of_both_digests(local: Seq<u8>, peer: Seq<u8>)
    ensures
        forall|i: int|
            0 <= i < 26 ==> (#[trigger] bound(local, peer)[i]) as int
                == "lattice-channel-binding-v1"@[i] as int,
        ({
            let tail = bound(local, peer).skip(26);
            ||| tail == sha256_of(local) + sha256_of(peer) && bytes_le(
                sha256_of(local),
                sha256_of(peer),
            )
            ||| tail == sha256_of(peer) + sha256_of(local) && bytes_le(
                sha256_of(peer),
                sha256_of(local),
            )
        }),
        binding(local, peer) == sha256_of(bound(local, peer)),
{
    reveal_strlit("lattice-channel-binding-v1");
    let (a, b) = (sha256_of(local), sha256_of(peer));
    law_bytes_le_is_total(a, b);
    let context = CHANNEL_BINDING_CONTEXT@;
    assert(context.len() == 26);
    assert((context + a + b).skip(26) =~= a + b);
    assert((context + b + a).skip(26) =~= b + a);
}

}
