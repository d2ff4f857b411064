//! Ed25519 device identity: a keypair persisted per install, and the short
//! public ID derived from it that users compare during pairing.

use ed25519_dalek::pkcs8::spki::der::pem::LineEnding;
use ed25519_dalek::pkcs8::{DecodePrivateKey, EncodePrivateKey};
use ed25519_dalek::{SigningKey, VerifyingKey};
use vstd::arithmetic::power::pow;
use vstd::prelude::*;

use crate::bytes::{be_bytes, be_value, lemma_be_bytes_of_value, law_be_reads_back, law_each_byte_is_a_digit, lemma_capacities, push_be, read_be, same_bytes};
use crate::net::digest::{decode_hex, encode_hex, hex_bytes, hex_text, is_hex, law_hex_reads_back, sha256, sha256_of};
use crate::net::error::Error;

verus! {

/// First 8 bytes of SHA-256 over the public key, shown as 16 hex chars. Short
/// enough to read aloud, long enough that collisions on a home LAN are not a
/// concern.
///
/// The bytes are held as one number, the first byte highest, so that ids are
/// ordered as their texts are.
#[derive(Clone, Copy, Debug, PartialEq, Eq, PartialOrd, Ord, Hash, Structural)]
pub struct DeviceId {
    pub number: u64,
}

/// The id of a public key.
pub open spec fn id_of(key: Seq<u8>) -> DeviceId {
    DeviceId { number: be_value(sha256_of(key).take(8)) as u64 }
}

impl DeviceId {
    /// The eight bytes of the id.
    pub open spec fn bytes(self) -> Seq<u8> {
        be_bytes(self.number as nat, 8)
    }

    /// The id as text.
    pub open spec fn shown(self) -> Seq<char> {
        hex_text(self.bytes())
    }

    /// The id of a public key.
    pub fn from_public_key(key: &PublicKey) -> (out: Self)
        ensures
            out == id_of(key@),
    {
        let digest = sha256(key.bytes.as_slice());
        let number: u64 = read_be(digest.as_slice(), 8);
        DeviceId { number }
    }

    /// The id with the given bytes.
    pub fn from_bytes(bytes: &[u8; 8]) -> (out: Self)
        ensures
            out.bytes() == bytes@,
    {
        let number: u64 = read_be(bytes.as_slice(), 8);
        proof {
            assert(bytes@.take(8) =~= bytes@);
            lemma_be_bytes_of_value(bytes@);
        }
        DeviceId { number }
    }

    /// The eight bytes of the id.
    pub fn to_bytes(&self) -> (out: Vec<u8>)
        ensures
            out@ == self.bytes(),
    {
        let mut out: Vec<u8> = Vec::new();
        push_be(&mut out, self.number, 8);
        assert(out@ =~= self.bytes());
        out
    }

    /// The id as text.
    pub fn text(&self) -> (out: String)
        ensures
            out@ == self.shown(),
    {
        encode_hex(self.to_bytes().as_slice())
    }

    /// The id that a text writes.
    pub fn parse(s: &str) -> (out: Result<Self, Error>)
        ensures
            match out {
                Ok(id) => is_hex(s@, 8) && id.bytes() == hex_bytes(s@, 8),
                Err(Error::MalformedDeviceId(text)) => !is_hex(s@, 8) && text@ == s@,
                Err(_) => false,
            },
    {
        match decode_hex(s, 8) {
            Ok(bytes) => {
                let number: u64 = read_be(bytes.as_slice(), 8);
                proof {
                    assert(bytes@.take(8) =~= bytes@);
                    lemma_be_bytes_of_value(bytes@);
                }
                Ok(DeviceId { number })
            },
            Err(_) => Err(Error::MalformedDeviceId(s.to_owned())),
        }
    }
}

impl std::str::FromStr for DeviceId {
    type Err = Error;

    /// The id that a text writes.
    fn from_str(s: &str) -> (out: Result<Self, Error>)
        ensures
            match out {
                Ok(id) => is_hex(s@, 8) && id.bytes() == hex_bytes(s@, 8),
                Err(Error::MalformedDeviceId(text)) => !is_hex(s@, 8) && text@ == s@,
                Err(_) => false,
            },
    {
        DeviceId::parse(s)
    }
}

/// Two ids with the same bytes are the same.
pub proof fn lemma_id_by_bytes(a: DeviceId, b: DeviceId)
    requires
        a.bytes() == b.bytes(),
    ensures
        a == b,
{
    lemma_capacities();
    law_be_reads_back(a.number as nat, 8);
    law_be_reads_back(b.number as nat, 8);
}

/// An id's text is sixteen characters, and the only id that `parse` can give
/// back for it is that id.
pub proof fn law_device_id_reads_back(id: DeviceId, parsed: DeviceId)
    requires
        parsed.bytes() == hex_bytes(id.shown(), 8),
    ensures
        id.shown().len() == 16,
        is_hex(id.shown(), 8),
        parsed == id,
{
    lemma_capacities();
    law_be_reads_back(id.number as nat, 8);
    law_hex_reads_back(id.bytes());
    lemma_id_by_bytes(parsed, id);
}

/// What is said against thirty-two bytes that are no Ed25519 key; nothing of
/// those that are.
pub uninterp spec fn key_fault(bytes: Seq<u8>) -> Option<Seq<char>>;

/// `VerifyingKey::from_bytes`: whether the bytes are a point on the curve. Which
/// are takes the curve's arithmetic to state, so the answer is named.
#[verifier::external_body]
fn check_key(bytes: &[u8; 32]) -> (out: Option<String>)
    ensures
        match out {
            Some(said) => key_fault(bytes@) == Some(said@),
            None => key_fault(bytes@) is None,
        },
{
    VerifyingKey::from_bytes(bytes).err().map(|e| e.to_string())
}

/// An Ed25519 public key.
#[derive(Clone, Copy, Debug, PartialEq, Eq)]
pub struct PublicKey {
    pub bytes: [u8; 32],
}

impl PublicKey {
    /// The bytes of the key.
    pub open spec fn view(self) -> Seq<u8> {
        self.bytes@
    }

    /// The bytes are those of a key.
    pub open spec fn wf(self) -> bool {
        key_fault(self@) is None
    }

    /// The key with the given bytes, or what is said against them.
    pub fn from_bytes(bytes: &[u8; 32]) -> (out: Result<Self, String>)
        ensures
            match out {
                Ok(key) => key.wf() && key@ == bytes@,
                Err(said) => key_fault(bytes@) == Some(said@),
            },
    {
        match check_key(bytes) {
            None => Ok(PublicKey { bytes: *bytes }),
            Some(said) => Err(said),
        }
    }

    /// Whether two keys are the same.
    pub fn same(&self, other: &PublicKey) -> (out: bool)
        ensures
            out == (self@ == other@),
    {
        same_bytes(self.bytes.as_slice(), other.bytes.as_slice())
    }
}

/// The public key of a secret one.
pub uninterp spec fn public_of(secret: Seq<u8>) -> Seq<u8>;

/// `SigningKey::verifying_key`: the public key of a secret one, always a point
/// on the curve.
#[verifier::external_body]
fn verifying_key(secret: &[u8; 32]) -> (out: [u8; 32])
    ensures
        out@ == public_of(secret@),
        key_fault(out@) is None,
{
    SigningKey::from_bytes(secret).verifying_key().to_bytes()
}

/// The secret key in a PEM text, or what is said against the text.
pub uninterp spec fn pem_secret(pem: Seq<char>) -> Result<Seq<u8>, Seq<char>>;

/// `SigningKey::from_pkcs8_pem`: the secret key in a PEM text.
#[verifier::external_body]
fn from_pem(pem: &str) -> (out: Result<[u8; 32], String>)
    ensures
        match out {
            Ok(secret) => pem_secret(pem@) matches Ok(s) && s == secret@,
            Err(said) => pem_secret(pem@) matches Err(s) && s == said@,
        },
{
    SigningKey::from_pkcs8_pem(pem).map(|k| k.to_bytes()).map_err(|e| e.to_string())
}

/// `SigningKey::to_pkcs8_pem`: a text in which the key is found again. Every part
/// of what it writes has a fixed length, so writing it cannot fail.
#[verifier::external_body]
fn to_pem(secret: &[u8; 32]) -> (out: Result<String, String>)
    ensures
        match out {
            Ok(pem) => pem_secret(pem@) matches Ok(s) && s == secret@,
            Err(_) => false,
        },
{
    let key = SigningKey::from_bytes(secret);
    key.to_pkcs8_pem(LineEnding::LF).map(|p| p.to_string()).map_err(|e| e.to_string())
}

/// `rand::random`: thirty-two bytes, of which nothing is claimed.
#[verifier::external_body]
fn random_secret() -> [u8; 32] {
    rand::random()
}

/// This install's long-lived signing key. Never leaves the device.
pub struct DeviceKey {
    pub secret: [u8; 32],
    pub public: PublicKey,
    pub id: DeviceId,
}

impl DeviceKey {
    /// The public key and the id are those of the secret.
    pub open spec fn wf(self) -> bool {
        &&& self.public@ == public_of(self.secret@)
        &&& self.public.wf()
        &&& self.id == id_of(self.public@)
    }

    /// The device with a secret key.
    pub fn from_secret(secret: [u8; 32]) -> (out: Self)
        ensures
            out.wf(),
            out.secret@ == secret@,
    {
        let public = PublicKey { bytes: verifying_key(&secret) };
        let id = DeviceId::from_public_key(&public);
        DeviceKey { secret, public, id }
    }

    /// The device whose key a PEM text holds.
    pub fn from_pem(pem: &str) -> (out: Result<Self, Error>)
        ensures
            match pem_secret(pem@) {
                Ok(secret) => out matches Ok(key) && key.wf() && key.secret@ == secret,
                Err(said) => out matches Err(Error::KeyEncoding(e)) && e@ == said,
            },
    {
        match from_pem(pem) {
            Ok(secret) => Ok(DeviceKey::from_secret(secret)),
            Err(said) => Err(Error::KeyEncoding(said)),
        }
    }

    /// The PEM text to keep a device's key in.
    pub fn to_pem(&self) -> (out: Result<String, Error>)
        ensures
            out matches Ok(pem) && (pem_secret(pem@) matches Ok(s) && s == self.secret@),
    {
        match to_pem(&self.secret) {
            Ok(pem) => Ok(pem),
            Err(said) => Err(Error::KeyEncoding(said)),
        }
    }

    /// A new device, with a key that nobody has.
    pub fn generate() -> (out: Self)
        ensures
            out.wf(),
    {
        DeviceKey::from_secret(random_secret())
    }

    /// The device whose key is kept in a text, or a new one where nothing is kept
    /// yet; then with the text to keep.
    pub fn load_or_create(stored: Option<&str>) -> (out: Result<(Self, Option<String>), Error>)
        ensures
            match stored {
                Some(pem) => match pem_secret(pem@) {
                    Ok(secret) => out matches Ok((key, None)) && key.wf() && key.secret@ == secret,
                    Err(said) => out matches Err(Error::KeyEncoding(e)) && e@ == said,
                },
                None => out matches Ok((key, Some(pem))) && key.wf() && (pem_secret(
                    pem@,
                ) matches Ok(s) && s == key.secret@),
            },
    {
        match stored {
            Some(pem) => match DeviceKey::from_pem(pem) {
                Ok(key) => Ok((key, None)),
                Err(error) => Err(error),
            },
            None => {
                let key = DeviceKey::generate();
                match key.to_pem() {
                    Ok(pem) => Ok((key, Some(pem))),
                    Err(error) => Err(error),
                }
            },
        }
    }

    /// The device's id.
    pub fn id(&self) -> (out: DeviceId)
        ensures
            out == self.id,
    {
        self.id
    }

    /// The device's public key.
    pub fn public_key(&self) -> (out: PublicKey)
        ensures
            out == self.public,
    {
        self.public
    }
}

/// A device keeps its identity across restarts: the key read back from the text
/// that it was kept in is the same key, with the same id.
pub proof fn law_identity_survives_a_restart(key: DeviceKey, pem: Seq<char>, again: DeviceKey)
    requires
        key.wf(),
        again.wf(),
        pem_secret(pem) == Ok::<Seq<u8>, Seq<char>>(key.secret@),
        pem_secret(pem) == Ok::<Seq<u8>, Seq<char>>(again.secret@),
    ensures
        again.public@ == key.public@,
        again.id == key.id,
{
}

/// A device's id is the first eight bytes of the digest of its key, the first the
/// highest, and is shown as their sixteen hexadecimal digits.
pub proof fn law_id_is_the_beginning_of_the_digest(key: Seq<u8>)
    requires
        sha256_of(key).len() == 32,
    ensures
        id_of(key).bytes() == sha256_of(key).take(8),
        id_of(key).shown() == hex_text(sha256_of(key).take(8)),
        id_of(key).number == be_value(sha256_of(key).take(8)),
{
    let first = sha256_of(key).take(8);
    lemma_capacities();
    lemma_be_bytes_of_value(first);
}

/// Ids are ordered as their bytes are, and two devices with the same bytes, or shown
/// alike, are one.
pub proof fn law_an_id_is_its_bytes(a: DeviceId, b: DeviceId)
    ensures
        a.bytes() == b.bytes() <==> a == b,
        a.shown() == b.shown() <==> a == b,
        a.bytes().len() == 8,
        a.bytes()[0] as int == a.number as int / 0x100_0000_0000_0000,
        a.bytes()[7] as int == a.number as int % 256,
{
    lemma_capacities();
    law_be_reads_back(a.number as nat, 8);
    law_be_reads_back(b.number as nat, 8);
    law_hex_reads_back(a.bytes());
    law_hex_reads_back(b.bytes());
    law_each_byte_is_a_digit(a.number as nat, 8, 7);
    law_each_byte_is_a_digit(a.number as nat, 8, 0);
    assert(pow(256, 7) == 0x100_0000_0000_0000 && pow(256, 0) == 1) by {
        reveal_with_fuel(pow, 8);
    }
}

}
