//! Pairing over a short numeric code.
//!
//! Both devices are peers, so this uses symmetric SPAKE2: neither side is the
//! client. The code authenticates the exchange; the exchange then authenticates
//! each side's long-lived Ed25519 key, which is what gets pinned in the trust
//! store. A wrong code yields a different shared secret and the confirmation
//! MAC fails, so an attacker gets one guess per attempt.
//!
//! Each step consumes `self`, so a pairing code cannot be replayed.

use hmac::{Hmac, KeyInit, Mac};
use spake2::{Ed25519Group, Identity, Password, Spake2};
use subtle::ConstantTimeEq;
use vstd::prelude::*;
use vstd::utf8::{encode_utf8, is_ascii_chars, is_ascii_chars_encode_utf8};

use crate::bytes::{bytes_le, concat, extend, law_bytes_le_is_total, le_value, lemma_capacities, not_after, read_le, same_bytes};
use crate::net::error::Error;
use crate::net::identity::{id_of, key_fault, DeviceKey, PublicKey};
use crate::net::trust::PairedPeer;
use crate::text::{chars_of, digit, digit_char, is_digit, law_number_is_positional, number, text_of, trim, trimmed};

verus! {

/// Domain separator, `lattice-pairing-v1`. Bump if the pairing wire format ever
/// changes.
pub const PAIRING_CONTEXT: [u8; 18] = [
    108, 97, 116, 116, 105, 99, 101, 45, 112, 97, 105, 114, 105, 110, 103, 45, 118, 49,
];

/// What the confirmation key is derived under, `lattice-pairing-confirm-v1`.
pub const CONFIRM_LABEL: [u8; 26] = [
    108, 97, 116, 116, 105, 99, 101, 45, 112, 97, 105, 114, 105, 110, 103, 45, 99, 111, 110, 102,
    105, 114, 109, 45, 118, 49,
];

/// Pairing messages are small and fixed-shape; anything larger is a peer that
/// is confused or hostile.
pub const MAX_FRAME: usize = 4096;

/// How many codes there are.
pub const CODES: u32 = 1_000_000;

/// The six digits the user reads from one screen and types into the other.
#[derive(Clone, Debug, PartialEq, Eq)]
pub struct PairingCode {
    pub digits: String,
}

/// Whether a text is six decimal digits.
pub open spec fn six_digits(s: Seq<char>) -> bool {
    s.len() == 6 && forall|i: int| 0 <= i < s.len() ==> is_digit(#[trigger] s[i])
}

/// A number as six digits, with leading zeros.
pub open spec fn padded(n: nat) -> Seq<char> {
    seq![
        digit_char(n / 100000 % 10),
        digit_char(n / 10000 % 10),
        digit_char(n / 1000 % 10),
        digit_char(n / 100 % 10),
        digit_char(n / 10 % 10),
        digit_char(n % 10),
    ]
}

/// `rand::random_range`: a number below the bound, any of them.
#[verifier::external_body]
fn random_below(bound: u32) -> (out: u32)
    requires
        bound > 0,
    ensures
        out < bound,
{
    rand::random_range(0..bound)
}

impl PairingCode {
    /// The code is six digits.
    pub open spec fn wf(self) -> bool {
        six_digits(self.digits@)
    }

    /// The code with a number.
    pub fn numbered(n: u32) -> (out: Self)
        requires
            n < CODES,
        ensures
            out.wf(),
            out.digits@ == padded(n as nat),
    {
        let mut digits = String::new();
        digits.push(digit((n / 100000 % 10) as u8));
        digits.push(digit((n / 10000 % 10) as u8));
        digits.push(digit((n / 1000 % 10) as u8));
        digits.push(digit((n / 100 % 10) as u8));
        digits.push(digit((n / 10 % 10) as u8));
        digits.push(digit((n % 10) as u8));
        assert(digits@ =~= padded(n as nat));
        PairingCode { digits }
    }

    /// A code that nobody could have guessed.
    pub fn generate() -> (out: Self)
        ensures
            out.wf(),
            exists|n: u32| n < CODES && out.digits@ == #[trigger] padded(n as nat),
    {
        let n: u32 = random_below(CODES);
        PairingCode::numbered(n)
    }

    /// The code in a text, whatever white space stands around it.
    pub fn parse(text: &str) -> (out: Result<Self, Error>)
        ensures
            match out {
                Ok(code) => {
                    &&& six_digits(trimmed(text@))
                    &&& code.digits@ == trimmed(text@)
                    &&& code.wf()
                },
                Err(error) => !six_digits(trimmed(text@)) && error == Error::MalformedPairingCode,
            },
    {
        let chars = trim(chars_of(text).as_slice());
        if chars.len() != 6 {
            return Err(Error::MalformedPairingCode);
        }
        for i in 0..chars.len()
            invariant
                chars@ == trimmed(text@),
                forall|j: int| 0 <= j < i ==> is_digit(#[trigger] chars@[j]),
        {
            let c = chars[i];
            if c < '0' || c > '9' {
                assert(!is_digit(chars@[i as int]));
                return Err(Error::MalformedPairingCode);
            }
        }
        Ok(PairingCode { digits: text_of(chars.as_slice()) })
    }

    /// The six digits.
    pub fn as_str(&self) -> (out: &str)
        ensures
            out@ == self.digits@,
    {
        self.digits.as_str()
    }
}

/// Six digits survive being typed with white space around them.
pub proof fn law_code_reads_back(code: PairingCode)
    requires
        code.wf(),
    ensures
        trimmed(code.digits@) == code.digits@,
{
    assert(is_digit(code.digits@[0]));
    assert(is_digit(code.digits@[5]));
}

/// An exchange that has sent its message and awaits the peer's.
#[verifier::external_body]
pub struct Exchange {
    state: Spake2<Ed25519Group>,
}

/// The code that an exchange was started with.
pub uninterp spec fn exchange_code(exchange: Exchange) -> Seq<u8>;

/// The words that an exchange was started under.
pub uninterp spec fn exchange_context(exchange: Exchange) -> Seq<u8>;

/// The message that an exchange sent.
pub uninterp spec fn exchange_message(exchange: Exchange) -> Seq<u8>;

/// Whether a message is one that an exchange with a code, under some words, can
/// send.
pub uninterp spec fn spake2_sent(code: Seq<u8>, context: Seq<u8>, message: Seq<u8>) -> bool;

/// Whether a message can be answered at all.
pub uninterp spec fn spake2_accepts(message: Seq<u8>) -> bool;

/// The secret that an exchange comes to with a code, under some words, where it
/// sent one message and got another.
pub uninterp spec fn spake2_secret(
    code: Seq<u8>,
    context: Seq<u8>,
    ours: Seq<u8>,
    theirs: Seq<u8>,
) -> Seq<u8>;

/// `Spake2::start_symmetric`: an exchange with a code, and the message to send.
/// The message depends on chance; that it is one of the code's is all that is
/// claimed of it.
#[verifier::external_body]
fn spake2_start(code: &[u8], context: &[u8]) -> (out: (Exchange, Vec<u8>))
    ensures
        exchange_code(out.0) == code@,
        exchange_context(out.0) == context@,
        exchange_message(out.0) == out.1@,
        spake2_sent(code@, context@, out.1@),
{
    let (state, message) =
        Spake2::<Ed25519Group>::start_symmetric(&Password::new(code), &Identity::new(context));
    (Exchange { state }, message)
}

/// `Spake2::finish`: the shared secret, or nothing for a message of the wrong
/// length, of another kind, or that is no point on the curve. A message that an
/// exchange with the same code sent is always accepted, and the secret is then
/// the one that the other side comes to.
#[verifier::external_body]
fn spake2_finish(exchange: Exchange, theirs: &[u8]) -> (out: Option<Vec<u8>>)
    ensures
        match out {
            Some(secret) => {
                &&& spake2_accepts(theirs@)
                &&& secret@ == spake2_secret(
                    exchange_code(exchange),
                    exchange_context(exchange),
                    exchange_message(exchange),
                    theirs@,
                )
                &&& spake2_sent(exchange_code(exchange), exchange_context(exchange), theirs@)
                    ==> secret@ == spake2_secret(
                    exchange_code(exchange),
                    exchange_context(exchange),
                    theirs@,
                    exchange_message(exchange),
                )
            },
            None => {
                &&& !spake2_accepts(theirs@)
                &&& !spake2_sent(exchange_code(exchange), exchange_context(exchange), theirs@)
            },
        },
{
    exchange.state.finish(theirs).ok()
}

/// The HMAC-SHA-256 of some bytes under a key.
pub uninterp spec fn hmac_of(key: Seq<u8>, data: Seq<u8>) -> Seq<u8>;

/// `Hmac::<Sha256>`, fed the bytes and finalized. It takes a key of any length.
/// The result is named: it depends on the key and the bytes alone.
#[verifier::external_body]
fn hmac(key: &[u8], data: &[u8]) -> (out: [u8; 32])
    ensures
        out@ == hmac_of(key@, data@),
{
    let mut mac = Hmac::<sha2::Sha256>::new_from_slice(key).expect("any key length");
    mac.update(data);
    mac.finalize().into_bytes().into()
}

/// `subtle`'s `ct_eq`: whether two MACs are the same, in a time that does not
/// depend on them. A timing oracle here would leak the code digit by digit.
#[verifier::external_body]
fn constant_time_eq(a: &[u8; 32], b: &[u8; 32]) -> (out: bool)
    ensures
        out == (a@ == b@),
{
    a.ct_eq(b).into()
}

/// A key derived from a shared secret for a purpose.
pub fn derive(shared: &[u8], label: &[u8]) -> (out: [u8; 32])
    ensures
        out@ == hmac_of(shared@, label@),
{
    hmac(shared, label)
}

/// The MAC over a transcript and a message's body.
pub fn tag(key: &[u8; 32], transcript: &[u8], body: &[u8]) -> (out: [u8; 32])
    ensures
        out@ == hmac_of(key@, transcript@ + body@),
{
    let all = concat(transcript, body);
    hmac(key.as_slice(), all.as_slice())
}

/// The three fields of a confirmation's body in some bytes, or what is said
/// against the bytes.
pub uninterp spec fn postcard_body(bytes: Seq<u8>) -> Result<
    (Seq<u8>, Seq<char>, Seq<char>),
    Seq<char>,
>;

/// `postcard::to_allocvec` on a key and two texts: bytes in which the three are
/// found again. Writing such values to a growing buffer cannot fail.
#[verifier::external_body]
fn encode_body(key: &[u8; 32], name: &str, platform: &str) -> (out: Result<Vec<u8>, String>)
    ensures
        match out {
            Ok(bytes) => postcard_body(bytes@) matches Ok(fields) && fields == (
                key@,
                name@,
                platform@,
            ),
            Err(_) => false,
        },
{
    postcard::to_allocvec(&(key, name, platform)).map_err(|e| e.to_string())
}

/// `postcard::from_bytes` to a key and two texts. Which bytes hold them takes
/// its wire format to state, so the answer is named.
#[verifier::external_body]
fn decode_body(bytes: &[u8]) -> (out: Result<([u8; 32], String, String), String>)
    ensures
        match out {
            Ok((key, name, platform)) => postcard_body(bytes@) matches Ok(fields) && fields == (
                key@,
                name@,
                platform@,
            ),
            Err(said) => postcard_body(bytes@) matches Err(s) && s == said@,
        },
{
    postcard::from_bytes(bytes).map_err(|e| e.to_string())
}

/// The body and the MAC of a confirmation in some bytes, or what is said against
/// the bytes.
pub uninterp spec fn postcard_confirm(bytes: Seq<u8>) -> Result<(Seq<u8>, Seq<u8>), Seq<char>>;

/// `postcard::to_allocvec` on a body and a MAC: bytes in which the two are found
/// again. Writing such values to a growing buffer cannot fail.
#[verifier::external_body]
fn encode_confirm(body: &Vec<u8>, mac: &[u8; 32]) -> (out: Result<Vec<u8>, String>)
    ensures
        match out {
            Ok(bytes) => postcard_confirm(bytes@) matches Ok(fields) && fields == (body@, mac@),
            Err(_) => false,
        },
{
    postcard::to_allocvec(&(body, mac)).map_err(|e| e.to_string())
}

/// `postcard::from_bytes` to a body and a MAC; the answer is named.
#[verifier::external_body]
fn decode_confirm(bytes: &[u8]) -> (out: Result<(Vec<u8>, [u8; 32]), String>)
    ensures
        match out {
            Ok((body, mac)) => postcard_confirm(bytes@) matches Ok(fields) && fields == (
                body@,
                mac@,
            ),
            Err(said) => postcard_confirm(bytes@) matches Err(s) && s == said@,
        },
{
    postcard::from_bytes(bytes).map_err(|e| e.to_string())
}

/// Identity claim plus the MAC proving the sender knew the code.
#[derive(Clone, Debug, PartialEq, Eq)]
pub struct Confirm {
    pub body: Vec<u8>,
    pub mac: [u8; 32],
}

impl Confirm {
    /// The confirmation as it travels.
    pub fn to_bytes(&self) -> (out: Result<Vec<u8>, Error>)
        ensures
            out matches Ok(bytes) && (postcard_confirm(bytes@) matches Ok(fields) && fields == (
                self.body@,
                self.mac@,
            )),
    {
        match encode_confirm(&self.body, &self.mac) {
            Ok(bytes) => Ok(bytes),
            Err(said) => Err(Error::Postcard(said)),
        }
    }

    /// The confirmation in the bytes that a peer sent.
    pub fn from_bytes(bytes: &[u8]) -> (out: Result<Self, Error>)
        ensures
            match postcard_confirm(bytes@) {
                Ok((body, mac)) => out matches Ok(c) && c.body@ == body && c.mac@ == mac,
                Err(said) => out matches Err(Error::Postcard(s)) && s@ == said,
            },
    {
        match decode_confirm(bytes) {
            Ok((body, mac)) => Ok(Confirm { body, mac }),
            Err(said) => Err(Error::Postcard(said)),
        }
    }
}

/// Both sides' messages and what the exchange is bound to. Symmetric SPAKE2
/// gives no inherent ordering, so the lower message stands first.
pub open spec fn transcript_of(ours: Seq<u8>, theirs: Seq<u8>, binding: Seq<u8>) -> Seq<u8> {
    if bytes_le(ours, theirs) {
        ours + theirs + binding
    } else {
        theirs + ours + binding
    }
}

/// Awaiting the peer's SPAKE2 message.
pub struct Pairing {
    pub exchange: Exchange,
    pub ours: Vec<u8>,
    pub channel_binding: [u8; 32],
}

/// Awaiting the peer's identity confirmation.
pub struct AwaitingConfirm {
    pub mac_key: [u8; 32],
    pub transcript: Vec<u8>,
    pub our_public_key: PublicKey,
}

/// Whether what a side awaits and what it sends follow from the secret it came
/// to: the MAC key is derived from the secret, and the confirmation holds the
/// side's identity under a MAC over the transcript.
pub open spec fn confirmed(
    shared: Seq<u8>,
    transcript: Seq<u8>,
    key: DeviceKey,
    name: Seq<char>,
    platform: Seq<char>,
    awaiting: AwaitingConfirm,
    confirm: Confirm,
) -> bool {
    &&& awaiting.mac_key@ == hmac_of(shared, CONFIRM_LABEL@)
    &&& awaiting.transcript@ == transcript
    &&& awaiting.our_public_key == key.public
    &&& postcard_body(confirm.body@) matches Ok(fields) && fields == (
        key.public@,
        name,
        platform,
    )
    &&& confirm.mac@ == hmac_of(awaiting.mac_key@, transcript + confirm.body@)
}

impl Pairing {
    /// The exchange is the one that sent our message.
    pub open spec fn wf(self) -> bool {
        &&& exchange_message(self.exchange) == self.ours@
        &&& self.context() == PAIRING_CONTEXT@
        &&& spake2_sent(self.code(), self.context(), self.ours@)
    }

    /// The code that the pairing was started with.
    pub open spec fn code(self) -> Seq<u8> {
        exchange_code(self.exchange)
    }

    /// The words that the pairing was started under.
    pub open spec fn context(self) -> Seq<u8> {
        exchange_context(self.exchange)
    }

    /// `channel_binding` ties this exchange to the transport carrying it. Without
    /// it, a relay could sit between two honest devices and proxy both halves.
    pub fn start(code: &PairingCode, channel_binding: [u8; 32]) -> (out: (Self, Vec<u8>))
        ensures
            out.0.wf(),
            out.0.code() == code_bytes(*code),
            out.0.ours@ == out.1@,
            out.0.channel_binding == channel_binding,
    {
        let context = PAIRING_CONTEXT;
        let (exchange, ours) = spake2_start(code.as_str().as_bytes(), context.as_slice());
        let outbound = ours.clone();
        (Pairing { exchange, ours, channel_binding }, outbound)
    }

    /// The transcript of an exchange that got the peer's message.
    pub open spec fn transcript(self, theirs: Seq<u8>) -> Seq<u8> {
        transcript_of(self.ours@, theirs, self.channel_binding@)
    }

    /// The secret that the pairing comes to with the peer's message.
    pub open spec fn secret(self, theirs: Seq<u8>) -> Seq<u8> {
        spake2_secret(self.code(), self.context(), exchange_message(self.exchange), theirs)
    }

    /// The secret that a peer comes to with our message, where it sent this one.
    pub open spec fn secret_of_peer(self, theirs: Seq<u8>) -> Seq<u8> {
        spake2_secret(self.code(), self.context(), theirs, exchange_message(self.exchange))
    }

    /// Takes the peer's message, and gives what to await and what to send.
    ///
    /// Symmetric SPAKE2 is reflection-attackable: an attacker who bounces our
    /// own message back would have us agree a key with ourselves. So our own
    /// message is refused.
    pub fn key_exchange(
        self,
        peer_message: &[u8],
        key: &DeviceKey,
        name: String,
        platform: String,
    ) -> (out: Result<(AwaitingConfirm, Confirm), Error>)
        ensures
            match out {
                Ok((awaiting, confirm)) => {
                    &&& peer_message@ != self.ours@
                    &&& spake2_accepts(peer_message@)
                    &&& confirmed(
                        self.secret(peer_message@),
                        self.transcript(peer_message@),
                        *key,
                        name@,
                        platform@,
                        awaiting,
                        confirm,
                    )
                    &&& spake2_sent(self.code(), self.context(), peer_message@) ==> self.secret(
                        peer_message@,
                    ) == self.secret_of_peer(peer_message@)
                },
                Err(Error::PairingReflected) => peer_message@ == self.ours@,
                Err(Error::PairingFailed) => {
                    &&& peer_message@ != self.ours@
                    &&& !spake2_accepts(peer_message@)
                    &&& !spake2_sent(self.code(), self.context(), peer_message@)
                },
                Err(_) => false,
            },
    {
        if same_bytes(peer_message, self.ours.as_slice()) {
            return Err(Error::PairingReflected);
        }
        match spake2_finish(self.exchange, peer_message) {
            None => Err(Error::PairingFailed),
            Some(shared) => agree(
                shared.as_slice(),
                self.ours.as_slice(),
                peer_message,
                &self.channel_binding,
                key,
                name,
                platform,
            ),
        }
    }
}

/// What a side awaits and what it sends, once it came to a shared secret.
pub fn agree(
    shared: &[u8],
    ours: &[u8],
    peer_message: &[u8],
    channel_binding: &[u8; 32],
    key: &DeviceKey,
    name: String,
    platform: String,
) -> (out: Result<(AwaitingConfirm, Confirm), Error>)
    ensures
        out matches Ok((awaiting, confirm)) && confirmed(
            shared@,
            transcript_of(ours@, peer_message@, channel_binding@),
            *key,
            name@,
            platform@,
            awaiting,
            confirm,
        ),
{
    let mut transcript: Vec<u8> = Vec::new();
    if not_after(ours, peer_message) {
        extend(&mut transcript, ours);
        extend(&mut transcript, peer_message);
    } else {
        extend(&mut transcript, peer_message);
        extend(&mut transcript, ours);
    }
    extend(&mut transcript, channel_binding.as_slice());
    assert(transcript@ =~= transcript_of(ours@, peer_message@, channel_binding@));
    let label = CONFIRM_LABEL;
    let mac_key = derive(shared, label.as_slice());
    let body = match encode_body(&key.public.bytes, name.as_str(), platform.as_str()) {
        Ok(body) => body,
        Err(said) => return Err(Error::Postcard(said)),
    };
    let mac = tag(&mac_key, transcript.as_slice(), body.as_slice());
    Ok((AwaitingConfirm { mac_key, transcript, our_public_key: key.public }, Confirm { body, mac }))
}

/// What a confirmation teaches a side that awaits it.
pub enum Lesson {
    /// The MAC is not the one that the peer would have made, or the key in the
    /// body is none.
    Failed,
    /// The body cannot be read, with what is said against it.
    Unreadable(Seq<char>),
    /// The key is our own.
    Reflected,
    /// The peer's key, name and platform.
    Peer(Seq<u8>, Seq<char>, Seq<char>),
}

/// What the body of a confirmation teaches a side whose own key is `ours`.
pub open spec fn body_lesson(
    body: Result<(Seq<u8>, Seq<char>, Seq<char>), Seq<char>>,
    ours: Seq<u8>,
) -> Lesson {
    match body {
        Err(said) => Lesson::Unreadable(said),
        Ok((key, name, platform)) => if key_fault(key) is Some {
            Lesson::Failed
        } else if key == ours {
            Lesson::Reflected
        } else {
            Lesson::Peer(key, name, platform)
        },
    }
}

/// Whether a result is the one that a lesson calls for.
pub open spec fn taught(out: Result<PairedPeer, Error>, lesson: Lesson, now: u64) -> bool {
    match lesson {
        Lesson::Failed => out matches Err(e) && e == Error::PairingFailed,
        Lesson::Unreadable(said) => out matches Err(Error::Postcard(s)) && s@ == said,
        Lesson::Reflected => out matches Err(e) && e == Error::PairingReflected,
        Lesson::Peer(key, name, platform) => {
            &&& out matches Ok(peer)
            &&& peer.public_key@ == key
            &&& peer.public_key.wf()
            &&& peer.device_id == id_of(key)
            &&& peer.name@ == name
            &&& peer.platform@ == platform
            &&& peer.paired_at == now
            &&& peer.introduced_by is None
        },
    }
}

impl AwaitingConfirm {
    /// What a confirmation teaches.
    pub open spec fn lesson(self, confirm: Confirm) -> Lesson {
        if confirm.mac@ != hmac_of(self.mac_key@, self.transcript@ + confirm.body@) {
            Lesson::Failed
        } else {
            body_lesson(postcard_body(confirm.body@), self.our_public_key@)
        }
    }

    /// Takes the peer's confirmation, and gives the peer to pin.
    pub fn finish(self, confirm: &Confirm, now: u64) -> (out: Result<PairedPeer, Error>)
        ensures
            taught(out, self.lesson(*confirm), now),
    {
        let expected = tag(&self.mac_key, self.transcript.as_slice(), confirm.body.as_slice());
        if !constant_time_eq(&expected, &confirm.mac) {
            return Err(Error::PairingFailed);
        }
        learn(decode_body(confirm.body.as_slice()), &self.our_public_key, now)
    }
}

/// A body that was read, or what was said against it.
pub open spec fn fields_of(body: Result<([u8; 32], String, String), String>) -> Result<
    (Seq<u8>, Seq<char>, Seq<char>),
    Seq<char>,
> {
    match body {
        Ok((key, name, platform)) => Ok((key@, name@, platform@)),
        Err(said) => Err(said@),
    }
}

/// The peer that a confirmation's body names, once its MAC was found right.
pub fn learn(
    body: Result<([u8; 32], String, String), String>,
    ours: &PublicKey,
    now: u64,
) -> (out: Result<PairedPeer, Error>)
    ensures
        taught(out, body_lesson(fields_of(body), ours@), now),
{
    match body {
        Err(said) => Err(Error::Postcard(said)),
        Ok((key, name, platform)) => match PublicKey::from_bytes(&key) {
            Err(_) => Err(Error::PairingFailed),
            Ok(public_key) => {
                if public_key.same(ours) {
                    return Err(Error::PairingReflected);
                }
                Ok(PairedPeer::new(public_key, name, platform, now))
            },
        },
    }
}

/// The length of the frame that four bytes announce, refused above the ceiling.
pub fn frame_len(header: &[u8]) -> (out: Result<usize, Error>)
    requires
        header@.len() == 4,
    ensures
        match out {
            Ok(len) => len == le_value(header@) && len <= MAX_FRAME,
            Err(error) => le_value(header@) > MAX_FRAME && error == Error::PairingFailed,
        },
{
    assert(header@.subrange(0, 4) =~= header@);
    proof {
        lemma_capacities();
    }
    let len: usize = read_le(header, 0, 4) as usize;
    if len > MAX_FRAME {
        return Err(Error::PairingFailed);
    }
    Ok(len)
}

/// Both sides of an exchange come to one transcript.
pub proof fn law_one_transcript(a: Seq<u8>, b: Seq<u8>, binding: Seq<u8>)
    ensures
        transcript_of(a, b, binding) == transcript_of(b, a, binding),
{
    law_bytes_le_is_total(a, b);
}

/// Matching codes exchange verified identities: where two devices with keys of
/// their own started with one code over one channel and each got the other's
/// message, each learns from the other's confirmation exactly the other's key,
/// name and platform.
pub proof fn law_matching_codes_exchange_identities(
    a: Pairing,
    b: Pairing,
    a_key: DeviceKey,
    a_name: Seq<char>,
    a_platform: Seq<char>,
    b_key: DeviceKey,
    b_name: Seq<char>,
    b_platform: Seq<char>,
    a_awaiting: AwaitingConfirm,
    a_confirm: Confirm,
    b_awaiting: AwaitingConfirm,
    b_confirm: Confirm,
)
    requires
        a.wf(),
        b.wf(),
        a_key.wf(),
        b_key.wf(),
        a.code() == b.code(),
        a.channel_binding@ == b.channel_binding@,
        a_key.public@ != b_key.public@,
        // What each side's `key_exchange` on the other's message gives.
        confirmed(
            a.secret(b.ours@),
            a.transcript(b.ours@),
            a_key,
            a_name,
            a_platform,
            a_awaiting,
            a_confirm,
        ),
        spake2_sent(a.code(), a.context(), b.ours@) ==> a.secret(b.ours@) == a.secret_of_peer(
            b.ours@,
        ),
        confirmed(
            b.secret(a.ours@),
            b.transcript(a.ours@),
            b_key,
            b_name,
            b_platform,
            b_awaiting,
            b_confirm,
        ),
    ensures
        a_awaiting.lesson(b_confirm) == Lesson::Peer(b_key.public@, b_name, b_platform),
        b_awaiting.lesson(a_confirm) == Lesson::Peer(a_key.public@, a_name, a_platform),
{
    law_one_transcript(a.ours@, b.ours@, a.channel_binding@);
}

/// A confirmation that carries our own key is refused, whatever its MAC.
pub proof fn law_own_confirmation_is_refused(awaiting: AwaitingConfirm, confirm: Confirm)
    requires
        postcard_body(confirm.body@) matches Ok(fields) && fields.0
            == awaiting.our_public_key@,
    ensures
        awaiting.lesson(confirm) is Failed || awaiting.lesson(confirm) is Reflected,
{
}

/// The confirmation that a side itself made is refused as its own.
pub proof fn law_own_confirmation_is_reflected(
    shared: Seq<u8>,
    transcript: Seq<u8>,
    key: DeviceKey,
    name: Seq<char>,
    platform: Seq<char>,
    awaiting: AwaitingConfirm,
    confirm: Confirm,
)
    requires
        key.wf(),
        confirmed(shared, transcript, key, name, platform, awaiting, confirm),
    ensures
        awaiting.lesson(confirm) is Reflected,
{
}

/// Whether two different pairs of a key and some bytes have one MAC.
pub open spec fn macs_collide(a_key: Seq<u8>, a: Seq<u8>, b_key: Seq<u8>, b: Seq<u8>) -> bool {
    &&& a_key != b_key || a != b
    &&& hmac_of(a_key, a) == hmac_of(b_key, b)
}

/// Whether a side refuses a confirmation as failed, or else its MAC is one that
/// two different inputs share.
pub open spec fn failed_or_collision(
    awaiting: AwaitingConfirm,
    confirm: Confirm,
    other: AwaitingConfirm,
    sent: Confirm,
) -> bool {
    awaiting.lesson(confirm) is Failed || macs_collide(
        awaiting.mac_key@,
        awaiting.transcript@ + confirm.body@,
        other.mac_key@,
        other.transcript@ + sent.body@,
    )
}

/// Transcripts of the same two messages are of one length, and differ where what
/// they are bound to does.
proof fn lemma_transcripts(x: Seq<u8>, y: Seq<u8>, a: Seq<u8>, b: Seq<u8>)
    requires
        a.len() == b.len(),
    ensures
        transcript_of(x, y, a).len() == transcript_of(y, x, b).len(),
        a != b ==> transcript_of(x, y, a) != transcript_of(y, x, b),
{
    law_one_transcript(x, y, b);
    let n = (x.len() + y.len()) as int;
    assert(transcript_of(x, y, a).skip(n) =~= a);
    assert(transcript_of(x, y, b).skip(n) =~= b);
}

/// What a pairing teaches and what it refuses. Two devices with keys of their own
/// have each started and got the other's message; then for the first of them:
/// - with one code over one channel, the other's confirmation teaches exactly the
///   other's key, name and platform;
/// - its own confirmation is refused as its own;
/// - over two channels, as with a relay between them, or where the two came to
///   different keys, the other's confirmation fails;
/// - a confirmation with another body and the MAC kept fails;
/// the last two up to MACs that collide.
pub proof fn law_what_a_pairing_teaches(
    a: Pairing,
    b: Pairing,
    a_key: DeviceKey,
    a_name: Seq<char>,
    a_platform: Seq<char>,
    b_key: DeviceKey,
    b_name: Seq<char>,
    b_platform: Seq<char>,
    a_awaiting: AwaitingConfirm,
    a_confirm: Confirm,
    b_awaiting: AwaitingConfirm,
    b_confirm: Confirm,
    forged: Confirm,
)
    requires
        a.wf(),
        b.wf(),
        a_key.wf(),
        b_key.wf(),
        a_key.public@ != b_key.public@,
        // What each side's `key_exchange` on the other's message gives.
        confirmed(
            a.secret(b.ours@),
            a.transcript(b.ours@),
            a_key,
            a_name,
            a_platform,
            a_awaiting,
            a_confirm,
        ),
        spake2_sent(a.code(), a.context(), b.ours@) ==> a.secret(b.ours@) == a.secret_of_peer(
            b.ours@,
        ),
        confirmed(
            b.secret(a.ours@),
            b.transcript(a.ours@),
            b_key,
            b_name,
            b_platform,
            b_awaiting,
            b_confirm,
        ),
        // The body was replaced, the MAC was kept.
        forged.body@ != b_confirm.body@,
        forged.mac@ == b_confirm.mac@,
    ensures
        a.code() == b.code() && a.channel_binding@ == b.channel_binding@ ==> a_awaiting.lesson(
            b_confirm,
        ) == Lesson::Peer(b_key.public@, b_name, b_platform),
        a_awaiting.lesson(a_confirm) is Reflected,
        a.channel_binding@ != b.channel_binding@ || a_awaiting.mac_key@ != b_awaiting.mac_key@
            ==> failed_or_collision(a_awaiting, b_confirm, b_awaiting, b_confirm),
        failed_or_collision(a_awaiting, forged, b_awaiting, b_confirm),
{
    law_own_confirmation_is_reflected(
        a.secret(b.ours@),
        a.transcript(b.ours@),
        a_key,
        a_name,
        a_platform,
        a_awaiting,
        a_confirm,
    );
    lemma_transcripts(a.ours@, b.ours@, a.channel_binding@, b.channel_binding@);
    if a.code() == b.code() && a.channel_binding@ == b.channel_binding@ {
        law_matching_codes_exchange_identities(
            a,
            b,
            a_key,
            a_name,
            a_platform,
            b_key,
            b_name,
            b_platform,
            a_awaiting,
            a_confirm,
            b_awaiting,
            b_confirm,
        );
    }
    let n = a_awaiting.transcript@.len() as int;
    let x = a_awaiting.transcript@;
    let y = b_awaiting.transcript@;
    let body = b_confirm.body@;
    assert((x + body).take(n) =~= x);
    assert((y + body).take(n) =~= y);
    assert((x + forged.body@).skip(n) =~= forged.body@);
    assert((y + body).skip(n) =~= body);
}

/// A number below a million is put together from its six digits.
#[verifier::spinoff_prover]
proof fn lemma_six_digits_of(n: nat)
    requires
        n < 1_000_000,
    ensures
        n == ((((n / 100000 % 10 * 10 + n / 10000 % 10) * 10 + n / 1000 % 10) * 10 + n / 100 % 10)
            * 10 + n / 10 % 10) * 10 + n % 10,
{
    let (t, h, k, tk, hk) = (n / 10, n / 100, n / 1000, n / 10000, n / 100000);
    assert(hk % 10 == hk);
    assert(tk == 10 * hk + tk % 10) by {
        assert(tk / 10 == hk);
    }
    assert(k == 10 * tk + k % 10) by {
        assert(k / 10 == tk);
    }
    assert(h == 10 * k + h % 10) by {
        assert(h / 10 == k);
    }
    assert(t == 10 * h + t % 10) by {
        assert(t / 10 == h);
    }
}

/// Each number below a million is a code of its own, its six digits with zeros before
/// it, and reads as that number.
pub proof fn law_every_code_is_six_digits(n: nat)
    requires
        n < 1_000_000,
    ensures
        padded(n).len() == 6,
        number(padded(n)) == Some(n),
        CODES == 1_000_000,
{
    let p = padded(n);
    let (a, b, c, d, e, f) = (
        n / 100000 % 10,
        n / 10000 % 10,
        n / 1000 % 10,
        n / 100 % 10,
        n / 10 % 10,
        n % 10,
    );
    let one = seq![digit_char(a)];
    let two = one.push(digit_char(b));
    let three = two.push(digit_char(c));
    let four = three.push(digit_char(d));
    let five = four.push(digit_char(e));
    law_number_is_positional(one, digit_char(a));
    law_number_is_positional(one, digit_char(b));
    law_number_is_positional(two, digit_char(c));
    law_number_is_positional(three, digit_char(d));
    law_number_is_positional(four, digit_char(e));
    law_number_is_positional(five, digit_char(f));
    assert(p =~= five.push(digit_char(f)));
    lemma_six_digits_of(n);
}

/// A code is six characters that are digits.
pub proof fn law_what_is_a_code(s: Seq<char>)
    ensures
        six_digits(s) <==> s.len() == 6 && forall|i: int|
            0 <= i < s.len() ==> "0123456789"@.contains(#[trigger] s[i]),
{
    reveal_strlit("0123456789");
    let all = "0123456789"@;
    assert forall|c: char| is_digit(c) <==> #[trigger] all.contains(c) by {
        if is_digit(c) {
            assert(all[c as int - '0' as int] == c);
        }
    }
    if six_digits(s) {
        assert forall|i: int| 0 <= i < s.len() implies all.contains(#[trigger] s[i]) by {
            assert(is_digit(s[i]));
        }
    }
}

/// A transcript holds both messages and the channel: transcripts of messages of one
/// length are the same only where the two messages are, in either order, and so is
/// the channel.
pub proof fn law_transcript_is_of_both_messages(
    a: Seq<u8>,
    b: Seq<u8>,
    binding: Seq<u8>,
    c: Seq<u8>,
    d: Seq<u8>,
    other: Seq<u8>,
)
    requires
        a.len() == b.len() == c.len() == d.len(),
        transcript_of(a, b, binding) == transcript_of(c, d, other),
    ensures
        binding == other,
        (a == c && b == d) || (a == d && b == c),
{
    let (x, y) = if bytes_le(a, b) {
        (a, b)
    } else {
        (b, a)
    };
    let (z, w) = if bytes_le(c, d) {
        (c, d)
    } else {
        (d, c)
    };
    let (s, t) = (x + y + binding, z + w + other);
    let n = a.len() as int;
    assert(s.subrange(0, n) =~= x && t.subrange(0, n) =~= z);
    assert(s.subrange(n, 2 * n) =~= y && t.subrange(n, 2 * n) =~= w);
    assert(s.skip(2 * n) =~= binding && t.skip(2 * n) =~= other);
}

/// What both devices put into the exchange is `lattice-pairing-v1`, and what the key of
/// their confirmations is made of `lattice-pairing-confirm-v1`.
pub proof fn law_pairing_labels(i: int)
    ensures
        PAIRING_CONTEXT@.len() == 18,
        CONFIRM_LABEL@.len() == 26,
        0 <= i < 18 ==> PAIRING_CONTEXT@[i] as int == "lattice-pairing-v1"@[i] as int,
        0 <= i < 26 ==> CONFIRM_LABEL@[i] as int == "lattice-pairing-confirm-v1"@[i] as int,
{
    reveal_strlit("lattice-pairing-v1");
    reveal_strlit("lattice-pairing-confirm-v1");
}

/// A pairing with one code over one channel ends with a record of the other device:
/// its key, the id of that key, its name and platform, the time, and nobody who
/// introduced it.
pub proof fn law_pairing_records_the_other_device(
    a: Pairing,
    b: Pairing,
    a_key: DeviceKey,
    a_name: Seq<char>,
    a_platform: Seq<char>,
    b_key: DeviceKey,
    b_name: Seq<char>,
    b_platform: Seq<char>,
    a_awaiting: AwaitingConfirm,
    a_confirm: Confirm,
    b_awaiting: AwaitingConfirm,
    b_confirm: Confirm,
    now: u64,
    out: Result<PairedPeer, Error>,
)
    requires
        a.wf(),
        b.wf(),
        a_key.wf(),
        b_key.wf(),
        a.code() == b.code(),
        a.channel_binding@ == b.channel_binding@,
        a_key.public@ != b_key.public@,
        confirmed(
            a.secret(b.ours@),
            a.transcript(b.ours@),
            a_key,
            a_name,
            a_platform,
            a_awaiting,
            a_confirm,
        ),
        spake2_sent(a.code(), a.context(), b.ours@) ==> a.secret(b.ours@) == a.secret_of_peer(
            b.ours@,
        ),
        confirmed(
            b.secret(a.ours@),
            b.transcript(a.ours@),
            b_key,
            b_name,
            b_platform,
            b_awaiting,
            b_confirm,
        ),
        // What `finish` gives on the other's confirmation.
        taught(out, a_awaiting.lesson(b_confirm), now),
    ensures
        out matches Ok(peer) && {
            &&& peer.public_key@ == b_key.public@
            &&& peer.device_id == b_key.id
            &&& peer.name@ == b_name
            &&& peer.platform@ == b_platform
            &&& peer.paired_at == now
            &&& peer.introduced_by is None
        },
{
    law_matching_codes_exchange_identities(
        a,
        b,
        a_key,
        a_name,
        a_platform,
        b_key,
        b_name,
        b_platform,
        a_awaiting,
        a_confirm,
        b_awaiting,
        b_confirm,
    );
}

/// A pairing gives a record only of what the peer's confirmation holds, only where its
/// MAC is that of the transcript and the body, and never of our own key.
pub proof fn law_no_record_without_its_mac(
    awaiting: AwaitingConfirm,
    confirm: Confirm,
    now: u64,
    out: Result<PairedPeer, Error>,
)
    requires
        taught(out, awaiting.lesson(confirm), now),
    ensures
        out matches Ok(peer) ==> {
            &&& confirm.mac@ == hmac_of(awaiting.mac_key@, awaiting.transcript@ + confirm.body@)
            &&& postcard_body(confirm.body@) == Ok::<
                (Seq<u8>, Seq<char>, Seq<char>),
                Seq<char>,
            >((peer.public_key@, peer.name@, peer.platform@))
            &&& peer.public_key@ != awaiting.our_public_key@
            &&& key_fault(peer.public_key@) is None
            &&& peer.device_id == id_of(peer.public_key@)
        },
        confirm.mac@ != hmac_of(awaiting.mac_key@, awaiting.transcript@ + confirm.body@) ==> out
            == Err::<PairedPeer, Error>(Error::PairingFailed),
{
}

/// What a code puts into the exchange.
pub open spec fn code_bytes(code: PairingCode) -> Seq<u8> {
    encode_utf8(code.digits@)
}

/// The whole code goes into the exchange, a byte for each digit, and different codes put
/// in different bytes.
pub proof fn law_the_whole_code_is_exchanged(code: PairingCode, other: PairingCode)
    requires
        code.wf(),
        other.wf(),
    ensures
        code_bytes(code).len() == 6,
        forall|i: int|
            0 <= i < 6 ==> (#[trigger] code_bytes(code)[i]) as int == code.digits@[i] as int,
        code_bytes(code) == code_bytes(other) ==> code.digits@ == other.digits@,
{
    lemma_code_bytes(code);
    lemma_code_bytes(other);
    if code_bytes(code) == code_bytes(other) {
        assert forall|i: int| 0 <= i < 6 implies code.digits@[i] == other.digits@[i] by {
            assert(code_bytes(code)[i] == code_bytes(other)[i]);
        }
        assert(code.digits@ =~= other.digits@);
    }
}

proof fn lemma_code_bytes(code: PairingCode)
    requires
        code.wf(),
    ensures
        code_bytes(code).len() == 6,
        forall|i: int|
            0 <= i < 6 ==> (#[trigger] code_bytes(code)[i]) as int == code.digits@[i] as int,
{
    let s = code.digits@;
    assert(is_ascii_chars(s)) by {
        assert forall|i: int| 0 <= i < s.len() implies '\0' <= #[trigger] s[i] <= '\u{7f}' by {
            assert(is_digit(s[i]));
        }
    }
    is_ascii_chars_encode_utf8(s);
}

/// What a body holds is its key, name and platform, or what is said against it.
pub proof fn law_a_body_is_its_fields(
    key: [u8; 32],
    name: String,
    platform: String,
    said: String,
)
    ensures
        fields_of(Ok((key, name, platform))) == Ok::<
            (Seq<u8>, Seq<char>, Seq<char>),
            Seq<char>,
        >((key@, name@, platform@)),
        fields_of(Err(said)) == Err::<(Seq<u8>, Seq<char>, Seq<char>), Seq<char>>(said@),
{
}

}
