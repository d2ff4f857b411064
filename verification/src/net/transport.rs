//! The rules of a connection between paired devices.
//!
//! There is no certificate authority anywhere in this path. Both directions
//! authenticate the same way: pull the Ed25519 key out of the peer's
//! certificate and ask the policy whether it is trusted. Certificate dates,
//! subject names and chains are all ignored.

use vstd::prelude::*;

use crate::bytes::same_bytes;
use crate::net::error::Error;
use crate::net::identity::{id_of, DeviceId, PublicKey};
use crate::net::stream::{StreamHeader, StreamKind};
use crate::net::tls::{binding, certified, channel_binding, law_both_sides_derive_one_binding, peer_key};
use crate::net::trust::{admits, law_trust_is_in_a_record, TrustStore};
use crate::text::join2;

verus! {

/// `lattice/1`.
pub const ALPN: [u8; 9] = [108, 97, 116, 116, 105, 99, 101, 47, 49];

/// Opening bytes of the control stream, exchanged in both directions: `LTC1`.
pub const HELLO: [u8; 4] = [76, 84, 67, 49];

/// Stream priorities. Activation sits at the transport's default, so a stream
/// nobody classified behaves as the hot path rather than silently outranking
/// it. Control outranks it because generation bumps and drain notices decide
/// how fast a master can re-plan, and they are a few bytes each.
pub const PRIORITY_CONTROL: i32 = 1;

pub const PRIORITY_ACTIVATION: i32 = 0;

pub const PRIORITY_BULK: i32 = -1;

/// Sized to the worst link this is meant to work on: gigabit ethernet at a
/// 50 ms round trip. Sustaining a rate needs a window of at least bandwidth
/// times round trip.
pub const STREAM_RECEIVE_WINDOW: u32 = 0x80_0000;

/// Caps memory per peer. Streams share it, so this is the real ceiling on how
/// much unacknowledged data one peer can make this device buffer.
pub const CONNECTION_WINDOW: u32 = 0x200_0000;

/// Seconds between keepalives. Idle connections are the norm between requests,
/// and a warm connection must not die half a minute after the last token.
pub const KEEP_ALIVE: u64 = 10;

/// Seconds after which a silent connection is closed.
pub const IDLE_TIMEOUT: u64 = 30;

/// A single lost keepalive does not close a live connection, one stream cannot
/// exhaust the connection's window, and the stream window covers gigabit
/// ethernet at a round trip of fifty milliseconds.
pub proof fn law_limits_fit_one_another()
    ensures
        KEEP_ALIVE * 2 < IDLE_TIMEOUT,
        CONNECTION_WINDOW > STREAM_RECEIVE_WINDOW,
        STREAM_RECEIVE_WINDOW * 1000 >= 125_000_000 * 50,
        PRIORITY_CONTROL > PRIORITY_ACTIVATION > PRIORITY_BULK,
        PRIORITY_ACTIVATION == 0,
{
}

/// Decides whether a presented device key may connect. Pairing uses
/// [`AcceptAnyPeer`]; everything else consults the trust store.
pub trait PeerPolicy {
    /// The policy can be asked.
    spec fn ready(&self) -> bool;

    /// Whether a key may connect.
    spec fn admits(&self, key: Seq<u8>) -> bool;

    fn accept(&self, key: &PublicKey) -> (out: bool)
        requires
            self.ready(),
        ensures
            out == self.admits(key@),
    ;
}

/// Accepts any device key. Only valid for the pairing endpoint, where the
/// pairing code, not TLS, supplies authentication.
#[derive(Debug)]
pub struct AcceptAnyPeer;

impl PeerPolicy for AcceptAnyPeer {
    open spec fn ready(&self) -> bool {
        true
    }

    open spec fn admits(&self, key: Seq<u8>) -> bool {
        true
    }

    fn accept(&self, key: &PublicKey) -> (out: bool) {
        true
    }
}

/// A trust store admits exactly the devices in it.
impl PeerPolicy for TrustStore {
    open spec fn ready(&self) -> bool {
        self.wf()
    }

    open spec fn admits(&self, key: Seq<u8>) -> bool {
        self.trusts(key)
    }

    fn accept(&self, key: &PublicKey) -> (out: bool) {
        self.is_trusted(key)
    }
}

/// Exactly the devices in a store; nobody where the store cannot be read.
pub struct TrustedPeers<'a> {
    pub store: Option<&'a TrustStore>,
}

impl<'a> PeerPolicy for TrustedPeers<'a> {
    open spec fn ready(&self) -> bool {
        self.store matches Some(store) ==> store.wf()
    }

    open spec fn admits(&self, key: Seq<u8>) -> bool {
        self.store matches Some(store) && store.trusts(key)
    }

    fn accept(&self, key: &PublicKey) -> (out: bool) {
        admits(self.store, key)
    }
}

/// Why a certificate was refused in the handshake.
#[derive(Clone, Copy, Debug, PartialEq, Eq, Structural)]
pub enum HandshakeRefusal {
    /// There is no usable key in it.
    BadEncoding,
    /// The policy does not admit its key.
    NotAdmitted,
}

/// Judges a presented certificate, in either direction.
pub fn check<P: PeerPolicy>(policy: &P, cert: &[u8]) -> (out: Result<(), HandshakeRefusal>)
    requires
        policy.ready(),
    ensures
        out == handshake(*policy, cert@),
{
    match peer_key(cert) {
        Err(_) => Err(HandshakeRefusal::BadEncoding),
        Ok(key) => if policy.accept(&key) {
            Ok(())
        } else {
            Err(HandshakeRefusal::NotAdmitted)
        },
    }
}

/// Which side opened the connection. Stream setup is not symmetric: one side
/// must open where the other accepts, so the role is remembered.
#[derive(Clone, Copy, Debug, PartialEq, Eq, Structural)]
pub enum Role {
    Dialer,
    Listener,
}

/// What is known of the peer of an authenticated connection.
#[derive(Clone, Copy, Debug)]
pub struct Connection {
    pub peer_key: PublicKey,
    pub channel_binding: [u8; 32],
    pub role: Role,
}

impl Connection {
    /// Learns who the peer is from the certificates that it presented: `None`
    /// where it presented none at all.
    pub fn establish(
        local_cert: &[u8],
        presented: Option<&Vec<Vec<u8>>>,
        role: Role,
    ) -> (out: Result<Self, Error>)
        ensures
            established(
                local_cert@,
                (match presented {
                    Some(chain) => Some(chain@),
                    None => None,
                }),
                role,
                out,
            ),
    {
        match presented {
            None => Err(Error::Certificate("peer presented no certificate".to_owned())),
            Some(chain) => {
                if chain.len() == 0 {
                    return Err(Error::Certificate("peer certificate chain is empty".to_owned()));
                }
                let end_entity = chain[0].as_slice();
                let bound = channel_binding(local_cert, end_entity);
                let key = peer_key(end_entity)?;
                Ok(Connection { peer_key: key, channel_binding: bound, role })
            },
        }
    }

    /// Which side opened the connection.
    pub fn role(&self) -> (out: Role)
        ensures
            out == self.role,
    {
        self.role
    }

    /// The peer's key.
    pub fn peer_key(&self) -> (out: PublicKey)
        ensures
            out == self.peer_key,
    {
        self.peer_key
    }

    /// The peer's id.
    pub fn peer_id(&self) -> (out: DeviceId)
        ensures
            out == id_of(self.peer_key@),
    {
        DeviceId::from_public_key(&self.peer_key)
    }

    /// What a pairing on this connection is bound to.
    pub fn channel_binding(&self) -> (out: [u8; 32])
        ensures
            out == self.channel_binding,
    {
        self.channel_binding
    }
}

/// Judges the peer's greeting: the bytes it sent, or `None` where the exchange
/// broke off.
///
/// TLS 1.3 completes the client's handshake before the server has judged the
/// client certificate, so a dialer whose key is not pinned still sees the
/// connection succeed. The greeting is what turns that into a refusal at the
/// point of connection rather than a puzzling failure on first use.
pub fn check_greeting(greeting: Option<&[u8; 4]>) -> (out: Result<(), Error>)
    ensures
        out is Ok <==> (greeting matches Some(g) && g@ == HELLO@),
        out matches Err(e) ==> e == Error::Rejected,
{
    match greeting {
        None => Err(Error::Rejected),
        Some(g) => {
            let hello = HELLO;
            if same_bytes(g.as_slice(), hello.as_slice()) {
                Ok(())
            } else {
                Err(Error::Rejected)
            }
        },
    }
}

/// Refuses a stream that was accepted where a control stream was due.
pub fn expect_control(header: &StreamHeader) -> (out: Result<(), Error>)
    ensures
        match out {
            Ok(()) => header.kind == StreamKind::Control,
            Err(Error::StreamHeader(said)) => {
                &&& header.kind != StreamKind::Control
                &&& said@ == "expected a control stream, got "@ + header.kind.shown()
            },
            Err(_) => false,
        },
{
    if header.kind == StreamKind::Control {
        Ok(())
    } else {
        Err(Error::StreamHeader(join2("expected a control stream, got ", header.kind.name())))
    }
}

/// The protocol is announced as `lattice/1` and greeted with `LTC1`.
pub proof fn law_protocol_names(i: int)
    ensures
        ALPN@.len() == 9,
        HELLO@.len() == 4,
        0 <= i < 9 ==> ALPN@[i] as int == "lattice/1"@[i] as int,
        0 <= i < 4 ==> HELLO@[i] as int == "LTC1"@[i] as int,
{
    reveal_strlit("lattice/1");
    reveal_strlit("LTC1");
}

/// Whoever dials by the trust store is a device in it, and nobody is where there is
/// no store; anyone is where pairing takes anyone.
pub proof fn law_who_is_let_in(store: TrustStore, key: Seq<u8>)
    ensures
        (TrustedPeers { store: None }).admits(key) == false,
        (TrustedPeers { store: Some(&store) }).admits(key) == store.trusts(key),
        store.admits(key) == store.trusts(key),
        AcceptAnyPeer.admits(key),
{
}

/// What comes of a certificate under a policy.
pub open spec fn handshake<P: PeerPolicy>(policy: P, cert: Seq<u8>) -> Result<
    (),
    HandshakeRefusal,
> {
    match certified(cert) {
        Err(_) => Err(HandshakeRefusal::BadEncoding),
        Ok(key) => if policy.admits(key) {
            Ok(())
        } else {
            Err(HandshakeRefusal::NotAdmitted)
        },
    }
}

/// Whether a result is the connection with whoever presented a chain of certificates, or
/// the reason why there is none.
pub open spec fn established(
    local_cert: Seq<u8>,
    presented: Option<Seq<Vec<u8>>>,
    role: Role,
    out: Result<Connection, Error>,
) -> bool {
    match presented {
        None => out matches Err(Error::Certificate(s)) && s@ == "peer presented no certificate"@,
        Some(chain) => if chain.len() == 0 {
            out matches Err(Error::Certificate(s)) && s@ == "peer certificate chain is empty"@
        } else {
            match certified(chain[0]@) {
                Err(said) => out matches Err(Error::Certificate(s)) && s@ == said,
                Ok(key) => {
                    &&& out matches Ok(conn)
                    &&& conn.peer_key@ == key
                    &&& conn.peer_key.wf()
                    &&& conn.channel_binding@ == binding(local_cert, chain[0]@)
                    &&& conn.role == role
                },
            }
        },
    }
}

/// A device is let in exactly where its certificate gives a key and, for a device that
/// lets in whom it trusts, a record holds that key for the device that it is the key of.
pub proof fn law_only_trusted_keys_are_let_in(store: TrustStore, cert: Seq<u8>)
    requires
        store.wf(),
    ensures
        handshake(TrustedPeers { store: Some(&store) }, cert) is Ok <==> certified(cert) is Ok
            && exists|i: int|
            0 <= i < store.records().len() && (#[trigger] store.records()[i]).public_key@
                == certified(cert)->Ok_0 && store.records()[i].device_id == id_of(
                certified(cert)->Ok_0,
            ),
        handshake(TrustedPeers { store: None }, cert) is Err,
        handshake(AcceptAnyPeer, cert) is Ok <==> certified(cert) is Ok,
        certified(cert) is Err ==> handshake(TrustedPeers { store: Some(&store) }, cert) == Err::<
            (),
            HandshakeRefusal,
        >(HandshakeRefusal::BadEncoding),
{
    if let Ok(key) = certified(cert) {
        law_trust_is_in_a_record(store, key);
    }
}

/// Both ends of a connection know each other by their certificates' keys and share one
/// binding to the channel, whoever dialled.
pub proof fn law_both_ends_share_the_channel(
    a_cert: Seq<u8>,
    a_chain: Seq<Vec<u8>>,
    a_role: Role,
    a: Connection,
    b_cert: Seq<u8>,
    b_chain: Seq<Vec<u8>>,
    b_role: Role,
    b: Connection,
)
    requires
        a_chain.len() > 0,
        b_chain.len() > 0,
        // Each presents its own certificate to the other.
        a_chain[0]@ == b_cert,
        b_chain[0]@ == a_cert,
        established(a_cert, Some(a_chain), a_role, Ok::<Connection, Error>(a)),
        established(b_cert, Some(b_chain), b_role, Ok::<Connection, Error>(b)),
    ensures
        a.channel_binding@ == b.channel_binding@,
        certified(b_cert) == Ok::<Seq<u8>, Seq<char>>(a.peer_key@),
        certified(a_cert) == Ok::<Seq<u8>, Seq<char>>(b.peer_key@),
        a.role == a_role,
        b.role == b_role,
{
    law_both_sides_derive_one_binding(a_cert, b_cert);
}

}
