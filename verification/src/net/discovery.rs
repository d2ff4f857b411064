//! Which other devices are on the network.
//!
//! Discovery is unauthenticated by design: it only tells that a device exists.
//! Nothing here grants trust; that is pairing's job.

use vstd::prelude::*;

use crate::bytes::{law_be_reads_back, lemma_capacities};
use crate::net::addr::SocketAddr;
use crate::net::digest::{hex_bytes, hex_digit, is_hex, law_hex_reads_back};
use crate::net::identity::{lemma_id_by_bytes, DeviceId};
use crate::net::roster::Roster;
use crate::text::{before, chars_of, decimal, find, join2, join3, law_decimal_reads_back, lemma_before, number, number_text, number_within, parse_number, parse_u16, piece, text_of};

verus! {

pub const SERVICE_TYPE: &'static str = "_lattice._tcp.local.";

pub const PROTOCOL_VERSION: u16 = 1;

pub const TXT_DEVICE_ID: &'static str = "id";

pub const TXT_NAME: &'static str = "name";

pub const TXT_PLATFORM: &'static str = "platform";

pub const TXT_MEMORY: &'static str = "mem";

pub const TXT_PROTOCOL: &'static str = "proto";

pub const TXT_ROLE: &'static str = "role";

pub const TXT_PAIRING: &'static str = "pair";

/// What this device publishes about itself.
#[derive(Clone, Debug, PartialEq, Eq)]
pub struct Advertisement {
    pub device_id: DeviceId,
    /// Human-facing name, typically the hostname.
    pub name: String,
    /// `os-arch`, e.g. `macos-aarch64`.
    pub platform: String,
    /// Total physical memory in bytes. Advisory only; the planner re-measures.
    pub total_memory: u64,
    /// Port the listener is bound to.
    pub port: u16,
}

/// A device seen on the network. Being discovered implies nothing about trust.
#[derive(Clone, Debug, PartialEq, Eq)]
pub struct DiscoveredPeer {
    pub device_id: DeviceId,
    pub name: String,
    pub platform: String,
    pub total_memory: u64,
    pub protocol: u16,
    pub addrs: Vec<SocketAddr>,
    /// What the device does, where it says so.
    pub role: Option<String>,
    /// Where the device can be paired with, where it says so.
    pub pairing_port: Option<u16>,
}

/// A device came, or went.
#[derive(Clone, Debug, PartialEq, Eq)]
pub enum PeerEvent {
    Found(DiscoveredPeer),
    Lost(DeviceId),
}

/// A resolved record, as it was read off the network: the text under each key,
/// where there is one.
#[derive(Clone, Debug)]
pub struct Record {
    pub device_id: Option<String>,
    pub name: Option<String>,
    pub platform: Option<String>,
    pub memory: Option<String>,
    pub protocol: Option<String>,
    pub role: Option<String>,
    pub pairing_port: Option<String>,
    pub addrs: Vec<SocketAddr>,
}

/// A published property: its key and its text.
pub open spec fn property(pair: (&'static str, String)) -> (Seq<char>, Seq<char>) {
    (pair.0@, pair.1@)
}

impl Advertisement {
    /// The properties that are published, without a role.
    pub open spec fn plain_properties(self) -> Seq<(Seq<char>, Seq<char>)> {
        seq![
            (TXT_DEVICE_ID@, self.device_id.shown()),
            (TXT_NAME@, self.name@),
            (TXT_PLATFORM@, self.platform@),
            (TXT_MEMORY@, decimal(self.total_memory as nat)),
            (TXT_PROTOCOL@, decimal(PROTOCOL_VERSION as nat)),
        ]
    }

    /// The properties that are published.
    pub open spec fn properties(
        self,
        role: Option<Seq<char>>,
        pairing_port: Option<u16>,
    ) -> Seq<(Seq<char>, Seq<char>)> {
        let plain = self.plain_properties();
        let with_role = match role {
            Some(role) => plain.push((TXT_ROLE@, role)),
            None => plain,
        };
        match pairing_port {
            Some(port) => with_role.push((TXT_PAIRING@, decimal(port as nat))),
            None => with_role,
        }
    }

    /// The properties to publish.
    pub fn txt(&self, role: Option<&str>, pairing_port: Option<u16>) -> (out: Vec<
        (&'static str, String),
    >)
        ensures
            out@.len() == self.properties(
                (match role {
                    Some(r) => Some(r@),
                    None => None,
                }),
                pairing_port,
            ).len(),
            forall|i: int|
                0 <= i < out@.len() ==> property(#[trigger] out@[i]) == self.properties(
                    (match role {
                        Some(r) => Some(r@),
                        None => None,
                    }),
                    pairing_port,
                )[i],
    {
        let mut out: Vec<(&'static str, String)> = Vec::new();
        out.push((TXT_DEVICE_ID, self.device_id.text()));
        out.push((TXT_NAME, self.name.clone()));
        out.push((TXT_PLATFORM, self.platform.clone()));
        out.push((TXT_MEMORY, number_text(self.total_memory as u128)));
        out.push((TXT_PROTOCOL, number_text(PROTOCOL_VERSION as u128)));
        if let Some(role) = role {
            out.push((TXT_ROLE, role.to_owned()));
        }
        if let Some(port) = pairing_port {
            out.push((TXT_PAIRING, number_text(port as u128)));
        }
        out
    }

    /// The name of the device's host record.
    pub fn host(&self) -> (out: String)
        ensures
            out@ == self.device_id.shown() + ".local."@,
    {
        join2(self.device_id.text().as_str(), ".local.")
    }

    /// The full name of the device's service record. The instance name is the
    /// device id, which keeps instance names unique and lets a disappearance
    /// identify the device without a cache lookup.
    pub fn fullname(&self) -> (out: String)
        ensures
            out@ == fullname_of(self.device_id),
    {
        join3(self.device_id.text().as_str(), ".", SERVICE_TYPE)
    }
}

/// The full name of a device's service record.
pub open spec fn fullname_of(id: DeviceId) -> Seq<char> {
    id.shown() + "."@ + SERVICE_TYPE@
}

/// The id that an optional text writes.
pub open spec fn id_in(text: Option<String>) -> bool {
    text matches Some(t) && is_hex(t@, 8)
}

/// The number that an optional text writes, no greater than `max`.
pub open spec fn number_in(text: Option<String>, max: nat) -> Option<nat> {
    match text {
        Some(t) => number_within(t@, max),
        None => None,
    }
}

/// Whether a record holds every field that it has to, and mangles none.
pub open spec fn complete(record: Record) -> bool {
    &&& id_in(record.device_id)
    &&& record.name is Some
    &&& record.platform is Some
    &&& number_in(record.memory, u64::MAX as nat) is Some
    &&& number_in(record.protocol, u16::MAX as nat) is Some
    &&& record.pairing_port is Some ==> number_in(record.pairing_port, u16::MAX as nat) is Some
}

/// Whether a device is the one that a complete record describes.
pub open spec fn resolved_as(record: Record, peer: DiscoveredPeer) -> bool {
    &&& peer.device_id.bytes() == hex_bytes(record.device_id.unwrap()@, 8)
    &&& peer.name == record.name.unwrap()
    &&& peer.platform == record.platform.unwrap()
    &&& number_in(record.memory, u64::MAX as nat) == Some(peer.total_memory as nat)
    &&& number_in(record.protocol, u16::MAX as nat) == Some(peer.protocol as nat)
    &&& peer.role == record.role
    &&& match record.pairing_port {
        Some(_) => peer.pairing_port matches Some(port) && number_in(
            record.pairing_port,
            u16::MAX as nat,
        ) == Some(port as nat),
        None => peer.pairing_port is None,
    }
    &&& peer.addrs == record.addrs
}

/// A record missing or mangling any field it declared is dropped rather than
/// defaulted: a half-parsed peer is worse than an invisible one.
pub fn to_peer(record: Record) -> (out: Option<DiscoveredPeer>)
    ensures
        out is Some <==> complete(record),
        out matches Some(peer) ==> resolved_as(record, peer),
{
    let device_id = match &record.device_id {
        Some(text) => match DeviceId::parse(text.as_str()) {
            Ok(id) => id,
            Err(_) => return None,
        },
        None => return None,
    };
    let name = match record.name {
        Some(name) => name,
        None => return None,
    };
    let platform = match record.platform {
        Some(platform) => platform,
        None => return None,
    };
    let total_memory: u64 = match &record.memory {
        Some(text) => match parse_number(chars_of(text.as_str()).as_slice(), u64::MAX) {
            Some(n) => n,
            None => return None,
        },
        None => return None,
    };
    let protocol: u16 = match &record.protocol {
        Some(text) => match parse_u16(chars_of(text.as_str()).as_slice()) {
            Some(n) => n,
            None => return None,
        },
        None => return None,
    };
    let pairing_port: Option<u16> = match &record.pairing_port {
        Some(text) => match parse_u16(chars_of(text.as_str()).as_slice()) {
            Some(n) => Some(n),
            None => return None,
        },
        None => None,
    };
    Some(
        DiscoveredPeer {
            device_id,
            name,
            platform,
            total_memory,
            protocol,
            addrs: record.addrs,
            role: record.role,
            pairing_port,
        },
    )
}

/// The device whose service record has a full name.
pub fn device_id_from_fullname(fullname: &str) -> (out: Option<DeviceId>)
    ensures
        match out {
            Some(id) => {
                &&& is_hex(before(fullname@, '.'), 8)
                &&& id.bytes() == hex_bytes(before(fullname@, '.'), 8)
            },
            None => !is_hex(before(fullname@, '.'), 8),
        },
{
    let chars = chars_of(fullname);
    let at = find(chars.as_slice(), '.');
    let instance = piece(chars.as_slice(), 0, at);
    assert(instance@ =~= before(fullname@, '.'));
    match DeviceId::parse(text_of(instance.as_slice()).as_str()) {
        Ok(id) => Some(id),
        Err(_) => None,
    }
}

/// A disappearance identifies the device: the id in the full name that a device
/// advertises under is its own.
pub proof fn law_fullname_identifies_the_device(id: DeviceId, found: DeviceId)
    requires
        found.bytes() == hex_bytes(before(fullname_of(id), '.'), 8),
    ensures
        is_hex(before(fullname_of(id), '.'), 8),
        found == id,
{
    lemma_capacities();
    law_be_reads_back(id.number as nat, 8);
    law_hex_reads_back(id.bytes());
    let full = fullname_of(id);
    reveal_strlit(".");
    assert forall|i: int| 0 <= i < 16 implies full[i] != '.' by {
        assert(full[i] == id.shown()[i]);
        assert(hex_digit(id.shown()[i]) is Some);
    }
    assert(full[16] == '.');
    lemma_before(full, '.', 16);
    assert(full.take(16) =~= id.shown());
    lemma_id_by_bytes(found, id);
}

/// What the network said.
pub enum Sighting {
    /// A service was resolved.
    Resolved(Record),
    /// A service went away, by its full name.
    Removed(String),
    /// Something else.
    Other,
}

/// The event that something on the network is, if any. Whatever is not a device
/// coming or going is skipped silently.
pub fn peer_event(sighting: Sighting) -> (out: Option<PeerEvent>)
    ensures
        match sighting {
            Sighting::Resolved(record) => if complete(record) {
                out matches Some(PeerEvent::Found(peer)) && resolved_as(record, peer)
            } else {
                out is None
            },
            Sighting::Removed(fullname) => if is_hex(before(fullname@, '.'), 8) {
                out matches Some(PeerEvent::Lost(id)) && id.bytes() == hex_bytes(
                    before(fullname@, '.'),
                    8,
                )
            } else {
                out is None
            },
            Sighting::Other => out is None,
        },
{
    match sighting {
        Sighting::Resolved(record) => match to_peer(record) {
            Some(peer) => Some(PeerEvent::Found(peer)),
            None => None,
        },
        Sighting::Removed(fullname) => match device_id_from_fullname(fullname.as_str()) {
            Some(id) => Some(PeerEvent::Lost(id)),
            None => None,
        },
        Sighting::Other => None,
    }
}

/// The devices in sight: those found and not lost since, but for this one.
pub struct Sightings {
    pub peers: Roster<DiscoveredPeer>,
}

impl Sightings {
    /// In the order of the ids, each under its own, this device not among them.
    pub open spec fn wf(self) -> bool {
        self.peers.wf()
    }

    /// None yet.
    pub fn new() -> (out: Self)
        ensures
            out.wf(),
            forall|id: DeviceId| #[trigger] out.peers.value(id) is None,
    {
        Sightings { peers: Roster::new() }
    }

    /// Takes note of an event. `self_id` is this device.
    pub fn observe(&mut self, event: PeerEvent, self_id: DeviceId)
        requires
            old(self).wf(),
        ensures
            final(self).wf(),
            seen_after(*old(self), event, self_id, *final(self)),
    {
        match event {
            PeerEvent::Found(peer) => {
                if peer.device_id != self_id {
                    let id = peer.device_id;
                    self.peers.insert(id, peer);
                }
            },
            PeerEvent::Lost(id) => {
                self.peers.remove(id);
            },
        }
    }
}

/// Whether a record holds what a device publishes of itself.
pub open spec fn publishes(
    record: Record,
    ad: Advertisement,
    role: Option<Seq<char>>,
    pairing_port: Option<u16>,
) -> bool {
    &&& record.device_id matches Some(text) && text@ == ad.plain_properties()[0].1
    &&& record.name matches Some(text) && text@ == ad.plain_properties()[1].1
    &&& record.platform matches Some(text) && text@ == ad.plain_properties()[2].1
    &&& record.memory matches Some(text) && text@ == ad.plain_properties()[3].1
    &&& record.protocol matches Some(text) && text@ == ad.plain_properties()[4].1
    &&& match role {
        Some(role) => record.role matches Some(text) && text@ == role,
        None => record.role is None,
    }
    &&& match pairing_port {
        Some(port) => record.pairing_port matches Some(text) && text@ == decimal(port as nat),
        None => record.pairing_port is None,
    }
}

/// A device is discovered as it advertises itself.
pub proof fn law_advertisement_is_read_back(
    ad: Advertisement,
    role: Option<Seq<char>>,
    pairing_port: Option<u16>,
    record: Record,
    peer: DiscoveredPeer,
)
    requires
        publishes(record, ad, role, pairing_port),
        resolved_as(record, peer),
    ensures
        complete(record),
        peer.device_id == ad.device_id,
        peer.name@ == ad.name@,
        peer.platform@ == ad.platform@,
        peer.total_memory == ad.total_memory,
        peer.protocol == PROTOCOL_VERSION,
        peer.pairing_port == pairing_port,
        match role {
            Some(role) => peer.role matches Some(text) && text@ == role,
            None => peer.role is None,
        },
{
    lemma_capacities();
    law_be_reads_back(ad.device_id.number as nat, 8);
    law_hex_reads_back(ad.device_id.bytes());
    lemma_id_by_bytes(peer.device_id, ad.device_id);
    law_decimal_reads_back(ad.total_memory as nat);
    law_decimal_reads_back(PROTOCOL_VERSION as nat);
    if let Some(port) = pairing_port {
        law_decimal_reads_back(port as nat);
    }
}

/// An advertisement says, under these names, the device's id, its name, its platform,
/// its memory in decimal and the protocol's version, and after them its role and its
/// pairing port where it has them.
pub proof fn law_what_is_advertised(
    ad: Advertisement,
    role: Option<Seq<char>>,
    pairing_port: Option<u16>,
)
    ensures
        ({
            let all = ad.properties(role, pairing_port);
            &&& all[0] == ("id"@, ad.device_id.shown())
            &&& all[1] == ("name"@, ad.name@)
            &&& all[2] == ("platform"@, ad.platform@)
            &&& all[3] == ("mem"@, decimal(ad.total_memory as nat))
            &&& all[4] == ("proto"@, decimal(1))
            &&& role matches Some(role) ==> all[5] == ("role"@, role)
            &&& pairing_port matches Some(port) ==> all.last() == ("pair"@, decimal(port as nat))
            &&& all.len() == 5 + (if role is Some {
                1int
            } else {
                0int
            }) + (if pairing_port is Some {
                1int
            } else {
                0int
            })
        }),
        fullname_of(ad.device_id) == ad.device_id.shown() + "."@ + "_lattice._tcp.local."@,
{
}

/// A record is of a device exactly where it has an id of sixteen hexadecimal digits, a
/// name, a platform, a memory of sixty-four bits and a protocol of sixteen, and, where
/// it has a pairing port, one of sixteen bits.
pub proof fn law_which_records_are_devices(record: Record)
    ensures
        complete(record) <==> {
            &&& record.device_id matches Some(id) && is_hex(id@, 8)
            &&& record.name is Some
            &&& record.platform is Some
            &&& record.memory matches Some(text) && number(text@) is Some && number(
                text@,
            ).unwrap() < 0x1_0000_0000_0000_0000
            &&& record.protocol matches Some(text) && number(text@) is Some && number(
                text@,
            ).unwrap() < 0x1_0000
            &&& record.pairing_port matches Some(text) ==> number(text@) is Some && number(
                text@,
            ).unwrap() < 0x1_0000
        },
{
}

/// Whether the devices in sight are those before after an event.
pub open spec fn seen_after(
    before: Sightings,
    event: PeerEvent,
    self_id: DeviceId,
    after: Sightings,
) -> bool {
    forall|id: DeviceId| #[trigger]
        after.peers.value(id) == match event {
            PeerEvent::Found(peer) => if id == peer.device_id && id != self_id {
                Some(peer)
            } else {
                before.peers.value(id)
            },
            PeerEvent::Lost(lost) => if id == lost {
                None
            } else {
                before.peers.value(id)
            },
        }
}

/// Whether the event at `i` leads from what was in sight before it to what was after.
pub open spec fn seen_at(
    states: Seq<Sightings>,
    events: Seq<PeerEvent>,
    self_id: DeviceId,
    i: int,
) -> bool {
    seen_after(states[i], events[i], self_id, states[i + 1])
}

/// Whether an event is about a device.
pub open spec fn is_about(event: PeerEvent, id: DeviceId) -> bool {
    match event {
        PeerEvent::Found(peer) => peer.device_id == id,
        PeerEvent::Lost(lost) => lost == id,
    }
}

/// What is in sight is what was seen last: over any events, a device is in sight as its
/// last event shows it, not at all where that says that it went, and this device never
/// is.
pub proof fn law_in_sight_is_what_was_seen_last(
    states: Seq<Sightings>,
    events: Seq<PeerEvent>,
    self_id: DeviceId,
    id: DeviceId,
)
    requires
        states.len() == events.len() + 1,
        states[0].peers.value(id) is None,
        forall|i: int| 0 <= i < events.len() ==> #[trigger] seen_at(states, events, self_id, i),
    ensures
        id == self_id ==> states.last().peers.value(id) is None,
        forall|at: int|
            0 <= at < events.len() && is_about(#[trigger] events[at], id) && (forall|i: int|
                at < i < events.len() ==> !is_about(#[trigger] events[i], id)) && id != self_id
                ==> states.last().peers.value(id) == match events[at] {
                PeerEvent::Found(peer) => Some(peer),
                PeerEvent::Lost(_) => None,
            },
        (forall|i: int| 0 <= i < events.len() ==> !is_about(#[trigger] events[i], id))
            ==> states.last().peers.value(id) is None,
    decreases events.len(),
{
    if events.len() > 0 {
        let last = events.len() - 1;
        let early = states.drop_last();
        let init = events.drop_last();
        assert forall|i: int| 0 <= i < init.len() implies #[trigger] seen_at(
            early,
            init,
            self_id,
            i,
        ) by {
            assert(seen_at(states, events, self_id, i));
        }
        law_in_sight_is_what_was_seen_last(early, init, self_id, id);
        assert(seen_at(states, events, self_id, last));
        assert(early.last() == states[last]);
        let now = states.last().peers.value(id);
        assert forall|at: int|
            0 <= at < events.len() && is_about(#[trigger] events[at], id) && (forall|i: int|
                at < i < events.len() ==> !is_about(#[trigger] events[i], id)) && id
                != self_id implies now == match events[at] {
            PeerEvent::Found(peer) => Some(peer),
            PeerEvent::Lost(_) => None,
        } by {
            if at < last {
                assert(!is_about(events[last], id));
                assert(init[at] == events[at]);
                assert forall|i: int| at < i < init.len() implies !is_about(
                    #[trigger] init[i],
                    id,
                ) by {
                    assert(init[i] == events[i]);
                }
            }
        }
        if forall|i: int| 0 <= i < events.len() ==> !is_about(#[trigger] events[i], id) {
            assert(!is_about(events[last], id));
            assert forall|i: int| 0 <= i < init.len() implies !is_about(#[trigger] init[i], id) by {
                assert(init[i] == events[i]);
            }
        }
    }
}

/// A property is its name and its text.
pub proof fn law_a_property_is_its_pair(pair: (&'static str, String))
    ensures
        property(pair).0 == pair.0@,
        property(pair).1 == pair.1@,
{
}

}
