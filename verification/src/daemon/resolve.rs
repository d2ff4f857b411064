//! Finding devices on the network by what the user typed.

use vstd::prelude::*;
use vstd::string::StringExecFns;

use crate::net::addr::{dialable, law_exactly_ipv4_is_dialled, parse_socket, socket_of, usable, Address, IpAddr, SocketAddr, Written};
use crate::net::control::Response;
use crate::net::digest::{hex_bytes, is_hex};
use crate::net::discovery::PeerEvent;
use crate::net::identity::DeviceId;
use crate::net::roster::Roster;
use crate::text::{decimal, join2, join3, number_text};

verus! {

/// Seconds to look for one device.
pub const LOOKUP_TIME: u64 = 10;

/// Seconds to look for several devices at once.
pub const LOCATE_TIME: u64 = 6;

/// What the user typed.
pub enum Wanted {
    /// An address with a port.
    Address(Address),
    /// A device, to be looked up.
    Device(DeviceId),
}

/// Accepts either a `host:port` or a device id.
pub fn parse_target(target: &str) -> (out: Result<Wanted, String>)
    ensures
        match socket_of(target@) {
            Some(Written::V4 { bits, port }) => out matches Ok(
                Wanted::Address(Address::V4(addr)),
            ) && addr.ip == IpAddr::V4(bits as u32) && addr.port == port,
            Some(Written::V6) => out == Ok::<Wanted, String>(Wanted::Address(Address::V6)),
            None => match out {
                Ok(Wanted::Device(id)) => is_hex(target@, 8) && id.bytes() == hex_bytes(target@, 8),
                Ok(_) => false,
                Err(said) => {
                    &&& !is_hex(target@, 8)
                    &&& said@ == "target must be a host:port or a device id"@
                },
            },
        },
{
    match parse_socket(target) {
        Some(addr) => Ok(Wanted::Address(addr)),
        None => match DeviceId::parse(target) {
            Ok(id) => Ok(Wanted::Device(id)),
            Err(_) => Err("target must be a host:port or a device id".to_owned()),
        },
    }
}

/// Looking for one device.
pub struct Lookup {
    pub wanted: DeviceId,
    pub seen_but_unreachable: bool,
}

/// The addresses of a device that an event shows, where it shows that device.
pub open spec fn shown_addrs(event: PeerEvent, wanted: DeviceId) -> Option<Seq<SocketAddr>> {
    match event {
        PeerEvent::Found(peer) => if peer.device_id == wanted {
            Some(dialable(peer.addrs@))
        } else {
            None
        },
        PeerEvent::Lost(_) => None,
    }
}

impl Lookup {
    /// Nothing seen yet.
    pub fn new(wanted: DeviceId) -> (out: Self)
        ensures
            out == (Lookup { wanted, seen_but_unreachable: false }),
    {
        Lookup { wanted, seen_but_unreachable: false }
    }

    /// Takes note of an event: the device's addresses, once there are any that
    /// can be dialled.
    ///
    /// A device's addresses are resolved incrementally, and the first record for
    /// a peer often carries only its loopback and link-local ones. Stopping at
    /// that would report a device in plain sight as unreachable.
    pub fn observe(&mut self, event: &PeerEvent) -> (out: Option<Vec<SocketAddr>>)
        ensures
            looked_up(*old(self), *event, *final(self), out),
    {
        match event {
            PeerEvent::Found(peer) => {
                if peer.device_id != self.wanted {
                    return None;
                }
                let addrs = usable(&peer.addrs);
                if addrs.len() > 0 {
                    Some(addrs)
                } else {
                    self.seen_but_unreachable = true;
                    None
                }
            },
            PeerEvent::Lost(_) => None,
        }
    }

    /// What is said where the device was not found in time.
    pub fn give_up(&self, own: DeviceId) -> (out: String)
        ensures
            out@ == if self.wanted == own {
                self.wanted.shown() + " is this device"@
            } else if self.seen_but_unreachable {
                self.wanted.shown()
                    + " is on the network but advertised no address this device can reach — pass a host:port instead"@
            } else {
                "could not find "@ + self.wanted.shown()
                    + " on the network — pass a host:port instead"@
            },
    {
        if self.wanted == own {
            join2(self.wanted.text().as_str(), " is this device")
        } else if self.seen_but_unreachable {
            join2(
                self.wanted.text().as_str(),
                " is on the network but advertised no address this device can reach — pass a host:port instead",
            )
        } else {
            join3(
                "could not find ",
                self.wanted.text().as_str(),
                " on the network — pass a host:port instead",
            )
        }
    }
}

/// Looking for several devices at once.
pub struct Locating {
    pub wanted: Vec<DeviceId>,
    pub found: Roster<Vec<SocketAddr>>,
}

impl Locating {
    /// The devices that were found are in order.
    pub open spec fn wf(self) -> bool {
        self.found.wf()
    }

    /// Nothing found yet.
    pub fn new(wanted: Vec<DeviceId>) -> (out: Self)
        ensures
            out.wf(),
            out.wanted == wanted,
            out.found.entries@.len() == 0,
            forall|id: DeviceId| #[trigger] out.found.value(id) is None,
    {
        Locating { wanted, found: Roster::new() }
    }

    /// Whether as many devices were found as were wanted.
    pub fn done(&self) -> (out: bool)
        ensures
            out == (self.found.entries@.len() >= self.wanted@.len()),
    {
        self.found.len() >= self.wanted.len()
    }

    /// Takes note of an event. A record with nothing dialable in it is ignored; a
    /// fuller one may follow.
    pub fn observe(&mut self, event: &PeerEvent)
        requires
            old(self).wf(),
        ensures
            final(self).wf(),
            located_after(*old(self), *event, *final(self)),
    {
        if let PeerEvent::Found(peer) = event {
            if contains(&self.wanted, peer.device_id) {
                let addrs = usable(&peer.addrs);
                if addrs.len() > 0 {
                    self.found.insert(peer.device_id, addrs);
                }
            }
        }
    }
}

/// Whether a device is among some.
pub(crate) fn contains(ids: &Vec<DeviceId>, id: DeviceId) -> (out: bool)
    ensures
        out == ids@.contains(id),
{
    for i in 0..ids.len()
        invariant
            forall|j: int| 0 <= j < i ==> ids@[j] != id,
    {
        if ids[i] == id {
            assert(ids@[i as int] == id);
            return true;
        }
    }
    false
}

/// Refuses to introduce devices to each other where there are none to introduce.
pub fn check_enough(peers: usize) -> (out: Result<(), String>)
    ensures
        out is Ok <==> peers >= 2,
        out matches Err(said) ==> said@
            == "provisioning needs at least two paired devices, this one has "@ + decimal(
            peers as nat,
        ) + " — pair the others to this device first"@,
{
    if peers < 2 {
        Err(
            join3(
                "provisioning needs at least two paired devices, this one has ",
                number_text(peers as u128).as_str(),
                " — pair the others to this device first",
            ),
        )
    } else {
        Ok(())
    }
}

/// What a device's answer to its introductions comes to, as a line to show;
/// `None` where it answered something else.
pub fn provision_line(name: &str, introduced: usize, response: &Response) -> (out: Option<String>)
    ensures
        match *response {
            Response::Provisioned { added, already_known } => out matches Some(line) && line@
                == name@ + ": "@ + decimal(added as nat) + " of "@ + decimal(introduced as nat)
                + " introductions new, "@ + decimal(already_known as nat) + " already known"@,
            Response::Refused(why) => out matches Some(line) && line@ == name@ + ": refused — "@
                + why@,
            _ => out is None,
        },
{
    match response {
        Response::Provisioned { added, already_known } => {
            let mut line = join3(name, ": ", number_text(*added as u128).as_str());
            line.append(" of ");
            line.append(number_text(introduced as u128).as_str());
            line.append(" introductions new, ");
            line.append(number_text(*already_known as u128).as_str());
            line.append(" already known");
            Some(line)
        },
        Response::Refused(why) => Some(join3(name, ": refused — ", why.as_str())),
        _ => None,
    }
}

/// What forgetting a device comes to.
pub fn unpair_outcome(device: DeviceId, removed: bool) -> (out: Result<String, String>)
    ensures
        match out {
            Ok(said) => removed && said@ == "forgot "@ + device.shown(),
            Err(said) => !removed && said@ == device.shown() + " was not paired"@,
        },
{
    if removed {
        Ok(join2("forgot ", device.text().as_str()))
    } else {
        Err(join2(device.text().as_str(), " was not paired"))
    }
}

/// Whether a result is what an event tells of the device that is looked up, and the
/// lookup what it is after it.
pub open spec fn looked_up(
    before: Lookup,
    event: PeerEvent,
    after: Lookup,
    out: Option<Vec<SocketAddr>>,
) -> bool {
    &&& after.wanted == before.wanted
    &&& match shown_addrs(event, before.wanted) {
        Some(addrs) => if addrs.len() > 0 {
            &&& out matches Some(o)
            &&& o@ == addrs
            &&& after.seen_but_unreachable == before.seen_but_unreachable
        } else {
            &&& out is None
            &&& after.seen_but_unreachable
        },
        None => {
            &&& out is None
            &&& after.seen_but_unreachable == before.seen_but_unreachable
        },
    }
}

/// Whether what was found is what was found before after an event.
pub open spec fn located_after(before: Locating, event: PeerEvent, after: Locating) -> bool {
    &&& after.wanted == before.wanted
    &&& match event {
        PeerEvent::Found(peer) => if before.wanted@.contains(peer.device_id) && dialable(
            peer.addrs@,
        ).len() > 0 {
            &&& after.found.value(peer.device_id) matches Some(addrs)
            &&& addrs@ == dialable(peer.addrs@)
            &&& forall|id: DeviceId|
                id != peer.device_id ==> #[trigger] after.found.value(id) == before.found.value(id)
        } else {
            after.found == before.found
        },
        PeerEvent::Lost(_) => after.found == before.found,
    }
}

/// A device is found exactly where it is seen with an IPv4 address, and at those; seen
/// without one, that is remembered; and no other device's sighting counts.
pub proof fn law_a_device_is_found_by_its_own_sighting(
    before: Lookup,
    event: PeerEvent,
    after: Lookup,
    out: Option<Vec<SocketAddr>>,
)
    requires
        looked_up(before, event, after, out),
    ensures
        ({
            let own = event matches PeerEvent::Found(peer) && peer.device_id == before.wanted;
            let reachable = event matches PeerEvent::Found(peer) && exists|i: int|
                0 <= i < peer.addrs@.len() && (#[trigger] peer.addrs@[i]).ip is V4;
            &&& out is Some <==> own && reachable
            &&& out matches Some(addrs) ==> addrs@ == dialable(event->Found_0.addrs@)
            &&& after.seen_but_unreachable <==> before.seen_but_unreachable || (own && !reachable)
        }),
{
    if let PeerEvent::Found(peer) = event {
        lemma_dialable_some(peer.addrs@);
    }
}

proof fn lemma_dialable_some(addrs: Seq<SocketAddr>)
    ensures
        dialable(addrs).len() > 0 <==> exists|i: int|
            0 <= i < addrs.len() && (#[trigger] addrs[i]).ip is V4,
{
    if dialable(addrs).len() > 0 {
        let addr = dialable(addrs)[0];
        law_exactly_ipv4_is_dialled(addrs, addr);
        assert(dialable(addrs).contains(addr));
        let i = addrs.index_of(addr);
        assert(addrs[i].ip is V4);
    }
    if exists|i: int| 0 <= i < addrs.len() && (#[trigger] addrs[i]).ip is V4 {
        let i = choose|i: int| 0 <= i < addrs.len() && (#[trigger] addrs[i]).ip is V4;
        law_exactly_ipv4_is_dialled(addrs, addrs[i]);
        assert(addrs.contains(addrs[i]));
    }
}

/// Of several devices exactly those looked for are found, each at the IPv4 addresses of
/// the sighting; nobody else's whereabouts change.
pub proof fn law_only_devices_looked_for_are_located(
    before: Locating,
    event: PeerEvent,
    after: Locating,
    id: DeviceId,
)
    requires
        located_after(before, event, after),
    ensures
        ({
            let shown = event matches PeerEvent::Found(peer) && peer.device_id == id
                && before.wanted@.contains(id) && exists|i: int|
                0 <= i < peer.addrs@.len() && (#[trigger] peer.addrs@[i]).ip is V4;
            &&& shown ==> after.found.value(id) is Some && after.found.value(id).unwrap()@
                == dialable(event->Found_0.addrs@)
            &&& !shown ==> after.found.value(id) == before.found.value(id)
            &&& after.wanted == before.wanted
        }),
{
    if let PeerEvent::Found(peer) = event {
        lemma_dialable_some(peer.addrs@);
    }
}

}
