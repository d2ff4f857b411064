//! One connection per peer, reused.
//!
//! A planner makes devices adjacent in ways that change between plans, so
//! connections are established on demand and kept warm rather than torn down.
//! Any device may both dial and be dialled.

use vstd::prelude::*;
use vstd::string::StringExecFns;

use crate::net::error::Error;
use crate::net::identity::DeviceId;
use crate::net::roster::Roster;
use crate::net::transport::Role;
use crate::text::{join2, join3};

verus! {

/// Sent when closing the loser of a simultaneous open.
pub const SUPERSEDED: u32 = 1;

/// A connection, by the number its owner knows it by.
#[derive(Clone, Copy, Debug, PartialEq, Eq, Structural)]
pub struct Link {
    pub handle: u64,
    pub role: Role,
}

/// Which device opened a connection. Both ends agree on the answer.
pub open spec fn dialer_of(local: DeviceId, peer: DeviceId, role: Role) -> DeviceId {
    match role {
        Role::Dialer => local,
        Role::Listener => peer,
    }
}

/// What became of a connection that was to be registered.
#[derive(Clone, Copy, Debug, PartialEq, Eq, Structural)]
pub enum Adoption {
    /// It is the peer's connection now. The one before it, where it was still
    /// live, is to be closed.
    Adopted { close: Option<u64> },
    /// The peer's connection is still the one before it, and this one is to be
    /// closed.
    Superseded { by: u64 },
}

/// The connection of each peer.
pub struct Mesh {
    pub local: DeviceId,
    pub peers: Roster<Link>,
}

impl Mesh {
    /// The registry is in order.
    pub open spec fn wf(self) -> bool {
        self.peers.wf()
    }

    /// No connections yet.
    pub fn new(local: DeviceId) -> (out: Self)
        ensures
            out.wf(),
            out.local == local,
            forall|id: DeviceId| #[trigger] out.peers.value(id) is None,
    {
        Mesh { local, peers: Roster::new() }
    }

    /// Whether this device should be the one to dial `peer`. Both devices
    /// evaluate this the same way, so in the common case only one dials and no
    /// resolution is needed.
    pub fn should_dial(&self, peer: DeviceId) -> (out: bool)
        ensures
            out == dials(self.local, peer),
    {
        self.local.number < peer.number
    }

    /// The connection registered for a peer, live or not.
    pub fn get(&self, peer: DeviceId) -> (out: Option<Link>)
        requires
            self.wf(),
        ensures
            out == self.peers.value(peer),
    {
        match self.peers.get(peer) {
            Some(link) => Some(*link),
            None => None,
        }
    }

    /// The peers whose connection is among the live ones, in the order of their
    /// ids.
    pub fn connected(&self, live: &Vec<u64>) -> (out: Vec<DeviceId>)
        ensures
            out@ == live_peers(self.peers.entries@, live@),
    {
        let mut out: Vec<DeviceId> = Vec::new();
        let ghost entries = self.peers.entries@;
        for i in 0..self.peers.entries.len()
            invariant
                entries == self.peers.entries@,
                out@ == live_peers(entries.take(i as int), live@),
        {
            let (id, link) = (self.peers.entries[i].0, self.peers.entries[i].1);
            assert(entries.take(i as int + 1).drop_last() =~= entries.take(i as int));
            if contains(live, link.handle) {
                out.push(id);
            }
        }
        assert(entries.take(entries.len() as int) =~= entries);
        out
    }

    /// Registers a connection, resolving a simultaneous open.
    ///
    /// Both devices can dial at once and end up with two connections. They
    /// settle it without talking: keep the one whose *dialer* has the lower
    /// device id. Each side computes that identically for a given connection,
    /// so both discard the same one. `existing_live` says whether the connection
    /// registered before, if any, is still open.
    pub fn adopt(&mut self, peer: DeviceId, link: Link, existing_live: bool) -> (out: Adoption)
        requires
            old(self).wf(),
        ensures
            final(self).wf(),
            adopts(*old(self), peer, link, existing_live, *final(self), out),
    {
        let existing = self.get(peer);
        let mut close: Option<u64> = None;
        if let Some(existing) = existing {
            if existing_live {
                if self.dialer(peer, existing.role).number <= self.dialer(peer, link.role).number {
                    return Adoption::Superseded { by: existing.handle };
                }
                close = Some(existing.handle);
            }
        }
        self.peers.insert(peer, link);
        Adoption::Adopted { close }
    }

    /// Forgets a peer; its connection, where it had one, is to be closed.
    pub fn forget(&mut self, peer: DeviceId) -> (out: Option<Link>)
        requires
            old(self).wf(),
        ensures
            final(self).wf(),
            final(self).local == old(self).local,
            out == old(self).peers.value(peer),
            final(self).peers.value(peer) is None,
            forall|id: DeviceId|
                id != peer ==> #[trigger] final(self).peers.value(id) == old(self).peers.value(id),
    {
        self.peers.remove(peer)
    }

    fn dialer(&self, peer: DeviceId, role: Role) -> (out: DeviceId)
        ensures
            out == dialer_of(self.local, peer, role),
    {
        match role {
            Role::Dialer => self.local,
            Role::Listener => peer,
        }
    }
}

/// The peers whose connection is among the live ones.
pub open spec fn live_peers(entries: Seq<(DeviceId, Link)>, live: Seq<u64>) -> Seq<DeviceId>
    decreases entries.len(),
{
    if entries.len() == 0 {
        Seq::empty()
    } else {
        let rest = live_peers(entries.drop_last(), live);
        if live.contains(entries.last().1.handle) {
            rest.push(entries.last().0)
        } else {
            rest
        }
    }
}

fn contains(handles: &Vec<u64>, handle: u64) -> (out: bool)
    ensures
        out == handles@.contains(handle),
{
    for i in 0..handles.len()
        invariant
            forall|j: int| 0 <= j < i ==> handles@[j] != handle,
    {
        if handles[i] == handle {
            assert(handles@[i as int] == handle);
            return true;
        }
    }
    false
}

/// The role that the other end of a connection has.
pub open spec fn other_end(role: Role) -> Role {
    match role {
        Role::Dialer => Role::Listener,
        Role::Listener => Role::Dialer,
    }
}

/// Which of two live connections a device keeps: the first where its dialer's
/// id is no higher.
pub open spec fn kept(local: DeviceId, peer: DeviceId, first: Role, second: Role) -> Role {
    if dialer_of(local, peer, first).number <= dialer_of(local, peer, second).number {
        first
    } else {
        second
    }
}

/// Exactly one of two devices wants to dial the other.
pub proof fn law_exactly_one_side_dials(a: DeviceId, b: DeviceId)
    requires
        a != b,
    ensures
        (a.number < b.number) != (b.number < a.number),
{
}

/// A simultaneous open converges: where two devices hold one connection that
/// each of them dialled, then whichever each registered first, both keep the
/// same one, and it is the one that the device with the lower id dialled.
pub proof fn law_simultaneous_open_converges(
    a: DeviceId,
    b: DeviceId,
    first_at_a: Role,
    first_at_b: Role,
)
    requires
        a != b,
    ensures
        ({
            let at_a = kept(a, b, first_at_a, other_end(first_at_a));
            let at_b = kept(b, a, first_at_b, other_end(first_at_b));
            &&& at_b == other_end(at_a)
            &&& dialer_of(a, b, at_a) == dialer_of(b, a, at_b)
            &&& dialer_of(a, b, at_a) == (if a.number < b.number {
                a
            } else {
                b
            })
        }),
{
}

/// What dialling an address came to.
#[derive(Clone, Copy, Debug, PartialEq, Eq, Structural)]
pub enum DialOutcome {
    /// A device answered.
    Answered(DeviceId),
    /// No connection came about.
    Failed,
}

/// Why a peer could not be dialled.
#[derive(Debug, PartialEq, Eq)]
pub enum DialFailure {
    /// What the attempt at the address with this place in the list failed with.
    Attempt(usize),
    /// This device's own refusal.
    Refused(Error),
}

/// What is said of an address at which another device answered.
pub open spec fn impostor_shown(addr: Seq<char>, id: DeviceId, peer: DeviceId) -> Seq<char> {
    addr + " answered as "@ + id.shown() + ", expected "@ + peer.shown()
}

/// Whether a failure is the one that an outcome leaves behind.
pub open spec fn failure_of(
    failure: DialFailure,
    at: int,
    addr: Seq<char>,
    outcome: DialOutcome,
    peer: DeviceId,
) -> bool {
    match outcome {
        DialOutcome::Failed => failure == DialFailure::Attempt(at as usize),
        DialOutcome::Answered(id) => failure matches DialFailure::Refused(
            Error::Stream(said),
        ) && said@ == impostor_shown(addr, id, peer),
    }
}

/// Dialling a peer, one address after the other.
pub struct Dialing {
    pub peer: DeviceId,
    pub tried: usize,
    pub last: Option<DialFailure>,
}

impl Dialing {
    /// Nothing tried yet.
    pub fn new(peer: DeviceId) -> (out: Self)
        ensures
            out.peer == peer,
            out.tried == 0,
            out.last is None,
    {
        Dialing { peer, tried: 0, last: None }
    }

    /// Judges what an address came to: whether to keep the connection. An
    /// address can be stale or reassigned, so who answered matters as much as
    /// whether anyone did.
    pub fn judge(&mut self, addr: &str, outcome: DialOutcome) -> (keep: bool)
        requires
            old(self).tried < usize::MAX,
        ensures
            keep == (outcome == DialOutcome::Answered(old(self).peer)),
            final(self).peer == old(self).peer,
            final(self).tried == old(self).tried + 1,
            keep ==> final(self).last == old(self).last,
            !keep ==> (final(self).last matches Some(failure) && failure_of(
                failure,
                old(self).tried as int,
                addr@,
                outcome,
                old(self).peer,
            )),
    {
        let at: usize = self.tried;
        self.tried = at + 1;
        match outcome {
            DialOutcome::Answered(id) => {
                if id == self.peer {
                    return true;
                }
                let mut said = join3(addr, " answered as ", id.text().as_str());
                said.append(", expected ");
                said.append(self.peer.text().as_str());
                self.last = Some(DialFailure::Refused(Error::Stream(said)));
                false
            },
            DialOutcome::Failed => {
                self.last = Some(DialFailure::Attempt(at));
                false
            },
        }
    }

    /// Why the peer could not be dialled: the last failure, or that no address
    /// was known.
    pub fn give_up(self) -> (out: DialFailure)
        ensures
            match self.last {
                Some(failure) => out == failure,
                None => out matches DialFailure::Refused(Error::Stream(said)) && said@
                    == "no address known for "@ + self.peer.shown(),
            },
    {
        match self.last {
            Some(failure) => failure,
            None => DialFailure::Refused(
                Error::Stream(join2("no address known for ", self.peer.text().as_str())),
            ),
        }
    }
}

/// Whether a device dials another, rather than waiting to be dialled.
pub open spec fn dials(local: DeviceId, peer: DeviceId) -> bool {
    local.number < peer.number
}

/// Whether a mesh is another one after a connection to a peer came about: the one
/// before stays where it is live and was dialled by the lower id.
pub open spec fn adopts(
    before: Mesh,
    peer: DeviceId,
    link: Link,
    existing_live: bool,
    after: Mesh,
    out: Adoption,
) -> bool {
    &&& after.local == before.local
    &&& forall|id: DeviceId|
        id != peer ==> #[trigger] after.peers.value(id) == before.peers.value(id)
    &&& match before.peers.value(peer) {
        Some(existing) if existing_live => if dialer_of(
            before.local,
            peer,
            existing.role,
        ).number <= dialer_of(before.local, peer, link.role).number {
            &&& out == (Adoption::Superseded { by: existing.handle })
            &&& after.peers.value(peer) == Some(existing)
        } else {
            &&& out == (Adoption::Adopted { close: Some(existing.handle) })
            &&& after.peers.value(peer) == Some(link)
        },
        _ => {
            &&& out == (Adoption::Adopted { close: None })
            &&& after.peers.value(peer) == Some(link)
        },
    }
}

/// Of two different devices exactly one dials the other, the one with the lower id.
pub proof fn law_the_lower_id_dials(a: DeviceId, b: DeviceId)
    requires
        a != b,
    ensures
        dials(a, b) != dials(b, a),
        dials(a, b) <==> a.number < b.number,
{
}

/// Where both devices dialled at once, each side is left with the connection that the
/// lower id dialled, whichever came first and whatever the connections' numbers, and
/// closes the other; a connection that is not live gives way to any.
pub proof fn law_both_sides_keep_the_lower_ids_connection(
    empty: Mesh,
    peer: DeviceId,
    first: Link,
    one: Mesh,
    second: Link,
    both: Mesh,
    first_out: Adoption,
    second_out: Adoption,
    stale: Mesh,
    stale_out: Adoption,
)
    requires
        empty.local != peer,
        empty.peers.value(peer) is None,
        first.role != second.role,
        adopts(empty, peer, first, false, one, first_out),
        adopts(one, peer, second, true, both, second_out),
        adopts(one, peer, second, false, stale, stale_out),
    ensures
        first_out == (Adoption::Adopted { close: None }),
        one.peers.value(peer) == Some(first),
        ({
            // This side dials where its id is the lower one.
            let wanted = if empty.local.number < peer.number {
                Role::Dialer
            } else {
                Role::Listener
            };
            if first.role == wanted {
                &&& both.peers.value(peer) == Some(first)
                &&& second_out == (Adoption::Superseded { by: first.handle })
            } else {
                &&& both.peers.value(peer) == Some(second)
                &&& second_out == (Adoption::Adopted { close: Some(first.handle) })
            }
        }),
        stale.peers.value(peer) == Some(second),
        stale_out == (Adoption::Adopted { close: None }),
        forall|id: DeviceId|
            id != peer ==> #[trigger] both.peers.value(id) == empty.peers.value(id),
{
    assert forall|id: DeviceId| id != peer implies #[trigger] both.peers.value(id)
        == empty.peers.value(id) by {
        assert(one.peers.value(id) == empty.peers.value(id));
    }
}

/// The devices that are connected are those whose connection is live, in the order of
/// their ids.
pub proof fn law_connected_are_the_live(entries: Seq<(DeviceId, Link)>, live: Seq<u64>)
    ensures
        live_peers(entries, live) == entries.filter(
            |e: (DeviceId, Link)| live.contains(e.1.handle),
        ).map_values(|e: (DeviceId, Link)| e.0),
    decreases entries.len(),
{
    reveal(Seq::filter);
    let kept = entries.filter(|e: (DeviceId, Link)| live.contains(e.1.handle));
    if entries.len() > 0 {
        law_connected_are_the_live(entries.drop_last(), live);
        let fewer = entries.drop_last().filter(
            |e: (DeviceId, Link)| live.contains(e.1.handle),
        );
        if live.contains(entries.last().1.handle) {
            assert(kept =~= fewer.push(entries.last()));
            assert(kept.map_values(|e: (DeviceId, Link)| e.0) =~= fewer.map_values(
                |e: (DeviceId, Link)| e.0,
            ).push(entries.last().0));
        } else {
            assert(kept =~= fewer);
        }
    } else {
        assert(kept.map_values(|e: (DeviceId, Link)| e.0) =~= Seq::<DeviceId>::empty());
    }
}

}
