//! The worker: which master it serves, and how it keeps finding it again.

use vstd::prelude::*;
use vstd::string::StringExecFns;

use crate::daemon::startup::{MASTER_BUSY, SERVING_PORT};
use crate::net::addr::{copy_addrs, dialable, dotted, law_exactly_ipv4_is_dialled, law_ipv4_is_four_decimal_bytes, law_written_address_is_read, lemma_dotted_alone, lemma_hex_is_no_address, parse_ipv4, parse_socket, socket_of, usable, v4_of, Address, IpAddr, SocketAddr, Written};
use crate::net::control::Response;
use crate::net::digest::{hex_bytes, is_hex, law_hex_reads_back};
use crate::net::discovery::{DiscoveredPeer, PROTOCOL_VERSION};
use crate::net::identity::{law_an_id_is_its_bytes, lemma_id_by_bytes, DeviceId};
use crate::net::pairing::PairingCode;
use crate::text::{decimal, join2, join3, same};

verus! {

/// Seconds between attempts.
pub const RETRY_DELAY: u64 = 3;

/// Seconds to look for a master.
pub const BROWSE_TIME: u64 = 3;

/// A master: who it is, where known, and where it can be reached.
#[derive(Clone, Debug, PartialEq, Eq)]
pub struct Target {
    pub id: Option<DeviceId>,
    pub addrs: Vec<SocketAddr>,
    pub pairing_port: u16,
}

/// A master as contracts speak of it.
pub struct Master {
    pub id: Option<DeviceId>,
    pub addrs: Seq<SocketAddr>,
    pub pairing_port: u16,
}

impl Target {
    /// The master, as contracts speak of it.
    pub open spec fn view(self) -> Master {
        Master { id: self.id, addrs: self.addrs@, pairing_port: self.pairing_port }
    }

    /// A copy.
    pub fn copy(&self) -> (out: Self)
        ensures
            out@ == self@,
    {
        Target {
            id: self.id,
            addrs: copy_addrs(&self.addrs),
            pairing_port: self.pairing_port,
        }
    }

    /// Where the master can be paired with: its addresses, at its pairing port.
    pub fn pairing_addrs(&self) -> (out: Vec<SocketAddr>)
        ensures
            out@ == paired_at(self@),
    {
        let mut out: Vec<SocketAddr> = Vec::new();
        for i in 0..self.addrs.len()
            invariant
                out@.len() == i,
                forall|j: int|
                    0 <= j < i ==> #[trigger] out@[j] == (SocketAddr {
                        ip: self.addrs@[j].ip,
                        port: self.pairing_port,
                    }),
        {
            out.push(SocketAddr { ip: self.addrs[i].ip, port: self.pairing_port });
        }
        out
    }
}

/// The optional master, as contracts speak of it.
pub open spec fn master_view(target: Option<Target>) -> Option<Master> {
    match target {
        Some(target) => Some(target@),
        None => None,
    }
}

/// What a text says of a master's address.
pub enum Explicit {
    /// It is no address.
    NotOne,
    /// It is one that no master can have.
    Unusable,
    /// It is this one.
    Usable(SocketAddr),
}

/// What a text says of a master's address: an IPv4 address, with a port or at
/// the fixed one.
pub open spec fn explicit_of(text: Seq<char>) -> Explicit {
    let written = match socket_of(text) {
        Some(written) => Some(written),
        None => match v4_of(text) {
            Some(bits) => Some(Written::V4 { bits, port: SERVING_PORT as nat }),
            None => None,
        },
    };
    match written {
        None => Explicit::NotOne,
        Some(Written::V6) => Explicit::Unusable,
        Some(Written::V4 { bits, port }) => if port == 0 || bits == 0 {
            Explicit::Unusable
        } else {
            Explicit::Usable(SocketAddr { ip: IpAddr::V4(bits as u32), port: port as u16 })
        },
    }
}

/// Reads a master's address.
pub fn explicit_address(text: &str) -> (out: Result<Option<SocketAddr>, String>)
    ensures
        match explicit_of(text@) {
            Explicit::NotOne => out == Ok::<Option<SocketAddr>, String>(None),
            Explicit::Unusable => out matches Err(said) && said@
                == "--master requires a usable IPv4 address and nonzero port"@,
            Explicit::Usable(addr) => out == Ok::<Option<SocketAddr>, String>(Some(addr)),
        },
{
    let written: Option<Address> = match parse_socket(text) {
        Some(address) => Some(address),
        None => match parse_ipv4(text) {
            Some(bits) => Some(
                Address::V4(SocketAddr { ip: IpAddr::V4(bits), port: SERVING_PORT }),
            ),
            None => None,
        },
    };
    match written {
        None => Ok(None),
        Some(Address::V6) => Err(
            "--master requires a usable IPv4 address and nonzero port".to_owned(),
        ),
        Some(Address::V4(addr)) => if addr.port == 0 || addr.is_unspecified() {
            Err("--master requires a usable IPv4 address and nonzero port".to_owned())
        } else {
            Ok(Some(addr))
        },
    }
}

/// Where to begin to look for a master.
pub enum Seek {
    /// It is this one.
    Found(Target),
    /// Look around, for this device where one is named.
    Browse(Option<DeviceId>),
}

/// The id of a remembered master, where it was at an address.
pub open spec fn remembered_at(saved: Option<Target>, addr: SocketAddr) -> Option<DeviceId> {
    match saved {
        Some(target) => if target.addrs@.contains(addr) {
            target.id
        } else {
            None
        },
        None => None,
    }
}

fn holds_addr(addrs: &Vec<SocketAddr>, addr: SocketAddr) -> (out: bool)
    ensures
        out == addrs@.contains(addr),
{
    for i in 0..addrs.len()
        invariant
            forall|j: int| 0 <= j < i ==> addrs@[j] != addr,
    {
        if addrs[i] == addr {
            assert(addrs@[i as int] == addr);
            return true;
        }
    }
    false
}

/// The device that is looked for, by its id.
pub open spec fn named_device(
    master: Option<Seq<char>>,
    saved: Option<Target>,
    requested: Option<DeviceId>,
) -> bool {
    match master {
        Some(text) => requested matches Some(id) && is_hex(text, 8) && id.bytes() == hex_bytes(
            text,
            8,
        ),
        None => requested == match saved {
            Some(target) => target.id,
            None => None,
        },
    }
}

/// Decides where to begin to look: at the address that the user gave, for the
/// device that the user named, for the one remembered, or for any.
pub fn seek(
    master: Option<&str>,
    saved: Option<&Target>,
    pairing_port: u16,
    own: DeviceId,
) -> (out: Result<Seek, String>)
    ensures
        sought(
            (match master {
                Some(m) => Some(m@),
                None => None,
            }),
            (match saved {
                Some(s) => Some(*s),
                None => None,
            }),
            pairing_port,
            own,
            out,
        ),
{
    let requested: Option<DeviceId> = match master {
        Some(text) => match explicit_address(text) {
            Err(said) => return Err(said),
            Ok(Some(addr)) => {
                let id = match saved {
                    Some(target) => if holds_addr(&target.addrs, addr) {
                        target.id
                    } else {
                        None
                    },
                    None => None,
                };
                let mut addrs: Vec<SocketAddr> = Vec::new();
                addrs.push(addr);
                assert(addrs@ =~= seq![addr]);
                return Ok(Seek::Found(Target { id, addrs, pairing_port }));
            },
            Ok(None) => match DeviceId::parse(text) {
                Ok(id) => Some(id),
                Err(_) => {
                    return Err("--master must be a device ID or IPv4[:port]".to_owned());
                },
            },
        },
        None => match saved {
            Some(target) => target.id,
            None => None,
        },
    };
    if let Some(id) = requested {
        if id == own {
            return Err("the selected master is this device".to_owned());
        }
    }
    Ok(Seek::Browse(requested))
}

/// Whether any of some addresses is an IPv4 one.
pub open spec fn any_v4(addrs: Seq<SocketAddr>) -> bool {
    exists|i: int| 0 <= i < addrs.len() && (#[trigger] addrs[i]).is_v4()
}

/// Whether a device in sight is a master that can be served: the one wanted
/// where one is, of this protocol, with an address that can be dialled.
pub open spec fn is_candidate(peer: DiscoveredPeer, wanted: Option<DeviceId>) -> bool {
    &&& peer.role matches Some(role) && role@ == "master"@
    &&& peer.protocol == PROTOCOL_VERSION
    &&& wanted matches Some(id) ==> peer.device_id == id
    &&& any_v4(peer.addrs@)
}

fn candidate(peer: &DiscoveredPeer, wanted: Option<DeviceId>) -> (out: bool)
    ensures
        out == is_candidate(*peer, wanted),
{
    let master = match &peer.role {
        Some(role) => same(role.as_str(), "master"),
        None => false,
    };
    if !master || peer.protocol != PROTOCOL_VERSION {
        return false;
    }
    if let Some(id) = wanted {
        if peer.device_id != id {
            return false;
        }
    }
    for i in 0..peer.addrs.len()
        invariant
            forall|j: int| 0 <= j < i ==> !(#[trigger] peer.addrs@[j]).is_v4(),
            is_candidate(*peer, wanted) == any_v4(peer.addrs@),
    {
        if peer.addrs[i].is_ipv4() {
            return true;
        }
    }
    false
}

/// Whether the candidate at `at` is the only one.
pub open spec fn only_candidate(
    peers: Seq<DiscoveredPeer>,
    wanted: Option<DeviceId>,
    at: int,
) -> bool {
    &&& 0 <= at < peers.len()
    &&& is_candidate(peers[at], wanted)
    &&& forall|i: int|
        0 <= i < peers.len() && i != at ==> !is_candidate(#[trigger] peers[i], wanted)
}

/// Whether two candidates are the first two.
pub open spec fn first_two(
    peers: Seq<DiscoveredPeer>,
    wanted: Option<DeviceId>,
    a: int,
    b: int,
) -> bool {
    &&& 0 <= a < b < peers.len()
    &&& is_candidate(peers[a], wanted)
    &&& is_candidate(peers[b], wanted)
    &&& forall|i: int| 0 <= i < b && i != a ==> !is_candidate(#[trigger] peers[i], wanted)
}

/// What is said where two masters are in sight.
pub open spec fn ambiguous_shown(a: DeviceId, b: DeviceId) -> Seq<char> {
    "multiple masters found ("@ + a.shown() + " and "@ + b.shown()
        + "); choose one with --master <device-id>"@
}

/// Picks the master in sight. Where several are, none is picked silently.
pub fn select_master(peers: Vec<DiscoveredPeer>, wanted: Option<DeviceId>) -> (out: Result<
    Option<DiscoveredPeer>,
    String,
>)
    ensures
        selects(peers@, wanted, out),
{
    let ghost all = peers@;
    let mut first: Option<usize> = None;
    for i in 0..peers.len()
        invariant
            all == peers@,
            match first {
                Some(at) => {
                    &&& at < i
                    &&& is_candidate(all[at as int], wanted)
                    &&& forall|j: int|
                        0 <= j < i && j != at ==> !is_candidate(#[trigger] all[j], wanted)
                },
                None => forall|j: int| 0 <= j < i ==> !is_candidate(#[trigger] all[j], wanted),
            },
    {
        if candidate(&peers[i], wanted) {
            if let Some(at) = first {
                let mut said = join3(
                    "multiple masters found (",
                    peers[at].device_id.text().as_str(),
                    " and ",
                );
                said.append(peers[i].device_id.text().as_str());
                said.append("); choose one with --master <device-id>");
                assert(first_two(all, wanted, at as int, i as int));
                return Err(said);
            }
            first = Some(i);
        }
    }
    match first {
        None => Ok(None),
        Some(at) => {
            let mut peers = peers;
            assert(only_candidate(all, wanted, at as int));
            Ok(Some(peers.remove(at)))
        },
    }
}

/// The master that a device in sight is.
pub open spec fn sighted(peer: DiscoveredPeer, pairing_port: u16) -> Master {
    Master {
        id: Some(peer.device_id),
        addrs: dialable(peer.addrs@),
        pairing_port: match peer.pairing_port {
            Some(port) => port,
            None => pairing_port,
        },
    }
}

/// Decides on a master once the looking is over: the one in sight, or else the
/// one remembered, where it is the one looked for.
pub fn settle(
    peers: Vec<DiscoveredPeer>,
    requested: Option<DeviceId>,
    saved: Option<&Target>,
    pairing_port: u16,
) -> (out: Result<Option<Target>, String>)
    ensures
        settles(
            peers@,
            requested,
            (match saved {
                Some(kept) => Some(kept@),
                None => None,
            }),
            pairing_port,
            out,
        ),
{
    match select_master(peers, requested) {
        Err(said) => Err(said),
        Ok(Some(peer)) => {
            let port = match peer.pairing_port {
                Some(port) => port,
                None => pairing_port,
            };
            Ok(
                Some(
                    Target {
                        id: Some(peer.device_id),
                        addrs: usable(&peer.addrs),
                        pairing_port: port,
                    },
                ),
            )
        },
        Ok(None) => match saved {
            Some(kept) => {
                let wanted = match (kept.id, requested) {
                    (Some(a), Some(b)) => a == b,
                    (None, None) => true,
                    _ => false,
                };
                if wanted {
                    Ok(Some(kept.copy()))
                } else {
                    Ok(None)
                }
            },
            None => Ok(None),
        },
    }
}

/// Whether a master can be remembered: known, with addresses that can be
/// dialled and a port to pair on.
pub open spec fn rememberable(target: Master) -> bool {
    &&& target.id is Some
    &&& target.addrs.len() > 0
    &&& target.pairing_port != 0
    &&& forall|i: int|
        0 <= i < target.addrs.len() ==> (#[trigger] target.addrs[i]).is_v4()
            && target.addrs[i].port != 0
}

/// Refuses a remembered master that cannot be one. `path` is where it was
/// remembered.
pub fn check_saved(target: &Target, path: &str) -> (out: Result<(), String>)
    ensures
        out is Ok <==> rememberable(target@),
        out matches Err(said) ==> said@ == "saved master is invalid; remove "@ + path@
            + " and reconnect"@,
{
    let mut sound = target.id.is_some() && target.addrs.len() > 0 && target.pairing_port != 0;
    let ghost begun = sound;
    for i in 0..target.addrs.len()
        invariant
            begun == (target.id is Some && target.addrs@.len() > 0 && target.pairing_port != 0),
            sound == (begun && forall|j: int|
                0 <= j < i ==> (#[trigger] target.addrs@[j]).is_v4() && target.addrs@[j].port
                    != 0),
    {
        if !target.addrs[i].is_ipv4() || target.addrs[i].port == 0 {
            sound = false;
        }
    }
    if sound {
        Ok(())
    } else {
        Err(join3("saved master is invalid; remove ", path, " and reconnect"))
    }
}

/// What a worker remembers between attempts.
pub struct Worker {
    pub saved: Option<Target>,
    pub code: Option<PairingCode>,
    /// What was said last, so that it is not said over and over.
    pub last_error: String,
    /// The master that may use the GPU now.
    pub authorized: Option<DeviceId>,
}

/// What to say, given what was said last.
pub open spec fn worth_saying(previous: Seq<char>, message: Seq<char>) -> Option<Seq<char>> {
    if previous == message {
        None
    } else {
        Some(message)
    }
}

/// A text that may be missing.
pub open spec fn text_view(text: Option<String>) -> Option<Seq<char>> {
    match text {
        Some(text) => Some(text@),
        None => None,
    }
}

/// Says a message only where it was not said last.
pub fn report_once(previous: &mut String, message: String) -> (out: Option<String>)
    ensures
        final(previous)@ == message@,
        text_view(out) == worth_saying(old(previous)@, message@),
{
    if same(previous.as_str(), message.as_str()) {
        None
    } else {
        *previous = message.clone();
        Some(message)
    }
}

/// A connection to a master is being tried.
pub struct Connecting {
    pub target: Target,
    pub trusted: bool,
}

/// A pairing with a master is being tried.
pub struct PairingWith {
    pub target: Target,
}

/// A connection to a master is being tried after pairing with it.
pub struct Reconnecting {
    pub target: Target,
}

/// A registration with a connected master is being tried.
pub struct Registering {
    pub target: Target,
    pub peer: DeviceId,
}

/// What a worker does next.
pub enum Next {
    /// Say this, where anything is to be said, wait, and look for a master again.
    Retry(Option<String>),
    /// Connect to the target.
    Connect(Connecting),
    /// Pair with the target, with this code or the one that the user types.
    Pair(PairingWith, Option<PairingCode>),
    /// Connect to the target once more.
    Reconnect(Reconnecting),
    /// Register with the master.
    Register(Registering),
    /// Let this master use the GPU, remember it, and serve it until it goes.
    Serve { master: DeviceId, remember: Target },
    /// Let no master use the GPU any more, wait, and look for a master again.
    Release,
    /// Stop, with these words.
    Fail(String),
}

/// What happens to a worker, as far as the use of its GPU goes.
pub enum Event {
    /// A search, a connection or a pairing ended, well or not.
    Tried,
    /// A connected peer was asked for registration; `accepted` says whether it
    /// answered that the worker is registered.
    Asked { peer: DeviceId, accepted: bool },
    /// The connection to the master closed.
    Closed,
    /// The worker stops.
    Stopped,
}

/// The master that may use the GPU after an event.
pub open spec fn authorized_after(before: Option<DeviceId>, event: Event) -> Option<DeviceId> {
    match event {
        Event::Tried => before,
        Event::Asked { peer, accepted } => if accepted {
            Some(peer)
        } else {
            before
        },
        Event::Closed | Event::Stopped => None,
    }
}

/// Whether a master is served, and remembered, exactly where an event calls for
/// that: the peer that answered that the worker is registered.
pub open spec fn serves(event: Event, next: Next) -> bool {
    match event {
        Event::Asked { peer, accepted: true } => {
            &&& next matches Next::Serve { master, remember }
            &&& master == peer
            &&& remember.id == Some(peer)
        },
        _ => !(next is Serve),
    }
}

/// What is said where no master is found.
pub const NO_MASTER: &'static str = "No master found; retrying. Start latticed master, or use --master <IPv4> if multicast is blocked.";

impl Worker {
    /// Begins with what was remembered and the code that was given.
    pub fn new(saved: Option<Target>, code: Option<PairingCode>) -> (out: Self)
        ensures
            out.saved == saved,
            out.code == code,
            out.last_error@.len() == 0,
            out.authorized is None,
    {
        Worker { saved, code, last_error: String::new(), authorized: None }
    }

    /// Decides what to do with a master that was found, or with none. `trusted`
    /// says whether its record is in the trust store. A code that was given is
    /// used once, and means that the user wants to pair.
    pub fn found(&mut self, target: Option<Target>, trusted: bool) -> (out: Next)
        ensures
            after_search(*old(self), target, trusted, *final(self), out),
    {
        match target {
            None => Next::Retry(report_once(&mut self.last_error, NO_MASTER.to_owned())),
            Some(target) => match self.code.take() {
                None => Next::Connect(Connecting { target, trusted }),
                Some(code) => Next::Pair(PairingWith { target }, Some(code)),
            },
        }
    }

    /// Decides what to do after trying to connect. Where a trusted master does
    /// not answer, its pairing is kept and the attempt repeated; where one that
    /// is not trusted does not, pairing is tried.
    pub fn connected(
        &mut self,
        connecting: Connecting,
        result: Result<DeviceId, String>,
    ) -> (out: Next)
        ensures
            after_connecting(*old(self), connecting, result, *final(self), out),
    {
        match result {
            Ok(peer) => Next::Register(Registering { target: connecting.target, peer }),
            Err(error) => {
                if connecting.trusted {
                    let message = join3(
                        "Master unavailable: ",
                        error.as_str(),
                        ". Retrying; existing pairing is preserved.",
                    );
                    Next::Retry(report_once(&mut self.last_error, message))
                } else {
                    Next::Pair(PairingWith { target: connecting.target }, None)
                }
            },
        }
    }

    /// Decides what to do after trying to pair. A pairing that worked is
    /// remembered before anything else is tried.
    pub fn paired(&mut self, pairing: PairingWith, result: Result<DeviceId, String>) -> (out: Next)
        ensures
            after_pairing(*old(self), pairing, result, *final(self), out),
    {
        match result {
            Ok(id) => {
                let mut target = pairing.target;
                target.id = Some(id);
                self.saved = Some(target.copy());
                Next::Reconnect(Reconnecting { target })
            },
            Err(error) => Next::Fail(
                join3(
                    "could not pair with the master: ",
                    error.as_str(),
                    "; check its current code and rerun latticed worker",
                ),
            ),
        }
    }

    /// Decides what to do after trying to connect to a master just paired with.
    pub fn reconnected(
        &mut self,
        reconnecting: Reconnecting,
        result: Result<DeviceId, String>,
    ) -> (out: Next)
        ensures
            after_reconnecting(*old(self), reconnecting, result, *final(self), out),
    {
        match result {
            Ok(peer) => Next::Register(Registering { target: reconnecting.target, peer }),
            Err(error) => {
                let message = join2("Pairing saved; waiting for master: ", error.as_str());
                Next::Retry(report_once(&mut self.last_error, message))
            },
        }
    }

    /// Decides what to do after asking for registration, by what came back.
    pub fn registered(&mut self, registering: Registering, reply: RegistrationReply) -> (out: Next)
        ensures
            after_registering(*old(self), registering, reply, *final(self), out),
    {
        match judge_registration(reply) {
            Registration::Accepted => {
                let mut target = registering.target;
                target.id = Some(registering.peer);
                self.saved = Some(target.copy());
                self.last_error = String::new();
                self.authorized = Some(registering.peer);
                Next::Serve { master: registering.peer, remember: target }
            },
            Registration::Retry(reason) => {
                let mut target = registering.target;
                target.id = Some(registering.peer);
                self.saved = Some(target);
                let message = join2(reason.as_str(), "; retrying automatically");
                Next::Retry(report_once(&mut self.last_error, message))
            },
            Registration::Rejected(reply) => Next::Fail(
                join3(
                    "master did not accept worker registration: ",
                    reply.as_str(),
                    "; run the updated latticed master on that device",
                ),
            ),
        }
    }

    /// The connection to the master closed: it may not use the GPU any more.
    pub fn closed(&mut self) -> (out: Next)
        ensures
            after_closing(*old(self), *final(self), out),
    {
        self.authorized = None;
        Next::Release
    }

    /// The worker stops: no master may use the GPU any more.
    pub fn stopped(&mut self)
        ensures
            final(self).authorized == authorized_after(old(self).authorized, Event::Stopped),
            final(self).saved == old(self).saved,
            final(self).code == old(self).code,
            final(self).last_error == old(self).last_error,
    {
        self.authorized = None;
    }
}

/// What registering with a master came to.
pub enum Registration {
    Accepted,
    /// Not now, with the reason.
    Retry(String),
    /// Not at all, with what the master answered.
    Rejected(String),
}

/// What a registration's reply is.
pub enum RegistrationReply {
    /// The master answered; the text shows the answer.
    Answered(Response, String),
    /// The exchange failed, with what is said of it.
    Failed(String),
    TimedOut,
}

/// Whether a response is that the master is busy.
pub open spec fn is_busy(response: Response) -> bool {
    response matches Response::Refused(why) && why@ == MASTER_BUSY@
}

/// Whether the master answered that the worker is registered.
pub open spec fn is_registered(reply: RegistrationReply) -> bool {
    reply matches RegistrationReply::Answered(response, _) && response is WorkerRegistered
}

/// What a registration's reply is judged to be, as contracts speak of it.
pub enum Judged {
    Accepted,
    Retry(Seq<char>),
    Rejected(Seq<char>),
}

/// What a registration's reply is judged to be. A busy master and a broken
/// exchange are worth another attempt; any other answer is not.
pub open spec fn judged(reply: RegistrationReply) -> Judged {
    match reply {
        RegistrationReply::Answered(response, shown) => if response is WorkerRegistered {
            Judged::Accepted
        } else if is_busy(response) {
            Judged::Retry(MASTER_BUSY@)
        } else {
            Judged::Rejected(shown@)
        },
        RegistrationReply::Failed(error) => Judged::Retry(
            "Master disconnected during registration: "@ + error@,
        ),
        RegistrationReply::TimedOut => Judged::Retry("Master registration timed out"@),
    }
}

/// Judges a registration's reply.
pub fn judge_registration(reply: RegistrationReply) -> (out: Registration)
    ensures
        match judged(reply) {
            Judged::Accepted => out is Accepted,
            Judged::Retry(reason) => out matches Registration::Retry(r) && r@ == reason,
            Judged::Rejected(shown) => out matches Registration::Rejected(s) && s@ == shown,
        },
{
    match reply {
        RegistrationReply::Answered(response, shown) => match response {
            Response::WorkerRegistered => Registration::Accepted,
            Response::Refused(why) => if same(why.as_str(), MASTER_BUSY) {
                Registration::Retry(why)
            } else {
                Registration::Rejected(shown)
            },
            _ => Registration::Rejected(shown),
        },
        RegistrationReply::Failed(error) => Registration::Retry(
            join2("Master disconnected during registration: ", error.as_str()),
        ),
        RegistrationReply::TimedOut => Registration::Retry(
            "Master registration timed out".to_owned(),
        ),
    }
}

/// Refuses a pairing endpoint that is not the selected master's.
pub fn check_pairing_peer(expected: Option<DeviceId>, answered: DeviceId) -> (out: Result<
    (),
    String,
>)
    ensures
        out is Ok <==> (expected matches Some(id) ==> id == answered),
        out matches Err(said) ==> said@
            == "pairing endpoint identity differs from the selected master"@,
{
    match expected {
        Some(id) => if id == answered {
            Ok(())
        } else {
            Err("pairing endpoint identity differs from the selected master".to_owned())
        },
        None => Ok(()),
    }
}

/// Whether a worker without a working GPU has to stop, rather than go on
/// without one: where a GPU was asked for in any way.
pub fn gpu_is_required(require_gpu: bool, engine_dir: bool, device: bool) -> (out: bool)
    ensures
        out == (require_gpu || engine_dir || device),
{
    require_gpu || engine_dir || device
}

/// The master in sight is never another than the one looked for, and it can
/// always be dialled.
pub proof fn law_master_identity_never_switches(
    peers: Seq<DiscoveredPeer>,
    wanted: DeviceId,
    at: int,
    pairing_port: u16,
)
    requires
        only_candidate(peers, Some(wanted), at),
    ensures
        sighted(peers[at], pairing_port).id == Some(wanted),
        sighted(peers[at], pairing_port).addrs.len() > 0,
{
    let addrs = peers[at].addrs@;
    let i = choose|i: int| 0 <= i < addrs.len() && (#[trigger] addrs[i]).is_v4();
    assert(addrs.contains(addrs[i]));
    law_exactly_ipv4_is_dialled(addrs, addrs[i]);
    assert(dialable(addrs).contains(addrs[i]));
}

/// The master that may use the GPU after some events, from a start at which none
/// may.
pub open spec fn authorized_by(events: Seq<Event>) -> Option<DeviceId>
    decreases events.len(),
{
    if events.len() == 0 {
        None
    } else {
        authorized_after(authorized_by(events.drop_last()), events.last())
    }
}

/// Whether an event takes the GPU from whoever may use it, or gives it to someone.
pub open spec fn changes_hands(event: Event) -> bool {
    match event {
        Event::Tried => false,
        Event::Asked { peer: _, accepted } => accepted,
        Event::Closed | Event::Stopped => true,
    }
}

/// Whether the event at `at` gave a master the GPU, and nothing has taken it
/// since: the master answered that the worker is registered, and since then its
/// connection has not closed, the worker has not stopped, and no other master
/// has answered so.
pub open spec fn holds_since(events: Seq<Event>, master: DeviceId, at: int) -> bool {
    &&& 0 <= at < events.len()
    &&& events[at] == (Event::Asked { peer: master, accepted: true })
    &&& forall|i: int| at < i < events.len() ==> !changes_hands(#[trigger] events[i])
}

/// No master is authorized without a live registration: over any events, a
/// master may use the GPU exactly where it answered that the worker is
/// registered and nothing has taken the GPU from it since. And whatever the
/// worker decided at each event, it serves and remembers a master only where
/// that master answered so.
pub proof fn law_only_a_live_registration_is_authorized(events: Seq<Event>, decided: Seq<Next>)
    requires
        decided.len() == events.len(),
        forall|i: int| 0 <= i < events.len() ==> serves(events[i], #[trigger] decided[i]),
    ensures
        forall|master: DeviceId|
            authorized_by(events) == Some(master) <==> exists|at: int| #[trigger]
                holds_since(events, master, at),
        forall|i: int|
            0 <= i < events.len() ==> (#[trigger] decided[i] matches Next::Serve {
                master,
                remember,
            } ==> events[i] == (Event::Asked { peer: master, accepted: true }) && remember.id
                == Some(master)),
    decreases events.len(),
{
    if events.len() > 0 {
        let init = events.drop_last();
        assert forall|i: int| 0 <= i < init.len() implies serves(
            init[i],
            #[trigger] decided.drop_last()[i],
        ) by {
            assert(serves(events[i], decided[i]));
        }
        law_only_a_live_registration_is_authorized(init, decided.drop_last());
        let last = events.len() - 1;
        assert forall|master: DeviceId| authorized_by(events) == Some(master) implies exists|at: int|
            #[trigger] holds_since(events, master, at) by {
            if changes_hands(events[last]) {
                assert(holds_since(events, master, last));
            } else {
                let at = choose|at: int| holds_since(init, master, at);
                assert(holds_since(init, master, at));
                assert forall|i: int| at < i < events.len() implies !changes_hands(
                    #[trigger] events[i],
                ) by {
                    if i < last {
                        assert(init[i] == events[i]);
                    }
                }
                assert(holds_since(events, master, at));
            }
        }
        assert forall|master: DeviceId, at: int| #[trigger]
            holds_since(events, master, at) implies authorized_by(events) == Some(master) by {
            if at < last {
                assert forall|i: int| at < i < init.len() implies !changes_hands(
                    #[trigger] init[i],
                ) by {
                    assert(init[i] == events[i]);
                }
                assert(holds_since(init, master, at));
                assert(!changes_hands(events[last]));
            }
        }
    }
}

/// Whether a result is the master to connect to among the devices in sight: the only
/// candidate, none where there is none, and a refusal where there are several.
pub open spec fn selects(
    peers: Seq<DiscoveredPeer>,
    wanted: Option<DeviceId>,
    out: Result<Option<DiscoveredPeer>, String>,
) -> bool {
    match out {
        Ok(None) => forall|i: int|
            0 <= i < peers.len() ==> !is_candidate(#[trigger] peers[i], wanted),
        Ok(Some(peer)) => exists|at: int|
            #[trigger] only_candidate(peers, wanted, at) && peers[at] == peer,
        Err(said) => exists|a: int, b: int| #[trigger]
            first_two(peers, wanted, a, b) && said@ == ambiguous_shown(
                peers[a].device_id,
                peers[b].device_id,
            ),
    }
}

/// Whether a result is the target that looking around ends with: the master in sight,
/// or else the one remembered.
pub open spec fn settles(
    peers: Seq<DiscoveredPeer>,
    requested: Option<DeviceId>,
    saved: Option<Master>,
    pairing_port: u16,
    out: Result<Option<Target>, String>,
) -> bool {
    match out {
        Err(said) => exists|a: int, b: int| #[trigger]
            first_two(peers, requested, a, b) && said@ == ambiguous_shown(
                peers[a].device_id,
                peers[b].device_id,
            ),
        Ok(target) => {
            ||| exists|at: int| #[trigger]
                only_candidate(peers, requested, at) && (target matches Some(t) && t@ == sighted(
                    peers[at],
                    pairing_port,
                ))
            ||| {
                &&& forall|i: int|
                    0 <= i < peers.len() ==> !is_candidate(#[trigger] peers[i], requested)
                &&& master_view(target) == match saved {
                    Some(kept) => if kept.id == requested {
                        Some(kept)
                    } else {
                        None
                    },
                    None => None,
                }
            }
        },
    }
}

/// Whether a result says where to look for the master: at the address given, or around
/// for the device given or remembered.
pub open spec fn sought(
    text: Option<Seq<char>>,
    kept: Option<Target>,
    pairing_port: u16,
    own: DeviceId,
    out: Result<Seek, String>,
) -> bool {
    let explicit = match text {
        Some(t) => explicit_of(t),
        None => Explicit::NotOne,
    };
    match explicit {
        Explicit::Usable(addr) => out matches Ok(Seek::Found(target)) && target@ == (Master {
            id: remembered_at(kept, addr),
            addrs: seq![addr],
            pairing_port,
        }),
        Explicit::Unusable => out matches Err(said) && said@
            == "--master requires a usable IPv4 address and nonzero port"@,
        Explicit::NotOne => match out {
            Ok(Seek::Browse(requested)) => named_device(text, kept, requested) && requested
                != Some(own),
            Ok(Seek::Found(_)) => false,
            Err(said) => if text is Some && !is_hex(text.unwrap(), 8) {
                said@ == "--master must be a device ID or IPv4[:port]"@
            } else {
                &&& named_device(text, kept, Some(own))
                &&& said@ == "the selected master is this device"@
            },
        },
    }
}

/// Whether a device in sight says that it is a master, speaks this protocol, is the one
/// wanted where one is, and has an IPv4 address.
pub open spec fn may_be_master(peer: DiscoveredPeer, wanted: Option<DeviceId>) -> bool {
    &&& peer.role matches Some(role) && role@ == "master"@
    &&& peer.protocol == 1
    &&& wanted is None || wanted == Some(peer.device_id)
    &&& exists|i: int| 0 <= i < peer.addrs@.len() && (#[trigger] peer.addrs@[i]).ip is V4
}

/// A master is chosen only where it is the only one there: one that may be it, with no
/// other that may; none is chosen only where none may; and the choice is refused only
/// where two may.
pub proof fn law_only_master_in_sight_is_chosen(
    peers: Seq<DiscoveredPeer>,
    wanted: Option<DeviceId>,
    out: Result<Option<DiscoveredPeer>, String>,
)
    requires
        selects(peers, wanted, out),
    ensures
        match out {
            Ok(Some(peer)) => exists|at: int|
                0 <= at < peers.len() && #[trigger] peers[at] == peer && may_be_master(
                    peer,
                    wanted,
                ) && forall|i: int|
                    0 <= i < peers.len() && may_be_master(#[trigger] peers[i], wanted) ==> i == at,
            Ok(None) => forall|i: int|
                0 <= i < peers.len() ==> !may_be_master(#[trigger] peers[i], wanted),
            Err(_) => exists|a: int, b: int|
                0 <= a < b < peers.len() && may_be_master(#[trigger] peers[a], wanted)
                    && may_be_master(#[trigger] peers[b], wanted),
        },
{
    assert forall|i: int| 0 <= i < peers.len() implies may_be_master(#[trigger] peers[i], wanted)
        == is_candidate(peers[i], wanted) by {
        lemma_may_be_master(peers[i], wanted);
    }
    match out {
        Ok(Some(peer)) => {
            let at = choose|at: int|
                #[trigger] only_candidate(peers, wanted, at) && peers[at] == peer;
            assert(peers[at] == peer);
        },
        Ok(None) => {},
        Err(said) => {
            let (a, b) = choose|a: int, b: int| #[trigger]
                first_two(peers, wanted, a, b) && said@ == ambiguous_shown(
                    peers[a].device_id,
                    peers[b].device_id,
                );
            assert(may_be_master(peers[a], wanted) && may_be_master(peers[b], wanted));
        },
    }
}

proof fn lemma_may_be_master(peer: DiscoveredPeer, wanted: Option<DeviceId>)
    ensures
        may_be_master(peer, wanted) == is_candidate(peer, wanted),
{
    let addrs = peer.addrs@;
    if any_v4(addrs) {
        let i = choose|i: int| 0 <= i < addrs.len() && (#[trigger] addrs[i]).is_v4();
        assert(addrs[i].ip is V4);
    }
    if exists|i: int| 0 <= i < addrs.len() && (#[trigger] addrs[i]).ip is V4 {
        let i = choose|i: int| 0 <= i < addrs.len() && (#[trigger] addrs[i]).ip is V4;
        assert(addrs[i].is_v4());
    }
}

/// Looking around ends with the only master in sight, at those of its addresses that
/// can be dialled and its own pairing port where it says one; without one in sight,
/// with the one remembered, as it was, where that is the one asked for; and never with
/// another than asked for.
pub proof fn law_where_looking_around_ends(
    peers: Seq<DiscoveredPeer>,
    requested: Option<DeviceId>,
    saved: Option<Master>,
    pairing_port: u16,
    out: Result<Option<Target>, String>,
)
    requires
        settles(peers, requested, saved, pairing_port, out),
    ensures
        out matches Ok(Some(target)) ==> {
            ||| exists|at: int|
                0 <= at < peers.len() && may_be_master(#[trigger] peers[at], requested) && {
                    &&& target.id == Some(peers[at].device_id)
                    &&& target.addrs@ == dialable(peers[at].addrs@)
                    &&& target.addrs@.len() > 0
                    &&& peers[at].pairing_port matches Some(port) ==> target.pairing_port == port
                    &&& peers[at].pairing_port is None ==> target.pairing_port == pairing_port
                }
            ||| saved matches Some(kept) && kept.id == requested && target@ == kept
        },
        (out matches Ok(Some(target)) && requested is Some) ==> out->Ok_0.unwrap().id == requested,
        out matches Ok(None) ==> forall|i: int|
            0 <= i < peers.len() ==> !may_be_master(#[trigger] peers[i], requested),
        (forall|i: int| 0 <= i < peers.len() ==> !may_be_master(#[trigger] peers[i], requested)) && (
        saved matches Some(kept) && kept.id == requested) ==> out is Ok && master_view(out->Ok_0)
            == saved,
{
    assert forall|i: int| 0 <= i < peers.len() implies may_be_master(
        #[trigger] peers[i],
        requested,
    ) == is_candidate(peers[i], requested) by {
        lemma_may_be_master(peers[i], requested);
    }
    if let Ok(Some(target)) = out {
        if exists|at: int| #[trigger]
            only_candidate(peers, requested, at) && target@ == sighted(peers[at], pairing_port) {
            let at = choose|at: int| #[trigger]
                only_candidate(peers, requested, at) && target@ == sighted(
                    peers[at],
                    pairing_port,
                );
            let addrs = peers[at].addrs@;
            let i = choose|i: int| 0 <= i < addrs.len() && (#[trigger] addrs[i]).is_v4();
            law_exactly_ipv4_is_dialled(addrs, addrs[i]);
            assert(addrs.contains(addrs[i]));
            assert(dialable(addrs).contains(addrs[i]));
            assert(may_be_master(peers[at], requested));
        }
    }
    if let Err(said) = out {
        let (a, b) = choose|a: int, b: int| #[trigger]
            first_two(peers, requested, a, b) && said@ == ambiguous_shown(
                peers[a].device_id,
                peers[b].device_id,
            );
        assert(may_be_master(peers[a], requested));
    }
}

/// A master's address is taken as it is written, with the port after it or 47900
/// without; one without a machine or a port is refused.
pub proof fn law_written_master_address_is_taken(a: u8, b: u8, c: u8, d: u8, port: u16)
    ensures
        ({
            let bits = ((a as int * 256 + b as int) * 256 + c as int) * 256 + d as int;
            let alone = explicit_of(dotted(a, b, c, d));
            let with = explicit_of(dotted(a, b, c, d) + ":"@ + decimal(port as nat));
            &&& bits != 0 ==> alone == Explicit::Usable(
                SocketAddr { ip: IpAddr::V4(bits as u32), port: 47900 },
            )
            &&& bits == 0 ==> alone is Unusable
            &&& bits != 0 && port != 0 ==> with == Explicit::Usable(
                SocketAddr { ip: IpAddr::V4(bits as u32), port },
            )
            &&& bits == 0 || port == 0 ==> with is Unusable
        }),
{
    law_written_address_is_read(a, b, c, d, port);
    law_ipv4_is_four_decimal_bytes(dotted(a, b, c, d), a, b, c, d);
    lemma_dotted_alone(a, b, c, d);
}

/// A master that is remembered can be connected to again: it has an id, a pairing port,
/// and addresses, each an IPv4 one with a port.
pub proof fn law_what_can_be_remembered(target: Master)
    ensures
        rememberable(target) <==> {
            &&& target.id is Some
            &&& target.pairing_port > 0
            &&& target.addrs.len() > 0
            &&& forall|i: int|
                0 <= i < target.addrs.len() ==> (#[trigger] target.addrs[i]).ip is V4
                    && target.addrs[i].port > 0
        },
{
}

/// Where a master is given, it is looked for there and nowhere else: at its address, or
/// around for that device; without one, around for the device remembered, if any. This
/// device is never looked for.
pub proof fn law_the_master_given_is_looked_for(
    text: Option<Seq<char>>,
    kept: Option<Target>,
    pairing_port: u16,
    own: DeviceId,
    out: Result<Seek, String>,
    id: DeviceId,
)
    requires
        sought(text, kept, pairing_port, own, out),
    ensures
        out matches Ok(Seek::Found(target)) ==> {
            &&& text matches Some(t)
            &&& explicit_of(t) == Explicit::Usable(target.addrs@[0])
            &&& target.addrs@.len() == 1
            &&& target.pairing_port == pairing_port
            &&& target.id matches Some(id) ==> kept matches Some(k) && k.id == Some(id)
                && k.addrs@.contains(target.addrs@[0])
            &&& (kept matches Some(k) && k.addrs@.contains(target.addrs@[0])) ==> target.id
                == kept.unwrap().id
        },
        out matches Ok(Seek::Browse(requested)) ==> requested != Some(own),
        (out matches Ok(Seek::Browse(requested)) && text is None) ==> out->Ok_0->Browse_0
            == match kept {
            Some(k) => k.id,
            None => None,
        },
        text == Some(id.shown()) ==> if id == own {
            out is Err
        } else {
            out == Ok::<Seek, String>(Seek::Browse(Some(id)))
        },
{
    lemma_shown_id(id);
    lemma_hex_is_no_address(id.shown(), 8);
    if text == Some(id.shown()) {
        match out {
            Ok(Seek::Browse(requested)) => {
                lemma_id_by_bytes(requested.unwrap(), id);
            },
            Ok(Seek::Found(_)) => {},
            Err(_) => {
                lemma_id_by_bytes(own, id);
            },
        }
    }
}

proof fn lemma_shown_id(id: DeviceId)
    ensures
        is_hex(id.shown(), 8),
        hex_bytes(id.shown(), 8) == id.bytes(),
{
    law_an_id_is_its_bytes(id, id);
    law_hex_reads_back(id.bytes());
}

/// A reply registers the worker only where the master says so; a busy master, a lost
/// connection or no answer is tried again, and any other answer is final.
pub proof fn law_what_a_registration_reply_means(reply: RegistrationReply)
    ensures
        judged(reply) is Accepted <==> reply matches RegistrationReply::Answered(
            Response::WorkerRegistered,
            _,
        ),
        judged(reply) is Retry <==> match reply {
            RegistrationReply::Answered(Response::Refused(why), _) => why@
                == "master is busy; retry shortly"@,
            RegistrationReply::Answered(_, _) => false,
            _ => true,
        },
        judged(reply) is Accepted <==> is_registered(reply),
{
}

/// What was said last is not said again, and anything else is.
pub proof fn law_nothing_is_said_twice_in_a_row(previous: Seq<char>, message: Seq<char>)
    ensures
        worth_saying(message, message) is None,
        previous != message ==> worth_saying(previous, message) == Some(message),
{
}

/// Where a master is paired with: at each of its addresses, on its pairing port.
pub open spec fn paired_at(target: Master) -> Seq<SocketAddr> {
    Seq::new(
        target.addrs.len(),
        |i: int| SocketAddr { ip: target.addrs[i].ip, port: target.pairing_port },
    )
}

/// A master is paired with at its own addresses, every one of them and in their order,
/// on its pairing port and no other.
pub proof fn law_pairing_is_on_the_pairing_port(target: Master, i: int)
    requires
        0 <= i < target.addrs.len(),
    ensures
        paired_at(target).len() == target.addrs.len(),
        paired_at(target)[i].ip == target.addrs[i].ip,
        paired_at(target)[i].port == target.pairing_port,
{
}

/// What contracts speak of is a target's own id, addresses and port.
pub proof fn law_a_target_is_its_fields(target: Target, text: String)
    ensures
        target@.id == target.id,
        target@.addrs == target.addrs@,
        target@.pairing_port == target.pairing_port,
        master_view(Some(target)) == Some(target@),
        master_view(None) is None,
        text_view(Some(text)) == Some(text@),
        text_view(None) is None,
{
}

/// Whether a worker goes on so after looking for a master.
pub open spec fn after_search(
    before: Worker,
    target: Option<Target>,
    trusted: bool,
    after: Worker,
    out: Next,
) -> bool {
    &&& after.authorized == authorized_after(before.authorized, Event::Tried)
    &&& serves(Event::Tried, out)
    &&& after.saved == before.saved
    &&& match target {
        None => {
            &&& out matches Next::Retry(said)
            &&& text_view(said) == worth_saying(before.last_error@, NO_MASTER@)
            &&& after.last_error@ == NO_MASTER@
            &&& after.code == before.code
        },
        Some(target) => {
            &&& after.last_error == before.last_error
            &&& after.code is None
            &&& match before.code {
                None => out == Next::Connect(Connecting { target, trusted }),
                Some(code) => out == Next::Pair(PairingWith { target }, Some(code)),
            }
        },
    }
}

/// Whether a worker goes on so after trying to connect.
pub open spec fn after_connecting(
    before: Worker,
    connecting: Connecting,
    result: Result<DeviceId, String>,
    after: Worker,
    out: Next,
) -> bool {
    &&& after.authorized == authorized_after(before.authorized, Event::Tried)
    &&& serves(Event::Tried, out)
    &&& after.saved == before.saved
    &&& after.code == before.code
    &&& match result {
        Ok(peer) => {
            &&& out == Next::Register(Registering { target: connecting.target, peer })
            &&& after.last_error == before.last_error
        },
        Err(error) => if connecting.trusted {
            let message = "Master unavailable: "@ + error@
                + ". Retrying; existing pairing is preserved."@;
            &&& out matches Next::Retry(said)
            &&& text_view(said) == worth_saying(before.last_error@, message)
            &&& after.last_error@ == message
        } else {
            &&& out == Next::Pair(PairingWith { target: connecting.target }, None)
            &&& after.last_error == before.last_error
        },
    }
}

/// Whether a worker goes on so after pairing.
pub open spec fn after_pairing(
    before: Worker,
    pairing: PairingWith,
    result: Result<DeviceId, String>,
    after: Worker,
    out: Next,
) -> bool {
    &&& after.authorized == authorized_after(before.authorized, Event::Tried)
    &&& serves(Event::Tried, out)
    &&& after.code == before.code
    &&& after.last_error == before.last_error
    &&& match result {
        Ok(id) => {
            &&& out matches Next::Reconnect(next)
            &&& next.target@ == (Master { id: Some(id), ..pairing.target@ })
            &&& after.saved matches Some(saved)
            &&& saved@ == next.target@
        },
        Err(error) => {
            &&& out matches Next::Fail(said)
            &&& said@ == "could not pair with the master: "@ + error@
                + "; check its current code and rerun latticed worker"@
            &&& after.saved == before.saved
        },
    }
}

/// Whether a worker goes on so after connecting once more.
pub open spec fn after_reconnecting(
    before: Worker,
    reconnecting: Reconnecting,
    result: Result<DeviceId, String>,
    after: Worker,
    out: Next,
) -> bool {
    &&& after.authorized == authorized_after(before.authorized, Event::Tried)
    &&& serves(Event::Tried, out)
    &&& after.saved == before.saved
    &&& after.code == before.code
    &&& match result {
        Ok(peer) => {
            &&& out == Next::Register(Registering { target: reconnecting.target, peer })
            &&& after.last_error == before.last_error
        },
        Err(error) => {
            let message = "Pairing saved; waiting for master: "@ + error@;
            &&& out matches Next::Retry(said)
            &&& text_view(said) == worth_saying(before.last_error@, message)
            &&& after.last_error@ == message
        },
    }
}

/// Whether a worker goes on so after asking to be registered.
pub open spec fn after_registering(
    before: Worker,
    registering: Registering,
    reply: RegistrationReply,
    after: Worker,
    out: Next,
) -> bool {
    &&& ({
        let event = Event::Asked { peer: registering.peer, accepted: is_registered(reply) };
        &&& after.authorized == authorized_after(before.authorized, event)
        &&& serves(event, out)
    })
    &&& after.code == before.code
    &&& ({
        let known = Master { id: Some(registering.peer), ..registering.target@ };
        match judged(reply) {
            Judged::Accepted => {
                &&& out matches Next::Serve { master, remember }
                &&& master == registering.peer
                &&& remember@ == known
                &&& master_view(after.saved) == Some(known)
                &&& after.last_error@.len() == 0
            },
            Judged::Retry(reason) => {
                let message = reason + "; retrying automatically"@;
                &&& out matches Next::Retry(said)
                &&& text_view(said) == worth_saying(before.last_error@, message)
                &&& after.last_error@ == message
                &&& master_view(after.saved) == Some(known)
            },
            Judged::Rejected(reply) => {
                &&& out matches Next::Fail(said)
                &&& said@ == "master did not accept worker registration: "@ + reply
                    + "; run the updated latticed master on that device"@
                &&& after.saved == before.saved
                &&& after.last_error == before.last_error
            },
        }
    })
}

/// Whether a worker goes on so after its connection closed.
pub open spec fn after_closing(
    before: Worker,
    after: Worker,
    out: Next,
) -> bool {
    &&& out is Release
    &&& after.authorized == authorized_after(before.authorized, Event::Closed)
    &&& serves(Event::Closed, out)
    &&& after.saved == before.saved
    &&& after.code == before.code
    &&& after.last_error == before.last_error
}

/// A pairing that a worker has is kept: a trusted master that cannot be reached is tried
/// again, never paired with anew, and stays the one remembered; a code given is used once,
/// with the first master found.
pub proof fn law_an_existing_pairing_is_kept(
    worker: Worker,
    target: Target,
    trusted: bool,
    searched: Worker,
    first: Next,
    connected: Worker,
    error: String,
    second: Next,
)
    requires
        after_search(worker, Some(target), trusted, searched, first),
        after_connecting(
            searched,
            Connecting { target, trusted },
            Err::<DeviceId, String>(error),
            connected,
            second,
        ),
    ensures
        worker.code is None ==> first == Next::Connect(Connecting { target, trusted }),
        worker.code matches Some(code) ==> first == Next::Pair(PairingWith { target }, Some(code)),
        searched.code is None,
        connected.code is None,
        trusted ==> second is Retry,
        !trusted ==> second == Next::Pair(PairingWith { target }, None),
        searched.saved == worker.saved,
        connected.saved == worker.saved,
        connected.authorized == worker.authorized,
{
}

/// A worker remembers whom it paired with, under that device's id and where it was found,
/// and connects to it there again; a pairing that failed changes nothing and ends it.
pub proof fn law_whom_it_paired_with_is_remembered(
    worker: Worker,
    target: Target,
    result: Result<DeviceId, String>,
    paired: Worker,
    next: Next,
)
    requires
        after_pairing(worker, PairingWith { target }, result, paired, next),
    ensures
        result matches Ok(id) ==> {
            &&& paired.saved matches Some(saved)
            &&& saved.id == Some(id)
            &&& saved.addrs@ == target.addrs@
            &&& saved.pairing_port == target.pairing_port
            &&& next matches Next::Reconnect(again)
            &&& again.target.id == Some(id)
            &&& again.target.addrs@ == target.addrs@
        },
        result is Err ==> paired.saved == worker.saved && next is Fail,
        paired.authorized == worker.authorized,
{
}

/// A worker is served only by a master that registered it: it then lets just that master
/// use its GPU and remembers it; a master that is busy, lost or silent is tried again; one
/// that answered otherwise ends it and nothing is remembered of it. When the connection
/// closes nobody may use the GPU any more, and the master stays remembered.
pub proof fn law_registration_decides(
    worker: Worker,
    registering: Registering,
    reply: RegistrationReply,
    after: Worker,
    next: Next,
    closed: Worker,
    last: Next,
)
    requires
        after_registering(worker, registering, reply, after, next),
        after_closing(after, closed, last),
    ensures
        ({
            let accepted = reply matches RegistrationReply::Answered(Response::WorkerRegistered, _);
            &&& next is Serve <==> accepted
            &&& accepted ==> after.authorized == Some(registering.peer)
            &&& !accepted ==> after.authorized == worker.authorized
            &&& next is Fail ==> after.saved == worker.saved
            &&& !(next is Fail) ==> after.saved is Some && {
                let saved = after.saved.unwrap();
                &&& saved.id == Some(registering.peer)
                &&& saved.addrs@ == registering.target.addrs@
                &&& saved.pairing_port == registering.target.pairing_port
            }
            &&& next matches Next::Serve { master, remember } ==> {
                &&& master == registering.peer
                &&& remember.id == Some(registering.peer)
                &&& remember.addrs@ == registering.target.addrs@
            }
            &&& next is Retry <==> match reply {
                RegistrationReply::Answered(Response::Refused(why), _) => why@
                    == "master is busy; retry shortly"@,
                RegistrationReply::Answered(_, _) => false,
                _ => true,
            }
        }),
        closed.authorized is None,
        closed.saved == after.saved,
        last is Release,
{
}

/// Whoever answers is asked for registration, with the target it was reached at; one that
/// cannot be reached again after pairing is waited for, and stays remembered.
pub proof fn law_whoever_answers_is_asked(
    worker: Worker,
    target: Target,
    trusted: bool,
    peer: DeviceId,
    connected: Worker,
    next: Next,
    result: Result<DeviceId, String>,
    reconnected: Worker,
    again: Next,
)
    requires
        after_connecting(
            worker,
            Connecting { target, trusted },
            Ok::<DeviceId, String>(peer),
            connected,
            next,
        ),
        after_reconnecting(worker, Reconnecting { target }, result, reconnected, again),
    ensures
        next == Next::Register(Registering { target, peer }),
        connected.saved == worker.saved,
        result matches Ok(id) ==> again == Next::Register(Registering { target, peer: id }),
        result is Err ==> again is Retry,
        reconnected.saved == worker.saved,
{
}

}
