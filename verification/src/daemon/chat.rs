//! Chatting with a model spread over this machine's GPU and those of workers.

use vstd::prelude::*;
use vstd::string::StringExecFns;

use crate::bytes::{be_value, law_be_reads_back, lemma_capacities};
use crate::daemon::plan::{allocation, build, built, law_planned_layers_fit_with_their_cache, law_refused_for_memory_only_where_nothing_fits, settled, Plan, PlanError};
use crate::daemon::resolve::contains;
use crate::daemon::runtime::{law_cpu_is_never_picked, law_default_gpu_has_the_most_memory, law_named_gpu_is_the_first_of_that_name, picked, select_device};
use crate::engine::inventory::ModelInventory;
use crate::net::addr::{copy_addrs, dialable, dotted, law_exactly_ipv4_is_dialled, law_own_addresses_are_dialled_last, law_written_address_is_read, lemma_hex_is_no_address, parse_socket, socket_of, usable, Address, IpAddr, SocketAddr, Written};
use crate::net::control::{EngineCapabilities, GpuDevice, Response};
use crate::net::digest::{hex_bytes, is_hex, law_hex_reads_back};
use crate::net::discovery::{DiscoveredPeer, PeerEvent, PROTOCOL_VERSION};
use crate::net::identity::{law_an_id_is_its_bytes, DeviceId};
use crate::net::roster::{law_a_device_has_its_entry, lemma_entry_at, Roster};
use crate::net::trust::TrustStore;
use crate::text::{begins, chars_of, decimal, join, join2, join3, joined, law_joined_texts_are_read_back, law_joining_puts_one_between, lemma_decimal_holds_no, number_text, part_at, same, starts_with, texts};

verus! {

/// Seconds to look for workers.
pub const BROWSE_TIME: u64 = 4;

/// Seconds that a worker may take to describe its engine.
pub const INFO_TIMEOUT: u64 = 120;

/// How much of the end of a log is shown.
pub const LOG_TAIL: u64 = 8192;

/// What to chat with, and on what.
#[derive(Clone, Debug)]
pub struct Options {
    /// The model on the master; assigned weights transfer automatically.
    pub model: String,
    pub context: u32,
    pub tokens: u32,
    /// One prompt to answer; none for a conversation.
    pub prompt: Option<String>,
    /// Device ids or addresses of workers; none for every worker in sight.
    pub worker: Vec<String>,
    /// Run on the local GPU alone.
    pub local: bool,
    pub device: Option<String>,
    pub engine_dir: Option<String>,
    /// Memory to leave free on each GPU, in MiB.
    pub reserve_mib: u32,
}

/// Refuses a context that the model was not trained for.
pub fn check_context(context: u32, trained: u32) -> (out: Result<(), String>)
    ensures
        out is Ok <==> trained_for(context, trained),
        out matches Err(said) ==> said@ == "--context "@ + decimal(context as nat)
            + " exceeds the model's trained context "@ + decimal(trained as nat),
{
    if context > trained {
        let mut said = join3(
            "--context ",
            number_text(context as u128).as_str(),
            " exceeds the model's trained context ",
        );
        said.append(number_text(trained as u128).as_str());
        Err(said)
    } else {
        Ok(())
    }
}

/// The memory to leave free on each GPU, in bytes.
pub fn reserve_bytes(mib: u32) -> (out: u64)
    ensures
        out == reserve_of(mib),
{
    (mib as u64) * 0x10_0000
}

/// The devices that a plan is made for: those of the workers, then the local
/// one.
pub fn plan_devices(workers: &Vec<GpuDevice>, local: GpuDevice) -> (out: Vec<GpuDevice>)
    ensures
        out@ == workers@.push(local),
{
    let mut out: Vec<GpuDevice> = Vec::new();
    for i in 0..workers.len()
        invariant
            out@ == workers@.take(i as int),
    {
        out.push(workers[i].copy());
        assert(workers@.take(i as int).push(workers@[i as int]) =~= workers@.take(i as int + 1));
    }
    assert(workers@.take(workers@.len() as int) =~= workers@);
    out.push(local);
    out
}

/// The device that sixteen hexadecimal digits name.
pub open spec fn named_id(text: Seq<char>) -> DeviceId {
    DeviceId { number: be_value(hex_bytes(text, 8)) as u64 }
}

proof fn lemma_named_id(text: Seq<char>, id: DeviceId)
    requires
        id.bytes() == hex_bytes(text, 8),
    ensures
        id == named_id(text),
{
    lemma_capacities();
    law_be_reads_back(id.number as nat, 8);
}

/// What a request for a worker is.
pub enum Request {
    /// An address.
    Address(SocketAddr),
    /// A device.
    Device(DeviceId),
    /// Neither, or one that cannot be a worker, with what is said against it.
    Fault(Seq<char>),
}

/// What a request for a worker is, among the devices that are trusted.
pub open spec fn requested(text: Seq<char>, trusted: Seq<DeviceId>, own: DeviceId) -> Request {
    match socket_of(text) {
        Some(Written::V6) => Request::Fault("--worker requires a usable IPv4:port"@),
        Some(Written::V4 { bits, port }) => if port == 0 || bits == 0 {
            Request::Fault("--worker requires a usable IPv4:port"@)
        } else {
            Request::Address(SocketAddr { ip: IpAddr::V4(bits as u32), port: port as u16 })
        },
        None => if !is_hex(text, 8) {
            Request::Fault("--worker expects a device ID or IPv4:port"@)
        } else {
            let id = named_id(text);
            if id == own || !trusted.contains(id) {
                Request::Fault(id.shown() + " is not a paired worker"@)
            } else {
                Request::Device(id)
            }
        },
    }
}

/// The first of some requests, from `from` on, that is a fault.
pub open spec fn first_fault(
    requests: Seq<Seq<char>>,
    trusted: Seq<DeviceId>,
    own: DeviceId,
    from: int,
) -> int
    decreases requests.len() - from,
{
    if from >= requests.len() || requested(requests[from], trusted, own) is Fault {
        from
    } else {
        first_fault(requests, trusted, own, from + 1)
    }
}

/// The addresses among some requests, in their order.
pub open spec fn addresses(
    requests: Seq<Seq<char>>,
    trusted: Seq<DeviceId>,
    own: DeviceId,
) -> Seq<SocketAddr>
    decreases requests.len(),
{
    if requests.len() == 0 {
        Seq::empty()
    } else {
        let rest = addresses(requests.drop_last(), trusted, own);
        match requested(requests.last(), trusted, own) {
            Request::Address(addr) => rest.push(addr),
            _ => rest,
        }
    }
}

/// Whether a device is among some requests.
pub open spec fn asks_for(
    requests: Seq<Seq<char>>,
    trusted: Seq<DeviceId>,
    own: DeviceId,
    id: DeviceId,
) -> bool
    decreases requests.len(),
{
    if requests.len() == 0 {
        false
    } else {
        requested(requests.last(), trusted, own) == Request::Device(id) || asks_for(
            requests.drop_last(),
            trusted,
            own,
            id,
        )
    }
}

/// Looking for workers.
pub struct Search {
    pub own: DeviceId,
    pub trusted: Vec<DeviceId>,
    /// Whether any trusted worker will do.
    pub any: bool,
    pub explicit: Vec<SocketAddr>,
    pub wanted: Roster<()>,
    pub found: Roster<Vec<SocketAddr>>,
}

/// A worker to connect to: who is expected, and where.
pub struct Located {
    pub expected: Option<DeviceId>,
    pub addrs: Vec<SocketAddr>,
}

impl Search {
    /// Both rosters are in order, and whoever was found is trusted, is not this
    /// device, and was asked for unless any will do.
    pub open spec fn wf(self) -> bool {
        &&& self.wanted.wf()
        &&& self.found.wf()
        &&& forall|id: DeviceId| #[trigger]
            self.found.value(id) is Some ==> {
                &&& id != self.own
                &&& self.trusted@.contains(id)
                &&& self.any || self.wanted.value(id) is Some
            }
    }

    /// Begins to look for the workers that were asked for, or for any. `trusted`
    /// are the devices in the trust store.
    pub fn begin(requests: &Vec<String>, trusted: Vec<DeviceId>, own: DeviceId) -> (out: Result<
        Self,
        String,
    >)
        ensures
            begun(texts(requests@), trusted, own, out),
    {
        let ghost asked = texts(requests@);
        let mut explicit: Vec<SocketAddr> = Vec::new();
        let mut wanted: Roster<()> = Roster::new();
        assert(asked.take(0) =~= Seq::<Seq<char>>::empty());
        for i in 0..requests.len()
            invariant
                asked == texts(requests@),
                wanted.wf(),
                first_fault(asked, trusted@, own, 0) == first_fault(asked, trusted@, own, i as int),
                explicit@ == addresses(asked.take(i as int), trusted@, own),
                forall|id: DeviceId| #[trigger]
                    wanted.value(id) is Some <==> asks_for(
                        asked.take(i as int),
                        trusted@,
                        own,
                        id,
                    ),
        {
            let text = requests[i].as_str();
            let ghost next = asked.take(i as int + 1);
            let ghost before = wanted;
            assert(next.drop_last() =~= asked.take(i as int));
            assert(next.last() == text@);
            match parse_socket(text) {
                Some(Address::V6) => {
                    return Err("--worker requires a usable IPv4:port".to_owned());
                },
                Some(Address::V4(addr)) => {
                    if addr.port == 0 || addr.is_unspecified() {
                        return Err("--worker requires a usable IPv4:port".to_owned());
                    }
                    explicit.push(addr);
                },
                None => {
                    let id = match DeviceId::parse(text) {
                        Ok(id) => id,
                        Err(_) => {
                            return Err("--worker expects a device ID or IPv4:port".to_owned());
                        },
                    };
                    proof {
                        lemma_named_id(text@, id);
                    }
                    if id == own || !contains(&trusted, id) {
                        return Err(join2(id.text().as_str(), " is not a paired worker"));
                    }
                    wanted.insert(id, ());
                },
            }
            assert forall|id: DeviceId| #[trigger] wanted.value(id) is Some <==> asks_for(
                next,
                trusted@,
                own,
                id,
            ) by {
                assert(before.value(id) is Some <==> asks_for(
                    asked.take(i as int),
                    trusted@,
                    own,
                    id,
                ));
            }
        }
        assert(asked.take(asked.len() as int) =~= asked);
        let found: Roster<Vec<SocketAddr>> = Roster::new();
        let any = requests.len() == 0;
        Ok(Search { own, trusted, any, explicit, wanted, found })
    }

    /// Whether the network has to be looked at: not where only addresses were
    /// asked for.
    pub fn browses(&self) -> (out: bool)
        ensures
            out == self.looks_around(),
    {
        !(self.wanted.len() == 0 && self.explicit.len() > 0)
    }

    /// Whether the network has to be looked at.
    pub open spec fn looks_around(self) -> bool {
        !(self.wanted.entries@.len() == 0 && self.explicit@.len() > 0)
    }

    /// Whether a device in sight is a worker that is looked for.
    pub open spec fn looks_for(self, peer: DiscoveredPeer) -> bool {
        &&& peer.device_id != self.own
        &&& self.trusted@.contains(peer.device_id)
        &&& peer.role matches Some(role) && role@ == "worker"@
        &&& peer.protocol == PROTOCOL_VERSION
        &&& self.any || self.wanted.value(peer.device_id) is Some
    }

    /// Whether an event shows a device as a worker that is looked for, with an
    /// address that can be dialled.
    pub open spec fn sights(self, event: PeerEvent, id: DeviceId) -> bool {
        &&& event matches PeerEvent::Found(peer)
        &&& peer.device_id == id
        &&& self.looks_for(peer)
        &&& dialable(peer.addrs@).len() > 0
    }

    /// Where a device is, after an event: where the event shows it, nowhere where
    /// the event says that it went, or where it was before.
    pub open spec fn whereabouts(
        self,
        event: PeerEvent,
        id: DeviceId,
        before: Option<Seq<SocketAddr>>,
    ) -> Option<Seq<SocketAddr>> {
        if self.sights(event, id) {
            Some(dialable(sighted_addrs(event)))
        } else if event == PeerEvent::Lost(id) {
            None
        } else {
            before
        }
    }

    /// Where a device was found.
    pub open spec fn found_at(self, id: DeviceId) -> Option<Seq<SocketAddr>> {
        match self.found.value(id) {
            Some(addrs) => Some(addrs@),
            None => None,
        }
    }

    /// Whether another search is this one after an event.
    pub open spec fn observed(self, event: PeerEvent, after: Search) -> bool {
        &&& after.own == self.own
        &&& after.trusted == self.trusted
        &&& after.any == self.any
        &&& after.explicit == self.explicit
        &&& after.wanted == self.wanted
        &&& forall|id: DeviceId| #[trigger]
            after.found_at(id) == self.whereabouts(event, id, self.found_at(id))
    }

    /// Takes note of an event.
    pub fn observe(&mut self, event: &PeerEvent)
        requires
            old(self).wf(),
        ensures
            final(self).wf(),
            old(self).observed(*event, *final(self)),
    {
        let ghost before = *self;
        match event {
            PeerEvent::Found(peer) => {
                let worker = match &peer.role {
                    Some(role) => same(role.as_str(), "worker"),
                    None => false,
                };
                if peer.device_id != self.own && contains(&self.trusted, peer.device_id) && worker
                    && peer.protocol == PROTOCOL_VERSION && (self.any || self.wanted.contains(
                    peer.device_id,
                )) {
                    let addrs = usable(&peer.addrs);
                    if addrs.len() > 0 {
                        self.found.insert(peer.device_id, addrs);
                    }
                }
            },
            PeerEvent::Lost(id) => {
                self.found.remove(*id);
            },
        }
        assert forall|id: DeviceId| #[trigger] self.found.value(id) is Some implies {
            &&& id != self.own
            &&& self.trusted@.contains(id)
            &&& self.any || self.wanted.value(id) is Some
        } by {
            if before.found.value(id) is Some {
                assert(before.trusted@.contains(id));
            }
        }
    }

    /// The first device asked for, in the order of the ids, that was not found.
    pub open spec fn first_missing(self, from: int) -> int
        decreases self.wanted.entries@.len() - from,
    {
        if from >= self.wanted.entries@.len() || self.found.value(
            self.wanted.entries@[from].0,
        ) is None {
            from
        } else {
            self.first_missing(from + 1)
        }
    }

    /// The workers to connect to, once the looking is over: those at addresses,
    /// in the order they were asked for, then those found, in the order of their
    /// ids.
    pub fn finish(self) -> (out: Result<Vec<Located>, String>)
        requires
            self.wf(),
        ensures
            finished(self, out),
    {
        for i in 0..self.wanted.entries.len()
            invariant
                self.wf(),
                self.first_missing(0) == self.first_missing(i as int),
        {
            let id = self.wanted.entries[i].0;
            if !self.found.contains(id) {
                return Err(
                    join3(
                        "worker ",
                        id.text().as_str(),
                        " is unavailable; start it or supply --worker <IPv4:port>",
                    ),
                );
            }
        }
        let mut located: Vec<Located> = Vec::new();
        for i in 0..self.explicit.len()
            invariant
                located@.len() == i,
                forall|j: int|
                    0 <= j < i ==> {
                        &&& (#[trigger] located@[j]).expected is None
                        &&& located@[j].addrs@ == seq![self.explicit@[j]]
                    },
        {
            let mut addrs: Vec<SocketAddr> = Vec::new();
            addrs.push(self.explicit[i]);
            assert(addrs@ =~= seq![self.explicit@[i as int]]);
            located.push(Located { expected: None, addrs });
        }
        let ghost explicit = self.explicit@.len() as int;
        for i in 0..self.found.entries.len()
            invariant
                explicit == self.explicit@.len(),
                located@.len() == explicit + i,
                forall|j: int|
                    0 <= j < explicit ==> {
                        &&& (#[trigger] located@[j]).expected is None
                        &&& located@[j].addrs@ == seq![self.explicit@[j]]
                    },
                forall|j: int|
                    explicit <= j < located@.len() ==> {
                        &&& (#[trigger] located@[j]).expected == Some(
                            self.found.entries@[j - explicit].0,
                        )
                        &&& located@[j].addrs@ == self.found.entries@[j - explicit].1@
                    },
        {
            let addrs = copy_addrs(&self.found.entries[i].1);
            located.push(Located { expected: Some(self.found.entries[i].0), addrs });
        }
        Ok(located)
    }
}

/// The addresses in an event.
pub open spec fn sighted_addrs(event: PeerEvent) -> Seq<SocketAddr> {
    match event {
        PeerEvent::Found(peer) => peer.addrs@,
        PeerEvent::Lost(_) => Seq::empty(),
    }
}

/// Whether a search goes through states by events, one after the other, from a
/// state in which nothing was found.
pub open spec fn searched(states: Seq<Search>, events: Seq<PeerEvent>) -> bool {
    &&& states.len() == events.len() + 1
    &&& forall|id: DeviceId| #[trigger] states[0].found_at(id) is None
    &&& forall|i: int| 0 <= i < events.len() ==> observed_at(states, events, i)
}

/// Whether the event at `i` leads from the state before it to the one after.
pub open spec fn observed_at(states: Seq<Search>, events: Seq<PeerEvent>, i: int) -> bool {
    states[i].observed(events[i], states[i + 1])
}

/// Whether the event at `at` is the last usable sighting of a device, and the
/// device was not lost since.
pub open spec fn last_sighted(
    search: Search,
    events: Seq<PeerEvent>,
    id: DeviceId,
    at: int,
) -> bool {
    &&& 0 <= at < events.len()
    &&& search.sights(events[at], id)
    &&& forall|i: int|
        at < i < events.len() ==> !search.sights(#[trigger] events[i], id) && events[i]
            != PeerEvent::Lost(id)
}

/// A search finds a device with the addresses of its last usable sighting, unless
/// the device was lost since, and finds no other: over any events, a device is
/// found at some addresses exactly where these are those of its last usable
/// sighting with no loss after it. What is looked for stays the same.
pub proof fn law_search_follows_the_sightings(states: Seq<Search>, events: Seq<PeerEvent>)
    requires
        searched(states, events),
    ensures
        states.last().own == states[0].own,
        states.last().trusted == states[0].trusted,
        states.last().any == states[0].any,
        states.last().explicit == states[0].explicit,
        states.last().wanted == states[0].wanted,
        forall|id: DeviceId, at: int| #[trigger]
            last_sighted(states[0], events, id, at) ==> states.last().found_at(id) == Some(
                dialable(sighted_addrs(events[at])),
            ),
        forall|id: DeviceId| #[trigger]
            states.last().found_at(id) is Some ==> exists|at: int| #[trigger]
                last_sighted(states[0], events, id, at),
    decreases events.len(),
{
    if events.len() > 0 {
        let last = events.len() - 1;
        let early = states.drop_last();
        let init = events.drop_last();
        assert forall|i: int| 0 <= i < init.len() implies observed_at(early, init, i) by {
            assert(observed_at(states, events, i));
        }
        law_search_follows_the_sightings(early, init);
        assert(observed_at(states, events, last));
        let before = states[last];
        let after = states.last();
        let event = events[last];
        assert(before == early.last());
        assert forall|id: DeviceId| before.sights(event, id) == #[trigger] states[0].sights(
            event,
            id,
        ) by {}
        assert forall|id: DeviceId, at: int| #[trigger]
            last_sighted(states[0], events, id, at) implies after.found_at(id) == Some(
            dialable(sighted_addrs(events[at])),
        ) by {
            assert(after.found_at(id) == before.whereabouts(event, id, before.found_at(id)));
            if at < last {
                assert(!states[0].sights(events[last], id));
                assert forall|i: int| at < i < init.len() implies !states[0].sights(
                    #[trigger] init[i],
                    id,
                ) && init[i] != PeerEvent::Lost(id) by {
                    assert(init[i] == events[i]);
                }
                assert(init[at] == events[at]);
                assert(last_sighted(states[0], init, id, at));
            }
        }
        assert forall|id: DeviceId| #[trigger] after.found_at(id) is Some implies exists|at: int|
            #[trigger] last_sighted(states[0], events, id, at) by {
            assert(after.found_at(id) == before.whereabouts(event, id, before.found_at(id)));
            if states[0].sights(event, id) {
                assert(last_sighted(states[0], events, id, last));
            } else {
                let at = choose|at: int| #[trigger] last_sighted(states[0], init, id, at);
                assert(init[at] == events[at]);
                assert forall|i: int| at < i < events.len() implies !states[0].sights(
                    #[trigger] events[i],
                    id,
                ) && events[i] != PeerEvent::Lost(id) by {
                    if i < last {
                        assert(init[i] == events[i]);
                    }
                }
                assert(last_sighted(states[0], events, id, at));
            }
        }
    }
}

/// Refuses to go on without any worker.
pub fn check_located(located: &Vec<Located>) -> (out: Result<(), String>)
    ensures
        out is Ok <==> located@.len() > 0,
        out matches Err(said) ==> said@
            == "no paired workers found; start latticed worker --require-gpu, use --worker <IPv4:port>, or choose --local"@,
{
    if located.len() == 0 {
        Err(
            "no paired workers found; start latticed worker --require-gpu, use --worker <IPv4:port>, or choose --local".to_owned(),
        )
    } else {
        Ok(())
    }
}

/// Whether a result is what is made of a device that answered where a worker was
/// expected.
pub open spec fn selected(
    expected: Option<DeviceId>,
    id: DeviceId,
    own: DeviceId,
    seen: Seq<DeviceId>,
    out: Result<(), String>,
) -> bool {
    let differs = (expected matches Some(wanted) && wanted != id) || id == own;
    match out {
        Ok(()) => !differs && !seen.contains(id),
        Err(said) => if differs {
            said@ == "worker identity differs from the selected device"@
        } else {
            &&& seen.contains(id)
            &&& said@ == "worker "@ + id.shown() + " was selected more than once"@
        },
    }
}

/// Refuses a worker that is not the one selected, or that is this machine, or
/// that was selected before. `seen` are those that were.
pub fn check_selected(
    expected: Option<DeviceId>,
    id: DeviceId,
    own: DeviceId,
    seen: &Vec<DeviceId>,
) -> (out: Result<(), String>)
    ensures
        selected(expected, id, own, seen@, out),
{
    let differs = match expected {
        Some(wanted) => wanted != id || id == own,
        None => id == own,
    };
    if differs {
        return Err("worker identity differs from the selected device".to_owned());
    }
    if contains(seen, id) {
        return Err(join3("worker ", id.text().as_str(), " was selected more than once"));
    }
    Ok(())
}

/// What is said of a worker's reply that holds no capabilities; `shown` is the
/// reply as text.
pub open spec fn info_fault(id: DeviceId, reply: Response, shown: Seq<char>) -> Option<Seq<char>> {
    match reply {
        Response::InferenceInfo(_) => None,
        Response::Refused(why) => Some(
            if begins(why@, "unintelligible request:"@) {
                "worker "@ + id.shown()
                    + " is running an older latticed; run ./scripts/setup.sh --inference there and restart its worker service"@
            } else {
                "worker "@ + id.shown() + ": "@ + why@
            },
        ),
        _ => Some(
            "worker "@ + id.shown() + " does not support inference: "@ + shown
                + "; update its installation"@,
        ),
    }
}

/// The capabilities in a worker's reply.
pub fn judge_info(id: DeviceId, reply: Response, shown: &str) -> (out: Result<
    EngineCapabilities,
    String,
>)
    ensures
        match info_fault(id, reply, shown@) {
            None => reply matches Response::InferenceInfo(caps) && out == Ok::<
                EngineCapabilities,
                String,
            >(caps),
            Some(said) => out matches Err(s) && s@ == said,
        },
{
    match reply {
        Response::InferenceInfo(caps) => Ok(caps),
        Response::Refused(why) => {
            let words = chars_of(why.as_str());
            let older = chars_of("unintelligible request:");
            if starts_with(words.as_slice(), older.as_slice()) {
                Err(
                    join3(
                        "worker ",
                        id.text().as_str(),
                        " is running an older latticed; run ./scripts/setup.sh --inference there and restart its worker service",
                    ),
                )
            } else {
                let mut said = join3("worker ", id.text().as_str(), ": ");
                said.append(why.as_str());
                Err(said)
            }
        },
        _ => {
            let mut said = join3("worker ", id.text().as_str(), " does not support inference: ");
            said.append(shown);
            said.append("; update its installation");
            Err(said)
        },
    }
}

/// What is said against a worker's capabilities, if anything.
pub open spec fn worker_fault(caps: EngineCapabilities, revision: Seq<char>) -> Option<Seq<char>> {
    if caps.revision@ != revision {
        Some("engine versions differ; run scripts/setup-engine.sh on both machines"@)
    } else if caps.busy {
        Some("GPU is busy with another chat; wait for it to finish"@)
    } else if !caps.device.is_gpu_kind() {
        Some("worker selected a non-GPU device"@)
    } else {
        None
    }
}

/// Refuses a worker that is incompatible, busy, or without a GPU.
pub fn check_worker(caps: &EngineCapabilities, revision: &str) -> (out: Result<(), String>)
    ensures
        match worker_fault(*caps, revision@) {
            None => out is Ok,
            Some(said) => out matches Err(s) && s@ == said,
        },
{
    if !same(caps.revision.as_str(), revision) {
        return Err(
            "engine versions differ; run scripts/setup-engine.sh on both machines".to_owned(),
        );
    }
    if caps.busy {
        return Err("GPU is busy with another chat; wait for it to finish".to_owned());
    }
    if !caps.device.is_gpu() {
        return Err("worker selected a non-GPU device".to_owned());
    }
    Ok(())
}

/// How a worker is called: by the name in its record, or by its id.
pub fn worker_name(store: &TrustStore, id: DeviceId) -> (out: String)
    requires
        store.wf(),
    ensures
        out@ == match store.record(id) {
            Some(peer) => peer.name@,
            None => id.shown(),
        },
{
    match store.get(id) {
        Some(peer) => peer.name.clone(),
        None => id.text(),
    }
}

/// The names under which the engine knows the devices: a numbered one for each
/// worker, then the local GPU's own.
pub open spec fn device_names(workers: nat, local: Seq<char>) -> Seq<Seq<char>> {
    Seq::new(workers, |i: int| "RPC"@ + decimal(i as nat)).push(local)
}

/// The layer counts of a plan, as texts.
pub open spec fn split_texts(layers: Seq<u32>) -> Seq<Seq<char>> {
    Seq::new(layers.len(), |i: int| decimal(layers[i] as nat))
}

/// The arguments that the engine is run with.
pub open spec fn engine_arguments(
    rpc: Seq<Seq<char>>,
    model: Seq<char>,
    local: Seq<char>,
    layers: Seq<u32>,
    context: u32,
    tokens: u32,
    prompt: Option<Seq<char>>,
) -> Seq<Seq<char>> {
    let servers = if rpc.len() == 0 {
        Seq::<Seq<char>>::empty()
    } else {
        seq!["--rpc"@, joined(rpc, ","@)]
    };
    let fixed = seq![
        "--model"@,
        model,
        "--device"@,
        joined(device_names(rpc.len(), local), ","@),
        "--split-mode"@,
        "layer"@,
        "--gpu-layers"@,
        "all"@,
        "--tensor-split"@,
        joined(split_texts(layers), ","@),
        "--fit"@,
        "off"@,
        "--simple-io"@,
        "--log-verbosity"@,
        "4"@,
        "--cache-type-k"@,
        "f16"@,
        "--cache-type-v"@,
        "f16"@,
        "--ctx-size"@,
        decimal(context as nat),
        "--predict"@,
        decimal(tokens as nat),
    ];
    let asked = match prompt {
        Some(prompt) => seq!["--prompt"@, prompt, "--single-turn"@, "--temp"@, "0"@],
        None => Seq::<Seq<char>>::empty(),
    };
    servers + fixed + asked
}

fn names_text(workers: usize, local: &str) -> (out: String)
    ensures
        out@ == joined(device_names(workers as nat, local@), ","@),
{
    let mut names: Vec<String> = Vec::new();
    let ghost all = device_names(workers as nat, local@);
    for i in 0..workers
        invariant
            all == device_names(workers as nat, local@),
            texts(names@) == all.take(i as int),
    {
        let ghost before = names@;
        names.push(join2("RPC", number_text(i as u128).as_str()));
        assert(texts(names@) =~= texts(before).push(all[i as int]));
        assert(all.take(i as int + 1) =~= all.take(i as int).push(all[i as int]));
    }
    let ghost before = names@;
    names.push(local.to_owned());
    assert(texts(names@) =~= texts(before).push(local@));
    assert(texts(names@) =~= all);
    join(names.as_slice(), ",")
}

fn split_text(layers: &Vec<u32>) -> (out: String)
    ensures
        out@ == joined(split_texts(layers@), ","@),
{
    let mut counts: Vec<String> = Vec::new();
    let ghost all = split_texts(layers@);
    for i in 0..layers.len()
        invariant
            all == split_texts(layers@),
            texts(counts@) == all.take(i as int),
    {
        let ghost before = counts@;
        counts.push(number_text(layers[i] as u128));
        assert(texts(counts@) =~= texts(before).push(all[i as int]));
        assert(all.take(i as int + 1) =~= all.take(i as int).push(all[i as int]));
    }
    assert(texts(counts@) =~= all);
    join(counts.as_slice(), ",")
}

/// The arguments that the engine is run with: `rpc` are the addresses of the
/// workers' servers, in the plan's order.
pub fn engine_args(
    rpc: &Vec<String>,
    model: &str,
    local: &str,
    layers: &Vec<u32>,
    context: u32,
    tokens: u32,
    prompt: Option<&str>,
) -> (out: Vec<String>)
    ensures
        texts(out@) == engine_arguments(
            texts(rpc@),
            model@,
            local@,
            layers@,
            context,
            tokens,
            (match prompt {
                Some(p) => Some(p@),
                None => None,
            }),
        ),
{
    let mut out: Vec<String> = Vec::new();
    if rpc.len() > 0 {
        out.push("--rpc".to_owned());
        out.push(join(rpc.as_slice(), ","));
    }
    out.push("--model".to_owned());
    out.push(model.to_owned());
    out.push("--device".to_owned());
    out.push(names_text(rpc.len(), local));
    out.push("--split-mode".to_owned());
    out.push("layer".to_owned());
    out.push("--gpu-layers".to_owned());
    out.push("all".to_owned());
    out.push("--tensor-split".to_owned());
    out.push(split_text(layers));
    out.push("--fit".to_owned());
    out.push("off".to_owned());
    out.push("--simple-io".to_owned());
    out.push("--log-verbosity".to_owned());
    out.push("4".to_owned());
    out.push("--cache-type-k".to_owned());
    out.push("f16".to_owned());
    out.push("--cache-type-v".to_owned());
    out.push("f16".to_owned());
    out.push("--ctx-size".to_owned());
    out.push(number_text(context as u128));
    out.push("--predict".to_owned());
    out.push(number_text(tokens as u128));
    if let Some(prompt) = prompt {
        out.push("--prompt".to_owned());
        out.push(prompt.to_owned());
        out.push("--single-turn".to_owned());
        out.push("--temp".to_owned());
        out.push("0".to_owned());
    }
    assert(texts(out@) =~= engine_arguments(
        texts(rpc@),
        model@,
        local@,
        layers@,
        context,
        tokens,
        (match prompt {
            Some(p) => Some(p@),
            None => None,
        }),
    ));
    out
}

/// Whether a variable of the environment is kept from the engine, which would
/// take it for an argument.
pub fn strips_variable(name: &str) -> (out: bool)
    ensures
        out == begins(name@, "LLAMA_ARG_"@),
{
    let chars = chars_of(name);
    let prefix = chars_of("LLAMA_ARG_");
    starts_with(chars.as_slice(), prefix.as_slice())
}

/// Where the end of a log begins, of which no more than so much is shown.
pub fn tail_start(size: u64) -> (out: u64)
    ensures
        out == tail_of(size),
{
    size.saturating_sub(LOG_TAIL)
}

/// What is said of an engine that failed.
pub fn engine_failure(status: &str, tail: &str, log: &str) -> (out: String)
    ensures
        out@ == "inference engine exited with "@ + status@ + "\n"@ + tail@ + "\nFull log: "@ + log@,
{
    let mut said = join3("inference engine exited with ", status, "\n");
    said.append(tail);
    said.append("\nFull log: ");
    said.append(log);
    said
}

/// A chat that may begin: the model is known, and its context is one that it was
/// trained for.
pub struct Chat {
    pub inventory: ModelInventory,
    pub options: Options,
}

/// A chat whose local GPU is known.
pub struct LocalChat {
    pub chat: Chat,
    pub local: GpuDevice,
}

/// A chat whose layers are placed: on the workers' GPUs in their order, then on
/// the local one.
pub struct PlacedChat {
    pub chat: Chat,
    pub devices: Vec<GpuDevice>,
    pub plan: Plan,
}

/// A chat whose layers could not be placed on these devices.
pub struct Unplaced {
    pub devices: Vec<GpuDevice>,
    pub error: PlanError,
}

impl Chat {
    /// Begins a chat with a model.
    pub fn begin(inventory: ModelInventory, options: Options) -> (out: Result<Self, String>)
        ensures
            if trained_for(options.context, inventory.facts.train_context) {
                out == Ok::<Chat, String>(Chat { inventory, options })
            } else {
                out matches Err(said) && said@ == "--context "@ + decimal(options.context as nat)
                    + " exceeds the model's trained context "@ + decimal(
                    inventory.facts.train_context as nat,
                )
            },
    {
        match check_context(options.context, inventory.facts.train_context) {
            Ok(()) => Ok(Chat { inventory, options }),
            Err(said) => Err(said),
        }
    }

    /// Picks the local GPU among those detected.
    pub fn pick_local(self, devices: &[GpuDevice]) -> (out: Result<LocalChat, String>)
        ensures
            picks_local(self, devices@, out),
    {
        let asked = match &self.options.device {
            Some(name) => Some(name.as_str()),
            None => None,
        };
        match select_device(devices, asked) {
            Ok(local) => Ok(LocalChat { chat: self, local }),
            Err(said) => Err(said),
        }
    }
}

impl LocalChat {
    /// Whether workers are to be looked for.
    pub fn wants_workers(&self) -> (out: bool)
        ensures
            out == !self.chat.options.local,
    {
        !self.chat.options.local
    }

    /// Places the model's layers on the workers' GPUs and the local one.
    pub fn place(self, workers: &Vec<GpuDevice>) -> (out: Result<PlacedChat, Unplaced>)
        ensures
            places(self, workers@, out),
    {
        let devices = plan_devices(workers, self.local);
        let reserve: u64 = reserve_bytes(self.chat.options.reserve_mib);
        match build(
            &self.chat.inventory,
            self.chat.options.context,
            devices.as_slice(),
            reserve,
        ) {
            Ok(plan) => Ok(PlacedChat { chat: self.chat, devices, plan }),
            Err(error) => Err(Unplaced { devices, error }),
        }
    }
}

impl PlacedChat {
    /// The arguments that the engine is run with.
    pub open spec fn arguments(self, rpc: Seq<Seq<char>>, model: Seq<char>) -> Seq<Seq<char>> {
        engine_arguments(
            rpc,
            model,
            self.devices@.last().name@,
            self.plan.layers@,
            self.chat.options.context,
            self.chat.options.tokens,
            match self.chat.options.prompt {
                Some(p) => Some(p@),
                None => None,
            },
        )
    }

    /// The arguments that the engine is run with. `model` is where the model is,
    /// `rpc` are the addresses of the workers' servers: one for each device but
    /// the local one, in the devices' order.
    pub fn engine_args(&self, model: &str, rpc: &Vec<String>) -> (out: Vec<String>)
        requires
            rpc@.len() + 1 == self.devices@.len(),
        ensures
            texts(out@) == self.arguments(texts(rpc@), model@),
    {
        let local = &self.devices[self.devices.len() - 1];
        let prompt = match &self.chat.options.prompt {
            Some(prompt) => Some(prompt.as_str()),
            None => None,
        };
        engine_args(
            rpc,
            model,
            local.name.as_str(),
            &self.plan.layers,
            self.chat.options.context,
            self.chat.options.tokens,
            prompt,
        )
    }
}

/// A worker that takes part.
pub struct Member {
    pub id: DeviceId,
    pub name: String,
    pub caps: EngineCapabilities,
}

/// The workers that take part, as they are connected one after the other.
/// `revision` is the engine's on this machine.
pub struct Members {
    pub own: DeviceId,
    pub revision: String,
    pub seen: Vec<DeviceId>,
    pub joined: Vec<Member>,
}

/// Whether a device that answers where a worker was expected can be met.
pub open spec fn can_be_met(
    expected: Option<DeviceId>,
    id: DeviceId,
    own: DeviceId,
    seen: Seq<DeviceId>,
) -> bool {
    &&& expected matches Some(wanted) ==> wanted == id
    &&& id != own
    &&& !seen.contains(id)
}

/// Whether a reply is that of a worker that can take part.
pub open spec fn can_take_part(reply: Response, revision: Seq<char>) -> bool {
    reply matches Response::InferenceInfo(caps) && worker_fault(caps, revision) is None
}

/// Something that happens while workers are connected.
pub enum Gathering {
    /// A device answered where a worker was expected.
    Met { expected: Option<DeviceId>, id: DeviceId },
    /// A worker that was met replied to the question about its engine; `store` is
    /// the trust store then.
    Replied { id: DeviceId, reply: Response, store: TrustStore },
}

impl Members {
    /// No device was met twice, this one was not met at all, and every worker
    /// that joined was met, joined once, and can take part.
    pub open spec fn wf(self) -> bool {
        &&& self.seen@.no_duplicates()
        &&& !self.seen@.contains(self.own)
        &&& forall|i: int|
            0 <= i < self.joined@.len() ==> self.seen@.contains((#[trigger] self.joined@[i]).id)
        &&& forall|i: int|
            0 <= i < self.joined@.len() ==> worker_fault(
                (#[trigger] self.joined@[i]).caps,
                self.revision@,
            ) is None
        &&& forall|i: int, j: int|
            0 <= i < j < self.joined@.len() ==> (#[trigger] self.joined@[i]).id != (
            #[trigger] self.joined@[j]).id
    }

    /// A device joined.
    pub open spec fn has_joined(self, id: DeviceId) -> bool {
        exists|i: int| 0 <= i < self.joined@.len() && (#[trigger] self.joined@[i]).id == id
    }

    /// Whether something can happen: only a worker that was met replies, and it
    /// joins only once.
    pub open spec fn allows(self, event: Gathering) -> bool {
        event matches Gathering::Replied { id, reply: _, store } ==> {
            &&& store.wf()
            &&& self.seen@.contains(id)
            &&& !self.has_joined(id)
        }
    }

    /// Whether these members are the ones before with a worker that joined.
    pub open spec fn with(
        self,
        before: Members,
        id: DeviceId,
        reply: Response,
        store: TrustStore,
    ) -> bool {
        &&& self.joined@.len() == before.joined@.len() + 1
        &&& self.joined@.drop_last() == before.joined@
        &&& self.joined@.last().id == id
        &&& reply == Response::InferenceInfo(self.joined@.last().caps)
        &&& self.joined@.last().name@ == match store.record(id) {
            Some(peer) => peer.name@,
            None => id.shown(),
        }
    }

    /// Whether other members are these after something happened.
    pub open spec fn gathers(self, event: Gathering, after: Members) -> bool {
        &&& after.own == self.own
        &&& after.revision == self.revision
        &&& match event {
            Gathering::Met { expected, id } => {
                &&& after.joined == self.joined
                &&& after.seen@ == if can_be_met(expected, id, self.own, self.seen@) {
                    self.seen@.push(id)
                } else {
                    self.seen@
                }
            },
            Gathering::Replied { id, reply, store } => {
                &&& after.seen == self.seen
                &&& if can_take_part(reply, self.revision@) {
                    after.with(self, id, reply, store)
                } else {
                    after.joined == self.joined
                }
            },
        }
    }

    /// None yet.
    pub fn new(own: DeviceId, revision: &str) -> (out: Self)
        ensures
            out.wf(),
            out.own == own,
            out.revision@ == revision@,
            out.seen@.len() == 0,
            out.joined@.len() == 0,
    {
        Members { own, revision: revision.to_owned(), seen: Vec::new(), joined: Vec::new() }
    }

    /// Meets the device that answered where a worker was expected.
    pub fn meet(&mut self, expected: Option<DeviceId>, id: DeviceId) -> (out: Result<(), String>)
        requires
            old(self).wf(),
        ensures
            final(self).wf(),
            old(self).gathers(Gathering::Met { expected, id }, *final(self)),
            selected(expected, id, old(self).own, old(self).seen@, out),
            out is Ok ==> final(self).seen@.contains(id) && !final(self).has_joined(id),
    {
        match check_selected(expected, id, self.own, &self.seen) {
            Ok(()) => {
                let ghost before = self.seen@;
                self.seen.push(id);
                proof {
                    lemma_push_contains(before, id);
                }
                Ok(())
            },
            Err(said) => Err(said),
        }
    }

    /// Takes a worker that described its engine, unless it cannot take part.
    /// `shown` is its reply as text.
    pub fn join(
        &mut self,
        id: DeviceId,
        reply: Response,
        shown: &str,
        store: &TrustStore,
    ) -> (out: Result<(), String>)
        requires
            old(self).wf(),
            old(self).allows(Gathering::Replied { id, reply, store: *store }),
        ensures
            final(self).wf(),
            old(self).gathers(Gathering::Replied { id, reply, store: *store }, *final(self)),
            match (info_fault(id, reply, shown@), reply) {
                (None, Response::InferenceInfo(caps)) => match worker_fault(
                    caps,
                    old(self).revision@,
                ) {
                    None => out is Ok,
                    Some(why) => out matches Err(said) && said@ == "worker "@ + id.shown() + ": "@
                        + why,
                },
                (Some(said), _) => out matches Err(s) && s@ == said,
                _ => false,
            },
    {
        let caps = match judge_info(id, reply, shown) {
            Ok(caps) => caps,
            Err(said) => return Err(said),
        };
        if let Err(why) = check_worker(&caps, self.revision.as_str()) {
            let mut said = join3("worker ", id.text().as_str(), ": ");
            said.append(why.as_str());
            return Err(said);
        }
        let name = worker_name(store, id);
        let ghost before = self.joined@;
        self.joined.push(Member { id, name, caps });
        assert(self.joined@.drop_last() =~= before);
        assert forall|i: int| 0 <= i < before.len() implies (#[trigger] self.joined@[i]).id
            != id by {
            assert(self.joined@[i] == before[i]);
        }
        Ok(())
    }
}

/// What a list holds with one device more.
proof fn lemma_push_contains(before: Seq<DeviceId>, id: DeviceId)
    ensures
        before.push(id).contains(id),
        forall|d: DeviceId| before.contains(d) ==> #[trigger] before.push(id).contains(d),
        forall|d: DeviceId| #[trigger]
            before.push(id).contains(d) ==> d == id || before.contains(d),
{
    let after = before.push(id);
    assert(after[before.len() as int] == id);
    assert forall|d: DeviceId| before.contains(d) implies #[trigger] after.contains(d) by {
        let k = before.index_of(d);
        assert(after[k] == d);
    }
    assert forall|d: DeviceId| #[trigger] after.contains(d) implies d == id || before.contains(
        d,
    ) by {
        let k = after.index_of(d);
        if k < before.len() {
            assert(before[k] == d);
        }
    }
}

/// Whether workers are connected through states by events, one after the other,
/// from a state without any.
pub open spec fn gathered(states: Seq<Members>, events: Seq<Gathering>) -> bool {
    &&& states.len() == events.len() + 1
    &&& states[0].seen@.len() == 0
    &&& states[0].joined@.len() == 0
    &&& forall|i: int| 0 <= i < events.len() ==> gathered_at(states, events, i)
}

/// Whether the event at `i` leads from the state before it to the one after.
pub open spec fn gathered_at(states: Seq<Members>, events: Seq<Gathering>, i: int) -> bool {
    states[i].allows(events[i]) && states[i].gathers(events[i], states[i + 1])
}

/// Whether the event at `at` is a meeting with a device, and the one expected.
pub open spec fn met_at(events: Seq<Gathering>, device: DeviceId, at: int) -> bool {
    &&& 0 <= at < events.len()
    &&& events[at] matches Gathering::Met { expected, id }
    &&& id == device
    &&& expected matches Some(wanted) ==> wanted == id
}

/// Whether the event at `at` is the reply that a member joined with.
pub open spec fn joined_with(events: Seq<Gathering>, member: Member, at: int) -> bool {
    &&& 0 <= at < events.len()
    &&& events[at] matches Gathering::Replied { id, reply, store: _ }
    &&& id == member.id
    &&& reply == Response::InferenceInfo(member.caps)
}

/// Whether the event at `at` is a reply of a device that can take part.
pub open spec fn passed_at(events: Seq<Gathering>, revision: Seq<char>, at: int) -> bool {
    &&& 0 <= at < events.len()
    &&& events[at] matches Gathering::Replied { id: _, reply, store: _ }
    &&& can_take_part(reply, revision)
}

/// The members of a chat, over any meetings and replies, are exactly the devices
/// that were met and then replied that they can take part: of this machine's
/// engine revision, not busy, with a GPU. None is this machine, and none is there
/// twice.
pub proof fn law_members_are_those_that_passed(states: Seq<Members>, events: Seq<Gathering>)
    requires
        gathered(states, events),
    ensures
        states.last().own == states[0].own,
        states.last().revision == states[0].revision,
        states.last().wf(),
        forall|k: int|
            0 <= k < states.last().joined@.len() ==> {
                &&& (#[trigger] states.last().joined@[k]).id != states[0].own
                &&& worker_fault(states.last().joined@[k].caps, states[0].revision@) is None
                &&& exists|met: int, at: int|
                    met < at && #[trigger] met_at(events, states.last().joined@[k].id, met)
                        && #[trigger] joined_with(events, states.last().joined@[k], at)
            },
        forall|id: DeviceId| #[trigger]
            states.last().seen@.contains(id) ==> exists|met: int| #[trigger]
                met_at(events, id, met),
        forall|at: int| #[trigger]
            passed_at(events, states[0].revision@, at) ==> exists|k: int|
                0 <= k < states.last().joined@.len() && joined_with(
                    events,
                    #[trigger] states.last().joined@[k],
                    at,
                ),
    decreases events.len(),
{
    if events.len() > 0 {
        let last = events.len() - 1;
        let early = states.drop_last();
        let init = events.drop_last();
        assert forall|i: int| 0 <= i < init.len() implies gathered_at(early, init, i) by {
            assert(gathered_at(states, events, i));
        }
        law_members_are_those_that_passed(early, init);
        assert(gathered_at(states, events, last));
        let before = states[last];
        let after = states.last();
        assert(before == early.last());
        lemma_gathers_wf(before, events[last], after);
        let grew = passed_at(events, states[0].revision@, last);
        let n = before.joined@.len() as int;
        assert(forall|k: int| 0 <= k < n ==> #[trigger] after.joined@[k] == before.joined@[k]) by {
            if grew {
                assert forall|k: int| 0 <= k < n implies #[trigger] after.joined@[k]
                    == before.joined@[k] by {
                    assert(after.joined@.drop_last()[k] == after.joined@[k]);
                }
            }
        }
        assert forall|k: int| 0 <= k < after.joined@.len() implies {
            &&& (#[trigger] after.joined@[k]).id != states[0].own
            &&& worker_fault(after.joined@[k].caps, states[0].revision@) is None
            &&& exists|met: int, at: int|
                met < at && #[trigger] met_at(events, after.joined@[k].id, met)
                    && #[trigger] joined_with(events, after.joined@[k], at)
        } by {
            assert(after.seen@.contains(after.joined@[k].id));
            if k < n {
                let member = before.joined@[k];
                let (met, at) = choose|met: int, at: int|
                    met < at && #[trigger] met_at(init, member.id, met) && #[trigger] joined_with(
                        init,
                        member,
                        at,
                    );
                assert(met_at(events, member.id, met));
                assert(joined_with(events, member, at));
            } else {
                let member = after.joined@[k];
                assert(before.seen@.contains(member.id));
                let met = choose|met: int| #[trigger] met_at(init, member.id, met);
                assert(met_at(events, member.id, met));
                assert(joined_with(events, member, last));
            }
        }
        assert forall|id: DeviceId| #[trigger] after.seen@.contains(id) implies exists|met: int|
            #[trigger]
            met_at(events, id, met) by {
            if before.seen@.contains(id) {
                let met = choose|met: int| #[trigger] met_at(init, id, met);
                assert(met_at(events, id, met));
            } else {
                lemma_push_contains(before.seen@, after.seen@.last());
                assert(met_at(events, id, last));
            }
        }
        assert forall|at: int| #[trigger]
            passed_at(events, states[0].revision@, at) implies exists|k: int|
            0 <= k < after.joined@.len() && joined_with(
                events,
                #[trigger] after.joined@[k],
                at,
            ) by {
            if at < last {
                assert(init[at] == events[at]);
                assert(passed_at(init, states[0].revision@, at));
                let k = choose|k: int|
                    0 <= k < before.joined@.len() && joined_with(
                        init,
                        #[trigger] before.joined@[k],
                        at,
                    );
                assert(joined_with(events, after.joined@[k], at));
            } else {
                assert(joined_with(events, after.joined@[n], last));
            }
        }
    }
}

/// Whatever happens keeps the members in order.
proof fn lemma_gathers_wf(before: Members, event: Gathering, after: Members)
    requires
        before.wf(),
        before.allows(event),
        before.gathers(event, after),
    ensures
        after.wf(),
{
    match event {
        Gathering::Met { expected: _, id } => {
            lemma_push_contains(before.seen@, id);
        },
        Gathering::Replied { id, reply, store: _ } => {
            if can_take_part(reply, before.revision@) {
                let n = before.joined@.len() as int;
                assert forall|k: int| 0 <= k < n implies #[trigger] after.joined@[k]
                    == before.joined@[k] by {
                    assert(after.joined@.drop_last()[k] == after.joined@[k]);
                }
                assert(after.joined@[n] == after.joined@.last());
                assert forall|k: int| 0 <= k < n implies (#[trigger] after.joined@[k]).id != id by {
                    assert(before.joined@[k].id != id);
                }
            }
        },
    }
}

/// How a chat ended.
pub enum ChatEnd {
    /// The engine ended by itself.
    Exited { success: bool, status: String },
    /// Waiting for the engine failed.
    WaitFailed(String),
    /// A worker's connection closed.
    WorkerLost(String),
    /// The user stopped it.
    Stopped,
}

/// What to make of it.
pub enum ChatVerdict {
    /// All is well.
    Fine,
    /// The engine failed: show the end of its log.
    ShowLog { status: String },
    /// Something failed, with these words.
    Fail(String),
}

/// Decides what to make of how a chat ended. `log` is where the engine's log is.
pub fn conclude(end: ChatEnd, log: &str) -> (out: ChatVerdict)
    ensures
        match end {
            ChatEnd::Stopped => out is Fine,
            ChatEnd::Exited { success, status } => if success {
                out is Fine
            } else {
                out == (ChatVerdict::ShowLog { status })
            },
            ChatEnd::WaitFailed(error) => out matches ChatVerdict::Fail(said) && said@ == "see "@
                + log@ + ": waiting for the inference engine: "@ + error@,
            ChatEnd::WorkerLost(error) => out matches ChatVerdict::Fail(said) && said@ == "see "@
                + log@ + ": worker connection closed during inference: "@ + error@,
        },
{
    match end {
        ChatEnd::Stopped => ChatVerdict::Fine,
        ChatEnd::Exited { success, status } => if success {
            ChatVerdict::Fine
        } else {
            ChatVerdict::ShowLog { status }
        },
        ChatEnd::WaitFailed(error) => {
            let mut said = join3("see ", log, ": waiting for the inference engine: ");
            said.append(error.as_str());
            ChatVerdict::Fail(said)
        },
        ChatEnd::WorkerLost(error) => {
            let mut said = join3("see ", log, ": worker connection closed during inference: ");
            said.append(error.as_str());
            ChatVerdict::Fail(said)
        },
    }
}

/// Only trusted workers are connected to unless an address was given: whoever is
/// expected somewhere is a trusted device, and not this one.
pub proof fn law_only_trusted_workers_are_expected(search: Search, i: int)
    requires
        search.wf(),
        0 <= i < search.found.entries@.len(),
    ensures
        search.trusted@.contains(search.found.entries@[i].0),
        search.found.entries@[i].0 != search.own,
{
    lemma_entry_at(search.found.entries@, i);
    assert(search.found.value(search.found.entries@[i].0) is Some);
}

/// Where the arguments begin that do not depend on there being servers.
pub open spec fn after_servers(rpc: Seq<Seq<char>>) -> int {
    if rpc.len() == 0 {
        0
    } else {
        2
    }
}

/// The engine is told of each device in one order: the part at `k` of `--device` is
/// `RPC` and the number `k` for every worker, whose server is the part at `k` of
/// `--rpc`, and what follows them is the local GPU; the part at `k` of
/// `--tensor-split` is the number of layers planned for the device at `k`. The
/// model, the context, the number of tokens and the prompt are those given.
pub proof fn law_engine_pairs_each_device_with_its_layers(
    rpc: Seq<Seq<char>>,
    model: Seq<char>,
    local: Seq<char>,
    layers: Seq<u32>,
    context: u32,
    tokens: u32,
    prompt: Option<Seq<char>>,
)
    requires
        forall|i: int| 0 <= i < rpc.len() ==> !(#[trigger] rpc[i]).contains(','),
    ensures
        ({
            let args = engine_arguments(rpc, model, local, layers, context, tokens, prompt);
            let at = after_servers(rpc);
            let devices = args[at + 3];
            let split = args[at + 9];
            &&& rpc.len() > 0 ==> args[0] == "--rpc"@
            &&& forall|k: int|
                0 <= k < rpc.len() ==> {
                    &&& #[trigger] part_at(args[1], ',', k as nat) == rpc[k]
                    &&& part_at(devices, ',', k as nat) == "RPC"@ + decimal(k as nat)
                }
            &&& args[at + 2] == "--device"@
            &&& exists|before: Seq<char>|
                devices == #[trigger] (before + local) && (rpc.len() > 0 ==> before.last() == ',')
                    && (rpc.len() == 0 ==> before.len() == 0)
            &&& !local.contains(',') ==> part_at(devices, ',', rpc.len()) == local
            &&& args[at + 8] == "--tensor-split"@
            &&& forall|k: int|
                0 <= k < layers.len() ==> #[trigger] part_at(split, ',', k as nat) == decimal(
                    layers[k] as nat,
                )
            &&& args[at] == "--model"@ && args[at + 1] == model
            &&& args[at + 19] == "--ctx-size"@ && args[at + 20] == decimal(context as nat)
            &&& args[at + 21] == "--predict"@ && args[at + 22] == decimal(tokens as nat)
            &&& match prompt {
                Some(asked) => {
                    &&& args.len() == at + 28
                    &&& args[at + 23] == "--prompt"@ && args[at + 24] == asked
                    &&& args[at + 25] == "--single-turn"@
                    &&& args[at + 26] == "--temp"@ && args[at + 27] == "0"@
                },
                None => args.len() == at + 23,
            }
        }),
{
    let args = engine_arguments(rpc, model, local, layers, context, tokens, prompt);
    let at = after_servers(rpc);
    let names = device_names(rpc.len(), local);
    let counts = split_texts(layers);
    reveal_strlit(",");
    reveal_strlit("RPC");
    assert(","@ =~= seq![',']);
    assert(args[at + 3] == joined(names, ","@));
    assert(args[at + 9] == joined(counts, ","@));
    assert forall|k: int| 0 <= k < rpc.len() implies !(#[trigger] names[k]).contains(',') by {
        lemma_decimal_holds_no(k as nat, ',');
        if names[k].contains(',') {
            let i = names[k].index_of(',');
            if i >= 3 {
                assert(names[k][i] == decimal(k as nat)[i - 3]);
                assert(decimal(k as nat).contains(','));
            }
        }
    }
    assert forall|k: int| 0 <= k < rpc.len() implies {
        &&& #[trigger] part_at(args[1], ',', k as nat) == rpc[k]
        &&& part_at(args[at + 3], ',', k as nat) == "RPC"@ + decimal(k as nat)
    } by {
        law_joined_texts_are_read_back(rpc, ',', k as nat);
        law_joined_texts_are_read_back(names, ',', k as nat);
    }
    if !local.contains(',') {
        law_joined_texts_are_read_back(names, ',', rpc.len());
    }
    if rpc.len() > 0 {
        let front = names.drop_last();
        assert(names =~= front + seq![local]);
        law_joining_puts_one_between(front, seq![local], local, ","@);
        let before = joined(front, ","@) + ","@;
        assert(args[at + 3] == before + local);
    } else {
        assert(names =~= seq![local]);
        law_joining_puts_one_between(names, names, local, ","@);
        assert(args[at + 3] =~= Seq::<char>::empty() + local);
    }
    assert forall|k: int| 0 <= k < layers.len() implies #[trigger] part_at(
        args[at + 9],
        ',',
        k as nat,
    ) == decimal(layers[k] as nat) by {
        assert forall|i: int| 0 <= i <= k implies !(#[trigger] counts[i]).contains(',') by {
            lemma_decimal_holds_no(layers[i] as nat, ',');
        }
        law_joined_texts_are_read_back(counts, ',', k as nat);
    }
}

/// A worker can take part exactly where its engine is of this machine's revision,
/// its GPU is free, and it is a GPU, discrete or integrated.
pub proof fn law_who_can_take_part(caps: EngineCapabilities, revision: Seq<char>)
    ensures
        worker_fault(caps, revision) is None <==> {
            &&& caps.revision@ == revision
            &&& !caps.busy
            &&& caps.device.kind@ == "gpu"@ || caps.device.kind@ == "igpu"@
        },
        can_take_part(Response::InferenceInfo(caps), revision) <==> {
            &&& caps.revision@ == revision
            &&& !caps.busy
            &&& caps.device.kind@ == "gpu"@ || caps.device.kind@ == "igpu"@
        },
        forall|reply: Response|
            #[trigger] can_take_part(reply, revision) ==> reply is InferenceInfo,
{
}

/// A device in sight is found exactly where it says that it is a worker, speaks
/// this protocol, is trusted, is not this device, was asked for unless any will
/// do, and has an address that can be dialled; where it is then found are those of
/// its addresses that can be. No other device's whereabouts change, and a device
/// that went is not found.
pub proof fn law_a_sighting_finds_a_trusted_worker(
    before: Search,
    after: Search,
    peer: DiscoveredPeer,
    gone: Search,
)
    requires
        before.observed(PeerEvent::Found(peer), after),
        before.observed(PeerEvent::Lost(peer.device_id), gone),
    ensures
        ({
            let id = peer.device_id;
            let looked_for = {
                &&& peer.role matches Some(role) && role@ == "worker"@
                &&& peer.protocol == 1
                &&& before.trusted@.contains(id)
                &&& id != before.own
                &&& before.any || before.wanted.value(id) is Some
                &&& exists|i: int|
                    0 <= i < peer.addrs@.len() && (#[trigger] peer.addrs@[i]).ip is V4
            };
            &&& looked_for ==> after.found_at(id) is Some && after.found_at(id).unwrap()
                == peer.addrs@.filter(
                |a: SocketAddr|
                    a.ip matches IpAddr::V4(bits) && (bits as int / 0x100_0000 == 127) == false,
            ) + peer.addrs@.filter(
                |a: SocketAddr|
                    a.ip matches IpAddr::V4(bits) && (bits as int / 0x100_0000 == 127) == true,
            )
            &&& !looked_for ==> after.found_at(id) == before.found_at(id)
            &&& gone.found_at(id) is None
            &&& forall|other: DeviceId|
                other != id ==> #[trigger] after.found_at(other) == before.found_at(other)
            &&& forall|other: DeviceId|
                other != id ==> #[trigger] gone.found_at(other) == before.found_at(other)
        }),
{
    let addrs = peer.addrs@;
    law_own_addresses_are_dialled_last(addrs);
    if dialable(addrs).len() > 0 {
        let addr = dialable(addrs)[0];
        law_exactly_ipv4_is_dialled(addrs, addr);
        assert(dialable(addrs).contains(addr));
        let i = addrs.index_of(addr);
        assert(addrs[i].ip is V4);
    }
    if exists|i: int| 0 <= i < addrs.len() && (#[trigger] addrs[i]).ip is V4 {
        let i = choose|i: int| 0 <= i < addrs.len() && (#[trigger] addrs[i]).ip is V4;
        law_exactly_ipv4_is_dialled(addrs, addrs[i]);
        assert(addrs.contains(addrs[i]));
    }
    assert(after.found_at(peer.device_id) == before.whereabouts(
        PeerEvent::Found(peer),
        peer.device_id,
        before.found_at(peer.device_id),
    ));
}

/// A worker is asked for by its address, which has to name a machine and a port, or by
/// its id, which has to be that of another device that is trusted.
pub proof fn law_how_workers_are_asked_for(
    a: u8,
    b: u8,
    c: u8,
    d: u8,
    port: u16,
    id: DeviceId,
    trusted: Seq<DeviceId>,
    own: DeviceId,
)
    ensures
        ({
            let bits = ((a as int * 256 + b as int) * 256 + c as int) * 256 + d as int;
            let written = dotted(a, b, c, d) + ":"@ + decimal(port as nat);
            if bits == 0 || port == 0 {
                requested(written, trusted, own) is Fault
            } else {
                requested(written, trusted, own) == Request::Address(
                    SocketAddr { ip: IpAddr::V4(bits as u32), port },
                )
            }
        }),
        if trusted.contains(id) && id != own {
            requested(id.shown(), trusted, own) == Request::Device(id)
        } else {
            requested(id.shown(), trusted, own) == Request::Fault(
                id.shown() + " is not a paired worker"@,
            )
        },
{
    law_written_address_is_read(a, b, c, d, port);
    law_an_id_is_its_bytes(id, id);
    law_hex_reads_back(id.bytes());
    lemma_hex_is_no_address(id.shown(), 8);
    lemma_named_id(id.shown(), id);
}

/// What is asked for is all of the requests and nothing else: each address among them,
/// in their order, and each device that one of them names. One that is a fault is the
/// first that is, and there is none exactly where no request is.
pub proof fn law_every_request_counts(
    requests: Seq<Seq<char>>,
    trusted: Seq<DeviceId>,
    own: DeviceId,
    id: DeviceId,
)
    ensures
        addresses(requests, trusted, own) == requests.filter(
            |text: Seq<char>| requested(text, trusted, own) is Address,
        ).map_values(|text: Seq<char>| requested(text, trusted, own)->Address_0),
        asks_for(requests, trusted, own, id) <==> exists|i: int|
            0 <= i < requests.len() && requested(#[trigger] requests[i], trusted, own)
                == Request::Device(id),
        ({
            let at = first_fault(requests, trusted, own, 0);
            &&& 0 <= at <= requests.len()
            &&& forall|i: int|
                0 <= i < at ==> !(requested(#[trigger] requests[i], trusted, own) is Fault)
            &&& at < requests.len() ==> requested(requests[at], trusted, own) is Fault
        }),
{
    lemma_addresses(requests, trusted, own);
    lemma_asks_for(requests, trusted, own, id);
    lemma_first_fault(requests, trusted, own, 0);
}

proof fn lemma_addresses(requests: Seq<Seq<char>>, trusted: Seq<DeviceId>, own: DeviceId)
    ensures
        addresses(requests, trusted, own) == requests.filter(
            |text: Seq<char>| requested(text, trusted, own) is Address,
        ).map_values(|text: Seq<char>| requested(text, trusted, own)->Address_0),
    decreases requests.len(),
{
    reveal(Seq::filter);
    let is_address = |text: Seq<char>| requested(text, trusted, own) is Address;
    let address = |text: Seq<char>| requested(text, trusted, own)->Address_0;
    let kept = requests.filter(is_address);
    if requests.len() > 0 {
        lemma_addresses(requests.drop_last(), trusted, own);
        let fewer = requests.drop_last().filter(is_address);
        if requested(requests.last(), trusted, own) is Address {
            assert(kept =~= fewer.push(requests.last()));
            assert(kept.map_values(address) =~= fewer.map_values(address).push(
                address(requests.last()),
            ));
        } else {
            assert(kept =~= fewer);
        }
    } else {
        assert(kept.map_values(address) =~= Seq::<SocketAddr>::empty());
    }
}

proof fn lemma_asks_for(
    requests: Seq<Seq<char>>,
    trusted: Seq<DeviceId>,
    own: DeviceId,
    id: DeviceId,
)
    ensures
        asks_for(requests, trusted, own, id) <==> exists|i: int|
            0 <= i < requests.len() && requested(#[trigger] requests[i], trusted, own)
                == Request::Device(id),
    decreases requests.len(),
{
    if requests.len() > 0 {
        let init = requests.drop_last();
        let last = requests.len() - 1;
        lemma_asks_for(init, trusted, own, id);
        if requested(requests.last(), trusted, own) == Request::Device(id) {
            assert(requested(requests[last], trusted, own) == Request::Device(id));
        }
        if asks_for(init, trusted, own, id) {
            let i = choose|i: int|
                0 <= i < init.len() && requested(#[trigger] init[i], trusted, own)
                    == Request::Device(id);
            assert(requests[i] == init[i]);
        }
        if exists|i: int|
            0 <= i < requests.len() && requested(#[trigger] requests[i], trusted, own)
                == Request::Device(id) {
            let i = choose|i: int|
                0 <= i < requests.len() && requested(#[trigger] requests[i], trusted, own)
                    == Request::Device(id);
            if i < last {
                assert(init[i] == requests[i]);
            }
        }
    }
}

proof fn lemma_first_fault(
    requests: Seq<Seq<char>>,
    trusted: Seq<DeviceId>,
    own: DeviceId,
    from: int,
)
    requires
        0 <= from <= requests.len(),
    ensures
        ({
            let at = first_fault(requests, trusted, own, from);
            &&& from <= at <= requests.len()
            &&& forall|i: int|
                from <= i < at ==> !(requested(#[trigger] requests[i], trusted, own) is Fault)
            &&& at < requests.len() ==> requested(requests[at], trusted, own) is Fault
        }),
    decreases requests.len() - from,
{
    if from < requests.len() && !(requested(requests[from], trusted, own) is Fault) {
        lemma_first_fault(requests, trusted, own, from + 1);
    }
}

/// A search ends well exactly where every device asked for was found.
pub proof fn law_every_worker_asked_for_has_to_be_found(search: Search)
    ensures
        ({
            let at = search.first_missing(0);
            let wanted = search.wanted.entries@;
            &&& 0 <= at <= wanted.len()
            &&& forall|i: int|
                0 <= i < at ==> search.found.value((#[trigger] wanted[i]).0) is Some
            &&& at < wanted.len() ==> search.found.value(wanted[at].0) is None
        }),
{
    lemma_first_missing(search, 0);
}

proof fn lemma_first_missing(search: Search, from: int)
    requires
        0 <= from <= search.wanted.entries@.len(),
    ensures
        ({
            let at = search.first_missing(from);
            let wanted = search.wanted.entries@;
            &&& from <= at <= wanted.len()
            &&& forall|i: int|
                from <= i < at ==> search.found.value((#[trigger] wanted[i]).0) is Some
            &&& at < wanted.len() ==> search.found.value(wanted[at].0) is None
        }),
    decreases search.wanted.entries@.len() - from,
{
    if from < search.wanted.entries@.len() && search.found.value(
        search.wanted.entries@[from].0,
    ) is Some {
        lemma_first_missing(search, from + 1);
    }
}

/// A device that answers is met exactly where it is the one expected, where one is, is
/// not this machine, and was not met before; what is met and what is refused are told
/// apart so.
pub proof fn law_who_is_met(
    expected: Option<DeviceId>,
    id: DeviceId,
    own: DeviceId,
    seen: Seq<DeviceId>,
    out: Result<(), String>,
)
    requires
        selected(expected, id, own, seen, out),
    ensures
        out is Ok <==> (expected is None || expected == Some(id)) && id != own && forall|i: int|
            0 <= i < seen.len() ==> #[trigger] seen[i] != id,
        can_be_met(expected, id, own, seen) <==> out is Ok,
{
    if seen.contains(id) {
        let i = seen.index_of(id);
        assert(seen[i] == id);
    }
    if exists|i: int| 0 <= i < seen.len() && #[trigger] seen[i] == id {
        assert(seen.contains(id));
    }
}

/// A worker whose answer describes its engine is heard with that description, and any
/// other answer is told against it by its name.
pub proof fn law_only_a_description_is_heard(id: DeviceId, reply: Response, shown: Seq<char>)
    ensures
        info_fault(id, reply, shown) is None <==> reply is InferenceInfo,
        info_fault(id, reply, shown) matches Some(said) ==> begins(
            said,
            "worker "@ + id.shown(),
        ),
{
    let name = "worker "@ + id.shown();
    if let Some(said) = info_fault(id, reply, shown) {
        assert(said.take(name.len() as int) =~= name);
    }
}

/// The memory to leave free on each GPU, in bytes.
pub open spec fn reserve_of(mib: u32) -> nat {
    (mib * 0x10_0000) as nat
}

/// Where the end of a log begins.
pub open spec fn tail_of(size: u64) -> int {
    if size > LOG_TAIL {
        size - LOG_TAIL
    } else {
        0
    }
}

/// A reserve is given in mebibytes: each is 1024 times 1024 bytes, however many they
/// are.
pub proof fn law_reserve_is_in_mebibytes(mib: u32)
    ensures
        reserve_of(mib) == 1024 * 1024 * mib,
        reserve_of(mib) <= u64::MAX,
{
    assert(1024 * 1024 * mib == mib * 0x10_0000) by (nonlinear_arith);
}

/// Of a log no more than its last 8192 bytes are shown, and all of it where it has no
/// more.
pub proof fn law_last_of_a_log_is_shown(size: u64)
    ensures
        0 <= tail_of(size) <= size,
        size <= 8192 ==> tail_of(size) == 0,
        size > 8192 ==> size - tail_of(size) == 8192,
{
}

/// Whether a result is the search that some requests begin, or the first fault among
/// them.
pub open spec fn begun(
    asked: Seq<Seq<char>>,
    trusted: Vec<DeviceId>,
    own: DeviceId,
    out: Result<Search, String>,
) -> bool {
    let fault = first_fault(asked, trusted@, own, 0);
    if fault < asked.len() {
        &&& out matches Err(said)
        &&& requested(asked[fault], trusted@, own) == Request::Fault(said@)
    } else {
        &&& out matches Ok(search)
        &&& search.wf()
        &&& search.own == own
        &&& search.trusted == trusted
        &&& search.any == (asked.len() == 0)
        &&& search.explicit@ == addresses(asked, trusted@, own)
        &&& forall|id: DeviceId| #[trigger]
            search.wanted.value(id) is Some <==> asks_for(asked, trusted@, own, id)
        &&& forall|id: DeviceId| #[trigger] search.found.value(id) is None
    }
}

/// Whether a result is what a search ends with: where to connect, or the first worker
/// that was asked for and not found.
pub open spec fn finished(search: Search, out: Result<Vec<Located>, String>) -> bool {
    let missing = search.first_missing(0);
    let explicit = search.explicit@.len() as int;
    if missing < search.wanted.entries@.len() {
        &&& out matches Err(said)
        &&& said@ == "worker "@ + search.wanted.entries@[missing].0.shown()
            + " is unavailable; start it or supply --worker <IPv4:port>"@
    } else {
        &&& out matches Ok(located)
        &&& located@.len() == explicit + search.found.entries@.len()
        &&& forall|i: int|
            0 <= i < explicit ==> {
                &&& (#[trigger] located@[i]).expected is None
                &&& located@[i].addrs@ == seq![search.explicit@[i]]
            }
        &&& forall|i: int|
            explicit <= i < located@.len() ==> {
                &&& (#[trigger] located@[i]).expected == Some(search.found.entries@[i - explicit].0)
                &&& located@[i].addrs@ == search.found.entries@[i - explicit].1@
            }
    }
}

/// A search looks for what was asked for: any worker where nothing was, and otherwise
/// exactly the addresses and devices asked for. It is refused exactly where a request
/// is none.
pub proof fn law_search_is_for_what_was_asked(
    asked: Seq<Seq<char>>,
    trusted: Vec<DeviceId>,
    own: DeviceId,
    out: Result<Search, String>,
    id: DeviceId,
)
    requires
        begun(asked, trusted, own, out),
    ensures
        out is Err <==> exists|i: int|
            0 <= i < asked.len() && requested(#[trigger] asked[i], trusted@, own) is Fault,
        out matches Ok(search) ==> {
            &&& search.any <==> asked.len() == 0
            &&& search.trusted == trusted
            &&& search.own == own
            &&& search.wanted.value(id) is Some <==> exists|i: int|
                0 <= i < asked.len() && requested(#[trigger] asked[i], trusted@, own)
                    == Request::Device(id)
            &&& search.explicit@ == asked.filter(
                |text: Seq<char>| requested(text, trusted@, own) is Address,
            ).map_values(|text: Seq<char>| requested(text, trusted@, own)->Address_0)
            &&& search.found_at(id) is None
        },
{
    law_every_request_counts(asked, trusted@, own, id);
    let at = first_fault(asked, trusted@, own, 0);
    if at < asked.len() {
        assert(requested(asked[at], trusted@, own) is Fault);
    }
}

/// Every worker that a search found, and every address that was asked for, is connected
/// to, and nothing else: an address with nobody expected there, a device at the
/// addresses it was found at and with itself expected.
pub proof fn law_search_connects_to_all_it_found(
    search: Search,
    out: Result<Vec<Located>, String>,
    id: DeviceId,
)
    requires
        search.wf(),
        finished(search, out),
    ensures
        out is Err <==> exists|i: int|
            0 <= i < search.wanted.entries@.len() && search.found.value(
                (#[trigger] search.wanted.entries@[i]).0,
            ) is None,
        out matches Ok(located) ==> {
            &&& located@.len() == search.explicit@.len() + search.found.entries@.len()
            &&& forall|i: int|
                0 <= i < search.explicit@.len() ==> (#[trigger] located@[i]).expected is None
                    && located@[i].addrs@ == seq![search.explicit@[i]]
            &&& search.found_at(id) matches Some(addrs) ==> exists|i: int|
                0 <= i < located@.len() && (#[trigger] located@[i]).expected == Some(id)
                    && located@[i].addrs@ == addrs
            &&& forall|i: int|
                0 <= i < located@.len() && (#[trigger] located@[i]).expected == Some(id)
                    ==> search.found_at(id) == Some(located@[i].addrs@)
        },
{
    law_every_worker_asked_for_has_to_be_found(search);
    let at = search.first_missing(0);
    let found = search.found.entries@;
    let explicit = search.explicit@.len() as int;
    if let Ok(located) = out {
        law_a_device_has_its_entry(search.found, id);
        if search.found.value(id) is Some {
            let value = search.found.value(id).unwrap();
            let i = choose|i: int| 0 <= i < found.len() && #[trigger] found[i] == (id, value);
            assert(located@[explicit + i].expected == Some(id));
        }
        assert forall|i: int|
            0 <= i < located@.len() && (#[trigger] located@[i]).expected == Some(id) implies
            search.found_at(id) == Some(located@[i].addrs@) by {
            lemma_entry_at(found, i - explicit);
        }
    } else {
        assert(search.found.value(search.wanted.entries@[at].0) is None);
    }
}

/// Whether a model was trained for a context.
pub open spec fn trained_for(context: u32, trained: u32) -> bool {
    context <= trained
}

/// Whether a result is the chat with its local GPU, or the reason why there is none.
pub open spec fn picks_local(
    chat: Chat,
    devices: Seq<GpuDevice>,
    out: Result<LocalChat, String>,
) -> bool {
    let asked = match chat.options.device {
        Some(name) => Some(name@),
        None => None,
    };
    match out {
        Ok(next) => next.chat == chat && picked(
            devices,
            asked,
            Ok::<GpuDevice, String>(next.local),
        ),
        Err(said) => picked(devices, asked, Err::<GpuDevice, String>(said)),
    }
}

/// Whether a result is the chat with its layers placed, or the reason why they are not.
pub open spec fn places(
    local: LocalChat,
    workers: Seq<GpuDevice>,
    out: Result<PlacedChat, Unplaced>,
) -> bool {
    let devices = workers.push(local.local);
    let options = local.chat.options;
    let reserve = reserve_of(options.reserve_mib) as u64;
    match out {
        Ok(placed) => {
            &&& placed.chat == local.chat
            &&& placed.devices@ == devices
            &&& built(
                local.chat.inventory,
                options.context,
                devices,
                reserve,
                Ok::<Plan, PlanError>(placed.plan),
            )
        },
        Err(unplaced) => {
            &&& unplaced.devices@ == devices
            &&& built(
                local.chat.inventory,
                options.context,
                devices,
                reserve,
                Err::<Plan, PlanError>(unplaced.error),
            )
        },
    }
}

/// A chat begins with any context up to the one its model was trained for, and its local
/// GPU is the one named, where one is.
pub proof fn law_a_chat_begins_as_asked(
    context: u32,
    trained: u32,
    chat: Chat,
    devices: Seq<GpuDevice>,
    out: Result<LocalChat, String>,
)
    requires
        picks_local(chat, devices, out),
    ensures
        trained_for(context, trained) <==> context <= trained,
        out matches Ok(next) ==> {
            &&& next.chat == chat
            &&& next.local.kind@ == "gpu"@ || next.local.kind@ == "igpu"@
            &&& devices.contains(next.local)
            &&& chat.options.device matches Some(name) ==> next.local.name@ == name@
            &&& chat.options.device is None ==> forall|i: int|
                0 <= i < devices.len() && (#[trigger] devices[i]).kind@ == next.local.kind@
                    ==> devices[i].free_memory <= next.local.free_memory
        },
        out is Err && chat.options.device is None ==> forall|i: int|
            0 <= i < devices.len() ==> (#[trigger] devices[i]).kind@ != "gpu"@ && devices[i].kind@
                != "igpu"@,
{
    let asked = match chat.options.device {
        Some(name) => Some(name@),
        None => None,
    };
    match out {
        Ok(next) => {
            let device = Ok::<GpuDevice, String>(next.local);
            law_cpu_is_never_picked(devices, asked, next.local);
            match asked {
                Some(name) => law_named_gpu_is_the_first_of_that_name(devices, name, device),
                None => law_default_gpu_has_the_most_memory(devices, device),
            }
        },
        Err(said) => {
            if asked is None {
                law_default_gpu_has_the_most_memory(devices, Err::<GpuDevice, String>(said));
            }
        },
    }
}

/// A chat that is placed runs on the workers' GPUs and then the local one, each with
/// room for its layers and their cache at the whole context asked for, after the reserve
/// asked for; and where it is refused for want of memory no allocation has room so. The
/// engine is then told of those layers, that context and that GPU.
pub proof fn law_a_placed_chat_fits_as_asked(
    local: LocalChat,
    workers: Seq<GpuDevice>,
    out: Result<PlacedChat, Unplaced>,
    cuts: Seq<int>,
    rpc: Seq<Seq<char>>,
    model: Seq<char>,
)
    requires
        places(local, workers, out),
        rpc.len() == workers.len(),
        forall|i: int| 0 <= i < rpc.len() ==> !(#[trigger] rpc[i]).contains(','),
    ensures
        ({
            let devices = workers.push(local.local);
            let options = local.chat.options;
            let inventory = local.chat.inventory;
            let reserve = (options.reserve_mib * 0x10_0000) as u64;
            &&& out matches Ok(placed) ==> {
                &&& placed.devices@ == devices
                &&& placed.plan.layers@.len() == devices.len()
                &&& forall|d: int|
                    0 <= d < devices.len() ==> #[trigger] settled(
                        inventory,
                        options.context,
                        devices,
                        reserve,
                        placed.plan.layers@,
                        d,
                    )
            }
            &&& out matches Err(unplaced) ==> unplaced.devices@ == devices && (unplaced.error
                == PlanError::Memory ==> !allocation(
                inventory,
                options.context,
                devices,
                reserve,
                cuts,
            ))
        }),
        out matches Ok(placed) ==> {
            let args = placed.arguments(rpc, model);
            let at = after_servers(rpc);
            &&& args[at + 1] == model
            &&& args[at + 20] == decimal(local.chat.options.context as nat)
            &&& args[at + 22] == decimal(local.chat.options.tokens as nat)
            &&& !local.local.name@.contains(',') ==> part_at(args[at + 3], ',', workers.len())
                == local.local.name@
            &&& forall|k: int|
                0 <= k <= workers.len() ==> #[trigger] part_at(args[at + 9], ',', k as nat)
                    == decimal(placed.plan.layers@[k] as nat)
        },
{
    let devices = workers.push(local.local);
    let options = local.chat.options;
    let inventory = local.chat.inventory;
    let reserve = (options.reserve_mib * 0x10_0000) as u64;
    match out {
        Ok(placed) => {
            law_planned_layers_fit_with_their_cache(
                inventory,
                options.context,
                devices,
                reserve,
                placed.plan,
            );
            let prompt = match options.prompt {
                Some(p) => Some(p@),
                None => None,
            };
            law_engine_pairs_each_device_with_its_layers(
                rpc,
                model,
                placed.devices@.last().name@,
                placed.plan.layers@,
                options.context,
                options.tokens,
                prompt,
            );
        },
        Err(unplaced) => {
            if unplaced.error == PlanError::Memory {
                law_refused_for_memory_only_where_nothing_fits(
                    inventory,
                    options.context,
                    devices,
                    reserve,
                    Err::<Plan, PlanError>(unplaced.error),
                    cuts,
                );
            }
        },
    }
}

/// A worker that joins comes after those before it, with its own id and what it said of
/// its engine, and is called by its record's name, or by its id where it has none; who was
/// met comes after those met before.
pub proof fn law_a_worker_joins_at_the_end(
    before: Members,
    id: DeviceId,
    caps: EngineCapabilities,
    store: TrustStore,
    after: Members,
    expected: Option<DeviceId>,
    met: Members,
)
    requires
        before.gathers(
            Gathering::Replied { id, reply: Response::InferenceInfo(caps), store },
            after,
        ),
        can_take_part(Response::InferenceInfo(caps), before.revision@),
        before.gathers(Gathering::Met { expected, id }, met),
        can_be_met(expected, id, before.own, before.seen@),
    ensures
        after.joined@.len() == before.joined@.len() + 1,
        forall|i: int|
            0 <= i < before.joined@.len() ==> #[trigger] after.joined@[i] == before.joined@[i],
        after.joined@.last().id == id,
        after.joined@.last().caps == caps,
        store.record(id) matches Some(peer) ==> after.joined@.last().name@ == peer.name@,
        store.record(id) is None ==> after.joined@.last().name@ == id.shown(),
        met.seen@ == before.seen@.push(id),
        met.joined == before.joined,
{
    assert forall|i: int| 0 <= i < before.joined@.len() implies #[trigger] after.joined@[i]
        == before.joined@[i] by {
        assert(after.joined@.drop_last()[i] == after.joined@[i]);
    }
}

/// The network is looked at where any device was asked for by its id or nothing was asked
/// for at all, and not where only addresses were.
pub proof fn law_when_to_look_around(
    asked: Seq<Seq<char>>,
    trusted: Vec<DeviceId>,
    own: DeviceId,
    search: Search,
    id: DeviceId,
)
    requires
        begun(asked, trusted, own, Ok::<Search, String>(search)),
    ensures
        asked.len() == 0 ==> search.looks_around(),
        asks_for(asked, trusted@, own, id) ==> search.looks_around(),
        asked.len() > 0 && (forall|i: int|
            0 <= i < asked.len() ==> requested(#[trigger] asked[i], trusted@, own) is Address)
            ==> !search.looks_around(),
{
    law_every_request_counts(asked, trusted@, own, id);
    if asked.len() == 0 {
        assert(search.explicit@.len() == 0);
    }
    if asks_for(asked, trusted@, own, id) {
        assert(search.wanted.value(id) is Some);
        law_a_device_has_its_entry(search.wanted, id);
    }
    if asked.len() > 0 && (forall|i: int|
        0 <= i < asked.len() ==> requested(#[trigger] asked[i], trusted@, own) is Address) {
        if search.wanted.entries@.len() > 0 {
            let some = search.wanted.entries@[0].0;
            lemma_entry_at(search.wanted.entries@, 0);
            assert(search.wanted.value(some) is Some);
            lemma_asks_for(asked, trusted@, own, some);
            assert(asks_for(asked, trusted@, own, some));
        }
        assert(requested(asked.last(), trusted@, own) is Address) by {
            assert(requested(asked[asked.len() - 1], trusted@, own) is Address);
        }
        assert(addresses(asked, trusted@, own).len() > 0);
    }
}

}
