//! This device answering for itself: the trust it will accept, and the layers
//! it will hold.
//!
//! The user pairs each device to the master once. The master then hands every
//! device the others' keys, and each pins them exactly as if it had paired
//! directly. Afterwards nothing consults the master: the end state is the same
//! pairwise trust store there would have been, minus the typing.

use vstd::prelude::*;
use vstd::string::StringExecFns;

use crate::engine::abi::{Payload, ShardSpec};
use crate::net::activation::Step;
use crate::net::control::{introduced_as, introduction_of, refused_with, unusable_shown, EngineCapabilities, Introduction, Request, Response};
use crate::net::identity::{id_of, key_fault, DeviceId};
use crate::net::trust::{PairedPeer, TrustStore};
use crate::text::{chars_of, join2, join3, same};

verus! {

/// Who this device says it is.
#[derive(Clone, Debug)]
pub struct Node {
    pub id: DeviceId,
    pub name: String,
    pub platform: String,
}

/// What a control request asks of this device.
pub enum NodeAction {
    /// Send this answer.
    Answer(Response),
    /// Take these introductions.
    Provision(Vec<Introduction>),
    /// Hold these layers.
    Load(ShardSpec),
    /// Report what the inference engine can do.
    Capabilities,
}

impl Node {
    /// A device with its identity.
    pub fn new(id: DeviceId, name: &str, platform: &str) -> (out: Self)
        ensures
            out.id == id,
            out.name@ == name@,
            out.platform@ == platform@,
    {
        Node { id, name: name.to_owned(), platform: platform.to_owned() }
    }

    /// Decides what a request asks for.
    pub fn route(&self, request: Request) -> (out: NodeAction)
        ensures
            match request {
                Request::Hello => out == NodeAction::Answer(
                    Response::Identity {
                        device_id: self.id,
                        name: self.name,
                        platform: self.platform,
                    },
                ),
                Request::Provision(peers) => out == NodeAction::Provision(peers),
                Request::LoadShard(spec) => out == NodeAction::Load(spec),
                Request::RegisterWorker { port } => out matches NodeAction::Answer(response)
                    && refused_with(response, "this device is not running as a master"@),
                Request::InferenceInfo => out == NodeAction::Capabilities,
            },
    {
        match request {
            Request::Hello => NodeAction::Answer(
                Response::Identity {
                    device_id: self.id,
                    name: self.name.clone(),
                    platform: self.platform.clone(),
                },
            ),
            Request::Provision(peers) => NodeAction::Provision(peers),
            Request::LoadShard(spec) => NodeAction::Load(spec),
            Request::RegisterWorker { port: _ } => NodeAction::Answer(
                Response::Refused("this device is not running as a master".to_owned()),
            ),
            Request::InferenceInfo => NodeAction::Capabilities,
        }
    }
}

/// The answer to a question about the inference engine; `None` where this
/// device has none.
pub fn capabilities_answer(caps: Option<Result<EngineCapabilities, String>>) -> (out: Response)
    ensures
        match caps {
            None => refused_with(out, "this device has no GPU inference engine"@),
            Some(Ok(caps)) => out == Response::InferenceInfo(caps),
            Some(Err(why)) => out == Response::Refused(why),
        },
{
    match caps {
        None => Response::Refused("this device has no GPU inference engine".to_owned()),
        Some(Ok(caps)) => Response::InferenceInfo(caps),
        Some(Err(why)) => Response::Refused(why),
    }
}

/// What an introduction is to a device.
pub enum Verdict {
    /// Its key is none, with what is said against it.
    Bad(Seq<char>),
    /// It is this device itself, or one that is already trusted.
    Known,
    /// It is a device to trust from now on.
    Fresh,
}

/// What an introduction is to a device with a store.
pub open spec fn verdict(store: TrustStore, own: DeviceId, introduction: Introduction) -> Verdict {
    let key = introduction.public_key@;
    match key_fault(key) {
        Some(said) => Verdict::Bad(said),
        None => if id_of(key) == own || store.record(id_of(key)) is Some {
            Verdict::Known
        } else {
            Verdict::Fresh
        },
    }
}

/// The first of some introductions, from `from` on, that is not known already.
pub open spec fn first_unknown(
    peers: Seq<Introduction>,
    store: TrustStore,
    own: DeviceId,
    from: int,
) -> int
    decreases peers.len() - from,
{
    if from >= peers.len() || !(verdict(store, own, peers[from]) is Known) {
        from
    } else {
        first_unknown(peers, store, own, from + 1)
    }
}

/// Introductions being taken, one after the other.
pub struct Provisioning {
    pub from: DeviceId,
    pub peers: Vec<Introduction>,
    pub next: usize,
    pub added: u32,
    pub already_known: u32,
}

/// What to do with introductions.
pub enum ProvisionStep {
    /// Record this device, and hear whether that worked.
    Record(PairedPeer),
    /// Answer.
    Answer(Response),
}

impl Provisioning {
    /// Every introduction before the next one was counted once.
    pub open spec fn wf(self) -> bool {
        &&& self.next <= self.peers@.len() <= u32::MAX
        &&& self.added + self.already_known == self.next
    }

    /// The introduction before the next one is being recorded, and every one
    /// before that was counted once.
    pub open spec fn records(self) -> bool {
        &&& self.next <= self.peers@.len() <= u32::MAX
        &&& self.added + self.already_known + 1 == self.next
    }

    /// Begins to take introductions, which only a paired device may give.
    ///
    /// The connection was authenticated against the trust store, so the sender
    /// is trusted. Checked anyway because the pairing endpoint accepts any peer,
    /// and requests must never be answered on that endpoint.
    pub fn begin(store: &TrustStore, from: DeviceId, peers: Vec<Introduction>) -> (out: Result<
        Self,
        Response,
    >)
        requires
            store.wf(),
            peers@.len() <= u32::MAX,
        ensures
            match out {
                Ok(begun) => {
                    &&& store.record(from) is Some
                    &&& begun.wf()
                    &&& begun.from == from
                    &&& begun.peers == peers
                    &&& begun.next == 0
                    &&& begun.added == 0
                    &&& begun.already_known == 0
                },
                Err(response) => {
                    &&& store.record(from) is None
                    &&& refused_with(response, from.shown() + " is not a paired device"@)
                },
            },
    {
        if store.get(from).is_none() {
            return Err(
                Response::Refused(join2(from.text().as_str(), " is not a paired device")),
            );
        }
        Ok(Provisioning { from, peers, next: 0, added: 0, already_known: 0 })
    }

    /// Passes over the introductions that are known already, and says what to do
    /// with the next one, or with there being none. An introduction to ourselves
    /// is a normal artefact of the master broadcasting one roster, not an error.
    pub fn advance(&mut self, store: &TrustStore, own: DeviceId, now: u64) -> (out: ProvisionStep)
        requires
            old(self).wf(),
            store.wf(),
        ensures
            advances(*old(self), *store, own, now, *final(self), out),
    {
        let ghost first = first_unknown(self.peers@, *store, own, self.next as int);
        let ghost start = self.next;
        let ghost known_before = self.already_known;
        while self.next < self.peers.len()
            invariant
                self.wf(),
                store.wf(),
                self.from == old(self).from,
                self.peers == old(self).peers,
                self.added == old(self).added,
                start == old(self).next,
                start <= self.next,
                known_before == old(self).already_known,
                self.already_known == known_before + self.next - start,
                first == first_unknown(old(self).peers@, *store, own, start as int),
                first == first_unknown(self.peers@, *store, own, self.next as int),
            decreases self.peers@.len() - self.next,
        {
            let introduction = self.peers[self.next].copy();
            let ghost key = introduction.public_key@;
            let peer = match introduction.into_peer(self.from, now) {
                Ok(peer) => peer,
                Err(error) => {
                    return ProvisionStep::Answer(Response::Refused(error.message()));
                },
            };
            if peer.device_id != own && store.get(peer.device_id).is_none() {
                self.next = self.next + 1;
                return ProvisionStep::Record(peer);
            }
            assert(verdict(*store, own, self.peers@[self.next as int]) is Known);
            self.already_known = self.already_known + 1;
            self.next = self.next + 1;
        }
        ProvisionStep::Answer(
            Response::Provisioned { added: self.added, already_known: self.already_known },
        )
    }

    /// Counts a device that was recorded, or gives the answer where it could not
    /// be.
    pub fn recorded(&mut self, result: Result<(), String>) -> (out: Option<Response>)
        requires
            old(self).records(),
        ensures
            noted(*old(self), result, *final(self), out),
    {
        match result {
            Ok(()) => {
                self.added = self.added + 1;
                None
            },
            Err(said) => Some(
                Response::Refused(
                    join2("could not record the introduction: ", said.as_str()),
                ),
            ),
        }
    }
}

/// What each device needs to hear, as keys and names: everyone the master
/// trusts, except itself.
pub open spec fn roster(target: DeviceId, all: Seq<PairedPeer>) -> Seq<Introduction>
    decreases all.len(),
{
    if all.len() == 0 {
        Seq::empty()
    } else {
        let rest = roster(target, all.drop_last());
        let peer = all.last();
        if peer.device_id != target {
            rest.push(introduction_of(peer))
        } else {
            rest
        }
    }
}

/// What each device needs to hear: everyone the master trusts, except itself.
pub fn roster_for(target: DeviceId, all: &[PairedPeer]) -> (out: Vec<Introduction>)
    ensures
        out@ == roster(target, all@),
{
    let mut out: Vec<Introduction> = Vec::new();
    for i in 0..all.len()
        invariant
            out@ == roster(target, all@.take(i as int)),
    {
        assert(all@.take(i as int + 1).drop_last() =~= all@.take(i as int));
        if all[i].device_id != target {
            out.push(Introduction::of(&all[i]));
        }
    }
    assert(all@.take(all@.len() as int) =~= all@);
    out
}

/// How many bytes a character takes in UTF-8.
pub open spec fn utf8_width(c: char) -> nat {
    let n = c as u32;
    if n < 0x80 {
        1
    } else if n < 0x800 {
        2
    } else if n < 0x1_0000 {
        3
    } else {
        4
    }
}

/// As many characters of a text as take no more than so many bytes.
pub open spec fn head_bytes(s: Seq<char>, bytes: nat) -> Seq<char>
    decreases s.len(),
{
    if s.len() == 0 || utf8_width(s[0]) > bytes {
        Seq::empty()
    } else {
        seq![s[0]] + head_bytes(s.drop_first(), (bytes - utf8_width(s[0])) as nat)
    }
}

/// Whether a text can be cut after so many bytes: a character ends there.
pub open spec fn cuts_at(s: Seq<char>, bytes: nat) -> bool {
    utf8_len(head_bytes(s, bytes)) == bytes
}

/// How many bytes a text takes in UTF-8.
pub open spec fn utf8_len(s: Seq<char>) -> nat
    decreases s.len(),
{
    if s.len() == 0 {
        0
    } else {
        utf8_width(s[0]) + utf8_len(s.drop_first())
    }
}

fn head(text: &str, bytes: usize) -> (out: String)
    ensures
        out@ == head_bytes(text@, bytes as nat),
{
    let chars = chars_of(text);
    let mut out = String::new();
    let mut left: usize = bytes;
    let mut i: usize = 0;
    assert(chars@.skip(0) =~= chars@);
    assert(out@ + head_bytes(chars@, bytes as nat) =~= head_bytes(chars@, bytes as nat));
    while i < chars.len()
        invariant
            i <= chars@.len(),
            chars@ == text@,
            out@ + head_bytes(chars@.skip(i as int), left as nat) == head_bytes(
                text@,
                bytes as nat,
            ),
        decreases chars@.len() - i,
    {
        let c = chars[i];
        let n: u32 = c as u32;
        let width: usize = if n < 0x80 {
            1
        } else if n < 0x800 {
            2
        } else if n < 0x1_0000 {
            3
        } else {
            4
        };
        let ghost rest = chars@.skip(i as int);
        assert(rest[0] == c);
        if width > left {
            assert(out@ + Seq::<char>::empty() =~= out@);
            return out;
        }
        let ghost before = out@;
        out.push(c);
        proof {
            assert(rest.drop_first() =~= chars@.skip(i as int + 1));
            let tail = head_bytes(rest.drop_first(), (left - width) as nat);
            assert(before + (seq![c] + tail) =~= before.push(c) + tail);
        }
        left = left - width;
        i = i + 1;
    }
    assert(chars@.skip(i as int).len() == 0);
    assert(out@ + Seq::<char>::empty() =~= out@);
    out
}

/// Judges whether this device holds the model that is asked for; `None` where
/// it does. Content addressing is the whole point of the hash: a master and a
/// follower silently running different weights would show up as nonsense
/// output, not as an error.
pub fn check_model(model: Option<Result<String, String>>, wanted: &str) -> (out: Option<Response>)
    requires
        model matches Some(Ok(hash)) ==> hash@ == wanted@ || {
            &&& cuts_at(hash@, 16)
            &&& cuts_at(wanted@, 16) || utf8_len(wanted@) < 16
        },
    ensures
        match model {
            None => out matches Some(response) && refused_with(
                response,
                "this device has no model to serve"@,
            ),
            Some(Ok(hash)) => if hash@ == wanted@ {
                out is None
            } else {
                out matches Some(response) && refused_with(
                    response,
                    "this device holds "@ + head_bytes(hash@, 16) + ", not "@ + head_bytes(
                        wanted@,
                        16,
                    ),
                )
            },
            Some(Err(said)) => out matches Some(response) && refused_with(
                response,
                "could not hash the model: "@ + said@,
            ),
        },
{
    match model {
        None => Some(Response::Refused("this device has no model to serve".to_owned())),
        Some(Ok(hash)) => {
            if same(hash.as_str(), wanted) {
                return None;
            }
            let mut said = join3("this device holds ", head(hash.as_str(), 16).as_str(), ", not ");
            said.append(head(wanted, 16).as_str());
            Some(Response::Refused(said))
        },
        Some(Err(said)) => Some(
            Response::Refused(join2("could not hash the model: ", said.as_str())),
        ),
    }
}

/// What became of handing a load to the thread that owns the accelerator.
pub enum LoadReply {
    /// The shard was opened: the bytes of its weights and of its KV cache.
    Opened { weight_bytes: u64, kv_bytes: u64 },
    /// The engine refused it.
    Refused(String),
    /// The thread takes no more work.
    Gone,
    /// The thread went away while loading.
    Died,
}

/// The answer to a load request.
pub fn load_answer(reply: LoadReply) -> (out: Response)
    ensures
        match reply {
            LoadReply::Opened { weight_bytes, kv_bytes } => out == (Response::ShardLoaded {
                weight_bytes,
                kv_bytes,
            }),
            LoadReply::Refused(said) => refused_with(
                out,
                "could not load the shard: "@ + said@,
            ),
            LoadReply::Gone => refused_with(out, "the shard thread is gone"@),
            LoadReply::Died => refused_with(out, "the shard thread died loading"@),
        },
{
    match reply {
        LoadReply::Opened { weight_bytes, kv_bytes } => Response::ShardLoaded {
            weight_bytes,
            kv_bytes,
        },
        LoadReply::Refused(said) => Response::Refused(
            join2("could not load the shard: ", said.as_str()),
        ),
        LoadReply::Gone => Response::Refused("the shard thread is gone".to_owned()),
        LoadReply::Died => Response::Refused("the shard thread died loading".to_owned()),
    }
}

/// A step that a shard runs.
pub enum ShardCall {
    Prefill { pos: u32, input: Payload },
    Decode { pos: u32, input: Payload },
}

/// What to run for a step; `held` says whether this device holds any layers.
pub fn plan_step(held: bool, step: Step) -> (out: Result<ShardCall, String>)
    ensures
        if !held {
            out matches Err(said) && said@ == "this device has been given no layers"@
        } else {
            match step {
                Step::Prefill { pos, input } => out == Ok::<ShardCall, String>(
                    ShardCall::Prefill { pos, input },
                ),
                Step::Decode { pos, input } => out == Ok::<ShardCall, String>(
                    ShardCall::Decode { pos, input },
                ),
                Step::Done => out matches Err(said) && said@
                    == "Done is handled by the stream, not the shard"@,
            }
        },
{
    if !held {
        return Err("this device has been given no layers".to_owned());
    }
    match step {
        Step::Prefill { pos, input } => Ok(ShardCall::Prefill { pos, input }),
        Step::Decode { pos, input } => Ok(ShardCall::Decode { pos, input }),
        Step::Done => Err("Done is handled by the stream, not the shard".to_owned()),
    }
}

/// A device hears of everyone that the master trusts and never of itself.
pub proof fn law_roster_leaves_out_the_target(target: DeviceId, all: Seq<PairedPeer>)
    requires
        forall|i: int|
            0 <= i < all.len() ==> (#[trigger] all[i]).device_id == id_of(all[i].public_key@),
    ensures
        forall|i: int|
            0 <= i < roster(target, all).len() ==> id_of(
                (#[trigger] roster(target, all)[i]).public_key@,
            ) != target,
        forall|i: int|
            0 <= i < all.len() && (#[trigger] all[i]).device_id != target ==> exists|j: int|
                0 <= j < roster(target, all).len() && (#[trigger] roster(target, all)[j]).public_key
                    == all[i].public_key.bytes,
    decreases all.len(),
{
    if all.len() > 0 {
        let init = all.drop_last();
        assert forall|i: int| 0 <= i < init.len() implies (#[trigger] init[i]).device_id == id_of(
            init[i].public_key@,
        ) by {
            assert(init[i] == all[i]);
        }
        law_roster_leaves_out_the_target(target, init);
        let rest = roster(target, init);
        let full = roster(target, all);
        assert(all[all.len() - 1].device_id == id_of(all.last().public_key@));
        assert forall|i: int| 0 <= i < full.len() implies id_of((#[trigger] full[i]).public_key@)
            != target by {
            if i < rest.len() {
                assert(full[i] == rest[i]);
            }
        }
        assert forall|i: int|
            0 <= i < all.len() && (#[trigger] all[i]).device_id != target implies exists|j: int|
            0 <= j < full.len() && (#[trigger] full[j]).public_key == all[i].public_key.bytes by {
            if i < init.len() {
                assert(init[i] == all[i]);
                let j = choose|j: int|
                    0 <= j < rest.len() && (#[trigger] rest[j]).public_key
                        == init[i].public_key.bytes;
                assert(full[j] == rest[j]);
            } else {
                assert(full[full.len() - 1].public_key == all[i].public_key.bytes);
            }
        }
    }
}

/// Whether the first `n` of some introductions are of this device itself or of
/// devices that it trusts.
pub open spec fn settled(peers: Seq<Introduction>, store: TrustStore, own: DeviceId, n: int) -> bool {
    forall|i: int| 0 <= i < n ==> verdict(store, own, #[trigger] peers[i]) is Known
}

/// Passing over what is known settles it.
pub proof fn lemma_passing_settles(
    peers: Seq<Introduction>,
    store: TrustStore,
    own: DeviceId,
    from: int,
)
    requires
        0 <= from <= peers.len(),
        settled(peers, store, own, from),
    ensures
        from <= first_unknown(peers, store, own, from) <= peers.len(),
        settled(peers, store, own, first_unknown(peers, store, own, from)),
    decreases peers.len() - from,
{
    if from < peers.len() && verdict(store, own, peers[from]) is Known {
        lemma_passing_settles(peers, store, own, from + 1);
    }
}

/// Introductions end in trust: each record that is asked for settles one
/// introduction more and unsettles none, and where none is left to record, every
/// introduced device is trusted or is this one.
pub proof fn law_introductions_end_in_trust(
    peers: Seq<Introduction>,
    before: TrustStore,
    after: TrustStore,
    own: DeviceId,
    from: int,
    recorded: PairedPeer,
)
    requires
        0 <= from <= peers.len(),
        settled(peers, before, own, from),
        // The record that `advance` asks for was inserted.
        ({
            let at = first_unknown(peers, before, own, from);
            at < peers.len() ==> {
                &&& verdict(before, own, peers[at]) is Fresh
                &&& recorded.device_id == id_of(peers[at].public_key@)
                &&& after.record(recorded.device_id) == Some(recorded)
                &&& forall|id: DeviceId|
                    id != recorded.device_id ==> #[trigger] after.record(id) == before.record(id)
            }
        }),
    ensures
        ({
            let at = first_unknown(peers, before, own, from);
            if at < peers.len() {
                settled(peers, after, own, at + 1)
            } else {
                settled(peers, before, own, peers.len() as int)
            }
        }),
{
    lemma_passing_settles(peers, before, own, from);
    let at = first_unknown(peers, before, own, from);
    if at < peers.len() {
        assert forall|i: int| 0 <= i < at + 1 implies verdict(
            after,
            own,
            #[trigger] peers[i],
        ) is Known by {
            if i < at {
                assert(verdict(before, own, peers[i]) is Known);
                let id = id_of(peers[i].public_key@);
                if id != recorded.device_id {
                    assert(after.record(id) == before.record(id));
                }
            }
        }
    }
}

/// Whether a run of introductions goes on by one record: `advance` asks for
/// `peer`, it is inserted into the store, and `recorded` counts it.
pub open spec fn goes_on(
    own: DeviceId,
    now: u64,
    peer: PairedPeer,
    before: TrustStore,
    after: TrustStore,
    from: Provisioning,
    to: Provisioning,
) -> bool {
    let at = first_unknown(from.peers@, before, own, from.next as int);
    &&& at < from.peers@.len()
    &&& verdict(before, own, from.peers@[at]) is Fresh
    &&& introduced_as(from.peers@[at], from.from, now, peer)
    &&& after.record(peer.device_id) == Some(peer)
    &&& forall|id: DeviceId|
        id != peer.device_id ==> #[trigger] after.record(id) == before.record(id)
    &&& to.from == from.from
    &&& to.peers == from.peers
    &&& to.next == at + 1
    &&& to.added == from.added + 1
    &&& to.already_known == from.already_known + at - from.next
}

/// A run of introductions: the store and the state before each record and after
/// the last, and the records with their times.
pub struct Run {
    pub own: DeviceId,
    pub stores: Seq<TrustStore>,
    pub states: Seq<Provisioning>,
    pub records: Seq<PairedPeer>,
    pub times: Seq<u64>,
}

impl Run {
    /// The run goes on by its record at `i`.
    pub open spec fn takes(self, i: int) -> bool {
        goes_on(
            self.own,
            self.times[i],
            self.records[i],
            self.stores[i],
            self.stores[i + 1],
            self.states[i],
            self.states[i + 1],
        )
    }

    /// The run begins as `begin` does, and goes on by each of its records.
    pub open spec fn valid(self) -> bool {
        &&& self.stores.len() == self.records.len() + 1
        &&& self.states.len() == self.records.len() + 1
        &&& self.times.len() == self.records.len()
        &&& self.stores[0].record(self.states[0].from) is Some
        &&& self.states[0].wf()
        &&& self.states[0].next == 0
        &&& forall|i: int| 0 <= i < self.records.len() ==> #[trigger] self.takes(i)
    }

    /// The introductions.
    pub open spec fn peers(self) -> Seq<Introduction> {
        self.states[0].peers@
    }

    /// The run is answered that it is done: no introduction is left that is not
    /// known.
    pub open spec fn done(self) -> bool {
        first_unknown(self.peers(), self.stores.last(), self.own, self.states.last().next as int)
            == self.peers().len()
    }

    /// The number of devices that the answer calls known already.
    pub open spec fn known(self) -> int {
        self.states.last().already_known + self.peers().len() - self.states.last().next
    }
}

/// What holds after the first `n` records of a run.
proof fn lemma_run(run: Run, n: int)
    requires
        run.valid(),
        0 <= n <= run.records.len(),
    ensures
        run.states[n].peers == run.states[0].peers,
        run.states[n].from == run.states[0].from,
        run.states[n].wf(),
        run.states[n].added == n,
        settled(run.peers(), run.stores[n], run.own, run.states[n].next as int),
        forall|i: int|
            0 <= i < n ==> {
                &&& (#[trigger] run.records[i]).introduced_by == Some(run.states[0].from)
                &&& run.records[i].device_id != run.own
                &&& run.stores[0].record(run.records[i].device_id) is None
                &&& run.stores[n].record(run.records[i].device_id) == Some(run.records[i])
            },
        forall|i: int, j: int|
            0 <= i < j < n ==> (#[trigger] run.records[i]).device_id != (
            #[trigger] run.records[j]).device_id,
        forall|id: DeviceId|
            (forall|i: int| 0 <= i < n ==> (#[trigger] run.records[i]).device_id != id)
                ==> #[trigger] run.stores[n].record(id) == run.stores[0].record(id),
    decreases n,
{
    if n > 0 {
        lemma_run(run, n - 1);
        assert(run.takes(n - 1));
        let before = run.stores[n - 1];
        let after = run.stores[n];
        let peer = run.records[n - 1];
        let from = run.states[n - 1];
        let at = first_unknown(from.peers@, before, run.own, from.next as int);
        lemma_passing_settles(from.peers@, before, run.own, from.next as int);
        law_introductions_end_in_trust(
            from.peers@,
            before,
            after,
            run.own,
            from.next as int,
            peer,
        );
        assert(before.record(peer.device_id) is None);
        assert forall|i: int| 0 <= i < n - 1 implies (#[trigger] run.records[i]).device_id
            != peer.device_id by {
            assert(before.record(run.records[i].device_id) == Some(run.records[i]));
        }
        assert(before.record(peer.device_id) == run.stores[0].record(peer.device_id));
        assert forall|i: int| 0 <= i < n implies {
            &&& (#[trigger] run.records[i]).introduced_by == Some(run.states[0].from)
            &&& run.records[i].device_id != run.own
            &&& run.stores[0].record(run.records[i].device_id) is None
            &&& after.record(run.records[i].device_id) == Some(run.records[i])
        } by {
            if i < n - 1 {
                assert(after.record(run.records[i].device_id) == before.record(
                    run.records[i].device_id,
                ));
            }
        }
        assert forall|id: DeviceId|
            (forall|i: int| 0 <= i < n ==> (#[trigger] run.records[i]).device_id
                != id) implies #[trigger] after.record(id) == run.stores[0].record(id) by {
            assert(run.records[n - 1].device_id != id);
            assert(before.record(id) == run.stores[0].record(id));
        }
    }
}

/// Where every introduction is settled, none is left to record.
proof fn lemma_settled_is_passed(
    peers: Seq<Introduction>,
    store: TrustStore,
    own: DeviceId,
    from: int,
)
    requires
        0 <= from <= peers.len(),
        settled(peers, store, own, peers.len() as int),
    ensures
        first_unknown(peers, store, own, from) == peers.len(),
    decreases peers.len() - from,
{
    if from < peers.len() {
        assert(verdict(store, own, peers[from]) is Known);
        lemma_settled_is_passed(peers, store, own, from + 1);
    }
}

/// A run of introductions that is done counts every introduction once, as added
/// or as known already. The store is then the one before with exactly the added
/// records, each vouched for by the sender, none of them of this device; no
/// record that was there is changed. The same introductions once more, from the
/// same sender, add nothing.
pub proof fn law_run_of_introductions(run: Run)
    requires
        run.valid(),
        run.done(),
    ensures
        run.states.last().added == run.records.len(),
        run.states.last().added + run.known() == run.peers().len(),
        forall|i: int|
            0 <= i < run.records.len() ==> {
                &&& (#[trigger] run.records[i]).introduced_by == Some(run.states[0].from)
                &&& run.records[i].device_id != run.own
                &&& run.stores[0].record(run.records[i].device_id) is None
                &&& run.stores.last().record(run.records[i].device_id) == Some(run.records[i])
            },
        forall|i: int, j: int|
            0 <= i < j < run.records.len() ==> (#[trigger] run.records[i]).device_id != (
            #[trigger] run.records[j]).device_id,
        forall|id: DeviceId|
            (forall|i: int|
                0 <= i < run.records.len() ==> (#[trigger] run.records[i]).device_id != id)
                ==> #[trigger] run.stores.last().record(id) == run.stores[0].record(id),
        forall|id: DeviceId|
            run.stores[0].record(id) is Some ==> #[trigger] run.stores.last().record(id)
                == run.stores[0].record(id),
        run.stores.last().record(run.own) == run.stores[0].record(run.own),
        // The repeat: the sender is still a paired device, and nothing is left.
        run.stores.last().record(run.states[0].from) is Some,
        first_unknown(run.peers(), run.stores.last(), run.own, 0) == run.peers().len(),
{
    let n = run.records.len() as int;
    lemma_run(run, n);
    let store = run.stores.last();
    lemma_passing_settles(run.peers(), store, run.own, run.states.last().next as int);
    lemma_settled_is_passed(run.peers(), store, run.own, 0);
    assert forall|id: DeviceId| run.stores[0].record(id) is Some implies #[trigger] store.record(id)
        == run.stores[0].record(id) by {
        assert forall|i: int| 0 <= i < n implies (#[trigger] run.records[i]).device_id != id by {}
    }
    assert(store.record(run.own) == run.stores[0].record(run.own));
}

/// A device is introduced to a peer exactly where it is another than the peer, and in
/// the order of the records; each introduction carries the key, name and platform of
/// its record.
pub proof fn law_roster_is_everyone_else(target: DeviceId, all: Seq<PairedPeer>)
    ensures
        ({
            let others = all.filter(|p: PairedPeer| p.device_id != target);
            &&& roster(target, all).len() == others.len()
            &&& forall|i: int|
                0 <= i < others.len() ==> {
                    &&& (#[trigger] roster(target, all)[i]).public_key@ == others[i].public_key@
                    &&& roster(target, all)[i].name@ == others[i].name@
                    &&& roster(target, all)[i].platform@ == others[i].platform@
                }
        }),
    decreases all.len(),
{
    reveal(Seq::filter);
    if all.len() > 0 {
        law_roster_is_everyone_else(target, all.drop_last());
        let others = all.filter(|p: PairedPeer| p.device_id != target);
        let fewer = all.drop_last().filter(|p: PairedPeer| p.device_id != target);
        if all.last().device_id != target {
            assert(others =~= fewer.push(all.last()));
        } else {
            assert(others =~= fewer);
        }
    }
}

/// An introduction is refused exactly where its key is none, is nothing new exactly
/// where it is this device's or one of a device on record, and is of a device to trust
/// in every other case.
pub proof fn law_what_becomes_of_an_introduction(
    store: TrustStore,
    own: DeviceId,
    introduction: Introduction,
)
    ensures
        ({
            let key = introduction.public_key@;
            let v = verdict(store, own, introduction);
            &&& v is Bad <==> key_fault(key) is Some
            &&& v matches Verdict::Bad(said) ==> key_fault(key) == Some(said)
            &&& v is Known <==> key_fault(key) is None && (id_of(key) == own || store.record(
                id_of(key),
            ) is Some)
            &&& v is Fresh <==> key_fault(key) is None && id_of(key) != own && store.record(
                id_of(key),
            ) is None
        }),
{
}

/// The introduction looked at next is the first, from where the last ended, that is not
/// of a device already known.
pub proof fn law_known_introductions_are_passed_over(
    peers: Seq<Introduction>,
    store: TrustStore,
    own: DeviceId,
    from: int,
)
    requires
        0 <= from <= peers.len(),
    ensures
        ({
            let at = first_unknown(peers, store, own, from);
            &&& from <= at <= peers.len()
            &&& forall|i: int| from <= i < at ==> verdict(store, own, #[trigger] peers[i]) is Known
            &&& at < peers.len() ==> !(verdict(store, own, peers[at]) is Known)
        }),
    decreases peers.len() - from,
{
    if from < peers.len() && verdict(store, own, peers[from]) is Known {
        law_known_introductions_are_passed_over(peers, store, own, from + 1);
    }
}

/// The beginning of a text of so many bytes is as much of it as fits them, and no more
/// characters would: its characters take one byte below 128, two below 2048, three
/// below 65536, and four above.
pub proof fn law_beginning_is_what_fits(s: Seq<char>, bytes: nat, c: char)
    ensures
        head_bytes(s, bytes).is_prefix_of(s),
        utf8_len(head_bytes(s, bytes)) <= bytes,
        head_bytes(s, bytes).len() < s.len() ==> utf8_len(
            s.take(head_bytes(s, bytes).len() as int + 1),
        ) > bytes,
        utf8_len(seq![c]) == if c as u32 <= 0x7f {
            1nat
        } else if c as u32 <= 0x7ff {
            2nat
        } else if c as u32 <= 0xffff {
            3nat
        } else {
            4nat
        },
    decreases s.len(),
{
    let one = seq![c];
    assert(one.drop_first() =~= Seq::<char>::empty());
    assert(utf8_len(Seq::<char>::empty()) == 0);
    let head = head_bytes(s, bytes);
    if s.len() > 0 {
        if utf8_width(s[0]) > bytes {
            let first = s.take(1);
            assert(first.drop_first() =~= Seq::<char>::empty());
            assert(first[0] == s[0]);
        } else {
            let rest = s.drop_first();
            let less = (bytes - utf8_width(s[0])) as nat;
            law_beginning_is_what_fits(rest, less, c);
            let tail = head_bytes(rest, less);
            assert(head.drop_first() =~= tail);
            assert(head =~= s.take(head.len() as int)) by {
                assert(tail =~= rest.take(tail.len() as int));
            }
            if head.len() < s.len() {
                let longer = s.take(head.len() as int + 1);
                assert(longer.drop_first() =~= rest.take(tail.len() as int + 1));
                assert(longer[0] == s[0]);
            }
        }
    }
}

/// Whether a step is the one that provisioning takes next, and the state what it is
/// then: the first introduction from here on that is not of a known device is to be
/// recorded or refused, and without one the introductions are answered.
pub open spec fn advances(
    before: Provisioning,
    store: TrustStore,
    own: DeviceId,
    now: u64,
    after: Provisioning,
    out: ProvisionStep,
) -> bool {
    let at = first_unknown(before.peers@, store, own, before.next as int);
    &&& after.from == before.from
    &&& after.peers == before.peers
    &&& after.added == before.added
    &&& before.next <= at <= before.peers@.len()
    &&& after.already_known == before.already_known + at - before.next
    &&& if at == before.peers@.len() {
        &&& after.wf()
        &&& after.next == at
        &&& out == ProvisionStep::Answer(
            Response::Provisioned { added: before.added, already_known: after.already_known },
        )
    } else {
        let introduction = before.peers@[at];
        match verdict(store, own, introduction) {
            Verdict::Bad(said) => {
                &&& after.wf()
                &&& after.next == at
                &&& out matches ProvisionStep::Answer(response)
                &&& refused_with(response, "certificate: "@ + unusable_shown(said))
            },
            _ => {
                &&& after.records()
                &&& after.next == at + 1
                &&& out matches ProvisionStep::Record(peer)
                &&& introduced_as(introduction, before.from, now, peer)
                &&& peer.device_id != own
                &&& store.record(peer.device_id) is None
            },
        }
    }
}

/// Whether provisioning took note of whether a record was kept.
pub open spec fn noted(
    before: Provisioning,
    result: Result<(), String>,
    after: Provisioning,
    out: Option<Response>,
) -> bool {
    &&& after.from == before.from
    &&& after.peers == before.peers
    &&& after.next == before.next
    &&& after.already_known == before.already_known
    &&& match result {
        Ok(()) => {
            &&& out is None
            &&& after.added == before.added + 1
            &&& after.wf()
        },
        Err(said) => {
            &&& after.added == before.added
            &&& out matches Some(response)
            &&& refused_with(response, "could not record the introduction: "@ + said@)
        },
    }
}

/// A step that asks for a record, and the record kept, take provisioning on as a run
/// does; and what is answered in the end counts every introduction, as added or as
/// already known.
pub proof fn law_steps_make_a_run(
    before: Provisioning,
    store: TrustStore,
    own: DeviceId,
    now: u64,
    asked: Provisioning,
    out: ProvisionStep,
    kept: TrustStore,
    after: Provisioning,
    answer: Option<Response>,
)
    requires
        before.wf(),
        advances(before, store, own, now, asked, out),
        noted(asked, Ok::<(), String>(()), after, answer),
        out matches ProvisionStep::Record(peer) ==> {
            &&& kept.record(peer.device_id) == Some(peer)
            &&& forall|id: DeviceId|
                id != peer.device_id ==> #[trigger] kept.record(id) == store.record(id)
        },
    ensures
        out matches ProvisionStep::Record(peer) ==> goes_on(
            own,
            now,
            peer,
            store,
            kept,
            before,
            after,
        ) && answer is None,
        out matches ProvisionStep::Answer(
            Response::Provisioned { added, already_known },
        ) ==> added == before.added && added + already_known == before.peers@.len(),
{
    law_known_introductions_are_passed_over(before.peers@, store, own, before.next as int);
}

}
