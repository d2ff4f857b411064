//! The control plane: small request/response exchanges between devices.
//!
//! Each exchange gets its own stream rather than sharing one long-lived
//! channel. A shared channel would put independent messages behind each other
//! and leave both sides able to send a request at the same time with no way to
//! tell the replies apart.

use vstd::prelude::*;

use crate::engine::abi::ShardSpec;
use crate::net::error::Error;
use crate::net::identity::{id_of, key_fault, DeviceId, PublicKey};
use crate::net::trust::PairedPeer;
use crate::text::{join2, same};

verus! {

/// Generous for a handful of introductions, far below anything worth
/// allocating blindly for.
pub const MAX_CONTROL_FRAME: usize = 0x1_0000;

/// What one device asks of another.
#[derive(Clone, Debug, PartialEq, Eq)]
pub enum Request {
    /// Liveness plus identity. Costs one round trip and nothing else.
    Hello,
    /// A device the user already trusts, handing over the keys of the others
    /// so they can talk to each other directly.
    Provision(Vec<Introduction>),
    /// Hold this layer range for whoever is asking. Sent before any activation
    /// stream opens, because a follower cannot execute what it has not loaded.
    LoadShard(ShardSpec),
    RegisterWorker { port: u16 },
    InferenceInfo,
}

/// What the other device answers.
#[derive(Clone, Debug, PartialEq, Eq)]
pub enum Response {
    Identity { device_id: DeviceId, name: String, platform: String },
    Provisioned { added: u32, already_known: u32 },
    ShardLoaded {
        /// What the shard holds resident, so the master can check its plan
        /// against what actually happened rather than what it predicted.
        weight_bytes: u64,
        kv_bytes: u64,
    },
    /// The peer understood the request and declined it.
    Refused(String),
    WorkerRegistered,
    InferenceInfo(EngineCapabilities),
}

/// Whether a response declines with these words.
pub open spec fn refused_with(response: Response, said: Seq<char>) -> bool {
    response matches Response::Refused(why) && why@ == said
}

/// One device's identity as vouched for by another.
#[derive(Clone, Debug, PartialEq, Eq)]
pub struct Introduction {
    pub public_key: [u8; 32],
    pub name: String,
    pub platform: String,
}

impl Introduction {
    /// What a device says of one that it trusts.
    pub fn of(peer: &PairedPeer) -> (out: Self)
        ensures
            out == introduction_of(*peer),
    {
        Introduction {
            public_key: peer.public_key.bytes,
            name: peer.name.clone(),
            platform: peer.platform.clone(),
        }
    }

    /// A copy of the introduction.
    pub fn copy(&self) -> (out: Self)
        ensures
            out == *self,
    {
        Introduction {
            public_key: self.public_key,
            name: self.name.clone(),
            platform: self.platform.clone(),
        }
    }

    /// The record of a device that another one vouched for.
    ///
    /// A key that is not a valid Ed25519 point is refused. This is a sanity
    /// check, not a defence: most 32-byte strings decode to *some* point, so
    /// what actually stops a forged introduction is that whoever holds the
    /// forged key cannot complete the TLS handshake with it.
    pub fn into_peer(self, introduced_by: DeviceId, paired_at: u64) -> (out: Result<
        PairedPeer,
        Error,
    >)
        ensures
            match key_fault(self.public_key@) {
                None => out matches Ok(peer) && introduced_as(self, introduced_by, paired_at, peer),
                Some(said) => out matches Err(Error::Certificate(s)) && s@ == unusable_shown(said),
            },
    {
        match PublicKey::from_bytes(&self.public_key) {
            Ok(key) => Ok(
                PairedPeer::introduced(key, self.name, self.platform, introduced_by, paired_at),
            ),
            Err(said) => Err(
                Error::Certificate(join2("introduced key is unusable: ", said.as_str())),
            ),
        }
    }
}

/// What a device says of one that it trusts.
pub open spec fn introduction_of(peer: PairedPeer) -> Introduction {
    Introduction {
        public_key: peer.public_key.bytes,
        name: peer.name,
        platform: peer.platform,
    }
}

/// Whether a record is the one that an introduction leads to.
pub open spec fn introduced_as(
    introduction: Introduction,
    by: DeviceId,
    at: u64,
    peer: PairedPeer,
) -> bool {
    &&& peer.public_key@ == introduction.public_key@
    &&& peer.public_key.wf()
    &&& peer.device_id == id_of(introduction.public_key@)
    &&& peer.name == introduction.name
    &&& peer.platform == introduction.platform
    &&& peer.paired_at == at
    &&& peer.introduced_by == Some(by)
}

/// What is said of an introduction whose key is none.
pub open spec fn unusable_shown(said: Seq<char>) -> Seq<char> {
    "introduced key is unusable: "@ + said
}

/// An introduction hands a device on as it was: its record on the other side
/// has the same key, id, name and platform, and says who vouched for it.
pub proof fn law_introduction_keeps_the_device(
    original: PairedPeer,
    introduced: PairedPeer,
    by: DeviceId,
    at: u64,
)
    requires
        original.device_id == id_of(original.public_key@),
        introduced_as(introduction_of(original), by, at, introduced),
    ensures
        introduced.device_id == original.device_id,
        introduced.public_key@ == original.public_key@,
        introduced.name == original.name,
        introduced.platform == original.platform,
        introduced.introduced_by == Some(by),
{
}

/// Answers control requests for one device.
pub trait ControlHandler {
    /// Whether a response is one that the handler gives.
    spec fn answers(&self, from: DeviceId, request: Request, response: Response) -> bool;

    fn handle(&self, from: DeviceId, request: Request) -> (out: Response)
        ensures
            self.answers(from, request, out),
    ;
}

/// Declines every control request. For peers this device serves data to but
/// takes no instructions from.
#[derive(Debug)]
pub struct RefuseControl;

impl ControlHandler for RefuseControl {
    open spec fn answers(&self, from: DeviceId, request: Request, response: Response) -> bool {
        refused_with(response, "this device takes no control requests"@)
    }

    fn handle(&self, from: DeviceId, request: Request) -> (out: Response) {
        Response::Refused("this device takes no control requests".to_owned())
    }
}

/// The answer to a request that cannot be read. A peer gets told so rather
/// than left hanging.
pub fn unintelligible(said: &str) -> (out: Response)
    ensures
        refused_with(out, "unintelligible request: "@ + said@),
{
    Response::Refused(join2("unintelligible request: ", said))
}

/// A device that a worker computes on, as its engine describes it.
#[derive(Clone, Debug, PartialEq, Eq)]
pub struct GpuDevice {
    pub name: String,
    pub description: String,
    pub kind: String,
    pub total_memory: u64,
    pub free_memory: u64,
}

impl GpuDevice {
    /// Whether the device is a GPU, discrete or integrated.
    pub open spec fn is_gpu_kind(self) -> bool {
        self.kind@ == "gpu"@ || self.kind@ == "igpu"@
    }

    /// Whether the device is a GPU, discrete or integrated.
    pub fn is_gpu(&self) -> (out: bool)
        ensures
            out == self.is_gpu_kind(),
    {
        same(self.kind.as_str(), "gpu") || same(self.kind.as_str(), "igpu")
    }

    /// A copy of the description.
    pub fn copy(&self) -> (out: Self)
        ensures
            out == *self,
    {
        GpuDevice {
            name: self.name.clone(),
            description: self.description.clone(),
            kind: self.kind.clone(),
            total_memory: self.total_memory,
            free_memory: self.free_memory,
        }
    }
}

/// What a worker can do for a master.
#[derive(Clone, Debug, PartialEq, Eq)]
pub struct EngineCapabilities {
    pub revision: String,
    pub device: GpuDevice,
    pub busy: bool,
}

/// An introduction passes on a device's key, name and platform, and whoever takes it
/// records that device: its id is the key's, with who vouched for it and when.
pub proof fn law_introduction_carries_the_record(
    peer: PairedPeer,
    by: DeviceId,
    at: u64,
    taken: PairedPeer,
)
    requires
        introduced_as(introduction_of(peer), by, at, taken),
    ensures
        introduction_of(peer).public_key@ == peer.public_key@,
        introduction_of(peer).name@ == peer.name@,
        introduction_of(peer).platform@ == peer.platform@,
        taken.public_key@ == peer.public_key@,
        taken.name@ == peer.name@,
        taken.platform@ == peer.platform@,
        taken.device_id == id_of(peer.public_key@),
        taken.paired_at == at,
        taken.introduced_by == Some(by),
        key_fault(peer.public_key@) is None,
{
}

/// A device is a GPU where its kind is `gpu` or `igpu`, and nothing else is one.
pub proof fn law_what_is_a_gpu(device: GpuDevice)
    ensures
        device.is_gpu_kind() <==> seq!["gpu"@, "igpu"@].contains(device.kind@),
{
    let kinds = seq!["gpu"@, "igpu"@];
    if device.is_gpu_kind() {
        assert(kinds[0] == device.kind@ || kinds[1] == device.kind@);
    }
}

/// A control frame is at most 64 KiB.
pub proof fn law_control_frames_are_small()
    ensures
        MAX_CONTROL_FRAME == 64 * 1024,
{
}

/// A refusal says just what is said.
pub proof fn law_refusals_say_what_is_said(why: String, said: Seq<char>)
    ensures
        refused_with(Response::Refused(why), said) <==> why@ == said,
        !refused_with(Response::WorkerRegistered, said),
{
}

}
