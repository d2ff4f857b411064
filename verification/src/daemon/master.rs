//! The master: who joined, and what each of them has to hear.

use vstd::prelude::*;

use crate::daemon::node::{law_roster_is_everyone_else, roster, roster_for};
use crate::daemon::startup::{MasterOptions, MASTER_BUSY};
use crate::net::control::{refused_with, Introduction, Request, Response};
use crate::net::identity::DeviceId;
use crate::net::roster::{law_a_device_has_its_entry, lemma_entry_at, Roster};
use crate::net::trust::PairedPeer;

verus! {

/// How many workers may be waiting to be taken.
pub const JOIN_QUEUE: usize = 32;

/// How many bytes a new worker's link is probed with.
pub const JOIN_PROBE_BYTES: usize = 0x10_0000;

/// Refuses to serve and to pair on one port.
pub fn check_ports(options: &MasterOptions) -> (out: Result<(), String>)
    ensures
        out is Ok <==> options.common.port != options.pairing_port,
        out matches Err(said) ==> said@ == "--port and --pairing-port must differ"@,
{
    if options.common.port == options.pairing_port {
        Err("--port and --pairing-port must differ".to_owned())
    } else {
        Ok(())
    }
}

/// What a control request asks of a master.
pub enum MasterAction {
    /// Queue the worker that listens on this port, and hear whether there was
    /// room.
    Join { port: u16 },
    /// Send this answer.
    Answer(Response),
    /// Answer as any device would.
    AsNode(Request),
}

/// Decides what a control request asks of a master.
pub fn route(request: Request) -> (out: MasterAction)
    ensures
        match request {
            Request::RegisterWorker { port } => if port != 0 {
                out == (MasterAction::Join { port })
            } else {
                out matches MasterAction::Answer(response) && refused_with(
                    response,
                    "worker port must be nonzero"@,
                )
            },
            other => out == MasterAction::AsNode(other),
        },
{
    match request {
        Request::RegisterWorker { port } => if port != 0 {
            MasterAction::Join { port }
        } else {
            MasterAction::Answer(Response::Refused("worker port must be nonzero".to_owned()))
        },
        other => MasterAction::AsNode(other),
    }
}

/// The answer to a worker that was, or could not be, queued.
pub fn join_answer(queued: bool) -> (out: Response)
    ensures
        if queued {
            out == Response::WorkerRegistered
        } else {
            refused_with(out, MASTER_BUSY@)
        },
{
    if queued {
        Response::WorkerRegistered
    } else {
        Response::Refused(MASTER_BUSY.to_owned())
    }
}

/// The connection of each worker, by the number its owner knows it by.
pub struct Workers {
    pub live: Roster<u64>,
}

/// What to tell one worker.
pub struct Notice {
    pub to: DeviceId,
    pub handle: u64,
    pub roster: Vec<Introduction>,
}

impl Workers {
    /// The registry is in order.
    pub open spec fn wf(self) -> bool {
        self.live.wf()
    }

    /// None yet.
    pub fn new() -> (out: Self)
        ensures
            out.wf(),
            forall|id: DeviceId| #[trigger] out.live.value(id) is None,
    {
        Workers { live: Roster::new() }
    }

    /// Takes a worker, in place of the connection it had before, and says what to
    /// tell every worker now: each is introduced to everyone the master trusts,
    /// except itself.
    pub fn join(&mut self, id: DeviceId, handle: u64, trusted: &Vec<PairedPeer>) -> (out: Vec<
        Notice,
    >)
        requires
            old(self).wf(),
        ensures
            final(self).wf(),
            joined_as(*old(self), id, handle, trusted@, *final(self), out@),
    {
        self.live.insert(id, handle);
        let mut out: Vec<Notice> = Vec::new();
        for i in 0..self.live.entries.len()
            invariant
                out@.len() == i,
                forall|j: int|
                    0 <= j < i ==> {
                        &&& (#[trigger] out@[j]).to == self.live.entries@[j].0
                        &&& out@[j].handle == self.live.entries@[j].1
                        &&& out@[j].roster@ == roster(out@[j].to, trusted@)
                    },
        {
            let to = self.live.entries[i].0;
            let handle: u64 = self.live.entries[i].1;
            out.push(Notice { to, handle, roster: roster_for(to, trusted.as_slice()) });
        }
        out
    }

    /// Takes out a worker whose connection closed, unless it has another one by
    /// now; says whether it was taken out.
    pub fn leave(&mut self, id: DeviceId, handle: u64) -> (left: bool)
        requires
            old(self).wf(),
        ensures
            final(self).wf(),
            left_as(*old(self), id, handle, *final(self), left),
    {
        let current = match self.live.get(id) {
            Some(current) => *current == handle,
            None => false,
        };
        if current {
            self.live.remove(id);
        }
        current
    }
}

/// Refuses a listener that is not the worker's.
pub fn check_listener(id: DeviceId, answered: DeviceId) -> (out: Result<(), String>)
    ensures
        out is Ok <==> id == answered,
        out matches Err(said) ==> said@ == "worker identity changed"@,
{
    if id == answered {
        Ok(())
    } else {
        Err("worker identity changed".to_owned())
    }
}

/// Whether the workers are those before with one that joined, and the notices those
/// that go out.
pub open spec fn joined_as(
    before: Workers,
    id: DeviceId,
    handle: u64,
    trusted: Seq<PairedPeer>,
    after: Workers,
    out: Seq<Notice>,
) -> bool {
    &&& after.live.value(id) == Some(handle)
    &&& forall|other: DeviceId|
        other != id ==> #[trigger] after.live.value(other) == before.live.value(other)
    &&& out.len() == after.live.entries@.len()
    &&& forall|i: int|
        0 <= i < out.len() ==> {
            &&& (#[trigger] out[i]).to == after.live.entries@[i].0
            &&& out[i].handle == after.live.entries@[i].1
            &&& out[i].roster@ == roster(out[i].to, trusted)
        }
}

/// Whether the workers are those before after a connection of one ended.
pub open spec fn left_as(
    before: Workers,
    id: DeviceId,
    handle: u64,
    after: Workers,
    left: bool,
) -> bool {
    &&& left == (before.live.value(id) == Some(handle))
    &&& after.live.value(id) == if left {
        None
    } else {
        before.live.value(id)
    }
    &&& forall|other: DeviceId|
        other != id ==> #[trigger] after.live.value(other) == before.live.value(other)
}

/// When a worker joins, every worker there is told of all other devices, the one that
/// joined too, each over its latest connection; nobody else is told.
pub proof fn law_everyone_hears_of_a_worker_that_joins(
    before: Workers,
    id: DeviceId,
    handle: u64,
    trusted: Seq<PairedPeer>,
    after: Workers,
    out: Seq<Notice>,
    other: DeviceId,
)
    requires
        after.wf(),
        joined_as(before, id, handle, trusted, after, out),
    ensures
        exists|i: int|
            0 <= i < out.len() && (#[trigger] out[i]).to == id && out[i].handle == handle,
        other != id && before.live.value(other) is Some ==> exists|i: int|
            0 <= i < out.len() && (#[trigger] out[i]).to == other && Some(out[i].handle)
                == before.live.value(other),
        forall|i: int|
            0 <= i < out.len() ==> after.live.value((#[trigger] out[i]).to) == Some(out[i].handle)
                && (out[i].to == id || before.live.value(out[i].to) == Some(out[i].handle)),
        forall|i: int|
            0 <= i < out.len() ==> (#[trigger] out[i]).roster@.len() == trusted.filter(
                |p: PairedPeer| p.device_id != out[i].to,
            ).len(),
{
    lemma_noticed(after, id, handle, out);
    if other != id && before.live.value(other) is Some {
        lemma_noticed(after, other, before.live.value(other).unwrap(), out);
    }
    assert forall|i: int| 0 <= i < out.len() implies after.live.value((#[trigger] out[i]).to)
        == Some(out[i].handle) && (out[i].to == id || before.live.value(out[i].to) == Some(
        out[i].handle,
    )) by {
        lemma_entry_at(after.live.entries@, i);
        assert(after.live.value(out[i].to) == Some(out[i].handle));
    }
    assert forall|i: int| 0 <= i < out.len() implies (#[trigger] out[i]).roster@.len()
        == trusted.filter(|p: PairedPeer| p.device_id != out[i].to).len() by {
        law_roster_is_everyone_else(out[i].to, trusted);
    }
}

proof fn lemma_noticed(after: Workers, id: DeviceId, handle: u64, out: Seq<Notice>)
    requires
        after.wf(),
        after.live.value(id) == Some(handle),
        out.len() == after.live.entries@.len(),
        forall|i: int|
            0 <= i < out.len() ==> (#[trigger] out[i]).to == after.live.entries@[i].0
                && out[i].handle == after.live.entries@[i].1,
    ensures
        exists|i: int|
            0 <= i < out.len() && (#[trigger] out[i]).to == id && out[i].handle == handle,
{
    law_a_device_has_its_entry(after.live, id);
    let entries = after.live.entries@;
    let i = choose|i: int| 0 <= i < entries.len() && #[trigger] entries[i] == (id, handle);
    assert(out[i].to == id);
}

/// A worker that joined again is not dropped when its connection before ends: after it
/// joined with one connection and then with another, the end of the first changes
/// nothing, and the end of the second leaves it out.
pub proof fn law_only_the_latest_connection_counts(
    one: Workers,
    id: DeviceId,
    first: u64,
    second: u64,
    trusted: Seq<PairedPeer>,
    two: Workers,
    notices: Seq<Notice>,
    three: Workers,
    left_first: bool,
    four: Workers,
    left_second: bool,
)
    requires
        first != second,
        one.live.value(id) == Some(first),
        joined_as(one, id, second, trusted, two, notices),
        left_as(two, id, first, three, left_first),
        left_as(two, id, second, four, left_second),
    ensures
        !left_first,
        three.live.value(id) == Some(second),
        left_second,
        four.live.value(id) is None,
{
}

}
