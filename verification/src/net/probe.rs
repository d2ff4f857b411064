//! Measures the link to a peer: round-trip time and one-way throughput.
//!
//! These are the two numbers a planner needs, and the two that decide whether
//! the network is a small tax or the bottleneck. Both are measured over the
//! same authenticated connection the shards will use, so they reflect the path
//! the activations will actually take.

use vstd::prelude::*;

use crate::bytes::{law_le_reads_back, le_bytes, le_value, lemma_capacities, push_le, read_le};
use crate::net::error::Error;

verus! {

pub const PING: u8 = 0x01;

pub const SINK: u8 = 0x02;

pub const ACK: u8 = 0xAC;

/// Enough to get past slow-start on Wi-Fi without stalling the UI.
pub const DEFAULT_PROBE_BYTES: usize = 0x80_0000;

pub const MAX_PROBE_BYTES: usize = 0x400_0000;

pub const RTT_SAMPLES: usize = 16;

/// How many bytes a probe sends: as many as were asked for, up to the ceiling.
pub fn probe_size(asked: usize) -> (out: usize)
    ensures
        out == sized(asked as nat),
{
    if asked <= MAX_PROBE_BYTES {
        asked
    } else {
        MAX_PROBE_BYTES
    }
}

/// What a throughput probe opens with: the opcode and the number of bytes that
/// follow.
pub fn sink_header(bytes: usize) -> (out: Vec<u8>)
    requires
        bytes <= MAX_PROBE_BYTES,
    ensures
        out@ == sinking(bytes as nat),
{
    let mut out: Vec<u8> = Vec::new();
    out.push(SINK);
    push_le(&mut out, bytes as u64, 4);
    assert(out@ =~= seq![SINK] + le_bytes(bytes as nat, 4));
    out
}

/// Judges the acknowledgement of a throughput probe.
pub fn check_ack(ack: u8) -> (out: Result<(), Error>)
    ensures
        out is Ok <==> ack == ACK,
        out matches Err(e) ==> e == Error::Rejected,
{
    if ack == ACK {
        Ok(())
    } else {
        Err(Error::Rejected)
    }
}

/// The least of some round trips, or the greatest there can be where there are
/// none. The minimum, not the mean: it is the closest estimate of the link's
/// floor, and Wi-Fi's tail is noise from retries rather than a property of the
/// path.
pub open spec fn least(samples: Seq<u64>) -> u64
    decreases samples.len(),
{
    if samples.len() == 0 {
        u64::MAX
    } else {
        let rest = least(samples.drop_last());
        if samples.last() < rest {
            samples.last()
        } else {
            rest
        }
    }
}

/// The best observed round trip.
pub fn best_round_trip(samples: &Vec<u64>) -> (out: u64)
    ensures
        out == least(samples@),
        forall|i: int| 0 <= i < samples@.len() ==> out <= #[trigger] samples@[i],
        samples@.len() > 0 ==> samples@.contains(out),
{
    let mut best: u64 = u64::MAX;
    let mut at: usize = 0;
    for i in 0..samples.len()
        invariant
            best == least(samples@.take(i as int)),
            forall|j: int| 0 <= j < i ==> best <= #[trigger] samples@[j],
            i > 0 ==> at < i && samples@[at as int] == best,
    {
        assert(samples@.take(i as int + 1).drop_last() =~= samples@.take(i as int));
        if samples[i] < best {
            best = samples[i];
            at = i;
        } else if i == 0 {
            at = 0;
            assert(samples@[0] == u64::MAX);
        }
    }
    assert(samples@.take(samples@.len() as int) =~= samples@);
    best
}

/// What a responder does with an opcode.
#[derive(Clone, Copy, Debug, PartialEq, Eq, Structural)]
pub enum ProbeAction {
    /// Acknowledge, and read the next opcode.
    Acknowledge,
    /// Read a length and that many bytes, then acknowledge.
    Drain,
    /// Stop serving the stream.
    Stop,
}

/// Decides what to do with an opcode.
pub fn respond(opcode: u8) -> (out: ProbeAction)
    ensures
        out == (if opcode == PING {
            ProbeAction::Acknowledge
        } else if opcode == SINK {
            ProbeAction::Drain
        } else {
            ProbeAction::Stop
        }),
{
    if opcode == PING {
        ProbeAction::Acknowledge
    } else if opcode == SINK {
        ProbeAction::Drain
    } else {
        ProbeAction::Stop
    }
}

/// How many bytes a throughput probe announces; `None` above the ceiling.
pub fn drain_len(header: &[u8]) -> (out: Option<usize>)
    requires
        header@.len() == 4,
    ensures
        match out {
            Some(len) => len == le_value(header@) && drains(header@),
            None => !drains(header@),
        },
{
    assert(header@.subrange(0, 4) =~= header@);
    proof {
        lemma_capacities();
    }
    let len: usize = read_le(header, 0, 4) as usize;
    if len > MAX_PROBE_BYTES {
        None
    } else {
        Some(len)
    }
}

/// A probe that is sent is never refused for its size: the length that its
/// header announces is one that a responder drains.
pub proof fn law_probe_is_never_oversized(bytes: nat)
    requires
        bytes <= MAX_PROBE_BYTES,
    ensures
        (seq![SINK] + le_bytes(bytes, 4))[0] == SINK,
        (seq![SINK] + le_bytes(bytes, 4)).len() == 5,
        le_value((seq![SINK] + le_bytes(bytes, 4)).skip(1)) == bytes,
{
    lemma_capacities();
    law_le_reads_back(bytes, 4);
    assert((seq![SINK] + le_bytes(bytes, 4)).skip(1) =~= le_bytes(bytes, 4));
}

/// The best round trip is one that was measured, and none was shorter.
pub proof fn law_best_is_the_least(samples: Seq<u64>)
    ensures
        forall|i: int| 0 <= i < samples.len() ==> least(samples) <= #[trigger] samples[i],
        samples.len() > 0 ==> samples.contains(least(samples)),
    decreases samples.len(),
{
    if samples.len() > 0 {
        let init = samples.drop_last();
        law_best_is_the_least(init);
        assert forall|i: int| 0 <= i < samples.len() implies least(samples)
            <= #[trigger] samples[i] by {
            if i < init.len() {
                assert(init[i] == samples[i]);
            }
        }
        if samples.last() < least(init) || init.len() == 0 {
            assert(samples[samples.len() - 1] == samples.last());
        } else {
            let i = init.index_of(least(init));
            assert(samples[i] == least(init));
        }
    }
}

/// A probe carries at most 64 MiB, and 8 MiB where nothing else is asked.
pub proof fn law_probe_sizes()
    ensures
        MAX_PROBE_BYTES == 64 * 1024 * 1024,
        DEFAULT_PROBE_BYTES == 8 * 1024 * 1024,
        PING != SINK && ACK != PING && ACK != SINK,
{
}

/// How many bytes a probe sends where so many are asked for.
pub open spec fn sized(asked: nat) -> nat {
    if asked <= MAX_PROBE_BYTES {
        asked
    } else {
        MAX_PROBE_BYTES as nat
    }
}

/// What announces bytes to sink.
pub open spec fn sinking(bytes: nat) -> Seq<u8> {
    seq![SINK] + le_bytes(bytes, 4)
}

/// Whether the bytes that a header announces are read.
pub open spec fn drains(header: Seq<u8>) -> bool {
    le_value(header) <= MAX_PROBE_BYTES
}

/// A probe sends as much as asked, up to 64 MiB, and the other end reads just that: its
/// announcement is an opcode and the length, which is within what is read.
pub proof fn law_a_probe_is_drained(asked: nat)
    ensures
        asked <= 64 * 1024 * 1024 ==> sized(asked) == asked,
        asked > 64 * 1024 * 1024 ==> sized(asked) == 64 * 1024 * 1024,
        sinking(sized(asked)).len() == 5,
        sinking(sized(asked))[0] == 0x02,
        le_value(sinking(sized(asked)).skip(1)) == sized(asked),
        drains(sinking(sized(asked)).skip(1)),
{
    let n = sized(asked);
    lemma_capacities();
    law_le_reads_back(n, 4);
    assert(sinking(n).skip(1) =~= le_bytes(n, 4));
}

/// Nothing over 64 MiB is read.
pub proof fn law_nothing_larger_is_drained(header: Seq<u8>)
    ensures
        drains(header) <==> le_value(header) <= 64 * 1024 * 1024,
{
}

}
