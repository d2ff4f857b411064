//! Hidden states across a shard boundary.
//!
//! One stream per session, opened once and reused for every token, because
//! opening a stream per decode would add a round trip to a hop that costs a few
//! milliseconds in total. The stream header carries the session and the
//! generation, an activation carries its shape, and the transport checksums and
//! orders every byte; what is left is the position and the payload.

use vstd::prelude::*;

use crate::engine::abi::Payload;
use crate::net::error::Error;
use crate::net::stream::{StreamHeader, StreamKind};
use crate::text::join2;

verus! {

/// A prompt of four thousand tokens can take 67 MB, and a prompt can be longer.
/// Generous, but still a ceiling rather than an open allocation.
pub const MAX_ACTIVATION_FRAME: usize = 0x2000_0000;

/// What a master has a shard do.
#[derive(Clone, Debug, PartialEq, Eq)]
pub enum Step {
    Prefill { pos: u32, input: Payload },
    Decode { pos: u32, input: Payload },
    /// Free this session's KV. Not a request: nothing is sent back.
    Done,
}

/// What became of a step.
#[derive(Clone, Debug, PartialEq, Eq)]
pub enum StepResult {
    Output(Payload),
    /// The shard understood the step and could not run it. Distinct from the
    /// stream failing, which the master must treat as the device going away.
    Failed(String),
}

/// Declines every step. For devices that serve the control plane but hold no
/// layers, which is most of them, most of the time.
#[derive(Clone, Copy, Debug)]
pub struct NoShards;

impl NoShards {
    /// Declines a step.
    pub fn run(&self, session: u64, step: Step) -> (out: Result<Payload, String>)
        ensures
            out matches Err(why) && why@ == "this device holds no shards"@,
    {
        Err("this device holds no shards".to_owned())
    }
}

/// The header of a session's activation stream.
pub fn activation_header(session: u64, generation: u32) -> (out: StreamHeader)
    ensures
        out == (StreamHeader { kind: StreamKind::Activation, session, generation }),
{
    StreamHeader { kind: StreamKind::Activation, session, generation }
}

/// What a master makes of a remote shard's reply.
pub fn remote_output(result: StepResult) -> (out: Result<Payload, Error>)
    ensures
        match result {
            StepResult::Output(payload) => out == Ok::<Payload, Error>(payload),
            StepResult::Failed(why) => out matches Err(Error::Stream(said)) && said@
                == "remote shard: "@ + why@,
        },
{
    match result {
        StepResult::Output(payload) => Ok(payload),
        StepResult::Failed(why) => Err(Error::Stream(join2("remote shard: ", why.as_str()))),
    }
}

/// What happened on an activation stream that this device serves.
pub enum ServeEvent {
    /// A frame could not be read: the master is gone.
    Closed,
    /// A frame was read that holds no step, with what is said against it.
    Unreadable(String),
    /// A step was read.
    Asked(Step),
    /// A step was run.
    Ran(Result<Payload, String>),
    /// A reply was sent, or could not be.
    Replied { sent: bool },
}

/// What to do next on an activation stream.
pub enum ServeAction {
    /// Read the next frame.
    Read,
    /// Run the step.
    Run(Step),
    /// Send the result, and hear whether that worked.
    Reply(StepResult),
    /// Send the result, then drop the session, whether or not that worked.
    ReplyAndStop(StepResult),
    /// Drop the session.
    Stop,
}

/// Decides what to do next on an activation stream. The session is dropped
/// when the master says it is done, when a frame cannot be read or understood,
/// and when a reply cannot be sent; never because a step failed.
pub fn serve_next(event: ServeEvent) -> (out: ServeAction)
    ensures
        match event {
            ServeEvent::Closed => out is Stop,
            ServeEvent::Unreadable(said) => out matches ServeAction::ReplyAndStop(
                StepResult::Failed(why),
            ) && why@ == "unintelligible: "@ + said@,
            ServeEvent::Asked(Step::Done) => out is Stop,
            ServeEvent::Asked(step) => out == ServeAction::Run(step),
            ServeEvent::Ran(Ok(payload)) => out == ServeAction::Reply(StepResult::Output(payload)),
            ServeEvent::Ran(Err(why)) => out == ServeAction::Reply(StepResult::Failed(why)),
            ServeEvent::Replied { sent } => if sent {
                out is Read
            } else {
                out is Stop
            },
        },
{
    match event {
        ServeEvent::Closed => ServeAction::Stop,
        ServeEvent::Unreadable(said) => ServeAction::ReplyAndStop(
            StepResult::Failed(join2("unintelligible: ", said.as_str())),
        ),
        ServeEvent::Asked(step) => match step {
            Step::Done => ServeAction::Stop,
            step => ServeAction::Run(step),
        },
        ServeEvent::Ran(result) => match result {
            Ok(payload) => ServeAction::Reply(StepResult::Output(payload)),
            Err(why) => ServeAction::Reply(StepResult::Failed(why)),
        },
        ServeEvent::Replied { sent } => if sent {
            ServeAction::Read
        } else {
            ServeAction::Stop
        },
    }
}

/// An activation frame is at most 512 MiB.
pub proof fn law_activation_frames_are_bounded()
    ensures
        MAX_ACTIVATION_FRAME == 512 * 1024 * 1024,
{
}

}
