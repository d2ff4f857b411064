//! The engine's own protocol, carried between a master and its worker.

use vstd::prelude::*;

use crate::net::error::Error;
use crate::net::identity::DeviceId;
use crate::net::stream::{StreamHeader, StreamKind, NO_SESSION};
use crate::text::{chars_of, piece, text_of};

verus! {

/// Seconds that a worker may take to get its engine ready.
pub const HANDSHAKE_TIMEOUT: u64 = 120;

/// The greatest acknowledgement that a master reads.
pub const MAX_ACK: usize = 4096;

/// The most characters of a refusal that are sent.
pub const MAX_REFUSAL: usize = 512;

/// Refuses every connection. For devices that have no engine.
#[derive(Clone, Copy, Debug)]
pub struct DenyRpc;

impl DenyRpc {
    /// Refuses a connection.
    pub fn connect(&self, from: DeviceId) -> (out: Result<(), String>)
        ensures
            out matches Err(why) && why@ == "inference RPC is unavailable on this device"@,
    {
        Err("inference RPC is unavailable on this device".to_owned())
    }
}

/// The header of a stream for the engine's protocol.
pub fn rpc_header() -> (out: StreamHeader)
    ensures
        out == (StreamHeader {
            kind: StreamKind::InferenceRpc,
            session: NO_SESSION,
            generation: 0,
        }),
{
    StreamHeader { kind: StreamKind::InferenceRpc, session: NO_SESSION, generation: 0 }
}

/// The acknowledgement in some bytes: nothing, or a refusal; or what is said
/// against the bytes.
pub uninterp spec fn postcard_ack(bytes: Seq<u8>) -> Result<Result<(), Seq<char>>, Seq<char>>;

/// An acknowledgement, with a refusal as text.
pub open spec fn ack_view(ack: Result<(), String>) -> Result<(), Seq<char>> {
    match ack {
        Ok(()) => Ok(()),
        Err(why) => Err(why@),
    }
}

/// `postcard::to_allocvec` on an acknowledgement: bytes in which it is found
/// again. Writing one to a growing buffer cannot fail.
#[verifier::external_body]
fn encode_ack(ack: &Result<(), String>) -> (out: Result<Vec<u8>, String>)
    ensures
        match out {
            Ok(bytes) => postcard_ack(bytes@) matches Ok(a) && a == ack_view(*ack),
            Err(_) => false,
        },
{
    postcard::to_allocvec(ack).map_err(|e| e.to_string())
}

/// `postcard::from_bytes` to an acknowledgement. Which bytes hold one takes its
/// wire format to state, so the answer is named.
#[verifier::external_body]
fn decode_ack(bytes: &[u8]) -> (out: Result<Result<(), String>, String>)
    ensures
        match out {
            Ok(ack) => postcard_ack(bytes@) matches Ok(a) && a == ack_view(ack),
            Err(said) => postcard_ack(bytes@) matches Err(s) && s == said@,
        },
{
    postcard::from_bytes(bytes).map_err(|e| e.to_string())
}

/// As much of a refusal as is sent.
pub open spec fn shortened(why: Seq<char>) -> Seq<char> {
    if why.len() <= MAX_REFUSAL {
        why
    } else {
        why.take(MAX_REFUSAL as int)
    }
}

/// What is acknowledged: the session, or its refusal shortened.
pub open spec fn acknowledged(session: Result<(), Seq<char>>) -> Result<(), Seq<char>> {
    match session {
        Ok(()) => Ok(()),
        Err(why) => Err(shortened(why)),
    }
}

/// What a worker acknowledges; `None` where getting ready took too long.
pub fn session_ack(session: Option<Result<(), String>>) -> (out: Result<(), String>)
    ensures
        ack_view(out) == acknowledged(
            match session {
                Some(session) => ack_view(session),
                None => Err("inference RPC connection timed out"@),
            },
        ),
{
    let session = match session {
        Some(session) => session,
        None => {
            proof {
                reveal_strlit("inference RPC connection timed out");
            }
            Err("inference RPC connection timed out".to_owned())
        },
    };
    match session {
        Ok(()) => Ok(()),
        Err(why) => {
            let chars = chars_of(why.as_str());
            if chars.len() <= MAX_REFUSAL {
                Err(why)
            } else {
                let kept = piece(chars.as_slice(), 0, MAX_REFUSAL);
                assert(kept@ =~= why@.take(MAX_REFUSAL as int));
                Err(text_of(kept.as_slice()))
            }
        },
    }
}

/// An acknowledgement as it travels.
pub fn ack_bytes(ack: &Result<(), String>) -> (out: Result<Vec<u8>, Error>)
    ensures
        out matches Ok(bytes) && (postcard_ack(bytes@) matches Ok(a) && a == ack_view(*ack)),
{
    match encode_ack(ack) {
        Ok(bytes) => Ok(bytes),
        Err(said) => Err(Error::Postcard(said)),
    }
}

/// What a master makes of the acknowledgement in a worker's frame.
pub fn check_ack(bytes: &[u8]) -> (out: Result<(), Error>)
    ensures
        match postcard_ack(bytes@) {
            Err(said) => out matches Err(Error::Postcard(s)) && s@ == said,
            Ok(Ok(())) => out is Ok,
            Ok(Err(why)) => out matches Err(Error::Stream(s)) && s@ == why,
        },
{
    match decode_ack(bytes) {
        Err(said) => Err(Error::Postcard(said)),
        Ok(ack) => judge_ack(ack),
    }
}

/// What a master makes of an acknowledgement.
pub fn judge_ack(ack: Result<(), String>) -> (out: Result<(), Error>)
    ensures
        match ack {
            Ok(()) => out is Ok,
            Err(why) => out matches Err(Error::Stream(s)) && s@ == why@,
        },
{
    match ack {
        Ok(()) => Ok(()),
        Err(why) => Err(Error::Stream(why)),
    }
}

/// What is said where a worker did not acknowledge in time.
pub fn handshake_timed_out() -> (out: Error)
    ensures
        out matches Error::Stream(said) && said@ == "inference RPC handshake timed out"@,
{
    Error::Stream("inference RPC handshake timed out".to_owned())
}

/// A refusal reaches the master in the worker's words, at most the first 512
/// characters of them.
pub proof fn law_refusal_reaches_the_master(why: Seq<char>, bytes: Seq<u8>)
    requires
        postcard_ack(bytes) == Ok::<Result<(), Seq<char>>, Seq<char>>(
            acknowledged(Err::<(), Seq<char>>(why)),
        ),
    ensures
        postcard_ack(bytes) matches Ok(Err(heard)) && heard == shortened(why) && heard.len()
            <= MAX_REFUSAL,
{
}

/// What a master hears of a refusal is its beginning: all of it up to 512 characters,
/// and the first 512 of more. An acceptance stays one.
pub proof fn law_refusal_is_cut_at_its_end(why: Seq<char>)
    ensures
        shortened(why).is_prefix_of(why),
        why.len() <= 512 ==> shortened(why) == why,
        why.len() > 512 ==> shortened(why).len() == 512,
        acknowledged(Ok::<(), Seq<char>>(())) is Ok,
        acknowledged(Err::<(), Seq<char>>(why)) == Err::<(), Seq<char>>(shortened(why)),
{
}

/// What is acknowledged is what was said.
pub proof fn law_acknowledgement_is_what_was_said(why: String)
    ensures
        ack_view(Ok::<(), String>(())) is Ok,
        ack_view(Err::<(), String>(why)) == Err::<(), Seq<char>>(why@),
{
}

}
