//! The single accept loop for a connection: read each stream's declared kind
//! and hand it to whatever serves that kind.
//!
//! One loop per connection, because two would race for the same streams.

use vstd::prelude::*;

use crate::net::error::Error;
use crate::net::stream::{fenced, stale, stale_shown, Fence, StreamHeader, StreamKind};

verus! {

/// Who serves a stream.
#[derive(Clone, Copy, Debug, PartialEq, Eq, Structural)]
pub enum Route {
    /// The control handler answers one request.
    Control,
    /// The executor runs a session's steps.
    Executor { session: u64 },
    /// The probe responder echoes.
    Probe,
    /// The engine's own protocol is passed through.
    Rpc,
}

/// What the accept loop does next.
#[derive(Debug, PartialEq, Eq)]
pub enum Next {
    /// Serve the stream, and accept another.
    Serve(Route),
    /// Refuse the stream before it carries anything, and accept another. One
    /// session's channel died; the peer is still there.
    Refuse(Error),
    /// The peer is gone. That is ordinary, not an error.
    Stop,
}

/// Who serves a stream that declares itself so.
pub open spec fn route_of(header: StreamHeader) -> Route {
    match header.kind {
        StreamKind::Control => Route::Control,
        StreamKind::Activation => Route::Executor { session: header.session },
        StreamKind::Bulk => Route::Probe,
        StreamKind::InferenceRpc => Route::Rpc,
    }
}

/// Decides what to do with an accepted stream; `None` where accepting failed.
/// `fence` is what the sessions on the connection have opened so far.
pub fn route(fence: &mut Fence, accepted: Option<StreamHeader>) -> (out: Next)
    ensures
        match accepted {
            None => out is Stop && final(fence)@ == old(fence)@,
            Some(header) => {
                &&& final(fence)@ == fenced(old(fence)@, header)
                &&& if stale(old(fence)@, header) {
                    out matches Next::Refuse(Error::StreamHeader(said)) && said@ == stale_shown(
                        header,
                        old(fence)@[header.session],
                    )
                } else {
                    out == Next::Serve(route_of(header))
                }
            },
        },
{
    match accepted {
        None => Next::Stop,
        Some(header) => match fence.check(&header) {
            Err(error) => Next::Refuse(error),
            Ok(()) => Next::Serve(
                match header.kind {
                    StreamKind::Control => Route::Control,
                    StreamKind::Activation => Route::Executor { session: header.session },
                    StreamKind::Bulk => Route::Probe,
                    StreamKind::InferenceRpc => Route::Rpc,
                },
            ),
        },
    }
}

/// A stream goes to whoever serves its kind, and an activation stream to the executor of
/// its own session, whatever its number.
pub proof fn law_streams_go_by_their_kind(header: StreamHeader)
    ensures
        route_of(header) == Route::Control <==> header.kind == StreamKind::Control,
        route_of(header) == Route::Probe <==> header.kind == StreamKind::Bulk,
        route_of(header) == Route::Rpc <==> header.kind == StreamKind::InferenceRpc,
        header.kind == StreamKind::Activation ==> route_of(header) == (Route::Executor {
            session: header.session,
        }),
{
}

}
