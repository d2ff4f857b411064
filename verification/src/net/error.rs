//! What the mesh refuses, and what failed under it.

use vstd::prelude::*;

use crate::engine::error::{quoted, quoted_text};
use crate::text::join2;

verus! {

/// A refusal or a failure.
#[derive(Debug, PartialEq, Eq)]
pub enum Error {
    KeyEncoding(String),
    MalformedDeviceId(String),
    MalformedPairingCode,
    PairingFailed,
    PairingReflected,
    Postcard(String),
    Certificate(String),
    Rcgen(String),
    Tls(String),
    Rejected,
    Probe(String),
    Stream(String),
    StreamHeader(String),
}

impl Error {
    /// What the error says.
    pub open spec fn shown(self) -> Seq<char> {
        match self {
            Error::KeyEncoding(said) => "device key is not valid pkcs#8: "@ + said@,
            Error::MalformedDeviceId(text) => quoted(text@)
                + " is not a device id (expected 16 hex chars)"@,
            Error::MalformedPairingCode => "pairing code must be six digits"@,
            Error::PairingFailed =>
                "pairing failed: wrong code, or someone is between the two devices"@,
            Error::PairingReflected => "pairing message was reflected back at us"@,
            Error::Postcard(said) => "codec: "@ + said@,
            Error::Certificate(said) => "certificate: "@ + said@,
            Error::Rcgen(said) => "rcgen: "@ + said@,
            Error::Tls(said) => "tls: "@ + said@,
            Error::Rejected =>
                "peer refused the connection: it has not paired with this device"@,
            Error::Probe(said) => "link probe failed: "@ + said@,
            Error::Stream(said) => "stream: "@ + said@,
            Error::StreamHeader(said) => "stream header: "@ + said@,
        }
    }

    /// What the error says.
    pub fn message(&self) -> (out: String)
        ensures
            out@ == self.shown(),
    {
        match self {
            Error::KeyEncoding(said) => join2("device key is not valid pkcs#8: ", said.as_str()),
            Error::MalformedDeviceId(text) => join2(
                quoted_text(text.as_str()).as_str(),
                " is not a device id (expected 16 hex chars)",
            ),
            Error::MalformedPairingCode => "pairing code must be six digits".to_owned(),
            Error::PairingFailed =>
                "pairing failed: wrong code, or someone is between the two devices".to_owned(),
            Error::PairingReflected => "pairing message was reflected back at us".to_owned(),
            Error::Postcard(said) => join2("codec: ", said.as_str()),
            Error::Certificate(said) => join2("certificate: ", said.as_str()),
            Error::Rcgen(said) => join2("rcgen: ", said.as_str()),
            Error::Tls(said) => join2("tls: ", said.as_str()),
            Error::Rejected =>
                "peer refused the connection: it has not paired with this device".to_owned(),
            Error::Probe(said) => join2("link probe failed: ", said.as_str()),
            Error::Stream(said) => join2("stream: ", said.as_str()),
            Error::StreamHeader(said) => join2("stream header: ", said.as_str()),
        }
    }
}

}
