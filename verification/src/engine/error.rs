//! What an engine refuses.

use vstd::prelude::*;
use vstd::string::StringExecFns;

use crate::engine::abi::WireDtype;
use crate::text::{decimal, join3, number_text};

verus! {

/// An engine's refusal.
#[derive(Debug, PartialEq, Eq)]
pub enum Error {
    WrongPayload { held: (u32, u32), got: &'static str },
    Shape { got: usize, want: usize, n_tokens: u32, hidden_dim: u32, dtype: WireDtype },
    UnsupportedRange { asked: (u32, u32), have: u32 },
    UnsupportedArch(String),
    UnknownSession(u64),
    Engine(String),
}

/// A text as its `Debug` form shows it: between quotation marks, with escapes.
pub uninterp spec fn quoted(s: Seq<char>) -> Seq<char>;

/// `Debug` of `str`, through `format!`. The result is named: it depends on the
/// text alone, and which characters are escaped takes Unicode's tables to state.
#[verifier::external_body]
pub(crate) fn quoted_text(s: &str) -> (out: String)
    ensures
        out@ == quoted(s@),
{
    format!("{s:?}")
}

/// Two numbers in round brackets.
pub open spec fn pair_shown(a: nat, b: nat) -> Seq<char> {
    "("@ + decimal(a) + ", "@ + decimal(b) + ")"@
}

/// Writes two numbers in round brackets.
pub fn pair_text(a: u32, b: u32) -> (out: String)
    ensures
        out@ == pair_shown(a as nat, b as nat),
{
    let mut out = join3("(", number_text(a as u128).as_str(), ", ");
    out.append(number_text(b as u128).as_str());
    out.append(")");
    out
}

impl Error {
    /// What the refusal says.
    pub open spec fn shown(self) -> Seq<char> {
        match self {
            Error::WrongPayload { held, got } => "shard holds layers "@ + pair_shown(
                held.0 as nat,
                held.1 as nat,
            ) + ", but was handed "@ + got@,
            Error::Shape { got, want, n_tokens, hidden_dim, dtype } => "activation is "@ + decimal(
                got as nat,
            ) + " bytes, but "@ + decimal(n_tokens as nat) + "x"@ + decimal(hidden_dim as nat)
                + " "@ + dtype.shown() + " needs "@ + decimal(want as nat),
            Error::UnsupportedRange { asked, have } => "shard was asked for layers "@ + pair_shown(
                asked.0 as nat,
                asked.1 as nat,
            ) + ", but this engine holds all "@ + decimal(have as nat),
            Error::UnsupportedArch(arch) => "model architecture "@ + quoted(arch@)
                + " is not supported; this engine reads llama-family GGUF"@,
            Error::UnknownSession(session) => "no such session "@ + decimal(session as nat),
            Error::Engine(message) => message@,
        }
    }

    /// What the refusal says.
    pub fn message(&self) -> (out: String)
        ensures
            out@ == self.shown(),
    {
        match self {
            Error::WrongPayload { held, got } => {
                let mut out = join3(
                    "shard holds layers ",
                    pair_text(held.0, held.1).as_str(),
                    ", but was handed ",
                );
                out.append(got);
                out
            },
            Error::Shape { got, want, n_tokens, hidden_dim, dtype } => {
                let mut out = join3(
                    "activation is ",
                    number_text(*got as u128).as_str(),
                    " bytes, but ",
                );
                out.append(number_text(*n_tokens as u128).as_str());
                out.append("x");
                out.append(number_text(*hidden_dim as u128).as_str());
                out.append(" ");
                out.append(dtype.name());
                out.append(" needs ");
                out.append(number_text(*want as u128).as_str());
                out
            },
            Error::UnsupportedRange { asked, have } => {
                let mut out = join3(
                    "shard was asked for layers ",
                    pair_text(asked.0, asked.1).as_str(),
                    ", but this engine holds all ",
                );
                out.append(number_text(*have as u128).as_str());
                out
            },
            Error::UnsupportedArch(arch) => join3(
                "model architecture ",
                quoted_text(arch.as_str()).as_str(),
                " is not supported; this engine reads llama-family GGUF",
            ),
            Error::UnknownSession(session) => {
                let mut out = String::new();
                out.append("no such session ");
                out.append(number_text(*session as u128).as_str());
                assert(out@ =~= self.shown());
                out
            },
            Error::Engine(message) => message.clone(),
        }
    }
}

}
