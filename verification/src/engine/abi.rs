//! What crosses a shard boundary.

use vstd::prelude::*;

use crate::engine::error::Error;

verus! {

/// What crosses a shard boundary, on the wire and in memory alike.
///
/// The shard that owns the embedding takes tokens; the shard that owns the
/// output head yields logits; everything between is hidden states in, hidden
/// states out. A single shard holding every layer sees `Tokens` in and
/// `Logits` out, which is why a one-device plan needs no special case.
///
/// A logit is held by the bits of its single-precision form.
#[derive(Clone, Debug, PartialEq, Eq)]
pub enum Payload {
    Tokens(Vec<u32>),
    Hidden(Activation),
    Logits(Vec<u32>),
}

impl Payload {
    /// How messages name the payload.
    pub open spec fn kind_shown(self) -> Seq<char> {
        match self {
            Payload::Tokens(_) => "tokens"@,
            Payload::Hidden(_) => "hidden states"@,
            Payload::Logits(_) => "logits"@,
        }
    }

    /// For error messages, so a mis-wired pipeline says what it was handed.
    pub fn kind(&self) -> (out: &'static str)
        ensures
            out@ == self.kind_shown(),
    {
        match self {
            Payload::Tokens(_) => "tokens",
            Payload::Hidden(_) => "hidden states",
            Payload::Logits(_) => "logits",
        }
    }
}

/// Hidden states as raw bytes, laid out `[n_tokens][hidden_dim]` row-major.
///
/// Bytes rather than floats because this is exactly a frame's payload: the
/// wire and the interface share one type so a hop costs no conversion.
#[derive(Clone, Debug, PartialEq, Eq)]
pub struct Activation {
    pub n_tokens: u32,
    pub hidden_dim: u32,
    pub dtype: WireDtype,
    pub data: Vec<u8>,
}

/// The bytes that hidden states of a shape take.
pub open spec fn activation_bytes(n_tokens: u32, hidden_dim: u32, dtype: WireDtype) -> int {
    n_tokens * hidden_dim * dtype.bytes()
}

impl Activation {
    /// Hidden states of a shape, refused where the bytes are not as many as the
    /// shape takes.
    pub fn new(n_tokens: u32, hidden_dim: u32, dtype: WireDtype, data: Vec<u8>) -> (out: Result<
        Self,
        Error,
    >)
        requires
            activation_bytes(n_tokens, hidden_dim, dtype) <= usize::MAX,
        ensures
            match out {
                Ok(activation) => {
                    &&& data@.len() == activation_bytes(n_tokens, hidden_dim, dtype)
                    &&& activation == (Activation { n_tokens, hidden_dim, dtype, data })
                },
                Err(error) => {
                    &&& data@.len() != activation_bytes(n_tokens, hidden_dim, dtype)
                    &&& error == (Error::Shape {
                        got: data@.len() as usize,
                        want: activation_bytes(n_tokens, hidden_dim, dtype) as usize,
                        n_tokens,
                        hidden_dim,
                        dtype,
                    })
                },
            },
    {
        let ghost cells = n_tokens * hidden_dim;
        assert(0 <= cells <= cells * dtype.bytes()) by (nonlinear_arith)
            requires
                cells == n_tokens * hidden_dim,
                dtype.bytes() >= 1,
        ;
        let want: usize = (n_tokens as usize) * (hidden_dim as usize) * dtype.size();
        if data.len() != want {
            return Err(Error::Shape { got: data.len(), want, n_tokens, hidden_dim, dtype });
        }
        Ok(Activation { n_tokens, hidden_dim, dtype, data })
    }
}

/// Sixteen bits a value by default; thirty-two where a wrong split has to be
/// told from a lossy one.
#[derive(Clone, Copy, Debug, PartialEq, Eq, Structural)]
pub enum WireDtype {
    F16,
    F32,
}

impl WireDtype {
    /// The bytes that one value takes.
    pub open spec fn bytes(self) -> int {
        match self {
            WireDtype::F16 => 2,
            WireDtype::F32 => 4,
        }
    }

    /// How messages name the format.
    pub open spec fn shown(self) -> Seq<char> {
        match self {
            WireDtype::F16 => "F16"@,
            WireDtype::F32 => "F32"@,
        }
    }

    /// The bytes that one value takes.
    pub fn size(self) -> (out: usize)
        ensures
            out == self.bytes(),
    {
        match self {
            WireDtype::F16 => 2,
            WireDtype::F32 => 4,
        }
    }

    /// How messages name the format.
    pub fn name(self) -> (out: &'static str)
        ensures
            out@ == self.shown(),
    {
        match self {
            WireDtype::F16 => "F16",
            WireDtype::F32 => "F32",
        }
    }
}

/// How the KV cache holds a value.
#[derive(Clone, Copy, Debug, PartialEq, Eq, Structural)]
pub enum KvDtype {
    F16,
}

impl KvDtype {
    /// The bytes that one value takes.
    pub open spec fn bytes(self) -> int {
        match self {
            KvDtype::F16 => 2,
        }
    }

    /// The bytes that one value takes.
    pub fn size(self) -> (out: usize)
        ensures
            out == self.bytes(),
    {
        match self {
            KvDtype::F16 => 2,
        }
    }
}

/// What to load. `max_context` is the user's configured ceiling, not the
/// current context: the KV cache is sized from it, so that it cannot run out
/// of memory in the middle of a session.
#[derive(Clone, Debug, PartialEq, Eq)]
pub struct ShardSpec {
    pub model_hash: String,
    pub first_layer: u32,
    /// Exclusive, so `first_layer == last_layer` is a legal empty shard.
    pub last_layer: u32,
    pub max_context: u32,
    pub kv_dtype: KvDtype,
    /// What this shard emits at its outgoing boundary.
    pub wire_dtype: WireDtype,
}

impl ShardSpec {
    /// How many layers the shard holds.
    pub fn layers(&self) -> (out: u32)
        requires
            self.first_layer <= self.last_layer,
        ensures
            out == self.last_layer - self.first_layer,
    {
        self.last_layer - self.first_layer
    }
}

/// What a shard reports of itself.
#[derive(Clone, Copy, Debug, PartialEq, Eq, Structural)]
pub struct ShardStats {
    pub sessions: u32,
    pub kv_bytes: u64,
    pub weight_bytes: u64,
    /// Mean wall time for one `decode`, which is what a cost model needs and
    /// the only figure it cannot derive from hardware specifications.
    pub decode_micros: u64,
}

impl Default for ShardStats {
    fn default() -> (out: Self)
        ensures
            out == (ShardStats { sessions: 0, kv_bytes: 0, weight_bytes: 0, decode_micros: 0 }),
    {
        ShardStats { sessions: 0, kv_bytes: 0, weight_bytes: 0, decode_micros: 0 }
    }
}

/// The calls of a shard. Loading and unloading are making one and dropping it.
pub trait Shard {
    fn prefill(&mut self, session: u64, pos_start: u32, input: Payload) -> Result<Payload, Error>;

    fn decode(&mut self, session: u64, pos: u32, input: Payload) -> Result<Payload, Error>;

    fn drop_session(&mut self, session: u64);

    fn stats(&self) -> ShardStats;
}

/// An activation takes two bytes a value in half precision and four in single, for
/// every value of every token.
pub proof fn law_activation_size(n_tokens: u32, hidden_dim: u32)
    ensures
        activation_bytes(n_tokens, hidden_dim, WireDtype::F16) == 2 * (n_tokens * hidden_dim),
        activation_bytes(n_tokens, hidden_dim, WireDtype::F32) == 4 * (n_tokens * hidden_dim),
        KvDtype::F16.bytes() == 2,
{
    let values = n_tokens * hidden_dim;
    assert(values * 2 == 2 * values);
    assert(values * 4 == 4 * values);
}

}
