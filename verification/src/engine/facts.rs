//! What the planner needs to know about a model, read from the GGUF header.
//!
//! Every figure here comes from metadata, so answering "can my devices hold
//! this?" costs a header read rather than a download.

use vstd::prelude::*;
use vstd::string::StringExecFns;

use crate::engine::abi::KvDtype;
use crate::engine::error::Error;
use crate::engine::gguf::Value;
use crate::table::Table;
use crate::text::{decimal, join2, join3, number_text};

verus! {

/// The shape of a model.
#[derive(Clone, Debug, PartialEq, Eq)]
pub struct ModelFacts {
    pub arch: String,
    pub layers: u32,
    pub hidden_dim: u32,
    pub heads: u32,
    pub kv_heads: u32,
    pub train_context: u32,
}

/// The shape of a model, as contracts speak of it.
pub struct Facts {
    pub arch: Seq<char>,
    pub layers: u32,
    pub hidden_dim: u32,
    pub heads: u32,
    pub kv_heads: u32,
    pub train_context: u32,
}

/// What is said of a key that the metadata lacks.
pub open spec fn missing_shown(key: Seq<char>) -> Seq<char> {
    "GGUF metadata has no "@ + key
}

/// How a value is shown in messages.
pub open spec fn value_shown(value: Value) -> Seq<char> {
    match value {
        Value::U8(v) => "U8("@ + decimal(v as nat) + ")"@,
        Value::U16(v) => "U16("@ + decimal(v as nat) + ")"@,
        Value::U32(v) => "U32("@ + decimal(v as nat) + ")"@,
        Value::U64(v) => "U64("@ + decimal(v as nat) + ")"@,
        Value::String(s) => s@,
        Value::Other { kind, shown } => shown@,
    }
}

/// The text under a key, or what is said where there is none.
pub open spec fn text_at(metadata: Table<Value>, key: Seq<char>) -> Result<Seq<char>, Seq<char>> {
    match metadata.value(key) {
        None => Err(missing_shown(key)),
        Some(Value::String(s)) => Ok(s@),
        Some(other) => Err("not a string "@ + value_shown(other)),
    }
}

/// The number under a key, whatever the width it was written in, or what is
/// said where there is none.
pub open spec fn number_at(metadata: Table<Value>, key: Seq<char>) -> Result<u32, Seq<char>> {
    match metadata.value(key) {
        None => Err(missing_shown(key)),
        Some(Value::U8(v)) => Ok(v as u32),
        Some(Value::U16(v)) => Ok(v as u32),
        Some(Value::U32(v)) => Ok(v),
        Some(Value::U64(v)) => if v <= u32::MAX {
            Ok(v as u32)
        } else {
            Err(key + " is "@ + decimal(v as nat))
        },
        Some(Value::String(_)) => Err(key + " is "@ + "String"@ + ", not an integer"@),
        Some(Value::Other { kind, shown }) => Err(
            key + " is "@ + kind.shown() + ", not an integer"@,
        ),
    }
}

/// The shape that metadata describes, or what is said of the first key that
/// does not hold its figure. Multi-head attention omits the kv key entirely;
/// there it equals the number of heads.
pub open spec fn facts_of(metadata: Table<Value>) -> Result<Facts, Seq<char>> {
    match text_at(metadata, "general.architecture"@) {
        Err(said) => Err(said),
        Ok(arch) => match number_at(metadata, arch + ".attention.head_count"@) {
            Err(said) => Err(said),
            Ok(heads) => match number_at(metadata, arch + ".block_count"@) {
                Err(said) => Err(said),
                Ok(layers) => match number_at(metadata, arch + ".embedding_length"@) {
                    Err(said) => Err(said),
                    Ok(hidden_dim) => match number_at(metadata, arch + ".context_length"@) {
                        Err(said) => Err(said),
                        Ok(train_context) => Ok(
                            Facts {
                                arch,
                                layers,
                                hidden_dim,
                                heads,
                                kv_heads: match number_at(
                                    metadata,
                                    arch + ".attention.head_count_kv"@,
                                ) {
                                    Ok(kv_heads) => kv_heads,
                                    Err(_) => heads,
                                },
                                train_context,
                            },
                        ),
                    },
                },
            },
        },
    }
}

/// Whether a result is the engine's error with a message.
pub open spec fn engine_error(error: Error, said: Seq<char>) -> bool {
    error matches Error::Engine(message) && message@ == said
}

fn missing(key: &str) -> (out: Error)
    ensures
        engine_error(out, missing_shown(key@)),
{
    Error::Engine(join2("GGUF metadata has no ", key))
}

/// Shows a value as messages do.
fn value_text(value: &Value) -> (out: String)
    ensures
        out@ == value_shown(*value),
{
    match value {
        Value::U8(v) => join3("U8(", number_text(*v as u128).as_str(), ")"),
        Value::U16(v) => join3("U16(", number_text(*v as u128).as_str(), ")"),
        Value::U32(v) => join3("U32(", number_text(*v as u128).as_str(), ")"),
        Value::U64(v) => join3("U64(", number_text(*v as u128).as_str(), ")"),
        Value::String(s) => s.clone(),
        Value::Other { kind: _, shown } => shown.clone(),
    }
}

/// The text under a key.
fn string(metadata: &Table<Value>, key: &str) -> (out: Result<String, Error>)
    ensures
        match text_at(*metadata, key@) {
            Ok(s) => out matches Ok(o) && o@ == s,
            Err(said) => out matches Err(e) && engine_error(e, said),
        },
{
    match metadata.get(key) {
        None => Err(missing(key)),
        Some(Value::String(s)) => Ok(s.clone()),
        Some(other) => Err(Error::Engine(join2("not a string ", value_text(other).as_str()))),
    }
}

/// GGUF writers disagree on integer width for the same key, so accept any.
pub fn u32_at(metadata: &Table<Value>, key: &str) -> (out: Result<u32, Error>)
    ensures
        match number_at(*metadata, key@) {
            Ok(n) => out == Ok::<u32, Error>(n),
            Err(said) => out matches Err(e) && engine_error(e, said),
        },
{
    match metadata.get(key) {
        None => Err(missing(key)),
        Some(Value::U8(v)) => Ok(*v as u32),
        Some(Value::U16(v)) => Ok(*v as u32),
        Some(Value::U32(v)) => Ok(*v),
        Some(Value::U64(v)) => if *v <= u32::MAX as u64 {
            Ok(*v as u32)
        } else {
            Err(Error::Engine(join3(key, " is ", number_text(*v as u128).as_str())))
        },
        Some(Value::String(_)) => {
            let mut said = join3(key, " is ", "String");
            said.append(", not an integer");
            Err(Error::Engine(said))
        },
        Some(Value::Other { kind, shown: _ }) => {
            let mut said = join3(key, " is ", kind.name());
            said.append(", not an integer");
            Err(Error::Engine(said))
        },
    }
}

/// Whether the bytes of a KV cache, and every product on the way to them, fit
/// sixty-four bits.
pub open spec fn kv_fits(facts: ModelFacts, layers: u32, max_context: u32, dtype: KvDtype) -> bool {
    let per_token = 2 * facts.kv_heads * (facts.hidden_dim as int / facts.heads as int);
    &&& per_token <= u64::MAX
    &&& per_token * max_context <= u64::MAX
    &&& per_token * max_context * layers <= u64::MAX
    &&& per_token * max_context * layers * dtype.bytes() <= u64::MAX
}

impl ModelFacts {
    /// The shape, as contracts speak of it.
    pub open spec fn view(self) -> Facts {
        Facts {
            arch: self.arch@,
            layers: self.layers,
            hidden_dim: self.hidden_dim,
            heads: self.heads,
            kv_heads: self.kv_heads,
            train_context: self.train_context,
        }
    }

    /// Reads the shape of a model from its metadata.
    pub fn read(metadata: &Table<Value>) -> (out: Result<Self, Error>)
        ensures
            match facts_of(*metadata) {
                Ok(facts) => out matches Ok(f) && f@ == facts,
                Err(said) => out matches Err(e) && engine_error(e, said),
            },
    {
        let arch = string(metadata, "general.architecture")?;
        let name = arch.as_str();
        let heads = u32_at(metadata, join2(name, ".attention.head_count").as_str())?;
        let layers = u32_at(metadata, join2(name, ".block_count").as_str())?;
        let hidden_dim = u32_at(metadata, join2(name, ".embedding_length").as_str())?;
        let kv_heads = match u32_at(metadata, join2(name, ".attention.head_count_kv").as_str()) {
            Ok(kv_heads) => kv_heads,
            Err(_) => heads,
        };
        let train_context = u32_at(metadata, join2(name, ".context_length").as_str())?;
        Ok(ModelFacts { arch, layers, hidden_dim, heads, kv_heads, train_context })
    }

    /// How wide one attention head is.
    pub fn head_dim(&self) -> (out: u32)
        requires
            self.heads != 0,
        ensures
            out == self.hidden_dim as int / self.heads as int,
    {
        self.hidden_dim / self.heads
    }

    /// Bytes of KV cache for `layers` layers at the configured context ceiling.
    ///
    /// Two tensors per layer, `kv_heads * head_dim` wide each, sized from the
    /// ceiling rather than the current context.
    pub fn kv_bytes(&self, layers: u32, max_context: u32, dtype: KvDtype) -> (out: u64)
        requires
            self.heads != 0,
            kv_fits(*self, layers, max_context, dtype),
        ensures
            out == cache_bytes(*self, layers as int, max_context, dtype),
    {
        let per_token: u64 = 2 * (self.kv_heads as u64) * (self.head_dim() as u64);
        per_token * (max_context as u64) * (layers as u64) * (dtype.size() as u64)
    }
}

/// A figure is read whatever the width it was written in, wherever it fits
/// thirty-two bits, and nothing else is read as one.
pub proof fn law_figures_of_any_width_are_read(metadata: Table<Value>, key: Seq<char>)
    ensures
        number_at(metadata, key) is Ok <==> match metadata.value(key) {
            Some(Value::U8(_)) => true,
            Some(Value::U16(_)) => true,
            Some(Value::U32(_)) => true,
            Some(Value::U64(v)) => v < 0x1_0000_0000,
            _ => false,
        },
        number_at(metadata, key) matches Ok(n) ==> match metadata.value(key) {
            Some(Value::U8(v)) => n == v,
            Some(Value::U16(v)) => n == v,
            Some(Value::U32(v)) => n == v,
            Some(Value::U64(v)) => n == v,
            _ => false,
        },
{
}

/// A model's shape is what its metadata says under its architecture's keys: five
/// figures have to be there, and without the sixth there are as many KV heads as
/// heads.
pub proof fn law_facts_are_those_of_the_metadata(metadata: Table<Value>, facts: Facts)
    ensures
        facts_of(metadata) == Ok::<Facts, Seq<char>>(facts) <==> {
            &&& metadata.value("general.architecture"@) matches Some(Value::String(arch))
            &&& facts.arch == arch@
            &&& number_at(metadata, arch@ + ".attention.head_count"@) == Ok::<u32, Seq<char>>(
                facts.heads,
            )
            &&& number_at(metadata, arch@ + ".block_count"@) == Ok::<u32, Seq<char>>(facts.layers)
            &&& number_at(metadata, arch@ + ".embedding_length"@) == Ok::<u32, Seq<char>>(
                facts.hidden_dim,
            )
            &&& number_at(metadata, arch@ + ".context_length"@) == Ok::<u32, Seq<char>>(
                facts.train_context,
            )
            &&& match number_at(metadata, arch@ + ".attention.head_count_kv"@) {
                Ok(n) => facts.kv_heads == n,
                Err(_) => facts.kv_heads == facts.heads,
            }
        },
{
}

/// A KV cache whose bytes, and every product on the way to them, fit sixty-four bits
/// is counted: twice as many values as KV heads, a head's width, tokens and layers
/// make, in so many bytes each.
pub proof fn law_cache_that_fits_is_counted(
    facts: ModelFacts,
    layers: u32,
    max_context: u32,
    dtype: KvDtype,
)
    requires
        facts.heads != 0,
        layers > 0,
    ensures
        kv_fits(facts, layers, max_context, dtype) <==> {
            &&& 2 * facts.kv_heads * (facts.hidden_dim as int / facts.heads as int) <= u64::MAX
            &&& 2 * facts.kv_heads * (facts.hidden_dim as int / facts.heads as int) * max_context
                * layers * 2 <= u64::MAX
        },
{
    let token = 2 * facts.kv_heads * (facts.hidden_dim as int / facts.heads as int);
    assert(token >= 0) by (nonlinear_arith)
        requires
            token == 2 * facts.kv_heads * (facts.hidden_dim as int / facts.heads as int),
            facts.heads > 0,
    ;
    let all = token * max_context;
    assert(all >= 0) by (nonlinear_arith)
        requires
            all == token * max_context,
            token >= 0,
    ;
    assert(all * layers >= all) by (nonlinear_arith)
        requires
            all >= 0,
            layers >= 1,
    ;
}

/// What contracts speak of are a model's own figures.
pub proof fn law_facts_are_the_figures(facts: ModelFacts)
    ensures
        facts@.arch == facts.arch@,
        facts@.layers == facts.layers,
        facts@.hidden_dim == facts.hidden_dim,
        facts@.heads == facts.heads,
        facts@.kv_heads == facts.kv_heads,
        facts@.train_context == facts.train_context,
{
}

/// A refusal by the engine says just what is said.
pub proof fn law_engine_errors_say_what_is_said(message: String, said: Seq<char>)
    ensures
        engine_error(Error::Engine(message), said) <==> message@ == said,
        !engine_error(Error::UnsupportedArch(message), said),
{
}

/// The bytes of a KV cache: keys and values of each KV head, for every token of a context
/// and every layer.
pub open spec fn cache_bytes(
    facts: ModelFacts,
    layers: int,
    max_context: u32,
    dtype: KvDtype,
) -> int {
    2 * facts.kv_heads * (facts.hidden_dim as int / facts.heads as int) * max_context * layers
        * dtype.bytes()
}

/// Every token of every layer takes as much: two bytes for each key and each value of each
/// KV head. So the cache of two contexts is that of the one and that of the other, and so
/// for layers, however many they are.
pub proof fn law_every_token_of_every_layer_is_cached(
    facts: ModelFacts,
    layers: int,
    more_layers: int,
    context: u32,
    more: u32,
)
    requires
        facts.heads != 0,
        context + more <= u32::MAX,
    ensures
        cache_bytes(facts, 1, 1, KvDtype::F16) == 4 * (facts.kv_heads * (facts.hidden_dim as int
            / facts.heads as int)),
        cache_bytes(facts, layers, context, KvDtype::F16) == (context * layers) * cache_bytes(
            facts,
            1,
            1,
            KvDtype::F16,
        ),
        cache_bytes(facts, layers, (context + more) as u32, KvDtype::F16) == cache_bytes(
            facts,
            layers,
            context,
            KvDtype::F16,
        ) + cache_bytes(facts, layers, more, KvDtype::F16),
        cache_bytes(facts, layers + more_layers, context, KvDtype::F16) == cache_bytes(
            facts,
            layers,
            context,
            KvDtype::F16,
        ) + cache_bytes(facts, more_layers, context, KvDtype::F16),
{
    let (k, w) = (facts.kv_heads as int, facts.hidden_dim as int / facts.heads as int);
    let (c, m) = (context as int, more as int);
    let t = 2 * k * w;
    assert(t == 2 * (k * w)) by (nonlinear_arith)
        requires
            t == 2 * k * w,
    ;
    assert(t * 1 * 1 * 2 == 4 * (k * w)) by (nonlinear_arith)
        requires
            t == 2 * (k * w),
    ;
    let one = t * 1 * 1 * 2;
    assert(one == 2 * t);
    assert(t * c * layers * 2 == (c * layers) * one) by (nonlinear_arith)
        requires
            one == 2 * t,
    ;
    assert(t * (c + m) * layers * 2 == t * c * layers * 2 + t * m * layers * 2)
        by (nonlinear_arith);
    assert(t * c * (layers + more_layers) * 2 == t * c * layers * 2 + t * c * more_layers * 2)
        by (nonlinear_arith);
}

}
