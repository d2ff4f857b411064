//! The rules of a shard: what it accepts, what it holds, and what it reports.
//!
//! A shard holds a contiguous layer range and reads only that range's tensors.
//! What it takes and returns follows from which end it owns: the shard with
//! layer 0 takes token ids, the one with the last layer returns logits, and
//! everything else is hidden states both ways. The arithmetic of the layers is
//! the engine's; everything around it is here.

use vstd::arithmetic::div_mod::lemma_fundamental_div_mod;
use vstd::prelude::*;

use crate::engine::abi::{Payload, ShardSpec, ShardStats};
use crate::engine::error::Error;
use crate::engine::facts::{cache_bytes, facts_of, kv_fits, Facts, ModelFacts};
use crate::engine::gguf::{block_size, type_size, Content, TensorInfo};
use crate::engine::inventory::{count_elements, elements, layer_index, lemma_elements_is_product, lemma_index_named, names_layer, product, refused, Refusal};
use crate::table::Table;
use crate::text::{begins, chars_of, find, number_within, parse_u32, piece, same, starts_with};

verus! {

/// Whether a tensor belongs to a layer of a range, by its name.
pub open spec fn belongs(name: Seq<char>, first_layer: u32, last_layer: u32) -> bool {
    &&& begins(name, "blk."@)
    &&& match number_within(layer_index(name), u32::MAX as nat) {
        Some(index) => first_layer <= index < last_layer,
        None => false,
    }
}

/// Whether a tensor belongs to a layer of a range, by its name.
pub fn in_range(name: &str, first_layer: u32, last_layer: u32) -> (out: bool)
    ensures
        out == belongs(name@, first_layer, last_layer),
{
    let chars = chars_of(name);
    let prefix = chars_of("blk.");
    proof {
        reveal_strlit("blk.");
    }
    if !starts_with(chars.as_slice(), prefix.as_slice()) {
        return false;
    }
    let rest = piece(chars.as_slice(), 4, chars.len());
    assert(rest@ =~= name@.skip(4));
    let at = find(rest.as_slice(), '.');
    let index = piece(rest.as_slice(), 0, at);
    assert(index@ =~= layer_index(name@));
    match parse_u32(index.as_slice()) {
        Some(index) => index >= first_layer && index < last_layer,
        None => false,
    }
}

/// A figure that fits sixty-four bits.
pub open spec fn within(n: nat) -> Option<nat> {
    if n <= u64::MAX {
        Some(n)
    } else {
        None
    }
}

/// The sum of two figures, where it fits.
pub open spec fn plus(a: Option<nat>, b: Option<nat>) -> Option<nat> {
    match (a, b) {
        (Some(x), Some(y)) => within(x + y),
        _ => None,
    }
}

/// A machine figure as a number.
pub open spec fn figure(n: Option<u64>) -> Option<nat> {
    match n {
        Some(n) => Some(n as nat),
        None => None,
    }
}

fn sum(a: Option<u64>, b: Option<u64>) -> (out: Option<u64>)
    ensures
        figure(out) == plus(figure(a), figure(b)),
{
    match (a, b) {
        (Some(x), Some(y)) => x.checked_add(y),
        _ => None,
    }
}

/// The bytes of a tensor as it is stored.
pub open spec fn stored(tensor: TensorInfo) -> Option<nat> {
    match elements(tensor.shape@) {
        Some(n) => within(
            n / tensor.ggml_dtype.block_values() * tensor.ggml_dtype.block_bytes(),
        ),
        None => None,
    }
}

/// The bytes of a tensor whose values are widened to four bytes each.
pub open spec fn widened(tensor: TensorInfo) -> Option<nat> {
    match elements(tensor.shape@) {
        Some(n) => within(n * 4),
        None => None,
    }
}

/// The stored bytes of a tensor by name, zero where there is none.
pub open spec fn stored_at(tensors: Table<TensorInfo>, name: Seq<char>) -> Option<nat> {
    match tensors.value(name) {
        Some(tensor) => stored(tensor),
        None => Some(0),
    }
}

/// The stored bytes of the tensors of a layer range.
pub open spec fn blocks(
    entries: Seq<(String, TensorInfo)>,
    first_layer: u32,
    last_layer: u32,
) -> Option<nat>
    decreases entries.len(),
{
    if entries.len() == 0 {
        Some(0)
    } else {
        let rest = blocks(entries.drop_last(), first_layer, last_layer);
        if belongs(entries.last().0@, first_layer, last_layer) {
            plus(rest, stored(entries.last().1))
        } else {
            rest
        }
    }
}

/// What the embedding takes: its values widened, where the shard owns it.
pub open spec fn embedding(tensors: Table<TensorInfo>, first_layer: u32) -> Option<nat> {
    if first_layer != 0 {
        Some(0)
    } else {
        match tensors.value("token_embd.weight"@) {
            Some(tensor) => widened(tensor),
            None => Some(0),
        }
    }
}

/// What the output head takes, where the shard owns it. A tied head reuses the
/// embedding tensor in its stored form.
pub open spec fn head(tensors: Table<TensorInfo>, owns_head: bool) -> Option<nat> {
    let projection = if tensors.value("output.weight"@) is Some {
        "output.weight"@
    } else {
        "token_embd.weight"@
    };
    if owns_head {
        plus(stored_at(tensors, "output_norm.weight"@), stored_at(tensors, projection))
    } else {
        Some(0)
    }
}

/// The bytes that a shard holds resident, where they fit sixty-four bits.
pub open spec fn shard_weight(content: Content, spec: ShardSpec, layers: u32) -> Option<nat> {
    plus(
        plus(
            blocks(content.tensor_infos.entries@, spec.first_layer, spec.last_layer),
            embedding(content.tensor_infos, spec.first_layer),
        ),
        head(content.tensor_infos, spec.last_layer == layers),
    )
}

fn stored_bytes(tensor: &TensorInfo) -> (out: Option<u64>)
    ensures
        figure(out) == stored(*tensor),
{
    match count_elements(tensor.shape.as_slice()) {
        Some(n) => {
            let block: u64 = block_size(tensor.ggml_dtype);
            (n / block).checked_mul(type_size(tensor.ggml_dtype))
        },
        None => None,
    }
}

fn stored_bytes_at(tensors: &Table<TensorInfo>, name: &str) -> (out: Option<u64>)
    ensures
        figure(out) == stored_at(*tensors, name@),
{
    match tensors.get(name) {
        Some(tensor) => stored_bytes(tensor),
        None => Some(0),
    }
}

/// Bytes this shard holds resident, which is what a memory check needs. The
/// file's own size describes the whole model and says nothing about a range;
/// and the embedding is widened on load, so on disk it is a fraction of what
/// it costs in memory. `None` where a figure does not fit.
pub fn shard_weight_bytes(content: &Content, spec: &ShardSpec, layers: u32) -> (out: Option<u64>)
    ensures
        figure(out) == shard_weight(*content, *spec, layers),
{
    let tensors = &content.tensor_infos;
    let ghost entries = tensors.entries@;
    let mut held: Option<u64> = Some(0);
    for i in 0..tensors.entries.len()
        invariant
            entries == tensors.entries@,
            figure(held) == blocks(entries.take(i as int), spec.first_layer, spec.last_layer),
    {
        let entry = &tensors.entries[i];
        let ghost next = entries.take(i as int + 1);
        assert(next.drop_last() =~= entries.take(i as int));
        assert(next.last() == entries[i as int]);
        if in_range(entry.0.as_str(), spec.first_layer, spec.last_layer) {
            held = sum(held, stored_bytes(&entry.1));
        }
    }
    assert(entries.take(entries.len() as int) =~= entries);
    let embedded: Option<u64> = if spec.first_layer != 0 {
        Some(0)
    } else {
        match tensors.get("token_embd.weight") {
            Some(tensor) => match count_elements(tensor.shape.as_slice()) {
                Some(n) => n.checked_mul(4),
                None => None,
            },
            None => Some(0),
        }
    };
    let projected: Option<u64> = if spec.last_layer != layers {
        Some(0)
    } else if tensors.contains_key("output.weight") {
        sum(
            stored_bytes_at(tensors, "output_norm.weight"),
            stored_bytes_at(tensors, "output.weight"),
        )
    } else {
        sum(
            stored_bytes_at(tensors, "output_norm.weight"),
            stored_bytes_at(tensors, "token_embd.weight"),
        )
    };
    sum(sum(held, embedded), projected)
}

/// Whether an engine can hold a shard of a model, or why not.
pub open spec fn admission(content: Content, spec: ShardSpec) -> Result<Facts, ShardRefusal> {
    match facts_of(content.metadata) {
        Err(said) => Err(ShardRefusal::Model(Refusal::Said(said))),
        Ok(facts) => if facts.arch != "llama"@ {
            Err(ShardRefusal::Model(Refusal::Arch(facts.arch)))
        } else if spec.last_layer > facts.layers || spec.first_layer > spec.last_layer {
            Err(
                ShardRefusal::Range {
                    asked: (spec.first_layer, spec.last_layer),
                    have: facts.layers,
                },
            )
        } else {
            Ok(facts)
        },
    }
}

/// Why a shard was refused.
pub enum ShardRefusal {
    Model(Refusal),
    Range { asked: (u32, u32), have: u32 },
}

/// Whether an error is the one that a refusal calls for.
pub open spec fn shard_refused(error: Error, refusal: ShardRefusal) -> bool {
    match refusal {
        ShardRefusal::Model(refusal) => refused(error, refusal),
        ShardRefusal::Range { asked, have } => error == (Error::UnsupportedRange { asked, have }),
    }
}

/// Reads a model's shape and checks that a range of it can be held.
pub fn check_model(content: &Content, spec: &ShardSpec) -> (out: Result<ModelFacts, Error>)
    ensures
        match admission(*content, *spec) {
            Ok(facts) => out matches Ok(f) && f@ == facts,
            Err(refusal) => out matches Err(e) && shard_refused(e, refusal),
        },
{
    let facts = ModelFacts::read(&content.metadata)?;
    if !same(facts.arch.as_str(), "llama") {
        return Err(Error::UnsupportedArch(facts.arch));
    }
    if spec.last_layer > facts.layers || spec.first_layer > spec.last_layer {
        return Err(
            Error::UnsupportedRange {
                asked: (spec.first_layer, spec.last_layer),
                have: facts.layers,
            },
        );
    }
    Ok(facts)
}

/// What a shard knows of itself between calls.
pub struct CandleShard {
    pub facts: ModelFacts,
    pub spec: ShardSpec,
    pub weight_bytes: u64,
    /// One KV cache means one session. A second concurrent session needs
    /// either a second instance or cache swapping; neither is built.
    pub active: Option<u64>,
    pub decodes: u64,
    pub decode_micros: u64,
}

impl CandleShard {
    /// The range lies within the model.
    pub open spec fn wf(self) -> bool {
        self.spec.first_layer <= self.spec.last_layer <= self.facts.layers
    }

    /// Opens a shard of a model. The weights it will hold have to be countable.
    pub fn open(content: &Content, spec: ShardSpec) -> (out: Result<Self, Error>)
        requires
            admission(*content, spec) matches Ok(facts) ==> shard_weight(
                *content,
                spec,
                facts.layers,
            ) is Some,
        ensures
            match admission(*content, spec) {
                Ok(facts) => {
                    &&& out matches Ok(shard)
                    &&& shard.wf()
                    &&& shard.facts@ == facts
                    &&& shard.spec == spec
                    &&& Some(shard.weight_bytes as nat) == shard_weight(
                        *content,
                        spec,
                        facts.layers,
                    )
                    &&& shard.active is None
                    &&& shard.decodes == 0
                    &&& shard.decode_micros == 0
                },
                Err(refusal) => out matches Err(e) && shard_refused(e, refusal),
            },
    {
        let facts = check_model(content, &spec)?;
        let weight_bytes: u64 = match shard_weight_bytes(content, &spec, facts.layers) {
            Some(bytes) => bytes,
            None => 0,
        };
        Ok(
            CandleShard {
                facts,
                spec,
                weight_bytes,
                active: None,
                decodes: 0,
                decode_micros: 0,
            },
        )
    }

    /// The model's shape.
    pub fn facts(&self) -> (out: &ModelFacts)
        ensures
            *out == self.facts,
    {
        &self.facts
    }

    /// What was loaded.
    pub fn spec(&self) -> (out: &ShardSpec)
        ensures
            *out == self.spec,
    {
        &self.spec
    }

    /// Whether token ids come in here.
    pub fn owns_embedding(&self) -> (out: bool)
        ensures
            out == (self.spec.first_layer == 0),
    {
        self.spec.first_layer == 0
    }

    /// Whether logits go out here.
    pub fn owns_head(&self) -> (out: bool)
        ensures
            out == (self.spec.last_layer == self.facts.layers),
    {
        self.spec.last_layer == self.facts.layers
    }

    /// Whether a payload is one that this shard takes.
    pub open spec fn takes(self, input: Payload) -> bool {
        match input {
            Payload::Tokens(_) => self.spec.first_layer == 0,
            Payload::Hidden(_) => self.spec.first_layer != 0,
            Payload::Logits(_) => false,
        }
    }

    /// Refuses a payload that this shard does not take.
    pub fn check_input(&self, input: &Payload) -> (out: Result<(), Error>)
        ensures
            match out {
                Ok(()) => self.takes(*input),
                Err(Error::WrongPayload { held, got }) => {
                    &&& !self.takes(*input)
                    &&& held == (self.spec.first_layer, self.spec.last_layer)
                    &&& got@ == input.kind_shown()
                },
                Err(_) => false,
            },
    {
        let taken = match input {
            Payload::Tokens(_) => self.owns_embedding(),
            Payload::Hidden(_) => !self.owns_embedding(),
            Payload::Logits(_) => false,
        };
        if taken {
            Ok(())
        } else {
            Err(
                Error::WrongPayload {
                    held: (self.spec.first_layer, self.spec.last_layer),
                    got: input.kind(),
                },
            )
        }
    }

    /// Begins a prefill: makes the session the active one, and says whether the
    /// KV cache has to be cleared first.
    pub fn begin_prefill(&mut self, session: u64, pos_start: u32) -> (clear: bool)
        ensures
            clear == clears(*old(self), session, pos_start),
            *final(self) == happened(*old(self), Happening::Prefill { session }),
    {
        let clear = match self.active {
            Some(active) => active != session || pos_start == 0,
            None => true,
        };
        self.active = Some(session);
        clear
    }

    /// Begins a decode, which only the active session may.
    pub fn begin_decode(&self, session: u64) -> (out: Result<(), Error>)
        ensures
            out == (if may_decode(*self, session) {
                Ok::<(), Error>(())
            } else {
                Err(Error::UnknownSession(session))
            }),
    {
        match self.active {
            Some(active) => if active == session {
                Ok(())
            } else {
                Err(Error::UnknownSession(session))
            },
            None => Err(Error::UnknownSession(session)),
        }
    }

    /// Counts a decode that succeeded. The first is not timed: an engine may
    /// compile its kernels on the first call, which costs ten decodes' worth.
    pub fn end_decode(&mut self, micros: u64)
        requires
            old(self).decodes < u64::MAX,
            old(self).decodes > 0 ==> old(self).decode_micros + micros <= u64::MAX,
        ensures
            *final(self) == happened(*old(self), Happening::Decode { micros }),
    {
        self.decodes = self.decodes + 1;
        if self.decodes > 1 {
            self.decode_micros = self.decode_micros + micros;
        }
    }

    /// Forgets a session, and says whether the KV cache has to be cleared.
    pub fn drop_session(&mut self, session: u64) -> (clear: bool)
        ensures
            clear == may_decode(*old(self), session),
            *final(self) == happened(*old(self), Happening::Drop { session }),
    {
        let clear = match self.active {
            Some(active) => active == session,
            None => false,
        };
        if clear {
            self.active = None;
        }
        clear
    }

    /// What the shard reports.
    pub fn stats(&self) -> (out: ShardStats)
        requires
            self.wf(),
            self.facts.heads != 0,
            kv_fits(
                self.facts,
                (self.spec.last_layer - self.spec.first_layer) as u32,
                self.spec.max_context,
                self.spec.kv_dtype,
            ),
        ensures
            out.sessions == if self.active is Some {
                1nat
            } else {
                0nat
            },
            out.kv_bytes == cache_bytes(
                self.facts,
                self.spec.last_layer - self.spec.first_layer,
                self.spec.max_context,
                self.spec.kv_dtype,
            ),
            out.weight_bytes == self.weight_bytes,
            out.decode_micros == mean_micros(*self),
    {
        ShardStats {
            sessions: if self.active.is_some() {
                1
            } else {
                0
            },
            kv_bytes: self.facts.kv_bytes(
                self.spec.layers(),
                self.spec.max_context,
                self.spec.kv_dtype,
            ),
            weight_bytes: self.weight_bytes,
            decode_micros: if self.decodes > 1 {
                self.decode_micros / (self.decodes - 1)
            } else {
                0
            },
        }
    }
}

/// Splitting a range in two changes nothing of what its blocks weigh.
pub proof fn law_split_keeps_the_blocks(
    entries: Seq<(String, TensorInfo)>,
    first_layer: u32,
    cut: u32,
    last_layer: u32,
)
    requires
        first_layer <= cut <= last_layer,
        blocks(entries, first_layer, last_layer) is Some,
    ensures
        plus(blocks(entries, first_layer, cut), blocks(entries, cut, last_layer)) == blocks(
            entries,
            first_layer,
            last_layer,
        ),
    decreases entries.len(),
{
    if entries.len() > 0 {
        law_split_keeps_the_blocks(entries.drop_last(), first_layer, cut, last_layer);
    }
}

/// Two shards weigh what the whole weighs, the embedding and the head included:
/// a range that is cut in two, each part with a layer, has its embedding in the
/// first and its head in the second.
pub proof fn law_split_keeps_the_weight(
    content: Content,
    whole: ShardSpec,
    first: ShardSpec,
    second: ShardSpec,
    layers: u32,
)
    requires
        whole.last_layer <= layers,
        first.first_layer == whole.first_layer,
        first.last_layer == second.first_layer,
        second.last_layer == whole.last_layer,
        first.first_layer < first.last_layer,
        second.first_layer < second.last_layer,
        shard_weight(content, whole, layers) is Some,
    ensures
        plus(shard_weight(content, first, layers), shard_weight(content, second, layers))
            == shard_weight(content, whole, layers),
{
    law_split_keeps_the_blocks(
        content.tensor_infos.entries@,
        whole.first_layer,
        first.last_layer,
        whole.last_layer,
    );
}

/// Whether a tensor's name holds the number of one of some layers.
pub open spec fn names_layer_between(name: Seq<char>, first_layer: u32, last_layer: u32) -> bool {
    exists|i: nat| first_layer <= i < last_layer && #[trigger] names_layer(name, i)
}

/// The bytes of the tensors whose names hold the number of one of some layers.
pub open spec fn weight_between(
    entries: Seq<(String, TensorInfo)>,
    first_layer: u32,
    last_layer: u32,
) -> nat
    decreases entries.len(),
{
    if entries.len() == 0 {
        0
    } else {
        let (name, tensor) = (entries.last().0@, entries.last().1);
        weight_between(entries.drop_last(), first_layer, last_layer) + if names_layer_between(
            name,
            first_layer,
            last_layer,
        ) {
            product(tensor.shape@) / tensor.ggml_dtype.block_values()
                * tensor.ggml_dtype.block_bytes()
        } else {
            0
        }
    }
}

/// A tensor belongs to a shard exactly where its name holds the number of one of the
/// shard's layers.
pub proof fn law_shard_takes_the_tensors_of_its_layers(
    name: Seq<char>,
    first_layer: u32,
    last_layer: u32,
)
    ensures
        belongs(name, first_layer, last_layer) <==> names_layer_between(
            name,
            first_layer,
            last_layer,
        ),
{
    if belongs(name, first_layer, last_layer) {
        let i = number_within(layer_index(name), u32::MAX as nat).unwrap();
        lemma_index_named(name, i);
    }
    if names_layer_between(name, first_layer, last_layer) {
        let i = choose|i: nat| first_layer <= i < last_layer && #[trigger] names_layer(name, i);
        lemma_index_named(name, i);
    }
}

proof fn lemma_stored(tensor: TensorInfo)
    ensures
        stored(tensor) matches Some(n) ==> n == product(tensor.shape@)
            / tensor.ggml_dtype.block_values() * tensor.ggml_dtype.block_bytes() && n <= u64::MAX,
        widened(tensor) matches Some(n) ==> n == 4 * product(tensor.shape@),
{
    lemma_elements_is_product(tensor.shape@);
}

proof fn lemma_blocks_weigh(
    entries: Seq<(String, TensorInfo)>,
    first_layer: u32,
    last_layer: u32,
)
    ensures
        blocks(entries, first_layer, last_layer) matches Some(n) ==> n == weight_between(
            entries,
            first_layer,
            last_layer,
        ),
    decreases entries.len(),
{
    if entries.len() > 0 {
        lemma_blocks_weigh(entries.drop_last(), first_layer, last_layer);
        law_shard_takes_the_tensors_of_its_layers(entries.last().0@, first_layer, last_layer);
        lemma_stored(entries.last().1);
    }
}

/// A tensor's bytes under a name, none where there is no such tensor.
pub open spec fn named_weight(tensors: Table<TensorInfo>, name: Seq<char>) -> nat {
    match tensors.value(name) {
        Some(tensor) => product(tensor.shape@) / tensor.ggml_dtype.block_values()
            * tensor.ggml_dtype.block_bytes(),
        None => 0,
    }
}

/// A shard weighs what the tensors of its layers do; with the first layer it holds
/// the embedding too, at four bytes a value, and with the last the output's norm and
/// projection, which is the embedding where there is no other.
pub proof fn law_shard_weighs_its_tensors(content: Content, spec: ShardSpec, layers: u32, n: nat)
    requires
        shard_weight(content, spec, layers) == Some(n),
    ensures
        ({
            let tensors = content.tensor_infos;
            let embedding = match tensors.value("token_embd.weight"@) {
                Some(tensor) => 4 * product(tensor.shape@),
                None => 0,
            };
            let projection = if tensors.value("output.weight"@) is Some {
                named_weight(tensors, "output.weight"@)
            } else {
                named_weight(tensors, "token_embd.weight"@)
            };
            n == weight_between(tensors.entries@, spec.first_layer, spec.last_layer) + (
            if spec.first_layer == 0 {
                embedding
            } else {
                0
            }) + if spec.last_layer == layers {
                named_weight(tensors, "output_norm.weight"@) + projection
            } else {
                0
            }
        }),
        n <= u64::MAX,
{
    let tensors = content.tensor_infos;
    lemma_blocks_weigh(tensors.entries@, spec.first_layer, spec.last_layer);
    if let Some(tensor) = tensors.value("token_embd.weight"@) {
        lemma_stored(tensor);
    }
    if let Some(tensor) = tensors.value("output.weight"@) {
        lemma_stored(tensor);
    }
    if let Some(tensor) = tensors.value("output_norm.weight"@) {
        lemma_stored(tensor);
    }
}

/// A shard is admitted exactly where the model's facts are there, it is a Llama, and
/// the layers asked for are layers of it in order.
pub proof fn law_which_shards_are_admitted(content: Content, spec: ShardSpec)
    ensures
        admission(content, spec) is Ok <==> {
            &&& facts_of(content.metadata) matches Ok(facts)
            &&& facts.arch == "llama"@
            &&& spec.first_layer <= spec.last_layer <= facts.layers
        },
        admission(content, spec) matches Ok(facts) ==> facts_of(content.metadata) == Ok::<
            Facts,
            Seq<char>,
        >(facts),
{
}

/// The shard with the first layer takes tokens, every other one hidden states, and
/// none takes logits.
pub proof fn law_what_a_shard_takes(shard: CandleShard, input: Payload)
    ensures
        shard.takes(input) <==> (shard.spec.first_layer == 0 && input is Tokens) || (
        shard.spec.first_layer > 0 && input is Hidden),
{
}

/// What happens to a shard that runs.
pub enum Happening {
    /// A session's prompt is run.
    Prefill { session: u64 },
    /// A token was run, in so many microseconds.
    Decode { micros: u64 },
    /// A session ends.
    Drop { session: u64 },
}

/// Whether a session is the one whose tokens can be run.
pub open spec fn may_decode(shard: CandleShard, session: u64) -> bool {
    shard.active == Some(session)
}

/// Whether what was kept of the session before is to be cleared: for another session,
/// and for a prompt that begins again.
pub open spec fn clears(shard: CandleShard, session: u64, pos_start: u32) -> bool {
    shard.active != Some(session) || pos_start == 0
}

/// The shard after something happened. The first token's time is not counted: it
/// warms the engine up.
pub open spec fn happened(shard: CandleShard, what: Happening) -> CandleShard {
    match what {
        Happening::Prefill { session } => CandleShard { active: Some(session), ..shard },
        Happening::Decode { micros } => CandleShard {
            decodes: (shard.decodes + 1) as u64,
            decode_micros: (shard.decode_micros + if shard.decodes > 0 {
                micros
            } else {
                0
            }) as u64,
            ..shard
        },
        Happening::Drop { session } => CandleShard {
            active: if may_decode(shard, session) {
                None
            } else {
                shard.active
            },
            ..shard
        },
    }
}

/// The mean time of a token, the first left out.
pub open spec fn mean_micros(shard: CandleShard) -> int {
    if shard.decodes > 1 {
        shard.decode_micros as int / (shard.decodes - 1)
    } else {
        0
    }
}

/// The shard after some things happened, one after the other.
pub open spec fn all_happened(shard: CandleShard, events: Seq<Happening>) -> CandleShard
    decreases events.len(),
{
    if events.len() == 0 {
        shard
    } else {
        happened(all_happened(shard, events.drop_last()), events.last())
    }
}

/// Whether a session's prompt was run at `at`, and since then no other's was and it
/// did not end.
pub open spec fn runs_since(events: Seq<Happening>, session: u64, at: int) -> bool {
    &&& 0 <= at < events.len()
    &&& events[at] == (Happening::Prefill { session })
    &&& forall|i: int|
        at < i < events.len() ==> !(#[trigger] events[i] is Prefill) && events[i] != (
        Happening::Drop { session })
}

/// A session's tokens can be run exactly from its prompt on, until another session's
/// prompt is run or it ends; what else happens does not matter, and nothing changes
/// which layers the shard holds.
pub proof fn law_tokens_run_after_their_prompt(
    shard: CandleShard,
    events: Seq<Happening>,
    session: u64,
)
    requires
        shard.active is None,
    ensures
        may_decode(all_happened(shard, events), session) <==> exists|at: int| #[trigger]
            runs_since(events, session, at),
        all_happened(shard, events).spec == shard.spec,
        all_happened(shard, events).facts == shard.facts,
        all_happened(shard, events).weight_bytes == shard.weight_bytes,
    decreases events.len(),
{
    if events.len() > 0 {
        let init = events.drop_last();
        let last = events.len() - 1;
        law_tokens_run_after_their_prompt(shard, init, session);
        let before = all_happened(shard, init);
        if may_decode(all_happened(shard, events), session) {
            if events[last] == (Happening::Prefill { session }) {
                assert(runs_since(events, session, last));
            } else {
                let at = choose|at: int| #[trigger] runs_since(init, session, at);
                assert(init[at] == events[at]);
                assert forall|i: int| at < i < events.len() implies !(
                #[trigger] events[i] is Prefill) && events[i] != (Happening::Drop {
                    session,
                }) by {
                    if i < last {
                        assert(init[i] == events[i]);
                    }
                }
                assert(runs_since(events, session, at));
            }
        }
        if exists|at: int| #[trigger] runs_since(events, session, at) {
            let at = choose|at: int| #[trigger] runs_since(events, session, at);
            if at < last {
                assert(init[at] == events[at]);
                assert forall|i: int| at < i < init.len() implies !(
                #[trigger] init[i] is Prefill) && init[i] != (Happening::Drop { session }) by {
                    assert(init[i] == events[i]);
                }
                assert(runs_since(init, session, at));
                assert(!(events[last] is Prefill) && events[last] != (Happening::Drop {
                    session,
                }));
            }
        }
    }
}

/// The mean time of some tokens is that of all but the first: so much that as many
/// times it as there are others is no more than their times together, and once more
/// is. Every token counts once.
pub proof fn law_mean_leaves_out_the_first(shard: CandleShard, micros: u64)
    requires
        shard.decodes < u64::MAX,
        shard.decode_micros + micros <= u64::MAX,
    ensures
        ({
            let after = happened(shard, Happening::Decode { micros });
            &&& after.decodes == shard.decodes + 1
            &&& after.decode_micros == shard.decode_micros + if shard.decodes == 0 {
                0
            } else {
                micros as int
            }
            &&& after.active == shard.active
        }),
        shard.decodes <= 1 ==> mean_micros(shard) == 0,
        shard.decodes > 1 ==> mean_micros(shard) * (shard.decodes - 1) <= shard.decode_micros < (
        mean_micros(shard) + 1) * (shard.decodes - 1),
{
    if shard.decodes > 1 {
        let (n, d) = (shard.decode_micros as int, shard.decodes - 1);
        lemma_fundamental_div_mod(n, d);
        assert((n / d) * d <= n < (n / d + 1) * d) by (nonlinear_arith)
            requires
                n == d * (n / d) + n % d,
                0 <= n % d < d,
        ;
    }
}

/// What a session kept is cleared for a prompt that begins at the first position, and
/// for every other session's.
pub proof fn law_what_is_cleared(shard: CandleShard, session: u64, pos_start: u32)
    ensures
        pos_start == 0 ==> clears(shard, session, pos_start),
        pos_start > 0 ==> (clears(shard, session, pos_start) <==> !may_decode(shard, session)),
{
}

/// A figure is the number, where there is one.
pub proof fn law_figures_are_the_numbers(n: u64, asked: (u32, u32), have: u32, error: Error)
    ensures
        figure(Some(n)) == Some(n as nat),
        figure(None) is None,
        shard_refused(error, ShardRefusal::Range { asked, have }) <==> error == (
        Error::UnsupportedRange { asked, have }),
{
}

/// A shard's weight is counted wherever each of its tensors' and all of them together fit
/// sixty-four bits, and adding is adding.
pub proof fn law_weights_add_up(a: nat, b: nat)
    ensures
        a + b <= u64::MAX ==> plus(Some(a), Some(b)) == Some(a + b),
        a + b > u64::MAX ==> plus(Some(a), Some(b)) is None,
        plus(None, Some(b)) is None && plus(Some(a), None) is None,
{
}

}
