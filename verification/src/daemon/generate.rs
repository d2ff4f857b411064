//! The decode loop, driving a chain of shards.
//!
//! Sampling is the master's, so it lives here rather than in the engine. Tokens
//! go in as ids and come out as ids.

use vstd::arithmetic::power2::{lemma2_to64, lemma_pow2_pos, lemma_pow2_strictly_increases, lemma_pow2_unfold, pow2};
use vstd::prelude::*;
use vstd::string::StringExecFns;

use crate::engine::abi::{KvDtype, Payload, ShardSpec, WireDtype};
use crate::engine::error::{quoted, quoted_text};
use crate::net::control::Response;
use crate::net::digest::{hex_bytes, is_hex};
use crate::net::identity::DeviceId;
use crate::text::{chars_of, decimal, holds, is_digit, join2, join3, law_decimal_reads_back, lemma_before, number_text, number_within, parse_u32, same, split_first, split_once, text_of};

verus! {

/// The one session of a run.
pub const SESSION: u64 = 1;

/// What to run, and where.
#[derive(Clone, Debug)]
pub struct Options {
    pub max_new: u32,
    pub max_context: u32,
    /// Where each layer range runs, in order, tiling the model.
    pub places: Vec<Placement>,
    pub wire_dtype: WireDtype,
}

/// Where a layer range runs.
#[derive(Clone, Copy, Debug, PartialEq, Eq, Structural)]
pub struct Placement {
    pub first_layer: u32,
    pub last_layer: u32,
    pub host: Host,
}

/// A machine.
#[derive(Clone, Copy, Debug, PartialEq, Eq, Structural)]
pub enum Host {
    Here,
    Peer(DeviceId),
}

/// Whether a text names this machine.
pub open spec fn is_here(text: Seq<char>) -> bool {
    text == "local"@ || text == "here"@
}

/// What is said against a text that is no placement, if anything.
pub open spec fn placement_fault(text: Seq<char>) -> Option<Seq<char>> {
    match split_first(text, '@') {
        None => Some(quoted(text) + " is not first-last@where"@),
        Some((range, host)) => match split_first(range, '-') {
            None => Some(quoted(range) + " is not first-last"@),
            Some((first, last)) => if number_within(first, u32::MAX as nat) is None {
                Some("first layer"@)
            } else if number_within(last, u32::MAX as nat) is None {
                Some("last layer"@)
            } else if !is_here(host) && !is_hex(host, 8) {
                Some("device id"@)
            } else {
                None
            },
        },
    }
}

/// Whether a placement is the one that a text writes.
pub open spec fn placement_is(text: Seq<char>, placement: Placement) -> bool {
    match split_first(text, '@') {
        None => false,
        Some((range, host)) => match split_first(range, '-') {
            None => false,
            Some((first, last)) => {
                &&& number_within(first, u32::MAX as nat) == Some(placement.first_layer as nat)
                &&& number_within(last, u32::MAX as nat) == Some(placement.last_layer as nat)
                &&& match placement.host {
                    Host::Here => is_here(host),
                    Host::Peer(id) => !is_here(host) && is_hex(host, 8) && id.bytes()
                        == hex_bytes(host, 8),
                }
            },
        },
    }
}

impl Placement {
    /// `0-11@local`, or `11-22@` and a device id.
    pub fn parse(text: &str) -> (out: Result<Self, String>)
        ensures
            match placement_fault(text@) {
                None => out matches Ok(placement) && placement_is(text@, placement),
                Some(said) => out matches Err(s) && s@ == said,
            },
    {
        let chars = chars_of(text);
        let (range, host) = match split_once(chars.as_slice(), '@') {
            Some(parts) => parts,
            None => return Err(join2(quoted_text(text).as_str(), " is not first-last@where")),
        };
        let (first, last) = match split_once(range.as_slice(), '-') {
            Some(parts) => parts,
            None => {
                let range = text_of(range.as_slice());
                return Err(join2(quoted_text(range.as_str()).as_str(), " is not first-last"));
            },
        };
        let first_layer = match parse_u32(first.as_slice()) {
            Some(n) => n,
            None => return Err("first layer".to_owned()),
        };
        let last_layer = match parse_u32(last.as_slice()) {
            Some(n) => n,
            None => return Err("last layer".to_owned()),
        };
        let host = text_of(host.as_slice());
        let host = if same(host.as_str(), "local") || same(host.as_str(), "here") {
            Host::Here
        } else {
            match DeviceId::parse(host.as_str()) {
                Ok(id) => Host::Peer(id),
                Err(_) => return Err("device id".to_owned()),
            }
        };
        Ok(Placement { first_layer, last_layer, host })
    }
}

impl std::str::FromStr for Placement {
    type Err = String;

    /// `0-11@local`, or `11-22@` and a device id.
    fn from_str(text: &str) -> (out: Result<Self, String>)
        ensures
            match placement_fault(text@) {
                None => out matches Ok(placement) && placement_is(text@, placement),
                Some(said) => out matches Err(s) && s@ == said,
            },
    {
        Placement::parse(text)
    }
}

/// What crosses a shard boundary, by the name that the command line has for it.
pub fn wire_dtype(name: &str) -> (out: Result<WireDtype, String>)
    ensures
        match out {
            Ok(WireDtype::F16) => name@ == "f16"@,
            Ok(WireDtype::F32) => name@ == "f32"@ && name@ != "f16"@,
            Err(said) => {
                &&& name@ != "f16"@
                &&& name@ != "f32"@
                &&& said@ == "unknown wire dtype "@ + quoted(name@) + "; expected f16 or f32"@
            },
        },
{
    if same(name, "f16") {
        Ok(WireDtype::F16)
    } else if same(name, "f32") {
        Ok(WireDtype::F32)
    } else {
        Err(join3("unknown wire dtype ", quoted_text(name).as_str(), "; expected f16 or f32"))
    }
}

/// A layer range as messages show it.
pub open spec fn range_shown(first: nat, last: nat) -> Seq<char> {
    decimal(first) + ".."@ + decimal(last)
}

fn range_text(first: u32, last: u32) -> (out: String)
    ensures
        out@ == range_shown(first as nat, last as nat),
{
    join3(number_text(first as u128).as_str(), "..", number_text(last as u128).as_str())
}

/// The layer that the placements from `k` on have to begin at: where the one
/// before ends.
pub open spec fn due(places: Seq<Placement>, k: int) -> u32 {
    if k <= 0 {
        0
    } else {
        places[k - 1].last_layer
    }
}

/// What is said against a placement, if anything: that it does not begin where
/// it is due, or holds no layer.
pub open spec fn place_fault(places: Seq<Placement>, k: int) -> Option<Seq<char>> {
    let place = places[k];
    if place.first_layer != due(places, k) {
        Some("layers "@ + range_shown(due(places, k) as nat, place.first_layer as nat)
            + " are unplaced"@)
    } else if place.last_layer <= place.first_layer {
        Some(decimal(place.first_layer as nat) + "-"@ + decimal(place.last_layer as nat)
            + " is not a layer range"@)
    } else {
        None
    }
}

/// What is said against the first placement from `k` on that is at fault, or
/// against where they all end.
pub open spec fn tiling_fault(places: Seq<Placement>, layers: u32, k: int) -> Option<Seq<char>>
    decreases places.len() - k,
{
    if k >= places.len() {
        let next = due(places, places.len() as int);
        if next == layers {
            None
        } else {
            Some("placements cover 0.."@ + decimal(next as nat) + ", but the model has "@
                + decimal(layers as nat) + " layers"@)
        }
    } else if place_fault(places, k) is Some {
        place_fault(places, k)
    } else {
        tiling_fault(places, layers, k + 1)
    }
}

/// Every layer runs exactly once, in order. A gap silently drops layers and a
/// repeat silently runs them twice; both produce plausible-looking nonsense
/// rather than an error, so they are worth refusing up front.
pub fn check_tiling(places: &[Placement], layers: u32) -> (out: Result<(), String>)
    ensures
        match tiling_fault(places@, layers, 0) {
            None => out is Ok,
            Some(said) => out matches Err(s) && s@ == said,
        },
{
    let mut next: u32 = 0;
    for k in 0..places.len()
        invariant
            next == due(places@, k as int),
            tiling_fault(places@, layers, 0) == tiling_fault(places@, layers, k as int),
    {
        let place = &places[k];
        if place.first_layer != next {
            return Err(
                join3("layers ", range_text(next, place.first_layer).as_str(), " are unplaced"),
            );
        }
        if place.last_layer <= place.first_layer {
            let mut said = join3(
                number_text(place.first_layer as u128).as_str(),
                "-",
                number_text(place.last_layer as u128).as_str(),
            );
            said.append(" is not a layer range");
            return Err(said);
        }
        next = place.last_layer;
    }
    if next == layers {
        Ok(())
    } else {
        let mut said = join3(
            "placements cover 0..",
            number_text(next as u128).as_str(),
            ", but the model has ",
        );
        said.append(number_text(layers as u128).as_str());
        said.append(" layers");
        Err(said)
    }
}

/// Whether a placement holds a layer.
pub open spec fn holds_layer(place: Placement, layer: int) -> bool {
    place.first_layer <= layer < place.last_layer
}

/// Whether some placement holds a layer.
pub open spec fn placed(places: Seq<Placement>, layer: int) -> bool {
    exists|k: int| 0 <= k < places.len() && holds_layer(#[trigger] places[k], layer)
}

/// Placements that are accepted run every layer of the model exactly once.
pub proof fn law_accepted_placements_tile_the_model(places: Seq<Placement>, layers: u32)
    requires
        tiling_fault(places, layers, 0) is None,
    ensures
        forall|layer: int| 0 <= layer < layers ==> #[trigger] placed(places, layer),
        forall|layer: int, j: int, k: int|
            0 <= j < k < places.len() ==> !(holds_layer(#[trigger] places[j], layer)
                && #[trigger] holds_layer(places[k], layer)),
        forall|k: int|
            0 <= k < places.len() ==> (#[trigger] places[k]).last_layer <= layers,
{
    lemma_sound_places(places, layers, 0);
    assert forall|layer: int| 0 <= layer < layers implies #[trigger] placed(places, layer) by {
        lemma_some_place_holds(places, layer, places.len() as int);
    }
    assert forall|layer: int, j: int, k: int| 0 <= j < k < places.len() implies !(holds_layer(
        #[trigger] places[j],
        layer,
    ) && #[trigger] holds_layer(places[k], layer)) by {
        lemma_places_ascend(places, j, k);
    }
    assert forall|k: int| 0 <= k < places.len() implies (#[trigger] places[k]).last_layer
        <= layers by {
        lemma_places_end(places, k, places.len() - 1);
    }
}

/// Every placement begins where the one before ends, and holds a layer.
pub open spec fn chained(places: Seq<Placement>) -> bool {
    forall|k: int| 0 <= k < places.len() ==> #[trigger] place_fault(places, k) is None
}

proof fn lemma_sound_places(places: Seq<Placement>, layers: u32, k: int)
    requires
        0 <= k <= places.len(),
        tiling_fault(places, layers, k) is None,
        forall|i: int| 0 <= i < k ==> #[trigger] place_fault(places, i) is None,
    ensures
        chained(places),
        due(places, places.len() as int) == layers,
    decreases places.len() - k,
{
    if k < places.len() {
        lemma_sound_places(places, layers, k + 1);
    }
}

proof fn lemma_some_place_holds(places: Seq<Placement>, layer: int, n: int)
    requires
        chained(places),
        0 <= n <= places.len(),
        0 <= layer < due(places, n),
    ensures
        placed(places, layer),
    decreases n,
{
    if n > 0 {
        assert(place_fault(places, n - 1) is None);
        if layer >= places[n - 1].first_layer {
            assert(holds_layer(places[n - 1], layer));
        } else {
            lemma_some_place_holds(places, layer, n - 1);
        }
    }
}

proof fn lemma_places_ascend(places: Seq<Placement>, j: int, k: int)
    requires
        chained(places),
        0 <= j < k < places.len(),
    ensures
        places[j].last_layer <= places[k].first_layer,
    decreases k - j,
{
    assert(place_fault(places, k) is None);
    if j < k - 1 {
        lemma_places_ascend(places, j, k - 1);
        assert(place_fault(places, k - 1) is None);
    }
}

proof fn lemma_places_end(places: Seq<Placement>, k: int, last: int)
    requires
        chained(places),
        0 <= k <= last < places.len(),
    ensures
        places[k].last_layer <= places[last].last_layer,
{
    if k < last {
        lemma_places_ascend(places, k, last);
        assert(place_fault(places, last) is None);
    }
}

/// The shard that a placement asks for.
pub fn shard_spec(
    model_hash: &str,
    place: &Placement,
    max_context: u32,
    wire_dtype: WireDtype,
) -> (out: ShardSpec)
    ensures
        shard_for(out, model_hash@, *place, max_context, wire_dtype),
{
    ShardSpec {
        model_hash: model_hash.to_owned(),
        first_layer: place.first_layer,
        last_layer: place.last_layer,
        max_context,
        kv_dtype: KvDtype::F16,
        wire_dtype,
    }
}

/// Whether a shard is the one that a placement asks for.
pub open spec fn shard_for(
    spec: ShardSpec,
    model_hash: Seq<char>,
    place: Placement,
    max_context: u32,
    wire_dtype: WireDtype,
) -> bool {
    &&& spec.model_hash@ == model_hash
    &&& spec.first_layer == place.first_layer
    &&& spec.last_layer == place.last_layer
    &&& spec.max_context == max_context
    &&& spec.kv_dtype == KvDtype::F16
    &&& spec.wire_dtype == wire_dtype
}

/// The shards of a chain that covers every layer exactly once, in order; refused
/// where the placements do not.
pub fn pipeline_specs(options: &Options, model_hash: &str, layers: u32) -> (out: Result<
    Vec<ShardSpec>,
    String,
>)
    ensures
        pipelined(*options, model_hash@, layers, out),
{
    if let Err(said) = check_tiling(options.places.as_slice(), layers) {
        return Err(said);
    }
    let mut specs: Vec<ShardSpec> = Vec::new();
    for i in 0..options.places.len()
        invariant
            specs@.len() == i,
            forall|j: int|
                0 <= j < i ==> shard_for(
                    #[trigger] specs@[j],
                    model_hash@,
                    options.places@[j],
                    options.max_context,
                    options.wire_dtype,
                ),
    {
        let place = options.places[i];
        specs.push(shard_spec(model_hash, &place, options.max_context, options.wire_dtype));
    }
    Ok(specs)
}

/// What a device made of being asked to hold layers.
pub enum LoadOutcome {
    /// It holds them: the bytes of its weights and of its KV cache.
    Loaded { weight_bytes: u64, kv_bytes: u64 },
    /// It declined, in these words.
    Refused(String),
    /// It answered something else.
    Unexpected(Response),
}

/// What a device's answer to a load request comes to.
pub fn load_outcome(id: DeviceId, spec: &ShardSpec, response: Response) -> (out: LoadOutcome)
    ensures
        match response {
            Response::ShardLoaded { weight_bytes, kv_bytes } => out == (LoadOutcome::Loaded {
                weight_bytes,
                kv_bytes,
            }),
            Response::Refused(why) => out matches LoadOutcome::Refused(said) && said@ == id.shown()
                + " refused layers "@ + range_shown(
                spec.first_layer as nat,
                spec.last_layer as nat,
            ) + ": "@ + why@,
            other => out == LoadOutcome::Unexpected(other),
        },
{
    match response {
        Response::ShardLoaded { weight_bytes, kv_bytes } => LoadOutcome::Loaded {
            weight_bytes,
            kv_bytes,
        },
        Response::Refused(why) => {
            let mut said = join3(
                id.text().as_str(),
                " refused layers ",
                range_text(spec.first_layer, spec.last_layer).as_str(),
            );
            said.append(": ");
            said.append(why.as_str());
            LoadOutcome::Refused(said)
        },
        other => LoadOutcome::Unexpected(other),
    }
}

/// Where a logit stands in the order of single-precision values that puts
/// negative before positive and not-a-number at the ends, by its bits.
pub open spec fn logit_rank(bits: u32) -> int {
    if bits < 0x8000_0000 {
        bits as int
    } else {
        0x7fff_ffff - bits
    }
}

/// Whether a logit is the last of the greatest.
pub open spec fn is_argmax(logits: Seq<u32>, at: int) -> bool {
    &&& 0 <= at < logits.len()
    &&& forall|i: int|
        0 <= i < logits.len() ==> logit_rank(#[trigger] logits[i]) <= logit_rank(logits[at])
    &&& forall|i: int|
        at < i < logits.len() ==> logit_rank(#[trigger] logits[i]) < logit_rank(logits[at])
}

fn rank(bits: u32) -> (out: i64)
    ensures
        out == logit_rank(bits),
{
    if bits < 0x8000_0000 {
        bits as i64
    } else {
        0x7fff_ffff - bits as i64
    }
}

/// Whether a token is the one of the last of the greatest logits. Token ids have
/// thirty-two bits, and those of a greater vocabulary begin again.
pub open spec fn is_best(logits: Seq<u32>, token: u32) -> bool {
    exists|at: int| #[trigger] is_argmax(logits, at) && token == at % 0x1_0000_0000
}

/// Greedy sampling: the token with the greatest logit, the last of them where
/// several are equal.
pub fn argmax(logits: &Payload) -> (out: Result<u32, String>)
    ensures
        match *logits {
            Payload::Logits(values) => if values@.len() == 0 {
                out matches Err(said) && said@ == "empty logits"@
            } else {
                out matches Ok(token) && is_best(values@, token)
            },
            _ => out matches Err(said) && said@ == "the last shard returned "@
                + logits.kind_shown() + ", not logits"@,
        },
{
    match logits {
        Payload::Logits(values) => {
            if values.len() == 0 {
                return Err("empty logits".to_owned());
            }
            let mut best: usize = 0;
            for i in 1..values.len()
                invariant
                    best < i <= values@.len(),
                    is_argmax(values@.take(i as int), best as int),
            {
                let ghost before = values@.take(i as int);
                let ghost next = values@.take(i as int + 1);
                assert(next =~= before.push(values@[i as int]));
                let better = rank(values[i]) >= rank(values[best]);
                proof {
                    assert(before[best as int] == values@[best as int]);
                    assert forall|j: int| 0 <= j < next.len() implies logit_rank(
                        #[trigger] next[j],
                    ) <= (if better {
                        logit_rank(values@[i as int])
                    } else {
                        logit_rank(values@[best as int])
                    }) by {
                        if j < i {
                            assert(next[j] == before[j]);
                        }
                    }
                    assert forall|j: int| !better && best < j < next.len() implies logit_rank(
                        #[trigger] next[j],
                    ) < logit_rank(values@[best as int]) by {
                        if j < i {
                            assert(next[j] == before[j]);
                        }
                    }
                }
                if better {
                    best = i;
                }
            }
            assert(values@.take(values@.len() as int) =~= values@);
            let at: u64 = best as u64;
            let token: u32 = #[verifier::truncate]
            (at as u32);
            assert(at as u32 == at % 0x1_0000_0000) by (bit_vector);
            assert(is_argmax(values@, at as int));
            Ok(token)
        },
        other => Err(join3("the last shard returned ", other.kind(), ", not logits")),
    }
}

/// A decode under way: the prompt's length, how many tokens are wanted, and
/// those that came out.
pub struct Decoding {
    pub prompt_len: u32,
    pub max_new: u32,
    pub out: Vec<u32>,
}

impl Decoding {
    /// How many tokens come out in the end: the one after the prompt always,
    /// and as many more as were asked for.
    pub open spec fn wanted(self) -> nat {
        if self.max_new == 0 {
            1
        } else {
            self.max_new as nat
        }
    }

    /// The first token came out, and no more than wanted; every position fits.
    pub open spec fn wf(self) -> bool {
        &&& 1 <= self.out@.len() <= self.wanted()
        &&& self.prompt_len + self.max_new <= u32::MAX + 2
    }

    /// What to run next: the last token that came out, at the position after those
    /// before it; nothing where as many as wanted have.
    pub open spec fn step(self) -> Option<(int, u32)> {
        if self.out@.len() < self.wanted() {
            Some((self.prompt_len + self.out@.len() - 1, self.out@.last()))
        } else {
            None
        }
    }

    /// Begins with the token that the prompt led to. The last position to run,
    /// `prompt_len + max_new - 2`, has to fit.
    pub fn begin(prompt_len: u32, max_new: u32, first: u32) -> (out: Self)
        requires
            prompt_len + max_new <= u32::MAX + 2,
        ensures
            out.wf(),
            out.prompt_len == prompt_len,
            out.max_new == max_new,
            out.out@ == seq![first],
    {
        let mut tokens: Vec<u32> = Vec::new();
        tokens.push(first);
        assert(tokens@ =~= seq![first]);
        Decoding { prompt_len, max_new, out: tokens }
    }

    /// What to run next: the last token, at the position after those before it.
    /// `None` where enough have come out.
    pub fn next(&self) -> (out: Option<(u32, u32)>)
        requires
            self.wf(),
        ensures
            match self.step() {
                Some((pos, token)) => out matches Some(next) && next.0 == pos && next.1 == token,
                None => out is None,
            },
    {
        let wanted: u32 = if self.max_new == 0 {
            1
        } else {
            self.max_new
        };
        let done: usize = self.out.len();
        if done < wanted as usize {
            Some((self.prompt_len + (done - 1) as u32, self.out[done - 1]))
        } else {
            None
        }
    }

    /// Takes the token that came out.
    pub fn push(&mut self, token: u32)
        requires
            old(self).wf(),
            old(self).out@.len() < old(self).wanted(),
        ensures
            final(self).wf(),
            final(self).prompt_len == old(self).prompt_len,
            final(self).max_new == old(self).max_new,
            final(self).out@ == old(self).out@.push(token),
    {
        self.out.push(token);
    }
}

/// What a finite single-precision value is, in units of the smallest positive one,
/// by its bits: the sign, eight bits of exponent, and twenty-three of fraction.
pub open spec fn float_units(bits: u32) -> int {
    let exponent = bits as int / 0x80_0000 % 0x100;
    let fraction = bits as int % 0x80_0000;
    let size = if exponent == 0 {
        fraction
    } else {
        (0x80_0000 + fraction) * pow2((exponent - 1) as nat)
    };
    if bits >= 0x8000_0000 {
        -size
    } else {
        size
    }
}

/// Whether a single-precision value is finite, by its bits: its exponent is not
/// the greatest.
pub open spec fn is_finite(bits: u32) -> bool {
    bits as int / 0x80_0000 % 0x100 != 0xff
}

proof fn lemma_float_size(bits: int)
    requires
        0 <= bits < 0x7f80_0000,
    ensures
        ({
            let exponent = bits / 0x80_0000;
            let fraction = bits % 0x80_0000;
            let size = if exponent == 0 {
                fraction
            } else {
                (0x80_0000 + fraction) * pow2((exponent - 1) as nat)
            };
            &&& 0 <= size < 0x80_0000 * pow2(exponent as nat)
            &&& exponent > 0 ==> size >= 0x80_0000 * pow2((exponent - 1) as nat)
        }),
{
    let exponent = bits / 0x80_0000;
    let fraction = bits % 0x80_0000;
    lemma2_to64();
    if exponent > 0 {
        let half = pow2((exponent - 1) as nat);
        lemma_pow2_pos((exponent - 1) as nat);
        lemma_pow2_unfold(exponent as nat);
        assert(0x80_0000 * half <= (0x80_0000 + fraction) * half < 0x80_0000 * (2 * half))
            by (nonlinear_arith)
            requires
                half > 0,
                0 <= fraction < 0x80_0000,
        ;
    }
}

proof fn lemma_float_sizes_ascend(a: int, b: int)
    requires
        0 <= a < b < 0x7f80_0000,
    ensures
        float_units(a as u32) < float_units(b as u32),
{
    let (ea, eb) = (a / 0x80_0000, b / 0x80_0000);
    assert(ea % 0x100 == ea && eb % 0x100 == eb);
    lemma_float_size(a);
    lemma_float_size(b);
    if ea < eb {
        if ea < eb - 1 {
            lemma_pow2_strictly_increases(ea as nat, (eb - 1) as nat);
        }
        let (small, large) = (pow2(ea as nat), pow2((eb - 1) as nat));
        assert(0x80_0000 * small <= 0x80_0000 * large);
    } else if ea > 0 {
        let half = pow2((ea - 1) as nat);
        lemma_pow2_pos((ea - 1) as nat);
        let (fa, fb) = (a % 0x80_0000, b % 0x80_0000);
        assert((0x80_0000 + fa) * half < (0x80_0000 + fb) * half) by (nonlinear_arith)
            requires
                fa < fb,
                half > 0,
        ;
    }
}

/// Among finite values, one that stands no later in the order is no greater.
proof fn lemma_rank_is_by_value(a: u32, b: u32)
    requires
        is_finite(a),
        is_finite(b),
        logit_rank(a) <= logit_rank(b),
    ensures
        float_units(a) <= float_units(b),
{
    let pa = a as int % 0x8000_0000;
    let pb = b as int % 0x8000_0000;
    assert(pa < 0x7f80_0000 && pb < 0x7f80_0000);
    lemma_float_size(pa);
    lemma_float_size(pb);
    assert(a as int / 0x80_0000 % 0x100 == pa / 0x80_0000);
    assert(b as int / 0x80_0000 % 0x100 == pb / 0x80_0000);
    assert(a as int % 0x80_0000 == pa % 0x80_0000);
    assert(b as int % 0x80_0000 == pb % 0x80_0000);
    assert(pa / 0x80_0000 % 0x100 == pa / 0x80_0000);
    assert(pb / 0x80_0000 % 0x100 == pb / 0x80_0000);
    if pa < pb {
        lemma_float_sizes_ascend(pa, pb);
    } else if pb < pa {
        lemma_float_sizes_ascend(pb, pa);
    }
}

/// The token that comes out is the greatest logit's: where there are no more
/// logits than token ids, it is itself an index into them; no finite logit is
/// greater than the one there where that is finite, and, by the bits, every other
/// one stands no later and every one after it stands earlier: of two positive ones
/// the one with the smaller bits, of two negative ones that with the greater, and
/// a negative one before a positive.
pub proof fn law_token_is_the_index_of_the_greatest_logit(logits: Seq<u32>, token: u32)
    requires
        is_best(logits, token),
        logits.len() <= 0x1_0000_0000,
    ensures
        token < logits.len(),
        forall|i: int|
            0 <= i < logits.len() && is_finite(#[trigger] logits[i]) && is_finite(
                logits[token as int],
            ) ==> float_units(logits[i]) <= float_units(logits[token as int]),
        forall|i: int|
            0 <= i < logits.len() ==> {
                let (one, best) = (#[trigger] logits[i], logits[token as int]);
                &&& one < 0x8000_0000 ==> best < 0x8000_0000 && one <= best
                &&& one >= 0x8000_0000 && best >= 0x8000_0000 ==> best <= one
                &&& i > token ==> one != best
            },
{
    let at = choose|at: int| #[trigger] is_argmax(logits, at) && token == at % 0x1_0000_0000;
    assert(token == at);
    assert forall|i: int|
        0 <= i < logits.len() && is_finite(#[trigger] logits[i]) && is_finite(
            logits[token as int],
        ) implies float_units(logits[i]) <= float_units(logits[token as int]) by {
        lemma_rank_is_by_value(logits[i], logits[at]);
    }
}

/// Placements are accepted exactly where the first begins at the first layer, each
/// after it begins where the one before ends, none is empty, and the last ends
/// with the model.
pub proof fn law_placements_are_accepted_where_they_tile(places: Seq<Placement>, layers: u32)
    ensures
        tiling_fault(places, layers, 0) is None <==> {
            &&& places.len() == 0 ==> layers == 0
            &&& places.len() > 0 ==> places[0].first_layer == 0 && places.last().last_layer
                == layers
            &&& forall|k: int|
                0 <= k < places.len() ==> (#[trigger] places[k]).first_layer
                    < places[k].last_layer
            &&& forall|j: int, k: int|
                0 <= j && k == j + 1 && k < places.len() ==> (#[trigger] places[j]).last_layer == (
                #[trigger] places[k]).first_layer
        },
{
    let tiles = {
        &&& places.len() == 0 ==> layers == 0
        &&& places.len() > 0 ==> places[0].first_layer == 0 && places.last().last_layer == layers
        &&& forall|k: int|
            0 <= k < places.len() ==> (#[trigger] places[k]).first_layer < places[k].last_layer
        &&& forall|j: int, k: int|
            0 <= j && k == j + 1 && k < places.len() ==> (#[trigger] places[j]).last_layer == (
            #[trigger] places[k]).first_layer
    };
    if tiling_fault(places, layers, 0) is None {
        lemma_sound_places(places, layers, 0);
        assert forall|k: int| 0 <= k < places.len() implies (#[trigger] places[k]).first_layer
            < places[k].last_layer by {
            assert(place_fault(places, k) is None);
        }
        assert forall|j: int, k: int| 0 <= j && k == j + 1 && k < places.len() implies (
        #[trigger] places[j]).last_layer == (#[trigger] places[k]).first_layer by {
            assert(place_fault(places, k) is None);
        }
        if places.len() > 0 {
            assert(place_fault(places, 0) is None);
        }
    }
    if tiles {
        lemma_tiles_are_sound(places, layers, 0);
    }
}

proof fn lemma_tiles_are_sound(places: Seq<Placement>, layers: u32, k: int)
    requires
        0 <= k <= places.len(),
        places.len() == 0 ==> layers == 0,
        places.len() > 0 ==> places[0].first_layer == 0 && places.last().last_layer == layers,
        forall|k: int|
            0 <= k < places.len() ==> (#[trigger] places[k]).first_layer < places[k].last_layer,
        forall|j: int, k: int|
            0 <= j && k == j + 1 && k < places.len() ==> (#[trigger] places[j]).last_layer == (
            #[trigger] places[k]).first_layer,
    ensures
        tiling_fault(places, layers, k) is None,
    decreases places.len() - k,
{
    if k < places.len() {
        lemma_tiles_are_sound(places, layers, k + 1);
        if k > 0 {
            assert(places[k - 1].last_layer == places[k].first_layer);
        }
        assert(place_fault(places, k) is None);
    }
}

/// Writing a placement out and reading it gives it back: for all layers and every
/// host, the text `first-last@host` is read as those layers on that host.
pub proof fn law_written_placement_is_read(first: u32, last: u32, host: Seq<char>, read: Placement)
    requires
        // What `parse` gives for the text, where it accepts it.
        placement_is(
            decimal(first as nat) + "-"@ + decimal(last as nat) + "@"@ + host,
            read,
        ),
    ensures
        placement_fault(decimal(first as nat) + "-"@ + decimal(last as nat) + "@"@ + host) is None,
        read.first_layer == first,
        read.last_layer == last,
        host == "local"@ || host == "here"@ <==> read.host is Here,
        read.host matches Host::Peer(id) ==> id.bytes() == hex_bytes(host, 8),
{
    lemma_written_placement(first, last, host);
}

proof fn lemma_written_placement(first: u32, last: u32, host: Seq<char>)
    ensures
        ({
            let (a, b) = (decimal(first as nat), decimal(last as nat));
            let text = a + "-"@ + b + "@"@ + host;
            &&& split_first(text, '@') == Some((a + "-"@ + b, host))
            &&& split_first(a + "-"@ + b, '-') == Some((a, b))
            &&& number_within(a, u32::MAX as nat) == Some(first as nat)
            &&& number_within(b, u32::MAX as nat) == Some(last as nat)
        }),
{
    let (a, b) = (decimal(first as nat), decimal(last as nat));
    reveal_strlit("-");
    reveal_strlit("@");
    law_decimal_reads_back(first as nat);
    law_decimal_reads_back(last as nat);
    let range = a + "-"@ + b;
    let text = range + "@"@ + host;
    assert forall|i: int| 0 <= i < a.len() implies range[i] != '-' by {
        assert(is_digit(a[i]));
    }
    assert forall|i: int| 0 <= i < range.len() implies text[i] != '@' by {
        if i < a.len() {
            assert(is_digit(a[i]));
        } else if i > a.len() {
            assert(range[i] == b[i - a.len() - 1]);
            assert(is_digit(b[i - a.len() - 1]));
        }
    }
    assert(range[a.len() as int] == '-');
    assert(text[range.len() as int] == '@');
    lemma_before(range, '-', a.len() as int);
    lemma_before(text, '@', range.len() as int);
    assert(range.take(a.len() as int) =~= a);
    assert(range.skip(a.len() as int + 1) =~= b);
    assert(text.take(range.len() as int) =~= range);
    assert(text.skip(range.len() as int + 1) =~= host);
    assert(holds(range, '-'));
    assert(holds(text, '@'));
}

/// A placement that is well written is accepted: layers in decimal, and a host
/// that is this machine or sixteen hexadecimal digits.
pub proof fn law_well_written_placement_is_accepted(first: u32, last: u32, host: Seq<char>)
    requires
        host == "local"@ || host == "here"@ || is_hex(host, 8),
    ensures
        placement_fault(decimal(first as nat) + "-"@ + decimal(last as nat) + "@"@ + host) is None,
{
    lemma_written_placement(first, last, host);
}

/// Tokens are run one after the other: the first that came out at the position after
/// the prompt, and each token that comes out of a step at the position after that
/// step's.
pub proof fn law_positions_follow_one_another(
    decoding: Decoding,
    pos: int,
    token: u32,
    more: Decoding,
    came: u32,
)
    requires
        decoding.wf(),
        decoding.step() == Some((pos, token)),
        more.prompt_len == decoding.prompt_len,
        more.max_new == decoding.max_new,
        more.out@ == decoding.out@.push(came),
    ensures
        decoding.out@.len() == 1 ==> pos == decoding.prompt_len && token == decoding.out@[0],
        more.step() matches Some(next) ==> next == (pos + 1, came),
        more.step() is Some <==> more.out@.len() < decoding.max_new,
        0 <= pos <= u32::MAX,
{
}

/// Decoding ends with as many tokens as were asked for, and with one where none were:
/// from the first token on there is a step to run exactly while fewer have come out.
pub proof fn law_as_many_tokens_as_asked_for(decoding: Decoding)
    requires
        decoding.wf(),
    ensures
        decoding.step() is None <==> decoding.out@.len() >= decoding.max_new,
        decoding.step() is None && decoding.max_new > 0 ==> decoding.out@.len()
            == decoding.max_new,
        decoding.max_new == 0 ==> decoding.out@.len() == 1,
{
}

/// Every shard of a pipeline is asked for the model, the layers of its placement, the
/// context and the precision given, and an F16 cache.
pub proof fn law_shards_are_those_of_the_placements(
    spec: ShardSpec,
    model_hash: Seq<char>,
    place: Placement,
    max_context: u32,
    wire_dtype: WireDtype,
    layer: int,
)
    requires
        shard_for(spec, model_hash, place, max_context, wire_dtype),
    ensures
        holds_layer(place, layer) <==> spec.first_layer <= layer < spec.last_layer,
        spec.model_hash@ == model_hash,
        spec.max_context == max_context,
        spec.wire_dtype == wire_dtype,
        spec.kv_dtype == KvDtype::F16,
{
}

/// Whether a result is the chain of shards that placements ask for, or what is said
/// against them.
pub open spec fn pipelined(
    options: Options,
    model_hash: Seq<char>,
    layers: u32,
    out: Result<Vec<ShardSpec>, String>,
) -> bool {
    match tiling_fault(options.places@, layers, 0) {
        None => {
            &&& out matches Ok(specs)
            &&& specs@.len() == options.places@.len()
            &&& forall|i: int|
                0 <= i < specs@.len() ==> shard_for(
                    #[trigger] specs@[i],
                    model_hash,
                    options.places@[i],
                    options.max_context,
                    options.wire_dtype,
                )
        },
        Some(said) => out matches Err(s) && s@ == said,
    }
}

/// A chain of shards runs every layer of the model once and in order: the first begins
/// with the first layer, each other one where the one before ends, and the last ends
/// with the model; each is of the placement at its place, with the context and precision
/// asked for.
pub proof fn law_a_pipeline_runs_the_whole_model(
    options: Options,
    model_hash: Seq<char>,
    layers: u32,
    out: Result<Vec<ShardSpec>, String>,
)
    requires
        pipelined(options, model_hash, layers, out),
    ensures
        out matches Ok(specs) ==> {
            &&& specs@.len() == options.places@.len()
            &&& specs@.len() > 0 ==> specs@[0].first_layer == 0 && specs@.last().last_layer
                == layers
            &&& forall|i: int, j: int|
                0 <= i && j == i + 1 && j < specs@.len() ==> (#[trigger] specs@[i]).last_layer == (
                #[trigger] specs@[j]).first_layer
            &&& forall|i: int|
                0 <= i < specs@.len() ==> {
                    &&& (#[trigger] specs@[i]).first_layer < specs@[i].last_layer
                    &&& specs@[i].first_layer == options.places@[i].first_layer
                    &&& specs@[i].last_layer == options.places@[i].last_layer
                    &&& specs@[i].max_context == options.max_context
                    &&& specs@[i].wire_dtype == options.wire_dtype
                    &&& specs@[i].model_hash@ == model_hash
                }
        },
        out is Err <==> tiling_fault(options.places@, layers, 0) is Some,
{
    law_placements_are_accepted_where_they_tile(options.places@, layers);
    if let Ok(specs) = out {
        let places = options.places@;
        assert forall|i: int, j: int| 0 <= i && j == i + 1 && j < specs@.len() implies (
        #[trigger] specs@[i]).last_layer == (#[trigger] specs@[j]).first_layer by {
            assert(places[i].last_layer == places[j].first_layer);
        }
        assert forall|i: int| 0 <= i < specs@.len() implies (#[trigger] specs@[i]).first_layer
            < specs@[i].last_layer by {
            assert(places[i].first_layer < places[i].last_layer);
        }
    }
}

/// What is said against placements is of the first that is wrong, the ones before it
/// being right: which layers it leaves out, or that it holds none; and, where all are
/// right, how far they go and how far the model does.
pub proof fn law_what_is_said_of_placements(places: Seq<Placement>, layers: u32, said: Seq<char>)
    requires
        tiling_fault(places, layers, 0) == Some(said),
    ensures
        exists|k: int|
            0 <= k <= places.len() && #[trigger] said_at(places, layers, k, said) && forall|i: int|
                0 <= i < k ==> #[trigger] right_at(places, i),
{
    lemma_said(places, layers, 0, said);
}

/// Whether the placement at `i` begins where the one before ends, the first at the first
/// layer, and holds one.
pub open spec fn right_at(places: Seq<Placement>, i: int) -> bool {
    &&& places[i].first_layer == if i == 0 {
        0
    } else {
        places[i - 1].last_layer
    }
    &&& places[i].first_layer < places[i].last_layer
}

/// Whether a text is what is said against the placement at `k`, or against where all of
/// them end; `k` is then their number.
pub open spec fn said_at(places: Seq<Placement>, layers: u32, k: int, said: Seq<char>) -> bool {
    let reached = if k == 0 {
        0u32
    } else {
        places[k - 1].last_layer
    };
    if k == places.len() {
        &&& reached != layers
        &&& said == "placements cover 0.."@ + decimal(reached as nat) + ", but the model has "@
            + decimal(layers as nat) + " layers"@
    } else {
        let (first, last) = (places[k].first_layer, places[k].last_layer);
        if first != reached {
            said == "layers "@ + (decimal(reached as nat) + ".."@ + decimal(first as nat))
                + " are unplaced"@
        } else {
            &&& last <= first
            &&& said == decimal(first as nat) + "-"@ + decimal(last as nat)
                + " is not a layer range"@
        }
    }
}

proof fn lemma_said(places: Seq<Placement>, layers: u32, k: int, said: Seq<char>)
    requires
        0 <= k <= places.len(),
        tiling_fault(places, layers, k) == Some(said),
        forall|i: int| 0 <= i < k ==> #[trigger] right_at(places, i),
    ensures
        exists|k: int|
            0 <= k <= places.len() && #[trigger] said_at(places, layers, k, said) && forall|i: int|
                0 <= i < k ==> #[trigger] right_at(places, i),
    decreases places.len() - k,
{
    if k < places.len() && place_fault(places, k) is None {
        assert(right_at(places, k));
        lemma_said(places, layers, k + 1, said);
    } else {
        assert(said_at(places, layers, k, said));
    }
}

}
