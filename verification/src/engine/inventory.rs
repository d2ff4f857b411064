//! What each layer of a model weighs.

use vstd::arithmetic::div_mod::lemma_fundamental_div_mod;
use vstd::prelude::*;

use crate::engine::error::Error;
use crate::engine::facts::{facts_of, number_at, u32_at, Facts, ModelFacts};
use crate::engine::gguf::{block_size, type_size, Content, TensorInfo, Value};
use crate::text::{before, begins, chars_of, decimal, find, join2, law_decimal_reads_back, law_split_is_at_the_first, lemma_before, lemma_decimal_holds_no, number, number_within, parse_number, piece, same, starts_with};

verus! {

/// The most layers that a model may have.
pub const MAX_LAYERS: u32 = 4096;

/// The shape of a model and the bytes of its layers and of everything else.
#[derive(Clone, Debug, PartialEq, Eq)]
pub struct ModelInventory {
    pub facts: ModelFacts,
    pub layer_bytes: Vec<u64>,
    pub output_bytes: u64,
}

/// What a tensor's bytes are charged to.
pub enum Home {
    Layer(nat),
    Output,
}

/// Why a model was refused.
pub enum Refusal {
    Said(Seq<char>),
    Arch(Seq<char>),
}

/// What an inventory holds, as contracts speak of it.
pub struct Inventory {
    pub facts: Facts,
    pub layer_bytes: Seq<nat>,
    pub output_bytes: nat,
}

/// How many values a shape has, where every product on the way fits.
pub open spec fn elements(dims: Seq<usize>) -> Option<nat>
    decreases dims.len(),
{
    if dims.len() == 0 {
        Some(1)
    } else {
        match elements(dims.drop_last()) {
            Some(n) => if n * dims.last() <= u64::MAX {
                Some(n * dims.last() as nat)
            } else {
                None
            },
            None => None,
        }
    }
}

/// The bytes that a tensor takes: whole blocks, at least one, and a size that
/// fits.
pub open spec fn tensor_bytes(tensor: TensorInfo) -> Option<nat> {
    let block = tensor.ggml_dtype.block_values();
    match elements(tensor.shape@) {
        Some(n) => {
            let bytes = (n / block) * tensor.ggml_dtype.block_bytes();
            if n > 0 && n % block == 0 && bytes <= u64::MAX {
                Some(bytes)
            } else {
                None
            }
        },
        None => None,
    }
}

/// The index in a tensor's name: what stands between `blk.` and the next dot.
pub open spec fn layer_index(name: Seq<char>) -> Seq<char> {
    before(name.skip(4), '.')
}

/// What a tensor is charged to, by its name.
pub open spec fn home_of(name: Seq<char>, layers: nat) -> Option<Home> {
    if begins(name, "blk."@) {
        match number_within(layer_index(name), usize::MAX as nat) {
            Some(index) => if index < layers {
                Some(Home::Layer(index))
            } else {
                None
            },
            None => None,
        }
    } else {
        Some(Home::Output)
    }
}

/// The bytes of a tensor that is charged to `home`, and zero for any other.
pub open spec fn charge(entry: (String, TensorInfo), layers: nat, home: Home) -> nat {
    if home_of(entry.0@, layers) == Some(home) {
        match tensor_bytes(entry.1) {
            Some(bytes) => bytes,
            None => 0,
        }
    } else {
        0
    }
}

/// The bytes charged to `home` by all of the tensors.
pub open spec fn charged(entries: Seq<(String, TensorInfo)>, layers: nat, home: Home) -> nat
    decreases entries.len(),
{
    if entries.len() == 0 {
        0
    } else {
        charged(entries.drop_last(), layers, home) + charge(entries.last(), layers, home)
    }
}

/// Whether the tensor at `k` has a size and a home, and the total there still
/// fits with it.
pub open spec fn sound(entries: Seq<(String, TensorInfo)>, layers: nat, k: int) -> bool {
    match (tensor_bytes(entries[k].1), home_of(entries[k].0@, layers)) {
        (Some(bytes), Some(home)) => charged(entries.take(k), layers, home) + bytes <= u64::MAX,
        _ => false,
    }
}

/// The first tensor from `from` on that is not sound, or their number.
pub open spec fn first_fault(entries: Seq<(String, TensorInfo)>, layers: nat, from: nat) -> nat
    decreases entries.len() - from,
{
    if from >= entries.len() || !sound(entries, layers, from as int) {
        from
    } else {
        first_fault(entries, layers, from + 1)
    }
}

/// What the split key says against a model, if anything.
pub open spec fn split_fault(content: Content) -> Option<Seq<char>> {
    if content.metadata.value("split.count"@) is None {
        None
    } else {
        match number_at(content.metadata, "split.count"@) {
            Err(said) => Some(said),
            Ok(count) => if count > 1 {
                Some("split GGUF files are not supported; use a single-file GGUF"@)
            } else {
                None
            },
        }
    }
}

/// The inventory of a model's weights, or the refusal.
pub open spec fn inventory_of(content: Content) -> Result<Inventory, Refusal> {
    let entries = content.tensor_infos.entries@;
    match split_fault(content) {
        Some(said) => Err(Refusal::Said(said)),
        None => match facts_of(content.metadata) {
            Err(said) => Err(Refusal::Said(said)),
            Ok(facts) => {
                let layers = facts.layers as nat;
                let fault = first_fault(entries, layers, 0);
                let layer_bytes = Seq::new(
                    layers,
                    |i: int| charged(entries, layers, Home::Layer(i as nat)),
                );
                if facts.arch != "llama"@ {
                    Err(Refusal::Arch(facts.arch))
                } else if layers == 0 || layers > MAX_LAYERS {
                    Err(Refusal::Said("model must have between 1 and 4096 layers"@))
                } else if fault < entries.len() {
                    Err(
                        Refusal::Said(
                            "invalid tensor size or layer index: "@ + entries[fault as int].0@,
                        ),
                    )
                } else if layer_bytes.contains(0nat) {
                    Err(Refusal::Said("GGUF is missing weights for a transformer layer"@))
                } else {
                    Ok(
                        Inventory {
                            facts,
                            layer_bytes,
                            output_bytes: charged(entries, layers, Home::Output),
                        },
                    )
                }
            },
        },
    }
}

/// Whether an error is the one that a refusal calls for.
pub open spec fn refused(error: Error, refusal: Refusal) -> bool {
    match refusal {
        Refusal::Said(said) => error matches Error::Engine(message) && message@ == said,
        Refusal::Arch(arch) => error matches Error::UnsupportedArch(a) && a@ == arch,
    }
}

/// Counts the values of a shape.
pub fn count_elements(dims: &[usize]) -> (out: Option<u64>)
    ensures
        match elements(dims@) {
            Some(n) => out == Some(n as u64),
            None => out is None,
        },
        out matches Some(n) ==> elements(dims@) == Some(n as nat),
{
    let mut n: u64 = 1;
    assert(dims@.take(0) =~= Seq::<usize>::empty());
    for i in 0..dims.len()
        invariant
            elements(dims@.take(i as int)) == Some(n as nat),
    {
        assert(dims@.take(i as int + 1).drop_last() =~= dims@.take(i as int));
        match n.checked_mul(dims[i] as u64) {
            Some(next) => {
                n = next;
            },
            None => {
                proof {
                    assert(elements(dims@.take(i as int + 1)) is None);
                    lemma_elements_stay_none(dims@, i as int + 1);
                }
                return None;
            },
        }
    }
    assert(dims@.take(dims@.len() as int) =~= dims@);
    Some(n)
}

proof fn lemma_elements_stay_none(dims: Seq<usize>, k: int)
    requires
        0 <= k <= dims.len(),
        elements(dims.take(k)) is None,
    ensures
        elements(dims) is None,
    decreases dims.len() - k,
{
    if k < dims.len() {
        assert(dims.take(k + 1).drop_last() =~= dims.take(k));
        lemma_elements_stay_none(dims, k + 1);
    } else {
        assert(dims.take(k) =~= dims);
    }
}

/// The bytes that a tensor takes.
fn bytes_of(tensor: &TensorInfo) -> (out: Option<u64>)
    ensures
        match tensor_bytes(*tensor) {
            Some(n) => out == Some(n as u64),
            None => out is None,
        },
        out matches Some(n) ==> tensor_bytes(*tensor) == Some(n as nat),
{
    let n: u64 = match count_elements(tensor.shape.as_slice()) {
        Some(n) => n,
        None => return None,
    };
    let block: u64 = block_size(tensor.ggml_dtype);
    if n == 0 || n % block != 0 {
        return None;
    }
    (n / block).checked_mul(type_size(tensor.ggml_dtype))
}

/// Where a tensor is charged: `Some(None)` for the output, `Some(Some(i))` for
/// a layer, `None` where its name holds no layer of the model.
fn place_of(name: &str, layers: usize) -> (out: Option<Option<usize>>)
    ensures
        match home_of(name@, layers as nat) {
            Some(Home::Layer(i)) => out == Some(Some(i as usize)) && i < layers,
            Some(Home::Output) => out == Some(None::<usize>),
            None => out is None,
        },
{
    let chars = chars_of(name);
    let prefix = chars_of("blk.");
    proof {
        reveal_strlit("blk.");
    }
    if !starts_with(chars.as_slice(), prefix.as_slice()) {
        return Some(None);
    }
    let rest = piece(chars.as_slice(), 4, chars.len());
    assert(rest@ =~= name@.skip(4));
    let at = find(rest.as_slice(), '.');
    let index = piece(rest.as_slice(), 0, at);
    assert(index@ =~= layer_index(name@));
    match parse_number(index.as_slice(), usize::MAX as u64) {
        Some(i) => if i < layers as u64 {
            Some(Some(i as usize))
        } else {
            None
        },
        None => None,
    }
}

proof fn lemma_first_fault(entries: Seq<(String, TensorInfo)>, layers: nat, from: nat, k: nat)
    requires
        from <= k <= entries.len(),
        forall|i: int| from <= i < k ==> #[trigger] sound(entries, layers, i),
        k < entries.len() ==> !sound(entries, layers, k as int),
    ensures
        first_fault(entries, layers, from) == k,
    decreases k - from,
{
    if from < k {
        assert(sound(entries, layers, from as int));
        lemma_first_fault(entries, layers, from + 1, k);
    }
}

impl ModelInventory {
    /// The inventory, as contracts speak of it.
    pub open spec fn view(self) -> Inventory {
        Inventory {
            facts: self.facts@,
            layer_bytes: Seq::new(self.layer_bytes@.len(), |i: int| self.layer_bytes@[i] as nat),
            output_bytes: self.output_bytes as nat,
        }
    }

    /// Reads what each layer weighs from a header.
    pub fn read(content: &Content) -> (out: Result<Self, Error>)
        ensures
            match inventory_of(*content) {
                Ok(inventory) => out matches Ok(i) && i@ == inventory,
                Err(refusal) => out matches Err(e) && refused(e, refusal),
            },
    {
        if content.metadata.contains_key("split.count") {
            let count = u32_at(&content.metadata, "split.count")?;
            if count > 1 {
                return Err(
                    Error::Engine(
                        "split GGUF files are not supported; use a single-file GGUF".to_owned(),
                    ),
                );
            }
        }
        let facts = ModelFacts::read(&content.metadata)?;
        if !same(facts.arch.as_str(), "llama") {
            return Err(Error::UnsupportedArch(facts.arch));
        }
        if facts.layers == 0 || facts.layers > MAX_LAYERS {
            return Err(Error::Engine("model must have between 1 and 4096 layers".to_owned()));
        }
        let layers: usize = facts.layers as usize;
        let ghost entries = content.tensor_infos.entries@;
        let mut layer_bytes: Vec<u64> = Vec::new();
        for i in 0..layers
            invariant
                layer_bytes@.len() == i,
                forall|j: int| 0 <= j < i ==> layer_bytes@[j] == 0,
        {
            layer_bytes.push(0);
        }
        let mut output_bytes: u64 = 0;
        for k in 0..content.tensor_infos.entries.len()
            invariant
                entries == content.tensor_infos.entries@,
                layers == facts.layers,
                0 < layers <= MAX_LAYERS,
                split_fault(*content) is None,
                facts_of(content.metadata) == Ok::<Facts, Seq<char>>(facts@),
                facts.arch@ == "llama"@,
                layer_bytes@.len() == layers,
                output_bytes == charged(entries.take(k as int), layers as nat, Home::Output),
                forall|i: int|
                    0 <= i < layers ==> #[trigger] layer_bytes@[i] == charged(
                        entries.take(k as int),
                        layers as nat,
                        Home::Layer(i as nat),
                    ),
                forall|i: int| 0 <= i < k ==> #[trigger] sound(entries, layers as nat, i),
        {
            let entry = &content.tensor_infos.entries[k];
            let name = entry.0.as_str();
            let bytes = bytes_of(&entry.1);
            let home = place_of(name, layers);
            let ghost next = entries.take(k as int + 1);
            assert(next.drop_last() =~= entries.take(k as int));
            assert(next.last() == entries[k as int]);
            let added: Option<u64> = match (bytes, home) {
                (Some(b), Some(None)) => output_bytes.checked_add(b),
                (Some(b), Some(Some(i))) => layer_bytes[i].checked_add(b),
                _ => None,
            };
            match added {
                None => {
                    assert(!sound(entries, layers as nat, k as int));
                    proof {
                        lemma_first_fault(entries, layers as nat, 0, k as nat);
                    }
                    return Err(
                        Error::Engine(join2("invalid tensor size or layer index: ", name)),
                    );
                },
                Some(total) => {
                    match home {
                        Some(Some(i)) => {
                            layer_bytes.set(i, total);
                        },
                        _ => {
                            output_bytes = total;
                        },
                    }
                },
            }
        }
        proof {
            assert(entries.take(entries.len() as int) =~= entries);
            lemma_first_fault(entries, layers as nat, 0, entries.len());
        }
        let ghost totals = Seq::new(
            layers as nat,
            |i: int| charged(entries, layers as nat, Home::Layer(i as nat)),
        );
        for i in 0..layers
            invariant
                entries == content.tensor_infos.entries@,
                layers == facts.layers,
                0 < layers <= MAX_LAYERS,
                split_fault(*content) is None,
                facts_of(content.metadata) == Ok::<Facts, Seq<char>>(facts@),
                facts.arch@ == "llama"@,
                first_fault(entries, layers as nat, 0) == entries.len(),
                layer_bytes@.len() == layers,
                totals == Seq::new(
                    layers as nat,
                    |i: int| charged(entries, layers as nat, Home::Layer(i as nat)),
                ),
                forall|j: int| 0 <= j < layers ==> #[trigger] layer_bytes@[j] == totals[j],
                forall|j: int| 0 <= j < i ==> totals[j] != 0,
        {
            if layer_bytes[i] == 0 {
                assert(totals[i as int] == 0);
                assert(totals.contains(0nat));
                return Err(
                    Error::Engine("GGUF is missing weights for a transformer layer".to_owned()),
                );
            }
        }
        assert(!totals.contains(0nat));
        let out = ModelInventory { facts, layer_bytes, output_bytes };
        assert(out@.layer_bytes =~= totals);
        Ok(out)
    }
}

/// Whether a tensor has a size and a home.
pub open spec fn well_formed(entry: (String, TensorInfo), layers: nat) -> bool {
    tensor_bytes(entry.1) is Some && home_of(entry.0@, layers) is Some
}

/// Whether every tensor has a size and a home, and every total fits.
pub open spec fn all_sound(entries: Seq<(String, TensorInfo)>, layers: nat) -> bool {
    &&& forall|i: int| 0 <= i < entries.len() ==> well_formed(#[trigger] entries[i], layers)
    &&& forall|home: Home| #[trigger] charged(entries, layers, home) <= u64::MAX
}

proof fn lemma_charged_grows(entries: Seq<(String, TensorInfo)>, layers: nat, home: Home, k: int)
    requires
        0 <= k <= entries.len(),
    ensures
        charged(entries.take(k), layers, home) <= charged(entries, layers, home),
    decreases entries.len() - k,
{
    if k < entries.len() {
        lemma_charged_grows(entries, layers, home, k + 1);
        assert(entries.take(k + 1).drop_last() =~= entries.take(k));
    } else {
        assert(entries.take(k) =~= entries);
    }
}

proof fn lemma_first_fault_at_or_after(
    entries: Seq<(String, TensorInfo)>,
    layers: nat,
    from: nat,
)
    requires
        from <= entries.len(),
    ensures
        from <= first_fault(entries, layers, from) <= entries.len(),
        forall|i: int|
            from <= i < first_fault(entries, layers, from) ==> #[trigger] sound(entries, layers, i),
        first_fault(entries, layers, from) < entries.len() ==> !sound(
            entries,
            layers,
            first_fault(entries, layers, from) as int,
        ),
    decreases entries.len() - from,
{
    if from < entries.len() && sound(entries, layers, from as int) {
        lemma_first_fault_at_or_after(entries, layers, from + 1);
    }
}

proof fn lemma_charged_fits(entries: Seq<(String, TensorInfo)>, layers: nat, k: int, home: Home)
    requires
        0 <= k <= entries.len(),
        forall|i: int| 0 <= i < k ==> #[trigger] sound(entries, layers, i),
    ensures
        charged(entries.take(k), layers, home) <= u64::MAX,
    decreases k,
{
    if k > 0 {
        lemma_charged_fits(entries, layers, k - 1, home);
        assert(entries.take(k).drop_last() =~= entries.take(k - 1));
        assert(entries.take(k).last() == entries[k - 1]);
        assert(sound(entries, layers, k - 1));
    }
}

proof fn lemma_no_fault(entries: Seq<(String, TensorInfo)>, layers: nat)
    ensures
        first_fault(entries, layers, 0) == entries.len() <==> all_sound(entries, layers),
{
    lemma_first_fault_at_or_after(entries, layers, 0);
    let fault = first_fault(entries, layers, 0);
    if fault == entries.len() {
        assert forall|i: int| 0 <= i < entries.len() implies well_formed(
            #[trigger] entries[i],
            layers,
        ) by {
            assert(sound(entries, layers, i));
        }
        assert forall|home: Home| #[trigger] charged(entries, layers, home) <= u64::MAX by {
            lemma_charged_fits(entries, layers, entries.len() as int, home);
            assert(entries.take(entries.len() as int) =~= entries);
        }
    } else if all_sound(entries, layers) {
        let k = fault as int;
        assert(well_formed(entries[k], layers));
        let home = home_of(entries[k].0@, layers).unwrap();
        lemma_charged_grows(entries, layers, home, k + 1);
        assert(entries.take(k + 1).drop_last() =~= entries.take(k));
        assert(charged(entries, layers, home) <= u64::MAX);
        assert(false);
    }
}

proof fn lemma_charged_without(
    entries: Seq<(String, TensorInfo)>,
    layers: nat,
    home: Home,
    at: int,
)
    requires
        0 <= at < entries.len(),
    ensures
        charged(entries, layers, home) == charged(entries.remove(at), layers, home) + charge(
            entries[at],
            layers,
            home,
        ),
    decreases entries.len(),
{
    let without = entries.remove(at);
    if at == entries.len() - 1 {
        assert(without =~= entries.drop_last());
    } else {
        lemma_charged_without(entries.drop_last(), layers, home, at);
        assert(without.drop_last() =~= entries.drop_last().remove(at));
        assert(without.last() == entries.last());
    }
}

proof fn lemma_charged_in_any_order(
    a: Seq<(String, TensorInfo)>,
    b: Seq<(String, TensorInfo)>,
    layers: nat,
    home: Home,
)
    requires
        a.to_multiset() == b.to_multiset(),
    ensures
        charged(a, layers, home) == charged(b, layers, home),
    decreases a.len(),
{
    broadcast use vstd::seq_lib::group_to_multiset_ensures;

    assert(a.to_multiset().len() == a.len());
    assert(b.to_multiset().len() == b.len());
    if a.len() > 0 {
        let last = a.last();
        assert(a.contains(last)) by {
            assert(a[a.len() - 1] == last);
        }
        assert(b.contains(last)) by {
            assert(a.to_multiset().count(last) > 0);
            assert(b.to_multiset().count(last) > 0);
        }
        let at = choose|i: int| 0 <= i < b.len() && b[i] == last;
        assert(a.drop_last() =~= a.remove(a.len() - 1));
        assert(a.drop_last().to_multiset() =~= b.remove(at).to_multiset());
        lemma_charged_without(b, layers, home, at);
        lemma_charged_in_any_order(a.drop_last(), b.remove(at), layers, home);
    }
}

/// The order in which a header lists its tensors does not matter: in any other
/// order the same inventory comes out, or none does.
pub proof fn law_tensor_order_does_not_matter(a: Content, b: Content)
    requires
        a.metadata == b.metadata,
        a.tensor_infos.entries@.to_multiset() == b.tensor_infos.entries@.to_multiset(),
    ensures
        inventory_of(a) is Ok <==> inventory_of(b) is Ok,
        inventory_of(a) is Ok ==> inventory_of(a) == inventory_of(b),
{
    broadcast use vstd::seq_lib::group_to_multiset_ensures;

    let ea = a.tensor_infos.entries@;
    let eb = b.tensor_infos.entries@;
    if let Ok(facts) = facts_of(a.metadata) {
        let layers = facts.layers as nat;
        lemma_no_fault(ea, layers);
        lemma_no_fault(eb, layers);
        lemma_first_fault_at_or_after(ea, layers, 0);
        lemma_first_fault_at_or_after(eb, layers, 0);
        assert forall|home: Home| #[trigger] charged(ea, layers, home) == charged(
            eb,
            layers,
            home,
        ) by {
            lemma_charged_in_any_order(ea, eb, layers, home);
        }
        assert(all_sound(ea, layers) == all_sound(eb, layers)) by {
            if all_sound(ea, layers) {
                assert forall|i: int| 0 <= i < eb.len() implies well_formed(
                    #[trigger] eb[i],
                    layers,
                ) by {
                    assert(eb.contains(eb[i]));
                    assert(ea.to_multiset().count(eb[i]) > 0);
                    assert(ea.contains(eb[i]));
                    let j = choose|j: int| 0 <= j < ea.len() && ea[j] == eb[i];
                    assert(well_formed(ea[j], layers));
                }
                assert forall|home: Home| #[trigger] charged(eb, layers, home) <= u64::MAX by {
                    assert(charged(ea, layers, home) == charged(eb, layers, home));
                }
            }
            if all_sound(eb, layers) {
                assert forall|i: int| 0 <= i < ea.len() implies well_formed(
                    #[trigger] ea[i],
                    layers,
                ) by {
                    assert(ea.contains(ea[i]));
                    assert(eb.to_multiset().count(ea[i]) > 0);
                    assert(eb.contains(ea[i]));
                    let j = choose|j: int| 0 <= j < eb.len() && eb[j] == ea[i];
                    assert(well_formed(eb[j], layers));
                }
            }
        }
        let la = Seq::new(layers, |i: int| charged(ea, layers, Home::Layer(i as nat)));
        let lb = Seq::new(layers, |i: int| charged(eb, layers, Home::Layer(i as nat)));
        assert(la =~= lb);
        assert(charged(ea, layers, Home::Output) == charged(eb, layers, Home::Output));
    }
}

/// The bytes of all of the tensors.
pub open spec fn all_bytes(entries: Seq<(String, TensorInfo)>) -> nat
    decreases entries.len(),
{
    if entries.len() == 0 {
        0
    } else {
        all_bytes(entries.drop_last()) + match tensor_bytes(entries.last().1) {
            Some(bytes) => bytes,
            None => 0,
        }
    }
}

/// The bytes charged to the first `n` layers.
pub open spec fn charged_to_layers(
    entries: Seq<(String, TensorInfo)>,
    layers: nat,
    n: nat,
) -> nat
    decreases n,
{
    if n == 0 {
        0
    } else {
        charged_to_layers(entries, layers, (n - 1) as nat) + charged(
            entries,
            layers,
            Home::Layer((n - 1) as nat),
        )
    }
}

proof fn lemma_charged_to_layers_step(
    entries: Seq<(String, TensorInfo)>,
    layers: nat,
    n: nat,
)
    requires
        entries.len() > 0,
    ensures
        charged_to_layers(entries, layers, n) == charged_to_layers(
            entries.drop_last(),
            layers,
            n,
        ) + (match (home_of(entries.last().0@, layers), tensor_bytes(entries.last().1)) {
            (Some(Home::Layer(k)), Some(bytes)) => if k < n {
                bytes
            } else {
                0
            },
            _ => 0,
        }),
    decreases n,
{
    if n > 0 {
        lemma_charged_to_layers_step(entries, layers, (n - 1) as nat);
    }
}

proof fn lemma_no_tensors_no_charge(layers: nat, n: nat)
    ensures
        charged_to_layers(Seq::<(String, TensorInfo)>::empty(), layers, n) == 0,
    decreases n,
{
    if n > 0 {
        lemma_no_tensors_no_charge(layers, (n - 1) as nat);
    }
}

/// Every byte is charged once: what the layers and the output are charged is
/// what all of the tensors take.
pub proof fn law_every_byte_is_charged_once(entries: Seq<(String, TensorInfo)>, layers: nat)
    requires
        forall|i: int| 0 <= i < entries.len() ==> well_formed(#[trigger] entries[i], layers),
    ensures
        charged_to_layers(entries, layers, layers) + charged(entries, layers, Home::Output)
            == all_bytes(entries),
    decreases entries.len(),
{
    if entries.len() == 0 {
        assert(entries =~= Seq::<(String, TensorInfo)>::empty());
        lemma_no_tensors_no_charge(layers, layers);
    } else {
        let init = entries.drop_last();
        assert forall|i: int| 0 <= i < init.len() implies well_formed(
            #[trigger] init[i],
            layers,
        ) by {
            assert(init[i] == entries[i]);
        }
        law_every_byte_is_charged_once(init, layers);
        lemma_charged_to_layers_step(entries, layers, layers);
        assert(well_formed(entries[entries.len() - 1], layers));
    }
}

/// Whether a tensor's name holds the number of a layer: `blk.`, the number in
/// decimal, and then nothing or a dot and anything.
pub open spec fn names_layer(name: Seq<char>, layer: nat) -> bool {
    exists|digits: Seq<char>, rest: Seq<char>|
        name == #[trigger] ("blk."@ + digits + rest) && !digits.contains('.') && (rest.len() == 0
            || rest[0] == '.') && number(digits) == Some(layer)
}

/// The product of a shape's dimensions.
pub open spec fn product(dims: Seq<usize>) -> nat
    decreases dims.len(),
{
    if dims.len() == 0 {
        1
    } else {
        product(dims.drop_last()) * dims.last() as nat
    }
}

/// The bytes of the tensors whose names hold the number of a layer.
pub open spec fn weight(entries: Seq<(String, TensorInfo)>, layer: nat) -> nat
    decreases entries.len(),
{
    if entries.len() == 0 {
        0
    } else {
        let tensor = entries.last().1;
        weight(entries.drop_last(), layer) + if names_layer(entries.last().0@, layer) {
            product(tensor.shape@) / tensor.ggml_dtype.block_values()
                * tensor.ggml_dtype.block_bytes()
        } else {
            0
        }
    }
}

/// The bytes of the tensors whose names do not begin with `blk.`.
pub open spec fn other_weight(entries: Seq<(String, TensorInfo)>) -> nat
    decreases entries.len(),
{
    if entries.len() == 0 {
        0
    } else {
        let tensor = entries.last().1;
        other_weight(entries.drop_last()) + if !begins(entries.last().0@, "blk."@) {
            product(tensor.shape@) / tensor.ggml_dtype.block_values()
                * tensor.ggml_dtype.block_bytes()
        } else {
            0
        }
    }
}

/// A tensor is charged to the layer whose number its name holds, the whole number
/// between `blk.` and the next dot, and to no other; one whose number is no layer
/// of the model is refused, and one without `blk.` goes to the output.
pub proof fn law_tensor_is_charged_to_the_layer_in_its_name(
    name: Seq<char>,
    layers: nat,
    layer: nat,
    suffix: Seq<char>,
)
    requires
        layers <= usize::MAX,
    ensures
        layer < layers ==> home_of("blk."@ + decimal(layer) + "."@ + suffix, layers) == Some(
            Home::Layer(layer),
        ),
        layer >= layers ==> home_of("blk."@ + decimal(layer) + "."@ + suffix, layers) is None,
        home_of(name, layers) == Some(Home::Layer(layer)) <==> layer < layers && names_layer(
            name,
            layer,
        ),
        home_of(name, layers) == Some(Home::Output) <==> !begins(name, "blk."@),
{
    reveal_strlit("blk.");
    reveal_strlit(".");
    lemma_home(name, layers, layer);
    let written = "blk."@ + decimal(layer) + "."@ + suffix;
    law_decimal_reads_back(layer);
    lemma_decimal_holds_no(layer, '.');
    let rest = "."@ + suffix;
    assert(written =~= "blk."@ + decimal(layer) + rest);
    assert(names_layer(written, layer));
    lemma_home(written, layers, layer);
    lemma_named(written, decimal(layer), rest);
}

proof fn lemma_named(name: Seq<char>, digits: Seq<char>, rest: Seq<char>)
    requires
        name == "blk."@ + digits + rest,
        !digits.contains('.'),
        rest.len() == 0 || rest[0] == '.',
    ensures
        begins(name, "blk."@),
        layer_index(name) == digits,
{
    reveal_strlit("blk.");
    assert(name.take(4) =~= "blk."@);
    let tail = name.skip(4);
    assert(tail =~= digits + rest);
    assert forall|i: int| 0 <= i < digits.len() implies tail[i] != '.' by {
        assert(digits.contains(digits[i]));
    }
    lemma_before(tail, '.', digits.len() as int);
    assert(tail.take(digits.len() as int) =~= digits);
}

/// A name holds a layer's number exactly where it begins with `blk.` and its index
/// reads as that number.
pub proof fn lemma_index_named(name: Seq<char>, layer: nat)
    ensures
        names_layer(name, layer) <==> begins(name, "blk."@) && number(layer_index(name)) == Some(
            layer,
        ),
{
    reveal_strlit("blk.");
    if begins(name, "blk."@) && number(layer_index(name)) == Some(layer) {
        let tail = name.skip(4);
        let digits = layer_index(name);
        law_split_is_at_the_first(tail, '.');
        let rest = tail.skip(digits.len() as int);
        if tail.contains('.') {
            assert(tail =~= digits + rest);
            assert(rest[0] == '.');
        } else {
            assert(rest.len() == 0);
            assert(tail =~= digits + rest);
        }
        assert(name =~= name.take(4) + tail);
        assert(name =~= "blk."@ + digits + rest);
        assert(names_layer(name, layer));
    }
    if names_layer(name, layer) {
        let (digits, rest) = choose|digits: Seq<char>, rest: Seq<char>|
            name == #[trigger] ("blk."@ + digits + rest) && !digits.contains('.') && (rest.len()
                == 0 || rest[0] == '.') && number(digits) == Some(layer);
        lemma_named(name, digits, rest);
    }
}

proof fn lemma_home(name: Seq<char>, layers: nat, layer: nat)
    requires
        layers <= usize::MAX,
    ensures
        home_of(name, layers) == Some(Home::Layer(layer)) <==> layer < layers && names_layer(
            name,
            layer,
        ),
{
    lemma_index_named(name, layer);
}

pub proof fn lemma_elements_is_product(dims: Seq<usize>)
    ensures
        elements(dims) matches Some(n) ==> n == product(dims),
    decreases dims.len(),
{
    if dims.len() > 0 {
        lemma_elements_is_product(dims.drop_last());
    }
}

proof fn lemma_charged_is_weight(entries: Seq<(String, TensorInfo)>, layers: nat, layer: nat)
    requires
        layer < layers <= usize::MAX,
        forall|i: int| 0 <= i < entries.len() ==> well_formed(#[trigger] entries[i], layers),
    ensures
        charged(entries, layers, Home::Layer(layer)) == weight(entries, layer),
        charged(entries, layers, Home::Output) == other_weight(entries),
    decreases entries.len(),
{
    if entries.len() > 0 {
        let init = entries.drop_last();
        assert forall|i: int| 0 <= i < init.len() implies well_formed(
            #[trigger] init[i],
            layers,
        ) by {
            assert(init[i] == entries[i]);
        }
        lemma_charged_is_weight(init, layers, layer);
        assert(well_formed(entries[entries.len() - 1], layers));
        lemma_home(entries.last().0@, layers, layer);
        lemma_elements_is_product(entries.last().1.shape@);
    }
}

/// The bytes of a layer are the sum of those of exactly the tensors whose names
/// hold its number, and the bytes of the output those of all that are in no layer;
/// a tensor's are its dimensions' product over the values in a block, times the
/// bytes of one. Every layer has some.
pub proof fn law_layers_weigh_what_their_tensors_do(content: Content, inventory: Inventory)
    requires
        inventory_of(content) == Ok::<Inventory, Refusal>(inventory),
    ensures
        inventory.layer_bytes.len() == inventory.facts.layers,
        forall|i: int|
            0 <= i < inventory.layer_bytes.len() ==> {
                &&& #[trigger] inventory.layer_bytes[i] == weight(
                    content.tensor_infos.entries@,
                    i as nat,
                )
                &&& 0 < inventory.layer_bytes[i] <= u64::MAX
            },
        inventory.output_bytes == other_weight(content.tensor_infos.entries@),
{
    let entries = content.tensor_infos.entries@;
    let layers = inventory.facts.layers as nat;
    lemma_no_fault(entries, layers);
    lemma_first_fault_at_or_after(entries, layers, 0);
    assert(all_sound(entries, layers));
    assert forall|i: int| 0 <= i < inventory.layer_bytes.len() implies {
        &&& #[trigger] inventory.layer_bytes[i] == weight(entries, i as nat)
        &&& 0 < inventory.layer_bytes[i] <= u64::MAX
    } by {
        lemma_charged_is_weight(entries, layers, i as nat);
        assert(charged(entries, layers, Home::Layer(i as nat)) <= u64::MAX);
        assert(inventory.layer_bytes.contains(inventory.layer_bytes[i]));
    }
    lemma_charged_is_weight(entries, layers, 0);
}

/// A tensor has a size exactly where its dimensions' product, and every product on
/// the way, fits sixty-four bits, it is not zero, it is whole blocks, and their
/// bytes fit; its size is then those bytes.
pub proof fn law_tensor_size(tensor: TensorInfo)
    ensures
        tensor_bytes(tensor) matches Some(bytes) ==> {
            let n = product(tensor.shape@);
            &&& 0 < n <= u64::MAX
            &&& n % tensor.ggml_dtype.block_values() == 0
            &&& bytes * tensor.ggml_dtype.block_values() == n * tensor.ggml_dtype.block_bytes()
            &&& bytes <= u64::MAX
        },
        (forall|k: int| 0 <= k <= tensor.shape@.len() ==> #[trigger] product(tensor.shape@.take(k))
            <= u64::MAX) && product(tensor.shape@) > 0 && product(tensor.shape@)
            % tensor.ggml_dtype.block_values() == 0 && product(tensor.shape@)
            / tensor.ggml_dtype.block_values() * tensor.ggml_dtype.block_bytes() <= u64::MAX
            ==> tensor_bytes(tensor) is Some,
{
    let n = product(tensor.shape@);
    let (v, b) = (tensor.ggml_dtype.block_values(), tensor.ggml_dtype.block_bytes());
    lemma_elements_is_product(tensor.shape@);
    if tensor_bytes(tensor) is Some {
        lemma_fundamental_div_mod(n as int, v as int);
        assert((n / v * b) * v == n * b) by (nonlinear_arith)
            requires
                n == v * (n / v) + n % v,
                n % v == 0,
        ;
        lemma_elements_fit(tensor.shape@);
    }
    if forall|k: int| 0 <= k <= tensor.shape@.len() ==> #[trigger] product(tensor.shape@.take(k))
        <= u64::MAX {
        lemma_elements_where_fit(tensor.shape@, tensor.shape@.len() as int);
        assert(tensor.shape@.take(tensor.shape@.len() as int) =~= tensor.shape@);
    }
}

proof fn lemma_elements_fit(dims: Seq<usize>)
    ensures
        elements(dims) matches Some(n) ==> n <= u64::MAX,
{
}

proof fn lemma_elements_where_fit(dims: Seq<usize>, k: int)
    requires
        0 <= k <= dims.len(),
        forall|k: int| 0 <= k <= dims.len() ==> #[trigger] product(dims.take(k)) <= u64::MAX,
    ensures
        elements(dims.take(k)) == Some(product(dims.take(k))),
    decreases k,
{
    if k > 0 {
        lemma_elements_where_fit(dims, k - 1);
        assert(dims.take(k).drop_last() =~= dims.take(k - 1));
        assert(dims.take(k).last() == dims[k - 1]);
        assert(product(dims.take(k)) <= u64::MAX);
    }
}

/// A model is read exactly where it is one file, its facts are there, it is a Llama
/// of between 1 and 4096 layers, each tensor has a size and belongs to a layer of
/// the model or to none, the bytes of each layer and of the output fit sixty-four
/// bits, and no layer is without any.
pub proof fn law_which_models_are_read(content: Content, facts: Facts)
    requires
        facts_of(content.metadata) == Ok::<Facts, Seq<char>>(facts),
    ensures
        inventory_of(content) is Ok <==> {
            let entries = content.tensor_infos.entries@;
            &&& split_fault(content) is None
            &&& facts.arch == "llama"@
            &&& 1 <= facts.layers <= 4096
            &&& forall|k: int|
                0 <= k < entries.len() ==> {
                    &&& tensor_bytes((#[trigger] entries[k]).1) is Some
                    &&& begins(entries[k].0@, "blk."@) ==> exists|i: nat|
                        i < facts.layers && #[trigger] names_layer(entries[k].0@, i)
                }
            &&& other_weight(entries) <= u64::MAX
            &&& forall|i: nat| i < facts.layers ==> 0 < #[trigger] weight(entries, i) <= u64::MAX
        },
{
    let entries = content.tensor_infos.entries@;
    let layers = facts.layers as nat;
    let each = forall|k: int|
        0 <= k < entries.len() ==> {
            &&& tensor_bytes((#[trigger] entries[k]).1) is Some
            &&& begins(entries[k].0@, "blk."@) ==> exists|i: nat|
                i < facts.layers && #[trigger] names_layer(entries[k].0@, i)
        };
    let fit = other_weight(entries) <= u64::MAX && forall|i: nat|
        i < facts.layers ==> 0 < #[trigger] weight(entries, i) <= u64::MAX;
    if 1 <= facts.layers <= 4096 {
        lemma_no_fault(entries, layers);
        lemma_first_fault_at_or_after(entries, layers, 0);
        assert forall|k: int| 0 <= k < entries.len() implies (well_formed(
            #[trigger] entries[k],
            layers,
        ) <==> {
            &&& tensor_bytes(entries[k].1) is Some
            &&& begins(entries[k].0@, "blk."@) ==> exists|i: nat|
                i < facts.layers && #[trigger] names_layer(entries[k].0@, i)
        }) by {
            lemma_well_formed(entries[k].0@, layers);
        }
        let bytes = Seq::new(layers, |i: int| charged(entries, layers, Home::Layer(i as nat)));
        if inventory_of(content) is Ok {
            law_layers_weigh_what_their_tensors_do(content, inventory_of(content)->Ok_0);
            let inventory = inventory_of(content)->Ok_0;
            assert forall|i: nat| i < facts.layers implies 0 < #[trigger] weight(entries, i)
                <= u64::MAX by {
                assert(inventory.layer_bytes[i as int] == weight(entries, i));
            }
            assert(charged(entries, layers, Home::Output) <= u64::MAX);
            lemma_charged_is_weight(entries, layers, 0);
            assert(each && fit);
        }
        if each && fit {
            assert forall|i: int| 0 <= i < entries.len() implies well_formed(
                #[trigger] entries[i],
                layers,
            ) by {}
            assert forall|home: Home| #[trigger] charged(entries, layers, home) <= u64::MAX by {
                lemma_charged_is_weight(entries, layers, 0);
                match home {
                    Home::Layer(i) => {
                        if i < layers {
                            lemma_charged_is_weight(entries, layers, i);
                            assert(weight(entries, i) <= u64::MAX);
                        } else {
                            lemma_no_such_layer(entries, layers, i);
                        }
                    },
                    Home::Output => {},
                }
            }
            assert(all_sound(entries, layers));
            assert(!bytes.contains(0nat)) by {
                if bytes.contains(0nat) {
                    let i = bytes.index_of(0nat);
                    lemma_charged_is_weight(entries, layers, i as nat);
                    assert(weight(entries, i as nat) > 0);
                }
            }
        }
    }
}

proof fn lemma_well_formed(name: Seq<char>, layers: nat)
    requires
        layers <= usize::MAX,
    ensures
        home_of(name, layers) is Some <==> (begins(name, "blk."@) ==> exists|i: nat|
            i < layers && #[trigger] names_layer(name, i)),
{
    if let Some(Home::Layer(i)) = home_of(name, layers) {
        lemma_home(name, layers, i);
    }
    if exists|i: nat| i < layers && #[trigger] names_layer(name, i) {
        let i = choose|i: nat| i < layers && #[trigger] names_layer(name, i);
        lemma_home(name, layers, i);
    }
}

proof fn lemma_no_such_layer(entries: Seq<(String, TensorInfo)>, layers: nat, layer: nat)
    requires
        layer >= layers,
    ensures
        charged(entries, layers, Home::Layer(layer)) == 0,
    decreases entries.len(),
{
    if entries.len() > 0 {
        lemma_no_such_layer(entries.drop_last(), layers, layer);
    }
}

/// A model is one file where it does not say into how many it was split, or says one or
/// none; one that was split is refused.
pub proof fn law_split_models_are_refused(content: Content)
    ensures
        split_fault(content) is None <==> content.metadata.value("split.count"@) is None || (
        number_at(content.metadata, "split.count"@) matches Ok(count) && count <= 1),
        content.metadata.value("split.count"@) matches Some(Value::U16(count)) ==> (split_fault(
            content,
        ) is Some <==> count >= 2),
{
}

/// What contracts speak of are an inventory's own bytes, layer by layer.
pub proof fn law_inventory_is_its_bytes(inventory: ModelInventory, i: int)
    ensures
        inventory@.layer_bytes.len() == inventory.layer_bytes@.len(),
        0 <= i < inventory.layer_bytes@.len() ==> inventory@.layer_bytes[i]
            == inventory.layer_bytes@[i],
        inventory@.output_bytes == inventory.output_bytes,
        inventory@.facts == inventory.facts@,
{
}

/// A refusal says what was said against the model, or which architecture it has.
pub proof fn law_refusals_say_what_is_wrong(message: String, said: Seq<char>)
    ensures
        refused(Error::Engine(message), Refusal::Said(said)) <==> message@ == said,
        refused(Error::UnsupportedArch(message), Refusal::Arch(said)) <==> message@ == said,
        !refused(Error::Engine(message), Refusal::Arch(said)),
        !refused(Error::UnsupportedArch(message), Refusal::Said(said)),
{
}

}
