//! Which GPU gets which layers.
//!
//! Layers stay contiguous, every device gets at least one, and a device's
//! share, its KV cache included, has to fit what it has free after a reserve.
//! Among the allocations that fit, each cut is the one nearest to the point
//! where the load so far is in proportion to the memory so far.

use vstd::prelude::*;

use crate::daemon::double::{double_of, lemma_distance_canonical, lemma_less_is_rank, Double, Value};
use crate::engine::inventory::{ModelInventory, MAX_LAYERS};
use crate::net::control::GpuDevice;
use crate::text::{decimal, join3, number_text};

verus! {

/// The most devices that a plan is made for.
pub const MAX_DEVICES: usize = 63;

/// How many layers each device gets, in the order of the devices. The last
/// counts one more, for the output tensors.
#[derive(Clone, Debug, PartialEq, Eq)]
pub struct Plan {
    pub layers: Vec<u32>,
}

/// Why there is no plan.
#[derive(Clone, Copy, Debug, PartialEq, Eq, Structural)]
pub enum PlanError {
    /// The model's figures are not those of a model the planner can weigh.
    Dimensions,
    /// No device, or more than the layers or the engine allow.
    Devices { most: usize },
    /// No contiguous allocation fits.
    Memory,
}

impl PlanError {
    /// What the refusal says.
    pub open spec fn shown(self) -> Seq<char> {
        match self {
            PlanError::Dimensions =>
                "unsupported model dimensions for the Llama memory planner"@,
            PlanError::Devices { most } => "select between 1 and "@ + decimal(most as nat)
                + " GPUs so each receives transformer layers"@,
            PlanError::Memory =>
                "no contiguous layer allocation fits the selected GPUs after memory reserves, including f16 KV and output tensors; reduce --context, use a smaller quantization, or change workers"@,
        }
    }

    /// What the refusal says.
    pub fn message(&self) -> (out: String)
        ensures
            out@ == self.shown(),
    {
        match self {
            PlanError::Dimensions =>
                "unsupported model dimensions for the Llama memory planner".to_owned(),
            PlanError::Devices { most } => join3(
                "select between 1 and ",
                number_text(*most as u128).as_str(),
                " GPUs so each receives transformer layers",
            ),
            PlanError::Memory =>
                "no contiguous layer allocation fits the selected GPUs after memory reserves, including f16 KV and output tensors; reduce --context, use a smaller quantization, or change workers".to_owned(),
        }
    }
}

/// What has to be placed, and where it may go: the bytes of each layer with
/// its KV cache, the bytes of the output tensors, and what each device can
/// take.
pub struct Problem {
    pub loads: Seq<nat>,
    pub output: nat,
    pub budgets: Seq<nat>,
}

/// The sum of some figures.
pub open spec fn total(figures: Seq<nat>) -> nat
    decreases figures.len(),
{
    if figures.len() == 0 {
        0
    } else {
        total(figures.drop_last()) + figures.last()
    }
}

impl Problem {
    /// The bytes of the layers before `end`.
    pub open spec fn prefix(self, end: int) -> nat {
        total(self.loads.take(end))
    }

    /// What a device has to hold besides its layers.
    pub open spec fn extra(self, device: int) -> nat {
        if device == self.budgets.len() - 1 {
            self.output
        } else {
            0
        }
    }

    /// Whether a device can take the layers from `start` up to `end`.
    pub open spec fn fits(self, device: int, start: int, end: int) -> bool {
        self.prefix(end) - self.prefix(start) + self.extra(device) <= self.budgets[device]
    }

    /// Whether the devices from `device` on can take the layers from `start`
    /// on, each at least one.
    pub open spec fn feasible(self, device: int, start: int) -> bool
        decreases self.budgets.len() - device,
    {
        if device >= self.budgets.len() {
            start == self.loads.len()
        } else {
            exists|end: int|
                start < end <= self.loads.len() && #[trigger] self.fits(device, start, end)
                    && self.feasible(device + 1, end)
        }
    }

    /// Whether a device can take the layers from `start` up to `end` and leave
    /// the rest to those after it.
    pub open spec fn possible(self, device: int, start: int, end: int) -> bool {
        &&& start < end <= self.loads.len()
        &&& self.fits(device, start, end)
        &&& self.feasible(device + 1, end)
    }

    /// Where the load is in proportion to the memory of the devices up to
    /// `device`, in double precision.
    pub open spec fn target(self, device: int) -> Value {
        double_of(self.prefix(self.loads.len() as int) + self.output).times(
            double_of(total(self.budgets.take(device + 1))),
        ).over(double_of(total(self.budgets)))
    }

    /// How far from its target a device's cut at `end` is.
    pub open spec fn off(self, device: int, end: int) -> Value {
        double_of(self.prefix(end) + self.extra(device)).distance(self.target(device))
    }

    /// Whether one cut is nearer to the target than another. Where no device
    /// has any memory to give there is no target, and no cut is.
    pub open spec fn nearer(self, device: int, one: int, other: int) -> bool {
        total(self.budgets) > 0 && self.off(device, one).less(self.off(device, other))
    }

    /// Whether `end` is a device's cut: the first of the nearest among those
    /// that leave the rest room.
    pub open spec fn chosen(self, device: int, start: int, end: int) -> bool {
        &&& self.possible(device, start, end)
        &&& forall|other: int| #[trigger]
            self.possible(device, start, other) ==> {
                &&& !self.nearer(device, other, end)
                &&& other < end ==> self.nearer(device, end, other)
            }
    }
}

/// What a device has free, as far as it can be believed.
pub open spec fn free_of(device: GpuDevice) -> nat {
    if device.free_memory <= device.total_memory {
        device.free_memory as nat
    } else {
        device.total_memory as nat
    }
}

/// What a device keeps free: the reserve or a tenth of what it has free,
/// whichever is more.
pub open spec fn headroom(device: GpuDevice, reserve: u64) -> nat {
    let free = free_of(device);
    if reserve >= free / 10 {
        reserve as nat
    } else {
        (free / 10) as nat
    }
}

/// What a device can take: what it has free, less its headroom.
pub open spec fn budget_of(device: GpuDevice, reserve: u64) -> nat {
    if free_of(device) >= headroom(device, reserve) {
        (free_of(device) - headroom(device, reserve)) as nat
    } else {
        0
    }
}

/// The bytes of KV cache that one layer takes: two tensors of two bytes a
/// value.
pub open spec fn kv_of(inventory: ModelInventory, context: u32) -> nat {
    let facts = inventory.facts;
    (4 * facts.kv_heads * (facts.hidden_dim as int / facts.heads as int) * context) as nat
}

/// What has to be placed and where.
pub open spec fn problem_of(
    inventory: ModelInventory,
    context: u32,
    devices: Seq<GpuDevice>,
    reserve: u64,
) -> Problem {
    Problem {
        loads: Seq::new(
            inventory.layer_bytes@.len(),
            |i: int| (inventory.layer_bytes@[i] + kv_of(inventory, context)) as nat,
        ),
        output: inventory.output_bytes as nat,
        budgets: Seq::new(devices.len(), |i: int| budget_of(devices[i], reserve)),
    }
}

/// Whether a model's figures are those of a model that can be weighed.
pub open spec fn dimensions(inventory: ModelInventory) -> bool {
    let facts = inventory.facts;
    &&& 0 < facts.layers <= MAX_LAYERS
    &&& 0 < facts.hidden_dim
    &&& 0 < facts.heads
    &&& facts.hidden_dim as int % facts.heads as int == 0
    &&& 0 < facts.kv_heads <= facts.heads
    &&& inventory.layer_bytes@.len() == facts.layers
}

/// The most devices for a model.
pub open spec fn most_devices(inventory: ModelInventory) -> nat {
    if inventory.facts.layers <= MAX_DEVICES {
        inventory.facts.layers as nat
    } else {
        MAX_DEVICES as nat
    }
}

/// The layers of a plan that are transformer layers: the last device's extra
/// one is not.
pub open spec fn shares(layers: Seq<u32>) -> Seq<nat> {
    Seq::new(
        layers.len(),
        |i: int|
            if i == layers.len() - 1 {
                (layers[i] - 1) as nat
            } else {
                layers[i] as nat
            },
    )
}

/// Where a device's layers begin, by the shares of those before it.
pub open spec fn begin(shares: Seq<nat>, device: int) -> nat {
    total(shares.take(device))
}

/// Whether a plan is the one for a problem: one share for each device, each
/// ending at the device's cut.
pub open spec fn planned(problem: Problem, layers: Seq<u32>) -> bool {
    let shares = shares(layers);
    &&& layers.len() == problem.budgets.len()
    &&& layers.len() > 0 ==> layers.last() >= 1
    &&& forall|device: int|
        0 <= device < layers.len() ==> problem.chosen(
            device,
            #[trigger] begin(shares, device) as int,
            begin(shares, device + 1) as int,
        )
}

proof fn lemma_prefix_step(p: Problem, i: int)
    requires
        0 <= i < p.loads.len(),
    ensures
        p.prefix(i + 1) == p.prefix(i) + p.loads[i],
{
    assert(p.loads.take(i + 1).drop_last() =~= p.loads.take(i));
}

proof fn lemma_prefix_grows(p: Problem, i: int, j: int)
    requires
        0 <= i <= j <= p.loads.len(),
    ensures
        p.prefix(i) <= p.prefix(j),
    decreases j - i,
{
    if i < j {
        lemma_prefix_step(p, j - 1);
        lemma_prefix_grows(p, i, j - 1);
    }
}

/// How many of the first `upto` are set.
spec fn set_before(row: Seq<bool>, upto: int) -> nat
    decreases upto,
{
    if upto <= 0 {
        0
    } else {
        set_before(row, upto - 1) + if row[upto - 1] {
            1nat
        } else {
            0nat
        }
    }
}

proof fn lemma_set_between(row: Seq<bool>, a: int, b: int)
    requires
        0 <= a <= b <= row.len(),
    ensures
        set_before(row, a) <= set_before(row, b),
        set_before(row, b) > set_before(row, a) <==> exists|x: int| a <= x < b && row[x],
    decreases b - a,
{
    if a < b {
        lemma_set_between(row, a, b - 1);
        if row[b - 1] {
            assert(a <= b - 1 < b && row[b - 1]);
        }
        if exists|x: int| a <= x < b - 1 && row[x] {
            let x = choose|x: int| a <= x < b - 1 && row[x];
            assert(a <= x < b && row[x]);
        }
        if exists|x: int| a <= x < b && row[x] {
            let x = choose|x: int| a <= x < b && row[x];
            if x < b - 1 {
                assert(a <= x < b - 1 && row[x]);
            }
        }
    }
}

/// The prefix sums that a problem's loads have.
spec fn is_prefix(prefix: Seq<u128>, p: Problem) -> bool {
    &&& prefix.len() == p.loads.len() + 1
    &&& p.loads.len() <= MAX_LAYERS
    &&& forall|i: int| 0 <= i < prefix.len() ==> #[trigger] prefix[i] == p.prefix(i)
    &&& forall|i: int|
        0 <= i < prefix.len() ==> #[trigger] prefix[i] <= i * 0x8_0000_0000_0000_0000_0000_0000
}

spec fn is_row(row: Seq<bool>, p: Problem, device: int) -> bool {
    &&& row.len() == p.loads.len() + 1
    &&& forall|start: int|
        0 <= start < row.len() ==> #[trigger] row[start] == p.feasible(device, start)
}

/// Which starts leave the devices from this one on room, from which do for
/// those after it.
fn feasible_starts(
    prefix: &Vec<u128>,
    next: &Vec<bool>,
    budget: u128,
    extra: u128,
    Ghost(p): Ghost<Problem>,
    Ghost(device): Ghost<int>,
) -> (row: Vec<bool>)
    requires
        is_prefix(prefix@, p),
        is_row(next@, p, device + 1),
        0 <= device < p.budgets.len(),
        budget == p.budgets[device],
        extra == p.extra(device),
    ensures
        is_row(row@, p, device),
{
    let layers: usize = prefix.len() - 1;
    let mut row: Vec<bool> = Vec::new();
    if budget < extra {
        for start in 0..layers + 1
            invariant
                layers == p.loads.len(),
                layers <= MAX_LAYERS,
                is_prefix(prefix@, p),
                0 <= device < p.budgets.len(),
                p.budgets[device] < p.extra(device),
                row@.len() == start,
                forall|i: int| 0 <= i < start ==> #[trigger] row@[i] == p.feasible(device, i),
        {
            row.push(false);
            assert(!p.feasible(device, start as int)) by {
                assert forall|end: int| start < end <= p.loads.len() implies !#[trigger] p.fits(
                    device,
                    start as int,
                    end,
                ) by {
                    lemma_prefix_grows(p, start as int, end);
                }
            }
        }
        return row;
    }
    let room: u128 = budget - extra;
    let mut reachable: Vec<usize> = Vec::new();
    reachable.push(0);
    for end in 0..layers + 1
        invariant
            layers == p.loads.len(),
            layers <= MAX_LAYERS,
            next@.len() == layers + 1,
            reachable@.len() == end + 1,
            forall|i: int| 0 <= i <= end ==> #[trigger] reachable@[i] == set_before(next@, i),
            reachable@[end as int] <= end,
    {
        let last: usize = reachable[end];
        reachable.push(if next[end] {
            last + 1
        } else {
            last
        });
    }
    let mut end: usize = 0;
    for start in 0..layers
        invariant
            layers == p.loads.len(),
            layers <= MAX_LAYERS,
            is_prefix(prefix@, p),
            is_row(next@, p, device + 1),
            0 <= device < p.budgets.len(),
            room + p.extra(device) == p.budgets[device],
            reachable@.len() == layers + 2,
            forall|i: int|
                0 <= i <= layers + 1 ==> #[trigger] reachable@[i] == set_before(next@, i),
            end <= layers,
            start == 0 ==> end == 0,
            start > 0 ==> end >= start - 1,
            start > 0 && end >= start ==> p.prefix(end as int) - p.prefix(start - 1) <= room,
            row@.len() == start,
            forall|i: int| 0 <= i < start ==> #[trigger] row@[i] == p.feasible(device, i),
    {
        if end < start {
            end = start;
        }
        proof {
            if start > 0 {
                lemma_prefix_grows(p, start - 1, start as int);
            }
        }
        assert(p.prefix(end as int) - p.prefix(start as int) <= room);
        proof {
            lemma_prefix_grows(p, start as int, end as int);
            if end < layers {
                lemma_prefix_grows(p, start as int, end as int + 1);
            }
        }
        while end < layers && prefix[end + 1] - prefix[start] <= room
            invariant
                layers == p.loads.len(),
                is_prefix(prefix@, p),
                start <= end <= layers,
                start < layers,
                p.prefix(end as int) - p.prefix(start as int) <= room,
                end < layers ==> p.prefix(start as int) <= p.prefix(end as int + 1),
            decreases layers - end,
        {
            end = end + 1;
            proof {
                if end < layers {
                    lemma_prefix_grows(p, start as int, end as int + 1);
                }
            }
        }
        let more = reachable[end + 1] > reachable[start + 1];
        proof {
            lemma_set_between(next@, start + 1, end + 1);
            if more {
                let x = choose|x: int| start + 1 <= x < end + 1 && next@[x];
                lemma_prefix_grows(p, x, end as int);
                assert(p.fits(device, start as int, x));
                assert(p.feasible(device + 1, x));
                assert(p.feasible(device, start as int));
            } else if p.feasible(device, start as int) {
                let x = choose|x: int|
                    start < x <= p.loads.len() && #[trigger] p.fits(device, start as int, x)
                        && p.feasible(device + 1, x);
                assert(next@[x]);
                if x > end {
                    lemma_prefix_grows(p, end as int + 1, x);
                    assert(prefix@[end as int + 1] - prefix@[start as int] > room);
                    assert(false);
                }
            }
        }
        row.push(more);
    }
    assert(!p.feasible(device, layers as int));
    row.push(false);
    row
}

/// `nearer` orders the cuts of a device: if `c` is nearer than `b` and `x` is
/// not, then `c` is nearer than `x`.
proof fn lemma_nearer_order(p: Problem, device: int, b: int, c: int, x: int)
    requires
        p.nearer(device, c, b),
        !p.nearer(device, x, b),
    ensures
        p.nearer(device, c, x),
        !p.nearer(device, x, c),
{
    let vb = p.off(device, b);
    let vc = p.off(device, c);
    let vx = p.off(device, x);
    let t = p.target(device);
    lemma_distance_canonical(double_of(p.prefix(b) + p.extra(device)), t);
    lemma_distance_canonical(double_of(p.prefix(c) + p.extra(device)), t);
    lemma_distance_canonical(double_of(p.prefix(x) + p.extra(device)), t);
    let low = if vb.exponent <= vc.exponent {
        vb.exponent
    } else {
        vc.exponent
    };
    let floor = (if low <= vx.exponent {
        low
    } else {
        vx.exponent
    }) - 1;
    lemma_less_is_rank(vc, vb, floor);
    lemma_less_is_rank(vx, vb, floor);
    lemma_less_is_rank(vc, vx, floor);
    lemma_less_is_rank(vx, vc, floor);
}

/// A device's cut, where its layers begin at `start`.
fn next_cut(
    prefix: &Vec<u128>,
    next: &Vec<bool>,
    budget: u128,
    extra: u128,
    start: usize,
    target: Option<Double>,
    Ghost(p): Ghost<Problem>,
    Ghost(device): Ghost<int>,
) -> (cut: usize)
    requires
        is_prefix(prefix@, p),
        is_row(next@, p, device + 1),
        0 <= device < p.budgets.len(),
        budget == p.budgets[device],
        extra == p.extra(device),
        extra <= u64::MAX,
        start <= p.loads.len(),
        p.feasible(device, start as int),
        match target {
            Some(t) => total(p.budgets) > 0 && t.valid() && t@ == p.target(device) && -650
                <= t.exponent <= 650,
            None => total(p.budgets) == 0,
        },
    ensures
        p.chosen(device, start as int, cut as int),
{
    let layers: usize = prefix.len() - 1;
    let mut best: Option<(usize, Double)> = None;
    let mut end: usize = start + 1;
    proof {
        if end <= layers {
            lemma_prefix_grows(p, start as int, end as int);
            lemma_bounded(prefix@, p, end as int);
        }
    }
    while end <= layers && prefix[end] - prefix[start] + extra <= budget
        invariant
            is_prefix(prefix@, p),
            is_row(next@, p, device + 1),
            0 <= device < p.budgets.len(),
            budget == p.budgets[device],
            extra == p.extra(device),
            extra <= u64::MAX,
            layers == p.loads.len(),
            start < end <= layers + 1,
            match target {
                Some(t) => total(p.budgets) > 0 && t.valid() && t@ == p.target(device) && -650
                    <= t.exponent <= 650,
                None => total(p.budgets) == 0,
            },
            end <= layers ==> p.prefix(start as int) <= p.prefix(end as int)
                <= 0x8000_0000_0000_0000_0000_0000_0000,
            match best {
                None => forall|x: int|
                    start < x < end ==> !#[trigger] p.possible(device, start as int, x),
                Some((b, d)) => {
                    &&& b < end
                    &&& p.possible(device, start as int, b as int)
                    &&& d.valid()
                    &&& target is Some ==> d@ == p.off(device, b as int)
                    &&& forall|x: int|
                        x < end && #[trigger] p.possible(device, start as int, x) ==> {
                            &&& !p.nearer(device, x, b as int)
                            &&& x < b ==> p.nearer(device, b as int, x)
                        }
                },
            },
        decreases layers + 1 - end,
    {
        if next[end] {
            let distance: Double = match target {
                Some(t) => Double::of(prefix[end] + extra).distance(t),
                None => Double { mantissa: 0, exponent: 0 },
            };
            assert(p.possible(device, start as int, end as int));
            let better = match best {
                None => true,
                Some((_, d)) => target.is_some() && distance.less(d),
            };
            proof {
                if let Some((b, d)) = best {
                    assert(better == p.nearer(device, end as int, b as int));
                    if better {
                        assert forall|x: int|
                            x < end && #[trigger] p.possible(device, start as int, x) implies {
                            &&& !p.nearer(device, x, end as int)
                            &&& p.nearer(device, end as int, x)
                        } by {
                            lemma_nearer_order(p, device, b as int, end as int, x);
                        }
                    }
                }
            }
            if better {
                best = Some((end, distance));
            }
        } else {
            assert(!p.possible(device, start as int, end as int));
        }
        end = end + 1;
        proof {
            if end <= layers {
                lemma_prefix_grows(p, start as int, end as int);
                lemma_bounded(prefix@, p, end as int);
            }
        }
    }
    proof {
        assert forall|x: int| end <= x implies !#[trigger] p.possible(device, start as int, x) by {
            if x <= layers {
                lemma_prefix_grows(p, end as int, x);
            }
        }
        let x = choose|x: int|
            start < x <= p.loads.len() && #[trigger] p.fits(device, start as int, x) && p.feasible(
                device + 1,
                x,
            );
        assert(p.possible(device, start as int, x));
    }
    match best {
        Some((b, _)) => b,
        None => {
            assert(false);
            start
        },
    }
}

proof fn lemma_bounded(prefix: Seq<u128>, p: Problem, i: int)
    requires
        is_prefix(prefix, p),
        0 <= i <= p.loads.len(),
    ensures
        prefix[i] == p.prefix(i),
        p.prefix(i) <= 0x8000_0000_0000_0000_0000_0000_0000,
{
    assert(prefix[i] <= i * 0x8_0000_0000_0000_0000_0000_0000);
}

/// What each device can take.
fn budgets_of(devices: &[GpuDevice], reserve: u64) -> (out: Vec<u128>)
    ensures
        out@.len() == devices@.len(),
        forall|i: int| 0 <= i < out@.len() ==> #[trigger] out@[i] == budget_of(devices@[i], reserve),
{
    let mut out: Vec<u128> = Vec::new();
    for i in 0..devices.len()
        invariant
            out@.len() == i,
            forall|j: int| 0 <= j < i ==> #[trigger] out@[j] == budget_of(devices@[j], reserve),
    {
        let device = &devices[i];
        let free: u64 = if device.free_memory <= device.total_memory {
            device.free_memory
        } else {
            device.total_memory
        };
        let kept: u64 = if reserve >= free / 10 {
            reserve
        } else {
            free / 10
        };
        out.push(free.saturating_sub(kept) as u128);
    }
    out
}

/// The bytes of the layers before each one, and of all of them.
fn prefix_sums(layer_bytes: &Vec<u64>, kv: u128, Ghost(p): Ghost<Problem>) -> (prefix: Vec<u128>)
    requires
        layer_bytes@.len() == p.loads.len(),
        layer_bytes@.len() <= MAX_LAYERS,
        kv < 0x4_0000_0000_0000_0000_0000_0000,
        forall|i: int|
            0 <= i < p.loads.len() ==> #[trigger] p.loads[i] == layer_bytes@[i] + kv,
    ensures
        is_prefix(prefix@, p),
{
    let mut prefix: Vec<u128> = Vec::new();
    prefix.push(0);
    assert(p.loads.take(0) =~= Seq::<nat>::empty());
    for i in 0..layer_bytes.len()
        invariant
            layer_bytes@.len() == p.loads.len(),
            layer_bytes@.len() <= MAX_LAYERS,
            kv < 0x4_0000_0000_0000_0000_0000_0000,
            forall|i: int|
                0 <= i < p.loads.len() ==> #[trigger] p.loads[i] == layer_bytes@[i] + kv,
            prefix@.len() == i + 1,
            forall|j: int| 0 <= j <= i ==> #[trigger] prefix@[j] == p.prefix(j),
            forall|j: int|
                0 <= j <= i ==> #[trigger] prefix@[j] <= j
                    * 0x8_0000_0000_0000_0000_0000_0000,
    {
        proof {
            lemma_prefix_step(p, i as int);
        }
        let last: u128 = prefix[i];
        prefix.push(last + layer_bytes[i] as u128 + kv);
    }
    prefix
}

proof fn lemma_total_step(figures: Seq<nat>, i: int)
    requires
        0 <= i < figures.len(),
    ensures
        total(figures.take(i + 1)) == total(figures.take(i)) + figures[i],
{
    assert(figures.take(i + 1).drop_last() =~= figures.take(i));
}

/// Whether a result is the plan for a model on some devices, or the reason why
/// there is none.
pub open spec fn built(
    inventory: ModelInventory,
    context: u32,
    devices: Seq<GpuDevice>,
    reserve: u64,
    out: Result<Plan, PlanError>,
) -> bool {
    let problem = problem_of(inventory, context, devices, reserve);
    match out {
        Ok(plan) => {
            &&& dimensions(inventory)
            &&& 1 <= devices.len() <= most_devices(inventory)
            &&& problem.feasible(0, 0)
            &&& planned(problem, plan.layers@)
        },
        Err(PlanError::Dimensions) => !dimensions(inventory),
        Err(PlanError::Devices { most }) => {
            &&& dimensions(inventory)
            &&& !(1 <= devices.len() <= most_devices(inventory))
            &&& most == most_devices(inventory)
        },
        Err(PlanError::Memory) => {
            &&& dimensions(inventory)
            &&& 1 <= devices.len() <= most_devices(inventory)
            &&& !problem.feasible(0, 0)
        },
    }
}

/// Plans which device gets which layers.
pub fn build(
    inventory: &ModelInventory,
    context: u32,
    devices: &[GpuDevice],
    reserve: u64,
) -> (out: Result<Plan, PlanError>)
    ensures
        built(*inventory, context, devices@, reserve, out),
{
    let facts = &inventory.facts;
    if facts.layers == 0 || facts.layers > MAX_LAYERS || facts.hidden_dim == 0 || facts.heads == 0
        || facts.hidden_dim % facts.heads != 0 || facts.kv_heads == 0 || facts.kv_heads
        > facts.heads || inventory.layer_bytes.len() != facts.layers as usize {
        return Err(PlanError::Dimensions);
    }
    let count: usize = devices.len();
    let layers: usize = facts.layers as usize;
    let most: usize = if layers <= MAX_DEVICES {
        layers
    } else {
        MAX_DEVICES
    };
    if count == 0 || count > most {
        return Err(PlanError::Devices { most });
    }
    let ghost p = problem_of(*inventory, context, devices@, reserve);
    let budgets = budgets_of(devices, reserve);
    let width: u32 = facts.hidden_dim / facts.heads;
    proof {
        let k = facts.kv_heads as int;
        let w = width as int;
        let c = context as int;
        assert(0 <= 4 * k * w <= 0x4_0000_0000_0000_0000) by (nonlinear_arith)
            requires
                0 <= k <= 0xffff_ffff,
                0 <= w <= 0xffff_ffff,
        ;
        let kw = 4 * k * w;
        assert(0 <= kw * c < 0x4_0000_0000_0000_0000_0000_0000) by (nonlinear_arith)
            requires
                0 <= kw <= 0x4_0000_0000_0000_0000,
                0 <= c <= 0xffff_ffff,
        ;
    }
    let kv: u128 = 4 * (facts.kv_heads as u128) * (width as u128) * (context as u128);
    let prefix = prefix_sums(&inventory.layer_bytes, kv, Ghost(p));
    let output: u128 = inventory.output_bytes as u128;
    // The rows from the last device's back to the first's.
    let mut rows: Vec<Vec<bool>> = Vec::new();
    let mut row: Vec<bool> = Vec::new();
    for start in 0..layers + 1
        invariant
            layers == p.loads.len(),
            layers <= MAX_LAYERS,
            count == p.budgets.len(),
            row@.len() == start,
            forall|i: int| 0 <= i < start ==> #[trigger] row@[i] == p.feasible(count as int, i),
    {
        row.push(start == layers);
    }
    rows.push(row);
    for back in 0..count
        invariant
            is_prefix(prefix@, p),
            count == p.budgets.len(),
            count == budgets@.len(),
            output == p.output,
            forall|i: int| 0 <= i < count ==> #[trigger] budgets@[i] == p.budgets[i],
            rows@.len() == back + 1,
            forall|j: int| 0 <= j <= back ==> is_row(#[trigger] rows@[j]@, p, count - j),
    {
        let device: usize = count - 1 - back;
        let extra: u128 = if device == count - 1 {
            output
        } else {
            0
        };
        let row = feasible_starts(
            &prefix,
            &rows[back],
            budgets[device],
            extra,
            Ghost(p),
            Ghost(device as int),
        );
        rows.push(row);
    }
    if !rows[count][0] {
        return Err(PlanError::Memory);
    }
    let mut total_budget: u128 = 0;
    assert(p.budgets.take(0) =~= Seq::<nat>::empty());
    for i in 0..count
        invariant
            count == p.budgets.len(),
            count == budgets@.len(),
            count <= MAX_DEVICES,
            forall|i: int|
                0 <= i < count ==> #[trigger] budgets@[i] == p.budgets[i] && budgets@[i]
                    <= u64::MAX,
            total_budget == total(p.budgets.take(i as int)),
            total_budget <= i * u64::MAX,
    {
        proof {
            lemma_total_step(p.budgets, i as int);
        }
        total_budget = total_budget + budgets[i];
    }
    proof {
        assert(p.budgets.take(count as int) =~= p.budgets);
        lemma_bounded(prefix@, p, layers as int);
    }
    let total_bytes: u128 = prefix[layers] + output;
    let mut assigned: Vec<u32> = Vec::new();
    let ghost mut taken: Seq<nat> = Seq::empty();
    let mut start: usize = 0;
    let mut cumulative: u128 = 0;
    for device in 0..count
        invariant
            is_prefix(prefix@, p),
            layers == p.loads.len(),
            layers <= MAX_LAYERS,
            count == p.budgets.len(),
            count == budgets@.len(),
            1 <= count <= MAX_DEVICES,
            output == p.output,
            output <= u64::MAX,
            total_bytes == p.prefix(layers as int) + p.output,
            total_bytes <= 0x1_0000_0000_0000_0000_0000_0000_0000,
            total_budget == total(p.budgets),
            total_budget <= MAX_DEVICES * u64::MAX,
            forall|i: int|
                0 <= i < count ==> #[trigger] budgets@[i] == p.budgets[i] && budgets@[i]
                    <= u64::MAX,
            rows@.len() == count + 1,
            forall|j: int| 0 <= j <= count ==> is_row(#[trigger] rows@[j]@, p, count - j),
            cumulative == total(p.budgets.take(device as int)),
            cumulative <= device * u64::MAX,
            start <= layers,
            p.feasible(device as int, start as int),
            assigned@.len() == device,
            taken.len() == device,
            forall|i: int| 0 <= i < device ==> #[trigger] assigned@[i] == taken[i],
            forall|i: int| 0 <= i < device ==> #[trigger] assigned@[i] <= layers,
            start == total(taken),
            forall|i: int|
                0 <= i < device ==> p.chosen(
                    i,
                    #[trigger] begin(taken, i) as int,
                    begin(taken, i + 1) as int,
                ),
    {
        proof {
            lemma_total_step(p.budgets, device as int);
        }
        cumulative = cumulative + budgets[device];
        let extra: u128 = if device == count - 1 {
            output
        } else {
            0
        };
        let target: Option<Double> = if total_budget > 0 {
            Some(
                Double::of(total_bytes).times(Double::of(cumulative)).over(
                    Double::of(total_budget),
                ),
            )
        } else {
            None
        };
        let end: usize = next_cut(
            &prefix,
            &rows[count - 1 - device],
            budgets[device],
            extra,
            start,
            target,
            Ghost(p),
            Ghost(device as int),
        );
        assigned.push((end - start) as u32);
        proof {
            let before = taken;
            taken = taken.push((end - start) as nat);
            assert(taken.drop_last() =~= before);
            assert forall|i: int| 0 <= i < device + 1 implies p.chosen(
                i,
                #[trigger] begin(taken, i) as int,
                begin(taken, i + 1) as int,
            ) by {
                assert(taken.take(i) =~= before.take(i));
                if i < device {
                    assert(taken.take(i + 1) =~= before.take(i + 1));
                    assert(p.chosen(i, begin(before, i) as int, begin(before, i + 1) as int));
                } else {
                    assert(before.take(i) =~= before);
                    assert(taken.take(i + 1) =~= taken);
                }
            }
        }
        start = end;
    }
    let last: u32 = assigned[count - 1];
    assigned.set(count - 1, last + 1);
    assert(shares(assigned@) =~= taken);
    Ok(Plan { layers: assigned })
}

/// Whether the run between two cuts is at least one layer and fits its device.
pub open spec fn run_fits(problem: Problem, first: int, cuts: Seq<int>, i: int) -> bool {
    cuts[i] < cuts[i + 1] && problem.fits(first + i, cuts[i], cuts[i + 1])
}

/// Whether cuts part the layers among the devices from `first` on: each gets a
/// run of at least one layer that fits it, and together they get all.
pub open spec fn parted(problem: Problem, first: int, start: int, cuts: Seq<int>) -> bool {
    &&& cuts.len() == problem.budgets.len() - first + 1
    &&& cuts[0] == start
    &&& cuts.last() == problem.loads.len()
    &&& forall|i: int| 0 <= i < cuts.len() - 1 ==> #[trigger] run_fits(problem, first, cuts, i)
}

/// A problem is feasible exactly where some contiguous partition fits.
pub proof fn law_feasible_is_a_partition(problem: Problem)
    requires
        problem.budgets.len() > 0,
    ensures
        problem.feasible(0, 0) <==> exists|cuts: Seq<int>| parted(problem, 0, 0, cuts),
{
    if problem.feasible(0, 0) {
        let cuts = lemma_parted(problem, 0, 0);
        assert(parted(problem, 0, 0, cuts));
    }
    if exists|cuts: Seq<int>| parted(problem, 0, 0, cuts) {
        let cuts = choose|cuts: Seq<int>| parted(problem, 0, 0, cuts);
        lemma_parted_feasible(problem, 0, cuts);
    }
}

proof fn lemma_parted(problem: Problem, first: int, start: int) -> (cuts: Seq<int>)
    requires
        0 <= first <= problem.budgets.len(),
        problem.feasible(first, start),
    ensures
        parted(problem, first, start, cuts),
    decreases problem.budgets.len() - first,
{
    if first == problem.budgets.len() {
        seq![start]
    } else {
        let end = choose|end: int|
            start < end <= problem.loads.len() && #[trigger] problem.fits(first, start, end)
                && problem.feasible(first + 1, end);
        let rest = lemma_parted(problem, first + 1, end);
        let cuts = seq![start] + rest;
        assert forall|i: int| 0 <= i < cuts.len() - 1 implies #[trigger] run_fits(
            problem,
            first,
            cuts,
            i,
        ) by {
            assert(cuts[i + 1] == rest[i]);
            if i > 0 {
                assert(cuts[i] == rest[i - 1]);
                assert(run_fits(problem, first + 1, rest, i - 1));
            }
        }
        assert(cuts.last() == rest.last());
        cuts
    }
}

proof fn lemma_parted_feasible(problem: Problem, first: int, cuts: Seq<int>)
    requires
        0 <= first <= problem.budgets.len(),
        parted(problem, first, cuts[0], cuts),
    ensures
        problem.feasible(first, cuts[0]),
        cuts[0] <= problem.loads.len(),
    decreases problem.budgets.len() - first,
{
    if first < problem.budgets.len() {
        let rest = cuts.drop_first();
        assert forall|i: int| 0 <= i < rest.len() - 1 implies #[trigger] run_fits(
            problem,
            first + 1,
            rest,
            i,
        ) by {
            assert(run_fits(problem, first, cuts, i + 1));
            assert(rest[i] == cuts[i + 1]);
            assert(rest[i + 1] == cuts[i + 2]);
        }
        lemma_parted_feasible(problem, first + 1, rest);
        assert(run_fits(problem, first, cuts, 0));
        assert(problem.fits(first, cuts[0], rest[0]));
    }
}

/// A plan covers every layer once: the devices' runs follow one another from
/// the first layer to the last, none is empty, and each fits its device.
pub proof fn law_plan_covers_the_model(problem: Problem, layers: Seq<u32>)
    requires
        planned(problem, layers),
        layers.len() > 0,
    ensures
        begin(shares(layers), 0) == 0,
        begin(shares(layers), layers.len() as int) == problem.loads.len(),
        forall|d: int|
            0 <= d < layers.len() ==> {
                &&& #[trigger] shares(layers)[d] >= 1
                &&& problem.fits(
                    d,
                    begin(shares(layers), d) as int,
                    begin(shares(layers), d + 1) as int,
                )
            },
{
    let s = shares(layers);
    assert(s.take(0) =~= Seq::<nat>::empty());
    assert forall|d: int| 0 <= d < layers.len() implies {
        &&& #[trigger] s[d] >= 1
        &&& problem.fits(d, begin(s, d) as int, begin(s, d + 1) as int)
    } by {
        assert(problem.chosen(d, begin(s, d) as int, begin(s, d + 1) as int));
        lemma_total_step(s, d);
    }
    let d = layers.len() - 1;
    assert(problem.chosen(d, begin(s, d) as int, begin(s, d + 1) as int));
}

/// A problem has no more than one plan.
pub proof fn law_plan_is_unique(problem: Problem, a: Seq<u32>, b: Seq<u32>)
    requires
        planned(problem, a),
        planned(problem, b),
    ensures
        a == b,
{
    let sa = shares(a);
    let sb = shares(b);
    assert(sa.take(0) =~= sb.take(0));
    lemma_same_shares(problem, a, b, a.len() as int);
    assert forall|d: int| 0 <= d < a.len() implies a[d] == b[d] by {
        assert(sa.take(a.len() as int)[d] == sb.take(a.len() as int)[d]);
        assert(sa[d] == sb[d]);
        if d == a.len() - 1 {
            law_plan_covers_the_model(problem, a);
            law_plan_covers_the_model(problem, b);
            assert(sa[d] >= 1 && sb[d] >= 1);
        }
    }
    assert(a =~= b);
}

proof fn lemma_same_shares(problem: Problem, a: Seq<u32>, b: Seq<u32>, n: int)
    requires
        planned(problem, a),
        planned(problem, b),
        0 <= n <= a.len(),
    ensures
        shares(a).take(n) == shares(b).take(n),
    decreases n,
{
    let sa = shares(a);
    let sb = shares(b);
    if n == 0 {
        assert(sa.take(0) =~= sb.take(0));
    } else {
        let d = n - 1;
        lemma_same_shares(problem, a, b, d);
        let start = begin(sa, d) as int;
        assert(begin(sb, d) == start);
        let ea = begin(sa, d + 1) as int;
        let eb = begin(sb, d + 1) as int;
        assert(problem.chosen(d, start, ea));
        assert(problem.chosen(d, begin(sb, d) as int, eb));
        assert(problem.possible(d, start, ea) && problem.possible(d, start, eb));
        assert(ea == eb);
        lemma_total_step(sa, d);
        lemma_total_step(sb, d);
        assert(sa.take(n) =~= sa.take(d).push(sa[d]));
        assert(sb.take(n) =~= sb.take(d).push(sb[d]));
    }
}

/// A plan leaves every device its headroom: what a device is given, and what it
/// keeps free, is no more than it has free. A device that cannot keep its
/// headroom is given nothing that takes memory.
pub proof fn law_plan_leaves_headroom(
    inventory: ModelInventory,
    context: u32,
    devices: Seq<GpuDevice>,
    reserve: u64,
    layers: Seq<u32>,
    device: int,
)
    requires
        planned(problem_of(inventory, context, devices, reserve), layers),
        0 <= device < devices.len(),
    ensures
        ({
            let problem = problem_of(inventory, context, devices, reserve);
            let given = problem.prefix(begin(shares(layers), device + 1) as int)
                - problem.prefix(begin(shares(layers), device) as int) + problem.extra(device);
            &&& given >= 0
            &&& given == 0 || given + headroom(devices[device], reserve) <= free_of(
                devices[device],
            )
        }),
{
    let problem = problem_of(inventory, context, devices, reserve);
    law_plan_covers_the_model(problem, layers);
    let s = shares(layers);
    assert(s[device] >= 1);
    lemma_total_step(s, device);
    lemma_begin_bounded(problem, layers, device + 1);
    lemma_prefix_grows(problem, begin(s, device) as int, begin(s, device + 1) as int);
}

proof fn lemma_begin_bounded(problem: Problem, layers: Seq<u32>, d: int)
    requires
        planned(problem, layers),
        0 < d <= layers.len(),
    ensures
        begin(shares(layers), d) <= problem.loads.len(),
{
    assert(problem.chosen(
        d - 1,
        begin(shares(layers), d - 1) as int,
        begin(shares(layers), d) as int,
    ));
}

/// Whether one problem is no harder than another: as many devices, none with
/// less to give, and as many layers, none with more to hold.
pub open spec fn eases(easy: Problem, hard: Problem) -> bool {
    &&& easy.budgets.len() == hard.budgets.len()
    &&& forall|i: int|
        0 <= i < hard.budgets.len() ==> #[trigger] easy.budgets[i] >= hard.budgets[i]
    &&& easy.loads.len() == hard.loads.len()
    &&& forall|i: int| 0 <= i < hard.loads.len() ==> #[trigger] easy.loads[i] <= hard.loads[i]
    &&& easy.output <= hard.output
}

/// What a problem no harder than another has to hold between two layers is no
/// more.
proof fn lemma_eases_runs(easy: Problem, hard: Problem, start: int, end: int)
    requires
        eases(easy, hard),
        0 <= start <= end <= hard.loads.len(),
    ensures
        easy.prefix(end) - easy.prefix(start) <= hard.prefix(end) - hard.prefix(start),
    decreases end,
{
    if start < end {
        lemma_eases_runs(easy, hard, start, end - 1);
        assert(easy.loads.take(end).drop_last() =~= easy.loads.take(end - 1));
        assert(hard.loads.take(end).drop_last() =~= hard.loads.take(end - 1));
        assert(easy.loads[end - 1] <= hard.loads[end - 1]);
    }
}

/// Where the layers from `start` on fit the devices from `device` on, they do in
/// a problem no harder.
proof fn lemma_eases_feasible(easy: Problem, hard: Problem, device: int, start: int)
    requires
        eases(easy, hard),
        0 <= device,
        0 <= start <= hard.loads.len(),
        hard.feasible(device, start),
    ensures
        easy.feasible(device, start),
    decreases hard.budgets.len() - device,
{
    if device < hard.budgets.len() {
        let end = choose|end: int|
            start < end <= hard.loads.len() && #[trigger] hard.fits(device, start, end)
                && hard.feasible(device + 1, end);
        lemma_eases_runs(easy, hard, start, end);
        lemma_eases_feasible(easy, hard, device + 1, end);
        assert(easy.budgets[device] >= hard.budgets[device]);
        assert(easy.fits(device, start, end));
    }
}

/// A device with no less memory, and no more to keep free, can take no less.
proof fn lemma_budget_rises(more: GpuDevice, less: GpuDevice, smaller: u64, reserve: u64)
    requires
        more.free_memory >= less.free_memory,
        more.total_memory >= less.total_memory,
        smaller <= reserve,
    ensures
        budget_of(more, smaller) >= budget_of(less, reserve),
{
}

/// Whether a model is placed: its figures can be weighed, there are as many
/// devices as it takes, and some allocation fits. This is exactly where `build`
/// gives a plan.
pub open spec fn placeable(
    inventory: ModelInventory,
    context: u32,
    devices: Seq<GpuDevice>,
    reserve: u64,
) -> bool {
    &&& dimensions(inventory)
    &&& 1 <= devices.len() <= most_devices(inventory)
    &&& problem_of(inventory, context, devices, reserve).feasible(0, 0)
}

/// More memory, a smaller context or a smaller reserve never refuses a model
/// that was placed.
pub proof fn law_more_room_never_refuses(
    inventory: ModelInventory,
    context: u32,
    devices: Seq<GpuDevice>,
    reserve: u64,
    smaller_context: u32,
    more: Seq<GpuDevice>,
    smaller_reserve: u64,
    plan: Result<Plan, PlanError>,
)
    requires
        placeable(inventory, context, devices, reserve),
        smaller_context <= context,
        smaller_reserve <= reserve,
        more.len() == devices.len(),
        forall|i: int|
            0 <= i < devices.len() ==> (#[trigger] more[i]).free_memory >= devices[i].free_memory
                && more[i].total_memory >= devices[i].total_memory,
        // What `build` gives with the room.
        built(inventory, smaller_context, more, smaller_reserve, plan),
    ensures
        placeable(inventory, smaller_context, more, smaller_reserve),
        plan is Ok,
{
    let hard = problem_of(inventory, context, devices, reserve);
    let easy = problem_of(inventory, smaller_context, more, smaller_reserve);
    let facts = inventory.facts;
    let width = 4 * facts.kv_heads * (facts.hidden_dim as int / facts.heads as int);
    assert(width >= 0) by (nonlinear_arith)
        requires
            width == 4 * facts.kv_heads * (facts.hidden_dim as int / facts.heads as int),
            facts.heads > 0,
    ;
    assert(width * smaller_context <= width * context) by (nonlinear_arith)
        requires
            width >= 0,
            smaller_context <= context,
    ;
    assert(width * smaller_context >= 0) by (nonlinear_arith)
        requires
            width >= 0,
    ;
    assert forall|i: int| 0 <= i < hard.budgets.len() implies #[trigger] easy.budgets[i]
        >= hard.budgets[i] by {
        assert(more[i].free_memory >= devices[i].free_memory);
        lemma_budget_rises(more[i], devices[i], smaller_reserve, reserve);
    }
    lemma_eases_feasible(easy, hard, 0, 0);
}

/// What the layers from `from` up to `to` take on a device: their weights, and for
/// each, keys and values of two bytes for every one of its KV heads, every value of
/// a head and every token of the context.
pub open spec fn held(inventory: ModelInventory, context: u32, from: int, to: int) -> int
    decreases to - from,
{
    if to <= from {
        0
    } else {
        held(inventory, context, from, to - 1) + inventory.layer_bytes@[to - 1] + 2 * 2
            * inventory.facts.kv_heads * (inventory.facts.hidden_dim as int
            / inventory.facts.heads as int) * context
    }
}

/// What a device takes that holds the layers from `from` up to `to`: the output too
/// where it is the last.
pub open spec fn needed(
    inventory: ModelInventory,
    context: u32,
    devices: Seq<GpuDevice>,
    device: int,
    from: int,
    to: int,
) -> int {
    held(inventory, context, from, to) + if device == devices.len() - 1 {
        inventory.output_bytes as int
    } else {
        0
    }
}

/// Whether so many bytes may go to a device: none always may, and more where with
/// the reserve, and with a tenth of what is free, they are no more than what is
/// free, as much of it as the device has at all.
pub open spec fn has_room(device: GpuDevice, reserve: u64, bytes: int) -> bool {
    let free = if device.free_memory <= device.total_memory {
        device.free_memory as int
    } else {
        device.total_memory as int
    };
    bytes == 0 || (bytes + reserve <= free && bytes + free / 10 <= free)
}

/// Where a device's layers begin: after those of the devices before it.
pub open spec fn first_layer(layers: Seq<u32>, device: int) -> int
    decreases device,
{
    if device <= 0 {
        0
    } else {
        first_layer(layers, device - 1) + layers[device - 1]
    }
}

/// Where the layers of the device at `device` end, of a plan whose last device
/// counts one more for the output.
pub open spec fn layers_end(layers: Seq<u32>, device: int) -> int {
    first_layer(layers, device) + layers[device] - if device == layers.len() - 1 {
        1int
    } else {
        0int
    }
}

/// Whether the layers can go to the devices cut so: from the first to the last, no
/// device without one, and room for each.
pub open spec fn allocation(
    inventory: ModelInventory,
    context: u32,
    devices: Seq<GpuDevice>,
    reserve: u64,
    cuts: Seq<int>,
) -> bool {
    &&& cuts.len() == devices.len() + 1
    &&& cuts[0] == 0
    &&& cuts.last() == inventory.facts.layers
    &&& forall|d: int|
        0 <= d < devices.len() ==> cuts[d] < cuts[d + 1] && has_room(
            #[trigger] devices[d],
            reserve,
            needed(inventory, context, devices, d, cuts[d], cuts[d + 1]),
        )
}

proof fn lemma_kv(inventory: ModelInventory, context: u32)
    requires
        inventory.facts.heads > 0,
    ensures
        kv_of(inventory, context) == 2 * 2 * inventory.facts.kv_heads
            * (inventory.facts.hidden_dim as int / inventory.facts.heads as int) * context,
{
    let facts = inventory.facts;
    let (k, w, c) = (
        facts.kv_heads as int,
        facts.hidden_dim as int / facts.heads as int,
        context as int,
    );
    assert(w >= 0);
    assert(4 * k * w * c >= 0) by (nonlinear_arith)
        requires
            k >= 0,
            w >= 0,
            c >= 0,
    ;
}

proof fn lemma_held_is_prefix(
    inventory: ModelInventory,
    context: u32,
    devices: Seq<GpuDevice>,
    reserve: u64,
    from: int,
    to: int,
)
    requires
        inventory.facts.heads > 0,
        0 <= from <= to <= inventory.layer_bytes@.len(),
    ensures
        ({
            let p = problem_of(inventory, context, devices, reserve);
            held(inventory, context, from, to) == p.prefix(to) - p.prefix(from)
        }),
        held(inventory, context, from, to) >= 0,
    decreases to - from,
{
    let p = problem_of(inventory, context, devices, reserve);
    if from < to {
        lemma_held_is_prefix(inventory, context, devices, reserve, from, to - 1);
        lemma_kv(inventory, context);
        lemma_prefix_step(p, to - 1);
    }
}

proof fn lemma_room_is_fit(
    inventory: ModelInventory,
    context: u32,
    devices: Seq<GpuDevice>,
    reserve: u64,
    device: int,
    from: int,
    to: int,
)
    requires
        inventory.facts.heads > 0,
        0 <= device < devices.len(),
        0 <= from <= to <= inventory.layer_bytes@.len(),
    ensures
        problem_of(inventory, context, devices, reserve).fits(device, from, to) <==> has_room(
            devices[device],
            reserve,
            needed(inventory, context, devices, device, from, to),
        ),
{
    lemma_held_is_prefix(inventory, context, devices, reserve, from, to);
}

proof fn lemma_first_layer_is_begin(layers: Seq<u32>, device: int)
    requires
        layers.len() > 0,
        layers.last() >= 1,
        0 <= device < layers.len(),
    ensures
        first_layer(layers, device) == begin(shares(layers), device),
        layers_end(layers, device) == begin(shares(layers), device + 1),
    decreases device,
{
    let s = shares(layers);
    lemma_total_step(s, device);
    if device == 0 {
        assert(s.take(0) =~= Seq::<nat>::empty());
    } else {
        lemma_first_layer_is_begin(layers, device - 1);
    }
}

/// Whether a device of a plan has at least one layer, none past the model's last,
/// and room for what it is given; and the next device goes on where it ends, or it
/// is the last and ends with the model.
pub open spec fn settled(
    inventory: ModelInventory,
    context: u32,
    devices: Seq<GpuDevice>,
    reserve: u64,
    layers: Seq<u32>,
    device: int,
) -> bool {
    let (from, to) = (first_layer(layers, device), layers_end(layers, device));
    &&& 0 <= from < to <= inventory.facts.layers
    &&& has_room(
        devices[device],
        reserve,
        needed(inventory, context, devices, device, from, to),
    )
    &&& to == if device == devices.len() - 1 {
        inventory.facts.layers as int
    } else {
        first_layer(layers, device + 1)
    }
}

/// A plan gives every device a run of at least one layer, the runs follow one
/// another from the first layer to the last, and on every device there is room for
/// its layers' weights and the KV cache of the whole context, on the last one with
/// the output.
pub proof fn law_planned_layers_fit_with_their_cache(
    inventory: ModelInventory,
    context: u32,
    devices: Seq<GpuDevice>,
    reserve: u64,
    plan: Plan,
)
    requires
        built(inventory, context, devices, reserve, Ok::<Plan, PlanError>(plan)),
    ensures
        plan.layers@.len() == devices.len(),
        first_layer(plan.layers@, 0) == 0,
        forall|d: int|
            0 <= d < devices.len() ==> #[trigger] settled(
                inventory,
                context,
                devices,
                reserve,
                plan.layers@,
                d,
            ),
{
    assert forall|d: int| 0 <= d < devices.len() implies #[trigger] settled(
        inventory,
        context,
        devices,
        reserve,
        plan.layers@,
        d,
    ) by {
        lemma_planned_device(inventory, context, devices, reserve, plan.layers@, d);
    }
}

proof fn lemma_planned_device(
    inventory: ModelInventory,
    context: u32,
    devices: Seq<GpuDevice>,
    reserve: u64,
    layers: Seq<u32>,
    d: int,
)
    requires
        dimensions(inventory),
        planned(problem_of(inventory, context, devices, reserve), layers),
        0 <= d < devices.len(),
    ensures
        settled(inventory, context, devices, reserve, layers, d),
{
    let p = problem_of(inventory, context, devices, reserve);
    let s = shares(layers);
    lemma_first_layer_is_begin(layers, d);
    assert(p.chosen(d, begin(s, d) as int, begin(s, d + 1) as int));
    assert(p.possible(d, begin(s, d) as int, begin(s, d + 1) as int));
    lemma_room_is_fit(
        inventory,
        context,
        devices,
        reserve,
        d,
        first_layer(layers, d),
        layers_end(layers, d),
    );
    if d < devices.len() - 1 {
        lemma_first_layer_is_begin(layers, d + 1);
    }
}

/// A model is refused for want of memory only where no allocation has room: with
/// the KV cache of the whole context, every way to cut the layers leaves some
/// device without.
pub proof fn law_refused_for_memory_only_where_nothing_fits(
    inventory: ModelInventory,
    context: u32,
    devices: Seq<GpuDevice>,
    reserve: u64,
    out: Result<Plan, PlanError>,
    cuts: Seq<int>,
)
    requires
        built(inventory, context, devices, reserve, out),
        out == Err::<Plan, PlanError>(PlanError::Memory),
    ensures
        !allocation(inventory, context, devices, reserve, cuts),
{
    let p = problem_of(inventory, context, devices, reserve);
    if allocation(inventory, context, devices, reserve, cuts) {
        lemma_allocation_is_parted(inventory, context, devices, reserve, cuts);
        lemma_parted_feasible(p, 0, cuts);
    }
}

proof fn lemma_cuts_ascend(cuts: Seq<int>, n: int, i: int, j: int)
    requires
        0 <= i <= j <= n,
        forall|d: int| 0 <= d < n ==> #[trigger] ascends(cuts, d),
    ensures
        cuts[i] <= cuts[j],
    decreases j - i,
{
    if i < j {
        assert(ascends(cuts, j - 1));
        lemma_cuts_ascend(cuts, n, i, j - 1);
    }
}

spec fn ascends(cuts: Seq<int>, d: int) -> bool {
    cuts[d] < cuts[d + 1]
}

proof fn lemma_allocation_is_parted(
    inventory: ModelInventory,
    context: u32,
    devices: Seq<GpuDevice>,
    reserve: u64,
    cuts: Seq<int>,
)
    requires
        dimensions(inventory),
        allocation(inventory, context, devices, reserve, cuts),
    ensures
        parted(problem_of(inventory, context, devices, reserve), 0, 0, cuts),
{
    let p = problem_of(inventory, context, devices, reserve);
    let n = devices.len() as int;
    assert forall|d: int| 0 <= d < n implies #[trigger] ascends(cuts, d) by {
        let device = devices[d];
    }
    assert forall|i: int| 0 <= i < cuts.len() - 1 implies #[trigger] run_fits(p, 0, cuts, i) by {
        let device = devices[i];
        lemma_cuts_ascend(cuts, n, 0, i);
        lemma_cuts_ascend(cuts, n, i + 1, n);
        lemma_room_is_fit(inventory, context, devices, reserve, i, cuts[i], cuts[i + 1]);
    }
}

/// Planning is refused for the model's figures exactly where they are not those of
/// a model: no layers or more than 4096, no width, no heads, heads that do not part
/// the width evenly, no KV heads or more than heads, or another number of layers
/// weighed. It is refused for the number of devices exactly where there are none,
/// or more than layers, or more than 63.
pub proof fn law_what_is_planned_at_all(
    inventory: ModelInventory,
    context: u32,
    devices: Seq<GpuDevice>,
    reserve: u64,
    out: Result<Plan, PlanError>,
)
    requires
        built(inventory, context, devices, reserve, out),
    ensures
        ({
            let facts = inventory.facts;
            let sound = {
                &&& 1 <= facts.layers <= 4096
                &&& facts.hidden_dim >= 1
                &&& facts.heads >= 1
                &&& facts.hidden_dim as int % facts.heads as int == 0
                &&& 1 <= facts.kv_heads <= facts.heads
                &&& inventory.layer_bytes@.len() == facts.layers
            };
            let counted = 1 <= devices.len() <= facts.layers && devices.len() <= 63;
            &&& out == Err::<Plan, PlanError>(PlanError::Dimensions) <==> !sound
            &&& out is Ok ==> sound && counted
            &&& out == Err::<Plan, PlanError>(PlanError::Memory) ==> sound && counted
            &&& sound && !counted ==> out is Err && out->Err_0 is Devices
            &&& out matches Err(PlanError::Devices { most }) ==> {
                &&& sound && !counted
                &&& most <= facts.layers && most <= 63
                &&& most == facts.layers || most == 63
            }
        }),
{
}

/// One more token of context takes as much more on every layer, whatever the
/// context: four bytes for each value of each KV head. So what some layers take
/// with two contexts together is what they take with the one and the cache of the
/// other.
pub proof fn law_cache_grows_with_every_token(
    inventory: ModelInventory,
    context: u32,
    more: u32,
    devices: Seq<GpuDevice>,
    reserve: u64,
    layer: int,
)
    requires
        inventory.facts.heads > 0,
        context + more <= u32::MAX,
        0 <= layer < inventory.layer_bytes@.len(),
    ensures
        ({
            let facts = inventory.facts;
            let token = 4 * facts.kv_heads * (facts.hidden_dim as int / facts.heads as int);
            let none = problem_of(inventory, 0, devices, reserve).loads[layer];
            let one = problem_of(inventory, context, devices, reserve).loads[layer];
            let both = problem_of(inventory, (context + more) as u32, devices, reserve).loads[layer];
            &&& none == inventory.layer_bytes@[layer]
            &&& one == none + token * context
            &&& both == one + token * more
        }),
{
    let facts = inventory.facts;
    let token = 4 * facts.kv_heads * (facts.hidden_dim as int / facts.heads as int);
    lemma_kv(inventory, 0);
    lemma_kv(inventory, context);
    lemma_kv(inventory, (context + more) as u32);
    assert(token * 0 == 0);
    assert(token * (context + more) == token * context + token * more) by (nonlinear_arith);
}

/// What a device can be given: what it has free, as much of it as it has at all,
/// less the reserve or a tenth, whichever is more; nothing where that is more.
pub open spec fn spare(device: GpuDevice, reserve: u64) -> int {
    let free = if device.free_memory <= device.total_memory {
        device.free_memory as int
    } else {
        device.total_memory as int
    };
    let kept = if reserve >= free / 10 {
        reserve as int
    } else {
        free / 10
    };
    if free > kept {
        free - kept
    } else {
        0
    }
}

/// What the first `n` devices can be given together.
pub open spec fn spare_of(devices: Seq<GpuDevice>, reserve: u64, n: int) -> int
    decreases n,
{
    if n <= 0 {
        0
    } else {
        spare_of(devices, reserve, n - 1) + spare(devices[n - 1], reserve)
    }
}

/// How far a device's cut is from its place in proportion, in double precision: the
/// load up to the cut, from the whole load times the memory of the devices up to
/// this one over that of all.
pub open spec fn out_of_proportion(
    inventory: ModelInventory,
    context: u32,
    devices: Seq<GpuDevice>,
    reserve: u64,
    device: int,
    cut: int,
) -> Value {
    let whole = held(inventory, context, 0, inventory.facts.layers as int)
        + inventory.output_bytes;
    let place = double_of(whole as nat).times(
        double_of(spare_of(devices, reserve, device + 1) as nat),
    ).over(double_of(spare_of(devices, reserve, devices.len() as int) as nat));
    double_of(needed(inventory, context, devices, device, 0, cut) as nat).distance(place)
}

proof fn lemma_spare_of_is_total(
    inventory: ModelInventory,
    context: u32,
    devices: Seq<GpuDevice>,
    reserve: u64,
    n: int,
)
    requires
        0 <= n <= devices.len(),
    ensures
        spare_of(devices, reserve, n) == total(
            problem_of(inventory, context, devices, reserve).budgets.take(n),
        ),
    decreases n,
{
    let p = problem_of(inventory, context, devices, reserve);
    if n > 0 {
        lemma_spare_of_is_total(inventory, context, devices, reserve, n - 1);
        lemma_total_step(p.budgets, n - 1);
    } else {
        assert(p.budgets.take(0) =~= Seq::<nat>::empty());
    }
}

proof fn lemma_out_of_proportion_is_off(
    inventory: ModelInventory,
    context: u32,
    devices: Seq<GpuDevice>,
    reserve: u64,
    device: int,
    cut: int,
)
    requires
        dimensions(inventory),
        0 <= device < devices.len(),
        0 <= cut <= inventory.facts.layers,
    ensures
        out_of_proportion(inventory, context, devices, reserve, device, cut) == problem_of(
            inventory,
            context,
            devices,
            reserve,
        ).off(device, cut),
{
    let p = problem_of(inventory, context, devices, reserve);
    let layers = inventory.facts.layers as int;
    assert(p.loads.take(0) =~= Seq::<nat>::empty());
    lemma_held_is_prefix(inventory, context, devices, reserve, 0, cut);
    lemma_held_is_prefix(inventory, context, devices, reserve, 0, layers);
    lemma_spare_of_is_total(inventory, context, devices, reserve, device + 1);
    lemma_spare_of_is_total(inventory, context, devices, reserve, devices.len() as int);
    assert(p.budgets.take(devices.len() as int) =~= p.budgets);
}

/// Layers are shared out in proportion to memory: of all allocations with room that
/// agree with the plan on the devices before, none cuts nearer to the place in
/// proportion after the next device, and of those that cut as near the plan's cut
/// is the first.
pub proof fn law_each_cut_is_nearest_to_proportion(
    inventory: ModelInventory,
    context: u32,
    devices: Seq<GpuDevice>,
    reserve: u64,
    plan: Plan,
    device: int,
    cuts: Seq<int>,
)
    requires
        built(inventory, context, devices, reserve, Ok::<Plan, PlanError>(plan)),
        0 <= device < devices.len(),
        allocation(inventory, context, devices, reserve, cuts),
        cuts[device] == first_layer(plan.layers@, device),
    ensures
        ({
            let end = layers_end(plan.layers@, device);
            let other = cuts[device + 1];
            let ours = out_of_proportion(inventory, context, devices, reserve, device, end);
            let theirs = out_of_proportion(inventory, context, devices, reserve, device, other);
            if spare_of(devices, reserve, devices.len() as int) == 0 {
                end <= other
            } else {
                &&& !theirs.less(ours)
                &&& other < end ==> ours.less(theirs)
            }
        }),
{
    let p = problem_of(inventory, context, devices, reserve);
    let layers = plan.layers@;
    let n = devices.len() as int;
    let start = cuts[device];
    let end = layers_end(layers, device);
    let other = cuts[device + 1];
    lemma_allocation_is_parted(inventory, context, devices, reserve, cuts);
    assert(run_fits(p, 0, cuts, device));
    let rest = cuts.skip(device + 1);
    assert forall|i: int| 0 <= i < rest.len() - 1 implies #[trigger] run_fits(
        p,
        device + 1,
        rest,
        i,
    ) by {
        assert(run_fits(p, 0, cuts, device + 1 + i));
        assert(rest[i] == cuts[device + 1 + i]);
        assert(rest[i + 1] == cuts[device + 2 + i]);
    }
    assert(rest[0] == other);
    assert(rest.last() == cuts.last());
    lemma_parted_feasible(p, device + 1, rest);
    assert(p.possible(device, start, other));
    lemma_planned_device(inventory, context, devices, reserve, layers, device);
    lemma_planned_cut(p, layers, device);
    lemma_out_of_proportion_is_off(inventory, context, devices, reserve, device, end);
    assert(other >= 0);
    lemma_out_of_proportion_is_off(inventory, context, devices, reserve, device, other);
    lemma_spare_of_is_total(inventory, context, devices, reserve, n);
    assert(p.budgets.take(n) =~= p.budgets);
}

proof fn lemma_planned_cut(p: Problem, layers: Seq<u32>, device: int)
    requires
        planned(p, layers),
        0 <= device < layers.len(),
    ensures
        p.chosen(device, first_layer(layers, device), layers_end(layers, device)),
{
    lemma_first_layer_is_begin(layers, device);
    let s = shares(layers);
    assert(p.chosen(device, begin(s, device) as int, begin(s, device + 1) as int));
}

}
