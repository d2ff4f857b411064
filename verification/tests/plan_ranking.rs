use lattice::daemon::double::Double;
use lattice::daemon::plan::{build, Plan, PlanError};
use lattice::engine::{ModelFacts, ModelInventory};
use lattice::net::GpuDevice;

/// A small generator of numbers, the same on every run.
struct Numbers(u64);

impl Numbers {
    fn next(&mut self) -> u64 {
        self.0 ^= self.0 << 13;
        self.0 ^= self.0 >> 7;
        self.0 ^= self.0 << 17;
        self.0
    }

    fn below(&mut self, bound: u64) -> u64 {
        self.next() % bound
    }

    fn bits(&mut self, most: u64) -> u64 {
        let width = 1 + self.below(most);
        self.next() >> (64 - width)
    }
}

fn parts(value: f64) -> (u64, i32) {
    if value == 0.0 {
        return (0, 0);
    }
    let bits = value.to_bits();
    let mantissa = (bits & ((1 << 52) - 1)) | 1 << 52;
    (mantissa, ((bits >> 52) & 0x7ff) as i32 - 1075)
}

fn check(what: &str, ours: Double, machine: f64) {
    assert_eq!((ours.mantissa, ours.exponent), parts(machine), "{what}");
}

#[test]
fn doubles_agree_with_the_machine() {
    let mut numbers = Numbers(0x9e37_79b9_7f4a_7c15);
    for _ in 0..20_000 {
        let wide = |n: &mut Numbers| {
            let low = u128::from(n.bits(64));
            let shift = n.below(48) as u32;
            (low << shift) | u128::from(n.below(1 << 20))
        };
        let (a, b, c) = (wide(&mut numbers), wide(&mut numbers), wide(&mut numbers));
        let (x, y) = (Double::of(a), Double::of(b));
        check("conversion", x, a as f64);
        check("product", x.times(y), a as f64 * b as f64);
        if c > 0 {
            let z = Double::of(c);
            let ratio = x.times(y).over(z);
            let machine = a as f64 * b as f64 / c as f64;
            check("quotient", ratio, machine);
            let base = Double::of(b);
            check("distance", base.distance(ratio), (b as f64 - machine).abs());
            check("distance", ratio.distance(base), (machine - b as f64).abs());
            assert_eq!(base.less(ratio), (b as f64) < machine);
        }
        assert_eq!(x.less(y), (a as f64) < (b as f64));
        assert!(!x.less(x));
    }
    let tie = (1u128 << 53) + 1;
    check("ties to even", Double::of(tie), tie as f64);
    check("ties to even", Double::of(tie + 2), (tie + 2) as f64);
    let gap = Double::of(1).distance(Double::of(1 << 100));
    check("absorbed", gap, (1.0 - (1u128 << 100) as f64).abs());
}

/// The same plan, with the ranking computed by the machine's own doubles.
fn machine_plan(
    inventory: &ModelInventory,
    context: u32,
    devices: &[GpuDevice],
    reserve: u64,
) -> Option<Vec<u32>> {
    let facts = &inventory.facts;
    let layers = facts.layers as usize;
    let budgets: Vec<u128> = devices
        .iter()
        .map(|device| {
            let free = device.free_memory.min(device.total_memory);
            u128::from(free.saturating_sub(reserve.max(free / 10)))
        })
        .collect();
    let kv = 4
        * u128::from(facts.kv_heads)
        * u128::from(facts.hidden_dim / facts.heads)
        * u128::from(context);
    let mut prefix = vec![0u128];
    for bytes in &inventory.layer_bytes {
        prefix.push(prefix.last().unwrap() + u128::from(*bytes) + kv);
    }
    let output = u128::from(inventory.output_bytes);
    let extra = |device: usize| if device == devices.len() - 1 { output } else { 0 };
    let mut feasible = vec![vec![false; layers + 1]; devices.len() + 1];
    feasible[devices.len()][layers] = true;
    for device in (0..devices.len()).rev() {
        for start in 0..layers {
            feasible[device][start] = (start + 1..=layers).any(|end| {
                feasible[device + 1][end]
                    && prefix[end] - prefix[start] + extra(device) <= budgets[device]
            });
        }
    }
    if !feasible[0][0] {
        return None;
    }
    let total_budget: u128 = budgets.iter().sum();
    let total_bytes = prefix[layers] + output;
    let (mut assigned, mut start, mut cumulative) = (Vec::new(), 0, 0);
    for device in 0..devices.len() {
        cumulative += budgets[device];
        let target = total_bytes as f64 * cumulative as f64 / total_budget as f64;
        let end = (start + 1..=layers)
            .take_while(|&end| prefix[end] - prefix[start] + extra(device) <= budgets[device])
            .filter(|&end| feasible[device + 1][end])
            .min_by(|&a, &b| {
                let distance =
                    |end: usize| ((prefix[end] + extra(device)) as f64 - target).abs();
                distance(a).total_cmp(&distance(b))
            })
            .unwrap();
        assigned.push((end - start) as u32);
        start = end;
    }
    *assigned.last_mut().unwrap() += 1;
    Some(assigned)
}

#[test]
fn plans_agree_with_a_ranking_in_machine_doubles() {
    let mut numbers = Numbers(0x1234_5678_9abc_def1);
    let mut planned = 0;
    for round in 0..10_000 {
        let layers = 1 + numbers.below(12) as usize;
        let width = 1 + numbers.below(63);
        let weights: Vec<u64> = (0..layers).map(|_| numbers.bits(width)).collect();
        let heads = 1 + numbers.below(4) as u32;
        let inventory = ModelInventory {
            facts: ModelFacts {
                arch: "llama".into(),
                layers: layers as u32,
                hidden_dim: heads * (1 + numbers.below(64) as u32),
                heads,
                kv_heads: 1 + numbers.below(u64::from(heads)) as u32,
                train_context: 2048,
            },
            layer_bytes: weights,
            output_bytes: numbers.bits(width),
        };
        let context = if round % 3 == 0 { 0 } else { numbers.below(4096) as u32 };
        let count = 1 + numbers.below(4.min(layers as u64)) as usize;
        let devices: Vec<GpuDevice> = (0..count)
            .map(|_| {
                let free = if round % 50 == 0 { 0 } else { numbers.bits((width + 4).min(64)) };
                GpuDevice {
                    name: "GPU".into(),
                    description: "GPU".into(),
                    kind: "gpu".into(),
                    total_memory: u64::MAX,
                    free_memory: free,
                }
            })
            .collect();
        let reserve = if round % 2 == 0 { 0 } else { numbers.bits(20) };
        let ours = match build(&inventory, context, &devices, reserve) {
            Ok(Plan { layers }) => Some(layers),
            Err(PlanError::Memory) => None,
            Err(error) => panic!("{error:?}"),
        };
        let machine = machine_plan(&inventory, context, &devices, reserve);
        planned += usize::from(machine.is_some());
        assert_eq!(ours, machine, "round {round}");
    }
    assert!(planned > 500, "only {planned} rounds had a plan");
}

#[test]
fn weightless_layers_on_full_devices_are_planned_first_come() {
    let inventory = ModelInventory {
        facts: ModelFacts {
            arch: "llama".into(),
            layers: 4,
            hidden_dim: 1,
            heads: 1,
            kv_heads: 1,
            train_context: 1,
        },
        layer_bytes: vec![0; 4],
        output_bytes: 0,
    };
    let full = GpuDevice {
        name: "GPU".into(),
        description: "GPU".into(),
        kind: "gpu".into(),
        total_memory: 0,
        free_memory: 0,
    };
    let devices = [full.clone(), full];
    let plan = build(&inventory, 0, &devices, 0).unwrap();
    assert_eq!(Some(plan.layers), machine_plan(&inventory, 0, &devices, 0));
}
