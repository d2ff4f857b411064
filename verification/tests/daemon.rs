use lattice::daemon::chat::check_worker;
use lattice::daemon::generate::{check_tiling, Host, Placement};
use lattice::daemon::host::parse_meminfo;
use lattice::daemon::plan::{build, PlanError};
use lattice::daemon::runtime::{retain, select_device, State, WorkerRuntime, RETAINED};
use lattice::daemon::worker::{explicit_address, select_master};
use lattice::engine::{ModelFacts, ModelInventory};
use lattice::net::discovery::PROTOCOL_VERSION;
use lattice::net::{
    DiscoveredPeer, EngineCapabilities, GpuDevice, IpAddr, SocketAddr,
};

#[test]
fn incompatible_busy_and_cpu_workers_are_refused() {
    let mut caps = EngineCapabilities {
        revision: "same".into(),
        busy: false,
        device: GpuDevice {
            name: "Vulkan0".into(),
            description: "RX 7600".into(),
            kind: "gpu".into(),
            total_memory: 8 << 30,
            free_memory: 7 << 30,
        },
    };
    assert!(check_worker(&caps, "same").is_ok());
    assert!(check_worker(&caps, "different").is_err());
    caps.busy = true;
    assert!(check_worker(&caps, "same").is_err());
    caps.busy = false;
    caps.device.kind = "cpu".into();
    assert!(check_worker(&caps, "same").is_err());
}

fn inventory(weights: &[u64], output_bytes: u64) -> ModelInventory {
    ModelInventory {
        facts: ModelFacts {
            arch: "llama".into(),
            layers: weights.len() as u32,
            hidden_dim: 1,
            heads: 1,
            kv_heads: 1,
            train_context: 2048,
        },
        layer_bytes: weights.to_vec(),
        output_bytes,
    }
}

fn device(bytes: u64) -> GpuDevice {
    GpuDevice {
        name: "GPU".into(),
        description: "test GPU".into(),
        kind: "gpu".into(),
        total_memory: bytes,
        free_memory: bytes,
    }
}

#[test]
fn uneven_layers_fit_without_averaging_their_sizes() {
    let plan = build(
        &inventory(&[800, 100, 100], 0),
        0,
        &[device(900), device(300)],
        0,
    )
    .unwrap();
    assert_eq!(plan.layers, vec![1, 3]);
}

#[test]
fn large_output_is_charged_to_the_final_gpu() {
    let model = inventory(&[100, 100, 100, 100], 700);
    let plan = build(&model, 0, &[device(400), device(900)], 0).unwrap();
    assert_eq!(plan.layers, vec![3, 2]);
    assert!(build(&model, 0, &[device(900), device(400)], 0).is_err());
}

#[test]
fn every_gpu_gets_transformer_layers_and_context_is_charged() {
    let model = inventory(&[100; 6], 50);
    let plan = build(&model, 0, &[device(300), device(900)], 0).unwrap();
    assert_eq!(plan.layers.iter().sum::<u32>(), 7);
    assert!(plan.layers[0] >= 1 && plan.layers[1] >= 2);
    assert!(build(&model, 100, &[device(300), device(900)], 0).is_err());
}

#[test]
fn free_memory_and_reserves_limit_admission() {
    let mut gpu = device(1000);
    gpu.free_memory = 200;
    assert!(build(&inventory(&[100], 100), 0, &[gpu], 0).is_err());
    assert!(build(&inventory(&[100], 100), 0, &[device(1000)], 900).is_err());
}

#[test]
fn feasibility_matches_exhaustive_three_gpu_partitions() {
    let model = inventory(&[70, 180, 40, 120, 90], 80);
    for a in [100, 250, 500] {
        for b in [100, 250, 500] {
            for c in [100, 250, 500] {
                let capacities = [a, b, c].map(|n| n - n / 10);
                let possible = (1..4).any(|x| {
                    (x + 1..5).any(|y| {
                        model.layer_bytes[..x].iter().sum::<u64>() <= capacities[0]
                            && model.layer_bytes[x..y].iter().sum::<u64>() <= capacities[1]
                            && model.layer_bytes[y..].iter().sum::<u64>() + model.output_bytes
                                <= capacities[2]
                    })
                });
                assert_eq!(
                    build(&model, 0, &[device(a), device(b), device(c)], 0).is_ok(),
                    possible
                );
            }
        }
    }
}

fn here(first_layer: u32, last_layer: u32) -> Placement {
    Placement { first_layer, last_layer, host: Host::Here }
}

#[test]
fn a_placement_parses_a_range_and_a_destination() {
    assert_eq!("0-11@local".parse::<Placement>().unwrap(), here(0, 11));
    let remote: Placement = "11-22@e19a64287ece5641".parse().unwrap();
    assert!(matches!(remote.host, Host::Peer(_)));
    assert!("0-11".parse::<Placement>().is_err());
    assert!("0-11@not-a-device-id".parse::<Placement>().is_err());
}

#[test]
fn contiguous_placements_covering_every_layer_are_accepted() {
    assert!(check_tiling(&[here(0, 11), here(11, 22)], 22).is_ok());
    assert!(check_tiling(&[here(0, 22)], 22).is_ok());
}

#[test]
fn a_gap_is_refused_rather_than_silently_dropping_layers() {
    let err = check_tiling(&[here(0, 10), here(11, 22)], 22).unwrap_err();
    assert!(err.to_string().contains("10..11 are unplaced"), "{err}");
}

#[test]
fn an_overlap_is_refused_rather_than_running_layers_twice() {
    assert!(check_tiling(&[here(0, 12), here(11, 22)], 22).is_err());
}

#[test]
fn placements_must_reach_the_end_of_the_model() {
    let err = check_tiling(&[here(0, 11)], 22).unwrap_err();
    assert!(err.to_string().contains("has 22 layers"), "{err}");
}

#[test]
fn meminfo_is_read_in_kibibytes() {
    // Shape taken from a real /proc/meminfo.
    let sample = "MemTotal:       32791096 kB\n\
                  MemFree:         1234567 kB\n\
                  MemAvailable:   28000000 kB\n";
    assert_eq!(parse_meminfo(sample), 32_791_096 * 1024);
}

#[test]
fn a_meminfo_without_memtotal_yields_zero_rather_than_a_wrong_number() {
    assert_eq!(parse_meminfo("MemFree: 100 kB\n"), 0);
    assert_eq!(parse_meminfo(""), 0);
    assert_eq!(parse_meminfo("MemTotal:       not-a-number kB\n"), 0);
}

fn gpu(name: &str, kind: &str, free_memory: u64) -> GpuDevice {
    GpuDevice {
        name: name.into(),
        description: name.into(),
        kind: kind.into(),
        total_memory: free_memory,
        free_memory,
    }
}

#[test]
fn discrete_gpu_wins_over_large_integrated_memory() {
    let devices = vec![
        gpu("CPU", "cpu", 1000),
        gpu("integrated", "igpu", 900),
        gpu("discrete", "gpu", 100),
    ];
    assert_eq!(select_device(&devices, None).unwrap().name, "discrete");
    assert_eq!(
        select_device(&devices, Some("integrated")).unwrap().name,
        "integrated"
    );
    assert!(select_device(&devices, Some("CPU")).is_err());
    assert!(select_device(&devices, Some("missing")).is_err());
}

#[test]
fn only_gpu_and_registered_master_are_accepted() {
    assert!(select_device(&[gpu("CPU", "cpu", 1000)], None).is_err());
    assert_eq!(
        select_device(&[gpu("Metal", "igpu", 1000)], None)
            .unwrap()
            .name,
        "Metal"
    );
    let master = "1111111111111111".parse().unwrap();
    assert!(
        WorkerRuntime::check_master(&State { master: None, server: None }, master).is_err()
    );
    assert!(
        WorkerRuntime::check_master(&State { master: Some(master), server: None }, master).is_ok()
    );
}

#[test]
fn helper_output_is_drained_even_when_retention_is_full() {
    let source = vec![42; 2 * 1024 * 1024];
    let mut output = Vec::new();
    for chunk in source.chunks(8192) {
        retain(&mut output, chunk);
    }
    assert_eq!(output.len(), 1024 * 1024);
    assert_eq!(RETAINED, 1024 * 1024);
}

fn v4(a: u32, b: u32, c: u32, d: u32, port: u16) -> SocketAddr {
    SocketAddr { ip: IpAddr::V4(a << 24 | b << 16 | c << 8 | d), port }
}

fn peer(id: &str, role: Option<&str>) -> DiscoveredPeer {
    DiscoveredPeer {
        device_id: id.parse().unwrap(),
        name: "computer".into(),
        platform: "linux-x86_64".into(),
        total_memory: 0,
        protocol: PROTOCOL_VERSION,
        addrs: vec![v4(192, 168, 7, 40, 47900)],
        role: role.map(str::to_owned),
        pairing_port: Some(47901),
    }
}

#[test]
fn discovery_requires_a_master_and_never_silently_switches_identity() {
    let a = peer("1111111111111111", Some("master"));
    let b = peer("2222222222222222", Some("master"));
    assert!(select_master(vec![a.clone(), b.clone()], None).is_err());
    assert_eq!(
        select_master(vec![a.clone(), b.clone()], Some(a.device_id))
            .unwrap()
            .unwrap()
            .device_id,
        a.device_id
    );
    assert!(select_master(vec![b], Some(a.device_id)).unwrap().is_none());
    assert!(
        select_master(
            vec![
                peer("3333333333333333", Some("worker")),
                peer("4444444444444444", None)
            ],
            None
        )
        .unwrap()
        .is_none()
    );
}

#[test]
fn explicit_master_uses_fixed_ports_and_ipv4() {
    assert_eq!(
        explicit_address("192.168.7.40").unwrap().unwrap().port,
        47900
    );
    assert_eq!(
        explicit_address("192.168.7.40:4242")
            .unwrap()
            .unwrap()
            .port,
        4242
    );
    assert!(explicit_address("192.168.7.40:0").is_err());
    assert!(explicit_address("[::1]:47900").is_err());
    assert!(explicit_address("1111111111111111").unwrap().is_none());
}

#[test]
fn a_plan_says_why_there_is_none() {
    let mut model = inventory(&[1, 1], 0);
    model.facts.heads = 0;
    assert_eq!(build(&model, 0, &[device(10)], 0).unwrap_err(), PlanError::Dimensions);
    let model = inventory(&[1, 1], 0);
    let error = build(&model, 0, &[], 0).unwrap_err();
    assert_eq!(error, PlanError::Devices { most: 2 });
    assert_eq!(
        error.message(),
        "select between 1 and 2 GPUs so each receives transformer layers"
    );
    let three = [device(10), device(10), device(10)];
    assert_eq!(build(&model, 0, &three, 0).unwrap_err(), error);
    let error = build(&inventory(&[100], 0), 0, &[device(10)], 0).unwrap_err();
    assert_eq!(error, PlanError::Memory);
    assert!(error.message().starts_with("no contiguous layer allocation fits"));
}
