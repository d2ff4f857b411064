use lattice::daemon::generate::{
    argmax, check_tiling, load_outcome, pipeline_specs, wire_dtype, Decoding, Host, LoadOutcome,
    Options, Placement,
};
use lattice::daemon::host::{meminfo_kib, parse_meminfo, platform, trim_host};
use lattice::daemon::master::{
    check_listener, check_ports, join_answer, route, MasterAction, Workers,
};
use lattice::daemon::node::{
    capabilities_answer, check_model, load_answer, plan_step, roster_for, LoadReply, Node,
    NodeAction, ProvisionStep, Provisioning, ShardCall,
};
use lattice::daemon::pairing_session::{check_paired, check_saved as check_peer_saved, SAVED};
use lattice::daemon::resolve::{
    check_enough, parse_target, provision_line, unpair_outcome, Locating, Lookup, Wanted,
};
use lattice::daemon::startup::{
    firewall_args, firewall_outcome, port_unavailable, role_of, serving_line, Attempt, Attempts,
    CommonOptions, Firewall, MasterOptions, MASTER_BUSY,
};
use lattice::engine::{Payload, ShardSpec, WireDtype};
use lattice::net::addr::Address;
use lattice::net::discovery::PROTOCOL_VERSION;
use lattice::net::{
    DeviceId, DeviceKey, DiscoveredPeer, EngineCapabilities, GpuDevice, Introduction, IpAddr,
    PairedPeer, PeerEvent, Request, Response, SocketAddr, Step, TrustStore,
};

fn id(text: &str) -> DeviceId {
    text.parse().unwrap()
}

fn here(first_layer: u32, last_layer: u32) -> Placement {
    Placement { first_layer, last_layer, host: Host::Here }
}

#[test]
fn a_placement_that_cannot_be_read_says_where() {
    let said = |text: &str| text.parse::<Placement>().unwrap_err();
    assert_eq!(said("0-11"), "\"0-11\" is not first-last@where");
    assert_eq!(said("011@local"), "\"011\" is not first-last");
    assert_eq!(said("a-11@local"), "first layer");
    assert_eq!(said("0-b@local"), "last layer");
    assert_eq!(said("0-11@there"), "device id");
    assert_eq!("+1-2@here".parse::<Placement>().unwrap(), here(1, 2));
    assert_eq!(
        "11-22@e19a64287ece5641".parse::<Placement>().unwrap().host,
        Host::Peer(id("e19a64287ece5641"))
    );
}

#[test]
fn tiling_faults_are_named_in_order() {
    assert_eq!(
        check_tiling(&[here(0, 10), here(11, 22)], 22).unwrap_err(),
        "layers 10..11 are unplaced"
    );
    assert_eq!(
        check_tiling(&[here(0, 0)], 22).unwrap_err(),
        "0-0 is not a layer range"
    );
    assert_eq!(
        check_tiling(&[here(0, 11)], 22).unwrap_err(),
        "placements cover 0..11, but the model has 22 layers"
    );
    assert!(check_tiling(&[], 0).is_ok());
    assert!(check_tiling(&[], 1).is_err());
}

#[test]
fn a_pipeline_has_a_shard_for_every_placement() {
    let options = Options {
        max_new: 1,
        max_context: 64,
        places: vec![here(0, 1), here(1, 3)],
        wire_dtype: WireDtype::F32,
    };
    let specs = pipeline_specs(&options, "abc", 3).unwrap();
    assert_eq!(specs.len(), 2);
    assert_eq!((specs[1].first_layer, specs[1].last_layer), (1, 3));
    assert_eq!((specs[1].max_context, specs[1].wire_dtype), (64, WireDtype::F32));
    assert_eq!(specs[0].model_hash, "abc");
    assert!(pipeline_specs(&options, "abc", 4).is_err());
    assert_eq!(wire_dtype("f16").unwrap(), WireDtype::F16);
    assert_eq!(wire_dtype("f32").unwrap(), WireDtype::F32);
    assert_eq!(
        wire_dtype("f8").unwrap_err(),
        "unknown wire dtype \"f8\"; expected f16 or f32"
    );
}

#[test]
fn a_load_request_has_three_kinds_of_answer() {
    let spec = ShardSpec {
        first_layer: 3,
        last_layer: 7,
        ..pipeline_specs(
            &Options {
                max_new: 1,
                max_context: 1,
                places: vec![here(0, 1)],
                wire_dtype: WireDtype::F16,
            },
            "",
            1,
        )
        .unwrap()
        .remove(0)
    };
    let device = id("1111111111111111");
    let loaded = Response::ShardLoaded { weight_bytes: 5, kv_bytes: 6 };
    assert!(matches!(
        load_outcome(device, &spec, loaded),
        LoadOutcome::Loaded { weight_bytes: 5, kv_bytes: 6 }
    ));
    match load_outcome(device, &spec, Response::Refused("full".into())) {
        LoadOutcome::Refused(said) => {
            assert_eq!(said, "1111111111111111 refused layers 3..7: full")
        }
        _ => panic!("a refusal"),
    }
    assert!(matches!(
        load_outcome(device, &spec, Response::WorkerRegistered),
        LoadOutcome::Unexpected(Response::WorkerRegistered)
    ));
}

#[test]
fn the_greatest_logit_is_the_machines_own() {
    let mut state = 0x2545_f491_4f6c_dd1du64;
    for _ in 0..2000 {
        let mut values: Vec<f32> = Vec::new();
        for _ in 0..7 {
            state ^= state << 13;
            state ^= state >> 7;
            state ^= state << 17;
            values.push(f32::from_bits((state >> 16) as u32));
        }
        values.push(values[2]);
        let machine = values
            .iter()
            .enumerate()
            .max_by(|(_, a), (_, b)| a.total_cmp(b))
            .unwrap()
            .0;
        let bits = values.iter().map(|v| v.to_bits()).collect();
        assert_eq!(argmax(&Payload::Logits(bits)).unwrap(), machine as u32);
    }
    let bits = [-0.0f32, 0.0, -1.0, 0.0].iter().map(|v| v.to_bits()).collect();
    assert_eq!(argmax(&Payload::Logits(bits)).unwrap(), 3);
    assert_eq!(argmax(&Payload::Logits(vec![])).unwrap_err(), "empty logits");
    assert_eq!(
        argmax(&Payload::Tokens(vec![1])).unwrap_err(),
        "the last shard returned tokens, not logits"
    );
}

#[test]
fn decoding_counts_positions_from_the_prompt() {
    let mut decoding = Decoding::begin(5, 3, 40);
    assert_eq!(decoding.next(), Some((5, 40)));
    decoding.push(41);
    assert_eq!(decoding.next(), Some((6, 41)));
    decoding.push(42);
    assert_eq!(decoding.next(), None);
    assert_eq!(decoding.out, vec![40, 41, 42]);
    assert_eq!(Decoding::begin(5, 0, 9).next(), None);

    // The last position is the last that can be counted.
    let mut decoding = Decoding::begin(u32::MAX - 1, 3, 40);
    assert_eq!(decoding.next(), Some((u32::MAX - 1, 40)));
    decoding.push(41);
    assert_eq!(decoding.next(), Some((u32::MAX, 41)));
    decoding.push(42);
    assert_eq!(decoding.next(), None);
}

#[test]
fn a_host_describes_itself_without_suffixes() {
    assert_eq!(trim_host("studio.local"), "studio");
    assert_eq!(trim_host("studio"), "studio");
    assert_eq!(trim_host("local"), "local");
    assert_eq!(platform("linux", "x86_64"), "linux-x86_64");
    assert_eq!(parse_meminfo("MemFree: 1\r\nMemTotal:\t12 kB\r\n"), 12 * 1024);
    assert_eq!(parse_meminfo("XMemTotal: 5 kB"), 0);
    assert_eq!(meminfo_kib("MemTotal: 18446744073709551615"), Some(u64::MAX));
    assert_eq!(meminfo_kib("MemTotal: 18446744073709551616"), None);
    assert_eq!(meminfo_kib("MemTotal:"), None);
}

fn peer(name: &str) -> PairedPeer {
    let key = DeviceKey::generate();
    PairedPeer::new(key.public_key(), name.into(), "linux".into(), 1)
}

#[test]
fn introductions_are_taken_from_paired_devices_only() {
    let own = DeviceKey::generate();
    let master = peer("master");
    let known = peer("known");
    let fresh = peer("fresh");
    let me = PairedPeer::new(own.public_key(), "me".into(), "linux".into(), 1);
    let roster: Vec<Introduction> =
        [&me, &known, &fresh].iter().map(|peer| Introduction::of(peer)).collect();

    let mut store = TrustStore::new();
    store.insert(known.clone());
    match Provisioning::begin(&store, master.device_id, roster.clone()) {
        Err(response) => assert_eq!(
            response,
            Response::Refused(format!(
                "{} is not a paired device",
                master.device_id.text()
            ))
        ),
        Ok(_) => panic!("an unpaired device was listened to"),
    }

    store.insert(master.clone());
    let mut run = match Provisioning::begin(&store, master.device_id, roster.clone()) {
        Ok(run) => run,
        Err(_) => panic!("a paired device was refused"),
    };
    match run.advance(&store, own.id(), 9) {
        ProvisionStep::Record(record) => {
            assert_eq!(record.device_id, fresh.device_id);
            assert_eq!(record.introduced_by, Some(master.device_id));
            assert_eq!(record.paired_at, 9);
            store.insert(record);
        }
        ProvisionStep::Answer(response) => panic!("{response:?}"),
    }
    assert_eq!(run.recorded(Ok(())), None);
    match run.advance(&store, own.id(), 9) {
        ProvisionStep::Answer(response) => assert_eq!(
            response,
            Response::Provisioned { added: 1, already_known: 2 }
        ),
        ProvisionStep::Record(_) => panic!("nothing is left"),
    }
    assert!(store.is_trusted(&fresh.public_key));

    let mut again = Provisioning::begin(&store, master.device_id, roster).ok().unwrap();
    assert!(matches!(
        again.advance(&store, own.id(), 9),
        ProvisionStep::Answer(Response::Provisioned { added: 0, already_known: 3 })
    ));
}

#[test]
fn a_run_of_introductions_counts_each_once_and_adds_no_more_when_repeated() {
    let own = DeviceKey::generate();
    let (master, old, fresh) = (peer("master"), peer("old"), peer("fresh"));
    let mut store = TrustStore::new();
    store.insert(master.clone());
    store.insert(old.clone());
    let me = PairedPeer::new(own.public_key(), "me".into(), "linux".into(), 0);
    let roster: Vec<Introduction> = [&old, &fresh, &me, &fresh, &master]
        .into_iter()
        .map(Introduction::of)
        .collect();
    for (added, already_known) in [(1, 4), (0, 5)] {
        let mut run = Provisioning::begin(&store, master.device_id, roster.clone()).ok().unwrap();
        let answer = loop {
            match run.advance(&store, own.id(), 9) {
                ProvisionStep::Record(peer) => {
                    store.insert(peer);
                    assert_eq!(run.recorded(Ok(())), None);
                }
                ProvisionStep::Answer(answer) => break answer,
            }
        };
        assert_eq!(answer, Response::Provisioned { added, already_known });
        assert_eq!(store.peers().len(), 3);
        assert_eq!(store.get(old.device_id), Some(&old));
        assert_eq!(
            store.get(fresh.device_id).unwrap().introduced_by,
            Some(master.device_id)
        );
    }
}

#[test]
fn an_introduction_that_cannot_be_kept_or_read_is_refused() {
    let own = DeviceKey::generate();
    let master = peer("master");
    let mut store = TrustStore::new();
    store.insert(master.clone());
    let mut bad_key = [0u8; 32];
    bad_key[0] = 2;
    let roster = vec![
        Introduction::of(&peer("fresh")),
        Introduction { public_key: bad_key, name: "x".into(), platform: "y".into() },
    ];
    let mut run = Provisioning::begin(&store, master.device_id, roster.clone()).ok().unwrap();
    assert!(matches!(
        run.advance(&store, own.id(), 0),
        ProvisionStep::Record(_)
    ));
    assert_eq!(
        run.recorded(Err("disk full".into())),
        Some(Response::Refused(
            "could not record the introduction: disk full".into()
        ))
    );
    let mut run = Provisioning::begin(&store, master.device_id, roster).ok().unwrap();
    match run.advance(&store, own.id(), 0) {
        ProvisionStep::Record(peer) => store.insert(peer),
        _ => panic!("a device that is not known was passed over"),
    }
    assert_eq!(run.recorded(Ok(())), None);
    match run.advance(&store, own.id(), 0) {
        ProvisionStep::Answer(Response::Refused(why)) => {
            assert!(why.starts_with("certificate: introduced key is unusable: "), "{why}")
        }
        _ => panic!("a key that is none was taken"),
    }
}

#[test]
fn each_device_hears_of_the_others() {
    let all = [peer("a"), peer("b"), peer("c")];
    let roster = roster_for(all[1].device_id, &all);
    let names: Vec<&str> = roster.iter().map(|i| i.name.as_str()).collect();
    assert_eq!(names, vec!["a", "c"]);
}

#[test]
fn a_node_answers_for_itself() {
    let node = Node::new(id("1111111111111111"), "studio", "linux");
    match node.route(Request::Hello) {
        NodeAction::Answer(response) => assert_eq!(
            response,
            Response::Identity {
                device_id: id("1111111111111111"),
                name: "studio".into(),
                platform: "linux".into(),
            }
        ),
        _ => panic!("a greeting"),
    }
    assert!(matches!(node.route(Request::Provision(vec![])), NodeAction::Provision(_)));
    assert!(matches!(node.route(Request::InferenceInfo), NodeAction::Capabilities));
    assert!(matches!(
        node.route(Request::RegisterWorker { port: 1 }),
        NodeAction::Answer(Response::Refused(_))
    ));
    assert!(matches!(capabilities_answer(None), Response::Refused(_)));
    assert_eq!(
        capabilities_answer(Some(Err("busy".into()))),
        Response::Refused("busy".into())
    );
    let caps = EngineCapabilities {
        revision: "r".into(),
        busy: false,
        device: GpuDevice {
            name: "g".into(),
            description: "g".into(),
            kind: "gpu".into(),
            total_memory: 1,
            free_memory: 1,
        },
    };
    assert_eq!(
        capabilities_answer(Some(Ok(caps.clone()))),
        Response::InferenceInfo(caps)
    );
}

#[test]
fn a_model_is_served_only_under_its_own_hash() {
    let hash = "0123456789abcdef0123456789abcdef";
    assert_eq!(check_model(Some(Ok(hash.into())), hash), None);
    assert_eq!(
        check_model(Some(Ok(hash.into())), "fedcba98"),
        Some(Response::Refused(
            "this device holds 0123456789abcdef, not fedcba98".into()
        ))
    );
    assert_eq!(
        check_model(Some(Ok(hash.into())), "ééééééééé"),
        Some(Response::Refused(
            "this device holds 0123456789abcdef, not éééééééé".into()
        ))
    );
    assert_eq!(
        check_model(None, hash),
        Some(Response::Refused("this device has no model to serve".into()))
    );
    assert_eq!(
        check_model(Some(Err("gone".into())), hash),
        Some(Response::Refused("could not hash the model: gone".into()))
    );
}

#[test]
fn the_shard_thread_is_spoken_for() {
    assert_eq!(
        load_answer(LoadReply::Opened { weight_bytes: 1, kv_bytes: 2 }),
        Response::ShardLoaded { weight_bytes: 1, kv_bytes: 2 }
    );
    assert_eq!(
        load_answer(LoadReply::Refused("no".into())),
        Response::Refused("could not load the shard: no".into())
    );
    assert_eq!(
        load_answer(LoadReply::Gone),
        Response::Refused("the shard thread is gone".into())
    );
    assert_eq!(
        load_answer(LoadReply::Died),
        Response::Refused("the shard thread died loading".into())
    );
    let input = Payload::Tokens(vec![1]);
    assert!(matches!(
        plan_step(true, Step::Prefill { pos: 4, input: input.clone() }),
        Ok(ShardCall::Prefill { pos: 4, .. })
    ));
    assert!(matches!(
        plan_step(true, Step::Decode { pos: 5, input: input.clone() }),
        Ok(ShardCall::Decode { pos: 5, .. })
    ));
    assert_eq!(
        plan_step(false, Step::Decode { pos: 5, input }).err().unwrap(),
        "this device has been given no layers"
    );
    assert_eq!(
        plan_step(true, Step::Done).err().unwrap(),
        "Done is handled by the stream, not the shard"
    );
}

#[test]
fn a_pairing_counts_only_once_both_sides_saved_it() {
    let peer = peer("worker");
    assert_eq!(check_paired(&peer, peer.device_id).unwrap(), peer.device_id);
    assert_eq!(
        check_paired(&peer, id("1111111111111111")).unwrap_err(),
        "paired identity did not match the connection's device key"
    );
    assert_eq!(&SAVED, b"saved");
    assert!(check_peer_saved(b"saved", false).is_ok());
    assert_eq!(
        check_peer_saved(b"no", false).unwrap_err(),
        "peer did not confirm saving the pairing"
    );
    assert_eq!(
        check_peer_saved(b"saved", true).unwrap_err(),
        "peer stopped the pairing confirmation"
    );
}

fn common(port: u16) -> CommonOptions {
    CommonOptions { port, model: None, firewall: Firewall::Auto }
}

#[test]
fn a_master_registers_workers_and_replaces_their_connections() {
    assert!(check_ports(&MasterOptions { common: common(1), pairing_port: 2 }).is_ok());
    assert_eq!(
        check_ports(&MasterOptions { common: common(2), pairing_port: 2 }).unwrap_err(),
        "--port and --pairing-port must differ"
    );
    assert!(matches!(
        route(Request::RegisterWorker { port: 7 }),
        MasterAction::Join { port: 7 }
    ));
    assert!(matches!(
        route(Request::RegisterWorker { port: 0 }),
        MasterAction::Answer(Response::Refused(_))
    ));
    assert!(matches!(
        route(Request::Hello),
        MasterAction::AsNode(Request::Hello)
    ));
    assert_eq!(join_answer(true), Response::WorkerRegistered);
    assert_eq!(join_answer(false), Response::Refused(MASTER_BUSY.into()));

    let (a, b) = (peer("a"), peer("b"));
    let trusted = vec![a.clone(), b.clone()];
    let mut workers = Workers::new();
    let notices = workers.join(a.device_id, 1, &trusted);
    assert_eq!(notices.len(), 1);
    assert_eq!(notices[0].roster, vec![Introduction::of(&b)]);
    let notices = workers.join(b.device_id, 2, &trusted);
    assert_eq!(notices.len(), 2);
    for notice in &notices {
        let other = if notice.to == a.device_id { &b } else { &a };
        assert_eq!(notice.roster, vec![Introduction::of(other)]);
    }
    workers.join(a.device_id, 3, &trusted);
    assert!(!workers.leave(a.device_id, 1));
    assert!(workers.leave(a.device_id, 3));
    assert!(!workers.leave(a.device_id, 3));
    assert!(check_listener(a.device_id, a.device_id).is_ok());
    assert_eq!(
        check_listener(a.device_id, b.device_id).unwrap_err(),
        "worker identity changed"
    );
}

#[test]
fn startup_speaks_of_ports_and_roles() {
    assert_eq!(role_of(Some(1)), "master");
    assert_eq!(role_of(None), "worker");
    assert_eq!(
        firewall_args("script", Firewall::Print, 5, Some(6)),
        vec!["-c", "script", "lattice-firewall", "print", "5", "6"]
    );
    assert_eq!(firewall_args("s", Firewall::Off, 5, None).len(), 5);
    assert_eq!(Firewall::Auto.mode(), "auto");
    assert!(firewall_outcome(true).is_ok());
    assert!(firewall_outcome(false).unwrap_err().starts_with("firewall setup failed"));
    assert_eq!(
        serving_line("studio", "master", id("1111111111111111"), 47900),
        "studio master serving as 1111111111111111 on UDP port 47900"
    );
    assert!(port_unavailable(47900).starts_with("UDP port 47900 is unavailable"));
}

#[test]
fn every_failed_attempt_is_reported() {
    let wanted = id("1111111111111111");
    let other = id("2222222222222222");
    let mut attempts = Attempts::new();
    assert!(!attempts.judge("a:1", Attempt::Failed("timed out".into()), Some(wanted)));
    assert!(!attempts.judge("b:1", Attempt::Connected(other), Some(wanted)));
    assert_eq!(
        attempts.give_up(),
        "could not connect:\na:1: timed out\nb:1: identity differs from the selected master"
    );
    assert!(attempts.judge("c:1", Attempt::Connected(wanted), Some(wanted)));
    assert!(attempts.judge("c:1", Attempt::Connected(other), None));
    let mut attempts = Attempts::new();
    assert!(!attempts.judge("a:1", Attempt::Failed("x".into()), None));
    assert!(!attempts.judge("b:1", Attempt::Failed("y".into()), None));
    assert_eq!(
        attempts.give_up_on_any(),
        "could not reach that device:\n  a:1: x\n  b:1: y"
    );
}

fn sighting(id: DeviceId, addrs: Vec<SocketAddr>) -> PeerEvent {
    PeerEvent::Found(DiscoveredPeer {
        device_id: id,
        name: "n".into(),
        platform: "p".into(),
        total_memory: 0,
        protocol: PROTOCOL_VERSION,
        addrs,
        role: None,
        pairing_port: None,
    })
}

#[test]
fn a_lookup_waits_for_an_address_that_can_be_dialled() {
    let wanted = id("1111111111111111");
    let own = id("2222222222222222");
    let lan = SocketAddr { ip: IpAddr::V4(0x0a00_0001), port: 1 };
    let v6 = SocketAddr { ip: IpAddr::V6(9), port: 1 };
    let mut lookup = Lookup::new(wanted);
    assert_eq!(lookup.observe(&sighting(own, vec![lan])), None);
    assert_eq!(
        lookup.give_up(own),
        "could not find 1111111111111111 on the network — pass a host:port instead"
    );
    assert_eq!(lookup.observe(&sighting(wanted, vec![v6])), None);
    assert_eq!(lookup.observe(&PeerEvent::Lost(wanted)), None);
    assert_eq!(
        lookup.give_up(own),
        "1111111111111111 is on the network but advertised no address this device can reach — pass a host:port instead"
    );
    assert_eq!(lookup.give_up(wanted), "1111111111111111 is this device");
    assert_eq!(lookup.observe(&sighting(wanted, vec![v6, lan])), Some(vec![lan]));

    let mut locating = Locating::new(vec![wanted]);
    locating.observe(&sighting(own, vec![lan]));
    locating.observe(&sighting(wanted, vec![v6]));
    assert!(!locating.done());
    locating.observe(&sighting(wanted, vec![lan]));
    assert!(locating.done());
    assert_eq!(locating.found.get(wanted), Some(&vec![lan]));
}

#[test]
fn targets_are_addresses_or_devices() {
    let lan = SocketAddr { ip: IpAddr::V4(0x0a00_0001), port: 80 };
    assert!(matches!(
        parse_target("10.0.0.1:80"),
        Ok(Wanted::Address(Address::V4(addr))) if addr == lan
    ));
    assert!(matches!(parse_target("[::1]:80"), Ok(Wanted::Address(Address::V6))));
    assert!(matches!(
        parse_target("1111111111111111"),
        Ok(Wanted::Device(device)) if device == id("1111111111111111")
    ));
    assert_eq!(
        parse_target("studio").err().unwrap(),
        "target must be a host:port or a device id"
    );
}

#[test]
fn provisioning_reports_what_each_device_said() {
    assert!(check_enough(2).is_ok());
    assert_eq!(
        check_enough(1).unwrap_err(),
        "provisioning needs at least two paired devices, this one has 1 — pair the others to this device first"
    );
    assert_eq!(
        provision_line("studio", 3, &Response::Provisioned { added: 1, already_known: 2 }),
        Some("studio: 1 of 3 introductions new, 2 already known".into())
    );
    assert_eq!(
        provision_line("studio", 3, &Response::Refused("no".into())),
        Some("studio: refused — no".into())
    );
    assert_eq!(provision_line("studio", 3, &Response::WorkerRegistered), None);
    let device = id("1111111111111111");
    assert_eq!(unpair_outcome(device, true).unwrap(), "forgot 1111111111111111");
    assert_eq!(
        unpair_outcome(device, false).unwrap_err(),
        "1111111111111111 was not paired"
    );
}
