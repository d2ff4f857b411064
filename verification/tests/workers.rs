use lattice::daemon::chat::{
    check_context, check_located, conclude, engine_failure, judge_info, reserve_bytes, strips_variable,
    tail_start, worker_name, Chat, ChatEnd, ChatVerdict, Members, Options, Search,
};
use lattice::daemon::plan::PlanError;
use lattice::daemon::runtime::{
    detection_outcome, engine_dir, join_path, log_room, poll, ready_step, report,
    reported_device, rpc_args, slot_outcome, AddressStep, Engine, Poll, ReadyStep, Server,
    SlotWait, State, WorkerRuntime, ENGINE_REVISION, RETAINED,
};
use lattice::daemon::startup::MASTER_BUSY;
use lattice::daemon::worker::{
    check_pairing_peer, check_saved, gpu_is_required, judge_registration, report_once, seek,
    settle, Connecting, Next, PairingWith, Reconnecting, Registering, Registration,
    RegistrationReply, Seek, Target, Worker,
};
use lattice::engine::{ModelFacts, ModelInventory};
use lattice::net::discovery::PROTOCOL_VERSION;
use lattice::net::{
    DeviceId, DeviceKey, DiscoveredPeer, EngineCapabilities, GpuDevice, IpAddr, PairedPeer,
    PairingCode, PeerEvent, Response, SocketAddr, TrustStore,
};

fn id(text: &str) -> DeviceId {
    text.parse().unwrap()
}

fn one() -> DeviceId {
    id("1111111111111111")
}

fn two() -> DeviceId {
    id("2222222222222222")
}

fn lan(last: u32, port: u16) -> SocketAddr {
    SocketAddr { ip: IpAddr::V4(0xc0a8_0700 + last), port }
}

fn gpu(name: &str, kind: &str, free_memory: u64) -> GpuDevice {
    GpuDevice {
        name: name.into(),
        description: name.into(),
        kind: kind.into(),
        total_memory: free_memory,
        free_memory,
    }
}

#[test]
fn an_engine_is_found_where_it_was_put() {
    let dir = |a: Option<&str>, b: Option<&str>, c: Option<&str>| {
        engine_dir(a.map(str::to_owned), b.map(str::to_owned), c.map(str::to_owned))
    };
    assert_eq!(dir(Some("/a"), Some("/b"), Some("/c")).unwrap(), "/a");
    assert_eq!(dir(None, Some("/b"), Some("/c")).unwrap(), "/b");
    assert_eq!(dir(None, None, Some("/c")).unwrap(), "/c/.local/share/lattice/engine");
    assert_eq!(dir(None, None, None).unwrap_err(), "HOME is unset; use --engine-dir");
    assert_eq!(join_path("/a/", "b"), "/a/b");
    assert_eq!(join_path("", "b"), "b");

    let locate = |revision: Option<&str>, present| {
        Engine::locate("/e".into(), revision.map(str::to_owned), present)
    };
    let line = format!("{ENGINE_REVISION}\n");
    let engine = locate(Some(&line), (true, true, true)).unwrap();
    assert_eq!(engine.cli(), "/e/bin/llama-cli");
    assert_eq!(engine.rpc_server(), "/e/bin/ggml-rpc-server");
    assert_eq!(engine.info(), "/e/bin/lattice-engine-info");
    assert_eq!(engine.revision(), ENGINE_REVISION);
    let said = |revision: Option<&str>, present| locate(revision, present).unwrap_err();
    assert_eq!(
        said(None, (true, true, true)),
        "inference engine missing; run ./scripts/setup-engine.sh"
    );
    assert_eq!(
        said(Some("wrong"), (true, true, true)),
        "inference engine revision mismatch; rerun ./scripts/setup-engine.sh"
    );
    assert_eq!(
        said(Some(&line), (true, false, false)),
        "missing /e/bin/ggml-rpc-server; rerun ./scripts/setup-engine.sh"
    );
}

#[test]
fn the_device_report_is_fresh_when_idle() {
    let stored = gpu("gpu", "gpu", 100);
    let fresh = gpu("gpu", "gpu", 37);
    let idle = reported_device(false, &stored, Ok(vec![fresh])).unwrap();
    assert_eq!(idle.free_memory, 37);
    let busy = reported_device(true, &stored, Err("no helper".into())).unwrap();
    assert_eq!(busy.free_memory, 100);
    assert_eq!(
        reported_device(false, &stored, Err("no helper".into())).unwrap_err(),
        "no helper"
    );
    assert_eq!(
        reported_device(false, &stored, Ok(vec![gpu("a", "gpu", 1), gpu("b", "igpu", 1)]))
            .unwrap_err(),
        "GPU \"gpu\" unavailable; available GPUs: a, b"
    );
    let report = report(busy, true);
    assert!(report.busy);
    assert_eq!(report.revision, ENGINE_REVISION);
}

#[test]
fn replacing_the_master_stops_its_server() {
    let server = Server { handle: 5, address: lan(1, 9) };
    let mut state = WorkerRuntime::idle();
    assert_eq!(WorkerRuntime::authorize(&mut state, Some(one())), None);
    assert_eq!(
        WorkerRuntime::address(&mut state, one(), false).unwrap(),
        AddressStep::Start
    );
    WorkerRuntime::started(&mut state, server);
    assert_eq!(
        WorkerRuntime::address(&mut state, one(), true).unwrap(),
        AddressStep::Running(server.address)
    );
    assert!(WorkerRuntime::address(&mut state, two(), true).is_err());
    assert_eq!(WorkerRuntime::authorize(&mut state, Some(one())), None);
    assert_eq!(WorkerRuntime::authorize(&mut state, Some(two())), Some(server));
    assert_eq!(state, State { master: Some(two()), server: None });
    assert_eq!(
        WorkerRuntime::check_health(&mut state, one(), None, "log").unwrap_err(),
        "inference is restricted to the registered master"
    );
    assert!(WorkerRuntime::check_health(&mut state, two(), None, "log").is_ok());
    WorkerRuntime::started(&mut state, server);
    assert_eq!(
        WorkerRuntime::check_health(&mut state, two(), Some("exit 1".into()), "log").unwrap_err(),
        "GPU RPC server exited (exit 1); inspect log"
    );
    assert_eq!(state.server, None);
}

#[test]
fn helpers_and_servers_are_given_their_time() {
    assert_eq!(poll(true, true), Poll::Ended);
    assert_eq!(poll(false, true), Poll::Kill);
    assert_eq!(poll(false, false), Poll::Wait);
    assert!(detection_outcome(Some(true), "").is_ok());
    assert_eq!(
        detection_outcome(Some(false), "no driver").unwrap_err(),
        "GPU detection failed: no driver"
    );
    assert!(detection_outcome(None, "").unwrap_err().contains("timed out"));
    assert!(slot_outcome(SlotWait::Got).is_ok());
    assert_eq!(slot_outcome(SlotWait::TimedOut).unwrap_err(), "GPU worker is busy");
    assert_eq!(
        slot_outcome(SlotWait::Closed).unwrap_err(),
        "GPU worker is shutting down"
    );
    assert!(matches!(ready_step(Ok(()), true, "log"), ReadyStep::Ready));
    assert!(matches!(ready_step(Err("x".into()), false, "log"), ReadyStep::Retry));
    match ready_step(Err("refused".into()), true, "log") {
        ReadyStep::GiveUp(said) => assert_eq!(
            said,
            "GPU RPC server did not become ready: refused; inspect log"
        ),
        _ => panic!("the deadline has passed"),
    }
    assert_eq!(log_room(10, 20), (false, 30));
    assert_eq!(log_room(RETAINED, 1), (true, 1));
    assert_eq!(
        rpc_args(81, "Vulkan0"),
        vec!["--host", "127.0.0.1", "--port", "81", "--device", "Vulkan0", "--cache"]
    );
}

fn target(id: Option<DeviceId>) -> Target {
    Target { id, addrs: vec![lan(40, 4242)], pairing_port: 4243 }
}

#[test]
fn a_master_is_sought_where_the_user_said() {
    let saved = target(Some(one()));
    match seek(Some("192.168.7.40:4242"), Some(&saved), 47901, two()).unwrap() {
        Seek::Found(found) => {
            assert_eq!(found.id, Some(one()));
            assert_eq!((found.addrs, found.pairing_port), (vec![lan(40, 4242)], 47901));
        }
        Seek::Browse(_) => panic!("an address was given"),
    }
    match seek(Some("192.168.7.41"), Some(&saved), 47901, two()).unwrap() {
        Seek::Found(found) => assert_eq!((found.id, found.addrs), (None, vec![lan(41, 47900)])),
        Seek::Browse(_) => panic!("an address was given"),
    }
    assert!(matches!(
        seek(Some("1111111111111111"), None, 1, two()),
        Ok(Seek::Browse(Some(wanted))) if wanted == one()
    ));
    assert!(matches!(
        seek(None, Some(&saved), 1, two()),
        Ok(Seek::Browse(Some(wanted))) if wanted == one()
    ));
    assert!(matches!(seek(None, None, 1, two()), Ok(Seek::Browse(None))));
    assert_eq!(
        seek(None, Some(&saved), 1, one()).err().unwrap(),
        "the selected master is this device"
    );
    assert_eq!(
        seek(Some("studio"), None, 1, one()).err().unwrap(),
        "--master must be a device ID or IPv4[:port]"
    );
    assert_eq!(
        seek(Some("0.0.0.0"), None, 1, one()).err().unwrap(),
        "--master requires a usable IPv4 address and nonzero port"
    );
}

fn sighted(device_id: DeviceId, role: &str, pairing_port: Option<u16>) -> DiscoveredPeer {
    DiscoveredPeer {
        device_id,
        name: "computer".into(),
        platform: "linux".into(),
        total_memory: 0,
        protocol: PROTOCOL_VERSION,
        addrs: vec![lan(1, 47900)],
        role: Some(role.into()),
        pairing_port,
    }
}

#[test]
fn a_master_in_sight_is_preferred_to_one_remembered() {
    let saved = target(Some(one()));
    let found = settle(vec![sighted(one(), "master", Some(7))], Some(one()), Some(&saved), 9);
    assert_eq!(
        found.unwrap(),
        Some(Target { id: Some(one()), addrs: vec![lan(1, 47900)], pairing_port: 7 })
    );
    let found = settle(vec![sighted(one(), "master", None)], None, None, 9).unwrap().unwrap();
    assert_eq!(found.pairing_port, 9);
    assert_eq!(
        settle(vec![], Some(one()), Some(&saved), 9).unwrap(),
        Some(saved.clone())
    );
    assert_eq!(settle(vec![], Some(two()), Some(&saved), 9).unwrap(), None);
    assert_eq!(settle(vec![], None, None, 9).unwrap(), None);
    assert_eq!(
        settle(
            vec![sighted(two(), "master", None), sighted(one(), "master", None)],
            None,
            None,
            9
        )
        .unwrap_err(),
        "multiple masters found (2222222222222222 and 1111111111111111); choose one with --master <device-id>"
    );
    let mut older = sighted(one(), "master", None);
    older.protocol = 2;
    assert_eq!(settle(vec![older], None, None, 9).unwrap(), None);
}

#[test]
fn a_remembered_master_has_to_be_one() {
    assert!(check_saved(&target(Some(one())), "/x").is_ok());
    let broken = [
        target(None),
        Target { addrs: vec![], ..target(Some(one())) },
        Target { pairing_port: 0, ..target(Some(one())) },
        Target { addrs: vec![lan(1, 0)], ..target(Some(one())) },
        Target {
            addrs: vec![SocketAddr { ip: IpAddr::V6(1), port: 1 }],
            ..target(Some(one()))
        },
    ];
    for target in broken {
        assert_eq!(
            check_saved(&target, "/x").unwrap_err(),
            "saved master is invalid; remove /x and reconnect"
        );
    }
    assert_eq!(
        target(Some(one())).pairing_addrs(),
        vec![lan(40, 4243)]
    );
}

#[test]
fn the_same_trouble_is_reported_once() {
    let mut last = String::new();
    assert_eq!(report_once(&mut last, "a".into()), Some("a".into()));
    assert_eq!(report_once(&mut last, "a".into()), None);
    assert_eq!(report_once(&mut last, "b".into()), Some("b".into()));
    assert_eq!(report_once(&mut last, "a".into()), Some("a".into()));
}

#[test]
fn a_worker_keeps_trying_a_trusted_master() {
    let mut worker = Worker::new(None, None);
    match worker.found(None, false) {
        Next::Retry(said) => assert!(said.unwrap().starts_with("No master found")),
        _ => panic!("there is nothing to connect to"),
    }
    assert!(matches!(worker.found(None, false), Next::Retry(None)));
    let connecting = match worker.found(Some(target(Some(one()))), true) {
        Next::Connect(connecting) => connecting,
        _ => panic!("a master was found"),
    };
    match worker.connected(connecting, Err("timed out".into())) {
        Next::Retry(said) => assert_eq!(
            said.unwrap(),
            "Master unavailable: timed out. Retrying; existing pairing is preserved."
        ),
        _ => panic!("a trusted master is tried again"),
    }
    let connecting = Connecting { target: target(Some(one())), trusted: true };
    let registering = match worker.connected(connecting, Ok(one())) {
        Next::Register(registering) => registering,
        _ => panic!("connected"),
    };
    assert_eq!(worker.authorized, None);
    let reply = RegistrationReply::Answered(Response::WorkerRegistered, String::new());
    match worker.registered(registering, reply) {
        Next::Serve { master, remember } => {
            assert_eq!(master, one());
            assert_eq!(remember, target(Some(one())));
        }
        _ => panic!("registered"),
    }
    assert_eq!(worker.saved, Some(target(Some(one()))));
    assert_eq!(worker.last_error, "");
    assert_eq!(worker.authorized, Some(one()));
    assert!(matches!(worker.closed(), Next::Release));
    assert_eq!(worker.authorized, None);
    assert_eq!(worker.saved, Some(target(Some(one()))));
}

#[test]
fn only_a_live_registration_may_use_the_gpu() {
    let registering = |peer| Registering { target: target(None), peer };
    let registered = || RegistrationReply::Answered(Response::WorkerRegistered, String::new());
    let refused = || RegistrationReply::Answered(Response::Refused("no".into()), "no".into());
    let mut worker = Worker::new(None, None);
    for reply in [refused(), RegistrationReply::TimedOut, RegistrationReply::Failed("x".into())] {
        assert!(!matches!(
            worker.registered(registering(one()), reply),
            Next::Serve { .. }
        ));
        assert_eq!(worker.authorized, None);
    }
    worker.registered(registering(two()), registered());
    assert_eq!(worker.authorized, Some(two()));
    worker.stopped();
    assert_eq!(worker.authorized, None);
    worker.registered(registering(one()), registered());
    worker.closed();
    assert!(matches!(worker.found(None, false), Next::Retry(_)));
    assert_eq!(worker.authorized, None);
}

#[test]
fn a_worker_pairs_with_a_master_it_does_not_trust() {
    let code = PairingCode::parse("123456").unwrap();
    let mut worker = Worker::new(None, Some(code.clone()));
    let pairing = match worker.found(Some(target(None)), false) {
        Next::Pair(pairing, given) => {
            assert_eq!(given, Some(code));
            pairing
        }
        _ => panic!("a code was given"),
    };
    assert_eq!(worker.code, None);
    let reconnecting = match worker.paired(pairing, Ok(two())) {
        Next::Reconnect(reconnecting) => reconnecting,
        _ => panic!("paired"),
    };
    assert_eq!(worker.saved, Some(target(Some(two()))));
    match worker.reconnected(reconnecting, Err("gone".into())) {
        Next::Retry(said) => {
            assert_eq!(said.unwrap(), "Pairing saved; waiting for master: gone")
        }
        _ => panic!("the pairing is kept"),
    }
    let again = Reconnecting { target: target(Some(two())) };
    assert!(matches!(worker.reconnected(again, Ok(two())), Next::Register(_)));

    let connecting = Connecting { target: target(Some(one())), trusted: false };
    assert!(matches!(
        worker.connected(connecting, Err("no".into())),
        Next::Pair(_, None)
    ));
    match worker.paired(PairingWith { target: target(None) }, Err("wrong code".into())) {
        Next::Fail(said) => assert_eq!(
            said,
            "could not pair with the master: wrong code; check its current code and rerun latticed worker"
        ),
        _ => panic!("a failed pairing stops the worker"),
    }
}

#[test]
fn a_registration_is_retried_or_given_up() {
    let registering = || Registering { target: target(None), peer: one() };
    let mut worker = Worker::new(None, None);
    let busy = RegistrationReply::Answered(
        Response::Refused(MASTER_BUSY.into()),
        "Refused".into(),
    );
    match worker.registered(registering(), busy) {
        Next::Retry(said) => assert_eq!(
            said.unwrap(),
            "master is busy; retry shortly; retrying automatically"
        ),
        _ => panic!("a busy master is asked again"),
    }
    assert_eq!(worker.saved, Some(target(Some(one()))));
    assert!(matches!(
        judge_registration(RegistrationReply::Answered(
            Response::WorkerRegistered,
            String::new()
        )),
        Registration::Accepted
    ));
    match judge_registration(RegistrationReply::Failed("reset".into())) {
        Registration::Retry(reason) => {
            assert_eq!(reason, "Master disconnected during registration: reset")
        }
        _ => panic!("a broken exchange is repeated"),
    }
    match judge_registration(RegistrationReply::TimedOut) {
        Registration::Retry(reason) => assert_eq!(reason, "Master registration timed out"),
        _ => panic!("a slow master is asked again"),
    }
    let rejected = RegistrationReply::Answered(
        Response::Refused("no".into()),
        "Refused(\"no\")".into(),
    );
    match worker.registered(registering(), rejected) {
        Next::Fail(said) => assert_eq!(
            said,
            "master did not accept worker registration: Refused(\"no\"); run the updated latticed master on that device"
        ),
        _ => panic!("a refusal is final"),
    }
    assert!(check_pairing_peer(None, one()).is_ok());
    assert!(check_pairing_peer(Some(one()), one()).is_ok());
    assert_eq!(
        check_pairing_peer(Some(one()), two()).unwrap_err(),
        "pairing endpoint identity differs from the selected master"
    );
    assert!(gpu_is_required(false, false, true));
    assert!(!gpu_is_required(false, false, false));
}

#[test]
fn workers_are_those_asked_for_or_all_in_sight() {
    let own = id("9999999999999999");
    let trusted = vec![one(), two()];
    let ask = |texts: &[&str]| {
        let texts = texts.iter().map(|t| t.to_string()).collect();
        Search::begin(&texts, trusted.clone(), own)
    };
    let said = |texts: &[&str]| ask(texts).err().unwrap();
    assert_eq!(said(&["[::1]:1"]), "--worker requires a usable IPv4:port");
    assert_eq!(said(&["0.0.0.0:1"]), "--worker requires a usable IPv4:port");
    assert_eq!(said(&["studio"]), "--worker expects a device ID or IPv4:port");
    assert_eq!(
        said(&["9999999999999999"]),
        "9999999999999999 is not a paired worker"
    );
    assert_eq!(
        said(&["192.168.7.1:5", "3333333333333333"]),
        "3333333333333333 is not a paired worker"
    );

    let search = ask(&["192.168.7.1:5"]).unwrap();
    assert!(!search.browses());
    let located = search.finish().unwrap();
    assert_eq!(located.len(), 1);
    assert_eq!((located[0].expected, located[0].addrs[0]), (None, lan(1, 5)));

    let mut search = ask(&["2222222222222222", "192.168.7.1:5"]).unwrap();
    assert!(search.browses());
    search.observe(&PeerEvent::Found(sighted(one(), "worker", None)));
    search.observe(&PeerEvent::Found(sighted(two(), "master", None)));
    assert_eq!(
        search.finish().err().unwrap(),
        "worker 2222222222222222 is unavailable; start it or supply --worker <IPv4:port>"
    );

    let mut search = ask(&[]).unwrap();
    search.observe(&PeerEvent::Found(sighted(two(), "worker", None)));
    search.observe(&PeerEvent::Found(sighted(one(), "worker", None)));
    search.observe(&PeerEvent::Found(sighted(id("3333333333333333"), "worker", None)));
    let located = search.finish().unwrap();
    let expected: Vec<_> = located.iter().map(|l| l.expected).collect();
    assert_eq!(expected, vec![Some(one()), Some(two())]);
    assert!(check_located(&located).is_ok());

    let mut search = ask(&[]).unwrap();
    search.observe(&PeerEvent::Found(sighted(one(), "worker", None)));
    search.observe(&PeerEvent::Lost(one()));
    let located = search.finish().unwrap();
    assert!(located.is_empty());
    assert_eq!(
        check_located(&located).unwrap_err(),
        "no paired workers found; start latticed worker --require-gpu, use --worker <IPv4:port>, or choose --local"
    );
}

fn caps(busy: bool) -> EngineCapabilities {
    EngineCapabilities { revision: "r".into(), device: gpu("g", "gpu", 9), busy }
}

#[test]
fn workers_join_one_after_the_other() {
    let own = id("9999999999999999");
    let key = DeviceKey::generate();
    let record = PairedPeer::new(key.public_key(), "box".into(), "linux".into(), 0);
    let mut store = TrustStore::new();
    store.insert(record.clone());
    assert_eq!(worker_name(&store, record.device_id), "box");
    assert_eq!(worker_name(&store, one()), "1111111111111111");

    let mut members = Members::new(own, "r");
    assert!(members.meet(Some(record.device_id), record.device_id).is_ok());
    assert_eq!(
        members.meet(None, record.device_id).unwrap_err(),
        format!("worker {} was selected more than once", record.device_id.text())
    );
    assert_eq!(
        members.meet(Some(one()), two()).unwrap_err(),
        "worker identity differs from the selected device"
    );
    assert!(members.meet(None, own).is_err());
    let info = Response::InferenceInfo(caps(false));
    assert!(members.join(record.device_id, info, "", &store).is_ok());
    assert_eq!(members.joined[0].name, "box");
    assert_eq!(members.joined[0].caps.device.free_memory, 9);
    assert!(members.meet(None, one()).is_ok());
    assert_eq!(members.seen, vec![record.device_id, one()]);
    assert_eq!(
        members
            .join(one(), Response::InferenceInfo(caps(true)), "", &store)
            .unwrap_err(),
        "worker 1111111111111111: GPU is busy with another chat; wait for it to finish"
    );
    assert_eq!(members.joined.len(), 1);
    assert_eq!(
        judge_info(one(), Response::Refused("unintelligible request: x".into()), "").unwrap_err(),
        "worker 1111111111111111 is running an older latticed; run ./scripts/setup.sh --inference there and restart its worker service"
    );
    assert_eq!(
        judge_info(one(), Response::Refused("no".into()), "").unwrap_err(),
        "worker 1111111111111111: no"
    );
    assert_eq!(
        judge_info(one(), Response::WorkerRegistered, "WorkerRegistered").unwrap_err(),
        "worker 1111111111111111 does not support inference: WorkerRegistered; update its installation"
    );
}

#[test]
fn only_workers_that_pass_are_members() {
    let store = TrustStore::new();
    let mut members = Members::new(id("9999999999999999"), "r");
    let cpu = EngineCapabilities { device: gpu("c", "cpu", 9), ..caps(false) };
    let older = EngineCapabilities { revision: "q".into(), ..caps(false) };
    let met = [
        (one(), Response::InferenceInfo(caps(false))),
        (two(), Response::InferenceInfo(cpu)),
        (id("3333333333333333"), Response::InferenceInfo(older)),
        (id("4444444444444444"), Response::Refused("no".into())),
        (id("5555555555555555"), Response::InferenceInfo(caps(false))),
    ];
    let mut said = Vec::new();
    for (id, reply) in met {
        assert!(members.meet(Some(id), id).is_ok());
        said.push(members.join(id, reply, "", &store).err());
    }
    assert_eq!(
        said,
        vec![
            None,
            Some("worker 2222222222222222: worker selected a non-GPU device".into()),
            Some(
                "worker 3333333333333333: engine versions differ; run scripts/setup-engine.sh on both machines"
                    .into()
            ),
            Some("worker 4444444444444444: no".into()),
            None,
        ]
    );
    let joined: Vec<_> = members.joined.iter().map(|member| member.id).collect();
    assert_eq!(joined, vec![one(), id("5555555555555555")]);
    assert_eq!(members.seen.len(), 5);
}

#[test]
fn a_worker_is_found_where_it_was_last_sighted() {
    let at = |port| DiscoveredPeer { addrs: vec![lan(1, port)], ..sighted(one(), "worker", None) };
    let ask = || Search::begin(&vec![], vec![one()], id("9999999999999999")).unwrap();
    let found = |search: Search| -> Vec<_> {
        search.finish().unwrap().into_iter().flat_map(|located| located.addrs).collect()
    };

    let mut search = ask();
    search.observe(&PeerEvent::Found(at(5)));
    search.observe(&PeerEvent::Lost(one()));
    search.observe(&PeerEvent::Found(at(6)));
    search.observe(&PeerEvent::Found(at(7)));
    search.observe(&PeerEvent::Lost(two()));
    assert_eq!(found(search), vec![lan(1, 7)]);

    // A sighting that is of no use changes nothing.
    let mut search = ask();
    search.observe(&PeerEvent::Found(at(5)));
    search.observe(&PeerEvent::Found(sighted(one(), "master", None)));
    assert_eq!(found(search), vec![lan(1, 5)]);

    let mut search = ask();
    search.observe(&PeerEvent::Found(at(5)));
    search.observe(&PeerEvent::Found(at(6)));
    search.observe(&PeerEvent::Lost(one()));
    assert!(found(search).is_empty());
}

fn options() -> Options {
    Options {
        model: "m.gguf".into(),
        context: 128,
        tokens: 5,
        prompt: None,
        worker: vec![],
        local: false,
        device: None,
        engine_dir: None,
        reserve_mib: 0,
    }
}

fn model() -> ModelInventory {
    ModelInventory {
        facts: ModelFacts {
            arch: "llama".into(),
            layers: 3,
            hidden_dim: 1,
            heads: 1,
            kv_heads: 1,
            train_context: 128,
        },
        layer_bytes: vec![800, 100, 100],
        output_bytes: 0,
    }
}

#[test]
fn a_chat_is_placed_and_run_on_every_gpu() {
    assert_eq!(
        check_context(129, 128).unwrap_err(),
        "--context 129 exceeds the model's trained context 128"
    );
    let too_long = Options { context: 129, ..options() };
    assert!(Chat::begin(model(), too_long).is_err());

    let chat = Chat::begin(model(), options()).ok().unwrap();
    let local = chat
        .pick_local(&[gpu("CPU", "cpu", 9), gpu("Vulkan0", "gpu", 3000)])
        .ok()
        .unwrap();
    assert!(local.wants_workers());
    let placed = local.place(&vec![gpu("Metal", "igpu", 1600)]).ok().unwrap();
    assert_eq!(placed.devices.len(), 2);
    assert_eq!(placed.plan.layers, vec![1, 3]);
    let args = placed.engine_args("/m.gguf", &vec!["127.0.0.1:5".into()]);
    assert_eq!(
        args,
        vec![
            "--rpc", "127.0.0.1:5", "--model", "/m.gguf", "--device", "RPC0,Vulkan0",
            "--split-mode", "layer", "--gpu-layers", "all", "--tensor-split", "1,3", "--fit",
            "off", "--simple-io", "--log-verbosity", "4", "--cache-type-k", "f16",
            "--cache-type-v", "f16", "--ctx-size", "128", "--predict", "5",
        ]
    );

    let asked = Options { prompt: Some("hi".into()), local: true, ..options() };
    let local = Chat::begin(model(), asked)
        .ok()
        .unwrap()
        .pick_local(&[gpu("Metal", "igpu", 4000)])
        .ok()
        .unwrap();
    assert!(!local.wants_workers());
    let placed = local.place(&vec![]).ok().unwrap();
    let args = placed.engine_args("/m.gguf", &vec![]);
    assert_eq!(args[..4], ["--model", "/m.gguf", "--device", "Metal"]);
    assert_eq!(
        args[args.len() - 5..],
        ["--prompt", "hi", "--single-turn", "--temp", "0"]
    );

    let small = Chat::begin(model(), options())
        .ok()
        .unwrap()
        .pick_local(&[gpu("Metal", "igpu", 40)])
        .ok()
        .unwrap();
    let unplaced = small.place(&vec![]).err().unwrap();
    assert_eq!(unplaced.error, PlanError::Memory);
    assert_eq!(unplaced.devices.len(), 1);
    assert!(Chat::begin(model(), options()).ok().unwrap().pick_local(&[]).is_err());
    assert_eq!(reserve_bytes(1024), 1 << 30);
}

#[test]
fn a_chat_ends_well_or_shows_its_log() {
    assert!(matches!(conclude(ChatEnd::Stopped, "l"), ChatVerdict::Fine));
    let exited = |success| ChatEnd::Exited { success, status: "exit 3".into() };
    assert!(matches!(conclude(exited(true), "l"), ChatVerdict::Fine));
    match conclude(exited(false), "l") {
        ChatVerdict::ShowLog { status } => assert_eq!(
            engine_failure(&status, "tail", "l"),
            "inference engine exited with exit 3\ntail\nFull log: l"
        ),
        _ => panic!("the engine failed"),
    }
    match conclude(ChatEnd::WorkerLost("x".into()), "l") {
        ChatVerdict::Fail(said) => {
            assert_eq!(said, "see l: worker connection closed during inference: x")
        }
        _ => panic!("a worker was lost"),
    }
    match conclude(ChatEnd::WaitFailed("x".into()), "l") {
        ChatVerdict::Fail(said) => {
            assert_eq!(said, "see l: waiting for the inference engine: x")
        }
        _ => panic!("waiting failed"),
    }
    assert_eq!((tail_start(8192), tail_start(8193)), (0, 1));
    assert!(strips_variable("LLAMA_ARG_MODEL"));
    assert!(!strips_variable("LLAMA_CACHE"));
}
