use lattice::engine::Payload;
use lattice::net::activation::{
    activation_header, remote_output, serve_next, ServeAction, ServeEvent,
};
use lattice::net::addr::{parse_ipv4, parse_socket, usable, Address};
use lattice::net::dispatch::{route, Next, Route};
use lattice::net::mesh::{Adoption, DialFailure, DialOutcome, Dialing, Link};
use lattice::net::probe::{
    best_round_trip, check_ack, drain_len, probe_size, respond, sink_header, ProbeAction, ACK,
    MAX_PROBE_BYTES, PING, SINK,
};
use lattice::net::roster::Roster;
use lattice::net::rpc::{
    ack_bytes, check_ack as check_rpc_ack, handshake_timed_out, judge_ack, rpc_header,
    session_ack, MAX_ACK,
};
use lattice::net::stream::Fence;
use lattice::net::{
    DenyRpc, DeviceId, Error, IpAddr, Mesh, NoShards, Role, SocketAddr, Step, StepResult,
    StreamHeader, StreamKind,
};

fn id(text: &str) -> DeviceId {
    text.parse().unwrap()
}

fn low() -> DeviceId {
    id("1111111111111111")
}

fn high() -> DeviceId {
    id("eeeeeeeeeeeeeeee")
}

#[test]
fn one_of_two_devices_dials() {
    assert!(Mesh::new(low()).should_dial(high()));
    assert!(!Mesh::new(high()).should_dial(low()));
    assert!(!Mesh::new(low()).should_dial(low()));
}

/// Both devices register both connections, in every order.
#[test]
fn two_dials_at_once_leave_one_connection() {
    let dialled_by_low = 1;
    let dialled_by_high = 2;
    for low_first in [dialled_by_low, dialled_by_high] {
        for high_first in [dialled_by_low, dialled_by_high] {
            let mut kept = Vec::new();
            for (local, peer, first) in [(low(), high(), low_first), (high(), low(), high_first)] {
                let role = |handle: u64| {
                    if (handle == dialled_by_low) == (local == low()) {
                        Role::Dialer
                    } else {
                        Role::Listener
                    }
                };
                let second = 3 - first;
                let mut mesh = Mesh::new(local);
                mesh.adopt(peer, Link { handle: first, role: role(first) }, false);
                mesh.adopt(peer, Link { handle: second, role: role(second) }, true);
                kept.push(mesh.get(peer).unwrap().handle);
            }
            assert_eq!(kept, vec![dialled_by_low, dialled_by_low]);
        }
    }
}

#[test]
fn a_dead_connection_is_replaced_without_being_closed() {
    let mut mesh = Mesh::new(low());
    let first = Link { handle: 1, role: Role::Dialer };
    let second = Link { handle: 2, role: Role::Listener };
    assert_eq!(mesh.adopt(high(), first, false), Adoption::Adopted { close: None });
    assert_eq!(mesh.adopt(high(), second, true), Adoption::Superseded { by: 1 });
    assert_eq!(mesh.adopt(high(), second, false), Adoption::Adopted { close: None });
    assert_eq!(
        mesh.adopt(high(), first, true),
        Adoption::Adopted { close: Some(2) }
    );
    assert_eq!(mesh.connected(&vec![1, 7]), vec![high()]);
    assert_eq!(mesh.connected(&vec![7]), vec![]);
    assert_eq!(mesh.forget(high()), Some(first));
    assert_eq!(mesh.get(high()), None);
}

#[test]
fn dialling_insists_on_who_answers() {
    let mut dialing = Dialing::new(high());
    assert!(!dialing.judge("10.0.0.1:1", DialOutcome::Failed));
    assert!(!dialing.judge("10.0.0.2:1", DialOutcome::Answered(low())));
    assert_eq!(
        dialing.give_up(),
        DialFailure::Refused(Error::Stream(
            "10.0.0.2:1 answered as 1111111111111111, expected eeeeeeeeeeeeeeee".into()
        ))
    );
    let mut dialing = Dialing::new(high());
    assert!(!dialing.judge("10.0.0.2:1", DialOutcome::Answered(low())));
    assert!(!dialing.judge("10.0.0.1:1", DialOutcome::Failed));
    assert_eq!(dialing.give_up(), DialFailure::Attempt(1));
    let mut dialing = Dialing::new(high());
    assert!(dialing.judge("10.0.0.3:1", DialOutcome::Answered(high())));
    assert_eq!(
        Dialing::new(high()).give_up(),
        DialFailure::Refused(Error::Stream("no address known for eeeeeeeeeeeeeeee".into()))
    );
}

#[test]
fn a_roster_keeps_devices_in_order() {
    let mut roster = Roster::new();
    for (device, value) in [(high(), 1), (low(), 2), (high(), 3), (id("8888888888888888"), 4)] {
        roster.insert(device, value);
    }
    let order: Vec<u8> = roster.entries.iter().map(|(_, value)| *value).collect();
    assert_eq!(order, vec![2, 4, 3]);
    assert_eq!(roster.remove(low()), Some(2));
    assert_eq!(roster.remove(low()), None);
    assert!(!roster.contains(low()) && roster.contains(high()));
    assert_eq!(roster.len(), 2);
}

#[test]
fn streams_go_to_whoever_serves_their_kind() {
    let header = |kind| Some(StreamHeader { kind, session: 9, generation: 0 });
    let mut fence = Fence::new();
    let mut route = |accepted| route(&mut fence, accepted);
    assert_eq!(route(header(StreamKind::Control)), Next::Serve(Route::Control));
    assert_eq!(
        route(header(StreamKind::Activation)),
        Next::Serve(Route::Executor { session: 9 })
    );
    assert_eq!(route(header(StreamKind::Bulk)), Next::Serve(Route::Probe));
    assert_eq!(route(header(StreamKind::InferenceRpc)), Next::Serve(Route::Rpc));
    assert_eq!(route(None), Next::Stop);
}

#[test]
fn a_stale_stream_is_refused_and_the_connection_goes_on() {
    let header = |session, generation| StreamHeader {
        kind: StreamKind::Activation,
        session,
        generation,
    };
    let mut fence = Fence::new();
    let served = |session| Next::Serve(Route::Executor { session });
    assert_eq!(route(&mut fence, Some(header(7, 3))), served(7));
    assert_eq!(
        route(&mut fence, Some(header(7, 2))),
        Next::Refuse(Error::StreamHeader(
            "stale stream: session 7 is at generation 3, not 2".into()
        ))
    );
    // The same generation opens any number of streams, and another session's
    // generation is its own.
    assert_eq!(route(&mut fence, Some(header(7, 3))), served(7));
    assert_eq!(route(&mut fence, Some(header(8, 0))), served(8));
    assert_eq!(route(&mut fence, Some(header(7, 9))), served(7));
    assert!(fence.check(&header(7, 3)).is_err());
    assert!(fence.check(&header(8, 0)).is_ok());
    // A refused stream leaves no trace.
    assert!(fence.check(&header(7, 9)).is_ok());
    assert!(fence.check(&StreamHeader::control()).is_ok());
}

#[test]
fn a_stream_of_no_session_is_never_stale() {
    let untied = |generation| StreamHeader { kind: StreamKind::Bulk, session: 0, generation };
    let mut fence = Fence::new();
    assert_eq!(route(&mut fence, Some(untied(5))), Next::Serve(Route::Probe));
    assert_eq!(
        route(&mut fence, Some(StreamHeader::control())),
        Next::Serve(Route::Control)
    );
    assert_eq!(route(&mut fence, Some(untied(1))), Next::Serve(Route::Probe));
    assert!(fence.seen.is_empty());
}

#[test]
fn a_session_ends_with_its_stream_and_not_with_a_failed_step() {
    assert!(matches!(serve_next(ServeEvent::Closed), ServeAction::Stop));
    assert!(matches!(serve_next(ServeEvent::Asked(Step::Done)), ServeAction::Stop));
    let step = Step::Decode { pos: 3, input: Payload::Tokens(vec![1]) };
    match serve_next(ServeEvent::Asked(step.clone())) {
        ServeAction::Run(run) => assert_eq!(run, step),
        _ => panic!("a step is to be run"),
    }
    match serve_next(ServeEvent::Ran(Err("no".into()))) {
        ServeAction::Reply(result) => assert_eq!(result, StepResult::Failed("no".into())),
        _ => panic!("a failed step is answered"),
    }
    match serve_next(ServeEvent::Ran(Ok(Payload::Logits(vec![])))) {
        ServeAction::Reply(result) => {
            assert_eq!(result, StepResult::Output(Payload::Logits(vec![])))
        }
        _ => panic!("a step is answered"),
    }
    match serve_next(ServeEvent::Unreadable("eof".into())) {
        ServeAction::ReplyAndStop(result) => {
            assert_eq!(result, StepResult::Failed("unintelligible: eof".into()))
        }
        _ => panic!("the peer is told"),
    }
    assert!(matches!(
        serve_next(ServeEvent::Replied { sent: true }),
        ServeAction::Read
    ));
    assert!(matches!(
        serve_next(ServeEvent::Replied { sent: false }),
        ServeAction::Stop
    ));
}

#[test]
fn a_shard_that_declines_is_told_from_a_broken_link() {
    assert_eq!(
        remote_output(StepResult::Failed("busy".into())).unwrap_err(),
        Error::Stream("remote shard: busy".into())
    );
    let output = Payload::Tokens(vec![4]);
    assert_eq!(remote_output(StepResult::Output(output.clone())).unwrap(), output);
    assert_eq!(
        NoShards.run(1, Step::Done).unwrap_err(),
        "this device holds no shards"
    );
    let header = activation_header(5, 6);
    assert_eq!((header.session, header.generation), (5, 6));
    assert_eq!(header.kind, StreamKind::Activation);
}

#[test]
fn a_probe_is_bounded_and_acknowledged() {
    assert_eq!(probe_size(5), 5);
    assert_eq!(probe_size(MAX_PROBE_BYTES + 1), 64 << 20);
    assert_eq!(sink_header(0x0102), vec![SINK, 2, 1, 0, 0]);
    assert_eq!(drain_len(&sink_header(MAX_PROBE_BYTES)[1..]), Some(MAX_PROBE_BYTES));
    assert_eq!(drain_len(&[1, 0, 0, 4]), None);
    assert_eq!(respond(PING), ProbeAction::Acknowledge);
    assert_eq!(respond(SINK), ProbeAction::Drain);
    assert_eq!(respond(0), ProbeAction::Stop);
    assert!(check_ack(ACK).is_ok());
    assert_eq!(check_ack(PING).unwrap_err(), Error::Rejected);
    assert_eq!(best_round_trip(&vec![7, 3, 5]), 3);
    assert_eq!(best_round_trip(&vec![]), u64::MAX);
}

#[test]
fn a_refusal_reaches_the_master_shortened() {
    let long = "ü".repeat(600);
    let ack = session_ack(Some(Err(long.clone())));
    let bytes = ack_bytes(&ack).unwrap();
    assert!(bytes.len() <= MAX_ACK);
    let heard: String = long.chars().take(512).collect();
    assert_eq!(check_rpc_ack(&bytes).unwrap_err(), Error::Stream(heard));
    assert!(check_rpc_ack(&ack_bytes(&session_ack(Some(Ok(())))).unwrap()).is_ok());
    assert_eq!(
        session_ack(None).unwrap_err(),
        "inference RPC connection timed out"
    );
    assert!(matches!(check_rpc_ack(&[]), Err(Error::Postcard(_))));
    assert_eq!(
        judge_ack(Err("no".into())).unwrap_err(),
        Error::Stream("no".into())
    );
    assert_eq!(
        handshake_timed_out(),
        Error::Stream("inference RPC handshake timed out".into())
    );
    assert_eq!(
        DenyRpc.connect(low()).unwrap_err(),
        "inference RPC is unavailable on this device"
    );
    assert_eq!(rpc_header().kind, StreamKind::InferenceRpc);
}

fn v4(bits: u32, port: u16) -> SocketAddr {
    SocketAddr { ip: IpAddr::V4(bits), port }
}

#[test]
fn addresses_are_read_as_they_are_written() {
    assert_eq!(
        parse_socket("192.168.7.40:4242"),
        Some(Address::V4(v4(0xc0a8_0728, 4242)))
    );
    assert_eq!(parse_socket("1.2.3.4:0080"), Some(Address::V4(v4(0x0102_0304, 80))));
    for v6 in [
        "[::]:1",
        "[::1]:47900",
        "[1:2:3:4:5:6:7:8]:1",
        "[1:2:3:4:5:6:1.2.3.4]:1",
        "[fe80::1%3]:1",
        "[::ffff:1.2.3.4]:65535",
        "[1::8]:1",
        "[1:2:3:4:5:6:7::]:1",
        "[::2:3:4:5:6:7:8]:1",
    ] {
        assert_eq!(parse_socket(v6), Some(Address::V6), "{v6}");
    }
    for bad in [
        "",
        "1.2.3.4",
        "1.2.3.4:",
        "1.2.3.4:+1",
        "1.2.3.4:65536",
        "01.2.3.4:1",
        "256.2.3.4:1",
        "1.2.3:1",
        "1.2.3.4.5:1",
        " 1.2.3.4:1",
        "::1:1",
        "[::1]",
        "[::1]:",
        "[::1]:65536",
        "[1:2:3:4:5:6:7]:1",
        "[1:2:3:4:5:6:7:8:9]:1",
        "[1::2::3]:1",
        "[12345::]:1",
        "[:::]:1",
        "[1:2:3:4:5:6:7:1.2.3.4]:1",
        "[1:2:3:4:5:6:7:8::]:1",
        "[1.2.3.4::]:1",
        "[fe80::1%]:1",
        "[fe80::1%4294967296]:1",
        "localhost:1",
    ] {
        assert_eq!(parse_socket(bad), None, "{bad}");
    }
    assert_eq!(parse_ipv4("0.0.0.0"), Some(0));
    assert_eq!(parse_ipv4("255.255.255.255"), Some(u32::MAX));
    assert_eq!(parse_ipv4("1.2.3.4:5"), None);
}

#[test]
fn only_addresses_that_can_be_dialled_are_used_the_best_first() {
    let own = v4(0x7f00_0001, 1);
    let lan = v4(0xc0a8_0001, 2);
    let other = v4(0x0a00_0001, 3);
    let v6 = SocketAddr { ip: IpAddr::V6(1), port: 4 };
    assert_eq!(usable(&vec![own, v6, lan, other]), vec![lan, other, own]);
    assert_eq!(usable(&vec![v6]), vec![]);
}
