use lattice::net::control::{unintelligible, ControlHandler, RefuseControl, Request, Response};
use lattice::net::digest::ModelHasher;
use lattice::net::discovery::{
    device_id_from_fullname, peer_event, to_peer, Record, Sighting, Sightings, SERVICE_TYPE,
};
use lattice::net::tls::{channel_binding, peer_key, DeviceCertificate};
use lattice::net::transport::{
    check, check_greeting, expect_control, Connection, HandshakeRefusal, HELLO,
};
use lattice::net::trust::{admits, key_from_hex, key_hex};
use lattice::net::{
    AcceptAnyPeer, Advertisement, DeviceId, DeviceKey, Error, Introduction, IpAddr, PairedPeer,
    PeerEvent, Role, SocketAddr, StreamHeader, StreamKind, TrustStore, TrustedPeers,
};

fn sample_id() -> DeviceId {
    "0123456789abcdef".parse().unwrap()
}

#[test]
fn lost_events_recover_the_device_id_from_the_instance_name() {
    let parsed = device_id_from_fullname(&format!("{}.{SERVICE_TYPE}", sample_id().text()));
    assert_eq!(parsed, Some(sample_id()));
}

#[test]
fn non_lattice_instance_names_are_ignored() {
    assert_eq!(device_id_from_fullname("printer._ipp._tcp.local."), None);
}

#[test]
fn key_is_stable_across_loads() {
    let (first, pem) = DeviceKey::load_or_create(None).unwrap();
    let (second, again) = DeviceKey::load_or_create(Some(&pem.unwrap())).unwrap();
    assert_eq!(first.id(), second.id());
    assert_eq!(first.public_key(), second.public_key());
    assert_eq!(again, None);
}

#[test]
fn distinct_installs_get_distinct_ids() {
    let (a, _) = DeviceKey::load_or_create(None).unwrap();
    let (b, _) = DeviceKey::load_or_create(None).unwrap();
    assert_ne!(a.id(), b.id());
}

#[test]
fn device_id_round_trips_through_text() {
    let key = DeviceKey::generate();
    let parsed: DeviceId = key.id().text().parse().unwrap();
    assert_eq!(parsed, key.id());
    assert_eq!(key.id().text().len(), 16);
}

#[test]
fn malformed_device_id_is_rejected() {
    assert!("nothex".parse::<DeviceId>().is_err());
    assert!("00112233445566".parse::<DeviceId>().is_err());
}

#[test]
fn ids_are_read_in_either_case_and_written_in_lower() {
    let id: DeviceId = "0123456789ABCDEF".parse().unwrap();
    assert_eq!(id, sample_id());
    assert_eq!(id.text(), "0123456789abcdef");
    assert_eq!(id.to_bytes(), vec![0x01, 0x23, 0x45, 0x67, 0x89, 0xab, 0xcd, 0xef]);
    assert_eq!(
        DeviceId::from_bytes(&[0x01, 0x23, 0x45, 0x67, 0x89, 0xab, 0xcd, 0xef]),
        id
    );
    let error = DeviceId::parse("xy").unwrap_err();
    assert_eq!(error, Error::MalformedDeviceId("xy".into()));
    assert_eq!(
        error.message(),
        "\"xy\" is not a device id (expected 16 hex chars)"
    );
}

#[test]
fn a_known_secret_has_its_known_public_key() {
    // RFC 8032, test 1.
    let secret = [
        0x9d, 0x61, 0xb1, 0x9d, 0xef, 0xfd, 0x5a, 0x60, 0xba, 0x84, 0x4a, 0xf4, 0x92, 0xec, 0x2c,
        0xc4, 0x44, 0x49, 0xc5, 0x69, 0x7b, 0x32, 0x69, 0x19, 0x70, 0x3b, 0xac, 0x03, 0x1c, 0xae,
        0x7f, 0x60,
    ];
    let key = DeviceKey::from_secret(secret);
    assert_eq!(
        key_hex(&key.public_key()),
        "d75a980182b10ab7d54bfed3c964073a0ee172f3daa62325af021a68f707511a"
    );
    assert_eq!(key.id().text(), "21fe31dfa154a261");
}

#[test]
fn a_broken_key_file_is_named() {
    let error = DeviceKey::load_or_create(Some("not a pem")).err().unwrap();
    assert!(matches!(error, Error::KeyEncoding(_)));
    assert!(error.message().starts_with("device key is not valid pkcs#8: "));
}

fn cert_for() -> (DeviceKey, DeviceCertificate) {
    let key = DeviceKey::generate();
    let cert = DeviceCertificate::generate(&key).unwrap();
    (key, cert)
}

#[test]
fn the_certificate_carries_the_device_key() {
    let (key, cert) = cert_for();
    let recovered = peer_key(&cert.cert).unwrap();
    assert_eq!(recovered, key.public_key());
    assert_eq!(DeviceId::from_public_key(&recovered), key.id());
}

#[test]
fn regenerating_keeps_the_identity_stable() {
    let (key, first) = cert_for();
    let second = DeviceCertificate::generate(&key).unwrap();
    assert_eq!(peer_key(&first.cert).unwrap(), peer_key(&second.cert).unwrap());
    assert_eq!(first.key, second.key);
}

#[test]
fn both_sides_derive_the_same_binding() {
    let (_, a) = cert_for();
    let (_, b) = cert_for();
    assert_eq!(
        channel_binding(&a.cert, &b.cert),
        channel_binding(&b.cert, &a.cert)
    );
}

#[test]
fn a_relay_presenting_its_own_certificate_derives_a_different_binding() {
    let (_, a) = cert_for();
    let (_, b) = cert_for();
    let (_, relay) = cert_for();
    // A sees the relay, B sees the relay; neither sees the other.
    assert_ne!(
        channel_binding(&a.cert, &relay.cert),
        channel_binding(&b.cert, &relay.cert)
    );
}

#[test]
fn a_malformed_certificate_is_rejected() {
    let garbage = vec![0u8; 64];
    assert!(matches!(peer_key(&garbage), Err(Error::Certificate(_))));
}

#[test]
fn a_certificate_with_another_kind_of_key_is_rejected() {
    let other = rcgen::generate_simple_self_signed(vec!["lattice".to_owned()]).unwrap();
    assert_eq!(
        peer_key(other.cert.der()).unwrap_err(),
        Error::Certificate("peer key is not Ed25519".into())
    );
}

fn peer(name: &str) -> PairedPeer {
    let key = DeviceKey::generate();
    PairedPeer::new(key.public_key(), name.into(), "linux-x86_64".into(), 7)
}

#[test]
fn pairings_survive_a_reload() {
    let added = peer("desktop");
    let mut store = TrustStore::new();
    store.insert(added.clone());

    let reloaded = TrustStore::from_records(store.peers());
    assert_eq!(reloaded.get(added.device_id), Some(&added));
    assert!(reloaded.is_trusted(&added.public_key));
}

#[test]
fn unknown_and_revoked_keys_are_untrusted() {
    let added = peer("desktop");
    let stranger = peer("someone-elses-laptop");

    let mut store = TrustStore::new();
    store.insert(added.clone());
    assert!(!store.is_trusted(&stranger.public_key));

    assert!(store.remove(added.device_id));
    assert!(!store.is_trusted(&added.public_key));
    assert!(!store.remove(added.device_id));
    assert!(!TrustStore::from_records(store.peers()).is_trusted(&added.public_key));
}

#[test]
fn missing_store_loads_empty() {
    assert_eq!(TrustStore::from_records(vec![]).peers().len(), 0);
}

#[test]
fn records_stand_in_the_order_of_their_ids_and_the_later_one_counts() {
    let mut all: Vec<PairedPeer> = (0..20).map(|i| peer(&format!("device {i}"))).collect();
    let mut renamed = all[3].clone();
    renamed.name = "renamed".into();
    let mut records = all.clone();
    records.push(renamed.clone());
    let store = TrustStore::from_records(records);
    all[3] = renamed;
    all.sort_by_key(|peer| peer.device_id);
    assert_eq!(store.peers(), all);
}

#[test]
fn a_store_that_cannot_be_read_admits_nobody() {
    let added = peer("desktop");
    let mut store = TrustStore::new();
    store.insert(added.clone());
    assert!(admits(Some(&store), &added.public_key));
    assert!(!admits(None, &added.public_key));
}

#[test]
fn keys_are_kept_as_hexadecimal() {
    let added = peer("desktop");
    let text = key_hex(&added.public_key);
    assert_eq!(key_from_hex(&text).unwrap(), added.public_key);
    assert_eq!(key_from_hex("abc").unwrap_err(), "Odd number of digits");
    assert_eq!(key_from_hex("ab").unwrap_err(), "Invalid string length");
    let mut not_a_point = "02".to_owned();
    not_a_point.push_str(&"00".repeat(31));
    assert!(key_from_hex(&not_a_point).is_err());
}

#[test]
fn an_introduction_round_trips_into_a_trusted_peer() {
    let key = DeviceKey::generate();
    let voucher = DeviceKey::generate();

    let original = PairedPeer::new(key.public_key(), "gpu-box".into(), "linux-x86_64".into(), 1);
    let introduction = Introduction::of(&original);
    let encoded = postcard::to_allocvec(&(
        introduction.public_key,
        &introduction.name,
        &introduction.platform,
    ))
    .unwrap();
    let (public_key, name, platform): ([u8; 32], String, String) =
        postcard::from_bytes(&encoded).unwrap();
    let decoded = Introduction { public_key, name, platform };
    assert_eq!(decoded, introduction);

    let peer = decoded.into_peer(voucher.id(), 2).unwrap();
    assert_eq!(peer.device_id, original.device_id);
    assert_eq!(peer.public_key, original.public_key);
    assert_eq!(peer.introduced_by, Some(voucher.id()));
    assert_eq!(
        peer.origin(),
        format!("introduced by {}", voucher.id().text())
    );
}

#[test]
fn a_key_that_is_not_a_curve_point_is_rejected() {
    let voucher = DeviceKey::generate();
    let mut not_a_point = [0u8; 32];
    not_a_point[0] = 2;
    let bad = Introduction {
        public_key: not_a_point,
        name: "impostor".into(),
        platform: "linux-x86_64".into(),
    };
    let error = bad.into_peer(voucher.id(), 0).unwrap_err();
    assert!(error.message().starts_with("certificate: introduced key is unusable: "));
}

#[test]
fn control_can_be_refused_altogether() {
    let refused = Response::Refused("this device takes no control requests".into());
    assert_eq!(RefuseControl.handle(sample_id(), Request::Hello), refused);
    assert_eq!(
        unintelligible("bad enum"),
        Response::Refused("unintelligible request: bad enum".into())
    );
}

#[test]
fn a_handshake_is_judged_by_the_key_alone() {
    let (key, cert) = cert_for();
    assert!(check(&AcceptAnyPeer, &cert.cert).is_ok());
    let mut store = TrustStore::new();
    assert_eq!(
        check(&store, &cert.cert).unwrap_err(),
        HandshakeRefusal::NotAdmitted
    );
    store.insert(PairedPeer::new(key.public_key(), "a".into(), "b".into(), 0));
    assert!(check(&store, &cert.cert).is_ok());
    assert!(check(&TrustedPeers { store: Some(&store) }, &cert.cert).is_ok());
    assert_eq!(
        check(&TrustedPeers { store: Some(&store) }, &cert_for().1.cert).unwrap_err(),
        HandshakeRefusal::NotAdmitted
    );
    assert_eq!(
        check(&TrustedPeers { store: None }, &cert.cert).unwrap_err(),
        HandshakeRefusal::NotAdmitted
    );
    assert_eq!(
        check(&AcceptAnyPeer, &[1, 2, 3]).unwrap_err(),
        HandshakeRefusal::BadEncoding
    );
}

#[test]
fn a_connection_knows_its_peer() {
    let (_, local) = cert_for();
    let (key, remote) = cert_for();
    let conn = Connection::establish(
        &local.cert,
        Some(&vec![remote.cert.clone()]),
        Role::Dialer,
    )
    .unwrap();
    assert_eq!(conn.peer_id(), key.id());
    assert_eq!(conn.peer_key(), key.public_key());
    assert_eq!(conn.role(), Role::Dialer);
    assert_eq!(
        conn.channel_binding(),
        channel_binding(&remote.cert, &local.cert)
    );
    assert_eq!(
        Connection::establish(&local.cert, None, Role::Listener).unwrap_err(),
        Error::Certificate("peer presented no certificate".into())
    );
    assert_eq!(
        Connection::establish(&local.cert, Some(&vec![]), Role::Listener).unwrap_err(),
        Error::Certificate("peer certificate chain is empty".into())
    );
}

#[test]
fn a_greeting_and_a_control_stream_are_insisted_on() {
    assert!(check_greeting(Some(&HELLO)).is_ok());
    assert_eq!(&HELLO, b"LTC1");
    assert_eq!(check_greeting(Some(b"LTC2")).unwrap_err(), Error::Rejected);
    assert_eq!(check_greeting(None).unwrap_err(), Error::Rejected);
    assert!(expect_control(&StreamHeader::control()).is_ok());
    let bulk = StreamHeader { kind: StreamKind::Bulk, session: 0, generation: 0 };
    assert_eq!(
        expect_control(&bulk).unwrap_err(),
        Error::StreamHeader("expected a control stream, got Bulk".into())
    );
}

#[test]
fn a_model_is_addressed_by_its_digest() {
    let mut hasher = ModelHasher::new();
    hasher.update(b"a");
    hasher.update(b"bc");
    assert_eq!(
        hasher.finish(),
        "ba7816bf8f01cfea414140de5dae2223b00361a396177a9cb410ff61f20015ad"
    );
}

fn record() -> Record {
    Record {
        device_id: Some("0123456789abcdef".into()),
        name: Some("studio".into()),
        platform: Some("macos-aarch64".into()),
        memory: Some("68719476736".into()),
        protocol: Some("1".into()),
        role: None,
        pairing_port: None,
        addrs: vec![SocketAddr { ip: IpAddr::V4(0x7f00_0001), port: 1 }],
    }
}

#[test]
fn a_record_is_taken_whole_or_not_at_all() {
    let peer = to_peer(record()).unwrap();
    assert_eq!(peer.device_id, sample_id());
    assert_eq!(peer.total_memory, 68_719_476_736);
    assert_eq!((peer.protocol, peer.pairing_port), (1, None));

    let with_port = Record {
        role: Some("master".into()),
        pairing_port: Some("47901".into()),
        ..record()
    };
    let peer = to_peer(with_port).unwrap();
    assert_eq!(peer.role.as_deref(), Some("master"));
    assert_eq!(peer.pairing_port, Some(47901));

    let broken = [
        Record { device_id: None, ..record() },
        Record { device_id: Some("studio".into()), ..record() },
        Record { name: None, ..record() },
        Record { platform: None, ..record() },
        Record { memory: Some("much".into()), ..record() },
        Record { protocol: Some("65536".into()), ..record() },
        Record { pairing_port: Some("-1".into()), ..record() },
    ];
    for record in broken {
        assert_eq!(to_peer(record), None);
    }
}

#[test]
fn an_advertisement_is_found_again() {
    let ad = Advertisement {
        device_id: sample_id(),
        name: "studio".into(),
        platform: "macos-aarch64".into(),
        total_memory: 64,
        port: 47900,
    };
    assert_eq!(ad.host(), "0123456789abcdef.local.");
    assert_eq!(device_id_from_fullname(&ad.fullname()), Some(sample_id()));
    let txt = ad.txt(Some("master"), Some(47901));
    let value = |key: &str| txt.iter().find(|(k, _)| *k == key).map(|(_, v)| v.clone());
    let found = to_peer(Record {
        device_id: value("id"),
        name: value("name"),
        platform: value("platform"),
        memory: value("mem"),
        protocol: value("proto"),
        role: value("role"),
        pairing_port: value("pair"),
        addrs: vec![],
    })
    .unwrap();
    assert_eq!(found.device_id, ad.device_id);
    assert_eq!((found.name, found.platform), (ad.name.clone(), ad.platform.clone()));
    assert_eq!((found.total_memory, found.pairing_port), (64, Some(47901)));
    assert_eq!(ad.txt(None, None).len(), 5);
}

#[test]
fn sightings_follow_the_events() {
    let found = to_peer(record()).unwrap();
    let mut sightings = Sightings::new();
    sightings.observe(PeerEvent::Found(found.clone()), sample_id());
    assert_eq!(sightings.peers.len(), 0);
    let other: DeviceId = "1111111111111111".parse().unwrap();
    sightings.observe(PeerEvent::Found(found.clone()), other);
    assert_eq!(sightings.peers.get(sample_id()), Some(&found));
    let event = peer_event(Sighting::Removed(format!(
        "{}.{SERVICE_TYPE}",
        sample_id().text()
    )));
    sightings.observe(event.unwrap(), other);
    assert_eq!(sightings.peers.len(), 0);
    assert_eq!(peer_event(Sighting::Removed("printer._ipp".into())), None);
    assert_eq!(peer_event(Sighting::Other), None);
    assert_eq!(
        peer_event(Sighting::Resolved(record())),
        Some(PeerEvent::Found(found))
    );
}
