use lattice::net::pairing::{frame_len, tag, AwaitingConfirm, Confirm, MAX_FRAME};
use lattice::net::{DeviceId, DeviceKey, Error, PairedPeer, Pairing, PairingCode};

struct Device {
    key: DeviceKey,
}

fn device() -> Device {
    Device { key: DeviceKey::generate() }
}

/// Drives both halves to completion, returning what each side learned.
fn pair_with(
    a_code: &PairingCode,
    b_code: &PairingCode,
    a_binding: [u8; 32],
    b_binding: [u8; 32],
) -> Result<(PairedPeer, PairedPeer), Error> {
    let (a, b) = (device(), device());
    let (a_state, a_msg) = Pairing::start(a_code, a_binding);
    let (b_state, b_msg) = Pairing::start(b_code, b_binding);

    let (a_await, a_confirm) =
        a_state.key_exchange(&b_msg, &a.key, "laptop".into(), "macos-aarch64".into())?;
    let (b_await, b_confirm) =
        b_state.key_exchange(&a_msg, &b.key, "desktop".into(), "linux-x86_64".into())?;

    Ok((a_await.finish(&b_confirm, 11)?, b_await.finish(&a_confirm, 12)?))
}

#[test]
fn matching_codes_exchange_verified_identities() {
    let code = PairingCode::generate();
    let (a_learned, b_learned) = pair_with(&code, &code, [7; 32], [7; 32]).unwrap();

    assert_eq!(a_learned.name, "desktop");
    assert_eq!(a_learned.platform, "linux-x86_64");
    assert_eq!(b_learned.name, "laptop");
    assert_eq!(b_learned.platform, "macos-aarch64");
    assert_ne!(a_learned.device_id, b_learned.device_id);
    assert_eq!(
        a_learned.device_id,
        DeviceId::from_public_key(&a_learned.public_key)
    );
    assert_eq!((a_learned.paired_at, b_learned.paired_at), (11, 12));
    assert_eq!(a_learned.origin(), "paired directly");
}

#[test]
fn a_wrong_code_fails_rather_than_pairing() {
    let err = pair_with(
        &PairingCode::parse("111111").unwrap(),
        &PairingCode::parse("222222").unwrap(),
        [7; 32],
        [7; 32],
    )
    .unwrap_err();
    assert!(matches!(err, Error::PairingFailed), "{err:?}");
}

/// A relay proxying both halves sees a different TLS key on each side, so the
/// bindings differ and the confirmation MAC does not verify.
#[test]
fn a_relay_between_two_honest_devices_is_rejected() {
    let code = PairingCode::generate();
    let err = pair_with(&code, &code, [1; 32], [2; 32]).unwrap_err();
    assert!(matches!(err, Error::PairingFailed), "{err:?}");
}

#[test]
fn our_own_message_reflected_back_is_rejected() {
    let dev = device();
    let code = PairingCode::generate();
    let (state, msg) = Pairing::start(&code, [7; 32]);
    let err = state
        .key_exchange(&msg, &dev.key, "laptop".into(), "macos-aarch64".into())
        .err()
        .expect("reflected message must not pair");
    assert!(matches!(err, Error::PairingReflected), "{err:?}");
}

#[test]
fn our_own_confirmation_reflected_back_is_rejected() {
    let dev = device();
    let code = PairingCode::generate();
    let (a_state, a_msg) = Pairing::start(&code, [7; 32]);
    let (b_state, b_msg) = Pairing::start(&code, [7; 32]);
    let (a_await, a_confirm) = a_state
        .key_exchange(&b_msg, &dev.key, "laptop".into(), "macos-aarch64".into())
        .unwrap();
    // Same device key on both halves, so the peer's key equals our own.
    let _ = b_state.key_exchange(&a_msg, &dev.key, "x".into(), "y".into());
    let err = a_await.finish(&a_confirm, 0).unwrap_err();
    assert!(matches!(err, Error::PairingReflected), "{err:?}");
}

fn half_way() -> (AwaitingConfirm, Confirm) {
    let (a, b) = (device(), device());
    let code = PairingCode::generate();
    let (a_state, a_msg) = Pairing::start(&code, [7; 32]);
    let (b_state, b_msg) = Pairing::start(&code, [7; 32]);
    let (a_await, _) = a_state
        .key_exchange(&b_msg, &a.key, "laptop".into(), "macos-aarch64".into())
        .unwrap();
    let (_, b_confirm) = b_state
        .key_exchange(&a_msg, &b.key, "desktop".into(), "linux-x86_64".into())
        .unwrap();
    (a_await, b_confirm)
}

#[test]
fn tampering_with_a_confirmation_is_detected() {
    let (a_await, mut b_confirm) = half_way();

    // Swap in an attacker's public key, leaving the MAC untouched.
    let attacker = device();
    let forged = postcard::to_allocvec(&(
        attacker.key.public_key().bytes,
        "desktop",
        "linux-x86_64",
    ))
    .unwrap();
    b_confirm.body = forged;

    let err = a_await.finish(&b_confirm, 0).unwrap_err();
    assert!(matches!(err, Error::PairingFailed), "{err:?}");
}

#[test]
fn codes_are_six_digits_and_keep_leading_zeros() {
    assert_eq!(PairingCode::parse(" 000123 ").unwrap().as_str(), "000123");
    for _ in 0..64 {
        let code = PairingCode::generate();
        assert_eq!(code.as_str().len(), 6);
        assert!(code.as_str().bytes().all(|b| b.is_ascii_digit()));
    }
}

#[test]
fn malformed_codes_are_rejected() {
    for bad in ["12345", "1234567", "12345a", "", "abcdef"] {
        assert!(PairingCode::parse(bad).is_err(), "accepted {bad:?}");
    }
}

#[test]
fn a_code_is_written_with_six_digits_whatever_its_number() {
    assert_eq!(PairingCode::numbered(0).as_str(), "000000");
    assert_eq!(PairingCode::numbered(1234).as_str(), "001234");
    assert_eq!(PairingCode::numbered(999_999).as_str(), "999999");
    assert_eq!(
        PairingCode::parse("\u{3000}123456\n").unwrap().as_str(),
        "123456"
    );
    assert_eq!(
        PairingCode::parse("+12345").unwrap_err(),
        Error::MalformedPairingCode
    );
}

#[test]
fn a_message_that_is_none_fails_the_pairing() {
    let dev = device();
    let code = PairingCode::generate();
    for bad in [vec![], vec![0x53; 32], vec![0x41; 33]] {
        let (state, _) = Pairing::start(&code, [7; 32]);
        let err = state
            .key_exchange(&bad, &dev.key, "a".into(), "b".into())
            .err()
            .unwrap();
        assert_eq!(err, Error::PairingFailed);
    }
}

#[test]
fn a_confirmation_travels_as_bytes() {
    let (a_await, b_confirm) = half_way();
    let bytes = b_confirm.to_bytes().unwrap();
    assert!(bytes.len() < MAX_FRAME);
    let received = Confirm::from_bytes(&bytes).unwrap();
    assert_eq!(received, b_confirm);
    assert!(a_await.finish(&received, 0).is_ok());
    assert!(matches!(Confirm::from_bytes(&[]), Err(Error::Postcard(_))));
}

#[test]
fn a_confirmation_that_cannot_be_read_or_names_no_key_is_refused() {
    let (a_await, mut b_confirm) = half_way();
    b_confirm.body = vec![1, 2, 3];
    b_confirm.mac =
        tag(&a_await.mac_key, &a_await.transcript, &b_confirm.body);
    assert!(matches!(a_await.finish(&b_confirm, 0), Err(Error::Postcard(_))));

    let (a_await, mut b_confirm) = half_way();
    let mut not_a_point = [0u8; 32];
    not_a_point[0] = 2;
    b_confirm.body = postcard::to_allocvec(&(not_a_point, "x", "y")).unwrap();
    b_confirm.mac =
        tag(&a_await.mac_key, &a_await.transcript, &b_confirm.body);
    assert_eq!(a_await.finish(&b_confirm, 0).unwrap_err(), Error::PairingFailed);
}

#[test]
fn macs_are_those_of_the_standard() {
    // RFC 4231, test case 2.
    let mac = lattice::net::pairing::derive(b"Jefe", b"what do ya want for nothing?");
    assert_eq!(
        mac,
        [
            0x5b, 0xdc, 0xc1, 0x46, 0xbf, 0x60, 0x75, 0x4e, 0x6a, 0x04, 0x24, 0x26, 0x08, 0x95,
            0x75, 0xc7, 0x5a, 0x00, 0x3f, 0x08, 0x9d, 0x27, 0x39, 0x83, 0x9d, 0xec, 0x58, 0xb9,
            0x64, 0xec, 0x38, 0x43,
        ]
    );
}

#[test]
fn oversized_pairing_frames_are_refused() {
    assert_eq!(frame_len(&4096u32.to_le_bytes()).unwrap(), 4096);
    assert_eq!(
        frame_len(&4097u32.to_le_bytes()).unwrap_err(),
        Error::PairingFailed
    );
}
