use lattice::net::codec::{frame_header, frame_len};
use lattice::net::stream::HEADER_LEN;
use lattice::net::transport::STREAM_RECEIVE_WINDOW;
use lattice::net::{Error, StreamHeader, StreamKind};

fn sample() -> StreamHeader {
    StreamHeader {
        kind: StreamKind::Activation,
        session: 0x0123_4567_89ab_cdef,
        generation: 7,
    }
}

#[test]
fn headers_round_trip() {
    assert_eq!(StreamHeader::decode(&sample().encode()).unwrap(), sample());
    let control = StreamHeader::control();
    assert_eq!(StreamHeader::decode(&control.encode()).unwrap(), control);
}

#[test]
fn the_header_is_a_fixed_twenty_bytes() {
    assert_eq!(sample().encode().len(), HEADER_LEN);
}

#[test]
fn a_stream_that_is_not_ours_is_rejected() {
    let mut bytes = sample().encode();
    bytes[0] ^= 0xff;
    assert!(StreamHeader::decode(&bytes).is_err());
}

#[test]
fn a_future_protocol_version_is_named_in_the_error() {
    let mut bytes = sample().encode();
    bytes[4..6].copy_from_slice(&99u16.to_le_bytes());
    let err = StreamHeader::decode(&bytes).unwrap_err().message();
    assert!(err.contains("v99"), "{err}");
}

#[test]
fn an_unknown_kind_is_rejected_rather_than_defaulted() {
    let mut bytes = sample().encode();
    bytes[6..8].copy_from_slice(&64u16.to_le_bytes());
    assert!(StreamHeader::decode(&bytes).is_err());
}

#[test]
fn bulk_never_outranks_activation() {
    assert!(StreamKind::Control.priority() > StreamKind::Activation.priority());
    assert!(StreamKind::Activation.priority() > StreamKind::Bulk.priority());
}

/// Locks the reasoning behind the window size. A silent regression here looks
/// like "the network got slow" rather than a config change.
#[test]
fn the_stream_window_covers_the_worst_link_we_target() {
    let bandwidth_delay_product = 125.0e6 * 0.050;
    assert!(
        f64::from(STREAM_RECEIVE_WINDOW) >= bandwidth_delay_product,
        "{STREAM_RECEIVE_WINDOW} bytes caps this link below its capacity"
    );
}

#[test]
fn a_header_is_laid_out_lowest_byte_first() {
    let bytes = sample().encode();
    assert_eq!(&bytes[0..4], b"LTCS");
    assert_eq!(bytes[4..8], [1, 0, 2, 0]);
    assert_eq!(bytes[8..16], 0x0123_4567_89ab_cdefu64.to_le_bytes());
    assert_eq!(bytes[16..20], [7, 0, 0, 0]);
    for (kind, number) in [
        (StreamKind::Control, 1),
        (StreamKind::Activation, 2),
        (StreamKind::Bulk, 3),
        (StreamKind::InferenceRpc, 4),
    ] {
        assert_eq!(kind.to_wire(), number);
        assert_eq!(StreamKind::from_wire(number).unwrap(), kind);
    }
    assert_eq!(
        StreamKind::from_wire(5).unwrap_err(),
        Error::StreamHeader("unknown stream kind 5".into())
    );
}

#[test]
fn frames_announce_their_length_and_respect_the_ceiling() {
    let header = frame_header(300).unwrap();
    assert_eq!(header, vec![0x2c, 1, 0, 0]);
    assert_eq!(frame_len(&header, 300).unwrap(), 300);
    assert_eq!(
        frame_len(&header, 299).unwrap_err(),
        Error::Stream("peer announced a 300 byte frame, ceiling is 299".into())
    );
    assert_eq!(
        frame_header(1 << 32).unwrap_err(),
        Error::Stream("frame exceeds 4 GiB".into())
    );
}
