use smo_relay::header::{Header, HEADER_SIZE};
use smo_relay::server::ServerError;

#[test]
fn header_round_trip() {
    let h = Header {
        id: 0x0123_4567_89ab_cdef_0011_2233_4455_6677,
        kind: 4,
        body_len: 600,
    };
    let bytes = h.to_bytes();
    assert_eq!(bytes.len(), HEADER_SIZE);
    let parsed = Header::from_bytes(&bytes).expect("well-sized frame parses");
    assert_eq!(parsed, h);
}

#[test]
fn header_layout_is_big_endian_id_little_endian_fields() {
    let h = Header {
        id: 1,
        kind: 0x0201,
        body_len: 0x0403,
    };
    let bytes = h.to_bytes();
    let mut expected = vec![0u8; 15];
    expected.push(1); // id, big-endian: lowest byte last
    expected.extend_from_slice(&[0x01, 0x02]); // kind, little-endian
    expected.extend_from_slice(&[0x03, 0x04]); // body length, little-endian
    assert_eq!(bytes, expected);
}

#[test]
fn header_extremes_round_trip() {
    for id in [0u128, u128::MAX, 0x8000_0000_0000_0000_0000_0000_0000_0001] {
        let h = Header {
            id,
            kind: u16::MAX,
            body_len: 0,
        };
        let parsed = Header::from_bytes(&h.to_bytes()).expect("parses");
        assert_eq!(parsed, h);
    }
}

#[test]
fn wrong_sized_buffers_are_protocol_violations() {
    assert_eq!(
        Header::from_bytes(&Vec::new()),
        Err(ServerError::ProtocolViolation)
    );
    assert_eq!(
        Header::from_bytes(&vec![0u8; HEADER_SIZE - 1]),
        Err(ServerError::ProtocolViolation)
    );
    assert_eq!(
        Header::from_bytes(&vec![0u8; HEADER_SIZE + 1]),
        Err(ServerError::ProtocolViolation)
    );
}
