use bettercursor::codec::{base64_decode, hex_decode, hex_encode};
use bettercursor::protobuf::extract_blob_ids_from_protobuf;

#[test]
fn sync_hex_round_trip() {
    let s = "deadbeef";
    let bytes = hex_decode(s).unwrap();
    assert_eq!(bytes, vec![0xde, 0xad, 0xbe, 0xef]);
    assert_eq!(hex_encode(&bytes), s);
}

#[test]
fn hex_decode_rejects_odd_length() {
    assert!(hex_decode("abc").is_err());
}

#[test]
fn base64_decode_known_vector() {
    let bytes = base64_decode("SGVsbG8sIFdvcmxkIQ==").unwrap();
    assert_eq!(bytes, b"Hello, World!");
}

#[test]
fn protobuf_walker_extracts_32_byte_field() {
    let payload = vec![0xAB; 32];
    let mut data = vec![0x0A, 32];
    data.extend_from_slice(&payload);
    let ids = extract_blob_ids_from_protobuf(&data);
    assert_eq!(ids.len(), 1);
    assert_eq!(ids.iter().next().unwrap(), &hex_encode(&payload));
}

#[test]
fn protobuf_walker_recurses_into_submessage() {
    let inner_payload = vec![0xCD; 32];
    let mut inner = vec![0x0A, 32];
    inner.extend_from_slice(&inner_payload);
    let mut outer = vec![0x12, inner.len() as u8];
    outer.extend_from_slice(&inner);
    let ids = extract_blob_ids_from_protobuf(&outer);
    assert_eq!(ids.len(), 1);
    assert_eq!(ids.iter().next().unwrap(), &hex_encode(&inner_payload));
}

#[test]
fn base64_round_trips_every_length_mod_three() {
    for n in 0..10u8 {
        let bytes: Vec<u8> = (0..n).map(|i| i.wrapping_mul(37).wrapping_add(200)).collect();
        let text = bettercursor::codec::base64_encode(&bytes);
        assert_eq!(base64_decode(&text).unwrap(), bytes);
    }
}

#[test]
fn hex_round_trips_all_byte_values() {
    let bytes: Vec<u8> = (0..=255u8).collect();
    assert_eq!(hex_decode(&hex_encode(&bytes)).unwrap(), bytes);
}
