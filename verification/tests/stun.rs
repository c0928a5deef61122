//! STUN messages.

use oxlens_sfu::transport::addr::SocketAddress;
use oxlens_sfu::transport::stun::{
    build_binding_response, encode_xor_mapped_address, ice_integrity_key, parse,
    verify_message_integrity, ADDR_FAMILY_IPV4, ATTR_FINGERPRINT, ATTR_MESSAGE_INTEGRITY,
    ATTR_XOR_MAPPED_ADDRESS, BINDING_REQUEST, BINDING_RESPONSE, MAGIC_COOKIE,
};

#[test]
fn test_parse_binding_request() {
    // Minimal STUN Binding Request (header only, no attributes)
    let mut buf = vec![0u8; 20];
    // Type: Binding Request (0x0001)
    buf[0] = 0x00;
    buf[1] = 0x01;
    // Length: 0
    buf[2] = 0x00;
    buf[3] = 0x00;
    // Magic Cookie
    buf[4..8].copy_from_slice(&MAGIC_COOKIE.to_be_bytes());
    // Transaction ID
    buf[8..20].copy_from_slice(&[1, 2, 3, 4, 5, 6, 7, 8, 9, 10, 11, 12]);

    let msg = parse(&buf).unwrap();
    assert_eq!(msg.msg_type, BINDING_REQUEST);
    assert_eq!(msg.transaction_id, [1, 2, 3, 4, 5, 6, 7, 8, 9, 10, 11, 12]);
    assert!(msg.attributes.is_empty());
}

#[test]
fn test_parse_bad_cookie() {
    let mut buf = vec![0u8; 20];
    buf[0] = 0x00;
    buf[1] = 0x01;
    buf[4..8].copy_from_slice(&0xDEADBEEFu32.to_be_bytes());
    assert!(parse(&buf).is_none());
}

#[test]
fn test_parse_too_short() {
    assert!(parse(&[0u8; 10]).is_none());
    assert!(parse(&[]).is_none());
}

#[test]
fn test_build_and_parse_response() {
    let tid = [1u8, 2, 3, 4, 5, 6, 7, 8, 9, 10, 11, 12];
    let addr = SocketAddress::V4 { ip: 0xC0A8_0101, port: 12345 };
    let key = ice_integrity_key("testpassword");

    let resp = build_binding_response(&tid, addr, &key);
    let msg = parse(&resp).unwrap();

    assert_eq!(msg.msg_type, BINDING_RESPONSE);
    assert_eq!(msg.transaction_id, tid);
    assert!(msg.get_attr(ATTR_XOR_MAPPED_ADDRESS).is_some());
    assert!(msg.get_attr(ATTR_MESSAGE_INTEGRITY).is_some());
    assert!(msg.get_attr(ATTR_FINGERPRINT).is_some());
}

#[test]
fn test_message_integrity_verify() {
    let tid = [1u8, 2, 3, 4, 5, 6, 7, 8, 9, 10, 11, 12];
    let addr = SocketAddress::V4 { ip: 0x0A00_0001, port: 5000 };
    let key = ice_integrity_key("mypassword");

    let resp = build_binding_response(&tid, addr, &key);
    let msg = parse(&resp).unwrap();

    assert!(verify_message_integrity(&msg, &key));
    assert!(!verify_message_integrity(&msg, b"wrongpassword"));
}

#[test]
fn test_xor_mapped_address_ipv4() {
    let tid = [0u8; 12];
    let addr = SocketAddress::V4 { ip: 0xC000_0201, port: 32853 };
    let encoded = encode_xor_mapped_address(addr, &tid);

    // Family should be IPv4
    assert_eq!(encoded[1], ADDR_FAMILY_IPV4);
    // XOR'd port: 32853 ^ (0x2112 >> 0) = 32853 ^ 0x2112
    let xport = u16::from_be_bytes([encoded[2], encoded[3]]);
    assert_eq!(xport, 32853 ^ 0x2112);
}
