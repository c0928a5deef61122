//! From a binding request to media: how a connection comes about.

use hmac::{Hmac, Mac};
use oxlens_sfu::config::RoomMode;
use oxlens_sfu::room::hub::RoomHub;
use oxlens_sfu::room::participant::{Participant, PcType};
use oxlens_sfu::room::room::Room;
use oxlens_sfu::transport::addr::SocketAddress;
use oxlens_sfu::transport::dtls::{install_keys, SrtpKeyMaterial};
use oxlens_sfu::transport::srtp::{can_decrypt_rtcp, can_encrypt_rtp, SrtpContext, SrtpError};
use oxlens_sfu::transport::stun::{
    ice_integrity_key, parse, verify_message_integrity, ATTR_XOR_MAPPED_ADDRESS, BINDING_RESPONSE,
};
use oxlens_sfu::transport::udp::binding::{handle_stun, BindingOutcome};
use sha1::Sha1;

const REMOTE: SocketAddress = SocketAddress::V4 { ip: 0x0102_0304, port: 5555 };

fn attr(out: &mut Vec<u8>, kind: u16, value: &[u8]) {
    out.extend_from_slice(&kind.to_be_bytes());
    out.extend_from_slice(&(value.len() as u16).to_be_bytes());
    out.extend_from_slice(value);
    while out.len() % 4 != 0 {
        out.push(0);
    }
}

fn request(username: &str, password: &str, use_candidate: bool) -> Vec<u8> {
    let mut b = vec![0, 1, 0, 0, 0x21, 0x12, 0xA4, 0x42];
    b.extend_from_slice(&[7; 12]);
    attr(&mut b, 0x0006, username.as_bytes());
    if use_candidate {
        attr(&mut b, 0x0025, &[]);
    }
    let len = (b.len() - 20 + 24) as u16;
    b[2..4].copy_from_slice(&len.to_be_bytes());
    let mut mac = Hmac::<Sha1>::new_from_slice(password.as_bytes()).unwrap();
    mac.update(&b);
    let code = mac.finalize().into_bytes();
    attr(&mut b, 0x0008, &code);
    b
}

fn hub() -> RoomHub {
    let mut h = RoomHub::new();
    h.insert_room(Room::with_ssrcs(
        "r".to_string(),
        "Room".to_string(),
        Some(3),
        RoomMode::Conference,
        1,
        false,
        10,
        20,
    ));
    let p = Participant::new(
        "alice".to_string(),
        "r".to_string(),
        "pub1".to_string(),
        "pub-password".to_string(),
        "sub1".to_string(),
        "sub-password".to_string(),
        5,
    );
    h.add_participant("r", p).unwrap();
    h
}

#[test]
fn binding_request_is_answered_and_latched() {
    let mut h = hub();
    let b = request("sub1:client", "sub-password", true);
    match handle_stun(&mut h, &b, REMOTE, 99, false) {
        BindingOutcome::Answered { room: 0, seat: 0, pc, response, start_dtls } => {
            assert_eq!(pc, PcType::Subscribe);
            assert!(start_dtls);
            let m = parse(&response).unwrap();
            assert_eq!(m.msg_type, BINDING_RESPONSE);
            assert_eq!(m.transaction_id, [7; 12]);
            assert!(verify_message_integrity(&m, &ice_integrity_key("sub-password")));
            assert_eq!(
                m.get_attr(ATTR_XOR_MAPPED_ADDRESS).unwrap().value,
                &[0, 1, 0x15 ^ 0x21, 0xB3 ^ 0x12, 0x01 ^ 0x21, 0x02 ^ 0x12, 0x03 ^ 0xA4, 0x04 ^ 0x42],
            );
        }
        _ => panic!("not answered"),
    }
    assert_eq!(h.find_by_addr(&REMOTE), Some((0, 0, PcType::Subscribe)));
    assert_eq!(h.get("r").unwrap().get_participant("alice").unwrap().last_seen, 99);
}

#[test]
fn handshake_starts_once_and_only_when_nominated() {
    let mut h = hub();
    let nominated = request("pub1:client", "pub-password", true);
    assert!(matches!(
        handle_stun(&mut h, &nominated, REMOTE, 99, true),
        BindingOutcome::Answered { start_dtls: false, .. }
    ));
    let plain = request("pub1:client", "pub-password", false);
    assert!(matches!(
        handle_stun(&mut h, &plain, REMOTE, 99, false),
        BindingOutcome::Answered { start_dtls: false, .. }
    ));
}

#[test]
fn binding_requests_that_are_not_answered() {
    let mut h = hub();
    let stranger = request("nobody:client", "pub-password", true);
    assert!(matches!(handle_stun(&mut h, &stranger, REMOTE, 9, false), BindingOutcome::Unknown));
    assert!(h.find_by_addr(&REMOTE).is_none());
    // The address is taken before the integrity is looked at.
    let wrong = request("pub1:client", "other", true);
    assert!(matches!(
        handle_stun(&mut h, &wrong, REMOTE, 9, false),
        BindingOutcome::Mismatch { room: 0, seat: 0, pc: PcType::Publish }
    ));
    assert!(h.find_by_addr(&REMOTE).is_some());
    let mut response = request("pub1:client", "pub-password", true);
    response[0] = 1;
    assert!(matches!(handle_stun(&mut h, &response, REMOTE, 9, false), BindingOutcome::Ignored));
    assert!(matches!(handle_stun(&mut h, &[0; 8], REMOTE, 9, false), BindingOutcome::Ignored));
}

#[test]
fn keys_make_a_connection_ready() {
    let mut h = hub();
    let keys = SrtpKeyMaterial {
        client_key: vec![1; 16],
        client_salt: vec![2; 14],
        server_key: vec![3; 16],
        server_salt: vec![4; 14],
    };
    assert!(!h.get("r").unwrap().get_participant("alice").unwrap().is_publish_ready());
    assert!(install_keys(&mut h, "r", "alice", PcType::Publish, &keys));
    assert!(!install_keys(&mut h, "r", "bob", PcType::Publish, &keys));
    assert!(!install_keys(&mut h, "gone", "alice", PcType::Publish, &keys));
    let p = h.slots[0].as_mut().unwrap().slots[0].as_mut().unwrap();
    assert!(p.is_publish_ready() && !p.is_subscribe_ready());
    // Inbound is what the client encrypts.
    let mut client = SrtpContext::new();
    client.install_key(&[1; 16], &[2; 14]);
    let rtcp = [0x80, 201, 0, 1, 0, 0, 0, 9];
    let sealed = client.encrypt_rtcp(&rtcp).unwrap();
    assert_eq!(sealed.len(), 22);
    assert_ne!(&sealed[..8], &[0; 8]);
    assert_eq!(p.publish.inbound_srtp.decrypt_rtcp(&sealed).unwrap(), rtcp);
    assert!(p.publish.outbound_srtp.decrypt_rtcp(&sealed).is_err());
}

#[test]
fn keys_of_the_wrong_length_are_not_taken() {
    let mut c = SrtpContext::new();
    c.install_key(&[1; 15], &[2; 14]);
    assert!(!c.is_ready());
    c.install_key(&[1; 16], &[2; 13]);
    assert!(!c.is_ready());
}

#[test]
fn encryption_errors_have_texts() {
    let mut c = SrtpContext::new();
    assert_eq!(c.encrypt_rtcp(&[0; 8]).unwrap_err().message(), "SRTP key not installed");
    c.install_key(&[1; 16], &[2; 14]);
    let short = c.encrypt_rtcp(&[0x80, 200, 0, 0]).unwrap_err();
    assert!(matches!(&short, SrtpError::EncryptFailed(_)));
    assert!(short.message().starts_with("SRTP encrypt failed: "));
    let forged = c.decrypt_rtp(&[0x80; 30]);
    assert!(matches!(&forged, Err(SrtpError::DecryptFailed(_))));
    assert!(forged.unwrap_err().message().starts_with("SRTP decrypt failed: "));
}

#[test]
fn packets_of_one_stream_decrypt_in_order() {
    let (mut out, mut inn) = (SrtpContext::new(), SrtpContext::new());
    out.install_key(&[1; 16], &[2; 14]);
    inn.install_key(&[1; 16], &[2; 14]);
    // The sequence numbers wrap.
    for seq in [65_534u16, 65_535, 0, 1] {
        let mut p = vec![0x80, 96];
        p.extend_from_slice(&seq.to_be_bytes());
        p.extend_from_slice(&[0, 0, 0, 1, 0, 0, 0, 2, 9, 8, 7]);
        let sealed = out.encrypt_rtp(&p).unwrap();
        assert_eq!(sealed.len(), p.len() + 10);
        assert_eq!(&sealed[..12], &p[..12]);
        assert_ne!(&sealed[12..15], &p[12..15]);
        assert_eq!(inn.decrypt_rtp(&sealed).unwrap(), p);
    }
}

#[test]
fn packets_that_the_cipher_cannot_take() {
    assert!(!can_decrypt_rtcp(&[0x80, 200, 0, 0, 1, 2]));
    assert!(can_decrypt_rtcp(&[0x80; 14]));
    // An element of the header extension that reaches behind the packet.
    let mut p = vec![0x90, 96, 0, 1, 0, 0, 0, 1, 0, 0, 0, 2, 0xBE, 0xDE, 0, 1];
    p.extend_from_slice(&[0x1F, 1, 2, 3]);
    assert!(!can_encrypt_rtp(&p));
    p[16] = 0x12;
    assert!(can_encrypt_rtp(&p));
}
