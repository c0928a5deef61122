//! The media path: what comes in, what goes out, and to whom.

use oxlens_sfu::config::{self, RoomMode};
use oxlens_sfu::room::hub::RoomHub;
use oxlens_sfu::room::participant::{EgressPacket, PcType, TrackKind};
use oxlens_sfu::room::room::Room;
use oxlens_sfu::signaling::effect::{Effect, PliSchedule};
use oxlens_sfu::signaling::handler::floor_ops::{handle_floor_request_at, FloorTimes};
use oxlens_sfu::signaling::handler::room_ops::{handle_room_join_with, ServerInfo};
use oxlens_sfu::signaling::handler::track_ops::{handle_publish_tracks, handle_subscribe_layer};
use oxlens_sfu::signaling::message::{
    FloorRequestMsg, Packet, Payload, PublishTrackItem, PublishTracksRequest, RoomJoinRequest,
    SubscribeLayerRequest, SubscribeLayerTarget,
};
use oxlens_sfu::signaling::opcode;
use oxlens_sfu::signaling::session::Session;
use oxlens_sfu::transport::addr::SocketAddress;
use oxlens_sfu::transport::dtls::{install_keys, SrtpKeyMaterial};
use oxlens_sfu::transport::ice::IceCredentials;
use oxlens_sfu::transport::srtp::SrtpContext;
use oxlens_sfu::transport::udp::egress::{
    notify_publisher, notify_publishers, report_to_publisher, seal_egress, PublisherNote,
};
use oxlens_sfu::transport::udp::fanout::Fanout;
use oxlens_sfu::transport::udp::ingress::{
    audio_gap, handle_srtp, is_rtcp, note_relay, note_report, MediaOutcome,
};
use oxlens_sfu::transport::udp::rtcp::{
    build_mbcp_app, build_pli, encode_remb_bitrate, parse_mbcp_app, parse_rtp_header,
};

const NOW: u64 = 1_700_000_000_000;

/// A participant as the client sees itself.
struct Client {
    user: String,
    session: Session,
    pub_addr: SocketAddress,
    sub_addr: SocketAddress,
    /// What the client sends on the publishing connection, and receives there.
    pub_out: SrtpContext,
    pub_in: SrtpContext,
    sub_out: SrtpContext,
    sub_in: SrtpContext,
}

fn server() -> ServerInfo {
    ServerInfo {
        public_ip: "192.0.2.1".to_string(),
        udp_port: 19740,
        fingerprint: "sha-256 00".to_string(),
        bwe_mode: config::BweMode::Twcc,
        max_bitrate_bps: 500_000,
    }
}

fn hub(mode: RoomMode, simulcast: bool) -> RoomHub {
    let mut hub = RoomHub::new();
    hub.insert_room(Room::with_ssrcs(
        "r1".to_string(),
        "Room".to_string(),
        Some(10),
        mode,
        1,
        simulcast,
        0xA0A0_A0A0,
        0xB0B0_B0B0,
    ));
    hub
}

fn keys(n: u8) -> SrtpKeyMaterial {
    SrtpKeyMaterial {
        client_key: vec![n; 16],
        client_salt: vec![n; 14],
        server_key: vec![n + 100; 16],
        server_salt: vec![n + 100; 14],
    }
}

fn contexts(n: u8) -> (SrtpContext, SrtpContext) {
    let k = keys(n);
    let mut out = SrtpContext::new();
    out.install_key(&k.client_key, &k.client_salt);
    let mut inn = SrtpContext::new();
    inn.install_key(&k.server_key, &k.server_salt);
    (out, inn)
}

fn enter(hub: &mut RoomHub, user: &str) -> Session {
    let mut session = Session::new();
    session.user_id = Some(user.to_string());
    let pub_ice = IceCredentials { ufrag: format!("p{}", user), pwd: format!("pp{}", user) };
    let sub_ice = IceCredentials { ufrag: format!("s{}", user), pwd: format!("sp{}", user) };
    let req = RoomJoinRequest { room_id: "r1".to_string() };
    let o = handle_room_join_with(
        &mut session, hub, 1, &req, &server(), &pub_ice, &sub_ice, NOW,
    ).unwrap();
    assert_eq!(o.reply.ok, Some(true));
    session
}

fn join(hub: &mut RoomHub, user: &str, n: u8) -> Client {
    let session = enter(hub, user);
    let pub_addr = SocketAddress::V4 { ip: 0x0A00_0000 + n as u32, port: 5000 };
    let sub_addr = SocketAddress::V4 { ip: 0x0A00_0000 + n as u32, port: 6000 };
    assert!(hub.latch_by_ufrag(&format!("p{}", user), pub_addr).is_some());
    assert!(hub.latch_by_ufrag(&format!("s{}", user), sub_addr).is_some());
    assert!(install_keys(hub, "r1", user, PcType::Publish, &keys(n)));
    assert!(install_keys(hub, "r1", user, PcType::Subscribe, &keys(n + 50)));
    let (pub_out, pub_in) = contexts(n);
    let (sub_out, sub_in) = contexts(n + 50);
    Client { user: user.to_string(), session, pub_addr, sub_addr, pub_out, pub_in, sub_out, sub_in }
}

fn publish(hub: &mut RoomHub, c: &Client, tracks: &[(&str, u32, Option<&str>)]) -> Vec<Effect> {
    let req = PublishTracksRequest {
        tracks: tracks.iter().map(|(kind, ssrc, rid)| PublishTrackItem {
            kind: kind.to_string(),
            ssrc: *ssrc,
            rid: rid.map(|r| r.to_string()),
        }).collect(),
        twcc_extmap_id: None,
    };
    handle_publish_tracks(&c.session, hub, 2, &req).unwrap().effects
}

fn seat(hub: &RoomHub, user: &str) -> usize {
    hub.get("r1").unwrap().slot_of(user).unwrap()
}

fn rtp(pt: u8, seq: u16, ts: u32, ssrc: u32, payload: &[u8]) -> Vec<u8> {
    let mut p = vec![0x80, pt];
    p.extend_from_slice(&seq.to_be_bytes());
    p.extend_from_slice(&ts.to_be_bytes());
    p.extend_from_slice(&ssrc.to_be_bytes());
    p.extend_from_slice(payload);
    p
}

fn sender_report(ssrc: u32) -> Vec<u8> {
    let mut p = vec![0x80, 200, 0, 6];
    p.extend_from_slice(&ssrc.to_be_bytes());
    p.extend_from_slice(&[1, 2, 3, 4, 5, 6, 7, 8]);
    p.extend_from_slice(&777u32.to_be_bytes());
    p.extend_from_slice(&9u32.to_be_bytes());
    p.extend_from_slice(&99u32.to_be_bytes());
    p
}

fn nack(media: u32, pid: u16, blp: u16) -> Vec<u8> {
    let mut p = vec![0x81, 205, 0, 3, 0, 0, 0, 1];
    p.extend_from_slice(&media.to_be_bytes());
    p.extend_from_slice(&pid.to_be_bytes());
    p.extend_from_slice(&blp.to_be_bytes());
    p
}

fn send(hub: &mut RoomHub, c: &mut Client, plain: &[u8]) -> MediaOutcome {
    let sealed = c.pub_out.encrypt_rtp(plain).unwrap();
    handle_srtp(hub, &sealed, c.pub_addr, NOW, &vec![]).outcome
}

fn send_rtcp(hub: &mut RoomHub, c: &mut Client, plain: &[u8]) -> MediaOutcome {
    let sealed = c.pub_out.encrypt_rtcp(plain).unwrap();
    handle_srtp(hub, &sealed, c.pub_addr, NOW, &vec![]).outcome
}

fn feed_back(hub: &mut RoomHub, c: &mut Client, plain: &[u8]) -> MediaOutcome {
    let sealed = c.sub_out.encrypt_rtcp(plain).unwrap();
    handle_srtp(hub, &sealed, c.sub_addr, NOW, &vec![]).outcome
}

fn take_floor(hub: &mut RoomHub, user: &str) {
    let t = FloorTimes { now_ms: NOW, audio_idle_ms: 0, video_idle_ms: 0 };
    let req = FloorRequestMsg { room_id: "r1".to_string(), priority: None };
    let o = handle_floor_request_at(hub, user, 3, &req, t);
    assert_eq!(o.reply.ok, Some(true));
}

// --- opening ---

#[test]
fn rtcp_is_told_by_its_payload_type() {
    assert!(is_rtcp(&[0x80, 200]));
    assert!(is_rtcp(&[0x80, 72]));
    assert!(is_rtcp(&[0x80, 79]));
    assert!(!is_rtcp(&[0x80, 71]));
    assert!(!is_rtcp(&[0x80, 80]));
    assert!(!is_rtcp(&[0x80]));
}

#[test]
fn packet_from_nowhere_is_unknown() {
    let mut h = hub(RoomMode::Conference, false);
    let r = handle_srtp(
        &mut h, &[0x80, 111, 0, 0], SocketAddress::V4 { ip: 1, port: 1 }, NOW, &vec![],
    );
    assert!(r.sender.is_none());
    assert!(matches!(r.outcome, MediaOutcome::Unknown));
}

#[test]
fn packet_before_the_handshake_is_not_ready() {
    let mut h = hub(RoomMode::Conference, false);
    enter(&mut h, "alice");
    let addr = SocketAddress::V4 { ip: 7, port: 7 };
    h.latch_by_ufrag("palice", addr).unwrap();
    let r = handle_srtp(&mut h, &rtp(111, 1, 1, 1, &[0; 20]), addr, NOW + 5, &vec![]);
    assert!(matches!(r.outcome, MediaOutcome::NotReady));
    let i = seat(&h, "alice");
    assert_eq!(h.get("r1").unwrap().slots[i].as_ref().unwrap().last_seen, NOW + 5);
}

#[test]
fn packet_under_other_keys_fails() {
    let mut h = hub(RoomMode::Conference, false);
    let alice = join(&mut h, "alice", 1);
    let (mut other, _) = contexts(9);
    let sealed = other.encrypt_rtp(&rtp(111, 1, 1, 1, &[1, 2, 3])).unwrap();
    let r = handle_srtp(&mut h, &sealed, alice.pub_addr, NOW, &vec![]);
    assert!(matches!(r.outcome, MediaOutcome::Failed(_)));
}

#[test]
fn media_on_the_receiving_connection_is_refused() {
    let mut h = hub(RoomMode::Conference, false);
    let alice = join(&mut h, "alice", 1);
    let r = handle_srtp(&mut h, &rtp(111, 1, 1, 1, &[1, 2, 3]), alice.sub_addr, NOW, &vec![]);
    assert!(matches!(r.outcome, MediaOutcome::NotRtcp));
}

#[test]
fn cut_off_rtcp_is_malformed() {
    let mut h = hub(RoomMode::Conference, false);
    let alice = join(&mut h, "alice", 1);
    let r = handle_srtp(&mut h, &[0x80, 200, 0, 0, 1, 2], alice.pub_addr, NOW, &vec![]);
    assert!(matches!(r.outcome, MediaOutcome::Malformed));
}

#[test]
fn long_pauses_in_audio_are_noted() {
    assert_eq!(audio_gap(0, 9_000_000), None);
    assert_eq!(audio_gap(1_000_000, 1_040_999), None);
    assert_eq!(audio_gap(1_000_000, 1_041_000), Some(41));
    assert_eq!(audio_gap(2_000_000, 1_000_000), None);
}

// --- conference ---

#[test]
fn conference_media_goes_to_all_others_who_are_ready() {
    let mut h = hub(RoomMode::Conference, false);
    let mut alice = join(&mut h, "alice", 1);
    join(&mut h, "bob", 2);
    enter(&mut h, "carol");
    let plain = rtp(111, 7, 960, 0x1111, &[1, 2, 3]);
    match send(&mut h, &mut alice, &plain) {
        MediaOutcome::Media(r) => {
            assert_eq!(r.header.seq, 7);
            assert_eq!(r.to, vec![seat(&h, "bob")]);
            assert!(matches!(r.outcome, Fanout::Plain(b) if b == plain));
            assert!(r.layers.forwards.is_empty());
        }
        _ => panic!("no media"),
    }
    let i = seat(&h, "alice");
    let p = h.get("r1").unwrap().slots[i].as_ref().unwrap();
    assert_eq!(p.pipeline.pub_rtp_in, 1);
    assert_eq!(p.recv_stats.len(), 1);
}

#[test]
fn retransmissions_are_not_counted_as_received() {
    let mut h = hub(RoomMode::Conference, false);
    let mut alice = join(&mut h, "alice", 1);
    send(&mut h, &mut alice, &rtp(97, 1, 1, 0x2222, &[0, 5, 1]));
    send(&mut h, &mut alice, &rtp(103, 1, 1, 0x3333, &[0, 5, 1]));
    let i = seat(&h, "alice");
    assert!(h.get("r1").unwrap().slots[i].as_ref().unwrap().recv_stats.is_empty());
}

#[test]
fn lost_video_is_sent_again() {
    let mut h = hub(RoomMode::Conference, false);
    let mut alice = join(&mut h, "alice", 1);
    let mut bob = join(&mut h, "bob", 2);
    publish(&mut h, &alice, &[("video", 0x3000, None)]);
    send(&mut h, &mut alice, &rtp(96, 5, 100, 0x3000, &[0x10, 0x00, 9, 9]));
    send(&mut h, &mut alice, &rtp(96, 7, 100, 0x3000, &[0x10, 0x01, 8]));
    match feed_back(&mut h, &mut bob, &nack(0x3000, 5, 0b11)) {
        MediaOutcome::SubscriberRtcp(r) => {
            assert_eq!(r.answers.len(), 1);
            let a = &r.answers[0];
            // 5 and 7 are in the cache, 6 is not.
            assert_eq!(a.counts.seqs_requested, 3);
            assert_eq!(a.counts.cache_miss, 1);
            assert_eq!(a.counts.rtx_sent, 2);
            assert_eq!(a.packets.len(), 2);
            let first = &a.packets[0];
            assert_eq!(first[1] & 0x7F, 97);
            assert_eq!(&first[2..4], &[0, 0]);
            assert_eq!(&first[8..12], &(0x3000u32 + 1000).to_be_bytes());
            assert_eq!(&first[12..14], &[0, 5]);
            assert_eq!(&first[14..], &[0x10, 0x00, 9, 9]);
            assert_eq!(&a.packets[1][2..4], &[0, 1]);
        }
        _ => panic!("no feedback"),
    }
    let i = seat(&h, "bob");
    assert_eq!(h.get("r1").unwrap().slots[i].as_ref().unwrap().rtx_budget_used, 2);
}

#[test]
fn nack_about_an_unknown_source_is_counted() {
    let mut h = hub(RoomMode::Conference, false);
    let mut bob = join(&mut h, "bob", 2);
    match feed_back(&mut h, &mut bob, &nack(0x9999, 5, 0)) {
        MediaOutcome::SubscriberRtcp(r) => {
            assert_eq!(r.answers[0].counts.publisher_not_found, 1);
            assert!(r.answers[0].packets.is_empty());
        }
        _ => panic!("no feedback"),
    }
}

#[test]
fn key_frame_request_reaches_its_publisher() {
    let mut h = hub(RoomMode::Conference, false);
    let mut alice = join(&mut h, "alice", 1);
    let mut bob = join(&mut h, "bob", 2);
    publish(&mut h, &alice, &[("video", 0x3000, None)]);
    let pli = build_pli(0x3000);
    match feed_back(&mut h, &mut bob, &pli) {
        MediaOutcome::SubscriberRtcp(r) => {
            assert_eq!(r.feedback.len(), 1);
            let f = r.feedback[0].as_ref().unwrap();
            assert_eq!(f.publisher, seat(&h, "alice"));
            assert_eq!(f.addr, alice.pub_addr);
            assert_eq!(f.plis, 1);
            assert_eq!(alice.pub_in.decrypt_rtcp(&f.packet).unwrap(), pli.to_vec());
        }
        _ => panic!("no feedback"),
    }
}

#[test]
fn receiver_reports_end_at_the_server() {
    let mut h = hub(RoomMode::Conference, false);
    let alice = join(&mut h, "alice", 1);
    let mut bob = join(&mut h, "bob", 2);
    publish(&mut h, &alice, &[("video", 0x3000, None)]);
    let mut rr = vec![0x81, 201, 0, 7, 0, 0, 0, 2];
    rr.extend_from_slice(&0x3000u32.to_be_bytes());
    rr.extend_from_slice(&[0; 20]);
    match feed_back(&mut h, &mut bob, &rr) {
        MediaOutcome::SubscriberRtcp(r) => {
            assert_eq!(r.reports, 1);
            assert!(r.feedback.is_empty());
            assert!(r.answers.is_empty());
        }
        _ => panic!("no feedback"),
    }
}

#[test]
fn conference_reports_keep_source_and_time() {
    let mut h = hub(RoomMode::Conference, false);
    let mut alice = join(&mut h, "alice", 1);
    join(&mut h, "bob", 2);
    publish(&mut h, &alice, &[("audio", 0x1111, None)]);
    let sr = sender_report(0x1111);
    match send_rtcp(&mut h, &mut alice, &sr) {
        MediaOutcome::PublisherRtcp(r) => {
            assert_eq!(r.out.len(), 1);
            assert_eq!(r.out[0].0, seat(&h, "bob"));
            let v = &r.out[0].1;
            assert_eq!(&v[..20], &sr[..20]);
            // Bob was sent nothing yet.
            assert_eq!(&v[20..28], &[0; 8]);
        }
        _ => panic!("no report"),
    }
}

// --- push-to-talk ---

#[test]
fn only_the_speaker_is_heard() {
    let mut h = hub(RoomMode::Ptt, false);
    let mut alice = join(&mut h, "alice", 1);
    join(&mut h, "bob", 2);
    let plain = rtp(111, 7, 960, 0x1111, &[1, 2, 3]);
    match send(&mut h, &mut alice, &plain) {
        MediaOutcome::Media(r) => {
            assert!(matches!(r.outcome, Fanout::Gated));
            assert!(r.to.is_empty());
        }
        _ => panic!("no media"),
    }
    take_floor(&mut h, "alice");
    match send(&mut h, &mut alice, &rtp(111, 8, 1920, 0x1111, &[1, 2, 3])) {
        MediaOutcome::Media(r) => {
            assert_eq!(r.to, vec![seat(&h, "bob")]);
            match r.outcome {
                Fanout::Rewritten(b) => {
                    assert_eq!(parse_rtp_header(&b).ssrc, 0xA0A0_A0A0);
                    assert_eq!(&b[12..], &[1, 2, 3]);
                }
                _ => panic!("not rewritten"),
            }
        }
        _ => panic!("no media"),
    }
    let i = seat(&h, "alice");
    let p = h.get("r1").unwrap().slots[i].as_ref().unwrap();
    assert_eq!(p.pipeline.pub_rtp_gated, 1);
    assert_eq!(p.pipeline.pub_rtp_rewritten, 1);
}

#[test]
fn video_waits_for_a_key_frame() {
    let mut h = hub(RoomMode::Ptt, false);
    let mut alice = join(&mut h, "alice", 1);
    take_floor(&mut h, "alice");
    match send(&mut h, &mut alice, &rtp(96, 1, 1, 0x3000, &[0x10, 0x01, 1])) {
        MediaOutcome::Media(r) => assert!(matches!(r.outcome, Fanout::PendingKeyframe)),
        _ => panic!("no media"),
    }
    match send(&mut h, &mut alice, &rtp(96, 2, 1, 0x3000, &[0x10, 0x00, 1])) {
        MediaOutcome::Media(r) => match r.outcome {
            Fanout::Rewritten(b) => assert_eq!(parse_rtp_header(&b).ssrc, 0xB0B0_B0B0),
            _ => panic!("not rewritten"),
        },
        _ => panic!("no media"),
    }
}

#[test]
fn floor_is_asked_for_on_the_media_connection() {
    let mut h = hub(RoomMode::Ptt, false);
    let mut alice = join(&mut h, "alice", 1);
    publish(&mut h, &alice, &[("video", 0x3000, None)]);
    let freq = build_mbcp_app(config::MBCP_SUBTYPE_FREQ, 0x1111, None);
    match send_rtcp(&mut h, &mut alice, &freq) {
        MediaOutcome::PublisherRtcp(r) => {
            assert_eq!(r.counts.granted, 1);
            assert_eq!(r.effects.len(), 3);
            assert!(matches!(&r.effects[0], Effect::PliBurst { user_id, ssrc: 0x3000, schedule, .. }
                if user_id == "alice" && *schedule == PliSchedule::Floor));
            match &r.effects[1] {
                Effect::RtcpToRoom { packet } => {
                    let m = parse_mbcp_app(packet).unwrap();
                    assert_eq!(m.subtype, config::MBCP_SUBTYPE_FTKN);
                    assert_eq!(m.data.as_deref(), Some("alice"));
                }
                _ => panic!("no notice"),
            }
            assert!(matches!(&r.effects[2], Effect::ToRoom { packet: Packet {
                op: opcode::FLOOR_TAKEN, d: Payload::FloorTaken { speaker, priority: 0, .. }, ..
            } } if speaker == "alice"));
        }
        _ => panic!("no rtcp"),
    }
    assert_eq!(h.get("r1").unwrap().floor.current_speaker().as_deref(), Some("alice"));
    let frel = build_mbcp_app(config::MBCP_SUBTYPE_FREL, 0x1111, None);
    match send_rtcp(&mut h, &mut alice, &frel) {
        MediaOutcome::PublisherRtcp(r) => {
            assert_eq!(r.counts.released, 1);
            match &r.effects[0] {
                Effect::RtcpToRoom { packet } => {
                    let m = parse_mbcp_app(packet).unwrap();
                    assert_eq!(m.subtype, config::MBCP_SUBTYPE_FIDL);
                }
                _ => panic!("no notice"),
            }
        }
        _ => panic!("no rtcp"),
    }
    assert!(h.get("r1").unwrap().floor.current_speaker().is_none());
}

#[test]
fn who_has_to_wait_is_told_so_on_the_media_connection() {
    let mut h = hub(RoomMode::Ptt, false);
    let mut alice = join(&mut h, "alice", 1);
    let mut bob = join(&mut h, "bob", 2);
    let freq = build_mbcp_app(config::MBCP_SUBTYPE_FREQ, 0, None);
    send_rtcp(&mut h, &mut alice, &freq);
    match feed_back(&mut h, &mut bob, &freq) {
        MediaOutcome::SubscriberRtcp(r) => match &r.effects[0] {
            Effect::RtcpToUser { user_id, packet } => {
                assert_eq!(user_id, "bob");
                let m = parse_mbcp_app(packet).unwrap();
                assert_eq!(m.subtype, config::MBCP_SUBTYPE_FRVK);
                assert_eq!(m.data.as_deref(), Some("queued: pos=1 pri=0 size=1"));
            }
            _ => panic!("no notice"),
        },
        _ => panic!("no feedback"),
    }
}

#[test]
fn floor_control_outside_of_push_to_talk_is_ignored() {
    let mut h = hub(RoomMode::Conference, false);
    let mut alice = join(&mut h, "alice", 1);
    let freq = build_mbcp_app(config::MBCP_SUBTYPE_FREQ, 0, None);
    match send_rtcp(&mut h, &mut alice, &freq) {
        MediaOutcome::PublisherRtcp(r) => {
            assert!(r.effects.is_empty());
            assert!(r.out.is_empty());
        }
        _ => panic!("no rtcp"),
    }
}

#[test]
fn push_to_talk_relays_no_reports() {
    let mut h = hub(RoomMode::Ptt, false);
    let mut alice = join(&mut h, "alice", 1);
    join(&mut h, "bob", 2);
    take_floor(&mut h, "alice");
    match send_rtcp(&mut h, &mut alice, &sender_report(0x1111)) {
        MediaOutcome::PublisherRtcp(r) => assert!(r.out.is_empty()),
        _ => panic!("no rtcp"),
    }
}

// --- simulcast ---

#[test]
fn each_subscriber_gets_the_layer_that_they_chose() {
    let mut h = hub(RoomMode::Conference, true);
    let mut alice = join(&mut h, "alice", 1);
    let bob = join(&mut h, "bob", 2);
    publish(&mut h, &alice, &[("video", 0x3000, Some("h")), ("video", 0x4000, Some("l"))]);
    let choice = SubscribeLayerRequest {
        targets: vec![SubscribeLayerTarget { user_id: "alice".to_string(), rid: "l".to_string() }],
    };
    let o = handle_subscribe_layer(&bob.session, &mut h, 5, &choice).unwrap();
    assert!(matches!(&o.effects[0], Effect::PliBurst { user_id, ssrc: 0x4000, schedule, .. }
        if user_id == "alice" && *schedule == PliSchedule::Layer));
    let i = seat(&h, "alice");
    let vssrc = h.get("r1").unwrap().slots[i].as_ref().unwrap().simulcast_video_ssrc;
    assert_ne!(vssrc, 0);
    match send(&mut h, &mut alice, &rtp(96, 1, 1, 0x3000, &[0x10, 0x00, 1])) {
        MediaOutcome::Media(r) => assert!(r.layers.forwards.is_empty()),
        _ => panic!("no media"),
    }
    match send(&mut h, &mut alice, &rtp(96, 1, 1, 0x4000, &[0x10, 0x00, 2])) {
        MediaOutcome::Media(r) => {
            assert_eq!(r.layers.forwards.len(), 1);
            assert_eq!(r.layers.forwards[0].0, seat(&h, "bob"));
            let b = &r.layers.forwards[0].1;
            assert_eq!(parse_rtp_header(b).ssrc, vssrc);
            assert_eq!(&b[12..], &[0x10, 0x00, 2]);
            assert!(r.to.is_empty());
        }
        _ => panic!("no media"),
    }
    match send_rtcp(&mut h, &mut alice, &sender_report(0x4000)) {
        MediaOutcome::PublisherRtcp(r) => {
            assert_eq!(&r.out[0].1[4..8], &vssrc.to_be_bytes());
        }
        _ => panic!("no rtcp"),
    }
}

#[test]
fn whoever_chose_nothing_gets_the_high_layer() {
    let mut h = hub(RoomMode::Conference, true);
    let mut alice = join(&mut h, "alice", 1);
    join(&mut h, "bob", 2);
    publish(&mut h, &alice, &[("video", 0x3000, Some("h")), ("video", 0x4000, Some("l"))]);
    match send(&mut h, &mut alice, &rtp(96, 1, 1, 0x3000, &[0x10, 0x01, 1])) {
        MediaOutcome::Media(r) => {
            assert!(r.layers.forwards.is_empty());
            assert_eq!(r.layers.pli, Some((0x3000, alice.pub_addr)));
        }
        _ => panic!("no media"),
    }
    match send(&mut h, &mut alice, &rtp(96, 2, 1, 0x3000, &[0x10, 0x00, 1])) {
        MediaOutcome::Media(r) => assert_eq!(r.layers.forwards.len(), 1),
        _ => panic!("no media"),
    }
}

#[test]
fn key_frame_that_does_not_come_is_asked_for_again() {
    let mut h = hub(RoomMode::Conference, true);
    let mut alice = join(&mut h, "alice", 1);
    join(&mut h, "bob", 2);
    publish(&mut h, &alice, &[("video", 0x3000, Some("h")), ("video", 0x4000, Some("l"))]);
    let bob = seat(&h, "bob");
    let mut asked = |h: &mut RoomHub, seq: u16, ssrc: u32, payload: &[u8], retry: &Vec<bool>| {
        let sealed = alice.pub_out.encrypt_rtp(&rtp(96, seq, 1, ssrc, payload)).unwrap();
        match handle_srtp(h, &sealed, alice.pub_addr, NOW, retry).outcome {
            MediaOutcome::Media(r) => {
                assert_eq!(r.layers.pli.is_some(), !r.layers.asking.is_empty());
                r.layers.asking
            }
            _ => panic!("no media"),
        }
    };
    let again = vec![true; 2];
    // At the beginning, and then when it is time, but for the chosen layer only.
    assert_eq!(asked(&mut h, 1, 0x3000, &[0x10, 0x01], &vec![]), vec![bob]);
    assert!(asked(&mut h, 2, 0x3000, &[0x10, 0x01], &vec![]).is_empty());
    assert!(asked(&mut h, 1, 0x4000, &[0x10, 0x01], &again).is_empty());
    assert_eq!(asked(&mut h, 3, 0x3000, &[0x10, 0x01], &again), vec![bob]);
    // Not any more once it has come.
    assert!(asked(&mut h, 4, 0x3000, &[0x10, 0x00], &again).is_empty());
    assert!(asked(&mut h, 5, 0x3000, &[0x10, 0x01], &again).is_empty());
}

#[test]
fn only_reports_on_video_call_for_a_virtual_source() {
    let mut h = hub(RoomMode::Conference, true);
    let mut alice = join(&mut h, "alice", 1);
    publish(&mut h, &alice, &[("audio", 0x1111, None)]);
    let vssrc = |h: &RoomHub| h.get("r1").unwrap().get_participant("alice").unwrap().simulcast_video_ssrc;
    send_rtcp(&mut h, &mut alice, &sender_report(0x1111));
    assert_eq!(vssrc(&h), 0);
    let p = h.slots[0].as_mut().unwrap().slots[0].as_mut().unwrap();
    p.add_track(0x3000, TrackKind::Video, "v".to_string());
    // Nobody is there to receive it.
    send_rtcp(&mut h, &mut alice, &sender_report(0x3000));
    assert_eq!(vssrc(&h), 0);
    join(&mut h, "bob", 2);
    h.slots[0].as_mut().unwrap().slots[0].as_mut().unwrap().simulcast_video_ssrc = 0;
    send_rtcp(&mut h, &mut alice, &sender_report(0x1111));
    assert_eq!(vssrc(&h), 0);
    send_rtcp(&mut h, &mut alice, &sender_report(0x3000));
    assert_ne!(vssrc(&h), 0);
}

// --- going out ---

#[test]
fn packets_for_a_subscriber_are_counted_and_encrypted() {
    let mut h = hub(RoomMode::Conference, false);
    let mut bob = join(&mut h, "bob", 2);
    let i = seat(&h, "bob");
    let plain = rtp(96, 5, 4242, 0x3000, &[1, 2, 3, 4, 5]);
    let room = h.slots[0].as_mut().unwrap();
    let p = room.slots[i].as_mut().unwrap();
    let (to, sealed) = seal_egress(p, &EgressPacket::Rtp(plain.clone())).unwrap();
    assert_eq!(to, bob.sub_addr);
    assert_eq!(bob.sub_in.decrypt_rtp(&sealed).unwrap(), plain);
    assert_eq!(p.send_stats.len(), 1);
    assert_eq!(p.send_stats[0].packets_sent, 1);
    assert_eq!(p.send_stats[0].bytes_sent, 5);
    assert_eq!(p.send_stats[0].last_rtp_ts, 4242);
    assert_eq!(p.send_stats[0].clock_rate, 90_000);
    // A retransmission is not counted.
    seal_egress(p, &EgressPacket::Rtp(rtp(97, 5, 1, 0x4000, &[0, 5, 1]))).unwrap();
    assert_eq!(p.send_stats.len(), 1);
    let pli = build_pli(7).to_vec();
    let (_, sealed) = seal_egress(p, &EgressPacket::Rtcp(pli.clone())).unwrap();
    assert_eq!(bob.sub_in.decrypt_rtcp(&sealed).unwrap(), pli);
    note_relay(p, true);
    note_relay(p, false);
    note_report(p);
    assert_eq!(p.pipeline.sub_rtp_relayed, 1);
    assert_eq!(p.pipeline.sub_rtp_dropped, 1);
    assert_eq!(p.pipeline.sub_sr_relayed, 1);
    assert_eq!(bob.user, "bob");
}

#[test]
fn header_extension_is_no_payload() {
    let mut h = hub(RoomMode::Conference, false);
    join(&mut h, "bob", 2);
    let p = h.slots[0].as_mut().unwrap().slots[0].as_mut().unwrap();
    let mut plain = rtp(111, 5, 1, 0x1111, &[0xBE, 0xDE, 0, 1, 0x10, 0xAA, 0, 0, 7, 7, 7]);
    plain[0] = 0x90;
    seal_egress(p, &EgressPacket::Rtp(plain)).unwrap();
    assert_eq!(p.send_stats[0].bytes_sent, 3);
    assert_eq!(p.send_stats[0].clock_rate, 48_000);
}

#[test]
fn publishers_are_reported_to() {
    let mut h = hub(RoomMode::Conference, false);
    let mut alice = join(&mut h, "alice", 1);
    for k in 0..4u16 {
        send(&mut h, &mut alice, &rtp(111, 10 + k, k as u32 * 960, 0x1111, &[1]));
    }
    send(&mut h, &mut alice, &rtp(111, 16, 960 * 6, 0x1111, &[1]));
    let p = h.slots[0].as_mut().unwrap().slots[0].as_mut().unwrap();
    let r = report_to_publisher(p, &vec![33]).unwrap();
    assert_eq!(r.addr, alice.pub_addr);
    assert_eq!(r.blocks.len(), 1);
    assert_eq!(r.blocks[0].ssrc, 0x1111);
    assert_eq!(r.blocks[0].cumulative_lost, 2);
    assert_eq!(r.blocks[0].extended_highest_seq, 16);
    assert_eq!(r.blocks[0].jitter, 33);
    let plain = alice.pub_in.decrypt_rtcp(&r.packet.unwrap()).unwrap();
    assert_eq!(plain.len(), 32);
    assert_eq!(&plain[..8], &[0x81, 201, 0, 7, 0, 0, 0, 1]);
    assert_eq!(&plain[8..12], &0x1111u32.to_be_bytes());
}

#[test]
fn nothing_received_is_not_reported() {
    let mut h = hub(RoomMode::Conference, false);
    join(&mut h, "alice", 1);
    let p = h.slots[0].as_mut().unwrap().slots[0].as_mut().unwrap();
    assert!(report_to_publisher(p, &vec![]).is_none());
}

#[test]
fn publishers_of_video_are_told() {
    let mut h = hub(RoomMode::Conference, false);
    let mut alice = join(&mut h, "alice", 1);
    let bob = join(&mut h, "bob", 2);
    publish(&mut h, &alice, &[("video", 0x3000, None)]);
    publish(&mut h, &bob, &[("audio", 0x5000, None)]);
    let (a, b) = (seat(&h, "alice"), seat(&h, "bob"));
    let room = h.slots[0].as_mut().unwrap();
    let sent = notify_publishers(room, None, PublisherNote::Bitrate(500_000));
    assert!(sent[b].is_none());
    let (to, sealed) = sent[a].as_ref().unwrap();
    assert_eq!(*to, alice.pub_addr);
    let plain = alice.pub_in.decrypt_rtcp(sealed).unwrap();
    assert_eq!(plain.len(), 24);
    assert_eq!(&plain[..4], &[0x8F, 206, 0, 5]);
    assert_eq!(&plain[20..], &0x3000u32.to_be_bytes());
    let (exp, mantissa) = encode_remb_bitrate(500_000);
    assert_eq!((mantissa as u64) << exp, 500_000);
    let sent = notify_publishers(room, Some("alice"), PublisherNote::KeyFrame);
    assert!(sent[a].is_none());
    let p = room.slots[a].as_mut().unwrap();
    let (_, sealed) = notify_publisher(p, PublisherNote::KeyFrame).unwrap();
    assert_eq!(alice.pub_in.decrypt_rtcp(&sealed).unwrap(), build_pli(0x3000).to_vec());
}
