//! Requests, what they are answered, and what others are told.

use oxlens_sfu::config::{self, BweMode, RoomMode};
use oxlens_sfu::room::hub::RoomHub;
use oxlens_sfu::room::participant::{PcType, TrackKind};
use oxlens_sfu::room::room::{Room, RoomSeed};
use oxlens_sfu::signaling::effect::{Effect, PliSchedule};
use oxlens_sfu::signaling::handler::admin::build_rooms_snapshot;
use oxlens_sfu::signaling::handler::floor_ops::{
    handle_floor_ping, handle_floor_queue_pos, handle_floor_release_at, handle_floor_request,
    handle_floor_request_at, FloorTimes,
};
use oxlens_sfu::signaling::handler::helpers::{
    collect_subscribe_tracks, purge_subscribe_layers, server_codec_policy, server_extmap_policy,
};
use oxlens_sfu::signaling::handler::room_ops::{
    cleanup, handle_identify, handle_identify_with, handle_message, handle_message_with,
    handle_room_create, handle_room_create_with, handle_room_join, handle_room_leave,
    handle_room_list, handle_room_sync, say_farewell_at, Outcome, ServerInfo,
};
use oxlens_sfu::signaling::handler::track_ops::{
    handle_camera_ready, handle_mute_update, handle_publish_tracks, handle_subscribe_layer,
    handle_tracks_ack,
};
use oxlens_sfu::signaling::message::{
    FloorPingMsg, FloorQueuePosMsg, FloorReleaseMsg, FloorRequestMsg, IdentifyRequest,
    MessageRequest, MuteUpdateRequest, Packet, Payload, PublishTrackItem, PublishTracksRequest,
    RoomCreateRequest, RoomJoinRequest, RoomLeaveRequest, RoomModeField, SubscribeLayerRequest,
    SubscribeLayerTarget, TracksAckRequest,
};
use oxlens_sfu::signaling::opcode;
use oxlens_sfu::signaling::session::{handle_heartbeat, heartbeat_missed, Route, Session};
use oxlens_sfu::tasks::{check_floor_timers, reap};
use oxlens_sfu::transport::addr::SocketAddress;
use oxlens_sfu::transport::dtls::{install_keys, SrtpKeyMaterial};

const NOW: u64 = 1_700_000_000_000;

fn server() -> ServerInfo {
    ServerInfo {
        public_ip: "192.0.2.1".to_string(),
        udp_port: 19740,
        fingerprint: "sha-256 00".to_string(),
        bwe_mode: BweMode::Twcc,
        max_bitrate_bps: 500_000,
    }
}

fn hub_of(mode: RoomMode, simulcast: bool, capacity: usize) -> RoomHub {
    let mut hub = RoomHub::new();
    hub.insert_room(Room::with_ssrcs(
        "r1".to_string(),
        "Room".to_string(),
        Some(capacity),
        mode,
        1,
        simulcast,
        0xA0A0_A0A0,
        0xB0B0_B0B0,
    ));
    hub
}

fn user(name: &str) -> Session {
    let mut s = Session::new();
    s.user_id = Some(name.to_string());
    s
}

fn try_join(hub: &mut RoomHub, s: &mut Session) -> Outcome {
    handle_room_join(
        s, hub, 1, &RoomJoinRequest { room_id: "r1".to_string() }, &server(), NOW,
    ).unwrap()
}

fn join(hub: &mut RoomHub, name: &str) -> Session {
    let mut s = user(name);
    assert_eq!(try_join(hub, &mut s).reply.ok, Some(true));
    s
}

/// Connects the participant's publishing side.
fn connect(hub: &mut RoomHub, s: &Session, ip: u32) -> SocketAddress {
    let addr = SocketAddress::V4 { ip, port: 5000 };
    hub.latch_by_ufrag(s.pub_ufrag.as_ref().unwrap(), addr).unwrap();
    let keys = SrtpKeyMaterial {
        client_key: vec![1; 16],
        client_salt: vec![2; 14],
        server_key: vec![3; 16],
        server_salt: vec![4; 14],
    };
    assert!(install_keys(hub, "r1", s.user_id.as_ref().unwrap(), PcType::Publish, &keys));
    addr
}

fn item(kind: &str, ssrc: u32, rid: Option<&str>) -> PublishTrackItem {
    PublishTrackItem { kind: kind.to_string(), ssrc, rid: rid.map(|r| r.to_string()) }
}

fn publish(hub: &mut RoomHub, s: &Session, tracks: Vec<PublishTrackItem>) -> Outcome {
    handle_publish_tracks(s, hub, 2, &PublishTracksRequest { tracks, twcc_extmap_id: None }).unwrap()
}

fn refusal(p: &Packet) -> (u16, String) {
    assert_eq!(p.ok, Some(false));
    match &p.d {
        Payload::Error { code, msg } => (*code, msg.clone()),
        _ => panic!("no error"),
    }
}

fn refused(p: &Packet, code: u16, msg: &str) {
    assert_eq!(refusal(p), (code, msg.to_string()));
}

fn at(now_ms: u64) -> FloorTimes {
    FloorTimes { now_ms, audio_idle_ms: 0, video_idle_ms: 0 }
}

fn ask(hub: &mut RoomHub, name: &str, priority: u8, now_ms: u64) -> (Packet, Vec<Effect>) {
    let req = FloorRequestMsg { room_id: "r1".to_string(), priority: Some(priority) };
    let o = handle_floor_request_at(hub, name, 3, &req, at(now_ms));
    (o.reply, o.effects)
}

fn room(hub: &RoomHub) -> &Room {
    hub.get("r1").unwrap()
}

// --- session ---

#[test]
fn session_begins_with_hello() {
    let mut s = Session::new();
    let p = s.hello();
    assert_eq!((p.op, p.pid, p.ok), (opcode::HELLO, 1, None));
    assert!(matches!(&p.d, Payload::Hello(h) if h.heartbeat_interval == config::HEARTBEAT_INTERVAL_MS));
    assert!(!p.is_response());
    assert!(Packet::ok(1, 2, Payload::Empty).is_response());
    assert!(Packet::err(1, 2, 3, "x").is_response());
    assert_eq!(s.next_pid(), 2);
    assert!(!s.is_authenticated());
}

#[test]
fn strangers_may_only_identify() {
    let mut s = Session::new();
    assert!(matches!(s.route(opcode::HEARTBEAT, 1, None), Route::Handle));
    assert!(matches!(s.route(opcode::IDENTIFY, 1, None), Route::Handle));
    match s.route(opcode::ROOM_JOIN, 7, None) {
        Route::Refused(p) => {
            assert_eq!((p.op, p.pid), (opcode::ROOM_JOIN, 7));
            refused(&p, 1001, "not authenticated");
        }
        _ => panic!("not refused"),
    }
    let mut s = user("alice");
    assert!(matches!(s.route(opcode::ROOM_JOIN, 7, None), Route::Handle));
    match s.route(999, 7, None) {
        Route::Refused(p) => refused(&p, 3001, "invalid opcode"),
        _ => panic!("not refused"),
    }
    s.ack_miss = 4;
    assert!(matches!(s.route(opcode::ROOM_EVENT, 7, Some(false)), Route::Acknowledged));
    assert_eq!(s.ack_miss, 0);
}

#[test]
fn identity_is_taken_or_made_up() {
    let mut s = Session::new();
    let named = IdentifyRequest { token: "t".to_string(), user_id: Some("alice".to_string()) };
    let p = handle_identify(&mut s, 5, &named).unwrap();
    assert!(matches!(&p.d, Payload::Identified { user_id } if user_id == "alice"));
    assert_eq!(s.user_id.as_deref(), Some("alice"));
    let blank = IdentifyRequest { token: "t".to_string(), user_id: Some(" \t".to_string()) };
    handle_identify_with(&mut s, 5, &blank, 12_007);
    assert_eq!(s.user_id.as_deref(), Some("U007"));
    let none = IdentifyRequest { token: "t".to_string(), user_id: None };
    handle_identify_with(&mut s, 5, &none, 65_535);
    assert_eq!(s.user_id.as_deref(), Some("U535"));
}

#[test]
fn heartbeat_keeps_the_participant_alive() {
    let mut h = hub_of(RoomMode::Conference, false, 10);
    let s = join(&mut h, "alice");
    let p = handle_heartbeat(&s, &mut h, 4, NOW + 99);
    assert_eq!((p.op, p.pid, p.ok), (opcode::HEARTBEAT, 4, Some(true)));
    assert_eq!(room(&h).get_participant("alice").unwrap().last_seen, NOW + 99);
}

#[test]
fn silence_of_a_client_is_limited() {
    let limit = config::HEARTBEAT_TIMEOUT_MS as u128 * 1_000_000;
    assert!(!heartbeat_missed(limit));
    assert!(heartbeat_missed(limit + 1));
}

// --- rooms ---

#[test]
fn rooms_are_created_and_listed() {
    let mut h = RoomHub::new();
    let req = RoomCreateRequest {
        name: "lobby".to_string(),
        capacity: None,
        mode: Some(RoomModeField::Ptt),
        simulcast: Some(true),
    };
    let p = handle_room_create(&mut h, 1, &req, NOW).unwrap();
    let id = match &p.d {
        Payload::RoomCreated { room_id, name, capacity, mode, simulcast } => {
            assert_eq!(name, "lobby");
            assert_eq!(*capacity, config::ROOM_DEFAULT_CAPACITY);
            assert_eq!(*mode, RoomMode::Ptt);
            // There are no layers in push-to-talk rooms.
            assert!(!*simulcast);
            room_id.clone()
        }
        _ => panic!("no room"),
    };
    match handle_room_list(&h, 2).d {
        Payload::Rooms { rooms } => {
            assert_eq!(rooms.len(), 1);
            assert_eq!(rooms[0].room_id, id);
            assert_eq!(rooms[0].participants, 0);
        }
        _ => panic!("no list"),
    }
}

#[test]
fn created_room_has_what_was_drawn_for_it() {
    let mut h = RoomHub::new();
    let req = RoomCreateRequest {
        name: "lobby".to_string(),
        capacity: Some(5000),
        mode: None,
        simulcast: Some(true),
    };
    let seed = RoomSeed { id: "x".to_string(), audio_ssrc: 3, video_ssrc: 4 };
    let p = handle_room_create_with(&mut h, 9, &req, NOW, seed);
    assert_eq!((p.op, p.pid, p.ok), (opcode::ROOM_CREATE, 9, Some(true)));
    assert!(matches!(p.d, Payload::RoomCreated { room_id, name, capacity: 1000, mode, simulcast }
        if room_id == "x" && name == "lobby" && mode == RoomMode::Conference && simulcast));
    let room = h.get("x").unwrap();
    assert_eq!(room.audio_rewriter.virtual_ssrc(), 3);
    assert_eq!(room.video_rewriter.virtual_ssrc(), 4);
    assert_eq!(room.created_at, NOW);
}

#[test]
fn joining_answers_with_all_that_is_needed() {
    let mut h = hub_of(RoomMode::Conference, false, 10);
    let alice = join(&mut h, "alice");
    publish(&mut h, &alice, vec![item("audio", 0x1111, None), item("video", 0x3000, None)]);
    let mut s = user("bob");
    let o = try_join(&mut h, &mut s);
    match &o.reply.d {
        Payload::Joined(j) => {
            assert_eq!(j.participants, vec!["alice", "bob"]);
            assert_eq!(Some(&j.publish_ufrag), s.pub_ufrag.as_ref());
            assert_eq!(Some(&j.subscribe_ufrag), s.sub_ufrag.as_ref());
            assert_ne!(j.publish_pwd, j.subscribe_pwd);
            assert_eq!(j.publish_pwd.len(), 22);
            assert_eq!((j.ip.as_str(), j.port), ("192.0.2.1", 19740));
            assert_eq!(j.codecs.len(), 3);
            assert_eq!(j.extmap.len(), 4);
            assert_eq!(j.tracks.len(), 2);
            assert_eq!(j.tracks[0].user_id.as_deref(), Some("alice"));
            assert_eq!(j.tracks[1].ssrc, 0x3000);
            assert_eq!(j.tracks[1].rtx_ssrc, Some(0x3000 + 1000));
            assert!(j.ptt.is_none());
        }
        _ => panic!("not joined"),
    }
    assert_eq!(s.current_room.as_deref(), Some("r1"));
    assert_eq!(o.effects.len(), 1);
    match &o.effects[0] {
        Effect::ToOthers { exclude, packet } => {
            assert_eq!(exclude, "bob");
            assert!(matches!(&packet.d, Payload::Event(e)
                if e.event_type == "participant_joined" && e.user_id.as_deref() == Some("bob")));
        }
        _ => panic!("no event"),
    }
}

#[test]
fn joining_a_push_to_talk_room_names_its_sources() {
    let mut h = hub_of(RoomMode::Ptt, false, 10);
    join(&mut h, "alice");
    ask(&mut h, "alice", 0, NOW);
    let mut s = user("bob");
    match try_join(&mut h, &mut s).reply.d {
        Payload::Joined(j) => {
            let p = j.ptt.unwrap();
            assert_eq!((p.audio_ssrc, p.video_ssrc), (0xA0A0_A0A0, 0xB0B0_B0B0));
            assert_eq!(p.speaker.as_deref(), Some("alice"));
        }
        _ => panic!("not joined"),
    }
}

#[test]
fn joining_is_refused() {
    let mut h = hub_of(RoomMode::Conference, false, 2);
    let mut s = user("alice");
    let other = RoomJoinRequest { room_id: "r2".to_string() };
    let o = handle_room_join(&mut s, &mut h, 1, &other, &server(), NOW).unwrap();
    refused(&o.reply, 2001, "room not found");
    assert!(s.current_room.is_none());
    try_join(&mut h, &mut s);
    let o = try_join(&mut h, &mut user("alice"));
    refused(&o.reply, 2003, "[2003] already in room");
    join(&mut h, "carol");
    // A full room is full for those inside as well.
    let o = try_join(&mut h, &mut user("alice"));
    refused(&o.reply, 2002, "[2002] room full");
    let mut b = user("bob");
    let o = try_join(&mut h, &mut b);
    refused(&o.reply, 2002, "[2002] room full");
    assert!(o.effects.is_empty());
    assert!(b.current_room.is_none());
}

#[test]
fn room_state_is_told_on_demand() {
    let mut h = hub_of(RoomMode::Conference, false, 10);
    refused(&handle_room_sync(&Session::new(), &mut h, 1).unwrap(), 2003, "not identified");
    refused(&handle_room_sync(&user("x"), &mut h, 1).unwrap(), 2004, "not in room");
    let mut lost = user("x");
    lost.current_room = Some("gone".to_string());
    refused(&handle_room_sync(&lost, &mut h, 1).unwrap(), 2001, "room not found");
    let alice = join(&mut h, "alice");
    let bob = join(&mut h, "bob");
    publish(&mut h, &alice, vec![item("audio", 0x1111, None)]);
    match handle_room_sync(&bob, &mut h, 1).unwrap().d {
        Payload::RoomState { room_id, participants, tracks, speaker, .. } => {
            assert_eq!(room_id, "r1");
            assert_eq!(participants.len(), 2);
            assert_eq!(tracks.len(), 1);
            assert_eq!(tracks[0].ssrc, 0x1111);
            assert!(!tracks[0].is_virtual);
            assert!(speaker.is_none());
        }
        _ => panic!("no state"),
    }
}

#[test]
fn push_to_talk_rooms_show_two_sources() {
    let mut h = hub_of(RoomMode::Ptt, false, 10);
    let alice = join(&mut h, "alice");
    ask(&mut h, "alice", 0, NOW);
    match handle_room_sync(&alice, &mut h, 1).unwrap().d {
        Payload::RoomState { tracks, speaker, .. } => {
            assert_eq!(tracks.len(), 2);
            assert_eq!(tracks[0].track_id, "ptt-audio");
            assert_eq!(tracks[1].ssrc, 0xB0B0_B0B0);
            assert!(tracks[1].is_virtual);
            assert_eq!(speaker.as_deref(), Some("alice"));
        }
        _ => panic!("no state"),
    }
}

#[test]
fn leaving_is_announced() {
    let mut h = hub_of(RoomMode::Ptt, false, 10);
    let mut alice = join(&mut h, "alice");
    join(&mut h, "bob");
    publish(&mut h, &alice, vec![item("audio", 0x1111, None)]);
    ask(&mut h, "alice", 0, NOW);
    ask(&mut h, "bob", 0, NOW + 1);
    let (farewell, counts) = say_farewell_at(&mut h, "r1", "alice", at(NOW + 2));
    assert_eq!(counts.queue_pop, 1);
    assert!(matches!(&farewell[0], Effect::CancelPli { user_id } if user_id == "alice"));
    assert!(farewell.iter().any(|e| matches!(e, Effect::ToRoom { packet }
        if packet.op == opcode::FLOOR_TAKEN)));
    assert_eq!(room(&h).floor.current_speaker().as_deref(), Some("bob"));
    let req = RoomLeaveRequest { room_id: "r1".to_string() };
    let o = handle_room_leave(&mut alice, &mut h, 9, &req);
    assert_eq!((o.reply.op, o.reply.ok), (opcode::ROOM_LEAVE, Some(true)));
    assert_eq!(o.effects.len(), 2);
    assert!(matches!(&o.effects[0], Effect::ToRoom { packet: Packet {
        op: opcode::TRACKS_UPDATE, d: Payload::TracksRemoved { tracks }, ..
    } } if tracks.len() == 1 && tracks[0].ssrc == 0x1111));
    assert!(matches!(&o.effects[1], Effect::ToRoom { packet: Packet { d: Payload::Event(e), .. } }
        if e.event_type == "participant_left"));
    assert!(alice.current_room.is_none() && alice.pub_ufrag.is_none());
    assert_eq!(room(&h).member_ids(), vec!["bob"]);
    let o = handle_room_leave(&mut alice, &mut h, 9, &req);
    refused(&o.reply, 2004, "[2004] not in room");
    let gone = RoomLeaveRequest { room_id: "r2".to_string() };
    let o = handle_room_leave(&mut alice, &mut h, 9, &gone);
    refused(&o.reply, 2001, "[2001] room not found");
}

#[test]
fn nobody_receives_somebody_who_has_gone() {
    let choose = |h: &mut RoomHub, s: &Session| {
        let targets =
            vec![SubscribeLayerTarget { user_id: "alice".to_string(), rid: "l".to_string() }];
        handle_subscribe_layer(s, h, 4, &SubscribeLayerRequest { targets }).unwrap();
        assert_eq!(room(h).get_participant("bob").unwrap().subscribe_layers.len(), 1);
    };
    let left = |h: &RoomHub| room(h).get_participant("bob").unwrap().subscribe_layers.is_empty();
    let mut h = hub_of(RoomMode::Conference, true, 10);
    let bob = join(&mut h, "bob");

    let mut alice = join(&mut h, "alice");
    choose(&mut h, &bob);
    let req = RoomLeaveRequest { room_id: "r1".to_string() };
    handle_room_leave(&mut alice, &mut h, 9, &req);
    assert!(left(&h));

    let alice = join(&mut h, "alice");
    choose(&mut h, &bob);
    cleanup(&alice, &mut h);
    assert!(left(&h));

    join(&mut h, "alice");
    choose(&mut h, &bob);
    handle_heartbeat(&bob, &mut h, 1, NOW + config::ZOMBIE_TIMEOUT_MS);
    assert_eq!(reap(&mut h, NOW + config::ZOMBIE_TIMEOUT_MS + 1).len(), 1);
    assert!(left(&h));
}

#[test]
fn lost_connection_is_cleaned_up() {
    let mut h = hub_of(RoomMode::Conference, false, 10);
    let alice = join(&mut h, "alice");
    join(&mut h, "bob");
    publish(&mut h, &alice, vec![item("audio", 0x1111, None)]);
    let effects = cleanup(&alice, &mut h);
    assert_eq!(effects.len(), 2);
    assert!(matches!(&effects[1], Effect::ToOthers { exclude, .. } if exclude == "alice"));
    assert!(room(&h).get_participant("alice").is_none());
    assert!(h.find_by_ufrag(alice.pub_ufrag.as_ref().unwrap()).is_none());
    assert!(cleanup(&user("x"), &mut h).is_empty());
}

#[test]
fn messages_go_to_the_others() {
    let mut h = hub_of(RoomMode::Conference, false, 10);
    let alice = join(&mut h, "alice");
    let req = MessageRequest { room_id: "r1".to_string(), content: "hi".to_string() };
    let o = handle_message(&alice, &h, 6, &req).unwrap();
    assert!(matches!(&o.reply.d, Payload::Posted { msg_id } if msg_id.len() == 36));
    assert!(matches!(&o.effects[0], Effect::ToOthers { exclude, packet: Packet {
        op: opcode::MESSAGE_EVENT, d: Payload::Chat { user_id, content, .. }, ..
    } } if exclude == "alice" && user_id == "alice" && content == "hi"));
    let o = handle_message_with(&alice, &h, 6, &req, "m1".to_string());
    assert!(matches!(&o.reply.d, Payload::Posted { msg_id } if msg_id == "m1"));
    assert_eq!(o.effects.len(), 1);
    let req = MessageRequest { room_id: "r2".to_string(), content: "hi".to_string() };
    let o = handle_message(&alice, &h, 6, &req).unwrap();
    assert_eq!(o.reply.ok, Some(true));
    assert!(o.effects.is_empty());
}

// --- tracks ---

#[test]
fn published_tracks_are_announced() {
    let mut h = hub_of(RoomMode::Conference, false, 10);
    let alice = join(&mut h, "alice");
    let o = publish(&mut h, &alice, vec![
        item("audio", 0x1111, None), item("data", 1, None), item("video", 0x3000, None),
    ]);
    assert!(matches!(o.reply.d, Payload::Registered { count: 2 }));
    match &o.effects[0] {
        Effect::ToOthers { exclude, packet: Packet { d: Payload::TracksAdded { tracks }, .. } } => {
            assert_eq!(exclude, "alice");
            assert_eq!(tracks[0].track_id, "alice_0");
            assert_eq!(tracks[0].rtx_ssrc, None);
            assert_eq!(tracks[1].track_id, "alice_1");
            assert_eq!(tracks[1].rtx_ssrc, Some(0x3000 + 1000));
        }
        _ => panic!("not announced"),
    }
    // What is known already stays as it is.
    let o = publish(&mut h, &alice, vec![item("video", 0x3000, None)]);
    assert!(matches!(o.reply.d, Payload::Registered { count: 1 }));
    let tracks = room(&h).get_participant("alice").unwrap().get_tracks();
    assert_eq!(tracks.len(), 2);
    assert_eq!(tracks[1].track_id, "alice_1");
}

#[test]
fn layers_are_shown_as_one_track() {
    let mut h = hub_of(RoomMode::Conference, true, 10);
    let alice = join(&mut h, "alice");
    let o = publish(&mut h, &alice, vec![
        item("video", 0x3000, Some("h")), item("video", 0x4000, Some("l")),
    ]);
    let vssrc = room(&h).get_participant("alice").unwrap().simulcast_video_ssrc;
    match &o.effects[0] {
        Effect::ToOthers { packet: Packet { d: Payload::TracksAdded { tracks }, .. }, .. } => {
            assert_eq!(tracks.len(), 1);
            assert_eq!(tracks[0].ssrc, vssrc);
            assert!(tracks[0].rid.is_none());
        }
        _ => panic!("not announced"),
    }
    let offered = collect_subscribe_tracks(room(&h), "bob");
    assert_eq!(offered.len(), 1);
    assert_eq!(offered[0].ssrc, vssrc);
    let bob = join(&mut h, "bob");
    let ack = handle_tracks_ack(&bob, &mut h, 4, &TracksAckRequest { ssrcs: vec![vssrc] }).unwrap();
    assert!(matches!(ack.reply.d, Payload::Synced { synced: true }));
}

#[test]
fn tracks_are_refused_outside_of_a_room() {
    let mut h = hub_of(RoomMode::Conference, false, 10);
    let s = user("x");
    refused(&publish(&mut h, &s, vec![]).reply, 2004, "not in room");
    let mut lost = user("x");
    lost.current_room = Some("gone".to_string());
    refused(&publish(&mut h, &lost, vec![]).reply, 2001, "room not found");
    lost.current_room = Some("r1".to_string());
    refused(&publish(&mut h, &lost, vec![]).reply, 2004, "not in room");
    refused(&handle_camera_ready(&s, &h, 1).reply, 2004, "not in room");
    let mute = MuteUpdateRequest { ssrc: 1, muted: true };
    refused(&handle_mute_update(&s, &mut h, 1, &mute).reply, 2004, "not in room");
    let ack = TracksAckRequest { ssrcs: vec![] };
    refused(&handle_tracks_ack(&s, &mut h, 1, &ack).unwrap().reply, 2004, "not in room");
}

#[test]
fn acknowledgement_is_compared_with_what_is_due() {
    let mut h = hub_of(RoomMode::Conference, false, 10);
    let alice = join(&mut h, "alice");
    let bob = join(&mut h, "bob");
    publish(&mut h, &alice, vec![item("audio", 1, None), item("video", 2, None)]);
    let ack = |h: &mut RoomHub, ssrcs: Vec<u32>| {
        handle_tracks_ack(&bob, h, 4, &TracksAckRequest { ssrcs }).unwrap()
    };
    let r = ack(&mut h, vec![2, 1, 2]);
    assert!(matches!(r.reply.d, Payload::Synced { synced: true }));
    assert!(r.resync.is_none());
    for wrong in [vec![], vec![1], vec![1, 2, 3]] {
        let r = ack(&mut h, wrong);
        assert!(matches!(r.reply.d, Payload::Synced { synced: false }));
        match r.resync {
            Some(Packet { op: opcode::TRACKS_RESYNC, d: Payload::TracksResync { tracks }, .. }) => {
                assert_eq!(tracks.len(), 2);
            }
            _ => panic!("not resynchronised"),
        }
    }
    let mut h = hub_of(RoomMode::Ptt, false, 10);
    let bob = join(&mut h, "bob");
    let due = TracksAckRequest { ssrcs: vec![0xB0B0_B0B0, 0xA0A0_A0A0] };
    let r = handle_tracks_ack(&bob, &mut h, 4, &due).unwrap();
    assert!(matches!(r.reply.d, Payload::Synced { synced: true }));
    let r = handle_tracks_ack(&bob, &mut h, 4, &TracksAckRequest { ssrcs: vec![] }).unwrap();
    assert!(matches!(r.resync.unwrap().d, Payload::TracksResync { tracks }
        if tracks[0].user_id.as_deref() == Some("__virtual__")
            && tracks[1].track_id == "virtual_video"));
}

#[test]
fn muting_is_told_to_the_others() {
    let mut h = hub_of(RoomMode::Conference, false, 10);
    let alice = join(&mut h, "alice");
    let addr = connect(&mut h, &alice, 7);
    publish(&mut h, &alice, vec![item("audio", 1, None), item("video", 2, None)]);
    let mute = |h: &mut RoomHub, ssrc, muted| {
        handle_mute_update(&alice, h, 4, &MuteUpdateRequest { ssrc, muted })
    };
    refused(&mute(&mut h, 9, true).reply, 2005, "track not found");
    let o = mute(&mut h, 1, true);
    assert!(matches!(o.reply.d, Payload::Muted { ssrc: 1, muted: true }));
    assert_eq!(o.effects.len(), 1);
    assert!(matches!(&o.effects[0], Effect::ToOthers { packet: Packet {
        op: opcode::TRACK_STATE, d: Payload::TrackState { ssrc: 1, kind: TrackKind::Audio, .. }, ..
    }, .. }));
    let o = mute(&mut h, 2, true);
    assert!(matches!(&o.effects[1], Effect::ToOthers { packet, .. }
        if packet.op == opcode::VIDEO_SUSPENDED));
    assert!(room(&h).get_participant("alice").unwrap().tracks[1].muted);
    let o = mute(&mut h, 2, false);
    assert_eq!(o.effects.len(), 2);
    assert!(matches!(&o.effects[1], Effect::PliBurst { ssrc: 2, addr: a, schedule, .. }
        if *a == addr && *schedule == PliSchedule::Once));
}

#[test]
fn camera_that_is_ready_sends_key_frames() {
    let mut h = hub_of(RoomMode::Conference, false, 10);
    let alice = join(&mut h, "alice");
    assert!(handle_camera_ready(&alice, &h, 4).effects.is_empty());
    publish(&mut h, &alice, vec![item("video", 2, None)]);
    let o = handle_camera_ready(&alice, &h, 4);
    assert_eq!(o.effects.len(), 1);
    connect(&mut h, &alice, 7);
    let o = handle_camera_ready(&alice, &h, 4);
    assert!(matches!(&o.effects[0], Effect::PliBurst { ssrc: 2, schedule, .. }
        if *schedule == PliSchedule::Camera));
    assert!(matches!(&o.effects[1], Effect::ToOthers { packet, .. }
        if packet.op == opcode::VIDEO_RESUMED));
    assert_eq!(PliSchedule::Camera.delays(), vec![0, 150]);
    assert!(PliSchedule::Camera.replaces() && !PliSchedule::Once.replaces());
    assert_eq!(PliSchedule::Layer.delays(), vec![0, 200, 500, 1500]);
}

#[test]
fn layers_are_chosen_and_forgotten() {
    let mut h = hub_of(RoomMode::Conference, true, 10);
    let alice = join(&mut h, "alice");
    let bob = join(&mut h, "bob");
    connect(&mut h, &alice, 7);
    publish(&mut h, &alice, vec![item("video", 2, Some("h")), item("video", 3, Some("l"))]);
    let choose = |h: &mut RoomHub, rid: &str| {
        let targets = vec![
            SubscribeLayerTarget { user_id: "nobody".to_string(), rid: rid.to_string() },
            SubscribeLayerTarget { user_id: "alice".to_string(), rid: rid.to_string() },
        ];
        handle_subscribe_layer(&bob, h, 4, &SubscribeLayerRequest { targets }).unwrap()
    };
    assert!(matches!(choose(&mut h, "h").effects[0], Effect::PliBurst { ssrc: 2, .. }));
    assert!(matches!(choose(&mut h, "h").effects[0], Effect::PliBurst { ssrc: 2, .. }));
    assert!(matches!(choose(&mut h, "l").effects[0], Effect::PliBurst { ssrc: 3, .. }));
    assert!(choose(&mut h, "pause").effects.is_empty());
    let layers = &room(&h).get_participant("bob").unwrap().subscribe_layers;
    assert_eq!(layers.len(), 1);
    assert_eq!(layers[0].rid, "pause");
    purge_subscribe_layers(h.slots[0].as_mut().unwrap(), "alice");
    assert!(room(&h).get_participant("bob").unwrap().subscribe_layers.is_empty());

    let mut h = hub_of(RoomMode::Conference, false, 10);
    let bob = join(&mut h, "bob");
    let o = handle_subscribe_layer(&bob, &mut h, 4, &SubscribeLayerRequest { targets: vec![] });
    refused(&o.unwrap().reply, 2030, "simulcast not enabled");
}

// --- floor ---

#[test]
fn floor_is_granted_queued_and_handed_on() {
    let mut h = hub_of(RoomMode::Ptt, false, 10);
    join(&mut h, "alice");
    join(&mut h, "bob");
    let (reply, effects) = ask(&mut h, "alice", 3, NOW);
    assert!(matches!(&reply.d, Payload::FloorGranted { speaker, priority: 3, duration_s: 30 }
        if speaker == "alice"));
    assert!(matches!(&effects[0], Effect::ToOthers { exclude, packet }
        if exclude == "alice" && packet.op == opcode::FLOOR_TAKEN));
    let (reply, effects) = ask(&mut h, "bob", 2, NOW + 1);
    assert!(matches!(reply.d, Payload::FloorQueued { position: 1, priority: 2, queue_size: 1 }));
    assert!(effects.is_empty());
    let q = FloorQueuePosMsg { room_id: "r1".to_string() };
    assert!(matches!(handle_floor_queue_pos(&h, "bob", 1, &q).d,
        Payload::QueuePosition { position: 1, priority: 2, queue_size: 1 }));
    assert!(matches!(handle_floor_queue_pos(&h, "alice", 1, &q).d,
        Payload::QueuePosition { position: 0, priority: 0, queue_size: 1 }));
    let ping = FloorPingMsg { room_id: "r1".to_string() };
    assert_eq!(handle_floor_ping(&mut h, "alice", 1, &ping, NOW + 2).ok, Some(true));
    refused(&handle_floor_ping(&mut h, "bob", 1, &ping, NOW + 2), 2021, "not current speaker");
    let release = FloorReleaseMsg { room_id: "r1".to_string() };
    let o = handle_floor_release_at(&mut h, "alice", 1, &release, at(NOW + 3));
    assert_eq!(o.reply.ok, Some(true));
    assert_eq!((o.counts.released, o.counts.granted, o.counts.queue_pop), (1, 1, 1));
    assert!(o.effects.iter().any(|e| matches!(e, Effect::ToRoom { packet: Packet {
        d: Payload::FloorIdle { prev_speaker, .. }, ..
    } } if prev_speaker == "alice")));
    assert!(o.effects.iter().any(|e| matches!(e, Effect::ToUser { user_id, packet }
        if user_id == "bob" && matches!(packet.d, Payload::FloorGranted { .. }))));
    assert!(room(&h).audio_rewriter.is_current_speaker("bob"));
}

#[test]
fn higher_priority_takes_the_floor() {
    let mut h = hub_of(RoomMode::Ptt, false, 10);
    join(&mut h, "alice");
    join(&mut h, "bob");
    ask(&mut h, "alice", 0, NOW);
    let (reply, effects) = ask(&mut h, "bob", 9, NOW + 1);
    assert!(matches!(reply.d, Payload::FloorGranted { priority: 9, .. }));
    assert!(effects.iter().any(|e| matches!(e, Effect::ToUser { user_id, packet: Packet {
        d: Payload::FloorRevoke { cause, .. }, ..
    } } if user_id == "alice" && cause == "preempted")));
}

#[test]
fn floor_is_refused() {
    let mut h = hub_of(RoomMode::Conference, false, 10);
    let req = FloorRequestMsg { room_id: "r1".to_string(), priority: None };
    refused(&handle_floor_request(&mut h, "x", 1, &req).reply, 2020, "not a PTT room");
    let gone = FloorRequestMsg { room_id: "gone".to_string(), priority: None };
    refused(&handle_floor_request(&mut h, "x", 1, &gone).reply, 2001, "room not found");
    let mut h = hub_of(RoomMode::Ptt, false, 10);
    h.slots[0].as_mut().unwrap().floor.config.queuing_enabled = false;
    ask(&mut h, "alice", 0, NOW);
    let (code, msg) = refusal(&ask(&mut h, "bob", 0, NOW).0);
    assert_eq!(code, 2010);
    assert!(msg.ends_with(" (speaker=alice)"));
    let release = FloorReleaseMsg { room_id: "r1".to_string() };
    let o = handle_floor_release_at(&mut h, "bob", 1, &release, at(NOW));
    assert!(o.effects.is_empty());
    assert_eq!(room(&h).floor.current_speaker().as_deref(), Some("alice"));
}

#[test]
fn speaker_who_stays_too_long_loses_the_floor() {
    let mut h = hub_of(RoomMode::Ptt, false, 10);
    join(&mut h, "alice");
    join(&mut h, "bob");
    ask(&mut h, "alice", 0, NOW);
    ask(&mut h, "bob", 0, NOW + 1);
    assert!(check_floor_timers(&mut h, NOW + 10)[0].effects.is_empty());
    let ticks = check_floor_timers(&mut h, NOW + 3_600_000);
    assert_eq!(ticks[0].counts.revoked, 1);
    assert_eq!(ticks[0].counts.queue_pop, 1);
    assert!(ticks[0].effects.iter().any(|e| matches!(e, Effect::ToUser { user_id, packet }
        if user_id == "alice" && packet.op == opcode::FLOOR_REVOKE)));
    assert_eq!(room(&h).floor.current_speaker().as_deref(), Some("bob"));
}

#[test]
fn silent_participants_are_removed() {
    let mut h = hub_of(RoomMode::Conference, false, 10);
    let alice = join(&mut h, "alice");
    let bob = join(&mut h, "bob");
    publish(&mut h, &alice, vec![item("audio", 1, None)]);
    handle_heartbeat(&bob, &mut h, 1, NOW + config::ZOMBIE_TIMEOUT_MS);
    assert!(reap(&mut h, NOW + config::ZOMBIE_TIMEOUT_MS).is_empty());
    let gone = reap(&mut h, NOW + config::ZOMBIE_TIMEOUT_MS + 1);
    assert_eq!(gone.len(), 1);
    assert_eq!(gone[0].0, "r1");
    assert!(matches!(&gone[0].1[0], Effect::CancelPli { user_id } if user_id == "alice"));
    assert!(matches!(&gone[0].1[1], Effect::ToRoom { packet: Packet {
        d: Payload::TracksRemoved { .. }, ..
    } }));
    assert!(matches!(&gone[0].1[2], Effect::ToRoom { packet: Packet { d: Payload::Event(_), .. } }));
    assert_eq!(room(&h).member_ids(), vec!["bob"]);
}

#[test]
fn silent_publisher_is_announced_as_subscribers_know_them() {
    let mut h = hub_of(RoomMode::Conference, true, 10);
    let alice = join(&mut h, "alice");
    let bob = join(&mut h, "bob");
    publish(&mut h, &alice, vec![item("video", 2, Some("h")), item("video", 3, Some("l"))]);
    let vssrc = room(&h).get_participant("alice").unwrap().simulcast_video_ssrc;
    assert_ne!(vssrc, 0);
    handle_heartbeat(&bob, &mut h, 1, NOW + config::ZOMBIE_TIMEOUT_MS);
    let gone = reap(&mut h, NOW + config::ZOMBIE_TIMEOUT_MS + 1);
    assert!(matches!(&gone[0].1[1], Effect::ToRoom { packet: Packet {
        d: Payload::TracksRemoved { tracks }, ..
    } } if tracks.len() == 1 && tracks[0].ssrc == vssrc));
}

// --- what is offered ---

#[test]
fn codecs_and_extensions() {
    let c = server_codec_policy();
    assert_eq!((c[0].pt, c[0].clockrate, c[0].channels, c[0].rtx_pt), (111, 48_000, Some(2), None));
    assert_eq!((c[1].name.as_str(), c[1].pt, c[1].rtx_pt), ("VP8", 96, Some(97)));
    assert_eq!(c[2].rtcp_fb, vec!["nack", "nack pli", "ccm fir", "goog-remb"]);
    let ids = |b, s| server_extmap_policy(b, s).iter().map(|e| e.id).collect::<Vec<u8>>();
    assert_eq!(ids(BweMode::Twcc, true), vec![1, 4, 5, 6, 10, 11]);
    assert_eq!(ids(BweMode::Remb, false), vec![1, 4, 5]);
}

#[test]
fn snapshot_shows_rooms_and_participants() {
    let mut h = hub_of(RoomMode::Ptt, false, 10);
    let alice = join(&mut h, "alice");
    publish(&mut h, &alice, vec![item("video", 2, None)]);
    connect(&mut h, &alice, 7);
    ask(&mut h, "alice", 0, NOW);
    let s = build_rooms_snapshot(&h);
    assert_eq!(s.len(), 1);
    let p = &s[0].participants[0];
    assert_eq!((p.user_id.as_str(), p.joined_at), ("alice", NOW));
    assert!(p.pub_ready && !p.sub_ready);
    assert_eq!(p.tracks[0].rtx_ssrc, Some(1002));
    let ptt = s[0].ptt.as_ref().unwrap();
    assert_eq!(ptt.floor_speaker.as_deref(), Some("alice"));
    assert_eq!(ptt.audio_virtual_ssrc, "0xA0A0A0A0");
}
