//! Rooms, the hub, participants and the streams of a push-to-talk room.

use oxlens_sfu::config::{self, RoomMode};
use oxlens_sfu::error::LightError;
use oxlens_sfu::metrics::pipeline::{sweep_rooms, RoomPipeline};
use oxlens_sfu::room::floor::{FloorAction, FloorController, FloorState};
use oxlens_sfu::room::hub::RoomHub;
use oxlens_sfu::room::participant::{
    Participant, PcType, RtpCache, SimulcastRewriter, TrackKind,
};
use oxlens_sfu::room::ptt_rewriter::{diagnose_vp8, is_vp8_keyframe, PttRewriter, RewriteResult};
use oxlens_sfu::room::room::Room;
use oxlens_sfu::transport::addr::SocketAddress;
use oxlens_sfu::transport::udp::feedback::{translate_sr, SrTranslation};
use oxlens_sfu::transport::udp::rtcp::{
    assemble_compound, build_mbcp_app, build_remb, build_rtx_packet, encode_remb_bitrate,
    expand_nack, parse_mbcp_app, parse_rtp_header, split_compound_rtcp,
};

fn participant(user: &str, room: &str, joined_at: u64) -> Participant {
    Participant::new(
        user.to_string(),
        room.to_string(),
        format!("p{}", user),
        "pub-pwd".to_string(),
        format!("s{}", user),
        "sub-pwd".to_string(),
        joined_at,
    )
}

fn room(id: &str, capacity: usize) -> Room {
    Room::with_ssrcs(
        id.to_string(),
        "Room".to_string(),
        Some(capacity),
        RoomMode::Conference,
        1,
        false,
        10,
        20,
    )
}

fn addr(n: u32) -> SocketAddress {
    SocketAddress::V4 { ip: n, port: 4000 }
}

fn rtp(pt: u8, seq: u16, ts: u32, ssrc: u32, payload: &[u8]) -> Vec<u8> {
    let mut p = vec![0x80, pt];
    p.extend_from_slice(&seq.to_be_bytes());
    p.extend_from_slice(&ts.to_be_bytes());
    p.extend_from_slice(&ssrc.to_be_bytes());
    p.extend_from_slice(payload);
    p
}

// --- rooms ---

#[test]
fn room_finds_whom_it_holds() {
    let mut r = room("r", 3);
    assert!(r.get_participant("alice").is_none());
    r.add_participant_at(participant("alice", "r", 5), 77).unwrap();
    assert_eq!(r.active_since, 77);
    r.add_participant_at(participant("bob", "r", 6), 88).unwrap();
    assert_eq!(r.active_since, 77);
    assert_eq!(r.participant_count(), 2);
    assert_eq!(r.get_participant("bob").unwrap().joined_at, 6);
    assert_eq!(r.get_by_ufrag("salice"), Some((0, PcType::Subscribe)));
    assert_eq!(r.get_by_ufrag("pbob"), Some((1, PcType::Publish)));
    assert_eq!(r.get_by_ufrag("nobody"), None);
    assert_eq!(r.member_ids(), vec!["alice", "bob"]);
    assert_eq!(r.other_participants("alice"), vec![1]);
    assert_eq!(r.all_participants(), vec![0, 1]);
}

#[test]
fn room_takes_nobody_twice_and_no_more_than_fit() {
    let mut r = room("r", 2);
    r.add_participant(participant("alice", "r", 1)).unwrap();
    assert!(matches!(
        r.add_participant(participant("alice", "r", 2)),
        Err(LightError::AlreadyInRoom)
    ));
    r.add_participant(participant("bob", "r", 1)).unwrap();
    assert!(matches!(r.add_participant(participant("carol", "r", 1)), Err(LightError::RoomFull)));
    r.remove_participant("alice").unwrap();
    r.add_participant(participant("carol", "r", 1)).unwrap();
}

#[test]
fn room_forgets_who_left() {
    let mut r = room("r", 3);
    r.add_participant(participant("alice", "r", 1)).unwrap();
    r.latch("palice", addr(1)).unwrap();
    assert_eq!(r.get_by_addr(&addr(1)), Some((0, PcType::Publish)));
    let p = r.remove_participant("alice").unwrap();
    assert_eq!(p.publish.get_address(), Some(addr(1)));
    assert!(r.get_participant("alice").is_none());
    assert!(r.get_by_ufrag("palice").is_none());
    assert!(r.get_by_addr(&addr(1)).is_none());
    assert!(matches!(r.remove_participant("alice"), Err(LightError::NotInRoom)));
}

#[test]
fn participant_with_an_address_is_found_there_once_seen() {
    let mut r = room("r", 3);
    let mut p = participant("alice", "r", 1);
    p.publish.latch_address(addr(1));
    r.add_participant(p).unwrap();
    assert!(r.get_by_addr(&addr(1)).is_none());
    r.latch("palice", addr(1)).unwrap();
    assert_eq!(r.get_by_addr(&addr(1)), Some((0, PcType::Publish)));
}

#[test]
fn address_moves_with_the_participant() {
    let mut r = room("r", 3);
    r.add_participant(participant("alice", "r", 1)).unwrap();
    r.latch("palice", addr(1)).unwrap();
    r.latch("palice", addr(2)).unwrap();
    assert_eq!(r.get_by_addr(&addr(2)), Some((0, PcType::Publish)));
    assert!(r.latch("nobody", addr(3)).is_none());
    let six = SocketAddress::V6 { ip6: 1, port: 4000, flowinfo: 2, scope_id: 3 };
    r.latch("salice", six).unwrap();
    assert_eq!(r.get_by_addr(&six), Some((0, PcType::Subscribe)));
    let near = SocketAddress::V6 { ip6: 1, port: 4000, flowinfo: 2, scope_id: 4 };
    assert!(r.get_by_addr(&near).is_none());
}

#[test]
fn sources_are_found() {
    let mut r = room("r", 3);
    let mut p = participant("alice", "r", 1);
    p.add_track(7, TrackKind::Audio, "a".to_string());
    p.add_track(8, TrackKind::Video, "v".to_string());
    p.simulcast_video_ssrc = 99;
    r.add_participant(p).unwrap();
    assert_eq!(r.find_by_track_ssrc(8), Some(0));
    assert_eq!(r.find_by_track_ssrc(9), None);
    assert_eq!(r.find_publisher_by_vssrc(99), Some(0));
    assert_eq!(r.find_publisher_by_vssrc(98), None);
}

#[test]
fn hub_finds_across_rooms() {
    let mut h = RoomHub::new();
    h.insert_room(room("r1", 3));
    h.insert_room(room("r2", 3));
    assert_eq!(h.count(), 2);
    assert!(matches!(h.get("r3"), Err(LightError::RoomNotFound)));
    assert!(matches!(
        h.add_participant("r3", participant("x", "r3", 1)),
        Err(LightError::RoomNotFound)
    ));
    h.add_participant("r2", participant("alice", "r2", 1)).unwrap();
    assert_eq!(h.find_by_ufrag("palice"), Some((1, 0, PcType::Publish)));
    assert_eq!(h.latch_by_ufrag("salice", addr(9)), Some((1, 0, PcType::Subscribe)));
    assert_eq!(h.find_by_addr(&addr(9)), Some((1, 0, PcType::Subscribe)));
    assert!(h.latch_by_ufrag("nobody", addr(8)).is_none());
    h.remove_participant("r2", "alice").unwrap();
    assert!(h.find_by_addr(&addr(9)).is_none());
    assert!(h.find_by_ufrag("palice").is_none());
    assert!(matches!(h.remove_participant("r2", "alice"), Err(LightError::NotInRoom)));
}

#[test]
fn removed_room_takes_its_traces_along() {
    let mut h = RoomHub::new();
    h.insert_room(room("r1", 3));
    h.add_participant("r1", participant("alice", "r1", 1)).unwrap();
    h.latch_by_ufrag("palice", addr(9)).unwrap();
    let r = h.remove_room("r1").unwrap();
    assert_eq!(r.participant_count(), 1);
    assert!(h.find_by_ufrag("palice").is_none());
    assert!(h.find_by_addr(&addr(9)).is_none());
    assert!(matches!(h.remove_room("r1"), Err(LightError::RoomNotFound)));
}

#[test]
fn all_zombies_are_reaped_at_once() {
    let mut h = RoomHub::new();
    h.insert_room(room("r1", 5));
    h.insert_room(room("r2", 5));
    h.add_participant("r1", participant("a", "r1", 100)).unwrap();
    h.add_participant("r1", participant("b", "r1", 900)).unwrap();
    h.add_participant("r2", participant("c", "r2", 200)).unwrap();
    let mut names: Vec<String> =
        h.reap_zombies(1000, 500).iter().map(|(r, p)| format!("{}/{}", r, p.user_id)).collect();
    names.sort();
    assert_eq!(names, vec!["r1/a", "r2/c"]);
    assert!(h.reap_zombies(1000, 500).is_empty());
}

#[test]
fn reaping_leaves_the_others_reachable() {
    let mut h = RoomHub::new();
    h.insert_room(room("r1", 5));
    // Never heard of is as good as gone.
    h.add_participant("r1", participant("a", "r1", 0)).unwrap();
    h.add_participant("r1", participant("b", "r1", 900)).unwrap();
    h.latch_by_ufrag("pa", addr(1)).unwrap();
    h.latch_by_ufrag("pb", addr(2)).unwrap();
    assert!(h.reap_zombies(500, 500).is_empty());
    assert_eq!(h.reap_zombies(501, 500).len(), 1);
    assert!(h.find_by_ufrag("pa").is_none() && h.find_by_ufrag("sa").is_none());
    assert!(h.find_by_addr(&addr(1)).is_none());
    assert_eq!(h.find_by_ufrag("sb"), Some((0, 1, PcType::Subscribe)));
    assert_eq!(h.find_by_addr(&addr(2)), Some((0, 1, PcType::Publish)));
}

#[test]
fn activity_of_rooms_is_swept() {
    let mut h = RoomHub::new();
    let mut r = room("r1", 5);
    let mut p = participant("a", "r1", 100);
    p.pipeline.pub_rtp_in = 12;
    r.add_participant_at(p, 50).unwrap();
    h.insert_room(r);
    h.insert_room(room("r2", 5));
    let s = sweep_rooms(&mut h);
    match s[0].as_ref().unwrap() {
        RoomPipeline::Active { room_id, active_since, participants } => {
            assert_eq!((room_id.as_str(), *active_since), ("r1", 50));
            assert_eq!(participants[0].user_id, "a");
            assert_eq!(participants[0].counts.pub_rtp_in, 12);
        }
        _ => panic!("not active"),
    }
    assert!(matches!(s[1].as_ref().unwrap(), RoomPipeline::Empty { ended: false, .. }));
    h.remove_participant("r1", "a").unwrap();
    let s = sweep_rooms(&mut h);
    assert!(matches!(s[0].as_ref().unwrap(), RoomPipeline::Empty { ended: true, .. }));
    let s = sweep_rooms(&mut h);
    assert!(matches!(s[0].as_ref().unwrap(), RoomPipeline::Empty { ended: false, .. }));
}

// --- participants ---

#[test]
fn tracks_of_a_participant() {
    let mut p = participant("a", "r", 1);
    p.add_track(7, TrackKind::Audio, "a".to_string());
    p.add_track(8, TrackKind::Video, "v".to_string());
    p.add_track(9, TrackKind::Video, "w".to_string());
    p.add_track(8, TrackKind::Audio, "x".to_string());
    let t = p.get_tracks();
    assert_eq!(t.len(), 3);
    assert_eq!(t[0].rtx_ssrc, None);
    assert_eq!(t[1].rtx_ssrc, Some(1008));
    assert_eq!(t[2].rtx_ssrc, Some(1010));
    assert_eq!(p.set_track_muted(8, true), Some(TrackKind::Video));
    assert_eq!(p.set_track_muted(5, true), None);
    assert!(p.tracks[1].muted);
    assert_eq!(p.remove_track(8).unwrap().track_id, "v");
    assert!(p.remove_track(8).is_none());
    assert_eq!((p.next_rtx_seq(), p.next_rtx_seq()), (0, 1));
    assert_eq!(p.simulcast_video_ssrc_or(5), 5);
    assert_eq!(p.simulcast_video_ssrc_or(6), 5);
    let once = p.ensure_simulcast_video_ssrc().unwrap();
    assert_eq!(once, 5);
    let fresh = participant("b", "r", 1).ensure_simulcast_video_ssrc().unwrap();
    assert_ne!(fresh, 0);
}

#[test]
fn cache_gives_back_what_it_was_given() {
    let mut c = RtpCache::new();
    let p = rtp(96, 5, 1, 2, &[1, 2, 3]);
    c.store(5, &p);
    assert_eq!(c.get(5).unwrap(), &p[..]);
    assert!(c.get(6).is_none());
    // The same place, another packet.
    let late = 5 + config::RTP_CACHE_SIZE as u16;
    assert!(c.get(late).is_none());
    c.store(late, &rtp(96, late, 1, 2, &[9]));
    assert!(c.get(5).is_none());
    assert_eq!(c.slot_seq(5), Some(late));
}

#[test]
fn layer_switch_cannot_be_heard() {
    let mut w = SimulcastRewriter::new(77);
    let mut p = rtp(96, 100, 9000, 1, &[1]);
    assert!(!w.rewrite(&mut p.clone(), false));
    assert!(w.rewrite(&mut p, true));
    let first = parse_rtp_header(&p);
    assert_eq!(first.ssrc, 77);
    let mut q = rtp(96, 102, 9300, 1, &[1]);
    assert!(w.rewrite(&mut q, false));
    let second = parse_rtp_header(&q);
    assert_eq!(second.seq.wrapping_sub(first.seq), 2);
    assert_eq!(second.timestamp.wrapping_sub(first.timestamp), 300);
    assert_eq!(w.reverse_seq(second.seq), 102);
    w.switch_layer();
    let mut other = rtp(96, 5000, 77, 2, &[1]);
    assert!(!w.rewrite(&mut other.clone(), false));
    assert!(w.rewrite(&mut other, true));
    let third = parse_rtp_header(&other);
    assert_eq!(third.seq, second.seq.wrapping_add(1));
    assert_eq!(third.timestamp, second.timestamp.wrapping_add(1));
    assert_eq!(w.reverse_seq(third.seq), 5000);
}

// --- the streams of a push-to-talk room ---

#[test]
fn speakers_make_one_stream() {
    let mut w = PttRewriter::audio_with_ssrc(55);
    assert_eq!(w.virtual_ssrc(), 55);
    let mut p = rtp(111, 10, 1000, 1, &[7, 8]);
    assert_eq!(w.rewrite(&mut p.clone(), "alice", false), RewriteResult::Skip);
    w.switch_speaker_after("alice", 0);
    assert!(w.is_current_speaker("alice"));
    assert_eq!(w.rewrite(&mut p, "alice", false), RewriteResult::Rewritten);
    let a = parse_rtp_header(&p);
    assert_eq!(a.ssrc, 55);
    assert_eq!(&p[12..], &[7, 8]);
    let mut q = rtp(111, 13, 1960, 1, &[7, 8]);
    assert_eq!(w.rewrite(&mut q, "alice", false), RewriteResult::Rewritten);
    let b = parse_rtp_header(&q);
    assert_eq!(b.seq.wrapping_sub(a.seq), 3);
    assert_eq!(b.timestamp.wrapping_sub(a.timestamp), 960);
    assert_eq!(w.reverse_seq(b.seq), 13);
    assert_eq!(w.translate_rtp_ts(1960), Some(b.timestamp));
    assert_eq!(w.rewrite(&mut q.clone(), "bob", false), RewriteResult::Skip);
    // Three frames of silence end what was said.
    let silence = w.clear_speaker().unwrap();
    assert_eq!(silence.len(), 3);
    let s = parse_rtp_header(&silence[2]);
    assert_eq!((s.ssrc, s.seq), (55, b.seq.wrapping_add(3)));
    assert!(!w.is_current_speaker("alice"));
    w.switch_speaker_after("bob", 100);
    let mut r = rtp(111, 60_000, 5, 2, &[9]);
    assert_eq!(w.rewrite(&mut r, "bob", false), RewriteResult::Rewritten);
    let c = parse_rtp_header(&r);
    assert_eq!(c.seq, s.seq.wrapping_add(1));
    // The silence has covered a part of the pause already.
    assert_eq!(c.timestamp, s.timestamp.wrapping_add(100 * 48 - 3 * 960));
}

#[test]
fn audio_begins_at_zero() {
    let mut w = PttRewriter::audio_with_ssrc(55);
    w.switch_speaker("alice");
    let mut p = rtp(111, 10, 1000, 1, &[7, 8]);
    assert_eq!(w.rewrite(&mut p, "alice", false), RewriteResult::Rewritten);
    let a = parse_rtp_header(&p);
    assert_eq!((a.seq, a.timestamp), (1, 0));
    let silence = w.clear_speaker().unwrap();
    let times: Vec<u32> = silence.iter().map(|f| parse_rtp_header(f).timestamp).collect();
    assert_eq!(times, vec![960, 1920, 2880]);
    let mut v = PttRewriter::video_with_ssrc(66);
    v.switch_speaker("alice");
    let mut p = rtp(96, 10, 1000, 1, &[7, 8]);
    assert_eq!(v.rewrite(&mut p, "alice", true), RewriteResult::Rewritten);
    assert_eq!(parse_rtp_header(&p).timestamp, 3000);
}

#[test]
fn speaker_without_silence_before_keeps_the_guard_gap() {
    for (mut w, gap) in [
        (PttRewriter::audio_with_ssrc(55), 960),
        (PttRewriter::video_with_ssrc(66), 3000),
    ] {
        w.switch_speaker("alice");
        let mut p = rtp(111, 10, 1000, 1, &[7, 8]);
        assert_eq!(w.rewrite(&mut p, "alice", true), RewriteResult::Rewritten);
        let a = parse_rtp_header(&p);
        w.switch_speaker("bob");
        assert!(w.is_current_speaker("bob") && !w.is_current_speaker("alice"));
        assert_eq!(w.translate_rtp_ts(5), None);
        let mut q = rtp(111, 77, 5, 2, &[9]);
        assert_eq!(w.rewrite(&mut q, "bob", true), RewriteResult::Rewritten);
        let b = parse_rtp_header(&q);
        assert_eq!(b.seq, a.seq.wrapping_add(1));
        assert_eq!(b.timestamp, a.timestamp.wrapping_add(gap));
    }
}

#[test]
fn video_of_a_new_speaker_waits_for_a_key_frame() {
    let mut w = PttRewriter::video_with_ssrc(66);
    w.switch_speaker_after("alice", 0);
    let mut p = rtp(96, 1, 1, 1, &[1]);
    assert_eq!(w.rewrite(&mut p, "alice", false), RewriteResult::PendingKeyframe);
    assert_eq!(w.rewrite(&mut p, "alice", true), RewriteResult::Rewritten);
    assert!(w.clear_speaker().is_none());
}

#[test]
fn fresh_streams_have_random_sources() {
    let a = PttRewriter::new_audio().unwrap();
    let b = PttRewriter::new_video().unwrap();
    let c = PttRewriter::new_audio().unwrap();
    assert!(a.virtual_ssrc() != b.virtual_ssrc() || a.virtual_ssrc() != c.virtual_ssrc());
    assert!(a.idle_ms() < 60_000);
}

#[test]
fn vp8_key_frames_are_told() {
    assert!(is_vp8_keyframe(&rtp(96, 1, 1, 1, &[0x10, 0x00])));
    assert!(!is_vp8_keyframe(&rtp(96, 1, 1, 1, &[0x10, 0x01])));
    assert!(!is_vp8_keyframe(&rtp(96, 1, 1, 1, &[0x00, 0x00])));
    // With an extended descriptor and a long picture id.
    assert!(is_vp8_keyframe(&rtp(96, 1, 1, 1, &[0x90, 0x80, 0x81, 0x00, 0x00])));
    assert!(!is_vp8_keyframe(&rtp(96, 1, 1, 1, &[])));
    let d = diagnose_vp8(&rtp(96, 1, 1, 1, &[0x10, 0x00])).unwrap();
    assert!(d.is_keyframe && d.s_bit);
    assert_eq!((d.payload_offset, d.payload_len, d.frame_byte), (12, 2, Some(0)));
}

// --- floor ---

#[test]
fn queue_is_served_by_priority_and_then_by_time() {
    let mut f = FloorController::new();
    f.request("a", 5, 0);
    f.request("b", 1, 1);
    f.request("c", 3, 2);
    f.request("d", 3, 3);
    assert_eq!(f.query_queue_position("c"), Some((1, 3)));
    assert_eq!(f.query_queue_position("d"), Some((2, 3)));
    assert_eq!(f.query_queue_position("b"), Some((3, 1)));
    let order: Vec<String> = ["a", "c", "d"]
        .iter()
        .map(|u| {
            f.release_at(u, 10);
            f.current_speaker().unwrap()
        })
        .collect();
    assert_eq!(order, vec!["c", "d", "b"]);
    // Only while nobody speaks is there a last speaker.
    assert!(f.last_speaker().is_none());
    f.release("b");
    assert!(f.current_speaker().is_none());
    assert_eq!(f.last_speaker().as_deref(), Some("b"));
}

#[test]
fn state_of_the_floor_can_be_seen() {
    let mut f = FloorController::new();
    assert!(matches!(f.current_state(), FloorState::Idle));
    assert_eq!(f.current_speaker_priority(), None);
    f.request("a", 4, 100);
    f.request("b", 1, 200);
    f.request("c", 2, 300);
    assert!(matches!(f.current_state(), FloorState::Taken {
        speaker, speaker_priority: 4, burst_start: 100, last_ping: 100,
    } if speaker == "a"));
    assert_eq!(f.current_speaker_priority(), Some(4));
    assert_eq!(f.queue_snapshot(), vec![("c".to_string(), 2, 1), ("b".to_string(), 1, 2)]);
}

#[test]
fn asking_again_changes_nothing() {
    let mut f = FloorController::new();
    f.request("a", 0, 0);
    let again = f.request("a", 0, 5);
    assert!(matches!(&again[0], FloorAction::Granted { speaker, .. } if speaker == "a"));
    assert_eq!(f.queue_size(), 0);
    f.request("b", 0, 6);
    f.request("b", 0, 7);
    assert_eq!(f.queue_size(), 1);
    assert!(f.cancel_queue("b"));
    assert!(!f.cancel_queue("b"));
}

#[test]
fn who_leaves_is_forgotten() {
    let mut f = FloorController::new();
    f.request("a", 0, 0);
    f.request("b", 0, 1);
    f.request("c", 0, 2);
    f.on_participant_leave("b");
    assert_eq!(f.queue_size(), 1);
    f.on_participant_leave_at("a", 3);
    assert_eq!(f.current_speaker().as_deref(), Some("c"));
    assert!(f.on_participant_leave("nobody").is_empty());
}

#[test]
fn nobody_waits_for_an_idle_floor() {
    let mut f = FloorController::new();
    f.request("a", 0, 0);
    f.request("b", 0, 1);
    f.request("c", 0, 2);
    f.check_timers_at(1_000_000, 1_000_000);
    assert_eq!(f.current_speaker().as_deref(), Some("b"));
    f.cancel_queue("c");
    f.release_at("b", 1_000_001);
    assert!(matches!(f.current_state(), FloorState::Idle));
    assert_eq!(f.queue_size(), 0);
}

#[test]
fn timers_spare_who_pings() {
    let mut f = FloorController::new();
    f.request("a", 0, 0);
    assert!(f.check_timers(f.config.ping_timeout_ms - 1).is_empty());
    let late = f.config.ping_timeout_ms - 1;
    assert!(matches!(f.ping("a", late), FloorAction::PingOk));
    assert!(f.check_timers(late + 10).is_empty());
    assert!(matches!(f.ping("b", late), FloorAction::PingDenied));
    let over = f.config.max_burst_ms;
    f.ping("a", over - 1);
    assert!(f.check_timers_at(over, over).is_empty());
    let actions = f.check_timers_at(over + 1, over + 1);
    assert!(matches!(&actions[0], FloorAction::Revoked { prev_speaker, .. } if prev_speaker == "a"));
}

// --- RTCP ---

#[test]
fn lost_numbers_are_read_off_the_mask() {
    assert_eq!(expand_nack(65_535, 0b101), vec![65_535, 0, 2]);
    assert_eq!(expand_nack(7, 0), vec![7]);
}

#[test]
fn retransmission_holds_the_packet() {
    let p = rtp(96, 0x1234, 9, 5, &[1, 2, 3]);
    let r = build_rtx_packet(&p, 77, 8);
    let h = parse_rtp_header(&r);
    assert_eq!((h.pt, h.seq, h.timestamp, h.ssrc), (97, 8, 9, 77));
    assert_eq!(&r[12..], &[0x12, 0x34, 1, 2, 3]);
}

#[test]
fn bitrates_are_written_in_eighteen_bits() {
    assert_eq!(encode_remb_bitrate(0), (0, 0));
    assert_eq!(encode_remb_bitrate(0x3FFFF), (0, 0x3FFFF));
    assert_eq!(encode_remb_bitrate(0x40000), (1, 0x20000));
    let r = build_remb(0x40000, 5);
    assert_eq!(&r[12..], &[b'R', b'E', b'M', b'B', 1, 0x06, 0, 0, 0, 0, 0, 5]);
}

#[test]
fn floor_messages_read_back() {
    for data in [None, Some("x"), Some("four"), Some("무전")] {
        let b = build_mbcp_app(config::MBCP_SUBTYPE_FTKN, 9, data);
        assert_eq!(b.len() % 4, 0);
        assert_eq!(b.len(), 4 * (1 + b[3] as usize));
        let m = parse_mbcp_app(&b).unwrap();
        assert_eq!((m.subtype, m.ssrc), (config::MBCP_SUBTYPE_FTKN, 9));
        assert_eq!(m.data.as_deref(), data);
    }
    assert!(parse_mbcp_app(&[0x80, 204, 0, 2, 0, 0, 0, 1, b'A', b'B', b'C', b'D']).is_none());
}

#[test]
fn compound_packets_are_taken_apart() {
    let pli = [0x81u8, 206, 0, 2, 0, 0, 0, 1, 0, 0, 0, 9];
    let rr = [0x80u8, 201, 0, 1, 0, 0, 0, 1];
    let nack = [0x81u8, 205, 0, 3, 0, 0, 0, 1, 0, 0, 0, 9, 0, 5, 0, 0];
    let all = assemble_compound(&[&rr, &pli, &nack]);
    let p = split_compound_rtcp(&all);
    assert_eq!(p.rr_blocks.len(), 1);
    assert_eq!(p.nack_blocks, vec![nack.to_vec()]);
    assert_eq!(p.relay_blocks.len(), 1);
    assert_eq!((p.relay_blocks[0].offset, p.relay_blocks[0].media_ssrc), (8, 9));
    assert!(p.sr_blocks.is_empty());
}

#[test]
fn translated_report_keeps_its_time() {
    let mut sr = vec![0x80, 200, 0, 6, 0, 0, 0, 1];
    sr.extend_from_slice(&[1, 2, 3, 4, 5, 6, 7, 8, 0, 0, 0, 9, 0, 0, 0, 8, 0, 0, 0, 7]);
    let t = SrTranslation { ssrc: Some(2), rtp_ts: Some(3), packet_count: 4, octet_count: 5 };
    let r = translate_sr(&sr, &t).unwrap();
    assert_eq!(&r[4..8], &[0, 0, 0, 2]);
    assert_eq!(&r[8..16], &sr[8..16]);
    assert_eq!(&r[16..28], &[0, 0, 0, 3, 0, 0, 0, 4, 0, 0, 0, 5]);
    assert!(translate_sr(&sr[..27], &t).is_none());
}
