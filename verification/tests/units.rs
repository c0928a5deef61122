//! The smaller parts.

use oxlens_sfu::agg_logger::{agg_key, clear_room, drain, inc, inc_with, register, AggLogger};
use oxlens_sfu::config::{
    is_rtx_pt, is_video_pt, resolve_bwe_mode, resolve_remb_bitrate, rtx_pt_for, BweMode,
};
use oxlens_sfu::error::LightError;
use oxlens_sfu::media::router::Router;
use oxlens_sfu::media::track::{TrackContext, TrackKind};
use oxlens_sfu::metrics::runtime::{RuntimeSnapshot, WorkerReading};
use oxlens_sfu::metrics::stats::{FanOutStat, GlobalMetrics, TimingStat};
use oxlens_sfu::random::{fresh_uuid, number_of, random_u16, random_u32, uuid_of};
use oxlens_sfu::room::hub::RoomHub;
use oxlens_sfu::room::room::RoomSeed;
use oxlens_sfu::signaling::handler::floor_ops::FloorCounts;
use oxlens_sfu::startup::{
    create_default_rooms, create_default_rooms_with, resolve_worker_count, u16_or, usize_or,
};
use oxlens_sfu::text::{hex_string, trim};
use oxlens_sfu::transport::addr::SocketAddress;
use oxlens_sfu::transport::dtls::{
    format_fingerprint, server_name, sha256_fingerprint, split_key_material, ServerCert,
};
use oxlens_sfu::transport::ice::{handle_stun_packet, ice_string, IceCredentials, IceResult};
use oxlens_sfu::transport::sdp::{build_answer_at, parse_offer, SdpError};
use oxlens_sfu::transport::stun::{
    build_binding_response, encode_xor_mapped_address, ice_integrity_key, parse,
    verify_message_integrity, ATTR_FINGERPRINT, ATTR_SOFTWARE,
};
use oxlens_sfu::transport::udp::fanout::Fanout;
use oxlens_sfu::transport::udp::nack::NackCounts;

// --- configuration ---

#[test]
fn bandwidth_mode_is_read_in_any_case() {
    assert_eq!(resolve_bwe_mode(Some("REMB")), BweMode::Remb);
    assert_eq!(resolve_bwe_mode(Some("remb")), BweMode::Remb);
    assert_eq!(resolve_bwe_mode(Some("twcc")), BweMode::Twcc);
    assert_eq!(resolve_bwe_mode(Some("other")), BweMode::Twcc);
    assert_eq!(resolve_bwe_mode(None), BweMode::Twcc);
}

#[test]
fn bitrate_is_read_or_the_default() {
    assert_eq!(resolve_remb_bitrate(Some("750000")), 750_000);
    assert_eq!(resolve_remb_bitrate(Some("fast")), 500_000);
    assert_eq!(resolve_remb_bitrate(None), 500_000);
}

#[test]
fn payload_types() {
    assert!(is_video_pt(96) && is_video_pt(102) && !is_video_pt(111));
    assert!(is_rtx_pt(97) && is_rtx_pt(103) && !is_rtx_pt(96));
    assert_eq!(rtx_pt_for(96), 97);
    assert_eq!(rtx_pt_for(102), 103);
}

#[test]
fn settings_fall_back_to_their_defaults() {
    assert_eq!(u16_or(Some("1974"), 1), 1974);
    assert_eq!(u16_or(Some("70000"), 1), 1);
    assert_eq!(u16_or(Some("x"), 1), 1);
    assert_eq!(u16_or(None, 1), 1);
    assert_eq!(usize_or(Some("70000"), 1), 70_000);
    assert_eq!(usize_or(Some("-1"), 1), 1);
    assert_eq!(resolve_worker_count(3, Some(8)), 3);
    assert_eq!(resolve_worker_count(0, Some(8)), 8);
    assert_eq!(resolve_worker_count(0, None), 1);
}

#[test]
fn three_rooms_from_the_start() {
    let mut hub = RoomHub::new();
    let ids = create_default_rooms(&mut hub, 77).unwrap();
    assert_eq!(ids.len(), 3);
    assert_eq!(hub.count(), 3);
    let last = hub.get(&ids[2]).unwrap();
    assert_eq!(last.capacity, 20);
    assert!(last.simulcast_enabled);
    assert_eq!(last.created_at, 77);
    let first = hub.get(&ids[0]).unwrap();
    assert_eq!(first.mode.name(), "ptt");
    assert_eq!(first.name, "무전 대화방");
}

#[test]
fn later_rooms_take_the_place_of_earlier_ones() {
    let seed = |id: &str, n: u32| RoomSeed {
        id: id.to_string(),
        audio_ssrc: n,
        video_ssrc: n + 1,
    };
    let mut hub = RoomHub::new();
    let ids = create_default_rooms_with(&mut hub, 7, seed("a", 10), seed("b", 20), seed("a", 30));
    assert_eq!(ids, vec!["a", "b", "a"]);
    assert_eq!(hub.count(), 2);
    assert_eq!(hub.get("a").unwrap().name, "대회의실");
    assert_eq!(hub.get("a").unwrap().audio_rewriter.virtual_ssrc(), 30);
    assert_eq!(hub.get("b").unwrap().video_rewriter.virtual_ssrc(), 21);
}

#[test]
fn fresh_rooms_have_identifiers_of_their_own() {
    let (a, b) = (RoomSeed::fresh().unwrap(), RoomSeed::fresh().unwrap());
    assert_eq!(a.id.len(), 36);
    assert_ne!(a.id, b.id);
}

#[test]
fn errors_have_codes_and_texts() {
    assert_eq!(LightError::RoomFull.code(), 2002);
    assert_eq!(LightError::RoomFull.message(), "[2002] room full");
    assert_eq!(
        LightError::Internal("x".to_string()).message(),
        "[9001] internal error: x",
    );
}

// --- random numbers and text ---

#[test]
fn identifiers_are_version_four_uuids() {
    let a = fresh_uuid().unwrap();
    let b = fresh_uuid().unwrap();
    assert_ne!(a, b);
    assert_eq!(a.len(), 36);
    assert_eq!(&a[14..15], "4");
    assert_eq!(a.matches('-').count(), 4);
}

#[test]
fn random_bytes_are_read_as_they_come() {
    assert_eq!(number_of(&vec![0x34, 0x12]), 0x1234);
    assert_eq!(uuid_of(&(0..16).collect()), "00010203-0405-4607-8809-0a0b0c0d0e0f");
}

#[test]
fn random_numbers_differ() {
    let many: Vec<u32> = (0..8).map(|_| random_u32().unwrap()).collect();
    assert!(many.iter().any(|x| *x != many[0]));
    let many: Vec<u16> = (0..32).map(|_| random_u16().unwrap()).collect();
    assert!(many.iter().any(|x| *x != many[0]));
}

#[test]
fn numbers_in_hexadecimal() {
    assert_eq!(hex_string(0), "0x00000000");
    assert_eq!(hex_string(0xDEAD_BEEF), "0xDEADBEEF");
    assert_eq!(hex_string(0x0012_34AB), "0x001234AB");
}

#[test]
fn white_space_is_trimmed() {
    let s: Vec<char> = " \t a b\r\n".chars().collect();
    assert_eq!(trim(&s).into_iter().collect::<String>(), "a b");
}

// --- DTLS ---

#[test]
fn fingerprint_of_known_bytes() {
    assert_eq!(
        sha256_fingerprint(b"abc"),
        "sha-256 BA:78:16:BF:8F:01:CF:EA:41:41:40:DE:5D:AE:22:23:B0:03:61:A3:96:17:7A:9C:B4:10:FF:61:F2:00:15:AD",
    );
    assert_eq!(format_fingerprint(&vec![0, 255]), "sha-256 00:FF");
}

#[test]
fn certificate_comes_with_its_fingerprint() {
    let c = ServerCert::generate().unwrap();
    assert!(c.fingerprint.starts_with("sha-256 "));
    assert_eq!(c.fingerprint.len(), 8 + 32 * 3 - 1);
    let der: &[u8] = c.dtls_cert.certificate[0].as_ref();
    assert_eq!(sha256_fingerprint(der), c.fingerprint);
}

#[test]
fn generated_certificate_is_kept_or_its_error_told() {
    assert_eq!(server_name(), "light-livechat");
    let c = ServerCert::generate().unwrap();
    let again = ServerCert::from_generated(Ok(c.dtls_cert.clone())).unwrap();
    assert_eq!(again.fingerprint, c.fingerprint);
    match ServerCert::from_generated(Err("no key".to_string())) {
        Err(LightError::Internal(e)) => assert_eq!(e, "no key"),
        _ => panic!("no error"),
    }
}

#[test]
fn key_material_is_taken_apart() {
    let m: Vec<u8> = (0..60).collect();
    let k = split_key_material(&m);
    assert_eq!(k.client_key, (0..16).collect::<Vec<u8>>());
    assert_eq!(k.server_key, (16..32).collect::<Vec<u8>>());
    assert_eq!(k.client_salt, (32..46).collect::<Vec<u8>>());
    assert_eq!(k.server_salt, (46..60).collect::<Vec<u8>>());
}

// --- STUN and ICE ---

/// The sample request of RFC 5769.
fn sample_request() -> Vec<u8> {
    vec![
        0x00, 0x01, 0x00, 0x58, 0x21, 0x12, 0xa4, 0x42, 0xb7, 0xe7, 0xa7, 0x01, 0xbc, 0x34, 0xd6,
        0x86, 0xfa, 0x87, 0xdf, 0xae, 0x80, 0x22, 0x00, 0x10, 0x53, 0x54, 0x55, 0x4e, 0x20, 0x74,
        0x65, 0x73, 0x74, 0x20, 0x63, 0x6c, 0x69, 0x65, 0x6e, 0x74, 0x00, 0x24, 0x00, 0x04, 0x6e,
        0x00, 0x01, 0xff, 0x80, 0x29, 0x00, 0x08, 0x93, 0x2f, 0xf9, 0xb1, 0x51, 0x26, 0x3b, 0x36,
        0x00, 0x06, 0x00, 0x09, 0x65, 0x76, 0x74, 0x6a, 0x3a, 0x68, 0x36, 0x76, 0x59, 0x20, 0x20,
        0x20, 0x00, 0x08, 0x00, 0x14, 0x9a, 0xea, 0xa7, 0x0c, 0xbf, 0xd8, 0xcb, 0x56, 0x78, 0x1e,
        0xf2, 0xb5, 0xb2, 0xd3, 0xf2, 0x49, 0xc1, 0xb5, 0x71, 0xa2, 0x80, 0x28, 0x00, 0x04, 0xe5,
        0x7a, 0x3b, 0xcf,
    ]
}

#[test]
fn sample_request_verifies() {
    let buf = sample_request();
    let m = parse(&buf).unwrap();
    assert_eq!(m.attributes.len(), 6);
    assert_eq!(m.username().as_deref(), Some("evtj:h6vY"));
    assert_eq!(m.priority(), Some(0x6e00_01ff));
    assert!(!m.has_use_candidate());
    assert_eq!(m.get_attr(ATTR_SOFTWARE).unwrap().value, b"STUN test client");
    assert!(verify_message_integrity(&m, &ice_integrity_key("VOkJxbRl1RmTxUk/WvJxBt")));
    assert!(!verify_message_integrity(&m, &ice_integrity_key("VOkJxbRl1RmTxUk/WvJxBT")));
}

#[test]
fn sample_request_is_answered() {
    let buf = sample_request();
    let remote = SocketAddress::V4 { ip: 0xC000_0201, port: 32853 };
    let creds = IceCredentials {
        ufrag: "evtj".to_string(),
        pwd: "VOkJxbRl1RmTxUk/WvJxBt".to_string(),
    };
    match handle_stun_packet(&buf, remote, &creds) {
        IceResult::SendResponse { data, remote: to, use_candidate } => {
            assert_eq!(to, remote);
            assert!(!use_candidate);
            let m = parse(&data).unwrap();
            assert_eq!(&m.transaction_id[..], &buf[8..20]);
            assert!(verify_message_integrity(&m, &ice_integrity_key(&creds.pwd)));
        }
        IceResult::Ignore => panic!("ignored"),
    }
    let other = IceCredentials { ufrag: "evt".to_string(), pwd: creds.pwd };
    assert!(matches!(handle_stun_packet(&buf, remote, &other), IceResult::Ignore));
}

#[test]
fn fingerprint_is_the_checksum_of_what_precedes_it() {
    let tid = [9u8; 12];
    let addr = SocketAddress::V4 { ip: 1, port: 2 };
    let r = build_binding_response(&tid, addr, b"key");
    let m = parse(&r).unwrap();
    let fp = m.get_attr(ATTR_FINGERPRINT).unwrap();
    let crc = crc32fast::hash(&r[..r.len() - 8]) ^ 0x5354_554E;
    assert_eq!(fp.value, &crc.to_be_bytes()[..]);
}

#[test]
fn mapped_address_reads_back() {
    let tid = [1u8, 2, 3, 4, 5, 6, 7, 8, 9, 10, 11, 12];
    let v = encode_xor_mapped_address(SocketAddress::V4 { ip: 0xC000_0201, port: 32853 }, &tid);
    assert_eq!(v, vec![0, 1, 0xa1, 0x47, 0xe1, 0x12, 0xa6, 0x43]);
    let ip6: u128 = 0x2001_0db8_1234_5678_0011_2233_4455_6677;
    let v6 = SocketAddress::V6 { ip6, port: 32853, flowinfo: 0, scope_id: 0 };
    let v = encode_xor_mapped_address(v6, &tid);
    let mut mask = vec![0x21, 0x12, 0xA4, 0x42];
    mask.extend_from_slice(&tid);
    let back: Vec<u8> = v[4..].iter().zip(mask.iter()).map(|(a, b)| a ^ b).collect();
    assert_eq!(back, ip6.to_be_bytes().to_vec());
    assert_eq!(v[1], 2);
}

#[test]
fn attribute_that_does_not_fit_ends_the_list() {
    let mut b = vec![0, 1, 0, 8, 0x21, 0x12, 0xA4, 0x42];
    b.extend_from_slice(&[0; 12]);
    b.extend_from_slice(&[0, 6, 0, 9, 1, 2, 3, 4]);
    assert!(parse(&b).unwrap().attributes.is_empty());
    b[3] = 7;
    assert!(parse(&b).is_none());
    b[3] = 12;
    assert!(parse(&b).is_none());
    b[3] = 8;
    b[0] = 0x40;
    assert!(parse(&b).is_none());
}

#[test]
fn credentials_are_digits_and_small_letters() {
    assert_eq!(ice_string(&vec![0, 9, 10, 35, 36, 255]), "09az03");
    let c = IceCredentials::new().unwrap();
    assert_eq!(c.ufrag.len(), 4);
    assert_eq!(c.pwd.len(), 22);
    assert!(c.pwd.chars().all(|c| c.is_ascii_digit() || c.is_ascii_lowercase()));
    assert_ne!(c.pwd, IceCredentials::new().unwrap().pwd);
}

// --- SDP ---

#[test]
fn offer_is_taken_apart_line_by_line() {
    let p = parse_offer(
        "v=0\na=mid:x\nm=application 9 x\n\na=mid: 7 \r\na=ssrc: 12:3 cname:a\na=ssrc:12\n\
         a=ssrc:+13\na=ssrc:x\na=recvonly\na=sendonly",
    )
    .unwrap();
    let s = &p.sections[0];
    assert_eq!(s.media_type, "unknown");
    assert_eq!(s.mid, "7");
    assert_eq!(s.ssrcs, vec![12, 13]);
    assert_eq!(s.direction, "sendonly");
    assert_eq!(s.codec_lines, vec!["", "a=mid: 7"]);
}

#[test]
fn offer_without_media_has_a_text() {
    match parse_offer("v=0") {
        Err(e) => {
            assert!(matches!(e, SdpError::NoMediaSection));
            assert_eq!(e.message(), "no media section in SDP offer");
        }
        Ok(_) => panic!("parsed"),
    }
    assert_eq!(SdpError::ParseError("x".to_string()).message(), "SDP parse error: x");
}

#[test]
fn answer_in_full() {
    let p = parse_offer("m=audio 9 UDP 111\r\na=mid:0\r\na=rtcp-rsize\r\na=inactive\r\n").unwrap();
    assert_eq!(
        build_answer_at(&p, "sha-256 FF", "u", "p", 40000, "192.0.2.7", 5),
        "v=0\r\no=light-livechat 5 5 IN IP4 192.0.2.7\r\ns=-\r\nt=0 0\r\na=group:BUNDLE 0\r\n\
         a=ice-lite\r\nm=audio 40000 UDP 111\r\nc=IN IP4 192.0.2.7\r\na=ice-ufrag:u\r\n\
         a=ice-pwd:p\r\na=fingerprint:sha-256 FF\r\na=setup:passive\r\na=rtcp-mux\r\n\
         a=rtcp-rsize\r\na=inactive\r\na=mid:0\r\n\
         a=candidate:1 1 udp 2113937151 192.0.2.7 40000 typ host generation 0\r\n\
         a=end-of-candidates\r\n",
    );
}

// --- counts ---

#[test]
fn keys_depend_on_all_parts() {
    assert_eq!(agg_key(&["a", "b"]), agg_key(&["a", "b"]));
    assert_ne!(agg_key(&["a", "b"]), agg_key(&["b", "a"]));
    assert_ne!(agg_key(&["ab"]), agg_key(&["a", "b"]));
}

#[test]
fn events_are_counted_until_they_are_taken_out() {
    let mut agg = AggLogger::new();
    inc(&mut agg, 1, 10);
    inc_with(&mut agg, 2, "two".to_string(), Some("r"), 1_000_000);
    inc(&mut agg, 2, 3_500_000);
    inc_with(&mut agg, 2, "ignored".to_string(), None, 5_000_000);
    register(&mut agg, 3, "three", None, 7);
    let r = drain(&mut agg);
    assert_eq!(r.len(), 1);
    assert_eq!(r[0].key, 2);
    assert_eq!(r[0].label, "two");
    assert_eq!(r[0].room_id.as_deref(), Some("r"));
    assert_eq!(r[0].count, 3);
    assert_eq!(r[0].delta_ms, 4);
    assert!(drain(&mut agg).is_empty());
}

#[test]
fn single_event_has_no_duration() {
    let mut agg = AggLogger::new();
    inc_with(&mut agg, 2, "two".to_string(), None, 1_000_000);
    assert_eq!(drain(&mut agg)[0].delta_ms, 0);
}

#[test]
fn events_of_a_room_are_cleared() {
    let mut agg = AggLogger::new();
    inc_with(&mut agg, 1, "a".to_string(), Some("r1"), 1);
    inc_with(&mut agg, 2, "b".to_string(), Some("r2"), 1);
    inc_with(&mut agg, 3, "c".to_string(), None, 1);
    clear_room(&mut agg, "r1");
    let keys: Vec<u64> = drain(&mut agg).iter().map(|r| r.key).collect();
    assert_eq!(keys, vec![2, 3]);
}

#[test]
fn no_more_than_so_many_events_are_counted() {
    let mut agg = AggLogger::new();
    for k in 0..1030u64 {
        inc_with(&mut agg, k, "x".to_string(), None, 1);
    }
    register(&mut agg, 5000, "y", None, 1);
    inc(&mut agg, 5000, 2);
    assert_eq!(drain(&mut agg).len(), 1024);
}

#[test]
fn durations_are_summed_up() {
    let mut t = TimingStat::new();
    assert!(t.flush().is_none());
    for us in [10, 2, 30, 7] {
        t.record(us);
    }
    let r = t.flush().unwrap();
    assert_eq!((r.avg_us, r.min_us, r.max_us, r.count), (12, 2, 30, 4));
    assert!(t.flush().is_none());
    let mut f = FanOutStat::new();
    assert_eq!(f.flush().min, 0);
    f.record_fan_out(3);
    f.record_fan_out(5);
    let r = f.flush();
    assert_eq!((r.sum, r.count, r.min, r.max), (8, 2, 3, 5));
}

#[test]
fn counters_start_again_after_they_are_taken_out() {
    let mut m = GlobalMetrics::new();
    m.counters.add_floor(&FloorCounts {
        granted: 2, revoked: 1, preempted: 1, queued: 3, released: 4, queue_pop: 5,
    });
    m.counters.add_nack(&NackCounts {
        seqs_requested: 9,
        ptt_remapped: 1,
        publisher_not_found: 2,
        no_rtx_ssrc: 3,
        cache_miss: 4,
        budget_exceeded: 5,
        rtx_sent: 6,
    });
    m.counters.add_fanout(&Fanout::Rewritten(vec![]), 96, true);
    m.counters.add_fanout(&Fanout::Rewritten(vec![]), 111, false);
    m.counters.add_fanout(&Fanout::Gated, 96, true);
    m.counters.add_fanout(&Fanout::Skipped(vec![]), 96, false);
    m.counters.add_fanout(&Fanout::PendingKeyframe, 96, false);
    m.counters.add_fanout(&Fanout::Plain(vec![]), 96, true);
    let c = m.flush().counters;
    assert_eq!((c.ptt_floor_granted, c.ptt_speaker_switches), (2, 2));
    assert_eq!((c.ptt_floor_released, c.ptt_floor_queue_pop), (4, 5));
    assert_eq!((c.rtx_sent, c.rtx_cache_miss, c.rtx_budget_exceeded), (6, 4, 5));
    assert_eq!((c.ptt_rtp_rewritten, c.ptt_video_rewritten, c.ptt_audio_rewritten), (2, 1, 1));
    assert_eq!((c.ptt_rtp_gated, c.ptt_video_skip, c.ptt_video_pending_drop), (1, 1, 1));
    assert_eq!(c.ptt_keyframe_arrived, 1);
    assert_eq!(m.flush().counters.rtx_sent, 0);
}

#[test]
fn runtime_figures_are_differences() {
    let mut s = RuntimeSnapshot::new();
    let w = |busy_ns, polls| WorkerReading { busy_ns, polls, steals: 1, noops: 0 };
    let d = s.sample(&vec![w(5_000, 3), w(2_999, 1)], 4, 9);
    assert_eq!(d.workers[0].busy_us, 5);
    assert_eq!(d.workers[1].busy_us, 2);
    assert_eq!(d.total_busy_us, 7);
    let d = s.sample(&vec![w(9_500, 10), w(1_000, 1)], 5, 8);
    assert_eq!(d.workers[0].busy_us, 4);
    assert_eq!(d.workers[0].polls, 7);
    assert_eq!(d.workers[1].busy_us, 0);
    assert_eq!((d.budget_yield, d.io_ready), (1, 0));
}

// --- routing table ---

#[test]
fn tracks_are_found_by_ssrc() {
    let mut r = Router::new();
    let t = |ssrc| TrackContext::new(ssrc, "p".to_string(), "r".to_string(), TrackKind::Audio);
    assert!(r.lookup(1).is_none());
    r.register(1, t(1));
    r.register(2, t(2));
    let mut newer = t(1);
    newer.touch(9);
    r.register(1, newer);
    assert_eq!(r.lookup(1).unwrap().last_seen, 9);
    r.unregister(1);
    r.unregister(7);
    assert!(r.lookup(1).is_none());
    assert_eq!(r.lookup(2).unwrap().ssrc, 2);
}
