//! SDP offers and answers.

use oxlens_sfu::transport::sdp::{build_answer, parse_offer, replace_m_line_port};

const IP: &str = "192.0.2.7";

fn make_audio_offer(ufrag: &str) -> String {
    format!(
        "v=0\r\n\
         o=- 123 2 IN IP4 0.0.0.0\r\n\
         s=-\r\n\
         t=0 0\r\n\
         a=group:BUNDLE 0\r\n\
         m=audio 9 UDP/TLS/RTP/SAVPF 111\r\n\
         c=IN IP4 0.0.0.0\r\n\
         a=mid:0\r\n\
         a=ice-ufrag:{}\r\n\
         a=ice-pwd:clientpwd\r\n\
         a=fingerprint:sha-256 AA:BB\r\n\
         a=setup:actpass\r\n\
         a=sendrecv\r\n\
         a=rtcp-mux\r\n\
         a=rtpmap:111 opus/48000/2\r\n\
         a=ssrc:12345 cname:test\r\n",
        ufrag
    )
}

fn make_bundle_offer() -> String {
    "v=0\r\n\
     o=- 123 2 IN IP4 0.0.0.0\r\n\
     s=-\r\n\
     t=0 0\r\n\
     a=group:BUNDLE 0 1\r\n\
     m=audio 9 UDP/TLS/RTP/SAVPF 111\r\n\
     c=IN IP4 0.0.0.0\r\n\
     a=mid:0\r\n\
     a=ice-ufrag:cufrag\r\n\
     a=ice-pwd:cpwd\r\n\
     a=setup:actpass\r\n\
     a=sendrecv\r\n\
     a=rtcp-mux\r\n\
     a=rtpmap:111 opus/48000/2\r\n\
     a=extmap:4 urn:ietf:params:rtp-hdrext:sdes:mid\r\n\
     m=video 9 UDP/TLS/RTP/SAVPF 96 97\r\n\
     c=IN IP4 0.0.0.0\r\n\
     a=mid:1\r\n\
     a=ice-ufrag:cufrag\r\n\
     a=ice-pwd:cpwd\r\n\
     a=setup:actpass\r\n\
     a=sendrecv\r\n\
     a=rtcp-mux\r\n\
     a=rtcp-rsize\r\n\
     a=rtpmap:96 VP8/90000\r\n\
     a=rtcp-fb:96 transport-cc\r\n\
     a=rtpmap:97 rtx/90000\r\n\
     a=fmtp:97 apt=96\r\n\
     a=extmap:4 urn:ietf:params:rtp-hdrext:sdes:mid\r\n\
     a=ssrc:55555 cname:client\r\n\
     a=ssrc:55556 cname:client\r\n"
        .to_string()
}

fn make_inactive_offer() -> String {
    "v=0\r\n\
     o=- 123 2 IN IP4 0.0.0.0\r\n\
     s=-\r\n\
     t=0 0\r\n\
     a=group:BUNDLE 0 1\r\n\
     m=audio 9 UDP/TLS/RTP/SAVPF 111\r\n\
     c=IN IP4 0.0.0.0\r\n\
     a=mid:0\r\n\
     a=sendrecv\r\n\
     a=rtcp-mux\r\n\
     a=rtpmap:111 opus/48000/2\r\n\
     m=audio 0 UDP/TLS/RTP/SAVPF 111\r\n\
     c=IN IP4 0.0.0.0\r\n\
     a=mid:1\r\n\
     a=inactive\r\n\
     a=rtcp-mux\r\n\
     a=rtpmap:111 opus/48000/2\r\n"
        .to_string()
}

#[test]
fn parse_audio_offer() {
    let offer = make_audio_offer("cu");
    let parsed = parse_offer(&offer).unwrap();
    assert_eq!(parsed.sections.len(), 1);
    assert_eq!(parsed.sections[0].mid, "0");
    assert_eq!(parsed.sections[0].media_type, "audio");
    assert_eq!(parsed.sections[0].direction, "sendrecv");
    assert_eq!(parsed.bundle_mids, vec!["0"]);
}

#[test]
fn parse_bundle_offer() {
    let offer = make_bundle_offer();
    let parsed = parse_offer(&offer).unwrap();
    assert_eq!(parsed.sections.len(), 2);
    assert_eq!(parsed.sections[0].media_type, "audio");
    assert_eq!(parsed.sections[1].media_type, "video");
    assert_eq!(parsed.bundle_mids, vec!["0", "1"]);
}

#[test]
fn parse_strips_client_ice() {
    let offer = make_audio_offer("clientufrag");
    let parsed = parse_offer(&offer).unwrap();
    for line in &parsed.sections[0].codec_lines {
        assert!(!line.contains("clientufrag"), "client ICE should be stripped");
        assert!(!line.contains("clientpwd"), "client pwd should be stripped");
        assert!(!line.contains("AA:BB"), "client fingerprint should be stripped");
    }
}

#[test]
fn parse_captures_ssrc() {
    let offer = make_audio_offer("cu");
    let parsed = parse_offer(&offer).unwrap();
    assert_eq!(parsed.sections[0].ssrcs, vec![12345]);
}

#[test]
fn parse_captures_multiple_ssrcs() {
    let offer = make_bundle_offer();
    let parsed = parse_offer(&offer).unwrap();
    assert_eq!(parsed.sections[1].ssrcs, vec![55555, 55556]);
}

#[test]
fn parse_ssrc_not_in_codec_lines() {
    let offer = make_bundle_offer();
    let parsed = parse_offer(&offer).unwrap();
    for sec in &parsed.sections {
        for line in &sec.codec_lines {
            assert!(!line.starts_with("a=ssrc"), "ssrc should not be in codec_lines");
        }
    }
}

#[test]
fn parse_captures_direction() {
    let offer = make_inactive_offer();
    let parsed = parse_offer(&offer).unwrap();
    assert_eq!(parsed.sections[0].direction, "sendrecv");
    assert_eq!(parsed.sections[1].direction, "inactive");
}

#[test]
fn parse_captures_rtcp_rsize() {
    let offer = make_bundle_offer();
    let parsed = parse_offer(&offer).unwrap();
    assert!(!parsed.sections[0].has_rtcp_rsize, "audio has no rtcp-rsize");
    assert!(parsed.sections[1].has_rtcp_rsize, "video has rtcp-rsize");
}

#[test]
fn parse_preserves_extmap() {
    let offer = make_bundle_offer();
    let parsed = parse_offer(&offer).unwrap();
    let has_extmap = parsed.sections[0]
        .codec_lines
        .iter()
        .any(|l| l.contains("a=extmap:4"));
    assert!(has_extmap, "extmap should be preserved");
}

#[test]
fn parse_empty_offer_fails() {
    let result = parse_offer("v=0\r\ns=-\r\n");
    assert!(result.is_err());
}

#[test]
fn answer_has_server_ice() {
    let offer = make_audio_offer("cu");
    let parsed = parse_offer(&offer).unwrap();
    let sdp = build_answer(&parsed, "sha-256 FF:00", "srvufrag", "srvpwd", 40000, IP);
    assert!(sdp.contains("a=ice-ufrag:srvufrag"));
    assert!(sdp.contains("a=ice-pwd:srvpwd"));
}

#[test]
fn answer_has_passive_setup() {
    let offer = make_audio_offer("cu");
    let parsed = parse_offer(&offer).unwrap();
    let sdp = build_answer(&parsed, "sha-256 FF:00", "u", "p", 40000, IP);
    assert!(sdp.contains("a=setup:passive"));
}

#[test]
fn answer_has_ice_lite() {
    let offer = make_audio_offer("cu");
    let parsed = parse_offer(&offer).unwrap();
    let sdp = build_answer(&parsed, "sha-256 FF:00", "u", "p", 40000, IP);
    assert!(sdp.contains("a=ice-lite"));
}

#[test]
fn answer_replaces_port() {
    let offer = make_audio_offer("cu");
    let parsed = parse_offer(&offer).unwrap();
    let sdp = build_answer(&parsed, "sha-256 FF:00", "u", "p", 41234, IP);
    assert!(sdp.contains("m=audio 41234 "));
}

#[test]
fn answer_has_server_fingerprint() {
    let offer = make_audio_offer("cu");
    let parsed = parse_offer(&offer).unwrap();
    let fp = "sha-256 AB:CD:EF";
    let sdp = build_answer(&parsed, fp, "u", "p", 40000, IP);
    assert!(sdp.contains(&format!("a=fingerprint:{}", fp)));
    assert!(!sdp.contains("AA:BB"));
}

#[test]
fn answer_has_host_candidate() {
    let offer = make_audio_offer("cu");
    let parsed = parse_offer(&offer).unwrap();
    let sdp = build_answer(&parsed, "sha-256 FF:00", "u", "p", 40000, IP);
    assert!(sdp.contains("typ host"));
    assert!(sdp.contains("a=end-of-candidates"));
}

#[test]
fn answer_mirrors_codecs() {
    let offer = make_audio_offer("cu");
    let parsed = parse_offer(&offer).unwrap();
    let sdp = build_answer(&parsed, "sha-256 FF:00", "u", "p", 40000, IP);
    assert!(sdp.contains("a=rtpmap:111 opus/48000/2"));
}

#[test]
fn answer_direction_echoes_offer() {
    let offer = make_audio_offer("cu");
    let parsed = parse_offer(&offer).unwrap();
    let sdp = build_answer(&parsed, "sha-256 FF:00", "u", "p", 40000, IP);
    assert!(sdp.contains("a=sendrecv"));
}

#[test]
fn answer_strips_client_ice() {
    let offer = make_audio_offer("clientufrag");
    let parsed = parse_offer(&offer).unwrap();
    let sdp = build_answer(&parsed, "sha-256 FF:00", "srvufrag", "srvpwd", 40000, IP);
    assert!(!sdp.contains("clientufrag"));
    assert!(!sdp.contains("clientpwd"));
}

#[test]
fn answer_no_ssrc() {
    let offer = make_audio_offer("cu");
    let parsed = parse_offer(&offer).unwrap();
    let sdp = build_answer(&parsed, "sha-256 FF:00", "u", "p", 40000, IP);
    assert!(!sdp.contains("a=ssrc:"), "answer should not echo ssrc");
}

#[test]
fn answer_no_msid() {
    let offer = make_bundle_offer();
    let parsed = parse_offer(&offer).unwrap();
    let sdp = build_answer(&parsed, "sha-256 FF:00", "u", "p", 40000, IP);
    assert!(!sdp.contains("a=msid:"), "answer should not have msid");
}

#[test]
fn bundle_answer_two_sections() {
    let offer = make_bundle_offer();
    let parsed = parse_offer(&offer).unwrap();
    let sdp = build_answer(&parsed, "sha-256 FF:00", "u", "p", 40000, IP);
    assert_eq!(sdp.matches("m=audio").count(), 1);
    assert_eq!(sdp.matches("m=video").count(), 1);
    assert!(sdp.contains("a=group:BUNDLE 0 1"));
}

#[test]
fn bundle_answer_shared_ice() {
    let offer = make_bundle_offer();
    let parsed = parse_offer(&offer).unwrap();
    let sdp = build_answer(&parsed, "sha-256 FF:00", "srvufrag", "srvpwd", 40000, IP);
    assert_eq!(sdp.matches("a=ice-ufrag:srvufrag").count(), 2);
    assert_eq!(sdp.matches("a=ice-pwd:srvpwd").count(), 2);
}

#[test]
fn bundle_answer_preserves_extmap() {
    let offer = make_bundle_offer();
    let parsed = parse_offer(&offer).unwrap();
    let sdp = build_answer(&parsed, "sha-256 FF:00", "u", "p", 40000, IP);
    let count = sdp.matches("a=extmap:4 urn:ietf:params:rtp-hdrext:sdes:mid").count();
    assert_eq!(count, 2, "extmap should be in both sections");
}

#[test]
fn bundle_answer_rtcp_rsize_only_video() {
    let offer = make_bundle_offer();
    let parsed = parse_offer(&offer).unwrap();
    let sdp = build_answer(&parsed, "sha-256 FF:00", "u", "p", 40000, IP);
    assert_eq!(sdp.matches("a=rtcp-rsize").count(), 1, "only video has rtcp-rsize");
}

#[test]
fn inactive_direction_preserved() {
    let offer = make_inactive_offer();
    let parsed = parse_offer(&offer).unwrap();
    let sdp = build_answer(&parsed, "sha-256 FF:00", "u", "p", 40000, IP);
    assert!(sdp.contains("a=inactive"));
    assert!(sdp.contains("a=sendrecv"));
}

#[test]
fn replace_port_works() {
    let m = "m=audio 9 UDP/TLS/RTP/SAVPF 111";
    assert_eq!(replace_m_line_port(m, 40000), "m=audio 40000 UDP/TLS/RTP/SAVPF 111");
}

#[test]
fn replace_port_preserves_multiple_pts() {
    let m = "m=video 9 UDP/TLS/RTP/SAVPF 96 97 102 103";
    let result = replace_m_line_port(m, 19740);
    assert!(result.starts_with("m=video 19740 "));
    assert!(result.ends_with("96 97 102 103"));
}
