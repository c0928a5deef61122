//! Reports that the server sends and receives.

use oxlens_sfu::config;
use oxlens_sfu::transport::udp::rtcp_terminator::{
    build_receiver_report, build_sender_report, build_sender_report_at, parse_sr_ntp, RecvStats, RrReportBlock, SendStats,
};
use std::time::Instant;

/// The running jitter (RFC 3550): a sixteenth of each difference counts.
fn smooth(jitter: &mut f64, sample: Option<u64>) {
    if let Some(d) = sample {
        *jitter += (d as f64 - *jitter) / 16.0;
    }
}

#[test]
fn test_recv_stats_basic_loss() {
    let mut stats = RecvStats::new(0x12345678, 48000);
    let mut jitter = 0.0f64;

    for i in 0..4u16 {
        smooth(&mut jitter, stats.update(i, i as u32 * 960, i as u64 * 20));
    }

    let block = stats.build_rr_block(jitter as u32);
    assert_eq!(block.fraction_lost, 0);
    assert_eq!(block.cumulative_lost, 0);
}

#[test]
fn test_recv_stats_with_loss() {
    let mut stats = RecvStats::new(0x12345678, 48000);
    let mut jitter = 0.0f64;

    for i in 0..3u16 {
        smooth(&mut jitter, stats.update(i, i as u32 * 960, i as u64 * 20));
    }
    smooth(&mut jitter, stats.update(5, 5 * 960, 5 * 20));

    let block = stats.build_rr_block(jitter as u32);
    assert_eq!(block.cumulative_lost, 2);
    assert!(block.fraction_lost > 0);
}

#[test]
fn test_recv_stats_jitter() {
    let mut stats = RecvStats::new(0x12345678, 48000);
    let mut jitter = 0.0f64;

    for i in 0..10u16 {
        smooth(&mut jitter, stats.update(i, i as u32 * 960, i as u64 * 20));
    }
    let block = stats.build_rr_block(jitter as u32);
    assert!(block.jitter < 100);
}

#[test]
fn test_build_receiver_report_format() {
    let block = RrReportBlock {
        ssrc: 0xAABBCCDD,
        fraction_lost: 25,
        cumulative_lost: 100,
        extended_highest_seq: 5000,
        jitter: 50,
        last_sr: 0x11223344,
        delay_since_last_sr: 0x55667788,
    };
    let rr = build_receiver_report(0x00000001, &[block]);
    assert_eq!(rr.len(), 32); // 8 + 24
    assert_eq!(rr[0] & 0xC0, 0x80); // V=2
    assert_eq!(rr[0] & 0x1F, 1);    // RC=1
    assert_eq!(rr[1], config::RTCP_PT_RR);
}

#[test]
fn test_build_sender_report_format() {
    let stats = SendStats {
        ssrc: 0xDEADBEEF,
        packets_sent: 1000,
        bytes_sent: 160_000,
        last_rtp_ts: 48000,
        last_send_time: Some(Instant::now()),
        clock_rate: 48000,
    };
    let sr = build_sender_report(&stats);
    assert_eq!(sr.len(), 28);
    assert_eq!(sr[0] & 0xC0, 0x80); // V=2
    assert_eq!(sr[1], config::RTCP_PT_SR);
}

#[test]
fn test_sr_ntp_roundtrip() {
    let stats = SendStats {
        ssrc: 0x11111111,
        packets_sent: 1,
        bytes_sent: 100,
        last_rtp_ts: 960,
        last_send_time: Some(Instant::now()),
        clock_rate: 48000,
    };
    let sr = build_sender_report(&stats);
    let (ssrc, ntp_hi, ntp_lo) = parse_sr_ntp(&sr).unwrap();
    assert_eq!(ssrc, 0x11111111);
    assert!(ntp_hi > 0);
    let _ = ntp_lo;
}

#[test]
fn time_of_a_report_is_exact_after_a_long_pause() {
    let mut audio = SendStats::new(1, 48_000);
    audio.on_rtp_sent(1_000, 10);
    let ts = |b: &[u8]| u32::from_be_bytes([b[16], b[17], b[18], b[19]]);
    assert_eq!(ts(&build_sender_report_at(&audio, (1, 2), 20)), 1_960);
    assert_eq!(ts(&build_sender_report_at(&audio, (1, 2), 89_479)), 1_000 + 4_294_992);
    let mut video = SendStats::new(2, 90_000);
    video.on_rtp_sent(u32::MAX, 10);
    assert_eq!(ts(&build_sender_report_at(&video, (1, 2), 47_722)), 47_722 * 90 - 1);
    // A day, in which the timestamps wrap.
    let day: u64 = 86_400_000;
    assert_eq!(
        ts(&build_sender_report_at(&video, (1, 2), day)),
        ((u32::MAX as u64 + day * 90) % (1 << 32)) as u32,
    );
}
