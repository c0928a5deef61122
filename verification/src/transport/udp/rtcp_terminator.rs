//! Reports of the server's own. The server is an end point of two RTP sessions:
//! it receives from a publisher, and answers with receiver reports; it sends to a
//! subscriber, and accompanies that with sender reports (RFC 3550).

use std::time::Instant;
use vstd::prelude::*;

use crate::clock::{elapsed_parts, instant_now, wall_clock_parts};
use crate::config;
use crate::wire::{
    be16_bytes, be32, be32_bytes, lemma_be32_roundtrip, push_u16, push_u32, read_u32,
};

verus! {

// ---------------------------------------------------------------------------
// Reception
// ---------------------------------------------------------------------------

/// What the server has received of one publisher's stream.
#[derive(Debug)]
pub struct RecvStats {
    ssrc: u32,
    clock_rate: u32,
    max_seq: u16,
    cycles: u32,
    base_seq: u32,
    bad_seq: u32,
    received: u32,
    expected_prior: u32,
    received_prior: u32,
    last_transit: i64,
    last_sr_ntp_middle: u32,
    last_sr_received_at: Option<Instant>,
    initialized: bool,
    seq_probation: u32,
}

/// The counts of a stream.
pub struct Reception {
    pub ssrc: u32,
    pub clock_rate: u32,
    /// The highest sequence number of the current cycle.
    pub max_seq: u16,
    /// How often the sequence numbers have wrapped, times 65536.
    pub cycles: u32,
    pub base_seq: u32,
    /// The sequence number that would confirm that the source restarted.
    pub bad_seq: u32,
    pub received: u32,
    /// The counts at the last report.
    pub expected_prior: u32,
    pub received_prior: u32,
    pub last_transit: int,
    /// The middle of the NTP time of the last sender report.
    pub sr_middle: u32,
    pub sr_seen: bool,
    pub initialized: bool,
    /// Packets in sequence still needed before the source counts as valid.
    pub probation: u32,
}

impl View for RecvStats {
    type V = Reception;

    closed spec fn view(&self) -> Reception {
        Reception {
            ssrc: self.ssrc,
            clock_rate: self.clock_rate,
            max_seq: self.max_seq,
            cycles: self.cycles,
            base_seq: self.base_seq,
            bad_seq: self.bad_seq,
            received: self.received,
            expected_prior: self.expected_prior,
            received_prior: self.received_prior,
            last_transit: self.last_transit as int,
            sr_middle: self.last_sr_ntp_middle,
            sr_seen: self.last_sr_received_at is Some,
            initialized: self.initialized,
            probation: self.seq_probation,
        }
    }
}

/// What holds of the counts at all times.
pub open spec fn reception_valid(s: Reception) -> bool {
    &&& s.cycles % 0x1_0000 == 0
    &&& -0x1_0000_0000 <= s.last_transit <= i64::MAX / 1000
    &&& s.probation < config::RTP_SEQ_MIN_SEQUENTIAL || !s.initialized
}

/// The counts begin anew with `seq`.
pub open spec fn seq_reset(s: Reception, seq: u16) -> Reception {
    Reception {
        base_seq: seq as u32,
        max_seq: seq,
        bad_seq: (seq + 1) as u32,
        cycles: 0,
        received: 0,
        received_prior: 0,
        expected_prior: 0,
        ..s
    }
}

/// One packet more.
pub open spec fn counted(s: Reception) -> Reception {
    Reception { received: s.received.wrapping_add(1), ..s }
}

/// The time that a packet took, in ticks of the stream's clock and up to a
/// constant.
pub open spec fn transit_time(s: Reception, rtp_ts: u32, arrival_ms: u64) -> int {
    arrival_ms * s.clock_rate / 1000 - rtp_ts
}

/// The counts with the transit time of the latest packet, and by how much that
/// differs from the one before, if there was one.
pub open spec fn with_transit(s: Reception, rtp_ts: u32, arrival_ms: u64) -> (Reception, Option<int>) {
    let t = transit_time(s, rtp_ts, arrival_ms);
    let d = t - s.last_transit;
    (
        Reception { last_transit: t, ..s },
        if s.last_transit == 0 {
            None
        } else {
            Some(if d < 0 { -d } else { d })
        },
    )
}

/// What a packet does to the counts (RFC 3550, A.1), and its contribution to the
/// jitter, if any.
pub open spec fn after_packet(s: Reception, seq: u16, rtp_ts: u32, arrival_ms: u64) -> (
    Reception,
    Option<int>,
) {
    let ahead = seq.wrapping_sub(s.max_seq);
    if !s.initialized {
        let fresh = Reception {
            initialized: true,
            probation: (config::RTP_SEQ_MIN_SEQUENTIAL - 1) as u32,
            ..seq_reset(s, seq)
        };
        with_transit(counted(fresh), rtp_ts, arrival_ms)
    } else if s.probation > 0 {
        if seq != s.max_seq.wrapping_add(1) {
            (
                counted(
                    Reception {
                        probation: (config::RTP_SEQ_MIN_SEQUENTIAL - 1) as u32,
                        max_seq: seq,
                        ..s
                    },
                ),
                None,
            )
        } else if s.probation > 1 {
            (counted(Reception { probation: (s.probation - 1) as u32, max_seq: seq, ..s }), None)
        } else {
            with_transit(
                counted(Reception { probation: 0, ..seq_reset(s, seq) }),
                rtp_ts,
                arrival_ms,
            )
        }
    } else if ahead < config::RTP_SEQ_MAX_DROPOUT {
        let cycles = if seq < s.max_seq { s.cycles.wrapping_add(0x1_0000) } else { s.cycles };
        with_transit(counted(Reception { max_seq: seq, cycles, ..s }), rtp_ts, arrival_ms)
    } else if ahead <= 0xFFFF - config::RTP_SEQ_MAX_MISORDER {
        if seq == s.bad_seq {
            with_transit(counted(seq_reset(s, seq)), rtp_ts, arrival_ms)
        } else {
            (Reception { bad_seq: (seq + 1) as u32, ..s }, None)
        }
    } else {
        with_transit(counted(s), rtp_ts, arrival_ms)
    }
}

/// A block of a receiver report.
#[derive(Debug, Clone, Copy, PartialEq, Eq, Structural)]
pub struct RrReportBlock {
    pub ssrc: u32,
    pub fraction_lost: u8,
    /// 24 bits.
    pub cumulative_lost: u32,
    pub extended_highest_seq: u32,
    pub jitter: u32,
    pub last_sr: u32,
    /// In units of 1/65536 second.
    pub delay_since_last_sr: u32,
}

/// The highest sequence number with the number of cycles above it.
pub open spec fn extended_max(s: Reception) -> u32 {
    (s.cycles + s.max_seq) as u32
}

/// How many packets should have come.
pub open spec fn expected_count(s: Reception) -> u32 {
    extended_max(s).wrapping_sub(s.base_seq).wrapping_add(1)
}

/// How many packets of `expected` are missing.
pub open spec fn shortfall(expected: u32, received: u32) -> u32 {
    if expected > received {
        (expected - received) as u32
    } else {
        0
    }
}

/// The share of packets lost since the last report, in 256ths. A whole is 256
/// of them and shows as 0.
pub open spec fn fraction_lost(s: Reception) -> u8 {
    let expected = expected_count(s).wrapping_sub(s.expected_prior);
    let received = s.received.wrapping_sub(s.received_prior);
    if expected == 0 {
        0
    } else {
        (shortfall(expected, received) * 256 / expected as int % 256) as u8
    }
}

/// A time in units of 1/65536 second, modulo 2^32.
pub open spec fn q16_time(secs: u64, nanos: u32) -> u32 {
    ((secs % 0x1_0000_0000) as u32).wrapping_mul(0x1_0000).wrapping_add(
        (nanos * 0x1_0000 / 1_000_000_000) as u32,
    )
}

/// The report on a stream, `since_sr` after its last sender report.
pub open spec fn report_block(s: Reception, jitter: u32, since_sr: (u64, u32)) -> RrReportBlock {
    let lost = shortfall(expected_count(s), s.received);
    RrReportBlock {
        ssrc: s.ssrc,
        fraction_lost: fraction_lost(s),
        cumulative_lost: if lost < 0x7F_FFFF { lost } else { 0x7F_FFFF },
        extended_highest_seq: extended_max(s),
        jitter,
        last_sr: s.sr_middle,
        delay_since_last_sr: if s.sr_seen { q16_time(since_sr.0, since_sr.1) } else { 0 },
    }
}

/// The counts after a report.
pub open spec fn after_report(s: Reception) -> Reception {
    Reception { expected_prior: expected_count(s), received_prior: s.received, ..s }
}

/// The middle 32 bits of an NTP time.
pub open spec fn ntp_middle(hi: u32, lo: u32) -> u32 {
    (hi % 0x1_0000 * 0x1_0000 + lo / 0x1_0000) as u32
}

/// The counts after a sender report.
pub open spec fn after_sr(s: Reception, hi: u32, lo: u32) -> Reception {
    Reception { sr_middle: ntp_middle(hi, lo), sr_seen: true, ..s }
}

impl RecvStats {
    pub fn new(ssrc: u32, clock_rate: u32) -> (r: Self)
        ensures
            reception_valid(r@),
            r@ == (Reception {
                ssrc,
                clock_rate,
                max_seq: 0,
                cycles: 0,
                base_seq: 0,
                bad_seq: 0,
                received: 0,
                expected_prior: 0,
                received_prior: 0,
                last_transit: 0,
                sr_middle: 0,
                sr_seen: false,
                initialized: false,
                probation: config::RTP_SEQ_MIN_SEQUENTIAL,
            }),
    {
        RecvStats {
            ssrc,
            clock_rate,
            max_seq: 0,
            cycles: 0,
            base_seq: 0,
            bad_seq: 0,
            received: 0,
            expected_prior: 0,
            received_prior: 0,
            last_transit: 0,
            last_sr_ntp_middle: 0,
            last_sr_received_at: None,
            initialized: false,
            seq_probation: config::RTP_SEQ_MIN_SEQUENTIAL,
        }
    }

    pub fn ssrc(&self) -> (r: u32)
        ensures
            r == self@.ssrc,
    {
        self.ssrc
    }

    fn init_seq(&mut self, seq: u16)
        ensures
            final(self)@ == seq_reset(old(self)@, seq),
    {
        self.base_seq = seq as u32;
        self.max_seq = seq;
        self.bad_seq = seq as u32 + 1;
        self.cycles = 0;
        self.received = 0;
        self.received_prior = 0;
        self.expected_prior = 0;
    }

    fn note_transit(&mut self, rtp_ts: u32, arrival_ms: u64) -> (r: Option<u64>)
        requires
            reception_valid(old(self)@),
            arrival_ms * old(self)@.clock_rate <= i64::MAX,
        ensures
            reception_valid(final(self)@),
            ({
                let (t, d) = with_transit(old(self)@, rtp_ts, arrival_ms);
                &&& final(self)@ == t
                &&& match r {
                    Some(x) => d == Some(x as int),
                    None => d is None,
                }
            }),
    {
        let arrival_rtp: u64 = arrival_ms * self.clock_rate as u64 / 1000;
        let transit: i64 = arrival_rtp as i64 - rtp_ts as i64;
        let last: i64 = self.last_transit;
        self.last_transit = transit;
        if last == 0 {
            None
        } else if transit >= last {
            Some((transit - last) as u64)
        } else {
            Some((last - transit) as u64)
        }
    }

    /// Counts a packet. What it contributes to the jitter is returned: the
    /// difference between its transit time and the one before, in clock ticks.
    pub fn update(&mut self, seq: u16, rtp_ts: u32, arrival_ms: u64) -> (r: Option<u64>)
        requires
            reception_valid(old(self)@),
            arrival_ms * old(self)@.clock_rate <= i64::MAX,
        ensures
            reception_valid(final(self)@),
            ({
                let (s, d) = after_packet(old(self)@, seq, rtp_ts, arrival_ms);
                &&& final(self)@ == s
                &&& match r {
                    Some(x) => d == Some(x as int),
                    None => d is None,
                }
            }),
    {
        if !self.initialized {
            self.init_seq(seq);
            self.initialized = true;
            self.seq_probation = config::RTP_SEQ_MIN_SEQUENTIAL - 1;
            self.received = self.received.wrapping_add(1);
            return self.note_transit(rtp_ts, arrival_ms);
        }
        if self.seq_probation > 0 {
            if seq == self.max_seq.wrapping_add(1) {
                self.seq_probation = self.seq_probation - 1;
                self.max_seq = seq;
                if self.seq_probation == 0 {
                    self.init_seq(seq);
                    self.received = self.received.wrapping_add(1);
                    return self.note_transit(rtp_ts, arrival_ms);
                }
            } else {
                self.seq_probation = config::RTP_SEQ_MIN_SEQUENTIAL - 1;
                self.max_seq = seq;
            }
            self.received = self.received.wrapping_add(1);
            return None;
        }
        let ahead: u16 = seq.wrapping_sub(self.max_seq);
        if ahead < config::RTP_SEQ_MAX_DROPOUT {
            if seq < self.max_seq {
                self.cycles = self.cycles.wrapping_add(0x1_0000);
            }
            self.max_seq = seq;
        } else if ahead <= 0xFFFF - config::RTP_SEQ_MAX_MISORDER {
            if seq as u32 == self.bad_seq {
                self.init_seq(seq);
            } else {
                self.bad_seq = seq as u32 + 1;
                return None;
            }
        }
        self.received = self.received.wrapping_add(1);
        self.note_transit(rtp_ts, arrival_ms)
    }

    /// Notes the time of a sender report.
    pub fn on_sr_received(&mut self, ntp_ts_hi: u32, ntp_ts_lo: u32)
        ensures
            final(self)@ == after_sr(old(self)@, ntp_ts_hi, ntp_ts_lo),
            final(self)@.sr_middle == (ntp_ts_hi * 0x1_0000_0000 + ntp_ts_lo) / 0x1_0000
                % 0x1_0000_0000,
    {
        self.last_sr_ntp_middle = ntp_ts_hi % 0x1_0000 * 0x1_0000 + ntp_ts_lo / 0x1_0000;
        self.last_sr_received_at = Some(instant_now());
    }

    /// `build_rr_block` a given time after the last sender report.
    pub fn build_rr_block_after(&mut self, jitter: u32, since_sr: (u64, u32)) -> (r: RrReportBlock)
        requires
            reception_valid(old(self)@),
            since_sr.1 < 1_000_000_000,
        ensures
            reception_valid(final(self)@),
            final(self)@ == after_report(old(self)@),
            r == report_block(old(self)@, jitter, since_sr),
    {
        let extended: u32 = self.cycles + self.max_seq as u32;
        let expected: u32 = extended.wrapping_sub(self.base_seq).wrapping_add(1);
        let lost: u32 = if expected > self.received { expected - self.received } else { 0 };
        let expected_interval: u32 = expected.wrapping_sub(self.expected_prior);
        let received_interval: u32 = self.received.wrapping_sub(self.received_prior);
        let lost_interval: u32 = if expected_interval > received_interval {
            expected_interval - received_interval
        } else {
            0
        };
        let fraction: u8 = if expected_interval > 0 {
            (lost_interval as u64 * 256 / expected_interval as u64 % 256) as u8
        } else {
            0
        };
        self.expected_prior = expected;
        self.received_prior = self.received;
        let cum_lost: u32 = if lost < 0x7F_FFFF { lost } else { 0x7F_FFFF };
        let dlsr: u32 = if self.last_sr_received_at.is_some() {
            let secs: u32 = (since_sr.0 % 0x1_0000_0000) as u32;
            let frac: u32 = (since_sr.1 as u64 * 0x1_0000 / 1_000_000_000) as u32;
            secs.wrapping_mul(0x1_0000).wrapping_add(frac)
        } else {
            0
        };
        RrReportBlock {
            ssrc: self.ssrc,
            fraction_lost: fraction,
            cumulative_lost: cum_lost,
            extended_highest_seq: extended,
            jitter,
            last_sr: self.last_sr_ntp_middle,
            delay_since_last_sr: dlsr,
        }
    }

    /// The report on the stream since the last one, with the given jitter.
    pub fn build_rr_block(&mut self, jitter: u32) -> (r: RrReportBlock)
        requires
            reception_valid(old(self)@),
        ensures
            reception_valid(final(self)@),
            final(self)@ == after_report(old(self)@),
            exists|since: (u64, u32)|
                since.1 < 1_000_000_000 && r == #[trigger] report_block(old(self)@, jitter, since),
    {
        let since: (u64, u32) = match &self.last_sr_received_at {
            Some(t) => elapsed_parts(t),
            None => (0, 0),
        };
        self.build_rr_block_after(jitter, since)
    }
}

// ---------------------------------------------------------------------------
// Laws of reception
// ---------------------------------------------------------------------------

/// A packet `d` ahead of the last one counts as the loss of the `d - 1` packets
/// between them: in sequence nothing is lost, and a number is not lost for
/// wrapping around.
pub proof fn law_gap_is_loss(s: Reception, seq: u16, rtp_ts: u32, arrival_ms: u64)
    requires
        reception_valid(s),
        s.initialized,
        s.probation == 0,
        1 <= seq.wrapping_sub(s.max_seq) < config::RTP_SEQ_MAX_DROPOUT,
    ensures
        ({
            let t = after_packet(s, seq, rtp_ts, arrival_ms).0;
            let d = seq.wrapping_sub(s.max_seq);
            &&& expected_count(t) == expected_count(s).wrapping_add(d as u32)
            &&& t.received == s.received.wrapping_add(1)
        }),
{
}

/// A late packet makes up for a loss: it is counted, and no more are expected.
pub proof fn law_late_packet_counts(s: Reception, seq: u16, rtp_ts: u32, arrival_ms: u64)
    requires
        s.initialized,
        s.probation == 0,
        1 <= s.max_seq.wrapping_sub(seq) <= config::RTP_SEQ_MAX_MISORDER,
    ensures
        ({
            let t = after_packet(s, seq, rtp_ts, arrival_ms).0;
            &&& expected_count(t) == expected_count(s)
            &&& t.received == s.received.wrapping_add(1)
        }),
{
}

/// A report leaves the counts as they are, so that the total loss of the next
/// one includes all that was lost before.
pub proof fn law_reports_accumulate(s: Reception, jitter: u32, since: (u64, u32))
    ensures
        report_block(after_report(s), jitter, since).cumulative_lost == report_block(
            s,
            jitter,
            since,
        ).cumulative_lost,
        fraction_lost(after_report(s)) == 0,
{
}

// ---------------------------------------------------------------------------
// Receiver reports
// ---------------------------------------------------------------------------

/// The bytes of a report block.
pub open spec fn report_block_bytes(b: RrReportBlock) -> Seq<u8> {
    be32_bytes(b.ssrc) + seq![
        b.fraction_lost,
        (b.cumulative_lost / 0x1_0000 % 0x100) as u8,
        (b.cumulative_lost / 0x100 % 0x100) as u8,
        (b.cumulative_lost % 0x100) as u8,
    ] + be32_bytes(b.extended_highest_seq) + be32_bytes(b.jitter) + be32_bytes(b.last_sr)
        + be32_bytes(b.delay_since_last_sr)
}

/// The bytes of the first `n` blocks.
pub open spec fn report_blocks_bytes(blocks: Seq<RrReportBlock>, n: int) -> Seq<u8>
    decreases n,
{
    if n <= 0 {
        Seq::empty()
    } else {
        report_blocks_bytes(blocks, n - 1) + report_block_bytes(blocks[n - 1])
    }
}

/// A receiver report; it holds 31 blocks at most.
pub open spec fn receiver_report(sender_ssrc: u32, blocks: Seq<RrReportBlock>) -> Seq<u8> {
    let rc: int = if blocks.len() < 31 { blocks.len() as int } else { 31 };
    seq![(0x80 + rc) as u8, config::RTCP_PT_RR] + be16_bytes((1 + 6 * rc) as u16) + be32_bytes(
        sender_ssrc,
    ) + report_blocks_bytes(blocks, rc)
}

pub fn build_receiver_report(sender_ssrc: u32, blocks: &[RrReportBlock]) -> (r: Vec<u8>)
    ensures
        r@ == receiver_report(sender_ssrc, blocks@),
{
    let rc: usize = if blocks.len() < 31 { blocks.len() } else { 31 };
    let mut out: Vec<u8> = Vec::new();
    out.push(0x80 + rc as u8);
    out.push(config::RTCP_PT_RR);
    push_u16(&mut out, 1 + 6 * rc as u16);
    push_u32(&mut out, sender_ssrc);
    let ghost head = out@;
    let mut i: usize = 0;
    while i < rc
        invariant
            i <= rc <= blocks@.len(),
            out@ == head + report_blocks_bytes(blocks@, i as int),
        decreases rc - i,
    {
        let b = blocks[i];
        let ghost before = out@;
        push_u32(&mut out, b.ssrc);
        out.push(b.fraction_lost);
        out.push((b.cumulative_lost / 0x1_0000 % 0x100) as u8);
        out.push((b.cumulative_lost / 0x100 % 0x100) as u8);
        out.push((b.cumulative_lost % 0x100) as u8);
        push_u32(&mut out, b.extended_highest_seq);
        push_u32(&mut out, b.jitter);
        push_u32(&mut out, b.last_sr);
        push_u32(&mut out, b.delay_since_last_sr);
        assert(out@ =~= before + report_block_bytes(b));
        i += 1;
        assert(out@ =~= head + report_blocks_bytes(blocks@, i as int));
    }
    assert(out@ =~= receiver_report(sender_ssrc, blocks@));
    out
}

/// A receiver report has the length that it gives itself.
pub proof fn law_receiver_report_length(sender_ssrc: u32, blocks: Seq<RrReportBlock>)
    ensures
        ({
            let rc: int = if blocks.len() < 31 { blocks.len() as int } else { 31 };
            let r = receiver_report(sender_ssrc, blocks);
            &&& r.len() == 8 + 24 * rc
            &&& crate::transport::udp::rtcp::block_len(r, 0) == r.len()
            &&& r[0] % 32 == rc
        }),
{
    let rc: int = if blocks.len() < 31 { blocks.len() as int } else { 31 };
    lemma_blocks_len(blocks, rc);
    let r = receiver_report(sender_ssrc, blocks);
    assert(r.subrange(2, 4) =~= be16_bytes((1 + 6 * rc) as u16));
    crate::wire::lemma_be16_roundtrip(r, 2, (1 + 6 * rc) as u16);
}

proof fn lemma_blocks_len(blocks: Seq<RrReportBlock>, n: int)
    requires
        n >= 0,
    ensures
        report_blocks_bytes(blocks, n).len() == 24 * n,
    decreases n,
{
    if n > 0 {
        lemma_blocks_len(blocks, n - 1);
    }
}

// ---------------------------------------------------------------------------
// Sender reports
// ---------------------------------------------------------------------------

/// What the server has sent to one subscriber on one stream.
#[derive(Debug)]
pub struct SendStats {
    pub ssrc: u32,
    pub packets_sent: u32,
    pub bytes_sent: u32,
    pub last_rtp_ts: u32,
    pub last_send_time: Option<Instant>,
    pub clock_rate: u32,
}

impl SendStats {
    pub fn new(ssrc: u32, clock_rate: u32) -> (r: Self)
        ensures
            r.ssrc == ssrc,
            r.clock_rate == clock_rate,
            r.packets_sent == 0 && r.bytes_sent == 0 && r.last_rtp_ts == 0,
            r.last_send_time is None,
    {
        SendStats {
            ssrc,
            packets_sent: 0,
            bytes_sent: 0,
            last_rtp_ts: 0,
            last_send_time: None,
            clock_rate,
        }
    }

    /// Counts a packet that was sent. The counts wrap at 2^32.
    pub fn on_rtp_sent(&mut self, rtp_ts: u32, payload_len: usize)
        ensures
            final(self).ssrc == old(self).ssrc,
            final(self).clock_rate == old(self).clock_rate,
            final(self).packets_sent == old(self).packets_sent.wrapping_add(1),
            final(self).bytes_sent == old(self).bytes_sent.wrapping_add(
                (payload_len as int % 0x1_0000_0000) as u32,
            ),
            final(self).last_rtp_ts == rtp_ts,
            final(self).last_send_time is Some,
    {
        self.packets_sent = self.packets_sent.wrapping_add(1);
        self.bytes_sent = self.bytes_sent.wrapping_add((payload_len as u64 % 0x1_0000_0000) as u32);
        self.last_rtp_ts = rtp_ts;
        self.last_send_time = Some(instant_now());
    }
}

/// A wall clock time as NTP time: seconds since 1900 modulo 2^32, and the
/// fraction of a second in units of 2^-32.
pub open spec fn ntp_time(secs: u64, nanos: u32) -> (u32, u32) {
    (
        ((secs + 2_208_988_800) % 0x1_0000_0000) as u32,
        (nanos * 0x1_0000_0000 / 1_000_000_000) as u32,
    )
}

/// NTP time of a wall clock time.
pub fn wallclock_to_ntp(secs: u64, nanos: u32) -> (r: (u32, u32))
    requires
        nanos < 1_000_000_000,
    ensures
        r == ntp_time(secs, nanos),
{
    let hi: u64 = (secs % 0x1_0000_0000 + 2_208_988_800) % 0x1_0000_0000;
    let lo: u64 = nanos as u64 * 0x1_0000_0000 / 1_000_000_000;
    (hi as u32, lo as u32)
}

/// The RTP time of a report that is made `elapsed_ms` after the last packet: that
/// of the packet and the time that has passed, in ticks of the clock.
pub open spec fn report_rtp_ts(s: SendStats, elapsed_ms: u64) -> u32 {
    if s.last_send_time is Some {
        ((s.last_rtp_ts + elapsed_ms * s.clock_rate / 1000) % 0x1_0000_0000) as u32
    } else {
        0
    }
}

/// A sender report without report blocks.
pub open spec fn sender_report(s: SendStats, ntp: (u32, u32), elapsed_ms: u64) -> Seq<u8> {
    seq![0x80u8, config::RTCP_PT_SR, 0, 6] + be32_bytes(s.ssrc) + be32_bytes(ntp.0) + be32_bytes(
        ntp.1,
    ) + be32_bytes(report_rtp_ts(s, elapsed_ms)) + be32_bytes(s.packets_sent) + be32_bytes(
        s.bytes_sent,
    )
}

/// `build_sender_report` at a given time.
pub fn build_sender_report_at(stats: &SendStats, ntp: (u32, u32), elapsed_ms: u64) -> (r: Vec<u8>)
    ensures
        r@ == sender_report(*stats, ntp, elapsed_ms),
{
    let rtp_ts: u32 = if stats.last_send_time.is_some() {
        assert(elapsed_ms * stats.clock_rate <= u64::MAX * u32::MAX) by (nonlinear_arith)
            requires
                elapsed_ms <= u64::MAX,
                stats.clock_rate <= u32::MAX,
        ;
        let ticks: u128 = elapsed_ms as u128 * stats.clock_rate as u128 / 1000;
        ((stats.last_rtp_ts as u128 + ticks) % 0x1_0000_0000) as u32
    } else {
        0
    };
    let mut out: Vec<u8> = Vec::new();
    out.push(0x80);
    out.push(config::RTCP_PT_SR);
    out.push(0);
    out.push(6);
    push_u32(&mut out, stats.ssrc);
    push_u32(&mut out, ntp.0);
    push_u32(&mut out, ntp.1);
    push_u32(&mut out, rtp_ts);
    push_u32(&mut out, stats.packets_sent);
    push_u32(&mut out, stats.bytes_sent);
    assert(out@ =~= sender_report(*stats, ntp, elapsed_ms));
    out
}

/// The sender report of a stream.
pub fn build_sender_report(stats: &SendStats) -> (r: Vec<u8>)
    ensures
        exists|secs: u64, nanos: u32, elapsed: u64|
            nanos < 1_000_000_000 && r@ == #[trigger] sender_report(
                *stats,
                ntp_time(secs, nanos),
                elapsed,
            ),
{
    let (secs, nanos) = wall_clock_parts();
    let elapsed: u64 = match &stats.last_send_time {
        Some(t) => {
            let (s, n) = elapsed_parts(t);
            #[verifier::truncate]
            let ms: u64 = (s as u128 * 1000 + (n / 1_000_000) as u128) as u64;
            ms
        },
        None => 0,
    };
    let ntp = wallclock_to_ntp(secs, nanos);
    build_sender_report_at(stats, ntp, elapsed)
}

/// SSRC and NTP time of a sender report, if the block is one.
pub open spec fn sr_ntp(b: Seq<u8>) -> Option<(u32, u32, u32)> {
    if b.len() >= 28 && b[1] == config::RTCP_PT_SR {
        Some((be32(b, 4), be32(b, 8), be32(b, 12)))
    } else {
        None
    }
}

pub fn parse_sr_ntp(sr_block: &[u8]) -> (r: Option<(u32, u32, u32)>)
    ensures
        r == sr_ntp(sr_block@),
{
    if sr_block.len() < 28 {
        return None;
    }
    if sr_block[1] != config::RTCP_PT_SR {
        return None;
    }
    Some((read_u32(sr_block, 4), read_u32(sr_block, 8), read_u32(sr_block, 12)))
}

/// Parsing a sender report gives back the SSRC and the time that it was built
/// with.
pub proof fn law_sr_roundtrip(s: SendStats, ntp: (u32, u32), elapsed_ms: u64)
    ensures
        sr_ntp(sender_report(s, ntp, elapsed_ms)) == Some((s.ssrc, ntp.0, ntp.1)),
        sender_report(s, ntp, elapsed_ms).len() == 28,
{
    let b = sender_report(s, ntp, elapsed_ms);
    assert(b.subrange(4, 8) =~= be32_bytes(s.ssrc));
    lemma_be32_roundtrip(b, 4, s.ssrc);
    assert(b.subrange(8, 12) =~= be32_bytes(ntp.0));
    lemma_be32_roundtrip(b, 8, ntp.0);
    assert(b.subrange(12, 16) =~= be32_bytes(ntp.1));
    lemma_be32_roundtrip(b, 12, ntp.1);
}

} // verus!
