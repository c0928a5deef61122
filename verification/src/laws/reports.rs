//! Laws of the reports: what the server tells publishers about what it has
//! received, and subscribers about what it has sent.

use vstd::prelude::*;

use crate::transport::udp::rtcp_terminator::{
    after_packet, after_report, after_sr, ntp_time, receiver_report, reception_valid, report_block,
    report_block_bytes, report_blocks_bytes, sender_report, sr_ntp, Reception, RrReportBlock,
    SendStats,
};
use crate::wire::{be32, be32_bytes, lemma_be32_roundtrip};

verus! {

// ---------------------------------------------------------------------------
// What a receiver report says
// ---------------------------------------------------------------------------

/// A report refers to the sender report before it by the middle 32 bits of its
/// 64-bit NTP time, and repeats them until the next one; a stream without sender
/// report has none.
pub proof fn law_last_sr(
    s: Reception,
    hi: u32,
    lo: u32,
    seq: u16,
    rtp_ts: u32,
    arrival_ms: u64,
    jitter: u32,
    since: (u64, u32),
)
    ensures
        ({
            let middle = (hi * 0x1_0000_0000 + lo) / 0x1_0000 % 0x1_0000_0000;
            let t = after_sr(s, hi, lo);
            &&& report_block(t, jitter, since).last_sr == middle
            &&& report_block(after_packet(t, seq, rtp_ts, arrival_ms).0, jitter, since).last_sr
                == middle
            &&& report_block(after_report(t), jitter, since).last_sr == middle
        }),
{
}

/// The delay since a sender report is the time that has passed in units of 1/65536
/// second, rounded down; 0 where there was no sender report.
pub proof fn law_delay_since_sr(s: Reception, hi: u32, lo: u32, jitter: u32, secs: u64, nanos: u32)
    requires
        nanos < 1_000_000_000,
    ensures
        report_block(after_sr(s, hi, lo), jitter, (secs, nanos)).delay_since_last_sr == (secs
            * 1_000_000_000 + nanos) * 0x1_0000 / 1_000_000_000 % 0x1_0000_0000,
        !s.sr_seen ==> report_block(s, jitter, (secs, nanos)).delay_since_last_sr == 0,
{
    let whole = (secs * 1_000_000_000 + nanos) * 0x1_0000 / 1_000_000_000;
    let frac = nanos * 0x1_0000 / 1_000_000_000;
    assert(whole == secs * 0x1_0000 + frac);
    assert(frac < 0x1_0000);
    let low = secs % 0x1_0000_0000;
    let high = secs / 0x1_0000_0000;
    assert(secs == high * 0x1_0000_0000 + low);
    let w = ((low as u32).wrapping_mul(0x1_0000)) as int;
    assert(w == low * 0x1_0000 % 0x1_0000_0000);
    assert(whole % 0x1_0000_0000 == (low * 0x1_0000 + frac) % 0x1_0000_0000) by {
        assert(whole == high * 0x1_0000 * 0x1_0000_0000 + (low * 0x1_0000 + frac));
        vstd::arithmetic::div_mod::lemma_mod_multiples_vanish(
            high * 0x1_0000,
            low * 0x1_0000 + frac,
            0x1_0000_0000,
        );
    }
}

/// Whether a stream is established: it has been heard long enough to be counted,
/// and fewer packets have come than there are numbers.
pub open spec fn established(s: Reception) -> bool {
    reception_valid(s) && s.initialized && s.probation == 0
}

/// The highest number that a report gives is that of the newest packet with the
/// number of times that the numbers have wrapped above it: a packet `d` ahead moves
/// it by `d`, one that is late does not move it.
pub proof fn law_highest_number(
    s: Reception,
    seq: u16,
    rtp_ts: u32,
    arrival_ms: u64,
    jitter: u32,
    since: (u64, u32),
)
    requires
        established(s),
    ensures
        ({
            let a = report_block(s, jitter, since).extended_highest_seq;
            let t = after_packet(s, seq, rtp_ts, arrival_ms).0;
            let b = report_block(t, jitter, since).extended_highest_seq;
            &&& a % 0x1_0000 == s.max_seq
            &&& seq.wrapping_sub(s.max_seq) < 3000 ==> b == a.wrapping_add(
                seq.wrapping_sub(s.max_seq) as u32,
            ) && b % 0x1_0000 == seq
            &&& 1 <= s.max_seq.wrapping_sub(seq) <= 100 ==> b == a
        }),
{
}

/// A packet `d` ahead makes `d - 1` packets lost in the eyes of the next report;
/// each of them that still comes late, but not later than 100 packets, is taken off
/// again.
pub proof fn law_loss_adds_up(
    s: Reception,
    seq: u16,
    late: u16,
    rtp_ts: u32,
    arrival_ms: u64,
    jitter: u32,
    since: (u64, u32),
)
    requires
        established(s),
        1 <= seq.wrapping_sub(s.max_seq) < 3000,
        1 <= seq.wrapping_sub(late) <= 100,
        // Fewer packets have come than were sent, and the counts have not wrapped.
        s.base_seq <= s.cycles + s.max_seq,
        s.received < s.cycles + s.max_seq - s.base_seq + 1,
        s.cycles < 0x10_0000,
        s.received < 0x10_0000,
    ensures
        ({
            let t = after_packet(s, seq, rtp_ts, arrival_ms).0;
            let u = after_packet(t, late, rtp_ts, arrival_ms).0;
            let a = report_block(s, jitter, since).cumulative_lost;
            &&& a == s.cycles + s.max_seq - s.base_seq + 1 - s.received
            &&& report_block(t, jitter, since).cumulative_lost == a + seq.wrapping_sub(s.max_seq)
                - 1
            &&& report_block(u, jitter, since).cumulative_lost == a + seq.wrapping_sub(s.max_seq)
                - 2
        }),
{
}

/// The total loss has 23 bits and no sign: it stops at 0x7FFFFF, and where more
/// packets have come than were sent it is 0.
pub proof fn law_loss_is_bounded(s: Reception, jitter: u32, since: (u64, u32))
    ensures
        report_block(s, jitter, since).cumulative_lost <= 0x7F_FFFF,
        ({
            let expected = report_block(s, jitter, since).extended_highest_seq.wrapping_sub(
                s.base_seq,
            ).wrapping_add(1);
            &&& expected <= s.received ==> report_block(s, jitter, since).cumulative_lost == 0
            &&& expected > s.received + 0x7F_FFFF ==> report_block(s, jitter, since).cumulative_lost
                == 0x7F_FFFF
        }),
{
}

/// The share of loss since the report before: with `n` packets due and `m` of them
/// come, it is the fraction `(n - m) / n` in 256ths, rounded down.
pub proof fn law_share_of_loss(s: Reception, n: u32, m: u32, jitter: u32, since: (u64, u32))
    requires
        n > 0,
        report_block(s, jitter, since).extended_highest_seq.wrapping_sub(s.base_seq).wrapping_add(1)
            == s.expected_prior.wrapping_add(n),
        s.received == s.received_prior.wrapping_add(m),
    ensures
        ({
            let f = report_block(s, jitter, since).fraction_lost;
            &&& m >= n ==> f == 0
            &&& 0 < m < n ==> f * n <= 256 * (n - m) < (f + 1) * n
        }),
{
    if 0 < m < n {
        let d = n as int;
        let x = 256 * (n - m);
        vstd::arithmetic::div_mod::lemma_fundamental_div_mod(x, d);
        vstd::arithmetic::div_mod::lemma_mod_bound(x, d);
        let q = x / d;
        assert(d * q + x % d == x);
        assert(0 <= q < 256) by (nonlinear_arith)
            requires
                d * q + x % d == x,
                0 <= x % d < d,
                x == 256 * (n - m),
                0 < m < n,
                d == n as int,
        ;
        assert((q + 1) * d == d * q + d) by (nonlinear_arith);
        assert(q * d == d * q) by (nonlinear_arith);
        assert((n - m) * 256 == x);
        assert(q % 256 == q);
    }
}

/// A report closes an interval: the next one counts its share from there on, and
/// all else of the stream is as it was.
pub proof fn law_report_closes_interval(
    s: Reception,
    seq: u16,
    rtp_ts: u32,
    arrival_ms: u64,
    jitter: u32,
    since: (u64, u32),
)
    requires
        established(s),
        seq == s.max_seq.wrapping_add(1),
    ensures
        ({
            let t = after_packet(after_report(s), seq, rtp_ts, arrival_ms).0;
            &&& report_block(after_report(s), jitter, since).fraction_lost == 0
            &&& report_block(t, jitter, since).fraction_lost == 0
            &&& report_block(after_report(s), jitter, since).cumulative_lost == report_block(
                s,
                jitter,
                since,
            ).cumulative_lost
            &&& report_block(after_report(s), jitter, since).extended_highest_seq == report_block(
                s,
                jitter,
                since,
            ).extended_highest_seq
        }),
{
}

/// A report is on the stream that it was made from, and gives the jitter on.
pub proof fn law_report_names_stream(s: Reception, jitter: u32, since: (u64, u32))
    ensures
        report_block(s, jitter, since).ssrc == s.ssrc,
        report_block(s, jitter, since).jitter == jitter,
{
}

// ---------------------------------------------------------------------------
// How packets are counted
// ---------------------------------------------------------------------------

/// A stream counts from its second packet in sequence on: one packet is then due
/// and one has come, so that nothing is lost.
pub proof fn law_stream_is_established(
    s: Reception,
    seq: u16,
    ts: u32,
    ts2: u32,
    at: u64,
    at2: u64,
    jitter: u32,
    since: (u64, u32),
)
    requires
        reception_valid(s),
        !s.initialized,
    ensures
        ({
            let next = seq.wrapping_add(1);
            let t = after_packet(after_packet(s, seq, ts, at).0, next, ts2, at2).0;
            &&& t.initialized && t.probation == 0
            &&& report_block(t, jitter, since).extended_highest_seq == next
            &&& report_block(t, jitter, since).cumulative_lost == 0
            &&& report_block(t, jitter, since).fraction_lost == 0
            &&& t.received == 1
        }),
{
}

/// A packet that is out of sequence does not establish a stream.
pub proof fn law_stray_packet_establishes_nothing(
    s: Reception,
    seq: u16,
    other: u16,
    ts: u32,
    at: u64,
)
    requires
        reception_valid(s),
        !s.initialized,
        other != seq.wrapping_add(1),
    ensures
        ({
            let t = after_packet(after_packet(s, seq, ts, at).0, other, ts, at).0;
            &&& t.probation > 0
            &&& after_packet(t, other.wrapping_add(1), ts, at).0.probation == 0
        }),
{
}

/// A packet far away from the others is not counted; a second one right behind it
/// shows that the source has started again, and the counts start again with it.
pub proof fn law_source_starts_again(
    s: Reception,
    seq: u16,
    ts: u32,
    ts2: u32,
    at: u64,
    at2: u64,
    jitter: u32,
    since: (u64, u32),
)
    requires
        established(s),
        3000 <= seq.wrapping_sub(s.max_seq) <= 65434,
        seq < 65535,
        s.bad_seq != seq,
    ensures
        ({
            let t = after_packet(s, seq, ts, at).0;
            let u = after_packet(t, (seq + 1) as u16, ts2, at2).0;
            &&& t.received == s.received
            &&& report_block(t, jitter, since).extended_highest_seq == report_block(
                s,
                jitter,
                since,
            ).extended_highest_seq
            &&& report_block(t, jitter, since).cumulative_lost == report_block(
                s,
                jitter,
                since,
            ).cumulative_lost
            &&& u.received == 1
            &&& report_block(u, jitter, since).extended_highest_seq == seq + 1
            &&& report_block(u, jitter, since).cumulative_lost == 0
        }),
{
}

/// The absolute value.
pub open spec fn magnitude(x: int) -> int {
    if x < 0 {
        -x
    } else {
        x
    }
}

/// What two packets in sequence contribute to the jitter: by how much the distance
/// of their arrivals, in ticks of the clock, differs from the distance of their
/// timestamps.
pub proof fn law_jitter_sample(s: Reception, seq: u16, ts: u32, ts2: u32, at: u64, at2: u64)
    requires
        established(s),
        seq == s.max_seq.wrapping_add(1),
        at * s.clock_rate / 1000 != ts,
    ensures
        after_packet(after_packet(s, seq, ts, at).0, seq.wrapping_add(1), ts2, at2).1 == Some(
            magnitude((at2 * s.clock_rate / 1000 - at * s.clock_rate / 1000) - (ts2 - ts)),
        ),
{
}

// ---------------------------------------------------------------------------
// The packets
// ---------------------------------------------------------------------------

/// The big-endian 24-bit integer at `i`.
pub open spec fn be24(s: Seq<u8>, i: int) -> int {
    s[i] * 0x1_0000 + s[i + 1] * 0x100 + s[i + 2]
}

proof fn lemma_blocks_at(blocks: Seq<RrReportBlock>, n: int, k: int)
    requires
        0 <= k < n,
    ensures
        report_blocks_bytes(blocks, n).len() == 24 * n,
        report_blocks_bytes(blocks, n).subrange(24 * k, 24 * k + 24) == report_block_bytes(
            blocks[k],
        ),
    decreases n,
{
    let all = report_blocks_bytes(blocks, n);
    let rest = report_blocks_bytes(blocks, n - 1);
    if n > 1 {
        lemma_blocks_at(blocks, n - 1, if k < n - 1 { k } else { 0 });
    }
    assert(rest.len() == 24 * (n - 1));
    if k < n - 1 {
        assert(all.subrange(24 * k, 24 * k + 24) =~= rest.subrange(24 * k, 24 * k + 24));
    } else {
        assert(all.subrange(24 * k, 24 * k + 24) =~= report_block_bytes(blocks[k]));
    }
}

proof fn lemma_part(pre: Seq<u8>, v: u32, post: Seq<u8>)
    ensures
        be32(pre + be32_bytes(v) + post, pre.len() as int) == v,
{
    let s = pre + be32_bytes(v) + post;
    let n = pre.len() as int;
    assert(s.subrange(n, n + 4) =~= be32_bytes(v));
    lemma_be32_roundtrip(s, n, v);
}

proof fn lemma_shift(r: Seq<u8>, at: int, x: Seq<u8>, k: int)
    requires
        0 <= at,
        at + 24 <= r.len(),
        r.subrange(at, at + 24) == x,
        0 <= k <= 20,
    ensures
        be32(r, at + k) == be32(x, k),
{
    assert(x[k] == r[at + k] && x[k + 1] == r[at + k + 1]);
    assert(x[k + 2] == r[at + k + 2] && x[k + 3] == r[at + k + 3]);
}

proof fn lemma_block_fields(b: RrReportBlock, loss: Seq<u8>)
    requires
        loss == seq![
            b.fraction_lost,
            (b.cumulative_lost / 0x1_0000 % 0x100) as u8,
            (b.cumulative_lost / 0x100 % 0x100) as u8,
            (b.cumulative_lost % 0x100) as u8,
        ],
    ensures
        ({
            let x = report_block_bytes(b);
            &&& x.len() == 24
            &&& x.subrange(4, 8) == loss
            &&& be32(x, 0) == b.ssrc
            &&& be32(x, 8) == b.extended_highest_seq
            &&& be32(x, 12) == b.jitter
            &&& be32(x, 16) == b.last_sr
            &&& be32(x, 20) == b.delay_since_last_sr
        }),
{
    let x = report_block_bytes(b);
    let s0 = be32_bytes(b.ssrc);
    let s2 = be32_bytes(b.extended_highest_seq);
    let s3 = be32_bytes(b.jitter);
    let s4 = be32_bytes(b.last_sr);
    let s5 = be32_bytes(b.delay_since_last_sr);
    let e = Seq::<u8>::empty();
    assert(x == s0 + loss + s2 + s3 + s4 + s5);
    lemma_six_parts(s0, loss, s2, s3, s4, s5);
    lemma_part(e, b.ssrc, loss + s2 + s3 + s4 + s5);
    lemma_part(s0 + loss, b.extended_highest_seq, s3 + s4 + s5);
    lemma_part(s0 + loss + s2, b.jitter, s4 + s5);
    lemma_part(s0 + loss + s2 + s3, b.last_sr, s5);
    lemma_part(s0 + loss + s2 + s3 + s4, b.delay_since_last_sr, e);
}

proof fn lemma_six_parts(
    a: Seq<u8>,
    b: Seq<u8>,
    c: Seq<u8>,
    d: Seq<u8>,
    e: Seq<u8>,
    f: Seq<u8>,
)
    requires
        a.len() == 4 && b.len() == 4 && c.len() == 4 && d.len() == 4 && e.len() == 4 && f.len()
            == 4,
    ensures
        ({
            let x = a + b + c + d + e + f;
            let o = Seq::<u8>::empty();
            &&& x.len() == 24
            &&& x.subrange(4, 8) == b
            &&& x == o + a + (b + c + d + e + f)
            &&& x == (a + b) + c + (d + e + f)
            &&& x == (a + b + c) + d + (e + f)
            &&& x == (a + b + c + d) + e + f
            &&& x == (a + b + c + d + e) + f + o
        }),
{
    let x = a + b + c + d + e + f;
    let o = Seq::<u8>::empty();
    assert(x.subrange(4, 8) =~= b);
    assert(x =~= o + a + (b + c + d + e + f));
    assert(x =~= (a + b) + c + (d + e + f));
    assert(x =~= (a + b + c) + d + (e + f));
    assert(x =~= (a + b + c + d + e) + f + o);
}

proof fn lemma_block_reads_back(r: Seq<u8>, at: int, b: RrReportBlock)
    requires
        0 <= at,
        at + 24 <= r.len(),
        r.subrange(at, at + 24) == report_block_bytes(b),
        b.cumulative_lost <= 0x7F_FFFF,
    ensures
        be32(r, at) == b.ssrc,
        r[at + 4] == b.fraction_lost,
        be24(r, at + 5) == b.cumulative_lost,
        be32(r, at + 8) == b.extended_highest_seq,
        be32(r, at + 12) == b.jitter,
        be32(r, at + 16) == b.last_sr,
        be32(r, at + 20) == b.delay_since_last_sr,
{
    let loss = seq![
        b.fraction_lost,
        (b.cumulative_lost / 0x1_0000 % 0x100) as u8,
        (b.cumulative_lost / 0x100 % 0x100) as u8,
        (b.cumulative_lost % 0x100) as u8,
    ];
    lemma_block_fields(b, loss);
    lemma_block_at(r, at, report_block_bytes(b), loss);
    lemma_three_bytes(b.cumulative_lost);
}

proof fn lemma_three_bytes(c: u32)
    requires
        c <= 0x7F_FFFF,
    ensures
        (c / 0x1_0000 % 0x100) * 0x1_0000 + (c / 0x100 % 0x100) * 0x100 + c % 0x100 == c,
{
}

proof fn lemma_block_at(r: Seq<u8>, at: int, x: Seq<u8>, loss: Seq<u8>)
    requires
        0 <= at,
        at + 24 <= r.len(),
        r.subrange(at, at + 24) == x,
        x.subrange(4, 8) == loss,
        loss.len() == 4,
    ensures
        be32(r, at) == be32(x, 0),
        r[at + 4] == loss[0] && r[at + 5] == loss[1] && r[at + 6] == loss[2] && r[at + 7]
            == loss[3],
        be32(r, at + 8) == be32(x, 8),
        be32(r, at + 12) == be32(x, 12),
        be32(r, at + 16) == be32(x, 16),
        be32(r, at + 20) == be32(x, 20),
{
    lemma_shift(r, at, x, 0);
    lemma_shift(r, at, x, 8);
    lemma_shift(r, at, x, 12);
    lemma_shift(r, at, x, 16);
    lemma_shift(r, at, x, 20);
    assert(loss[0] == x[4] && loss[1] == x[5] && loss[2] == x[6] && loss[3] == x[7]);
    assert(x[4] == r[at + 4] && x[5] == r[at + 5] && x[6] == r[at + 6] && x[7] == r[at + 7]);
}

/// A receiver report (RFC 3550) reads back: version 2, packet type 201, the number
/// of blocks, the SSRC of its sender, and in each block the seven figures.
pub proof fn law_receiver_report_reads_back(
    sender_ssrc: u32,
    blocks: Seq<RrReportBlock>,
    k: int,
)
    requires
        0 <= k < blocks.len() <= 31,
        blocks[k].cumulative_lost <= 0x7F_FFFF,
    ensures
        ({
            let r = receiver_report(sender_ssrc, blocks);
            let b = blocks[k];
            let at = 8 + 24 * k;
            &&& r.len() == 8 + 24 * blocks.len()
            &&& r[0] == 0x80 + blocks.len() && r[1] == 201
            &&& r[2] == 0 && r[3] == 1 + 6 * blocks.len()
            &&& be32(r, 4) == sender_ssrc
            &&& be32(r, at) == b.ssrc
            &&& r[at + 4] == b.fraction_lost
            &&& be24(r, at + 5) == b.cumulative_lost
            &&& be32(r, at + 8) == b.extended_highest_seq
            &&& be32(r, at + 12) == b.jitter
            &&& be32(r, at + 16) == b.last_sr
            &&& be32(r, at + 20) == b.delay_since_last_sr
        }),
{
    let n = blocks.len() as int;
    let r = receiver_report(sender_ssrc, blocks);
    let at = 8 + 24 * k;
    let body = report_blocks_bytes(blocks, n);
    lemma_blocks_at(blocks, n, k);
    assert(r.len() == 8 + body.len());
    assert(r.subrange(4, 8) =~= be32_bytes(sender_ssrc));
    lemma_be32_roundtrip(r, 4, sender_ssrc);
    assert(r.subrange(at, at + 24) =~= body.subrange(24 * k, 24 * k + 24));
    lemma_block_reads_back(r, at, blocks[k]);
}

/// A sender report (RFC 3550) reads back: version 2, packet type 200, the length of
/// seven words, and the figures of the stream. Its RTP time is that of the last
/// packet, moved on with the clock.
pub proof fn law_sender_report_reads_back(s: SendStats, ntp: (u32, u32), elapsed_ms: u64)
    ensures
        ({
            let r = sender_report(s, ntp, elapsed_ms);
            &&& r.len() == 28
            &&& r[0] == 0x80 && r[1] == 200 && r[2] == 0 && r[3] == 6
            &&& be32(r, 4) == s.ssrc
            &&& be32(r, 8) == ntp.0
            &&& be32(r, 12) == ntp.1
            &&& s.last_send_time is Some ==> be32(r, 16) == (s.last_rtp_ts + elapsed_ms
                * s.clock_rate / 1000) % 0x1_0000_0000
            &&& s.last_send_time is None ==> be32(r, 16) == 0
            &&& be32(r, 20) == s.packets_sent
            &&& be32(r, 24) == s.bytes_sent
        }),
{
    let r = sender_report(s, ntp, elapsed_ms);
    let ts = crate::transport::udp::rtcp_terminator::report_rtp_ts(s, elapsed_ms);
    assert(r.subrange(4, 8) =~= be32_bytes(s.ssrc));
    lemma_be32_roundtrip(r, 4, s.ssrc);
    assert(r.subrange(8, 12) =~= be32_bytes(ntp.0));
    lemma_be32_roundtrip(r, 8, ntp.0);
    assert(r.subrange(12, 16) =~= be32_bytes(ntp.1));
    lemma_be32_roundtrip(r, 12, ntp.1);
    assert(r.subrange(16, 20) =~= be32_bytes(ts));
    lemma_be32_roundtrip(r, 16, ts);
    assert(r.subrange(20, 24) =~= be32_bytes(s.packets_sent));
    lemma_be32_roundtrip(r, 20, s.packets_sent);
    assert(r.subrange(24, 28) =~= be32_bytes(s.bytes_sent));
    lemma_be32_roundtrip(r, 24, s.bytes_sent);
}

/// NTP time counts from 1900, 70 years with 17 leap days before the Unix epoch; its
/// fraction is that of the second in units of 2^-32, rounded down.
pub proof fn law_ntp_time(secs: u64, nanos: u32)
    requires
        nanos < 1_000_000_000,
    ensures
        ntp_time(secs, nanos).0 == (secs + (70 * 365 + 17) * 86400) % 0x1_0000_0000,
        ntp_time(secs, nanos).1 * 1_000_000_000 <= nanos * 0x1_0000_0000 < (ntp_time(secs, nanos).1
            + 1) * 1_000_000_000,
{
    let frac = nanos * 0x1_0000_0000 / 1_000_000_000;
    assert(frac < 0x1_0000_0000);
}

/// A block is a sender report exactly where its packet type is 200 and it holds the
/// sender's information; what is read of it is who sent it and when.
pub proof fn law_sender_report_is_told(b: Seq<u8>)
    ensures
        sr_ntp(b) is Some <==> b.len() >= 28 && b[1] == 200,
        sr_ntp(b) matches Some((ssrc, hi, lo)) ==> ssrc == be32(b, 4) && hi == be32(b, 8) && lo
            == be32(b, 12),
{
}

} // verus!
