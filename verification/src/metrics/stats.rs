//! Counters and measurements.

use vstd::prelude::*;

use crate::config;
use crate::signaling::handler::floor_ops::FloorCounts;
use crate::transport::udp::fanout::Fanout;
use crate::transport::udp::nack::NackCounts;

verus! {

// ---------------------------------------------------------------------------
// Durations
// ---------------------------------------------------------------------------

/// Durations in microseconds: how many, their sum, the least and the greatest.
#[derive(Debug, Clone, Copy, PartialEq, Eq, Structural)]
pub struct TimingStat {
    pub sum_us: u64,
    pub count: u64,
    pub min_us: u64,
    pub max_us: u64,
}

/// What is reported of durations.
#[derive(Debug, Clone, Copy, PartialEq, Eq, Structural)]
pub struct TimingReport {
    pub avg_us: u64,
    pub min_us: u64,
    pub max_us: u64,
    pub count: u64,
}

pub open spec fn no_timing() -> TimingStat {
    TimingStat { sum_us: 0, count: 0, min_us: u64::MAX, max_us: 0 }
}

/// With one duration more. Sum and number wrap.
pub open spec fn timed(s: TimingStat, us: u64) -> TimingStat {
    TimingStat {
        sum_us: s.sum_us.wrapping_add(us),
        count: s.count.wrapping_add(1),
        min_us: if us < s.min_us { us } else { s.min_us },
        max_us: if us > s.max_us { us } else { s.max_us },
    }
}

/// What is reported; nothing where nothing was measured.
pub open spec fn timing_report(s: TimingStat) -> Option<TimingReport> {
    if s.count == 0 {
        None
    } else {
        Some(
            TimingReport {
                avg_us: s.sum_us / s.count,
                min_us: if s.min_us == u64::MAX { 0 } else { s.min_us },
                max_us: s.max_us,
                count: s.count,
            },
        )
    }
}

impl TimingStat {
    pub fn new() -> (r: Self)
        ensures
            r == no_timing(),
    {
        TimingStat { sum_us: 0, count: 0, min_us: u64::MAX, max_us: 0 }
    }

    pub fn record(&mut self, us: u64)
        ensures
            *final(self) == timed(*old(self), us),
    {
        self.sum_us = self.sum_us.wrapping_add(us);
        self.count = self.count.wrapping_add(1);
        if us > self.max_us {
            self.max_us = us;
        }
        if us < self.min_us {
            self.min_us = us;
        }
    }

    /// Takes the report out.
    pub fn flush(&mut self) -> (r: Option<TimingReport>)
        ensures
            r == timing_report(*old(self)),
            *final(self) == no_timing(),
    {
        let s: TimingStat = *self;
        *self = TimingStat::new();
        if s.count == 0 {
            return None;
        }
        Some(
            TimingReport {
                avg_us: s.sum_us / s.count,
                min_us: if s.min_us == u64::MAX {
                    0
                } else {
                    s.min_us
                },
                max_us: s.max_us,
                count: s.count,
            },
        )
    }
}

/// After the first `n` durations.
pub open spec fn timed_all(samples: Seq<u64>, n: int) -> TimingStat
    decreases n,
{
    if n <= 0 {
        no_timing()
    } else {
        timed(timed_all(samples, n - 1), samples[n - 1])
    }
}

/// The sum of the first `n` durations.
pub open spec fn total_us(samples: Seq<u64>, n: int) -> nat
    decreases n,
{
    if n <= 0 {
        0
    } else {
        total_us(samples, n - 1) + samples[n - 1] as nat
    }
}

/// As long as sum and number fit, the figures are what they say: the number, the
/// sum, and bounds that are met.
pub proof fn law_timing_is_exact(samples: Seq<u64>, n: int)
    requires
        0 < n <= samples.len(),
        n <= u64::MAX,
        total_us(samples, n) <= u64::MAX,
    ensures
        timed_all(samples, n).count == n,
        timed_all(samples, n).sum_us == total_us(samples, n),
        forall|i: int|
            0 <= i < n ==> timed_all(samples, n).min_us <= #[trigger] samples[i]
                <= timed_all(samples, n).max_us,
        exists|i: int| 0 <= i < n && #[trigger] samples[i] == timed_all(samples, n).min_us,
        exists|i: int| 0 <= i < n && #[trigger] samples[i] == timed_all(samples, n).max_us,
    decreases n,
{
    let s = timed_all(samples, n);
    let before = timed_all(samples, n - 1);
    let x = samples[n - 1];
    if n > 1 {
        law_timing_is_exact(samples, n - 1);
        let lo = choose|i: int| 0 <= i < n - 1 && #[trigger] samples[i] == before.min_us;
        let hi = choose|i: int| 0 <= i < n - 1 && #[trigger] samples[i] == before.max_us;
        assert(samples[lo] == before.min_us);
        assert(samples[hi] == before.max_us);
        assert forall|i: int| 0 <= i < n implies s.min_us <= #[trigger] samples[i] <= s.max_us by {
            if i < n - 1 {
                assert(before.min_us <= samples[i] <= before.max_us);
            }
        }
    } else {
        assert(before == no_timing());
        assert(total_us(samples, 0) == 0);
        assert(s == timed(no_timing(), x));
        assert(samples[0] == x);
        assert(s.min_us == x && s.max_us == x);
    }
    assert(samples[n - 1] == x);
}

// ---------------------------------------------------------------------------
// Fan-out
// ---------------------------------------------------------------------------

/// To how many subscribers packets went.
#[derive(Debug, Clone, Copy, PartialEq, Eq, Structural)]
pub struct FanOutStat {
    pub sum: u64,
    pub count: u64,
    pub min: u32,
    pub max: u32,
}

/// What is reported of it; the average is `sum` over `count`.
#[derive(Debug, Clone, Copy, PartialEq, Eq, Structural)]
pub struct FanOutReport {
    pub sum: u64,
    pub count: u64,
    pub min: u32,
    pub max: u32,
}

pub open spec fn no_fan_out() -> FanOutStat {
    FanOutStat { sum: 0, count: 0, min: u32::MAX, max: 0 }
}

impl FanOutStat {
    pub fn new() -> (r: Self)
        ensures
            r == no_fan_out(),
    {
        FanOutStat { sum: 0, count: 0, min: u32::MAX, max: 0 }
    }

    pub fn record_fan_out(&mut self, n: u32)
        ensures
            *final(self) == (FanOutStat {
                sum: old(self).sum.wrapping_add(n as u64),
                count: old(self).count.wrapping_add(1),
                min: if n < old(self).min { n } else { old(self).min },
                max: if n > old(self).max { n } else { old(self).max },
            }),
    {
        self.sum = self.sum.wrapping_add(n as u64);
        self.count = self.count.wrapping_add(1);
        if n > self.max {
            self.max = n;
        }
        if n < self.min {
            self.min = n;
        }
    }

    /// Takes the report out.
    pub fn flush(&mut self) -> (r: FanOutReport)
        ensures
            *final(self) == no_fan_out(),
            r == (FanOutReport {
                sum: old(self).sum,
                count: old(self).count,
                min: if old(self).min == u32::MAX { 0 } else { old(self).min },
                max: old(self).max,
            }),
    {
        let s: FanOutStat = *self;
        *self = FanOutStat::new();
        FanOutReport {
            sum: s.sum,
            count: s.count,
            min: if s.min == u32::MAX {
                0
            } else {
                s.min
            },
            max: s.max,
        }
    }
}

// ---------------------------------------------------------------------------
// Counters
// ---------------------------------------------------------------------------

/// How often things happened. The counts wrap.
#[derive(Debug, Clone, Copy, PartialEq, Eq, Structural)]
pub struct Counters {
    pub encrypt_fail: u64,
    pub decrypt_fail: u64,
    pub nack_received: u64,
    pub nack_seqs_requested: u64,
    pub rtx_sent: u64,
    pub rtx_cache_miss: u64,
    /// Retransmissions that were not sent any more.
    pub rtx_budget_exceeded: u64,
    pub pli_sent: u64,
    pub sr_relayed: u64,
    pub rr_relayed: u64,
    /// Receiver reports that ended here.
    pub rr_consumed: u64,
    /// Report blocks that the server sent.
    pub rr_generated: u64,
    pub twcc_sent: u64,
    pub twcc_recorded: u64,
    pub remb_sent: u64,
    pub sub_rtcp_received: u64,
    pub sub_rtcp_not_rtcp: u64,
    pub sub_rtcp_decrypted: u64,
    pub rtp_cache_stored: u64,
    pub nack_publisher_not_found: u64,
    pub nack_no_rtx_ssrc: u64,
    pub rtp_cache_lock_fail: u64,
    pub egress_drop: u64,
    /// Media received and decrypted.
    pub ingress_rtp_received: u64,
    /// Media queued for subscribers.
    pub egress_rtp_relayed: u64,
    /// Reports queued for subscribers.
    pub egress_rtcp_relayed: u64,
    pub spawn_rtp_relayed: u64,
    pub spawn_sr_relayed: u64,
    pub spawn_encrypt_fail: u64,
    pub tracks_ack_mismatch: u64,
    pub tracks_resync_sent: u64,
    /// Media dropped because somebody else has the floor.
    pub ptt_rtp_gated: u64,
    pub ptt_rtp_rewritten: u64,
    /// Video dropped for want of a key frame.
    pub ptt_video_pending_drop: u64,
    pub ptt_keyframe_arrived: u64,
    pub ptt_floor_granted: u64,
    pub ptt_floor_revoked: u64,
    pub ptt_floor_preempted: u64,
    pub ptt_floor_queued: u64,
    pub ptt_floor_queue_pop: u64,
    /// Requests about a room's stream.
    pub ptt_nack_remapped: u64,
    pub ptt_floor_released: u64,
    pub ptt_speaker_switches: u64,
    pub ptt_audio_rewritten: u64,
    pub ptt_video_rewritten: u64,
    /// Video of somebody who is not the speaker of the stream.
    pub ptt_video_skip: u64,
}

pub open spec fn no_counts() -> Counters {
    Counters {
        encrypt_fail: 0,
        decrypt_fail: 0,
        nack_received: 0,
        nack_seqs_requested: 0,
        rtx_sent: 0,
        rtx_cache_miss: 0,
        rtx_budget_exceeded: 0,
        pli_sent: 0,
        sr_relayed: 0,
        rr_relayed: 0,
        rr_consumed: 0,
        rr_generated: 0,
        twcc_sent: 0,
        twcc_recorded: 0,
        remb_sent: 0,
        sub_rtcp_received: 0,
        sub_rtcp_not_rtcp: 0,
        sub_rtcp_decrypted: 0,
        rtp_cache_stored: 0,
        nack_publisher_not_found: 0,
        nack_no_rtx_ssrc: 0,
        rtp_cache_lock_fail: 0,
        egress_drop: 0,
        ingress_rtp_received: 0,
        egress_rtp_relayed: 0,
        egress_rtcp_relayed: 0,
        spawn_rtp_relayed: 0,
        spawn_sr_relayed: 0,
        spawn_encrypt_fail: 0,
        tracks_ack_mismatch: 0,
        tracks_resync_sent: 0,
        ptt_rtp_gated: 0,
        ptt_rtp_rewritten: 0,
        ptt_video_pending_drop: 0,
        ptt_keyframe_arrived: 0,
        ptt_floor_granted: 0,
        ptt_floor_revoked: 0,
        ptt_floor_preempted: 0,
        ptt_floor_queued: 0,
        ptt_floor_queue_pop: 0,
        ptt_nack_remapped: 0,
        ptt_floor_released: 0,
        ptt_speaker_switches: 0,
        ptt_audio_rewritten: 0,
        ptt_video_rewritten: 0,
        ptt_video_skip: 0,
    }
}

impl Counters {
    pub fn new() -> (r: Self)
        ensures
            r == no_counts(),
    {
        Counters {
            encrypt_fail: 0,
            decrypt_fail: 0,
            nack_received: 0,
            nack_seqs_requested: 0,
            rtx_sent: 0,
            rtx_cache_miss: 0,
            rtx_budget_exceeded: 0,
            pli_sent: 0,
            sr_relayed: 0,
            rr_relayed: 0,
            rr_consumed: 0,
            rr_generated: 0,
            twcc_sent: 0,
            twcc_recorded: 0,
            remb_sent: 0,
            sub_rtcp_received: 0,
            sub_rtcp_not_rtcp: 0,
            sub_rtcp_decrypted: 0,
            rtp_cache_stored: 0,
            nack_publisher_not_found: 0,
            nack_no_rtx_ssrc: 0,
            rtp_cache_lock_fail: 0,
            egress_drop: 0,
            ingress_rtp_received: 0,
            egress_rtp_relayed: 0,
            egress_rtcp_relayed: 0,
            spawn_rtp_relayed: 0,
            spawn_sr_relayed: 0,
            spawn_encrypt_fail: 0,
            tracks_ack_mismatch: 0,
            tracks_resync_sent: 0,
            ptt_rtp_gated: 0,
            ptt_rtp_rewritten: 0,
            ptt_video_pending_drop: 0,
            ptt_keyframe_arrived: 0,
            ptt_floor_granted: 0,
            ptt_floor_revoked: 0,
            ptt_floor_preempted: 0,
            ptt_floor_queued: 0,
            ptt_floor_queue_pop: 0,
            ptt_nack_remapped: 0,
            ptt_floor_released: 0,
            ptt_speaker_switches: 0,
            ptt_audio_rewritten: 0,
            ptt_video_rewritten: 0,
            ptt_video_skip: 0,
        }
    }

    /// Counts what requests for lost packets came to.
    pub fn add_nack(&mut self, c: &NackCounts)
        ensures
            *final(self) == (Counters {
                nack_seqs_requested: old(self).nack_seqs_requested.wrapping_add(c.seqs_requested),
                ptt_nack_remapped: old(self).ptt_nack_remapped.wrapping_add(c.ptt_remapped),
                nack_publisher_not_found: old(self).nack_publisher_not_found.wrapping_add(
                    c.publisher_not_found,
                ),
                nack_no_rtx_ssrc: old(self).nack_no_rtx_ssrc.wrapping_add(c.no_rtx_ssrc),
                rtx_cache_miss: old(self).rtx_cache_miss.wrapping_add(c.cache_miss),
                rtx_budget_exceeded: old(self).rtx_budget_exceeded.wrapping_add(c.budget_exceeded),
                rtx_sent: old(self).rtx_sent.wrapping_add(c.rtx_sent),
                ..*old(self)
            }),
    {
        self.nack_seqs_requested = self.nack_seqs_requested.wrapping_add(c.seqs_requested);
        self.ptt_nack_remapped = self.ptt_nack_remapped.wrapping_add(c.ptt_remapped);
        self.nack_publisher_not_found = self.nack_publisher_not_found.wrapping_add(
            c.publisher_not_found,
        );
        self.nack_no_rtx_ssrc = self.nack_no_rtx_ssrc.wrapping_add(c.no_rtx_ssrc);
        self.rtx_cache_miss = self.rtx_cache_miss.wrapping_add(c.cache_miss);
        self.rtx_budget_exceeded = self.rtx_budget_exceeded.wrapping_add(c.budget_exceeded);
        self.rtx_sent = self.rtx_sent.wrapping_add(c.rtx_sent);
    }

    /// Counts what happened to the floor. Whoever is granted it speaks.
    pub fn add_floor(&mut self, c: &FloorCounts)
        ensures
            *final(self) == (Counters {
                ptt_floor_granted: old(self).ptt_floor_granted.wrapping_add(c.granted),
                ptt_speaker_switches: old(self).ptt_speaker_switches.wrapping_add(c.granted),
                ptt_floor_revoked: old(self).ptt_floor_revoked.wrapping_add(c.revoked),
                ptt_floor_preempted: old(self).ptt_floor_preempted.wrapping_add(c.preempted),
                ptt_floor_queued: old(self).ptt_floor_queued.wrapping_add(c.queued),
                ptt_floor_released: old(self).ptt_floor_released.wrapping_add(c.released),
                ptt_floor_queue_pop: old(self).ptt_floor_queue_pop.wrapping_add(c.queue_pop),
                ..*old(self)
            }),
    {
        self.ptt_floor_granted = self.ptt_floor_granted.wrapping_add(c.granted);
        self.ptt_speaker_switches = self.ptt_speaker_switches.wrapping_add(c.granted);
        self.ptt_floor_revoked = self.ptt_floor_revoked.wrapping_add(c.revoked);
        self.ptt_floor_preempted = self.ptt_floor_preempted.wrapping_add(c.preempted);
        self.ptt_floor_queued = self.ptt_floor_queued.wrapping_add(c.queued);
        self.ptt_floor_released = self.ptt_floor_released.wrapping_add(c.released);
        self.ptt_floor_queue_pop = self.ptt_floor_queue_pop.wrapping_add(c.queue_pop);
    }

    /// Counts what became of a media packet in a push-to-talk room; `keyframe`
    /// says whether it held a key frame.
    pub fn add_fanout(&mut self, o: &Fanout, pt: u8, keyframe: bool)
        ensures
            *final(self) == fanout_counted(*old(self), *o, pt, keyframe),
    {
        let video: bool = pt == config::VP8_PAYLOAD_TYPE;
        let audio: bool = pt == config::OPUS_PAYLOAD_TYPE;
        match o {
            Fanout::Gated => {
                self.ptt_rtp_gated = self.ptt_rtp_gated.wrapping_add(1);
                return;
            },
            Fanout::Plain(_) => {
                return;
            },
            Fanout::PendingKeyframe => {
                self.ptt_video_pending_drop = self.ptt_video_pending_drop.wrapping_add(1);
            },
            Fanout::Rewritten(_) => {
                self.ptt_rtp_rewritten = self.ptt_rtp_rewritten.wrapping_add(1);
                if audio {
                    self.ptt_audio_rewritten = self.ptt_audio_rewritten.wrapping_add(1);
                }
                if video {
                    self.ptt_video_rewritten = self.ptt_video_rewritten.wrapping_add(1);
                }
            },
            Fanout::Skipped(_) => {
                if video {
                    self.ptt_video_skip = self.ptt_video_skip.wrapping_add(1);
                }
            },
        }
        if video && keyframe {
            self.ptt_keyframe_arrived = self.ptt_keyframe_arrived.wrapping_add(1);
        }
    }

    /// Takes the counts out.
    pub fn flush(&mut self) -> (r: Counters)
        ensures
            r == *old(self),
            *final(self) == no_counts(),
    {
        let r: Counters = *self;
        *self = Counters::new();
        r
    }
}

/// With what became of a media packet.
pub open spec fn fanout_counted(c: Counters, o: Fanout, pt: u8, keyframe: bool) -> Counters {
    let video = pt == config::VP8_PAYLOAD_TYPE;
    let arrived = if video && keyframe && !(o is Gated) && !(o is Plain) {
        c.ptt_keyframe_arrived.wrapping_add(1)
    } else {
        c.ptt_keyframe_arrived
    };
    match o {
        Fanout::Gated => Counters { ptt_rtp_gated: c.ptt_rtp_gated.wrapping_add(1), ..c },
        Fanout::Plain(_) => c,
        Fanout::PendingKeyframe => Counters {
            ptt_video_pending_drop: c.ptt_video_pending_drop.wrapping_add(1),
            ptt_keyframe_arrived: arrived,
            ..c
        },
        Fanout::Rewritten(_) => Counters {
            ptt_rtp_rewritten: c.ptt_rtp_rewritten.wrapping_add(1),
            ptt_audio_rewritten: if pt == config::OPUS_PAYLOAD_TYPE {
                c.ptt_audio_rewritten.wrapping_add(1)
            } else {
                c.ptt_audio_rewritten
            },
            ptt_video_rewritten: if video {
                c.ptt_video_rewritten.wrapping_add(1)
            } else {
                c.ptt_video_rewritten
            },
            ptt_keyframe_arrived: arrived,
            ..c
        },
        Fanout::Skipped(_) => Counters {
            ptt_video_skip: if video {
                c.ptt_video_skip.wrapping_add(1)
            } else {
                c.ptt_video_skip
            },
            ptt_keyframe_arrived: arrived,
            ..c
        },
    }
}

// ---------------------------------------------------------------------------
// All together
// ---------------------------------------------------------------------------

#[derive(Debug)]
pub struct GlobalMetrics {
    pub decrypt: TimingStat,
    pub lock_wait: TimingStat,
    pub egress_encrypt: TimingStat,
    pub fan_out: FanOutStat,
    pub counters: Counters,
}

/// What is reported.
#[derive(Debug)]
pub struct MetricsReport {
    pub decrypt: Option<TimingReport>,
    pub lock_wait: Option<TimingReport>,
    pub egress_encrypt: Option<TimingReport>,
    pub fan_out: FanOutReport,
    pub counters: Counters,
}

pub open spec fn no_metrics() -> GlobalMetrics {
    GlobalMetrics {
        decrypt: no_timing(),
        lock_wait: no_timing(),
        egress_encrypt: no_timing(),
        fan_out: no_fan_out(),
        counters: no_counts(),
    }
}

/// The report on all figures.
pub open spec fn metrics_report(m: GlobalMetrics) -> MetricsReport {
    MetricsReport {
        decrypt: timing_report(m.decrypt),
        lock_wait: timing_report(m.lock_wait),
        egress_encrypt: timing_report(m.egress_encrypt),
        fan_out: FanOutReport {
            sum: m.fan_out.sum,
            count: m.fan_out.count,
            min: if m.fan_out.min == u32::MAX { 0 } else { m.fan_out.min },
            max: m.fan_out.max,
        },
        counters: m.counters,
    }
}

impl GlobalMetrics {
    pub fn new() -> (r: Self)
        ensures
            r == no_metrics(),
    {
        GlobalMetrics {
            decrypt: TimingStat::new(),
            lock_wait: TimingStat::new(),
            egress_encrypt: TimingStat::new(),
            fan_out: FanOutStat::new(),
            counters: Counters::new(),
        }
    }

    /// Takes the report out; all figures start again at nothing.
    pub fn flush(&mut self) -> (r: MetricsReport)
        ensures
            r == metrics_report(*old(self)),
            *final(self) == no_metrics(),
    {
        MetricsReport {
            decrypt: self.decrypt.flush(),
            lock_wait: self.lock_wait.flush(),
            egress_encrypt: self.egress_encrypt.flush(),
            fan_out: self.fan_out.flush(),
            counters: self.counters.flush(),
        }
    }
}

} // verus!
