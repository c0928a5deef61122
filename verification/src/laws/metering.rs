//! Laws of what is measured and logged.

use vstd::prelude::*;

use crate::agg_logger::{
    all_writes, belongs_to, occurrences, once_more, span_ms, str_hash_writes, AggEntry, Tally,
};
use crate::metrics::pipeline::{place_swept, room_swept, RoomPipeline};
use crate::metrics::runtime::{busy_sum, growth, prior, worker_delta, WorkerDelta, WorkerReading};
use crate::metrics::stats::{
    fanout_counted, metrics_report, no_metrics, no_timing, timed, timing_report, Counters,
    GlobalMetrics, TimingStat,
};
use crate::room::room::{taken, Room};
use crate::signaling::handler::admin::present;
use crate::transport::udp::fanout::Fanout;

verus! {

/// A sample counts once, adds to the sum, and moves the smallest or the largest where
/// it lies outside.
pub proof fn law_sample(s: TimingStat, us: u64)
    ensures
        ({
            let t = timed(s, us);
            &&& t.count == s.count.wrapping_add(1)
            &&& t.sum_us == s.sum_us.wrapping_add(us)
            &&& t.min_us <= us <= t.max_us
            &&& t.min_us <= s.min_us && (t.min_us == us || t.min_us == s.min_us)
            &&& t.max_us >= s.max_us && (t.max_us == us || t.max_us == s.max_us)
        }),
        timed(no_timing(), us).min_us == us && timed(no_timing(), us).max_us == us,
{
}

/// A report gives the mean, rounded down, and is absent where there was no sample.
pub proof fn law_timing_report(s: TimingStat)
    ensures
        timing_report(s) is None <==> s.count == 0,
        timing_report(s) matches Some(r) ==> {
            &&& r.avg_us * s.count <= s.sum_us < (r.avg_us + 1) * s.count
            &&& r.max_us == s.max_us && r.count == s.count
            &&& s.min_us != u64::MAX ==> r.min_us == s.min_us
            &&& s.min_us == u64::MAX ==> r.min_us == 0
        },
{
    if s.count > 0 {
        let x = s.sum_us as int;
        let d = s.count as int;
        vstd::arithmetic::div_mod::lemma_fundamental_div_mod(x, d);
        vstd::arithmetic::div_mod::lemma_mod_bound(x, d);
        let q = x / d;
        assert((q + 1) * d == d * q + d) by (nonlinear_arith);
        assert(q * d == d * q) by (nonlinear_arith);
    }
}

/// The report of all gives each measurement under its own name.
pub proof fn law_metrics_report(m: GlobalMetrics)
    ensures
        metrics_report(m).decrypt == timing_report(m.decrypt),
        metrics_report(m).lock_wait == timing_report(m.lock_wait),
        metrics_report(m).egress_encrypt == timing_report(m.egress_encrypt),
        metrics_report(m).fan_out.sum == m.fan_out.sum,
        metrics_report(m).fan_out.count == m.fan_out.count,
        metrics_report(m).fan_out.max == m.fan_out.max,
        m.fan_out.min != u32::MAX ==> metrics_report(m).fan_out.min == m.fan_out.min,
        m.fan_out.min == u32::MAX ==> metrics_report(m).fan_out.min == 0,
        metrics_report(m).counters == m.counters,
{
}

/// What is counted of a packet in a push-to-talk room, by what became of it: held back
/// for want of the floor, held back until a key frame, moved into the audio or the video
/// stream, or passed over. A key frame that is not held back for want of the floor counts
/// as one.
pub proof fn law_fanout_counts(c: Counters, o: Fanout, pt: u8, keyframe: bool)
    ensures
        ({
            let d = fanout_counted(c, o, pt, keyframe);
            &&& o is Plain ==> d == c
            &&& o is Gated ==> d == (Counters { ptt_rtp_gated: c.ptt_rtp_gated.wrapping_add(1), ..c })
            &&& o is PendingKeyframe ==> d.ptt_video_pending_drop
                == c.ptt_video_pending_drop.wrapping_add(1)
            &&& !(o is PendingKeyframe) ==> d.ptt_video_pending_drop == c.ptt_video_pending_drop
            &&& o is Rewritten ==> d.ptt_rtp_rewritten == c.ptt_rtp_rewritten.wrapping_add(1)
            &&& !(o is Rewritten) ==> d.ptt_rtp_rewritten == c.ptt_rtp_rewritten
                && d.ptt_audio_rewritten == c.ptt_audio_rewritten && d.ptt_video_rewritten
                == c.ptt_video_rewritten
            &&& o is Rewritten && pt == 111 ==> d.ptt_audio_rewritten
                == c.ptt_audio_rewritten.wrapping_add(1) && d.ptt_video_rewritten
                == c.ptt_video_rewritten
            &&& o is Rewritten && pt == 96 ==> d.ptt_video_rewritten
                == c.ptt_video_rewritten.wrapping_add(1) && d.ptt_audio_rewritten
                == c.ptt_audio_rewritten
            &&& o is Skipped && pt == 96 ==> d.ptt_video_skip == c.ptt_video_skip.wrapping_add(1)
            &&& !(o is Skipped && pt == 96) ==> d.ptt_video_skip == c.ptt_video_skip
            &&& pt == 96 && keyframe && !(o is Gated) && !(o is Plain) ==> d.ptt_keyframe_arrived
                == c.ptt_keyframe_arrived.wrapping_add(1)
            &&& pt != 96 || !keyframe || o is Gated || o is Plain ==> d.ptt_keyframe_arrived
                == c.ptt_keyframe_arrived
            &&& d.ptt_rtp_gated == (if o is Gated {
                c.ptt_rtp_gated.wrapping_add(1)
            } else {
                c.ptt_rtp_gated
            })
        }),
{
}

/// What a worker did between two readings, in microseconds and counts; a reading that
/// went back counts for nothing.
pub proof fn law_worker_delta(new: WorkerReading, old: WorkerReading)
    ensures
        ({
            let d = worker_delta(new, old);
            &&& new.busy_ns >= old.busy_ns ==> d.busy_us == (new.busy_ns - old.busy_ns) / 1000
            &&& new.busy_ns < old.busy_ns ==> d.busy_us == 0
            &&& new.polls >= old.polls ==> old.polls + d.polls == new.polls
            &&& new.steals >= old.steals ==> old.steals + d.steals == new.steals
            &&& new.noops >= old.noops ==> old.noops + d.noops == new.noops
            &&& new.polls < old.polls ==> d.polls == 0
            &&& new.steals < old.steals ==> d.steals == 0
            &&& new.noops < old.noops ==> d.noops == 0
        }),
        growth(old.polls, old.polls) == 0,
{
}

/// The first reading is taken against nothing; the sum is that of all workers.
pub proof fn law_workers(workers: Seq<WorkerReading>, deltas: Seq<WorkerDelta>, i: int, n: int)
    requires
        0 < n <= deltas.len(),
    ensures
        workers.len() == 0 ==> prior(workers, i).busy_ns == 0 && prior(workers, i).polls == 0
            && prior(workers, i).steals == 0 && prior(workers, i).noops == 0,
        workers.len() > 0 ==> prior(workers, i) == workers[i],
        busy_sum(deltas, 0) == 0,
        busy_sum(deltas, n) == busy_sum(deltas, n - 1).wrapping_add(deltas[n - 1].busy_us),
{
}

/// When the counts of a room are taken, the budget for retransmissions of each member
/// starts again, and nothing else of them changes; a room without members is not
/// active any more.
pub proof fn law_sweep(a: Room, b: Room, r: RoomPipeline, i: int)
    requires
        room_swept(a, b, r),
        taken(a.slots@, i),
    ensures
        taken(b.slots@, i),
        b.slots@[i]->0.rtx_budget_used == 0,
        b.slots@[i]->0.rtx_seq == a.slots@[i]->0.rtx_seq,
        b.slots@[i]->0.tracks == a.slots@[i]->0.tracks,
        b.slots@[i]->0.pipeline == a.slots@[i]->0.pipeline,
        b.slots@[i]->0.user_id == a.slots@[i]->0.user_id,
        b.slots@.len() == a.slots@.len(),
        a.participants_len() == 0 ==> b.active_since == 0,
        a.participants_len() > 0 ==> b.active_since == a.active_since,
        r is Empty <==> a.participants_len() == 0,
        b.floor == a.floor && b.audio_rewriter == a.audio_rewriter && b.video_rewriter
            == a.video_rewriter,
{
}

/// An event that occurs again counts once more and was seen last then; what it is and
/// when it was seen first stays.
pub proof fn law_again(t: Tally, now_ns: u64)
    ensures
        once_more(t, now_ns).count == t.count.wrapping_add(1),
        once_more(t, now_ns).last_ns == now_ns,
        once_more(t, now_ns).first_ns == t.first_ns,
        once_more(t, now_ns).label == t.label,
        once_more(t, now_ns).room_id == t.room_id,
        t.count == 1 && now_ns >= t.first_ns ==> span_ms(once_more(t, now_ns)) == (now_ns
            - t.first_ns) / 1_000_000,
        t.count <= 1 ==> span_ms(t) == 0,
        t.last_ns < t.first_ns ==> span_ms(t) == 0,
{
}

/// What is logged: each event that occurred, in the order of their places, with its own
/// label, room, count and span.
pub proof fn law_logged_in_order(slots: Seq<Option<AggEntry>>, n: int)
    requires
        0 < n <= slots.len(),
    ensures
        occurrences(slots, 0).len() == 0,
        slots[n - 1] is None || slots[n - 1]->0.count == 0 ==> occurrences(slots, n)
            == occurrences(slots, n - 1),
        slots[n - 1] is Some && slots[n - 1]->0.count > 0 ==> {
            let e = slots[n - 1]->0;
            let all = occurrences(slots, n);
            &&& all.len() == occurrences(slots, n - 1).len() + 1
            &&& all.drop_last() == occurrences(slots, n - 1)
            &&& all.last().key == e.key && all.last().label == e.label@ && all.last().count
                == e.count
            &&& all.last().room_id is Some <==> e.room_id is Some
            &&& e.room_id is Some ==> all.last().room_id == Some(e.room_id->0@)
            &&& e.count > 1 && e.last_ns >= e.first_ns ==> all.last().delta_ms == (e.last_ns
                - e.first_ns) / 1_000_000
            &&& e.count == 1 ==> all.last().delta_ms == 0
        },
{
    let all = occurrences(slots, n);
    let before = occurrences(slots, n - 1);
    assert(all.len() > before.len() ==> all.drop_last() =~= before);
}

/// What is reported of a room: whether it is empty, and whether it just fell silent; else
/// since when it is active, and the counts of each member.
pub proof fn law_sweep_report(a: Room, b: Room, r: RoomPipeline, i: int)
    requires
        room_swept(a, b, r),
    ensures
        r matches RoomPipeline::Empty { room_id, ended } ==> room_id@ == a.id@ && (ended
            <==> a.active_since != 0),
        r matches RoomPipeline::Active { room_id, active_since, participants } ==> {
            let ps = present(a.slots@, a.slots@.len() as int);
            &&& room_id@ == a.id@ && active_since == a.active_since
            &&& participants@.len() == ps.len()
            &&& 0 <= i < ps.len() ==> {
                let e = participants@[i];
                let c = ps[i].pipeline;
                &&& e.user_id@ == ps[i].user_id@ && e.since == ps[i].joined_at
                &&& e.counts.pub_rtp_in == c.pub_rtp_in
                &&& e.counts.pub_rtp_gated == c.pub_rtp_gated
                &&& e.counts.pub_rtp_rewritten == c.pub_rtp_rewritten
                &&& e.counts.pub_video_pending == c.pub_video_pending
                &&& e.counts.sub_rtp_relayed == c.sub_rtp_relayed
                &&& e.counts.sub_rtp_dropped == c.sub_rtp_dropped
                &&& e.counts.sub_sr_relayed == c.sub_sr_relayed
            }
        },
{
    if let RoomPipeline::Active { participants, .. } = r {
        if 0 <= i < participants@.len() {
            assert(crate::metrics::pipeline::shows_counts(
                participants@[i],
                present(a.slots@, a.slots@.len() as int)[i],
            ));
        }
    }
}

/// A place without room stays so and is not reported.
pub proof fn law_places_are_swept(a: Option<Room>, b: Option<Room>, r: Option<RoomPipeline>)
    requires
        place_swept(a, b, r),
    ensures
        a is None <==> b is None,
        a is None <==> r is None,
        a is Some ==> room_swept(a->0, b->0, r->0),
{
}

/// Nothing is counted from the start.
pub proof fn law_fresh_metrics()
    ensures
        no_metrics().decrypt.count == 0 && no_metrics().lock_wait.count == 0,
        no_metrics().egress_encrypt.count == 0 && no_metrics().fan_out.count == 0,
        metrics_report(no_metrics()).decrypt is None,
        metrics_report(no_metrics()).fan_out.min == 0 && metrics_report(no_metrics()).fan_out.max
            == 0 && metrics_report(no_metrics()).fan_out.sum == 0,
        no_metrics().counters.rtx_sent == 0 && no_metrics().counters.nack_received == 0,
        no_metrics().counters.pli_sent == 0 && no_metrics().counters.ptt_floor_granted == 0,
        no_metrics().counters.ptt_rtp_gated == 0 && no_metrics().counters.egress_drop == 0,
{
}

/// Events belong to the room that they name.
pub proof fn law_events_of_room(t: Tally, room: Seq<char>)
    ensures
        belongs_to(t, room) <==> t.room_id == Some(room),
        t.room_id is None ==> !belongs_to(t, room),
{
}

/// What is hashed for an event is all its parts, one after the other.
pub proof fn law_hashed_parts(parts: Seq<&str>, n: int)
    requires
        0 < n <= parts.len(),
    ensures
        all_writes(parts, 0).len() == 0,
        all_writes(parts, n) == all_writes(parts, n - 1) + str_hash_writes(parts[n - 1]@),
{
}

} // verus!
