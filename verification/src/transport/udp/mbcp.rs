//! Floor control over RTCP APP packets: clients ask for the floor, let it go and
//! give signs of life on the media connection, and everybody is told about it on
//! the media connection and on the signaling connection.

use vstd::prelude::*;
use vstd::utf8::encode_utf8;

use crate::config::{self, RoomMode};
use crate::room::floor::{
    after_ping, after_release, after_request, notices, Floor, FloorAction, FloorNotice,
};
use crate::room::ptt_rewriter::Stream;
use crate::room::room::Room;
use crate::signaling::effect::{
    effects_of, push_effect, push_pli, with_pli, Effect, EffectView, PliSchedule,
};
use crate::signaling::handler::floor_ops::{
    cleared_by, count_actions, counts_of, floor_changed, floor_idle, floor_taken, floor_times,
    flush_ptt_silence, idle_packet, lemma_same_seats, move_streams, moved_by, no_floor_counts,
    taken_packet, times_fit, FloorCounts, FloorTimes,
};
use crate::text::{decimal, owned, push_decimal, push_str, string_of};
use crate::transport::udp::rtcp::{build_mbcp_app, mbcp_packet, MbcpMessage};

verus! {

/// The packet of the server with a text.
pub open spec fn notice_packet(subtype: u8, text: Seq<char>) -> Seq<u8> {
    mbcp_packet(subtype, 0, encode_utf8(text))
}

fn build_notice(subtype: u8, text: &str) -> (r: Vec<u8>)
    ensures
        r@ == notice_packet(subtype, text@),
{
    build_mbcp_app(subtype, 0, Some(text))
}

/// What somebody is told whose request is denied.
pub open spec fn denied_text(reason: Seq<char>, speaker: Seq<char>) -> Seq<char> {
    "denied: "@ + reason + " (speaker="@ + speaker + ")"@
}

fn denied_string(reason: &str, speaker: &str) -> (r: String)
    ensures
        r@ == denied_text(reason@, speaker@),
{
    let mut out: Vec<char> = Vec::new();
    push_str(&mut out, "denied: ");
    push_str(&mut out, reason);
    push_str(&mut out, " (speaker=");
    push_str(&mut out, speaker);
    push_str(&mut out, ")");
    assert(out@ =~= denied_text(reason@, speaker@));
    string_of(out)
}

/// What somebody is told who has to wait.
pub open spec fn queued_text(position: u8, priority: u8, queue_size: u16) -> Seq<char> {
    "queued: pos="@ + decimal(position as nat) + " pri="@ + decimal(priority as nat) + " size="@
        + decimal(queue_size as nat)
}

fn queued_string(position: u8, priority: u8, queue_size: u16) -> (r: String)
    ensures
        r@ == queued_text(position, priority, queue_size),
{
    let mut out: Vec<char> = Vec::new();
    push_str(&mut out, "queued: pos=");
    push_decimal(&mut out, position as u64);
    push_str(&mut out, " pri=");
    push_decimal(&mut out, priority as u64);
    push_str(&mut out, " size=");
    push_decimal(&mut out, queue_size as u64);
    assert(out@ =~= queued_text(position, priority, queue_size));
    string_of(out)
}

/// Everybody hears that the floor is free.
pub open spec fn with_idle(out: Seq<EffectView>, room: Room, prev: Seq<char>) -> Seq<EffectView> {
    out.push(
        EffectView::RtcpToRoom { packet: notice_packet(config::MBCP_SUBTYPE_FIDL, prev) },
    ).push(EffectView::ToRoom { packet: floor_idle(room, prev, None) })
}

/// What is done about a notice that a message of `user` brought about.
pub open spec fn mbcp_effect(out: Seq<EffectView>, room: Room, user: Seq<char>, n: FloorNotice) -> Seq<
    EffectView,
> {
    match n {
        FloorNotice::Granted { speaker, priority, .. } => with_pli(
            out,
            room,
            speaker,
            PliSchedule::Floor,
        ).push(
            EffectView::RtcpToRoom { packet: notice_packet(config::MBCP_SUBTYPE_FTKN, speaker) },
        ).push(EffectView::ToRoom { packet: floor_taken(room, speaker, priority) }),
        FloorNotice::Denied { reason, current_speaker } => out.push(
            EffectView::RtcpToUser {
                user_id: user,
                packet: notice_packet(
                    config::MBCP_SUBTYPE_FRVK,
                    denied_text(reason, current_speaker),
                ),
            },
        ),
        FloorNotice::Queued { position, priority, queue_size, .. } => out.push(
            EffectView::RtcpToUser {
                user_id: user,
                packet: notice_packet(
                    config::MBCP_SUBTYPE_FRVK,
                    queued_text(position, priority, queue_size),
                ),
            },
        ),
        FloorNotice::Released { prev_speaker } => with_idle(out, room, prev_speaker),
        FloorNotice::Revoked { prev_speaker, cause } => {
            let told = if room.member(prev_speaker) is Some {
                out.push(EffectView::CancelPli { user_id: prev_speaker }).push(
                    EffectView::RtcpToUser {
                        user_id: prev_speaker,
                        packet: notice_packet(config::MBCP_SUBTYPE_FRVK, cause),
                    },
                )
            } else {
                out
            };
            with_idle(told, room, prev_speaker)
        },
        _ => out,
    }
}

pub open spec fn mbcp_effects(
    start: Seq<EffectView>,
    room: Room,
    user: Seq<char>,
    ns: Seq<FloorNotice>,
    n: int,
) -> Seq<EffectView>
    decreases n,
{
    if n <= 0 {
        start
    } else {
        mbcp_effect(mbcp_effects(start, room, user, ns, n - 1), room, user, ns[n - 1])
    }
}

proof fn lemma_same_mbcp_effects(
    start: Seq<EffectView>,
    a: Room,
    b: Room,
    user: Seq<char>,
    ns: Seq<FloorNotice>,
    n: int,
)
    requires
        floor_changed(a, b),
    ensures
        mbcp_effects(start, a, user, ns, n) == mbcp_effects(start, b, user, ns, n),
    decreases n,
{
    assert forall|u: Seq<char>| #[trigger] a.member(u) == b.member(u) by {}
    if n > 0 {
        lemma_same_mbcp_effects(start, a, b, user, ns, n - 1);
    }
}

/// What is done about the notices that a message of `user` brought about.
pub fn apply_mbcp_floor_actions(
    actions: &Vec<FloorAction>,
    room: &Room,
    user: &str,
    effects: &mut Vec<Effect>,
)
    requires
        room.wf(),
    ensures
        effects_of(final(effects)@) == mbcp_effects(
            effects_of(old(effects)@),
            *room,
            user@,
            notices(actions@),
            actions@.len() as int,
        ),
{
    let ghost start = effects_of(effects@);
    let mut i: usize = 0;
    while i < actions.len()
        invariant
            room.wf(),
            i <= actions@.len(),
            effects_of(effects@) == mbcp_effects(start, *room, user@, notices(actions@), i as int),
        decreases actions@.len() - i,
    {
        assert(notices(actions@)[i as int] == actions@[i as int]@);
        match &actions[i] {
            FloorAction::Granted { speaker, priority, .. } => {
                push_pli(effects, room, speaker.as_str(), PliSchedule::Floor);
                let packet = build_notice(config::MBCP_SUBTYPE_FTKN, speaker.as_str());
                push_effect(effects, Effect::RtcpToRoom { packet });
                let packet = taken_packet(room, speaker.as_str(), *priority);
                push_effect(effects, Effect::ToRoom { packet });
            },
            FloorAction::Denied { reason, current_speaker } => {
                let text = denied_string(reason.as_str(), current_speaker.as_str());
                let packet = build_notice(config::MBCP_SUBTYPE_FRVK, text.as_str());
                push_effect(effects, Effect::RtcpToUser { user_id: owned(user), packet });
            },
            FloorAction::Queued { position, priority, queue_size, .. } => {
                let text = queued_string(*position, *priority, *queue_size);
                let packet = build_notice(config::MBCP_SUBTYPE_FRVK, text.as_str());
                push_effect(effects, Effect::RtcpToUser { user_id: owned(user), packet });
            },
            FloorAction::Released { prev_speaker } => {
                push_idle(effects, room, prev_speaker.as_str());
            },
            FloorAction::Revoked { prev_speaker, cause } => {
                if room.get_participant(prev_speaker.as_str()).is_some() {
                    push_effect(effects, Effect::CancelPli { user_id: prev_speaker.clone() });
                    let packet = build_notice(config::MBCP_SUBTYPE_FRVK, cause.as_str());
                    push_effect(
                        effects,
                        Effect::RtcpToUser { user_id: prev_speaker.clone(), packet },
                    );
                }
                push_idle(effects, room, prev_speaker.as_str());
            },
            _ => {},
        }
        i += 1;
    }
}

fn push_idle(effects: &mut Vec<Effect>, room: &Room, prev: &str)
    ensures
        effects_of(final(effects)@) == with_idle(effects_of(old(effects)@), *room, prev@),
{
    let packet = build_notice(config::MBCP_SUBTYPE_FIDL, prev);
    push_effect(effects, Effect::RtcpToRoom { packet });
    let packet = idle_packet(room, prev, None);
    push_effect(effects, Effect::ToRoom { packet });
}

// ---------------------------------------------------------------------------
// Messages of a client
// ---------------------------------------------------------------------------

/// How floor and streams of a room stand, what is to be done, and what counted.
pub struct Talk {
    pub floor: Floor,
    pub audio: Stream,
    pub video: Stream,
    pub effects: Seq<EffectView>,
    pub counts: FloorCounts,
}

/// Counts added up.
pub open spec fn added_counts(a: FloorCounts, b: FloorCounts) -> FloorCounts {
    FloorCounts {
        granted: a.granted.wrapping_add(b.granted),
        revoked: a.revoked.wrapping_add(b.revoked),
        preempted: a.preempted.wrapping_add(b.preempted),
        queued: a.queued.wrapping_add(b.queued),
        released: a.released.wrapping_add(b.released),
        queue_pop: a.queue_pop,
    }
}

fn add_counts(a: FloorCounts, b: FloorCounts) -> (r: FloorCounts)
    ensures
        r == added_counts(a, b),
{
    FloorCounts {
        granted: a.granted.wrapping_add(b.granted),
        revoked: a.revoked.wrapping_add(b.revoked),
        preempted: a.preempted.wrapping_add(b.preempted),
        queued: a.queued.wrapping_add(b.queued),
        released: a.released.wrapping_add(b.released),
        queue_pop: a.queue_pop,
    }
}

/// After a message of `user`: a request has the default priority, a release ends
/// the streams, and what only a server may say is ignored.
pub open spec fn after_message(room: Room, s: Talk, user: Seq<char>, subtype: u8, t: FloorTimes) -> Talk {
    if subtype == config::MBCP_SUBTYPE_FREQ {
        let (f, ns) = after_request(
            s.floor,
            room.floor.settings(),
            user,
            config::FLOOR_DEFAULT_PRIORITY,
            t.now_ms,
        );
        let n = ns.len() as int;
        Talk {
            floor: f,
            audio: moved_by(s.audio, ns, n, t.audio_idle_ms, true),
            video: moved_by(s.video, ns, n, t.video_idle_ms, true),
            effects: mbcp_effects(s.effects, room, user, ns, n),
            counts: added_counts(s.counts, counts_of(user, ns, n)),
        }
    } else if subtype == config::MBCP_SUBTYPE_FREL {
        let (f, ns) = after_release(s.floor, user, t.now_ms);
        let n = ns.len() as int;
        Talk {
            floor: f,
            audio: moved_by(cleared_by(s.audio, ns, n), ns, n, t.audio_idle_ms, true),
            video: moved_by(cleared_by(s.video, ns, n), ns, n, t.video_idle_ms, true),
            effects: mbcp_effects(s.effects, room, user, ns, n),
            counts: added_counts(s.counts, counts_of(user, ns, n)),
        }
    } else if subtype == config::MBCP_SUBTYPE_FPNG {
        Talk { floor: after_ping(s.floor, user, t.now_ms), ..s }
    } else {
        s
    }
}

/// After the first `n` messages of `user`, each at its time.
pub open spec fn after_messages(
    room: Room,
    user: Seq<char>,
    subtypes: Seq<u8>,
    times: Seq<FloorTimes>,
    n: int,
) -> Talk
    decreases n,
{
    if n <= 0 {
        Talk {
            floor: room.floor@,
            audio: room.audio_rewriter@,
            video: room.video_rewriter@,
            effects: Seq::empty(),
            counts: no_floor_counts(),
        }
    } else {
        after_message(
            room,
            after_messages(room, user, subtypes, times, n - 1),
            user,
            subtypes[n - 1],
            times[n - 1],
        )
    }
}

/// Whether each message has a time that goes with the streams as the messages
/// before it have left them.
#[verifier::opaque]
pub open spec fn times_in_step(
    room: Room,
    user: Seq<char>,
    subtypes: Seq<u8>,
    times: Seq<FloorTimes>,
) -> bool {
    forall|k: int|
        0 <= k < times.len() ==> times_fit(
            after_messages(room, user, subtypes, times, k).audio,
            after_messages(room, user, subtypes, times, k).video,
            #[trigger] times[k],
        )
}

proof fn lemma_times_kept(
    room: Room,
    user: Seq<char>,
    subtypes: Seq<u8>,
    times: Seq<FloorTimes>,
    t: FloorTimes,
    n: int,
)
    requires
        n <= times.len(),
    ensures
        after_messages(room, user, subtypes, times.push(t), n) == after_messages(
            room,
            user,
            subtypes,
            times,
            n,
        ),
    decreases n,
{
    if n > 0 {
        lemma_times_kept(room, user, subtypes, times, t, n - 1);
    }
}

proof fn lemma_one_more_time(
    room: Room,
    user: Seq<char>,
    subtypes: Seq<u8>,
    times: Seq<FloorTimes>,
    t: FloorTimes,
)
    requires
        times_in_step(room, user, subtypes, times),
        ({
            let s = after_messages(room, user, subtypes, times, times.len() as int);
            times_fit(s.audio, s.video, t)
        }),
    ensures
        times_in_step(room, user, subtypes, times.push(t)),
{
    reveal(times_in_step);
    let more = times.push(t);
    assert forall|k: int| 0 <= k < more.len() implies times_fit(
        after_messages(room, user, subtypes, more, k).audio,
        after_messages(room, user, subtypes, more, k).video,
        #[trigger] more[k],
    ) by {
        lemma_times_kept(room, user, subtypes, times, t, k);
        if k < times.len() {
            assert(more[k] == times[k]);
        }
    }
}

/// Whether a room and what is to be done in it stand as given.
pub open spec fn talk_is(room: Room, effects: Seq<Effect>, counts: FloorCounts, s: Talk) -> bool {
    &&& room.floor@ == s.floor
    &&& room.audio_rewriter@ == s.audio
    &&& room.video_rewriter@ == s.video
    &&& effects_of(effects) == s.effects
    &&& counts == s.counts
}

/// One message of `user` in a push-to-talk room.
pub fn handle_mbcp_message(
    room: &mut Room,
    user: &str,
    subtype: u8,
    t: FloorTimes,
    effects: &mut Vec<Effect>,
    counts: FloorCounts,
) -> (r: FloorCounts)
    requires
        old(room).wf(),
    ensures
        final(room).wf(),
        floor_changed(*old(room), *final(room)),
        talk_is(
            *final(room),
            final(effects)@,
            r,
            after_message(
                *old(room),
                Talk {
                    floor: old(room).floor@,
                    audio: old(room).audio_rewriter@,
                    video: old(room).video_rewriter@,
                    effects: effects_of(old(effects)@),
                    counts,
                },
                user@,
                subtype,
                t,
            ),
        ),
{
    let ghost start = *room;
    if subtype == config::MBCP_SUBTYPE_FREQ {
        let actions = room.floor.request(user, config::FLOOR_DEFAULT_PRIORITY, t.now_ms);
        proof {
            lemma_same_seats(start, *room);
        }
        move_streams(room, &actions, t, true);
        proof {
            let ns = notices(actions@);
            assert(ns.len() == actions@.len());
            lemma_same_mbcp_effects(
                effects_of(effects@),
                start,
                *room,
                user@,
                ns,
                ns.len() as int,
            );
        }
        apply_mbcp_floor_actions(&actions, room, user, effects);
        add_counts(counts, count_actions(user, &actions))
    } else if subtype == config::MBCP_SUBTYPE_FREL {
        let actions = room.floor.release_at(user, t.now_ms);
        proof {
            lemma_same_seats(start, *room);
        }
        let _silence = flush_ptt_silence(room, &actions);
        move_streams(room, &actions, t, true);
        proof {
            let ns = notices(actions@);
            assert(ns.len() == actions@.len());
            lemma_same_mbcp_effects(
                effects_of(effects@),
                start,
                *room,
                user@,
                ns,
                ns.len() as int,
            );
        }
        apply_mbcp_floor_actions(&actions, room, user, effects);
        add_counts(counts, count_actions(user, &actions))
    } else if subtype == config::MBCP_SUBTYPE_FPNG {
        let _action = room.floor.ping(user, t.now_ms);
        proof {
            lemma_same_seats(start, *room);
        }
        counts
    } else {
        counts
    }
}

/// What messages say.
pub open spec fn subtypes_of(v: Seq<MbcpMessage>) -> Seq<u8> {
    v.map_values(|m: MbcpMessage| m.subtype)
}

/// The floor control messages of `user`; outside of push-to-talk they are
/// ignored.
pub fn handle_mbcp_from_publish(room: &mut Room, user: &str, messages: &Vec<MbcpMessage>) -> (r: (
    Vec<Effect>,
    FloorCounts,
))
    requires
        old(room).wf(),
    ensures
        final(room).wf(),
        floor_changed(*old(room), *final(room)),
        if old(room).mode != RoomMode::Ptt {
            *final(room) == *old(room) && r.0@.len() == 0 && r.1 == no_floor_counts()
        } else {
            exists|times: Seq<FloorTimes>|
                times.len() == messages@.len() && times_in_step(
                    *old(room),
                    user@,
                    subtypes_of(messages@),
                    times,
                ) && talk_is(
                    *final(room),
                    r.0@,
                    r.1,
                    #[trigger] after_messages(
                        *old(room),
                        user@,
                        subtypes_of(messages@),
                        times,
                        messages@.len() as int,
                    ),
                )
        },
{
    let mut effects: Vec<Effect> = Vec::new();
    let mut counts = FloorCounts {
        granted: 0,
        revoked: 0,
        preempted: 0,
        queued: 0,
        released: 0,
        queue_pop: 0,
    };
    if room.mode != RoomMode::Ptt {
        return (effects, counts);
    }
    let ghost start = *room;
    let ghost subtypes = subtypes_of(messages@);
    let ghost mut times: Seq<FloorTimes> = Seq::empty();
    assert(effects_of(effects@) =~= Seq::empty());
    assert(times_in_step(start, user@, subtypes, times)) by {
        reveal(times_in_step);
    }
    let mut i: usize = 0;
    while i < messages.len()
        invariant
            i <= messages@.len(),
            room.wf(),
            floor_changed(start, *room),
            times.len() == i,
            subtypes == subtypes_of(messages@),
            times_in_step(start, user@, subtypes, times),
            talk_is(
                *room,
                effects@,
                counts,
                after_messages(start, user@, subtypes, times, i as int),
            ),
        decreases messages@.len() - i,
    {
        let t = floor_times(room);
        let ghost before = *room;
        let ghost told = effects_of(effects@);
        let ghost old_counts = counts;
        counts = handle_mbcp_message(room, user, messages[i].subtype, t, &mut effects, counts);
        proof {
            lemma_times_kept(start, user@, subtypes, times, t, i as int);
            let s = after_messages(start, user@, subtypes, times, i as int);
            lemma_message_room(start, before, s, user@, messages@[i as int].subtype, t);
            lemma_one_more_time(start, user@, subtypes, times, t);
            times = times.push(t);
            assert(subtypes[i as int] == messages@[i as int].subtype);
        }
        i += 1;
    }
    (effects, counts)
}

/// What a message does does not depend on who spoke when the room was last
/// looked at.
proof fn lemma_message_room(a: Room, b: Room, s: Talk, user: Seq<char>, subtype: u8, t: FloorTimes)
    requires
        floor_changed(a, b),
    ensures
        after_message(a, s, user, subtype, t) == after_message(b, s, user, subtype, t),
{
    if subtype == config::MBCP_SUBTYPE_FREQ {
        let ns = after_request(
            s.floor,
            a.floor.settings(),
            user,
            config::FLOOR_DEFAULT_PRIORITY,
            t.now_ms,
        ).1;
        lemma_same_mbcp_effects(s.effects, a, b, user, ns, ns.len() as int);
    } else if subtype == config::MBCP_SUBTYPE_FREL {
        let ns = after_release(s.floor, user, t.now_ms).1;
        lemma_same_mbcp_effects(s.effects, a, b, user, ns, ns.len() as int);
    }
}

} // verus!
