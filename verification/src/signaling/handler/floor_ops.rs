//! Floor control on behalf of clients: requests, releases, pings, the timers, and
//! what everybody is told about it.

use vstd::prelude::*;

use crate::clock::wall_clock_ms;
use crate::config::{self, RoomMode};
use crate::room::floor::{
    after_leave, after_release, after_request, after_timers, notices, place_of, Floor, FloorAction,
    FloorNotice, TalkBurst,
};
use crate::room::hub::{hub_unchanged, indices_unchanged, lemma_replaced, room_replaced, RoomHub};
use crate::room::ptt_rewriter::{after_clear, after_switch, flushes, silence_frame, Stream};
use crate::room::room::{lemma_seats_kept, taken, Room};
use crate::signaling::effect::{
    effects_of, push_effect, push_pli, with_pli, Effect, EffectView, PliSchedule,
};
use crate::signaling::message::{
    done, event, refused, FloorPingMsg, FloorQueuePosMsg, FloorReleaseMsg, FloorRequestMsg, Packet,
    PacketView, Payload, PayloadView,
};
use crate::signaling::opcode;
use crate::text::{owned, push_str, string_of, text_eq};
use crate::wire::runs;

verus! {

/// The times that floor control goes by.
#[derive(Debug, Clone, Copy, PartialEq, Eq, Structural)]
pub struct FloorTimes {
    pub now_ms: u64,
    /// How long the streams of the room have been idle.
    pub audio_idle_ms: u32,
    pub video_idle_ms: u32,
}

/// How often things happened.
#[derive(Debug, Clone, Copy, PartialEq, Eq, Structural)]
pub struct FloorCounts {
    pub granted: u64,
    pub revoked: u64,
    pub preempted: u64,
    pub queued: u64,
    pub released: u64,
    /// Grants to somebody else than the one who acted.
    pub queue_pop: u64,
}

pub open spec fn no_floor_counts() -> FloorCounts {
    FloorCounts { granted: 0, revoked: 0, preempted: 0, queued: 0, released: 0, queue_pop: 0 }
}

/// The counts with one notice more, for what `user` has done.
pub open spec fn counted(c: FloorCounts, user: Seq<char>, n: FloorNotice) -> FloorCounts {
    match n {
        FloorNotice::Granted { speaker, .. } => FloorCounts {
            granted: c.granted.wrapping_add(1),
            queue_pop: if speaker != user { c.queue_pop.wrapping_add(1) } else { c.queue_pop },
            ..c
        },
        FloorNotice::Revoked { cause, .. } => FloorCounts {
            revoked: c.revoked.wrapping_add(1),
            preempted: if cause == "preempted"@ { c.preempted.wrapping_add(1) } else { c.preempted },
            ..c
        },
        FloorNotice::Queued { .. } => FloorCounts { queued: c.queued.wrapping_add(1), ..c },
        FloorNotice::Released { .. } => FloorCounts { released: c.released.wrapping_add(1), ..c },
        _ => c,
    }
}

pub open spec fn counts_of(user: Seq<char>, ns: Seq<FloorNotice>, n: int) -> FloorCounts
    decreases n,
{
    if n <= 0 {
        no_floor_counts()
    } else {
        counted(counts_of(user, ns, n - 1), user, ns[n - 1])
    }
}

/// Counts what the actions of `user` came to.
pub fn count_actions(user: &str, actions: &Vec<FloorAction>) -> (c: FloorCounts)
    ensures
        c == counts_of(user@, notices(actions@), actions@.len() as int),
{
    let mut c = FloorCounts {
        granted: 0,
        revoked: 0,
        preempted: 0,
        queued: 0,
        released: 0,
        queue_pop: 0,
    };
    let mut i: usize = 0;
    while i < actions.len()
        invariant
            i <= actions@.len(),
            c == counts_of(user@, notices(actions@), i as int),
        decreases actions@.len() - i,
    {
        assert(notices(actions@)[i as int] == actions@[i as int]@);
        match &actions[i] {
            FloorAction::Granted { speaker, .. } => {
                c.granted = c.granted.wrapping_add(1);
                if !text_eq(speaker.as_str(), user) {
                    c.queue_pop = c.queue_pop.wrapping_add(1);
                }
            },
            FloorAction::Revoked { cause, .. } => {
                c.revoked = c.revoked.wrapping_add(1);
                if text_eq(cause.as_str(), "preempted") {
                    c.preempted = c.preempted.wrapping_add(1);
                }
            },
            FloorAction::Queued { .. } => {
                c.queued = c.queued.wrapping_add(1);
            },
            FloorAction::Released { .. } => {
                c.released = c.released.wrapping_add(1);
            },
            _ => {},
        }
        i += 1;
    }
    c
}

// ---------------------------------------------------------------------------
// The streams of the room
// ---------------------------------------------------------------------------

/// A stream after the first `n` notices: who is granted the floor speaks, and
/// where `revoke_clears` says so nobody does after a revocation.
pub open spec fn moved_by(s: Stream, ns: Seq<FloorNotice>, n: int, idle_ms: u32, revoke_clears: bool) -> Stream
    decreases n,
{
    if n <= 0 {
        s
    } else {
        let before = moved_by(s, ns, n - 1, idle_ms, revoke_clears);
        match ns[n - 1] {
            FloorNotice::Granted { speaker, .. } => after_switch(before, speaker, idle_ms),
            FloorNotice::Revoked { .. } => if revoke_clears {
                after_clear(before)
            } else {
                before
            },
            _ => before,
        }
    }
}

/// A stream after the first `n` notices: nobody speaks after a release.
pub open spec fn cleared_by(s: Stream, ns: Seq<FloorNotice>, n: int) -> Stream
    decreases n,
{
    if n <= 0 {
        s
    } else {
        let before = cleared_by(s, ns, n - 1);
        if ns[n - 1] is Released {
            after_clear(before)
        } else {
            before
        }
    }
}

/// The silence at the end of a talk burst.
pub open spec fn silence(s: Stream) -> Seq<Seq<u8>> {
    if flushes(s) {
        Seq::new(3, |i: int| silence_frame(s, i))
    } else {
        Seq::empty()
    }
}

/// The silence that the first `n` notices ask for.
pub open spec fn silence_by(s: Stream, ns: Seq<FloorNotice>, n: int) -> Seq<Seq<u8>>
    decreases n,
{
    if n <= 0 {
        Seq::empty()
    } else {
        let before = silence_by(s, ns, n - 1);
        if ns[n - 1] is Released {
            before + silence(cleared_by(s, ns, n - 1))
        } else {
            before
        }
    }
}

/// Whether a room differs from another in its streams only.
pub open spec fn streams_changed(a: Room, b: Room) -> bool {
    b == (Room { audio_rewriter: b.audio_rewriter, video_rewriter: b.video_rewriter, ..a })
}

/// Gives the streams to those who are granted the floor.
pub fn move_streams(room: &mut Room, actions: &Vec<FloorAction>, t: FloorTimes, revoke_clears: bool)
    requires
        old(room).wf(),
    ensures
        final(room).wf(),
        streams_changed(*old(room), *final(room)),
        final(room).audio_rewriter@ == moved_by(
            old(room).audio_rewriter@,
            notices(actions@),
            actions@.len() as int,
            t.audio_idle_ms,
            revoke_clears,
        ),
        final(room).video_rewriter@ == moved_by(
            old(room).video_rewriter@,
            notices(actions@),
            actions@.len() as int,
            t.video_idle_ms,
            revoke_clears,
        ),
{
    let mut i: usize = 0;
    while i < actions.len()
        invariant
            i <= actions@.len(),
            room.wf(),
            streams_changed(*old(room), *room),
            room.audio_rewriter@ == moved_by(
                old(room).audio_rewriter@,
                notices(actions@),
                i as int,
                t.audio_idle_ms,
                revoke_clears,
            ),
            room.video_rewriter@ == moved_by(
                old(room).video_rewriter@,
                notices(actions@),
                i as int,
                t.video_idle_ms,
                revoke_clears,
            ),
        decreases actions@.len() - i,
    {
        assert(notices(actions@)[i as int] == actions@[i as int]@);
        let ghost before = *room;
        match &actions[i] {
            FloorAction::Granted { speaker, .. } => {
                room.audio_rewriter.switch_speaker_after(speaker.as_str(), t.audio_idle_ms);
                room.video_rewriter.switch_speaker_after(speaker.as_str(), t.video_idle_ms);
            },
            FloorAction::Revoked { .. } => {
                if revoke_clears {
                    let _ = room.audio_rewriter.clear_speaker();
                    let _ = room.video_rewriter.clear_speaker();
                }
            },
            _ => {},
        }
        proof {
            lemma_same_seats(before, *room);
        }
        i += 1;
    }
}

pub proof fn lemma_same_seats(a: Room, b: Room)
    requires
        a.wf(),
        b == (Room {
            floor: b.floor,
            audio_rewriter: b.audio_rewriter,
            video_rewriter: b.video_rewriter,
            ..a
        }),
        b.floor.wf(),
        !b.audio_rewriter@.video && b.video_rewriter@.video,
    ensures
        b.wf(),
{
    assert forall|i: int| #[trigger] taken(b.slots@, i) implies b.slots@[i]->0.wf() by {
        assert(taken(a.slots@, i));
    }
    lemma_seats_kept(a, b);
}

/// Ends the streams on a release. The silence for the listeners is returned.
pub fn flush_ptt_silence(room: &mut Room, actions: &Vec<FloorAction>) -> (r: Vec<Vec<u8>>)
    requires
        old(room).wf(),
    ensures
        final(room).wf(),
        streams_changed(*old(room), *final(room)),
        final(room).audio_rewriter@ == cleared_by(
            old(room).audio_rewriter@,
            notices(actions@),
            actions@.len() as int,
        ),
        final(room).video_rewriter@ == cleared_by(
            old(room).video_rewriter@,
            notices(actions@),
            actions@.len() as int,
        ),
        runs(r@) == silence_by(
            old(room).audio_rewriter@,
            notices(actions@),
            actions@.len() as int,
        ),
{
    let mut out: Vec<Vec<u8>> = Vec::new();
    let mut i: usize = 0;
    assert(runs(out@) =~= Seq::empty());
    while i < actions.len()
        invariant
            i <= actions@.len(),
            room.wf(),
            streams_changed(*old(room), *room),
            room.audio_rewriter@ == cleared_by(
                old(room).audio_rewriter@,
                notices(actions@),
                i as int,
            ),
            room.video_rewriter@ == cleared_by(
                old(room).video_rewriter@,
                notices(actions@),
                i as int,
            ),
            runs(out@) == silence_by(old(room).audio_rewriter@, notices(actions@), i as int),
        decreases actions@.len() - i,
    {
        assert(notices(actions@)[i as int] == actions@[i as int]@);
        let ghost before = *room;
        let ghost so_far = out@;
        if let FloorAction::Released { .. } = &actions[i] {
            let frames = room.audio_rewriter.clear_speaker();
            let _ = room.video_rewriter.clear_speaker();
            match frames {
                Some(mut f) => {
                    assert(runs(f@) =~= silence(before.audio_rewriter@));
                    assert(runs(so_far + f@) =~= runs(so_far) + runs(f@));
                    out.append(&mut f);
                },
                None => {
                    assert(runs(out@) =~= runs(so_far) + silence(before.audio_rewriter@));
                },
            }
        }
        proof {
            lemma_same_seats(before, *room);
        }
        i += 1;
    }
    out
}

// ---------------------------------------------------------------------------
// Messages
// ---------------------------------------------------------------------------

pub open spec fn floor_granted(speaker: Seq<char>, priority: u8, duration_s: u16) -> PayloadView {
    PayloadView::FloorGranted { speaker, priority, duration_s }
}

pub open spec fn floor_taken(room: Room, speaker: Seq<char>, priority: u8) -> PacketView {
    event(
        opcode::FLOOR_TAKEN,
        PayloadView::FloorTaken { room_id: room.id@, speaker, priority },
    )
}

pub open spec fn floor_idle(room: Room, prev_speaker: Seq<char>, cause: Option<Seq<char>>) -> PacketView {
    event(
        opcode::FLOOR_IDLE,
        PayloadView::FloorIdle { room_id: room.id@, prev_speaker, cause },
    )
}

pub open spec fn floor_revoke(room: Room, cause: Seq<char>) -> PacketView {
    event(opcode::FLOOR_REVOKE, PayloadView::FloorRevoke { room_id: room.id@, cause })
}

/// The text of a denial.
pub open spec fn denial(reason: Seq<char>, current_speaker: Seq<char>) -> Seq<char> {
    reason + " (speaker="@ + current_speaker + ")"@
}

pub fn denial_text(reason: &str, current_speaker: &str) -> (r: String)
    ensures
        r@ == denial(reason@, current_speaker@),
{
    let mut out: Vec<char> = Vec::new();
    push_str(&mut out, reason);
    push_str(&mut out, " (speaker=");
    push_str(&mut out, current_speaker);
    push_str(&mut out, ")");
    assert(out@ =~= denial(reason@, current_speaker@));
    string_of(out)
}

pub fn taken_packet(room: &Room, speaker: &str, priority: u8) -> (r: Packet)
    ensures
        r@ == floor_taken(*room, speaker@, priority),
{
    Packet::new(
        opcode::FLOOR_TAKEN,
        0,
        Payload::FloorTaken { room_id: room.id.clone(), speaker: owned(speaker), priority },
    )
}

pub fn idle_packet(room: &Room, prev_speaker: &str, cause: Option<&str>) -> (r: Packet)
    ensures
        r@ == floor_idle(
            *room,
            prev_speaker@,
            match cause {
                Some(c) => Some(c@),
                None => None,
            },
        ),
{
    Packet::new(
        opcode::FLOOR_IDLE,
        0,
        Payload::FloorIdle {
            room_id: room.id.clone(),
            prev_speaker: owned(prev_speaker),
            cause: match cause {
                Some(c) => Some(owned(c)),
                None => None,
            },
        },
    )
}

/// The speaker who loses the floor is told so, if they are still in the room.
pub open spec fn with_revoke(out: Seq<EffectView>, room: Room, user: Seq<char>, cause: Seq<char>) -> Seq<
    EffectView,
> {
    if room.member(user) is Some {
        out.push(EffectView::CancelPli { user_id: user }).push(
            EffectView::ToUser { user_id: user, packet: floor_revoke(room, cause) },
        )
    } else {
        out
    }
}

fn push_revoke(out: &mut Vec<Effect>, room: &Room, user: &str, cause: &str)
    requires
        room.wf(),
    ensures
        effects_of(final(out)@) == with_revoke(effects_of(old(out)@), *room, user@, cause@),
{
    if room.get_participant(user).is_some() {
        push_effect(out, Effect::CancelPli { user_id: owned(user) });
        push_effect(
            out,
            Effect::ToUser {
                user_id: owned(user),
                packet: Packet::new(
                    opcode::FLOOR_REVOKE,
                    0,
                    Payload::FloorRevoke { room_id: room.id.clone(), cause: owned(cause) },
                ),
            },
        );
    }
}

/// Somebody who is granted the floor without having asked just now is told so,
/// if they are in the room.
pub open spec fn with_grant(
    out: Seq<EffectView>,
    room: Room,
    speaker: Seq<char>,
    priority: u8,
    duration_s: u16,
) -> Seq<EffectView> {
    if room.member(speaker) is Some {
        out.push(
            EffectView::ToUser {
                user_id: speaker,
                packet: done(
                    opcode::FLOOR_REQUEST,
                    0,
                    floor_granted(speaker, priority, duration_s),
                ),
            },
        )
    } else {
        out
    }
}

fn push_grant(out: &mut Vec<Effect>, room: &Room, speaker: &str, priority: u8, duration_s: u16)
    requires
        room.wf(),
    ensures
        effects_of(final(out)@) == with_grant(
            effects_of(old(out)@),
            *room,
            speaker@,
            priority,
            duration_s,
        ),
{
    if room.get_participant(speaker).is_some() {
        push_effect(
            out,
            Effect::ToUser {
                user_id: owned(speaker),
                packet: Packet::ok(
                    opcode::FLOOR_REQUEST,
                    0,
                    Payload::FloorGranted { speaker: owned(speaker), priority, duration_s },
                ),
            },
        );
    }
}

// --- request ---

/// What a request of `user` makes the others hear.
pub open spec fn request_effect(out: Seq<EffectView>, room: Room, user: Seq<char>, n: FloorNotice) -> Seq<
    EffectView,
> {
    match n {
        FloorNotice::Granted { speaker, priority, .. } => with_pli(
            out,
            room,
            speaker,
            PliSchedule::Floor,
        ).push(
            EffectView::ToOthers { exclude: user, packet: floor_taken(room, speaker, priority) },
        ),
        FloorNotice::Revoked { prev_speaker, cause } => with_revoke(out, room, prev_speaker, cause),
        _ => out,
    }
}

pub open spec fn request_effects(room: Room, user: Seq<char>, ns: Seq<FloorNotice>, n: int) -> Seq<
    EffectView,
>
    decreases n,
{
    if n <= 0 {
        Seq::empty()
    } else {
        request_effect(request_effects(room, user, ns, n - 1), room, user, ns[n - 1])
    }
}

/// What `user` is answered: the last notice that concerns them.
pub open spec fn request_reply(pid: u64, user: Seq<char>, ns: Seq<FloorNotice>, n: int) -> PacketView
    decreases n,
{
    if n <= 0 {
        done(opcode::FLOOR_REQUEST, pid, PayloadView::Empty)
    } else {
        match ns[n - 1] {
            FloorNotice::Granted { speaker, priority, duration_s } => if speaker == user {
                done(opcode::FLOOR_REQUEST, pid, floor_granted(speaker, priority, duration_s))
            } else {
                request_reply(pid, user, ns, n - 1)
            },
            FloorNotice::Queued { position, priority, queue_size, .. } => done(
                opcode::FLOOR_REQUEST,
                pid,
                PayloadView::FloorQueued { position, priority, queue_size },
            ),
            FloorNotice::Denied { reason, current_speaker } => refused(
                opcode::FLOOR_REQUEST,
                pid,
                2010,
                denial(reason, current_speaker),
            ),
            _ => request_reply(pid, user, ns, n - 1),
        }
    }
}

/// What the client is answered, what others hear of it, and what is counted.
pub struct FloorOutcome {
    pub reply: Packet,
    pub effects: Vec<Effect>,
    pub counts: FloorCounts,
}

/// Answer and messages of a request.
pub fn answer_request(room: &Room, pid: u64, user: &str, actions: &Vec<FloorAction>) -> (r: FloorOutcome)
    requires
        room.wf(),
    ensures
        r.reply@ == request_reply(pid, user@, notices(actions@), actions@.len() as int),
        effects_of(r.effects@) == request_effects(
            *room,
            user@,
            notices(actions@),
            actions@.len() as int,
        ),
        r.counts == counts_of(user@, notices(actions@), actions@.len() as int),
{
    let mut reply = Packet::ok(opcode::FLOOR_REQUEST, pid, Payload::Empty);
    let mut effects: Vec<Effect> = Vec::new();
    let mut i: usize = 0;
    assert(effects_of(effects@) =~= Seq::empty());
    while i < actions.len()
        invariant
            room.wf(),
            i <= actions@.len(),
            reply@ == request_reply(pid, user@, notices(actions@), i as int),
            effects_of(effects@) == request_effects(*room, user@, notices(actions@), i as int),
        decreases actions@.len() - i,
    {
        assert(notices(actions@)[i as int] == actions@[i as int]@);
        match &actions[i] {
            FloorAction::Granted { speaker, priority, duration_s } => {
                push_pli(&mut effects, room, speaker.as_str(), PliSchedule::Floor);
                if text_eq(speaker.as_str(), user) {
                    reply = Packet::ok(
                        opcode::FLOOR_REQUEST,
                        pid,
                        Payload::FloorGranted {
                            speaker: speaker.clone(),
                            priority: *priority,
                            duration_s: *duration_s,
                        },
                    );
                }
                let packet = taken_packet(room, speaker.as_str(), *priority);
                push_effect(&mut effects, Effect::ToOthers { exclude: owned(user), packet });
            },
            FloorAction::Revoked { prev_speaker, cause } => {
                push_revoke(&mut effects, room, prev_speaker.as_str(), cause.as_str());
            },
            FloorAction::Queued { position, priority, queue_size, .. } => {
                reply = Packet::ok(
                    opcode::FLOOR_REQUEST,
                    pid,
                    Payload::FloorQueued {
                        position: *position,
                        priority: *priority,
                        queue_size: *queue_size,
                    },
                );
            },
            FloorAction::Denied { reason, current_speaker } => {
                let text = denial_text(reason.as_str(), current_speaker.as_str());
                reply = Packet::err(opcode::FLOOR_REQUEST, pid, 2010, text.as_str());
            },
            _ => {},
        }
        i += 1;
    }
    let counts = count_actions(user, actions);
    FloorOutcome { reply, effects, counts }
}

// --- release, leaving ---

/// What a release by `user` makes everybody hear.
pub open spec fn release_effect(out: Seq<EffectView>, room: Room, user: Seq<char>, n: FloorNotice) -> Seq<
    EffectView,
> {
    match n {
        FloorNotice::Granted { speaker, priority, duration_s } => {
            let told = with_pli(out, room, speaker, PliSchedule::Floor).push(
                EffectView::ToRoom { packet: floor_taken(room, speaker, priority) },
            );
            if speaker != user {
                with_grant(told, room, speaker, priority, duration_s)
            } else {
                told
            }
        },
        FloorNotice::Released { prev_speaker } => out.push(
            EffectView::ToRoom { packet: floor_idle(room, prev_speaker, None) },
        ),
        FloorNotice::Revoked { prev_speaker, cause } => with_revoke(
            out,
            room,
            prev_speaker,
            cause,
        ).push(EffectView::ToRoom { packet: floor_idle(room, prev_speaker, Some(cause)) }),
        _ => out,
    }
}

pub open spec fn release_effects(
    start: Seq<EffectView>,
    room: Room,
    user: Seq<char>,
    ns: Seq<FloorNotice>,
    n: int,
) -> Seq<EffectView>
    decreases n,
{
    if n <= 0 {
        start
    } else {
        release_effect(release_effects(start, room, user, ns, n - 1), room, user, ns[n - 1])
    }
}

/// What `user` is answered.
pub open spec fn release_reply(op: u16, pid: u64, ns: Seq<FloorNotice>, n: int) -> PacketView
    decreases n,
{
    if n <= 0 {
        done(op, pid, PayloadView::Empty)
    } else {
        match ns[n - 1] {
            FloorNotice::Denied { reason, current_speaker } => refused(
                op,
                pid,
                2010,
                denial(reason, current_speaker),
            ),
            _ => release_reply(op, pid, ns, n - 1),
        }
    }
}

/// Answer and messages of a release.
pub fn apply_floor_actions(
    op: u16,
    pid: u64,
    actions: &Vec<FloorAction>,
    room: &Room,
    user: &str,
    effects: &mut Vec<Effect>,
) -> (r: Packet)
    requires
        room.wf(),
    ensures
        r@ == release_reply(op, pid, notices(actions@), actions@.len() as int),
        effects_of(final(effects)@) == release_effects(
            effects_of(old(effects)@),
            *room,
            user@,
            notices(actions@),
            actions@.len() as int,
        ),
{
    let mut reply = Packet::ok(op, pid, Payload::Empty);
    let mut i: usize = 0;
    while i < actions.len()
        invariant
            room.wf(),
            i <= actions@.len(),
            reply@ == release_reply(op, pid, notices(actions@), i as int),
            effects_of(effects@) == release_effects(
                effects_of(old(effects)@),
                *room,
                user@,
                notices(actions@),
                i as int,
            ),
        decreases actions@.len() - i,
    {
        assert(notices(actions@)[i as int] == actions@[i as int]@);
        match &actions[i] {
            FloorAction::Granted { speaker, priority, duration_s } => {
                push_pli(effects, room, speaker.as_str(), PliSchedule::Floor);
                let packet = taken_packet(room, speaker.as_str(), *priority);
                push_effect(effects, Effect::ToRoom { packet });
                if !text_eq(speaker.as_str(), user) {
                    push_grant(effects, room, speaker.as_str(), *priority, *duration_s);
                }
            },
            FloorAction::Denied { reason, current_speaker } => {
                let text = denial_text(reason.as_str(), current_speaker.as_str());
                reply = Packet::err(op, pid, 2010, text.as_str());
            },
            FloorAction::Released { prev_speaker } => {
                let packet = idle_packet(room, prev_speaker.as_str(), None);
                push_effect(effects, Effect::ToRoom { packet });
            },
            FloorAction::Revoked { prev_speaker, cause } => {
                push_revoke(effects, room, prev_speaker.as_str(), cause.as_str());
                let packet = idle_packet(room, prev_speaker.as_str(), Some(cause.as_str()));
                push_effect(effects, Effect::ToRoom { packet });
            },
            _ => {},
        }
        i += 1;
    }
    reply
}

// --- timers ---

/// What the timers make everybody hear.
pub open spec fn timer_effect(out: Seq<EffectView>, room: Room, n: FloorNotice) -> Seq<EffectView> {
    match n {
        FloorNotice::Revoked { prev_speaker, cause } => with_revoke(
            out,
            room,
            prev_speaker,
            cause,
        ).push(EffectView::ToRoom { packet: floor_idle(room, prev_speaker, Some(cause)) }),
        FloorNotice::Granted { speaker, priority, duration_s } => with_grant(
            with_pli(out, room, speaker, PliSchedule::Floor),
            room,
            speaker,
            priority,
            duration_s,
        ).push(EffectView::ToRoom { packet: floor_taken(room, speaker, priority) }),
        _ => out,
    }
}

pub open spec fn timer_effects(room: Room, ns: Seq<FloorNotice>, n: int) -> Seq<EffectView>
    decreases n,
{
    if n <= 0 {
        Seq::empty()
    } else {
        timer_effect(timer_effects(room, ns, n - 1), room, ns[n - 1])
    }
}

/// Messages of the timers.
pub fn announce_timers(room: &Room, actions: &Vec<FloorAction>) -> (r: Vec<Effect>)
    requires
        room.wf(),
    ensures
        effects_of(r@) == timer_effects(*room, notices(actions@), actions@.len() as int),
{
    let mut effects: Vec<Effect> = Vec::new();
    let mut i: usize = 0;
    assert(effects_of(effects@) =~= Seq::empty());
    while i < actions.len()
        invariant
            room.wf(),
            i <= actions@.len(),
            effects_of(effects@) == timer_effects(*room, notices(actions@), i as int),
        decreases actions@.len() - i,
    {
        assert(notices(actions@)[i as int] == actions@[i as int]@);
        match &actions[i] {
            FloorAction::Revoked { prev_speaker, cause } => {
                push_revoke(&mut effects, room, prev_speaker.as_str(), cause.as_str());
                let packet = idle_packet(room, prev_speaker.as_str(), Some(cause.as_str()));
                push_effect(&mut effects, Effect::ToRoom { packet });
            },
            FloorAction::Granted { speaker, priority, duration_s } => {
                push_pli(&mut effects, room, speaker.as_str(), PliSchedule::Floor);
                push_grant(&mut effects, room, speaker.as_str(), *priority, *duration_s);
                let packet = taken_packet(room, speaker.as_str(), *priority);
                push_effect(&mut effects, Effect::ToRoom { packet });
            },
            _ => {},
        }
        i += 1;
    }
    effects
}

// ---------------------------------------------------------------------------
// The handlers
// ---------------------------------------------------------------------------

/// Whether times go with two streams: one that was not cleared since somebody
/// last got the floor has not been idle.
pub open spec fn times_fit(audio: Stream, video: Stream, t: FloorTimes) -> bool {
    &&& !audio.cleared ==> t.audio_idle_ms == 0
    &&& !video.cleared ==> t.video_idle_ms == 0
}

/// Whether times go with the streams of a room, if there is one.
pub open spec fn times_fit_room(room: Option<Room>, t: FloorTimes) -> bool {
    room matches Some(x) ==> times_fit(x.audio_rewriter@, x.video_rewriter@, t)
}

/// How long the streams of a room have been idle, and what time it is.
pub fn floor_times(room: &Room) -> (r: FloorTimes)
    ensures
        times_fit(room.audio_rewriter@, room.video_rewriter@, r),
{
    FloorTimes {
        now_ms: wall_clock_ms(),
        audio_idle_ms: room.audio_rewriter.idle_ms(),
        video_idle_ms: room.video_rewriter.idle_ms(),
    }
}

/// Whether a room differs from another in floor and streams only, and by which
/// settings its floor goes.
pub open spec fn floor_changed(a: Room, b: Room) -> bool {
    &&& b == (Room {
        floor: b.floor,
        audio_rewriter: b.audio_rewriter,
        video_rewriter: b.video_rewriter,
        ..a
    })
    &&& b.floor.settings() == a.floor.settings()
}

/// A request of `user` in a push-to-talk room.
pub open spec fn request_done(
    a: Room,
    b: Room,
    pid: u64,
    user: Seq<char>,
    priority: u8,
    t: FloorTimes,
    r: FloorOutcome,
) -> bool {
    let (f, ns) = after_request(a.floor@, a.floor.settings(), user, priority, t.now_ms);
    let n = ns.len() as int;
    &&& floor_changed(a, b)
    &&& b.floor@ == f
    &&& b.audio_rewriter@ == moved_by(a.audio_rewriter@, ns, n, t.audio_idle_ms, false)
    &&& b.video_rewriter@ == moved_by(a.video_rewriter@, ns, n, t.video_idle_ms, false)
    &&& r.reply@ == request_reply(pid, user, ns, n)
    &&& effects_of(r.effects@) == request_effects(a, user, ns, n)
    &&& r.counts == counts_of(user, ns, n)
}

/// A request for the floor of a room.
pub fn request_floor(room: &mut Room, pid: u64, user: &str, priority: u8, t: FloorTimes) -> (r:
    FloorOutcome)
    requires
        old(room).wf(),
    ensures
        final(room).wf(),
        request_done(*old(room), *final(room), pid, user@, priority, t, r),
{
    let ghost start = *room;
    let actions = room.floor.request(user, priority, t.now_ms);
    proof {
        lemma_same_seats(start, *room);
    }
    let ghost between = *room;
    move_streams(room, &actions, t, false);
    let r = answer_request(room, pid, user, &actions);
    proof {
        let ns = notices(actions@);
        assert(ns.len() == actions@.len());
        lemma_same_effects(start, *room, user@, ns, ns.len() as int);
    }
    r
}

/// What others hear does not depend on floor and streams.
proof fn lemma_same_effects(a: Room, b: Room, user: Seq<char>, ns: Seq<FloorNotice>, n: int)
    requires
        floor_changed(a, b),
        n <= ns.len(),
    ensures
        request_effects(a, user, ns, n) == request_effects(b, user, ns, n),
        timer_effects(a, ns, n) == timer_effects(b, ns, n),
        forall|start: Seq<EffectView>| #[trigger]
            release_effects(start, a, user, ns, n) == release_effects(start, b, user, ns, n),
    decreases n,
{
    assert forall|u: Seq<char>| #[trigger] a.member(u) == b.member(u) by {}
    if n > 0 {
        lemma_same_effects(a, b, user, ns, n - 1);
        assert forall|start: Seq<EffectView>| #[trigger]
            release_effects(start, a, user, ns, n) == release_effects(start, b, user, ns, n) by {
            assert(release_effects(start, a, user, ns, n - 1) == release_effects(
                start,
                b,
                user,
                ns,
                n - 1,
            ));
        }
    }
}

/// The silence for the listeners, if there is any.
pub open spec fn with_silence(packets: Seq<Seq<u8>>) -> Seq<EffectView> {
    if packets.len() > 0 {
        seq![EffectView::RtpToRoom { packets }]
    } else {
        Seq::empty()
    }
}

/// What the notices of a release or of a departure do in a room.
pub open spec fn release_done(
    a: Room,
    b: Room,
    pid: u64,
    user: Seq<char>,
    t: FloorTimes,
    ns: Seq<FloorNotice>,
    r: FloorOutcome,
) -> bool {
    let n = ns.len() as int;
    &&& floor_changed(a, b)
    &&& b.audio_rewriter@ == moved_by(
        cleared_by(a.audio_rewriter@, ns, n),
        ns,
        n,
        t.audio_idle_ms,
        false,
    )
    &&& b.video_rewriter@ == moved_by(
        cleared_by(a.video_rewriter@, ns, n),
        ns,
        n,
        t.video_idle_ms,
        false,
    )
    &&& r.reply@ == release_reply(opcode::FLOOR_RELEASE, pid, ns, n)
    &&& effects_of(r.effects@) == release_effects(
        with_silence(silence_by(a.audio_rewriter@, ns, n)),
        a,
        user,
        ns,
        n,
    )
    &&& r.counts == counts_of(user, ns, n)
}

fn finish_release(
    room: &mut Room,
    pid: u64,
    user: &str,
    actions: &Vec<FloorAction>,
    t: FloorTimes,
) -> (r: FloorOutcome)
    requires
        old(room).wf(),
    ensures
        final(room).wf(),
        final(room).floor == old(room).floor,
        release_done(*old(room), *final(room), pid, user@, t, notices(actions@), r),
{
    let ghost start = *room;
    let frames = flush_ptt_silence(room, actions);
    move_streams(room, actions, t, false);
    let mut effects: Vec<Effect> = Vec::new();
    assert(effects_of(effects@) =~= Seq::empty());
    let ghost packets = runs(frames@);
    if frames.len() > 0 {
        push_effect(&mut effects, Effect::RtpToRoom { packets: frames });
    }
    assert(effects_of(effects@) =~= with_silence(packets));
    let reply = apply_floor_actions(opcode::FLOOR_RELEASE, pid, actions, room, user, &mut effects);
    let counts = count_actions(user, actions);
    proof {
        let ns = notices(actions@);
        assert(ns.len() == actions@.len());
        lemma_same_effects(start, *room, user@, ns, ns.len() as int);
    }
    FloorOutcome { reply, effects, counts }
}

/// `user` lets the floor of a room go, or withdraws a request.
pub fn release_floor(room: &mut Room, pid: u64, user: &str, t: FloorTimes) -> (r: FloorOutcome)
    requires
        old(room).wf(),
    ensures
        final(room).wf(),
        ({
            let (f, ns) = after_release(old(room).floor@, user@, t.now_ms);
            &&& final(room).floor@ == f
            &&& release_done(*old(room), *final(room), pid, user@, t, ns, r)
        }),
{
    let ghost start = *room;
    let actions = room.floor.release_at(user, t.now_ms);
    proof {
        lemma_same_seats(start, *room);
    }
    let ghost between = *room;
    let r = finish_release(room, pid, user, &actions, t);
    proof {
        let ns = notices(actions@);
        lemma_same_effects(start, between, user@, ns, ns.len() as int);
    }
    r
}

/// `user` leaves a room: the floor is handed on if they held it.
pub fn leave_floor(room: &mut Room, user: &str, t: FloorTimes) -> (r: FloorOutcome)
    requires
        old(room).wf(),
    ensures
        final(room).wf(),
        ({
            let (f, ns) = after_leave(old(room).floor@, user@, t.now_ms);
            &&& final(room).floor@ == f
            &&& release_done(*old(room), *final(room), 0, user@, t, ns, r)
        }),
{
    let ghost start = *room;
    let actions = room.floor.on_participant_leave_at(user, t.now_ms);
    proof {
        lemma_same_seats(start, *room);
    }
    let ghost between = *room;
    let r = finish_release(room, 0, user, &actions, t);
    proof {
        let ns = notices(actions@);
        lemma_same_effects(start, between, user@, ns, ns.len() as int);
    }
    r
}

/// What the timers of a room at `now_ms` come to; the floor is handed on at
/// `t.now_ms`.
pub open spec fn timers_done(
    a: Room,
    b: Room,
    now_ms: u64,
    t: FloorTimes,
    r: (Vec<Effect>, FloorCounts),
) -> bool {
    let (f, ns) = after_timers(a.floor@, a.floor.settings(), now_ms, t.now_ms);
    let n = ns.len() as int;
    let counts = counts_of(Seq::empty(), ns, n);
    &&& floor_changed(a, b)
    &&& b.floor@ == f
    &&& b.audio_rewriter@ == moved_by(a.audio_rewriter@, ns, n, t.audio_idle_ms, true)
    &&& b.video_rewriter@ == moved_by(a.video_rewriter@, ns, n, t.video_idle_ms, true)
    &&& effects_of(r.0@) == timer_effects(a, ns, n)
    &&& r.1 == (FloorCounts { queue_pop: counts.granted, ..counts })
}

/// Lets the timers of a room run.
pub fn run_floor_timers(room: &mut Room, now_ms: u64, t: FloorTimes) -> (r: (Vec<Effect>, FloorCounts))
    requires
        old(room).wf(),
    ensures
        final(room).wf(),
        timers_done(*old(room), *final(room), now_ms, t, r),
{
    let ghost start = *room;
    let actions = room.floor.check_timers_at(now_ms, t.now_ms);
    proof {
        lemma_same_seats(start, *room);
    }
    move_streams(room, &actions, t, true);
    let effects = announce_timers(room, &actions);
    let nobody = String::new();
    let mut counts = count_actions(nobody.as_str(), &actions);
    counts.queue_pop = counts.granted;
    proof {
        let ns = notices(actions@);
        assert(ns.len() == actions@.len());
        lemma_same_effects(start, *room, Seq::empty(), ns, ns.len() as int);
        assert(nobody@ =~= Seq::empty());
    }
    (effects, counts)
}

/// An answer that nobody else hears of.
pub open spec fn only_reply(r: FloorOutcome, reply: PacketView) -> bool {
    r.reply@ == reply && r.effects@.len() == 0 && r.counts == no_floor_counts()
}

fn just_reply(reply: Packet) -> (r: FloorOutcome)
    ensures
        only_reply(r, reply@),
{
    FloorOutcome {
        reply,
        effects: Vec::new(),
        counts: FloorCounts {
            granted: 0,
            revoked: 0,
            preempted: 0,
            queued: 0,
            released: 0,
            queue_pop: 0,
        },
    }
}

/// What a client's request for the floor comes to.
pub open spec fn floor_request_handled(
    a: RoomHub,
    b: RoomHub,
    user: Seq<char>,
    pid: u64,
    req: FloorRequestMsg,
    t: FloorTimes,
    r: FloorOutcome,
) -> bool {
    let priority = match req.priority {
        Some(p) => p,
        None => config::FLOOR_DEFAULT_PRIORITY,
    };
    match a.room(req.room_id@) {
        None => hub_unchanged(a, b) && only_reply(
            r,
            refused(opcode::FLOOR_REQUEST, pid, 2001, "room not found"@),
        ),
        Some(x) => if x.mode != RoomMode::Ptt {
            hub_unchanged(a, b) && only_reply(
                r,
                refused(opcode::FLOOR_REQUEST, pid, 2020, "not a PTT room"@),
            )
        } else {
            &&& room_replaced(a, b, req.room_id@)
            &&& indices_unchanged(a, b)
            &&& request_done(x, b.room(req.room_id@)->0, pid, user, priority, t, r)
        },
    }
}

/// `handle_floor_request` at given times.
pub fn handle_floor_request_at(
    hub: &mut RoomHub,
    user: &str,
    pid: u64,
    req: &FloorRequestMsg,
    t: FloorTimes,
) -> (r: FloorOutcome)
    requires
        old(hub).wf(),
    ensures
        final(hub).wf(),
        floor_request_handled(*old(hub), *final(hub), user@, pid, *req, t, r),
{
    let slot: usize = match hub.slot_of(req.room_id.as_str()) {
        Some(i) => i,
        None => {
            return just_reply(Packet::err(opcode::FLOOR_REQUEST, pid, 2001, "room not found"));
        },
    };
    let priority: u8 = match req.priority {
        Some(p) => p,
        None => config::FLOOR_DEFAULT_PRIORITY,
    };
    let ghost start = *hub;
    match &mut hub.slots[slot] {
        Some(room) => {
            if room.mode != RoomMode::Ptt {
                assert(hub.slots@ =~= start.slots@);
                return just_reply(Packet::err(opcode::FLOOR_REQUEST, pid, 2020, "not a PTT room"));
            }
            let r = request_floor(room, pid, user, priority, t);
            proof {
                lemma_replaced(start, *hub, slot as int);
            }
            r
        },
        None => just_reply(Packet::err(opcode::FLOOR_REQUEST, pid, 2001, "room not found")),
    }
}

/// A client asks for the floor.
pub fn handle_floor_request(hub: &mut RoomHub, user: &str, pid: u64, req: &FloorRequestMsg) -> (r:
    FloorOutcome)
    requires
        old(hub).wf(),
    ensures
        final(hub).wf(),
        exists|t: FloorTimes|
            times_fit_room(old(hub).room(req.room_id@), t) && #[trigger] floor_request_handled(
                *old(hub),
                *final(hub),
                user@,
                pid,
                *req,
                t,
                r,
            ),
{
    let t: FloorTimes = match hub.get(req.room_id.as_str()) {
        Ok(room) => floor_times(room),
        Err(_) => FloorTimes { now_ms: 0, audio_idle_ms: 0, video_idle_ms: 0 },
    };
    handle_floor_request_at(hub, user, pid, req, t)
}

/// What a client's release of the floor comes to.
pub open spec fn floor_release_handled(
    a: RoomHub,
    b: RoomHub,
    user: Seq<char>,
    pid: u64,
    room_id: Seq<char>,
    t: FloorTimes,
    r: FloorOutcome,
) -> bool {
    match a.room(room_id) {
        None => hub_unchanged(a, b) && only_reply(
            r,
            refused(opcode::FLOOR_RELEASE, pid, 2001, "room not found"@),
        ),
        Some(x) => if x.mode != RoomMode::Ptt {
            hub_unchanged(a, b) && only_reply(
                r,
                refused(opcode::FLOOR_RELEASE, pid, 2020, "not a PTT room"@),
            )
        } else {
            let y = b.room(room_id)->0;
            let (f, ns) = after_release(x.floor@, user, t.now_ms);
            &&& room_replaced(a, b, room_id)
            &&& indices_unchanged(a, b)
            &&& y.floor@ == f
            &&& release_done(x, y, pid, user, t, ns, r)
        },
    }
}

/// `handle_floor_release` at given times.
pub fn handle_floor_release_at(
    hub: &mut RoomHub,
    user: &str,
    pid: u64,
    req: &FloorReleaseMsg,
    t: FloorTimes,
) -> (r: FloorOutcome)
    requires
        old(hub).wf(),
    ensures
        final(hub).wf(),
        floor_release_handled(*old(hub), *final(hub), user@, pid, req.room_id@, t, r),
{
    let slot: usize = match hub.slot_of(req.room_id.as_str()) {
        Some(i) => i,
        None => {
            return just_reply(Packet::err(opcode::FLOOR_RELEASE, pid, 2001, "room not found"));
        },
    };
    let ghost start = *hub;
    match &mut hub.slots[slot] {
        Some(room) => {
            if room.mode != RoomMode::Ptt {
                assert(hub.slots@ =~= start.slots@);
                return just_reply(Packet::err(opcode::FLOOR_RELEASE, pid, 2020, "not a PTT room"));
            }
            let r = release_floor(room, pid, user, t);
            proof {
                lemma_replaced(start, *hub, slot as int);
            }
            r
        },
        None => just_reply(Packet::err(opcode::FLOOR_RELEASE, pid, 2001, "room not found")),
    }
}

/// A client lets the floor go.
pub fn handle_floor_release(hub: &mut RoomHub, user: &str, pid: u64, req: &FloorReleaseMsg) -> (r:
    FloorOutcome)
    requires
        old(hub).wf(),
    ensures
        final(hub).wf(),
        exists|t: FloorTimes|
            times_fit_room(old(hub).room(req.room_id@), t) && #[trigger] floor_release_handled(
                *old(hub),
                *final(hub),
                user@,
                pid,
                req.room_id@,
                t,
                r,
            ),
{
    let t: FloorTimes = match hub.get(req.room_id.as_str()) {
        Ok(room) => floor_times(room),
        Err(_) => FloorTimes { now_ms: 0, audio_idle_ms: 0, video_idle_ms: 0 },
    };
    handle_floor_release_at(hub, user, pid, req, t)
}

/// A speaker's sign of life at `now_ms`.
pub fn handle_floor_ping(
    hub: &mut RoomHub,
    user: &str,
    pid: u64,
    req: &FloorPingMsg,
    now_ms: u64,
) -> (r: Packet)
    requires
        old(hub).wf(),
    ensures
        final(hub).wf(),
        match old(hub).room(req.room_id@) {
            None => hub_unchanged(*old(hub), *final(hub)) && r@ == refused(
                opcode::FLOOR_PING,
                pid,
                2001,
                "room not found"@,
            ),
            Some(x) => {
                let y = final(hub).room(req.room_id@)->0;
                &&& room_replaced(*old(hub), *final(hub), req.room_id@)
                &&& indices_unchanged(*old(hub), *final(hub))
                &&& y == (Room { floor: y.floor, ..x })
                &&& y.floor.settings() == x.floor.settings()
                &&& match x.floor@.burst {
                    Some(b) if b.speaker == user@ => {
                        &&& r@ == done(opcode::FLOOR_PING, pid, PayloadView::Empty)
                        &&& y.floor@ == (Floor {
                            burst: Some(TalkBurst { last_ping: now_ms, ..b }),
                            ..x.floor@
                        })
                    },
                    _ => {
                        &&& r@ == refused(opcode::FLOOR_PING, pid, 2021, "not current speaker"@)
                        &&& y.floor@ == x.floor@
                    },
                }
            },
        },
{
    let slot: usize = match hub.slot_of(req.room_id.as_str()) {
        Some(i) => i,
        None => {
            return Packet::err(opcode::FLOOR_PING, pid, 2001, "room not found");
        },
    };
    let ghost start = *hub;
    match &mut hub.slots[slot] {
        Some(room) => {
            let ghost before = *room;
            let action = room.floor.ping(user, now_ms);
            proof {
                lemma_same_seats(before, *room);
                lemma_replaced(start, *hub, slot as int);
            }
            match action {
                FloorAction::PingOk => Packet::ok(opcode::FLOOR_PING, pid, Payload::Empty),
                _ => Packet::err(opcode::FLOOR_PING, pid, 2021, "not current speaker"),
            }
        },
        None => Packet::err(opcode::FLOOR_PING, pid, 2001, "room not found"),
    }
}

/// Where a client stands in the queue; 0 where they do not wait.
pub fn handle_floor_queue_pos(hub: &RoomHub, user: &str, pid: u64, req: &FloorQueuePosMsg) -> (r: Packet)
    requires
        hub.wf(),
    ensures
        r@ == (match hub.room(req.room_id@) {
            None => refused(opcode::FLOOR_QUEUE_POS, pid, 2001, "room not found"@),
            Some(x) => {
                let q = x.floor@.queue;
                let (position, priority) = match place_of(q, user@) {
                    Some(i) => (((i + 1) % 0x100) as u8, q[i].priority),
                    None => (0u8, 0u8),
                };
                done(
                    opcode::FLOOR_QUEUE_POS,
                    pid,
                    PayloadView::QueuePosition { position, priority, queue_size: q.len() as usize },
                )
            },
        }),
{
    match hub.get(req.room_id.as_str()) {
        Ok(room) => {
            let (position, priority) = match room.floor.query_queue_position(user) {
                Some(x) => x,
                None => (0, 0),
            };
            Packet::ok(
                opcode::FLOOR_QUEUE_POS,
                pid,
                Payload::QueuePosition { position, priority, queue_size: room.floor.queue_size() },
            )
        },
        Err(_) => Packet::err(opcode::FLOOR_QUEUE_POS, pid, 2001, "room not found"),
    }
}

} // verus!
