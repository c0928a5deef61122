//! Laws of floor control as the members of a room see it: what they are answered,
//! what they are told, and what becomes of the streams of the room.

use vstd::prelude::*;

use crate::room::floor::{after_ping, after_release, after_request, after_timers, FloorNotice};
use crate::room::ptt_rewriter::{after_clear, after_switch, silence_frame, Stream};
use crate::room::room::Room;
use crate::signaling::effect::{effects_of, pli_delays, pli_target, Effect, EffectView, PliSchedule};
use crate::signaling::handler::floor_ops::{
    cleared_by, counts_of, moved_by, release_done, release_effects, release_reply, request_done,
    request_effects, request_reply, silence_by, timer_effects, timers_done, times_fit_room,
    FloorCounts, FloorOutcome, FloorTimes,
};
use crate::signaling::message::{PacketView, PayloadView};
use crate::text::decimal;
use crate::transport::udp::mbcp::{
    added_counts, after_message, after_messages, mbcp_effects, talk_is, Talk,
};
use crate::transport::udp::rtcp::mbcp_packet;

verus! {

// ---------------------------------------------------------------------------
// What is told
// ---------------------------------------------------------------------------

/// The request for key frames of a new speaker: none where they cannot be asked,
/// otherwise at once, after 500 ms and after another 1500 ms.
pub open spec fn asked_for_key_frames(room: Room, user: Seq<char>) -> Seq<EffectView> {
    if room.member(user) is Some && pli_target(room.member(user)->0) is Some {
        let (ssrc, addr) = pli_target(room.member(user)->0)->0;
        seq![EffectView::PliBurst { user_id: user, ssrc, addr, schedule: PliSchedule::Floor }]
    } else {
        Seq::empty()
    }
}

/// The event that somebody has taken the floor.
pub open spec fn taken_event(room: Room, speaker: Seq<char>, priority: u8) -> PacketView {
    PacketView {
        op: 141,
        pid: 0,
        ok: None,
        d: PayloadView::FloorTaken { room_id: room.id@, speaker, priority },
    }
}

/// The event that the floor is free.
pub open spec fn idle_event(room: Room, prev: Seq<char>, cause: Option<Seq<char>>) -> PacketView {
    PacketView {
        op: 142,
        pid: 0,
        ok: None,
        d: PayloadView::FloorIdle { room_id: room.id@, prev_speaker: prev, cause },
    }
}

/// A positive answer to a request for the floor.
pub open spec fn granted_answer(pid: u64, speaker: Seq<char>, priority: u8, duration_s: u16) -> PacketView {
    PacketView {
        op: 40,
        pid,
        ok: Some(true),
        d: PayloadView::FloorGranted { speaker, priority, duration_s },
    }
}

/// What a speaker who is still there is told when they lose the floor: no more key
/// frames are asked of them, and they get an event with the cause.
pub open spec fn told_revoked(room: Room, user: Seq<char>, cause: Seq<char>) -> Seq<EffectView> {
    if room.member(user) is Some {
        seq![
            EffectView::CancelPli { user_id: user },
            EffectView::ToUser {
                user_id: user,
                packet: PacketView {
                    op: 143,
                    pid: 0,
                    ok: None,
                    d: PayloadView::FloorRevoke { room_id: room.id@, cause },
                },
            },
        ]
    } else {
        Seq::empty()
    }
}

/// What a new speaker who did not just ask is told, if they are still there.
pub open spec fn told_granted(room: Room, user: Seq<char>, priority: u8, duration_s: u16) -> Seq<
    EffectView,
> {
    if room.member(user) is Some {
        seq![
            EffectView::ToUser {
                user_id: user,
                packet: granted_answer(0, user, priority, duration_s),
            },
        ]
    } else {
        Seq::empty()
    }
}

/// The three packets of silence behind an audio stream, if it has carried anything.
pub open spec fn silence_behind(s: Stream) -> Seq<EffectView> {
    if !s.video && (s.last_seq != 0 || s.last_ts != 0) {
        seq![
            EffectView::RtpToRoom {
                packets: seq![silence_frame(s, 0), silence_frame(s, 1), silence_frame(s, 2)],
            },
        ]
    } else {
        Seq::empty()
    }
}

/// Nothing was counted.
pub open spec fn nothing_counted() -> FloorCounts {
    FloorCounts { granted: 0, revoked: 0, preempted: 0, queued: 0, released: 0, queue_pop: 0 }
}

/// A grant, as the only thing that a request for the floor led to, is answered,
/// the others are told, key frames are asked for, and both streams go to the speaker.
pub proof fn law_grant_is_told(
    a: Room,
    b: Room,
    pid: u64,
    user: Seq<char>,
    priority: u8,
    t: FloorTimes,
    r: FloorOutcome,
    p: u8,
    d: u16,
)
    requires
        request_done(a, b, pid, user, priority, t, r),
        after_request(a.floor@, a.floor.settings(), user, priority, t.now_ms).1 == seq![
            FloorNotice::Granted { speaker: user, priority: p, duration_s: d },
        ],
    ensures
        r.reply@ == granted_answer(pid, user, p, d),
        effects_of(r.effects@) == asked_for_key_frames(a, user) + seq![
            EffectView::ToOthers { exclude: user, packet: taken_event(a, user, p) },
        ],
        b.audio_rewriter@ == after_switch(a.audio_rewriter@, user, t.audio_idle_ms),
        b.video_rewriter@ == after_switch(a.video_rewriter@, user, t.video_idle_ms),
        b.floor@ == after_request(a.floor@, a.floor.settings(), user, priority, t.now_ms).0,
        r.counts == (FloorCounts { granted: 1, ..nothing_counted() }),
        b.slots == a.slots,
{
    let ns = after_request(a.floor@, a.floor.settings(), user, priority, t.now_ms).1;
    reveal_with_fuel(request_effects, 3);
    reveal_with_fuel(request_reply, 3);
    reveal_with_fuel(moved_by, 3);
    reveal_with_fuel(counts_of, 3);
    assert(effects_of(r.effects@) =~= asked_for_key_frames(a, user) + seq![
        EffectView::ToOthers { exclude: user, packet: taken_event(a, user, p) },
    ]);
}

/// A preemption: the one who spoke is told first, then all is as in a grant.
pub proof fn law_preemption_is_told(
    a: Room,
    b: Room,
    pid: u64,
    user: Seq<char>,
    priority: u8,
    t: FloorTimes,
    r: FloorOutcome,
    prev: Seq<char>,
    d: u16,
)
    requires
        request_done(a, b, pid, user, priority, t, r),
        after_request(a.floor@, a.floor.settings(), user, priority, t.now_ms).1 == seq![
            FloorNotice::Revoked { prev_speaker: prev, cause: "preempted"@ },
            FloorNotice::Granted { speaker: user, priority, duration_s: d },
        ],
    ensures
        r.reply@ == granted_answer(pid, user, priority, d),
        effects_of(r.effects@) == told_revoked(a, prev, "preempted"@) + asked_for_key_frames(
            a,
            user,
        ) + seq![EffectView::ToOthers { exclude: user, packet: taken_event(a, user, priority) }],
        b.audio_rewriter@ == after_switch(a.audio_rewriter@, user, t.audio_idle_ms),
        b.video_rewriter@ == after_switch(a.video_rewriter@, user, t.video_idle_ms),
        r.counts == (FloorCounts { granted: 1, revoked: 1, preempted: 1, ..nothing_counted() }),
{
    reveal_with_fuel(request_effects, 4);
    reveal_with_fuel(request_reply, 4);
    reveal_with_fuel(moved_by, 4);
    reveal_with_fuel(counts_of, 4);
    assert(effects_of(r.effects@) =~= told_revoked(a, prev, "preempted"@) + asked_for_key_frames(
        a,
        user,
    ) + seq![EffectView::ToOthers { exclude: user, packet: taken_event(a, user, priority) }]);
}

/// Whoever has to wait is told where, and whoever is denied the floor is told why
/// and who speaks. Nobody else hears of it, and the streams stay.
pub proof fn law_waiting_and_denial_are_told(
    a: Room,
    b: Room,
    pid: u64,
    user: Seq<char>,
    priority: u8,
    t: FloorTimes,
    r: FloorOutcome,
    n: FloorNotice,
)
    requires
        request_done(a, b, pid, user, priority, t, r),
        after_request(a.floor@, a.floor.settings(), user, priority, t.now_ms).1 == seq![n],
    ensures
        n matches FloorNotice::Queued { position, priority: p, queue_size, .. } ==> {
            &&& r.reply@ == (PacketView {
                op: 40,
                pid,
                ok: Some(true),
                d: PayloadView::FloorQueued { position, priority: p, queue_size },
            })
            &&& r.counts == (FloorCounts { queued: 1, ..nothing_counted() })
        },
        n matches FloorNotice::Denied { reason, current_speaker } ==> {
            &&& r.reply@ == (PacketView {
                op: 40,
                pid,
                ok: Some(false),
                d: PayloadView::Error {
                    code: 2010,
                    msg: reason + " (speaker="@ + current_speaker + ")"@,
                },
            })
            &&& r.counts == nothing_counted()
        },
        n is Queued || n is Denied ==> {
            &&& r.effects@.len() == 0
            &&& b.audio_rewriter@ == a.audio_rewriter@
            &&& b.video_rewriter@ == a.video_rewriter@
        },
{
    reveal_with_fuel(request_effects, 3);
    reveal_with_fuel(request_reply, 3);
    reveal_with_fuel(moved_by, 3);
    reveal_with_fuel(counts_of, 3);
    assert(effects_of(r.effects@).len() == r.effects@.len());
}

// ---------------------------------------------------------------------------
// Release and revocation
// ---------------------------------------------------------------------------

/// The end of a talk burst with nobody waiting: silence closes the audio stream,
/// all are told that the floor is free, and nobody is heard in the streams.
pub proof fn law_release_is_told(
    a: Room,
    b: Room,
    pid: u64,
    user: Seq<char>,
    t: FloorTimes,
    r: FloorOutcome,
    prev: Seq<char>,
)
    requires
        release_done(a, b, pid, user, t, seq![FloorNotice::Released { prev_speaker: prev }], r),
    ensures
        r.reply@ == (PacketView { op: 41, pid, ok: Some(true), d: PayloadView::Empty }),
        effects_of(r.effects@) == silence_behind(a.audio_rewriter@) + seq![
            EffectView::ToRoom { packet: idle_event(a, prev, None) },
        ],
        b.audio_rewriter@ == after_clear(a.audio_rewriter@),
        b.video_rewriter@ == after_clear(a.video_rewriter@),
        r.counts == (FloorCounts { released: 1, ..nothing_counted() }),
{
    let ns = seq![FloorNotice::Released { prev_speaker: prev }];
    reveal_with_fuel(release_effects, 3);
    reveal_with_fuel(release_reply, 3);
    reveal_with_fuel(moved_by, 3);
    reveal_with_fuel(cleared_by, 3);
    reveal_with_fuel(silence_by, 3);
    reveal_with_fuel(counts_of, 3);
    lemma_silence(a.audio_rewriter@, ns);
    assert(effects_of(r.effects@) =~= silence_behind(a.audio_rewriter@) + seq![
        EffectView::ToRoom { packet: idle_event(a, prev, None) },
    ]);
}

proof fn lemma_silence(s: Stream, ns: Seq<FloorNotice>)
    requires
        1 <= ns.len() <= 2,
        ns[0] is Released,
        ns.len() == 2 ==> ns[1] is Granted,
    ensures
        crate::signaling::handler::floor_ops::with_silence(silence_by(s, ns, ns.len() as int))
            == silence_behind(s),
{
    reveal_with_fuel(silence_by, 4);
    reveal_with_fuel(cleared_by, 4);
    let x = silence_by(s, ns, ns.len() as int);
    if !s.video && (s.last_seq != 0 || s.last_ts != 0) {
        assert(x =~= seq![silence_frame(s, 0), silence_frame(s, 1), silence_frame(s, 2)]);
    } else {
        assert(x =~= Seq::empty());
    }
}

/// The end of a talk burst with somebody waiting: silence closes the old speaker's
/// audio, all are told that the floor was free and who has it now, and the new
/// speaker, of whom key frames are asked, that it is theirs.
pub proof fn law_hand_over_is_told(
    a: Room,
    b: Room,
    pid: u64,
    user: Seq<char>,
    t: FloorTimes,
    r: FloorOutcome,
    prev: Seq<char>,
    next: Seq<char>,
    p: u8,
    d: u16,
)
    requires
        next != user,
        release_done(
            a,
            b,
            pid,
            user,
            t,
            seq![
                FloorNotice::Released { prev_speaker: prev },
                FloorNotice::Granted { speaker: next, priority: p, duration_s: d },
            ],
            r,
        ),
    ensures
        r.reply@ == (PacketView { op: 41, pid, ok: Some(true), d: PayloadView::Empty }),
        effects_of(r.effects@) == silence_behind(a.audio_rewriter@) + seq![
            EffectView::ToRoom { packet: idle_event(a, prev, None) },
        ] + asked_for_key_frames(a, next) + seq![
            EffectView::ToRoom { packet: taken_event(a, next, p) },
        ] + told_granted(a, next, p, d),
        b.audio_rewriter@ == after_switch(after_clear(a.audio_rewriter@), next, t.audio_idle_ms),
        b.video_rewriter@ == after_switch(after_clear(a.video_rewriter@), next, t.video_idle_ms),
        r.counts == (FloorCounts { granted: 1, released: 1, queue_pop: 1, ..nothing_counted() }),
{
    let ns = seq![
        FloorNotice::Released { prev_speaker: prev },
        FloorNotice::Granted { speaker: next, priority: p, duration_s: d },
    ];
    reveal_with_fuel(release_effects, 4);
    reveal_with_fuel(release_reply, 4);
    reveal_with_fuel(moved_by, 4);
    reveal_with_fuel(cleared_by, 4);
    reveal_with_fuel(counts_of, 4);
    lemma_silence(a.audio_rewriter@, ns);
    assert(effects_of(r.effects@) =~= silence_behind(a.audio_rewriter@) + seq![
        EffectView::ToRoom { packet: idle_event(a, prev, None) },
    ] + asked_for_key_frames(a, next) + seq![
        EffectView::ToRoom { packet: taken_event(a, next, p) },
    ] + told_granted(a, next, p, d));
}

/// A release by somebody who does not have the floor is answered, and that is all.
pub proof fn law_idle_release(
    a: Room,
    b: Room,
    pid: u64,
    user: Seq<char>,
    t: FloorTimes,
    r: FloorOutcome,
)
    requires
        release_done(a, b, pid, user, t, Seq::empty(), r),
    ensures
        r.reply@ == (PacketView { op: 41, pid, ok: Some(true), d: PayloadView::Empty }),
        r.effects@.len() == 0,
        b.audio_rewriter@ == a.audio_rewriter@,
        b.video_rewriter@ == a.video_rewriter@,
        r.counts == nothing_counted(),
{
    assert(effects_of(r.effects@).len() == r.effects@.len());
}

/// A speaker whose time is up loses the floor: they are told the cause, all are told
/// that the floor is free and why, and nobody is heard in the streams.
pub proof fn law_revocation_is_told(
    a: Room,
    b: Room,
    now_ms: u64,
    t: FloorTimes,
    r: (Vec<Effect>, FloorCounts),
    prev: Seq<char>,
    cause: Seq<char>,
)
    requires
        timers_done(a, b, now_ms, t, r),
        cause != "preempted"@,
        after_timers(a.floor@, a.floor.settings(), now_ms, t.now_ms).1 == seq![
            FloorNotice::Revoked { prev_speaker: prev, cause },
        ],
    ensures
        effects_of(r.0@) == told_revoked(a, prev, cause) + seq![
            EffectView::ToRoom { packet: idle_event(a, prev, Some(cause)) },
        ],
        b.audio_rewriter@ == after_clear(a.audio_rewriter@),
        b.video_rewriter@ == after_clear(a.video_rewriter@),
        r.1 == (FloorCounts { revoked: 1, ..nothing_counted() }),
{
    reveal_with_fuel(timer_effects, 3);
    reveal_with_fuel(moved_by, 3);
    reveal_with_fuel(counts_of, 3);
    assert(effects_of(r.0@) =~= told_revoked(a, prev, cause) + seq![
        EffectView::ToRoom { packet: idle_event(a, prev, Some(cause)) },
    ]);
}

/// The same with somebody waiting: the next speaker gets the floor and is told so,
/// and so are all.
pub proof fn law_revocation_with_queue_is_told(
    a: Room,
    b: Room,
    now_ms: u64,
    t: FloorTimes,
    r: (Vec<Effect>, FloorCounts),
    prev: Seq<char>,
    cause: Seq<char>,
    next: Seq<char>,
    p: u8,
    d: u16,
)
    requires
        timers_done(a, b, now_ms, t, r),
        cause != "preempted"@,
        after_timers(a.floor@, a.floor.settings(), now_ms, t.now_ms).1 == seq![
            FloorNotice::Revoked { prev_speaker: prev, cause },
            FloorNotice::Granted { speaker: next, priority: p, duration_s: d },
        ],
    ensures
        effects_of(r.0@) == told_revoked(a, prev, cause) + seq![
            EffectView::ToRoom { packet: idle_event(a, prev, Some(cause)) },
        ] + asked_for_key_frames(a, next) + told_granted(a, next, p, d) + seq![
            EffectView::ToRoom { packet: taken_event(a, next, p) },
        ],
        b.audio_rewriter@ == after_switch(after_clear(a.audio_rewriter@), next, t.audio_idle_ms),
        b.video_rewriter@ == after_switch(after_clear(a.video_rewriter@), next, t.video_idle_ms),
        r.1 == (FloorCounts { granted: 1, revoked: 1, queue_pop: 1, ..nothing_counted() }),
{
    reveal_with_fuel(timer_effects, 4);
    reveal_with_fuel(moved_by, 4);
    reveal_with_fuel(counts_of, 4);
    assert(effects_of(r.0@) =~= told_revoked(a, prev, cause) + seq![
        EffectView::ToRoom { packet: idle_event(a, prev, Some(cause)) },
    ] + asked_for_key_frames(a, next) + told_granted(a, next, p, d) + seq![
        EffectView::ToRoom { packet: taken_event(a, next, p) },
    ]);
}

/// When key frames are asked for, in milliseconds each after the request before.
pub proof fn law_key_frame_schedules(s: PliSchedule)
    ensures
        s == PliSchedule::Once ==> pli_delays(s) == seq![0u64],
        s == PliSchedule::Camera ==> pli_delays(s) == seq![0u64, 150],
        s == PliSchedule::Floor ==> pli_delays(s) == seq![0u64, 500, 1500],
        s == PliSchedule::Layer ==> pli_delays(s) == seq![0u64, 200, 500, 1500],
{
}

// ---------------------------------------------------------------------------
// Floor control in media packets
// ---------------------------------------------------------------------------

/// A notice in a media packet: a packet of a subtype with a text, from SSRC 0.
pub open spec fn notice(subtype: u8, text: Seq<char>) -> Seq<u8> {
    mbcp_packet(subtype, 0, vstd::utf8::encode_utf8(text))
}

/// What all are told when the floor is free: a packet of subtype 3 with the name of
/// the one who spoke, and the event.
pub open spec fn told_idle(room: Room, prev: Seq<char>) -> Seq<EffectView> {
    seq![
        EffectView::RtcpToRoom { packet: notice(3, prev) },
        EffectView::ToRoom { packet: idle_event(room, prev, None) },
    ]
}

/// What all are told when somebody speaks: a packet of subtype 2 with their name,
/// and the event.
pub open spec fn told_taken(room: Room, speaker: Seq<char>, priority: u8) -> Seq<EffectView> {
    seq![
        EffectView::RtcpToRoom { packet: notice(2, speaker) },
        EffectView::ToRoom { packet: taken_event(room, speaker, priority) },
    ]
}

/// A request in a media packet is a request at priority 0, and does to the floor
/// what any request does.
pub proof fn law_packet_request(
    room: Room,
    s: Talk,
    user: Seq<char>,
    t: FloorTimes,
)
    ensures
        ({
            let (f, ns) = after_request(s.floor, room.floor.settings(), user, 0, t.now_ms);
            let z = after_message(room, s, user, 0, t);
            &&& z.floor == f
            &&& forall|p: u8, d: u16|
                ns == seq![FloorNotice::Granted { speaker: user, priority: p, duration_s: d }]
                    ==> #[trigger] granted_in_packet(room, s, z, user, t, p, d)
            &&& forall|n: FloorNotice|
                ns == seq![n] && (n is Queued || n is Denied) ==> #[trigger] refused_in_packet(
                    s,
                    z,
                    user,
                    n,
                )
        }),
{
    let (f, ns) = after_request(s.floor, room.floor.settings(), user, 0, t.now_ms);
    let z = after_message(room, s, user, 0, t);
    assert forall|p: u8, d: u16|
        ns == seq![FloorNotice::Granted { speaker: user, priority: p, duration_s: d }] implies
        #[trigger] granted_in_packet(room, s, z, user, t, p, d) by {
        reveal_with_fuel(mbcp_effects, 3);
        reveal_with_fuel(moved_by, 3);
        reveal_with_fuel(counts_of, 3);
        assert(z.effects =~= s.effects + asked_for_key_frames(room, user) + told_taken(
            room,
            user,
            p,
        ));
    }
    assert forall|n: FloorNotice|
        ns == seq![n] && (n is Queued || n is Denied) implies #[trigger] refused_in_packet(
        s,
        z,
        user,
        n,
    ) by {
        reveal_with_fuel(mbcp_effects, 3);
        reveal_with_fuel(moved_by, 3);
        reveal_with_fuel(counts_of, 3);
        assert(z.effects.drop_last() =~= s.effects);
    }
}

/// What a grant to a request in a media packet leads to.
pub open spec fn granted_in_packet(
    room: Room,
    s: Talk,
    z: Talk,
    user: Seq<char>,
    t: FloorTimes,
    priority: u8,
    duration_s: u16,
) -> bool {
    &&& z.effects == s.effects + asked_for_key_frames(room, user) + told_taken(room, user, priority)
    &&& z.audio == after_switch(s.audio, user, t.audio_idle_ms)
    &&& z.video == after_switch(s.video, user, t.video_idle_ms)
    &&& z.counts == (FloorCounts { granted: s.counts.granted.wrapping_add(1), ..s.counts })
}

/// What it leads to that a request in a media packet has to wait or is denied: a
/// packet of subtype 4 to whoever asked.
pub open spec fn refused_in_packet(s: Talk, z: Talk, user: Seq<char>, n: FloorNotice) -> bool {
    &&& z.effects.len() == s.effects.len() + 1
    &&& z.effects.drop_last() == s.effects
    &&& n matches FloorNotice::Queued { position, priority, queue_size, .. } ==> z.effects.last()
        == (EffectView::RtcpToUser {
        user_id: user,
        packet: notice(
            4,
            "queued: pos="@ + decimal(position as nat) + " pri="@ + decimal(priority as nat)
                + " size="@ + decimal(queue_size as nat),
        ),
    })
    &&& n matches FloorNotice::Denied { reason, current_speaker } ==> z.effects.last()
        == (EffectView::RtcpToUser {
        user_id: user,
        packet: notice(4, "denied: "@ + reason + " (speaker="@ + current_speaker + ")"@),
    })
    &&& z.audio == s.audio
    &&& z.video == s.video
}

/// A release in a media packet does to the floor what any release does; at the end
/// of a burst with nobody waiting the floor is free and nobody is heard.
pub proof fn law_packet_release(
    room: Room,
    s: Talk,
    user: Seq<char>,
    t: FloorTimes,
    prev: Seq<char>,
)
    ensures
        ({
            let (f, ns) = after_release(s.floor, user, t.now_ms);
            let z = after_message(room, s, user, 1, t);
            &&& z.floor == f
            &&& ns == seq![FloorNotice::Released { prev_speaker: prev }] ==> {
                &&& z.effects == s.effects + told_idle(room, prev)
                &&& z.audio == after_clear(s.audio)
                &&& z.video == after_clear(s.video)
                &&& z.counts == (FloorCounts {
                    released: s.counts.released.wrapping_add(1),
                    ..s.counts
                })
            }
        }),
{
    let (f, ns) = after_release(s.floor, user, t.now_ms);
    let z = after_message(room, s, user, 1, t);
    if ns == seq![FloorNotice::Released { prev_speaker: prev }] {
        reveal_with_fuel(mbcp_effects, 3);
        reveal_with_fuel(moved_by, 3);
        reveal_with_fuel(cleared_by, 3);
        reveal_with_fuel(counts_of, 3);
        assert(z.effects =~= s.effects + told_idle(room, prev));
    }
}

/// The end of a burst with somebody waiting: first all are told that the floor is
/// free, then who has it.
pub proof fn law_packet_hand_over(
    room: Room,
    s: Talk,
    user: Seq<char>,
    t: FloorTimes,
    prev: Seq<char>,
    next: Seq<char>,
    p: u8,
    d: u16,
)
    requires
        after_release(s.floor, user, t.now_ms).1 == seq![
            FloorNotice::Released { prev_speaker: prev },
            FloorNotice::Granted { speaker: next, priority: p, duration_s: d },
        ],
    ensures
        ({
            let z = after_message(room, s, user, 1, t);
            &&& z.effects == s.effects + told_idle(room, prev) + asked_for_key_frames(room, next)
                + told_taken(room, next, p)
            &&& z.audio == after_switch(after_clear(s.audio), next, t.audio_idle_ms)
            &&& z.video == after_switch(after_clear(s.video), next, t.video_idle_ms)
            &&& z.counts == (FloorCounts {
                released: s.counts.released.wrapping_add(1),
                granted: s.counts.granted.wrapping_add(1),
                ..s.counts
            })
        }),
{
    let z = after_message(room, s, user, 1, t);
    reveal_with_fuel(mbcp_effects, 4);
    reveal_with_fuel(moved_by, 4);
    reveal_with_fuel(cleared_by, 4);
    reveal_with_fuel(counts_of, 4);
    assert(z.effects =~= s.effects + told_idle(room, prev) + asked_for_key_frames(room, next)
        + told_taken(room, next, p));
}

/// A ping in a media packet, of subtype 5, is a ping and nothing else; packets of
/// other subtypes do nothing.
pub proof fn law_packet_ping(room: Room, s: Talk, user: Seq<char>, subtype: u8, t: FloorTimes)
    ensures
        after_message(room, s, user, 5, t) == (Talk {
            floor: after_ping(s.floor, user, t.now_ms),
            ..s
        }),
        subtype != 0 && subtype != 1 && subtype != 5 ==> after_message(room, s, user, subtype, t)
            == s,
{
}

/// The messages of a packet act one after the other.
pub proof fn law_packet_messages_in_order(
    room: Room,
    user: Seq<char>,
    subtypes: Seq<u8>,
    times: Seq<FloorTimes>,
    n: int,
)
    requires
        0 < n <= subtypes.len(),
        times.len() == subtypes.len(),
    ensures
        after_messages(room, user, subtypes, times, n) == after_message(
            room,
            after_messages(room, user, subtypes, times, n - 1),
            user,
            subtypes[n - 1],
            times[n - 1],
        ),
        ({
            let s = after_messages(room, user, subtypes, times, 0);
            &&& s.floor == room.floor@
            &&& s.audio == room.audio_rewriter@
            &&& s.video == room.video_rewriter@
            &&& s.effects.len() == 0
            &&& s.counts == nothing_counted()
        }),
{
}

/// Whoever loses the floor, where that is told in media packets, gets a packet of subtype 4
/// with the cause, if they are still there; then all are told that the floor is free.
pub proof fn law_packet_revocation(
    start: Seq<EffectView>,
    room: Room,
    user: Seq<char>,
    prev: Seq<char>,
    cause: Seq<char>,
)
    ensures
        mbcp_effects(
            start,
            room,
            user,
            seq![FloorNotice::Revoked { prev_speaker: prev, cause }],
            1,
        ) == start + (if room.member(prev) is Some {
            seq![
                EffectView::CancelPli { user_id: prev },
                EffectView::RtcpToUser { user_id: prev, packet: notice(4, cause) },
            ]
        } else {
            Seq::empty()
        }) + told_idle(room, prev),
{
    reveal_with_fuel(mbcp_effects, 3);
    let e = mbcp_effects(
        start,
        room,
        user,
        seq![FloorNotice::Revoked { prev_speaker: prev, cause }],
        1,
    );
    let told = if room.member(prev) is Some {
        seq![
            EffectView::CancelPli { user_id: prev },
            EffectView::RtcpToUser { user_id: prev, packet: notice(4, cause) },
        ]
    } else {
        Seq::empty()
    };
    assert(e =~= start + told + told_idle(room, prev));
}

/// The counts of several messages add up, each to its own.
pub proof fn law_counts_add_up(a: FloorCounts, b: FloorCounts)
    ensures
        ({
            let c = added_counts(a, b);
            &&& c.granted == a.granted.wrapping_add(b.granted)
            &&& c.revoked == a.revoked.wrapping_add(b.revoked)
            &&& c.preempted == a.preempted.wrapping_add(b.preempted)
            &&& c.queued == a.queued.wrapping_add(b.queued)
            &&& c.released == a.released.wrapping_add(b.released)
            &&& c.queue_pop == a.queue_pop
        }),
{
}

/// A room is as the messages of a packet leave it.
pub proof fn law_talk_is_done(room: Room, effects: Seq<Effect>, counts: FloorCounts, s: Talk)
    requires
        talk_is(room, effects, counts, s),
    ensures
        room.floor@ == s.floor && room.audio_rewriter@ == s.audio && room.video_rewriter@ == s.video,
        effects_of(effects) == s.effects && counts == s.counts,
{
}

/// A refusal is answered with its reason whatever it answers, and all else that a release
/// leads to with success.
pub proof fn law_release_answers(op: u16, pid: u64, n: FloorNotice)
    ensures
        n matches FloorNotice::Denied { reason, current_speaker } ==> release_reply(
            op,
            pid,
            seq![n],
            1,
        ) == (PacketView {
            op,
            pid,
            ok: Some(false),
            d: PayloadView::Error {
                code: 2010,
                msg: reason + " (speaker="@ + current_speaker + ")"@,
            },
        }),
        !(n is Denied) ==> release_reply(op, pid, seq![n], 1) == (PacketView {
            op,
            pid,
            ok: Some(true),
            d: PayloadView::Empty,
        }),
{
    reveal_with_fuel(release_reply, 3);
}

/// A stream that was not closed has not been idle.
pub proof fn law_idle_times(room: Room, t: FloorTimes)
    requires
        times_fit_room(Some(room), t),
    ensures
        !room.audio_rewriter@.cleared ==> t.audio_idle_ms == 0,
        !room.video_rewriter@.cleared ==> t.video_idle_ms == 0,
{
}

} // verus!
