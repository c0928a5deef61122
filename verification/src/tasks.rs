//! What is done from time to time: the timers of the floor, and letting go of
//! participants who have given no sign of life.

use vstd::prelude::*;

use crate::config::{self, RoomMode};
use crate::room::hub::{
    all_zombies, hub_reaped, indices_unchanged, lemma_replaced, open_at, RoomHub,
};
use crate::room::index::names_of;
use crate::room::participant::{layers_of, Layer, Participant};
use crate::room::room::{taken, Room};
use crate::signaling::effect::{effects_of, push_effect, Effect, EffectView};
use crate::signaling::handler::floor_ops::{
    floor_times, no_floor_counts, run_floor_timers, timers_done, times_fit_room, FloorCounts,
    FloorTimes,
};
use crate::signaling::handler::helpers::{
    layers_purged, purge_subscribe_layers, without_publisher,
};
use crate::signaling::handler::room_ops::{announce_departure, departure, to_room};

verus! {

/// What is to be done in a room after its timers ran.
#[derive(Debug)]
pub struct FloorTick {
    pub effects: Vec<Effect>,
    pub counts: FloorCounts,
}

/// What the timers do to a place: in a push-to-talk room they run, elsewhere
/// nothing happens.
pub open spec fn place_ticked(a: Option<Room>, b: Option<Room>, now_ms: u64, r: FloorTick) -> bool {
    match a {
        Some(x) if x.mode == RoomMode::Ptt => b is Some && exists|t: FloorTimes|
            times_fit_room(a, t) && #[trigger] timers_done(
                x,
                b->0,
                now_ms,
                t,
                (r.effects, r.counts),
            ),
        _ => b == a && r.effects@.len() == 0 && r.counts == no_floor_counts(),
    }
}

/// Lets the floor timers of all rooms run; what is to be done in each room is
/// returned, place by place.
pub fn check_floor_timers(hub: &mut RoomHub, now_ms: u64) -> (r: Vec<FloorTick>)
    requires
        old(hub).wf(),
    ensures
        final(hub).wf(),
        indices_unchanged(*old(hub), *final(hub)),
        final(hub).rooms == old(hub).rooms,
        final(hub).slots@.len() == old(hub).slots@.len() == r@.len(),
        forall|i: int|
            0 <= i < r@.len() ==> place_ticked(
                old(hub).slots@[i],
                final(hub).slots@[i],
                now_ms,
                #[trigger] r@[i],
            ),
{
    let ghost start = *hub;
    let mut out: Vec<FloorTick> = Vec::new();
    let n: usize = hub.slots.len();
    let mut i: usize = 0;
    while i < n
        invariant
            i <= n == start.slots@.len() == hub.slots@.len(),
            out@.len() == i,
            hub.wf(),
            indices_unchanged(start, *hub),
            hub.rooms == start.rooms,
            forall|k: int| i <= k < n ==> hub.slots@[k] == start.slots@[k],
            forall|k: int|
                0 <= k < i ==> place_ticked(
                    start.slots@[k],
                    hub.slots@[k],
                    now_ms,
                    #[trigger] out@[k],
                ),
        decreases n - i,
    {
        let ghost before = *hub;
        let mut tick = FloorTick {
            effects: Vec::new(),
            counts: FloorCounts {
                granted: 0,
                revoked: 0,
                preempted: 0,
                queued: 0,
                released: 0,
                queue_pop: 0,
            },
        };
        let ghost mut times: FloorTimes = FloorTimes {
            now_ms: 0,
            audio_idle_ms: 0,
            video_idle_ms: 0,
        };
        match &mut hub.slots[i] {
            Some(room) => {
                assert(open_at(before.slots@, i as int));
                if room.mode == RoomMode::Ptt {
                    let t = floor_times(room);
                    proof {
                        times = t;
                    }
                    let (effects, counts) = run_floor_timers(room, now_ms, t);
                    tick = FloorTick { effects, counts };
                }
            },
            None => {},
        }
        proof {
            if open_at(before.slots@, i as int) {
                lemma_replaced(before, *hub, i as int);
                let x = start.slots@[i as int]->0;
                if x.mode == RoomMode::Ptt {
                    assert(timers_done(
                        x,
                        hub.slots@[i as int]->0,
                        now_ms,
                        times,
                        (tick.effects, tick.counts),
                    ));
                }
            } else {
                assert(hub.slots@ =~= before.slots@);
            }
        }
        assert(place_ticked(start.slots@[i as int], hub.slots@[i as int], now_ms, tick));
        out.push(tick);
        i += 1;
    }
    out
}

/// What is to be done for somebody who was let go: they are asked for no more key
/// frames, and those who are left are told, with the SSRCs under which they know the
/// tracks.
pub open spec fn reaped_effects(room: Option<Room>, id: Seq<char>, p: Participant) -> Seq<EffectView> {
    let cancel = seq![EffectView::CancelPli { user_id: p.user_id@ }];
    match room {
        Some(x) => cancel + to_room(
            departure(id, p.user_id@, p.tracks@, x.simulcast_enabled, p.simulcast_video_ssrc),
        ),
        None => cancel,
    }
}

/// The layers that `own` receives in a room without those of the first `n` who were
/// let go from it.
pub open spec fn layers_without(
    layers: Seq<Layer>,
    own: Seq<char>,
    id: Seq<char>,
    gone: Seq<(Seq<char>, Participant)>,
    n: int,
) -> Seq<Layer>
    decreases n,
{
    if n <= 0 {
        layers
    } else {
        let before = layers_without(layers, own, id, gone, n - 1);
        if gone[n - 1].0 == id && gone[n - 1].1.user_id@ != own {
            without_publisher(before, gone[n - 1].1.user_id@)
        } else {
            before
        }
    }
}

/// A room in which nobody receives anything of the first `n` who were let go from
/// it; all else is as it was.
pub open spec fn room_purged(a: Room, b: Room, gone: Seq<(Seq<char>, Participant)>, n: int) -> bool {
    &&& b == (Room { slots: b.slots, ..a })
    &&& b.slots@.len() == a.slots@.len()
    &&& forall|k: int| #[trigger] taken(b.slots@, k) == taken(a.slots@, k)
    &&& forall|k: int| #[trigger]
        taken(b.slots@, k) ==> {
            let p = a.slots@[k]->0;
            let q = b.slots@[k]->0;
            &&& q == (Participant { subscribe_layers: q.subscribe_layers, ..p })
            &&& layers_of(q.subscribe_layers@) == layers_without(
                layers_of(p.subscribe_layers@),
                p.user_id@,
                a.id@,
                gone,
                n,
            )
        }
}

/// The same of all rooms of a hub.
pub open spec fn hub_purged(
    a: RoomHub,
    b: RoomHub,
    gone: Seq<(Seq<char>, Participant)>,
    n: int,
) -> bool {
    &&& b.slots@.len() == a.slots@.len()
    &&& forall|i: int| #[trigger] open_at(b.slots@, i) == open_at(a.slots@, i)
    &&& forall|i: int| #[trigger]
        open_at(b.slots@, i) ==> room_purged(a.slots@[i]->0, b.slots@[i]->0, gone, n)
    &&& names_of(b.rooms) == names_of(a.rooms)
    &&& indices_unchanged(a, b)
}

/// One more who was let go is received by nobody: in their room the layers were
/// purged, in all others nothing has changed.
proof fn lemma_one_more_purged(
    a: Room,
    b: Room,
    c: Room,
    gone: Seq<(Seq<char>, Participant)>,
    n: int,
)
    requires
        0 <= n < gone.len(),
        room_purged(a, b, gone, n),
        if a.id@ == gone[n].0 {
            layers_purged(b, c, gone[n].1.user_id@, b.slots@.len() as int)
        } else {
            c == b
        },
    ensures
        room_purged(a, c, gone, n + 1),
{
    assert forall|k: int| #[trigger] taken(c.slots@, k) == taken(a.slots@, k) by {
        assert(taken(b.slots@, k) == taken(a.slots@, k));
        if a.id@ == gone[n].0 {
            assert(taken(c.slots@, k) == taken(b.slots@, k));
        }
    }
    assert forall|k: int| #[trigger] taken(c.slots@, k) implies ({
        let p = a.slots@[k]->0;
        let q = c.slots@[k]->0;
        &&& q == (Participant { subscribe_layers: q.subscribe_layers, ..p })
        &&& layers_of(q.subscribe_layers@) == layers_without(
            layers_of(p.subscribe_layers@),
            p.user_id@,
            a.id@,
            gone,
            n + 1,
        )
    }) by {
        assert(taken(b.slots@, k));
    }
}

/// Lets nobody receive anything any more of those who were let go.
fn purge_gone(hub: &mut RoomHub, gone: &Vec<(String, Participant)>)
    requires
        old(hub).wf(),
    ensures
        final(hub).wf(),
        hub_purged(
            *old(hub),
            *final(hub),
            gone@.map_values(|x: (String, Participant)| (x.0@, x.1)),
            gone@.len() as int,
        ),
{
    let ghost start = *hub;
    let ghost all = gone@.map_values(|x: (String, Participant)| (x.0@, x.1));
    let mut i: usize = 0;
    while i < gone.len()
        invariant
            i <= gone@.len() == all.len(),
            all == gone@.map_values(|x: (String, Participant)| (x.0@, x.1)),
            start.wf(),
            hub.wf(),
            hub_purged(start, *hub, all, i as int),
        decreases gone@.len() - i,
    {
        let ghost before = *hub;
        assert(all[i as int] == (gone@[i as int].0@, gone@[i as int].1));
        let slot: Option<usize> = hub.slot_of(gone[i].0.as_str());
        if let Some(s) = slot {
            match &mut hub.slots[s] {
                Some(room) => purge_subscribe_layers(room, gone[i].1.user_id.as_str()),
                None => {},
            }
            proof {
                lemma_replaced(before, *hub, s as int);
                assert(hub.slots@ =~= before.slots@.update(s as int, hub.slots@[s as int]));
            }
        }
        proof {
            assert forall|k: int| #[trigger] open_at(hub.slots@, k) == open_at(start.slots@, k) by {
                assert(open_at(before.slots@, k) == open_at(start.slots@, k));
            }
            assert forall|k: int| #[trigger] open_at(hub.slots@, k) implies room_purged(
                start.slots@[k]->0,
                hub.slots@[k]->0,
                all,
                i + 1,
            ) by {
                assert(open_at(before.slots@, k));
                assert(open_at(start.slots@, k));
                if before.slots@[k]->0.id@ == all[i as int].0 {
                    assert(before.place_of_room(all[i as int].0) == Some(k));
                }
                lemma_one_more_purged(
                    start.slots@[k]->0,
                    before.slots@[k]->0,
                    hub.slots@[k]->0,
                    all,
                    i as int,
                );
            }
        }
        i += 1;
    }
}

/// Lets go of those who have given no sign of life for too long; nobody receives
/// anything of them any more. What is to be done is returned with the room that it
/// is to be done in, one entry for each.
pub fn reap(hub: &mut RoomHub, now_ms: u64) -> (r: Vec<(String, Vec<Effect>)>)
    requires
        old(hub).wf(),
    ensures
        final(hub).wf(),
        ({
            let gone = all_zombies(
                old(hub).slots@,
                now_ms,
                config::ZOMBIE_TIMEOUT_MS,
                old(hub).slots@.len() as int,
            );
            exists|middle: RoomHub| #[trigger]
                hub_reaped(*old(hub), middle, now_ms, config::ZOMBIE_TIMEOUT_MS) && hub_purged(
                    middle,
                    *final(hub),
                    gone,
                    gone.len() as int,
                )
        }),
        ({
            let gone = all_zombies(
                old(hub).slots@,
                now_ms,
                config::ZOMBIE_TIMEOUT_MS,
                old(hub).slots@.len() as int,
            );
            &&& r@.len() == gone.len()
            &&& forall|k: int|
                0 <= k < gone.len() ==> {
                    &&& (#[trigger] r@[k]).0@ == gone[k].0
                    &&& effects_of(r@[k].1@) == reaped_effects(
                        final(hub).room(gone[k].0),
                        gone[k].0,
                        gone[k].1,
                    )
                }
        }),
{
    let gone = hub.reap_zombies(now_ms, config::ZOMBIE_TIMEOUT_MS);
    let ghost middle = *hub;
    assert(hub_reaped(*old(hub), middle, now_ms, config::ZOMBIE_TIMEOUT_MS));
    purge_gone(hub, &gone);
    let ghost all = gone@.map_values(|x: (String, Participant)| (x.0@, x.1));
    let mut out: Vec<(String, Vec<Effect>)> = Vec::new();
    let mut i: usize = 0;
    while i < gone.len()
        invariant
            hub.wf(),
            i <= gone@.len() == all.len(),
            all == gone@.map_values(|x: (String, Participant)| (x.0@, x.1)),
            out@.len() == i,
            forall|k: int|
                0 <= k < i ==> {
                    &&& (#[trigger] out@[k]).0@ == all[k].0
                    &&& effects_of(out@[k].1@) == reaped_effects(
                        hub.room(all[k].0),
                        all[k].0,
                        all[k].1,
                    )
                },
        decreases gone@.len() - i,
    {
        let p = &gone[i].1;
        let mut effects: Vec<Effect> = Vec::new();
        assert(effects_of(effects@) =~= Seq::empty());
        push_effect(&mut effects, Effect::CancelPli { user_id: p.user_id.clone() });
        let ghost first = effects@;
        assert(effects_of(first) =~= seq![EffectView::CancelPli { user_id: p.user_id@ }]);
        if let Ok(room) = hub.get(gone[i].0.as_str()) {
            let mut more = announce_departure(
                gone[i].0.as_str(),
                p.user_id.as_str(),
                &p.tracks,
                room.simulcast_enabled,
                p.simulcast_video_ssrc,
            );
            let ghost rest = more@;
            effects.append(&mut more);
            assert(effects_of(effects@) =~= effects_of(first) + effects_of(rest));
        }
        out.push((gone[i].0.clone(), effects));
        assert(all[i as int] == (gone@[i as int].0@, gone@[i as int].1));
        i += 1;
    }
    out
}

} // verus!
