//! What passed through the rooms, and which of them have fallen silent.

use vstd::prelude::*;

use crate::room::hub::{indices_unchanged, lemma_replaced, open_at, RoomHub};
use crate::room::participant::{Participant, PipelineSnapshot};
use crate::room::room::{lemma_seats_kept, taken, Room};
use crate::signaling::handler::admin::present;

verus! {

/// The counts of a participant.
#[derive(Debug)]
pub struct ParticipantPipeline {
    pub user_id: String,
    pub since: u64,
    pub counts: PipelineSnapshot,
}

/// What passed through a room.
#[derive(Debug)]
pub enum RoomPipeline {
    /// Nobody is there; `ended` says whether somebody was at the last look.
    Empty { room_id: String, ended: bool },
    Active { room_id: String, active_since: u64, participants: Vec<ParticipantPipeline> },
}

/// Whether an entry shows a participant.
pub open spec fn shows_counts(e: ParticipantPipeline, p: Participant) -> bool {
    &&& e.user_id@ == p.user_id@
    &&& e.since == p.joined_at
    &&& e.counts == (PipelineSnapshot {
        pub_rtp_in: p.pipeline.pub_rtp_in,
        pub_rtp_gated: p.pipeline.pub_rtp_gated,
        pub_rtp_rewritten: p.pipeline.pub_rtp_rewritten,
        pub_video_pending: p.pipeline.pub_video_pending,
        sub_rtp_relayed: p.pipeline.sub_rtp_relayed,
        sub_rtp_dropped: p.pipeline.sub_rtp_dropped,
        sub_sr_relayed: p.pipeline.sub_sr_relayed,
    })
}

/// A place with a full retransmission budget.
pub open spec fn refreshed(p: Option<Participant>) -> Option<Participant> {
    match p {
        Some(x) => Some(Participant { rtx_budget_used: 0, ..x }),
        None => None,
    }
}

/// What a look at a room does and shows: everybody has their full budget again, a
/// room that has fallen silent is not active any more, and of an active one
/// everybody's counts are shown in the order of places.
pub open spec fn room_swept(a: Room, b: Room, r: RoomPipeline) -> bool {
    let silent = a.participants_len() == 0;
    &&& b == (Room {
        slots: b.slots,
        active_since: if silent { 0 } else { a.active_since },
        ..a
    })
    &&& b.slots@ == a.slots@.map_values(|p: Option<Participant>| refreshed(p))
    &&& match r {
        RoomPipeline::Empty { room_id, ended } => silent && room_id@ == a.id@ && ended == (
        a.active_since != 0),
        RoomPipeline::Active { room_id, active_since, participants } => {
            let ps = present(a.slots@, a.slots@.len() as int);
            &&& !silent
            &&& room_id@ == a.id@
            &&& active_since == a.active_since
            &&& participants@.len() == ps.len()
            &&& forall|i: int|
                0 <= i < ps.len() ==> shows_counts(#[trigger] participants@[i], ps[i])
        },
    }
}

fn refresh_budgets(room: &mut Room)
    requires
        old(room).wf(),
    ensures
        final(room).wf(),
        *final(room) == (Room { slots: final(room).slots, ..*old(room) }),
        final(room).slots@ == old(room).slots@.map_values(|p: Option<Participant>| refreshed(p)),
{
    let ghost start = *room;
    let n: usize = room.slots.len();
    let mut i: usize = 0;
    while i < n
        invariant
            i <= n == room.slots@.len() == start.slots@.len(),
            *room == (Room { slots: room.slots, ..start }),
            forall|k: int| 0 <= k < i ==> #[trigger] room.slots@[k] == refreshed(start.slots@[k]),
            forall|k: int| i <= k < n ==> #[trigger] room.slots@[k] == start.slots@[k],
        decreases n - i,
    {
        match &mut room.slots[i] {
            Some(p) => {
                p.rtx_budget_used = 0;
            },
            None => {},
        }
        i += 1;
    }
    proof {
        assert(room.slots@ =~= start.slots@.map_values(|p: Option<Participant>| refreshed(p)));
        assert forall|k: int| #[trigger] taken(room.slots@, k) == taken(start.slots@, k) by {}
        assert forall|k: int| #[trigger] taken(room.slots@, k) implies room.slots@[k]->0.wf() by {
            assert(taken(start.slots@, k));
        }
        lemma_seats_kept(start, *room);
    }
}

fn sweep_room(room: &mut Room) -> (r: RoomPipeline)
    requires
        old(room).wf(),
    ensures
        final(room).wf(),
        room_swept(*old(room), *final(room), r),
{
    let ghost start = *room;
    let room_id: String = room.id.clone();
    if room.participant_count() == 0 {
        let ended: bool = room.active_since != 0;
        refresh_budgets(room);
        let ghost middle = *room;
        room.active_since = 0;
        proof {
            assert forall|k: int| #[trigger] taken(room.slots@, k) implies room.slots@[k]->0.wf() by {
                assert(taken(middle.slots@, k));
            }
            lemma_seats_kept(middle, *room);
        }
        return RoomPipeline::Empty { room_id, ended };
    }
    let mut participants: Vec<ParticipantPipeline> = Vec::new();
    let mut i: usize = 0;
    while i < room.slots.len()
        invariant
            *room == start,
            i <= room.slots@.len(),
            participants@.len() == present(room.slots@, i as int).len(),
            forall|k: int|
                0 <= k < participants@.len() ==> shows_counts(
                    #[trigger] participants@[k],
                    present(room.slots@, i as int)[k],
                ),
        decreases room.slots@.len() - i,
    {
        if let Some(p) = &room.slots[i] {
            participants.push(
                ParticipantPipeline {
                    user_id: p.user_id.clone(),
                    since: p.joined_at,
                    counts: p.pipeline.snapshot(),
                },
            );
        }
        i += 1;
    }
    let active_since: u64 = room.active_since;
    refresh_budgets(room);
    RoomPipeline::Active { room_id, active_since, participants }
}

/// What a look at a place does and shows.
pub open spec fn place_swept(a: Option<Room>, b: Option<Room>, r: Option<RoomPipeline>) -> bool {
    match a {
        Some(x) => b is Some && r is Some && room_swept(x, b->0, r->0),
        None => b is None && r is None,
    }
}

/// Looks at all rooms, place by place.
pub fn sweep_rooms(hub: &mut RoomHub) -> (r: Vec<Option<RoomPipeline>>)
    requires
        old(hub).wf(),
    ensures
        final(hub).wf(),
        indices_unchanged(*old(hub), *final(hub)),
        final(hub).rooms == old(hub).rooms,
        final(hub).slots@.len() == old(hub).slots@.len() == r@.len(),
        forall|i: int|
            0 <= i < r@.len() ==> place_swept(
                old(hub).slots@[i],
                final(hub).slots@[i],
                #[trigger] r@[i],
            ),
{
    let ghost start = *hub;
    let mut out: Vec<Option<RoomPipeline>> = Vec::new();
    let n: usize = hub.slots.len();
    let mut i: usize = 0;
    while i < n
        invariant
            i <= n == start.slots@.len() == hub.slots@.len(),
            out@.len() == i,
            hub.wf(),
            indices_unchanged(start, *hub),
            hub.rooms == start.rooms,
            forall|k: int| i <= k < n ==> hub.slots@[k] == start.slots@[k],
            forall|k: int|
                0 <= k < i ==> place_swept(start.slots@[k], hub.slots@[k], #[trigger] out@[k]),
        decreases n - i,
    {
        let ghost before = *hub;
        let mut x: Option<RoomPipeline> = None;
        match &mut hub.slots[i] {
            Some(room) => {
                assert(open_at(before.slots@, i as int));
                x = Some(sweep_room(room));
            },
            None => {},
        }
        proof {
            if open_at(before.slots@, i as int) {
                lemma_replaced(before, *hub, i as int);
            } else {
                assert(hub.slots@ =~= before.slots@);
            }
        }
        out.push(x);
        i += 1;
    }
    out
}

} // verus!
