//! Rooms, and the hub that knows them all.
//!
//! A participant is found by name, by the user fragment of either connection,
//! and by the address of either connection. The hub finds the room for a user
//! fragment or an address.

use vstd::prelude::*;

use crate::clock::wall_clock_ms;
use crate::config::{self, RoomMode};
use crate::error::{LightError, LightResult};
use crate::random::{fresh_uuid, is_uuid, random_u32};
use crate::room::floor::FloorController;
use crate::room::index::{
    addrs_get, addrs_insert, addrs_new, addrs_of, addrs_remove, at_addr, named, names_get,
    names_insert, names_len, names_new, names_of, names_remove, Place,
};
use crate::room::participant::{find_track, track_at, MediaSession, Participant, PcType};
use crate::room::ptt_rewriter::{fresh_stream, PttRewriter, TS_GUARD_GAP_AUDIO, TS_GUARD_GAP_VIDEO};
use crate::text::text_eq;
use crate::transport::addr::{addr_key, lemma_addr_key_injective, AddrKey, SocketAddress};

verus! {

// ---------------------------------------------------------------------------
// Room
// ---------------------------------------------------------------------------

pub struct Room {
    pub id: String,
    pub name: String,
    pub capacity: usize,
    pub mode: RoomMode,
    pub created_at: u64,
    /// Never set in a push-to-talk room.
    pub simulcast_enabled: bool,
    pub floor: FloorController,
    pub audio_rewriter: PttRewriter,
    pub video_rewriter: PttRewriter,
    /// The participants; a free place is empty.
    pub slots: Vec<Option<Participant>>,
    /// Places by user.
    pub participants: dashmap::DashMap<String, Place>,
    /// Places and connections by user fragment.
    pub by_ufrag: dashmap::DashMap<String, Place>,
    /// Places and connections by address.
    pub by_addr: dashmap::DashMap<AddrKey, Place>,
    /// When the first of the present participants came; 0 for an empty room.
    pub active_since: u64,
}

/// The connection that a place refers to.
pub open spec fn place_pc(p: Place) -> PcType {
    if p.1 {
        PcType::Subscribe
    } else {
        PcType::Publish
    }
}

fn pc_of(p: Place) -> (r: PcType)
    ensures
        r == place_pc(p),
{
    if p.1 {
        PcType::Subscribe
    } else {
        PcType::Publish
    }
}

/// Whether a place is taken.
pub open spec fn taken(slots: Seq<Option<Participant>>, i: int) -> bool {
    0 <= i < slots.len() && slots[i] is Some
}

/// Everybody is found by name, and names lead to nobody else.
pub open spec fn names_agree(slots: Seq<Option<Participant>>, m: Map<Seq<char>, Place>) -> bool {
    &&& forall|u: Seq<char>| #[trigger]
        m.dom().contains(u) ==> taken(slots, m[u].0 as int) && slots[m[u].0 as int]->0.user_id@ == u
    &&& forall|i: int| #[trigger]
        taken(slots, i) ==> m.dom().contains(slots[i]->0.user_id@) && m[slots[i]->0.user_id@].0 == i
}

/// A user fragment leads to a connection that has it.
pub open spec fn ufrags_agree(slots: Seq<Option<Participant>>, m: Map<Seq<char>, Place>) -> bool {
    forall|u: Seq<char>| #[trigger]
        m.dom().contains(u) ==> taken(slots, m[u].0 as int) && slots[m[u].0 as int]->0.side(
            place_pc(m[u]),
        ).ufrag@ == u
}

/// Whether a connection was last seen at an address.
pub open spec fn seen_at(s: MediaSession, k: AddrKey) -> bool {
    match s.address {
        Some(a) => addr_key(a) == k,
        None => false,
    }
}

/// An address leads to a connection that was last seen there.
pub open spec fn addrs_agree(slots: Seq<Option<Participant>>, m: Map<AddrKey, Place>) -> bool {
    forall|k: AddrKey| #[trigger]
        m.dom().contains(k) ==> taken(slots, m[k].0 as int) && seen_at(
            slots[m[k].0 as int]->0.side(place_pc(m[k])),
            k,
        )
}

/// Every participant is sound.
pub open spec fn participants_valid(slots: Seq<Option<Participant>>) -> bool {
    forall|i: int| #[trigger] taken(slots, i) ==> slots[i]->0.wf()
}

impl Room {
    /// What holds of a room at all times.
    pub open spec fn wf(&self) -> bool {
        &&& self.capacity <= config::ROOM_MAX_CAPACITY
        &&& self.mode == RoomMode::Ptt ==> !self.simulcast_enabled
        &&& self.floor.wf()
        &&& !self.audio_rewriter@.video && self.video_rewriter@.video
        &&& self.indices_agree()
        &&& participants_valid(self.slots@)
        &&& names_of(self.participants).dom().finite()
        &&& names_of(self.participants).dom().len() <= self.capacity
    }

    /// The indices lead to the participants they should.
    pub open spec fn indices_agree(&self) -> bool {
        &&& names_agree(self.slots@, names_of(self.participants))
        &&& ufrags_agree(self.slots@, names_of(self.by_ufrag))
        &&& addrs_agree(self.slots@, addrs_of(self.by_addr))
    }

    /// The place of a user.
    pub open spec fn place_of_user(&self, user: Seq<char>) -> Option<int> {
        match named(names_of(self.participants), user) {
            Some(p) => Some(p.0 as int),
            None => None,
        }
    }

    /// The participant of a name.
    pub open spec fn member(&self, user: Seq<char>) -> Option<Participant> {
        match self.place_of_user(user) {
            Some(i) => self.slots@[i],
            None => None,
        }
    }

    /// How many participants there are.
    pub open spec fn participants_len(&self) -> nat {
        names_of(self.participants).dom().len()
    }

    /// All but the participants and the indices.
    pub open spec fn same_settings(&self, other: Room) -> bool {
        &&& self.id == other.id
        &&& self.name == other.name
        &&& self.capacity == other.capacity
        &&& self.mode == other.mode
        &&& self.created_at == other.created_at
        &&& self.simulcast_enabled == other.simulcast_enabled
        &&& self.floor == other.floor
        &&& self.audio_rewriter == other.audio_rewriter
        &&& self.video_rewriter == other.video_rewriter
    }

    /// An empty room whose streams carry the given SSRCs.
    pub fn with_ssrcs(
        id: String,
        name: String,
        capacity: Option<usize>,
        mode: RoomMode,
        created_at: u64,
        simulcast_enabled: bool,
        audio_ssrc: u32,
        video_ssrc: u32,
    ) -> (r: Self)
        ensures
            r.wf(),
            room_created(r, id, name, capacity, mode, created_at, simulcast_enabled),
            r.audio_rewriter@.ssrc == audio_ssrc,
            r.video_rewriter@.ssrc == video_ssrc,
    {
        let wanted: usize = match capacity {
            Some(c) => c,
            None => config::ROOM_DEFAULT_CAPACITY,
        };
        let r = Room {
            id,
            name,
            capacity: if wanted < config::ROOM_MAX_CAPACITY {
                wanted
            } else {
                config::ROOM_MAX_CAPACITY
            },
            mode,
            created_at,
            simulcast_enabled: mode != RoomMode::Ptt && simulcast_enabled,
            floor: FloorController::new(),
            audio_rewriter: PttRewriter::audio_with_ssrc(audio_ssrc),
            video_rewriter: PttRewriter::video_with_ssrc(video_ssrc),
            slots: Vec::new(),
            participants: names_new(),
            by_ufrag: names_new(),
            by_addr: addrs_new(),
            active_since: 0,
        };
        r
    }

    /// An empty room with random SSRCs, or nothing where the system has no random
    /// numbers to give.
    pub fn new(
        id: String,
        name: String,
        capacity: Option<usize>,
        mode: RoomMode,
        created_at: u64,
        simulcast_enabled: bool,
    ) -> (r: Option<Self>)
        ensures
            r matches Some(room) ==> room.wf() && room_created(
                room,
                id,
                name,
                capacity,
                mode,
                created_at,
                simulcast_enabled,
            ),
    {
        let audio = match random_u32() {
            Some(x) => x,
            None => {
                return None;
            },
        };
        let video = match random_u32() {
            Some(x) => x,
            None => {
                return None;
            },
        };
        Some(
            Room::with_ssrcs(
                id,
                name,
                capacity,
                mode,
                created_at,
                simulcast_enabled,
                audio,
                video,
            ),
        )
    }

    /// A free place: the first empty one, or a new one at the end.
    fn free_slot(&self) -> (r: usize)
        ensures
            r <= self.slots@.len(),
            !taken(self.slots@, r as int),
    {
        let mut i: usize = 0;
        while i < self.slots.len()
            invariant
                i <= self.slots@.len(),
            decreases self.slots@.len() - i,
        {
            if self.slots[i].is_none() {
                return i;
            }
            i += 1;
        }
        i
    }

    /// `add_participant` at a given time.
    pub fn add_participant_at(&mut self, p: Participant, now_ms: u64) -> (r: LightResult<()>)
        requires
            old(self).wf(),
            p.wf(),
        ensures
            final(self).wf(),
            final(self).same_settings(*old(self)),
            match r {
                Ok(_) => {
                    &&& names_of(old(self).participants).dom().len() < old(self).capacity
                    &&& old(self).member(p.user_id@) is None
                    &&& participant_added(*old(self), *final(self), p)
                    &&& final(self).active_since == (if old(self).active_since == 0 {
                        now_ms
                    } else {
                        old(self).active_since
                    })
                },
                Err(e) => {
                    &&& e is RoomFull <==> names_of(old(self).participants).dom().len() >= old(
                        self,
                    ).capacity
                    &&& e is AlreadyInRoom <==> names_of(old(self).participants).dom().len() < old(
                        self,
                    ).capacity
                    &&& e is AlreadyInRoom ==> old(self).member(p.user_id@) is Some
                    &&& *final(self) == *old(self)
                },
            },
    {
        if names_len(&self.participants) >= self.capacity {
            return Err(LightError::RoomFull);
        }
        if names_get(&self.participants, p.user_id.as_str()).is_some() {
            return Err(LightError::AlreadyInRoom);
        }
        let slot: usize = self.free_slot();
        let ghost user = p.user_id@;
        let ghost before = self.slots@;
        names_insert(&mut self.by_ufrag, p.publish.ufrag.as_str(), (slot, false));
        names_insert(&mut self.by_ufrag, p.subscribe.ufrag.as_str(), (slot, true));
        names_insert(&mut self.participants, p.user_id.as_str(), (slot, false));
        if slot == self.slots.len() {
            self.slots.push(Some(p));
        } else {
            self.slots[slot] = Some(p);
        }
        if self.active_since == 0 {
            self.active_since = now_ms;
        }
        proof {
            let after = self.slots@;
            assert(after[slot as int] == Some(p));
            assert forall|i: int| i != slot implies #[trigger] taken(after, i) == taken(before, i) && (
            taken(before, i) ==> after[i] == before[i]) by {}
            assert(taken(after, slot as int));
            assert(added_at(*old(self), *self, p, slot));
        }
        Ok(())
    }

    /// Lets a participant in.
    pub fn add_participant(&mut self, p: Participant) -> (r: LightResult<()>)
        requires
            old(self).wf(),
            p.wf(),
        ensures
            final(self).wf(),
            final(self).same_settings(*old(self)),
            match r {
                Ok(_) => {
                    &&& names_of(old(self).participants).dom().len() < old(self).capacity
                    &&& old(self).member(p.user_id@) is None
                    &&& participant_added(*old(self), *final(self), p)
                    &&& old(self).active_since != 0 ==> final(self).active_since == old(
                        self,
                    ).active_since
                },
                Err(e) => {
                    &&& e is RoomFull <==> names_of(old(self).participants).dom().len() >= old(
                        self,
                    ).capacity
                    &&& e is AlreadyInRoom <==> names_of(old(self).participants).dom().len() < old(
                        self,
                    ).capacity
                    &&& e is AlreadyInRoom ==> old(self).member(p.user_id@) is Some
                    &&& *final(self) == *old(self)
                },
            },
    {
        let now: u64 = wall_clock_ms();
        self.add_participant_at(p, now)
    }

    /// Takes the address of a connection out of the index.
    fn forget_address(&mut self, addr: Option<SocketAddress>)
        ensures
            *final(self) == (Room { by_addr: final(self).by_addr, ..*old(self) }),
            addrs_of(final(self).by_addr) == without_addr(addrs_of(old(self).by_addr), addr),
    {
        if let Some(a) = addr {
            addrs_remove(&mut self.by_addr, a.key());
        }
    }

    /// Lets a participant go.
    pub fn remove_participant(&mut self, user_id: &str) -> (r: LightResult<Participant>)
        requires
            old(self).wf(),
        ensures
            final(self).wf(),
            final(self).same_settings(*old(self)),
            final(self).active_since == old(self).active_since,
            match r {
                Ok(p) => {
                    &&& old(self).member(user_id@) == Some(p)
                    &&& p.user_id@ == user_id@
                    &&& participant_removed(*old(self), *final(self), p)
                },
                Err(e) => e is NotInRoom && old(self).member(user_id@) is None && *final(self)
                    == *old(self),
            },
    {
        let slot: usize = match names_get(&self.participants, user_id) {
            Some(place) => place.0,
            None => {
                return Err(LightError::NotInRoom);
            },
        };
        assert(names_of(self.participants).dom().contains(user_id@));
        assert(taken(self.slots@, slot as int));
        let ghost before = self.slots@;
        let mut gone: Option<Participant> = None;
        let ghost len = self.slots@.len();
        std::mem::swap(&mut gone, &mut self.slots[slot]);
        assert(self.slots@ =~= before.update(slot as int, None));
        match gone {
            Some(p) => {
                names_remove(&mut self.participants, user_id);
                names_remove(&mut self.by_ufrag, p.publish.ufrag.as_str());
                names_remove(&mut self.by_ufrag, p.subscribe.ufrag.as_str());
                self.forget_address(p.publish.address);
                self.forget_address(p.subscribe.address);
                proof {
                    let after = self.slots@;
                    assert forall|i: int| #[trigger] taken(after, i) == (i != slot && taken(before, i))
                        && (taken(after, i) ==> after[i] == before[i]) by {}
                    assert forall|u: Seq<char>| #[trigger]
                        names_of(self.participants).dom().contains(u) implies taken(
                        after,
                        names_of(self.participants)[u].0 as int,
                    ) by {
                        let i = names_of(old(self).participants)[u].0 as int;
                        assert(taken(before, i));
                    }
                }
                Ok(p)
            },
            None => Err(LightError::NotInRoom),
        }
    }

    /// The connection with the user fragment `ufrag` was seen at `addr`.
    pub fn latch(&mut self, ufrag: &str, addr: SocketAddress) -> (r: Option<(usize, PcType)>)
        requires
            old(self).wf(),
        ensures
            final(self).wf(),
            final(self).same_settings(*old(self)),
            final(self).active_since == old(self).active_since,
            r == old(self).find_ufrag(ufrag@),
            match r {
                Some((slot, pc)) => taken(old(self).slots@, slot as int) && connection_latched(
                    *old(self),
                    *final(self),
                    slot,
                    pc,
                    addr,
                ),
                None => *final(self) == *old(self),
            },
    {
        let place: Place = match names_get(&self.by_ufrag, ufrag) {
            Some(p) => p,
            None => {
                return None;
            },
        };
        let pc = pc_of(place);
        let slot: usize = place.0;
        assert(names_of(self.by_ufrag).dom().contains(ufrag@));
        assert(taken(self.slots@, slot as int));
        let ghost before = self.slots@;
        let last: Option<SocketAddress> = match &self.slots[slot] {
            Some(p) => p.session(pc).get_address(),
            None => None,
        };
        if let Some(a) = last {
            if a != addr {
                addrs_remove(&mut self.by_addr, a.key());
            }
        }
        match &mut self.slots[slot] {
            Some(p) => match pc {
                PcType::Publish => p.publish.latch_address(addr),
                PcType::Subscribe => p.subscribe.latch_address(addr),
            },
            None => {},
        }
        addrs_insert(&mut self.by_addr, addr.key(), place);
        proof {
            let after = self.slots@;
            assert(after =~= before.update(slot as int, Some(seen(before[slot as int]->0, pc, addr))));
            assert forall|i: int| #[trigger] taken(after, i) == taken(before, i) && (i != slot && taken(
                before,
                i,
            ) ==> after[i] == before[i]) by {}
            assert forall|u: Seq<char>| #[trigger] names_of(self.by_ufrag).dom().contains(u) implies taken(
                after,
                names_of(self.by_ufrag)[u].0 as int,
            ) by {
                assert(taken(before, names_of(self.by_ufrag)[u].0 as int));
            }
            assert forall|u: Seq<char>| #[trigger]
                names_of(self.participants).dom().contains(u) implies taken(
                after,
                names_of(self.participants)[u].0 as int,
            ) by {
                assert(taken(before, names_of(self.participants)[u].0 as int));
            }
            assert forall|k: AddrKey| #[trigger] addrs_of(self.by_addr).dom().contains(k) implies taken(
                after,
                addrs_of(self.by_addr)[k].0 as int,
            ) && seen_at(
                after[addrs_of(self.by_addr)[k].0 as int]->0.side(place_pc(addrs_of(self.by_addr)[k])),
                k,
            ) by {
                if k != addr_key(addr) {
                    let q = addrs_of(old(self).by_addr)[k];
                    assert(addrs_of(old(self).by_addr).dom().contains(k));
                    assert(taken(before, q.0 as int));
                }
            }
        }
        Some((slot, pc))
    }

    // --- lookups ---

    /// The connection with a user fragment.
    pub open spec fn find_ufrag(&self, ufrag: Seq<char>) -> Option<(usize, PcType)> {
        match named(names_of(self.by_ufrag), ufrag) {
            Some(p) => Some((p.0, place_pc(p))),
            None => None,
        }
    }

    /// The connection that was last seen at an address.
    pub open spec fn find_addr(&self, addr: SocketAddress) -> Option<(usize, PcType)> {
        match at_addr(addrs_of(self.by_addr), addr_key(addr)) {
            Some(p) => Some((p.0, place_pc(p))),
            None => None,
        }
    }

    pub fn get_participant(&self, user_id: &str) -> (r: Option<&Participant>)
        requires
            self.wf(),
        ensures
            match r {
                Some(p) => self.member(user_id@) == Some(*p) && p.user_id@ == user_id@,
                None => self.member(user_id@) is None,
            },
    {
        match self.slot_of(user_id) {
            Some(i) => match &self.slots[i] {
                Some(p) => Some(p),
                None => None,
            },
            None => None,
        }
    }

    /// The place of a user.
    pub fn slot_of(&self, user_id: &str) -> (r: Option<usize>)
        requires
            self.wf(),
        ensures
            match r {
                Some(i) => self.place_of_user(user_id@) == Some(i as int) && taken(
                    self.slots@,
                    i as int,
                ) && self.slots@[i as int]->0.user_id@ == user_id@,
                None => self.place_of_user(user_id@) is None,
            },
    {
        match names_get(&self.participants, user_id) {
            Some(place) => {
                assert(names_of(self.participants).dom().contains(user_id@));
                Some(place.0)
            },
            None => None,
        }
    }

    pub fn get_by_ufrag(&self, ufrag: &str) -> (r: Option<(usize, PcType)>)
        requires
            self.wf(),
        ensures
            r == self.find_ufrag(ufrag@),
            r matches Some((i, pc)) ==> taken(self.slots@, i as int) && self.slots@[i as int]->0.side(
                pc,
            ).ufrag@ == ufrag@,
    {
        match names_get(&self.by_ufrag, ufrag) {
            Some(place) => {
                assert(names_of(self.by_ufrag).dom().contains(ufrag@));
                Some((place.0, pc_of(place)))
            },
            None => None,
        }
    }

    pub fn get_by_addr(&self, addr: &SocketAddress) -> (r: Option<(usize, PcType)>)
        requires
            self.wf(),
        ensures
            r == self.find_addr(*addr),
            r matches Some((i, pc)) ==> taken(self.slots@, i as int) && self.slots@[i as int]->0.side(
                pc,
            ).address == Some(*addr),
    {
        match addrs_get(&self.by_addr, addr.key()) {
            Some(place) => {
                proof {
                    assert(addrs_of(self.by_addr).dom().contains(addr_key(*addr)));
                    let a = self.slots@[place.0 as int]->0.side(place_pc(place)).address->0;
                    lemma_addr_key_injective(a, *addr);
                }
                Some((place.0, pc_of(place)))
            },
            None => None,
        }
    }

    // --- queries ---

    pub fn participant_count(&self) -> (r: usize)
        ensures
            r == names_of(self.participants).dom().len(),
    {
        names_len(&self.participants)
    }

    /// The names of all participants, each once, in the order of their places.
    pub fn member_ids(&self) -> (r: Vec<String>)
        requires
            self.wf(),
        ensures
            r@.map_values(|s: String| s@) == user_ids(self.slots@, self.slots@.len() as int),
            forall|u: Seq<char>|
                (exists|k: int| 0 <= k < r@.len() && (#[trigger] r@[k])@ == u) <==> #[trigger] names_of(
                    self.participants,
                ).dom().contains(u),
    {
        let mut out: Vec<String> = Vec::new();
        let mut i: usize = 0;
        while i < self.slots.len()
            invariant
                self.wf(),
                i <= self.slots@.len(),
                out@.map_values(|s: String| s@) == user_ids(self.slots@, i as int),
            decreases self.slots@.len() - i,
        {
            let ghost before = out@;
            if let Some(p) = &self.slots[i] {
                out.push(p.user_id.clone());
                assert(out@.map_values(|s: String| s@) =~= before.map_values(|s: String| s@).push(
                    p.user_id@,
                ));
            }
            i += 1;
        }
        proof {
            let ids = user_ids(self.slots@, self.slots@.len() as int);
            assert forall|u: Seq<char>|
                (exists|k: int| 0 <= k < out@.len() && (#[trigger] out@[k])@ == u) <==> #[trigger] names_of(
                    self.participants,
                ).dom().contains(u) by {
                lemma_user_ids(self.slots@, self.slots@.len() as int, u);
                if names_of(self.participants).dom().contains(u) {
                    let i = names_of(self.participants)[u].0 as int;
                    assert(taken(self.slots@, i));
                    assert(ids.contains(u));
                    let k = choose|k: int| 0 <= k < ids.len() && ids[k] == u;
                    assert(out@.map_values(|s: String| s@)[k] == out@[k]@);
                }
                if exists|k: int| 0 <= k < out@.len() && (#[trigger] out@[k])@ == u {
                    let k = choose|k: int| 0 <= k < out@.len() && (#[trigger] out@[k])@ == u;
                    assert(out@.map_values(|s: String| s@)[k] == u);
                    assert(ids.contains(u));
                    let i = choose|i: int| 0 <= i < self.slots@.len() && #[trigger] taken(self.slots@, i)
                        && self.slots@[i]->0.user_id@ == u;
                    assert(taken(self.slots@, i));
                }
            }
        }
        out
    }

    /// The places of all participants, in ascending order.
    pub fn all_participants(&self) -> (r: Vec<usize>)
        ensures
            r@ == places(self.slots@, self.slots@.len() as int),
    {
        let mut out: Vec<usize> = Vec::new();
        let mut i: usize = 0;
        while i < self.slots.len()
            invariant
                i <= self.slots@.len(),
                out@ == places(self.slots@, i as int),
            decreases self.slots@.len() - i,
        {
            if self.slots[i].is_some() {
                out.push(i);
            }
            i += 1;
        }
        out
    }

    /// The places of all participants but one, in ascending order.
    pub fn other_participants(&self, exclude_user: &str) -> (r: Vec<usize>)
        ensures
            r@ == other_places(self.slots@, exclude_user@, self.slots@.len() as int),
    {
        let mut out: Vec<usize> = Vec::new();
        let mut i: usize = 0;
        while i < self.slots.len()
            invariant
                i <= self.slots@.len(),
                out@ == other_places(self.slots@, exclude_user@, i as int),
            decreases self.slots@.len() - i,
        {
            if let Some(p) = &self.slots[i] {
                if !text_eq(p.user_id.as_str(), exclude_user) {
                    out.push(i);
                }
            }
            i += 1;
        }
        out
    }

    /// The place of the first participant who publishes an SSRC.
    pub fn find_by_track_ssrc(&self, ssrc: u32) -> (r: Option<usize>)
        ensures
            match r {
                Some(i) => publisher_at(self.slots@, ssrc, 0) == Some(i as int) && taken(
                    self.slots@,
                    i as int,
                ) && track_at(self.slots@[i as int]->0.tracks@, ssrc) is Some,
                None => publisher_at(self.slots@, ssrc, 0) is None,
            },
    {
        let mut i: usize = 0;
        while i < self.slots.len()
            invariant
                i <= self.slots@.len(),
                publisher_at(self.slots@, ssrc, 0) == publisher_at(self.slots@, ssrc, i as int),
            decreases self.slots@.len() - i,
        {
            if let Some(p) = &self.slots[i] {
                if find_track(&p.tracks, ssrc).is_some() {
                    return Some(i);
                }
            }
            i += 1;
        }
        None
    }

    /// The place of the first participant whose video subscribers see under an
    /// SSRC.
    pub fn find_publisher_by_vssrc(&self, vssrc: u32) -> (r: Option<usize>)
        ensures
            match r {
                Some(i) => vssrc_at(self.slots@, vssrc, 0) == Some(i as int) && taken(
                    self.slots@,
                    i as int,
                ) && vssrc != 0,
                None => vssrc == 0 || vssrc_at(self.slots@, vssrc, 0) is None,
            },
    {
        if vssrc == 0 {
            return None;
        }
        let mut i: usize = 0;
        while i < self.slots.len()
            invariant
                i <= self.slots@.len(),
                vssrc_at(self.slots@, vssrc, 0) == vssrc_at(self.slots@, vssrc, i as int),
                vssrc != 0,
            decreases self.slots@.len() - i,
        {
            if let Some(p) = &self.slots[i] {
                if p.simulcast_video_ssrc == vssrc {
                    return Some(i);
                }
            }
            i += 1;
        }
        None
    }
}

/// A participant of whom one connection was seen at an address.
pub open spec fn seen(p: Participant, pc: PcType, addr: SocketAddress) -> Participant {
    match pc {
        PcType::Publish => Participant {
            publish: MediaSession { address: Some(addr), ..p.publish },
            ..p
        },
        PcType::Subscribe => Participant {
            subscribe: MediaSession { address: Some(addr), ..p.subscribe },
            ..p
        },
    }
}

/// What it does that a connection was seen at an address: the address leads to
/// it, and the one where it was before leads nowhere.
pub open spec fn connection_latched(a: Room, b: Room, slot: usize, pc: PcType, addr: SocketAddress) -> bool {
    let p = a.slots@[slot as int]->0;
    let forgotten = match p.side(pc).address {
        Some(last) => if last != addr {
            addrs_of(a.by_addr).remove(addr_key(last))
        } else {
            addrs_of(a.by_addr)
        },
        None => addrs_of(a.by_addr),
    };
    &&& b.slots@ == a.slots@.update(slot as int, Some(seen(p, pc, addr)))
    &&& names_of(b.participants) == names_of(a.participants)
    &&& names_of(b.by_ufrag) == names_of(a.by_ufrag)
    &&& addrs_of(b.by_addr) == forgotten.insert(addr_key(addr), (slot, pc == PcType::Subscribe))
}

/// The names at the first `n` places.
pub open spec fn user_ids(slots: Seq<Option<Participant>>, n: int) -> Seq<Seq<char>>
    decreases n,
{
    if n <= 0 {
        Seq::empty()
    } else if taken(slots, n - 1) {
        user_ids(slots, n - 1).push(slots[n - 1]->0.user_id@)
    } else {
        user_ids(slots, n - 1)
    }
}

proof fn lemma_user_ids(slots: Seq<Option<Participant>>, n: int, u: Seq<char>)
    requires
        n <= slots.len(),
    ensures
        user_ids(slots, n).contains(u) <==> exists|i: int|
            0 <= i < n && #[trigger] taken(slots, i) && slots[i]->0.user_id@ == u,
    decreases n,
{
    if n > 0 {
        lemma_user_ids(slots, n - 1, u);
        let rest = user_ids(slots, n - 1);
        let all = user_ids(slots, n);
        if taken(slots, n - 1) {
            assert(all[rest.len() as int] == slots[n - 1]->0.user_id@);
            if rest.contains(u) {
                let k = choose|k: int| 0 <= k < rest.len() && rest[k] == u;
                assert(all[k] == u);
            }
            if all.contains(u) {
                let k = choose|k: int| 0 <= k < all.len() && all[k] == u;
                if k < rest.len() {
                    assert(rest[k] == u);
                }
            }
        }
    }
}

/// The taken ones of the first `n` places.
pub open spec fn places(slots: Seq<Option<Participant>>, n: int) -> Seq<usize>
    decreases n,
{
    if n <= 0 {
        Seq::empty()
    } else if taken(slots, n - 1) {
        places(slots, n - 1).push((n - 1) as usize)
    } else {
        places(slots, n - 1)
    }
}

/// The ones of the first `n` places that somebody else than `user` has taken.
pub open spec fn other_places(slots: Seq<Option<Participant>>, user: Seq<char>, n: int) -> Seq<usize>
    decreases n,
{
    if n <= 0 {
        Seq::empty()
    } else if taken(slots, n - 1) && slots[n - 1]->0.user_id@ != user {
        other_places(slots, user, n - 1).push((n - 1) as usize)
    } else {
        other_places(slots, user, n - 1)
    }
}

/// The first place from `i` on whose participant publishes an SSRC.
pub open spec fn publisher_at(slots: Seq<Option<Participant>>, ssrc: u32, i: int) -> Option<int>
    decreases slots.len() - i,
{
    if i < 0 || i >= slots.len() {
        None
    } else if taken(slots, i) && track_at(slots[i]->0.tracks@, ssrc) is Some {
        Some(i)
    } else {
        publisher_at(slots, ssrc, i + 1)
    }
}

/// The first place from `i` on whose participant's video is seen under an SSRC.
pub open spec fn vssrc_at(slots: Seq<Option<Participant>>, vssrc: u32, i: int) -> Option<int>
    decreases slots.len() - i,
{
    if i < 0 || i >= slots.len() {
        None
    } else if taken(slots, i) && slots[i]->0.simulcast_video_ssrc == vssrc {
        Some(i)
    } else {
        vssrc_at(slots, vssrc, i + 1)
    }
}

/// An index without an address.
pub open spec fn without_addr(m: Map<AddrKey, Place>, addr: Option<SocketAddress>) -> Map<AddrKey, Place> {
    match addr {
        Some(a) => m.remove(addr_key(a)),
        None => m,
    }
}

/// What it does that a participant is let go: their place is free, and nothing
/// leads to them.
pub open spec fn participant_removed(a: Room, b: Room, p: Participant) -> bool {
    let slot = names_of(a.participants)[p.user_id@].0 as int;
    &&& b.slots@ == a.slots@.update(slot, None)
    &&& b.active_since == a.active_since
    &&& names_of(b.participants) == names_of(a.participants).remove(p.user_id@)
    &&& names_of(b.by_ufrag) == names_of(a.by_ufrag).remove(p.publish.ufrag@).remove(
        p.subscribe.ufrag@,
    )
    &&& addrs_of(b.by_addr) == without_addr(
        without_addr(addrs_of(a.by_addr), p.publish.address),
        p.subscribe.address,
    )
}

/// What it does that a participant is let in: they take a free place, and are
/// found by name and by both user fragments.
pub open spec fn participant_added(a: Room, b: Room, p: Participant) -> bool {
    exists|slot: usize| #[trigger] added_at(a, b, p, slot)
}

pub open spec fn added_at(a: Room, b: Room, p: Participant, slot: usize) -> bool {
    &&& slot <= a.slots@.len()
    &&& !taken(a.slots@, slot as int)
    &&& b.slots@ == (if slot == a.slots@.len() {
        a.slots@.push(Some(p))
    } else {
        a.slots@.update(slot as int, Some(p))
    })
    &&& names_of(b.participants) == names_of(a.participants).insert(p.user_id@, (slot, false))
    &&& names_of(b.by_ufrag) == names_of(a.by_ufrag).insert(p.publish.ufrag@, (slot, false)).insert(
        p.subscribe.ufrag@,
        (slot, true),
    )
    &&& addrs_of(b.by_addr) == addrs_of(a.by_addr)
    &&& a.active_since != 0 ==> b.active_since == a.active_since
}

/// What a new room is like.
pub open spec fn room_created(
    r: Room,
    id: String,
    name: String,
    capacity: Option<usize>,
    mode: RoomMode,
    created_at: u64,
    simulcast_enabled: bool,
) -> bool {
    let wanted = match capacity {
        Some(c) => c,
        None => config::ROOM_DEFAULT_CAPACITY,
    };
    &&& r.id == id
    &&& r.name == name
    &&& r.capacity == (if wanted < config::ROOM_MAX_CAPACITY {
        wanted
    } else {
        config::ROOM_MAX_CAPACITY
    })
    &&& r.mode == mode
    &&& r.created_at == created_at
    &&& r.simulcast_enabled == (mode != RoomMode::Ptt && simulcast_enabled)
    &&& r.floor@.burst is None && r.floor@.queue.len() == 0 && r.floor@.prev_speaker is None
    &&& r.audio_rewriter@ == fresh_stream(r.audio_rewriter@.ssrc, TS_GUARD_GAP_AUDIO, false)
    &&& r.video_rewriter@ == fresh_stream(r.video_rewriter@.ssrc, TS_GUARD_GAP_VIDEO, true)
    &&& r.slots@.len() == 0
    &&& names_of(r.participants) == Map::<Seq<char>, Place>::empty()
    &&& names_of(r.by_ufrag) == Map::<Seq<char>, Place>::empty()
    &&& addrs_of(r.by_addr) == Map::<AddrKey, Place>::empty()
    &&& r.active_since == 0
}

/// What is random about a new room.
#[derive(Debug)]
pub struct RoomSeed {
    pub id: String,
    /// The SSRCs of the room's streams.
    pub audio_ssrc: u32,
    pub video_ssrc: u32,
}

impl RoomSeed {
    /// A UUID and two random SSRCs, or nothing where the system has no random
    /// numbers to give.
    pub fn fresh() -> (r: Option<Self>)
        ensures
            r matches Some(s) ==> is_uuid(s.id@),
    {
        match (fresh_uuid(), random_u32(), random_u32()) {
            (Some(id), Some(audio_ssrc), Some(video_ssrc)) => Some(
                RoomSeed { id, audio_ssrc, video_ssrc },
            ),
            _ => None,
        }
    }
}

/// An empty room that has grown from a seed.
pub open spec fn room_grown(
    r: Room,
    seed: RoomSeed,
    name: String,
    capacity: Option<usize>,
    mode: RoomMode,
    created_at: u64,
    simulcast_enabled: bool,
) -> bool {
    &&& room_created(r, seed.id, name, capacity, mode, created_at, simulcast_enabled)
    &&& r.audio_rewriter@.ssrc == seed.audio_ssrc
    &&& r.video_rewriter@.ssrc == seed.video_ssrc
}

/// Whether the same participants sit at the same places, with the same user
/// fragments and addresses.
pub open spec fn seats_kept(a: Seq<Option<Participant>>, b: Seq<Option<Participant>>) -> bool {
    &&& a.len() == b.len()
    &&& forall|i: int| #[trigger] taken(b, i) == taken(a, i)
    &&& forall|i: int| #[trigger]
        taken(b, i) ==> {
            &&& b[i]->0.user_id == a[i]->0.user_id
            &&& b[i]->0.publish.ufrag == a[i]->0.publish.ufrag
            &&& b[i]->0.publish.address == a[i]->0.publish.address
            &&& b[i]->0.subscribe.ufrag == a[i]->0.subscribe.ufrag
            &&& b[i]->0.subscribe.address == a[i]->0.subscribe.address
            &&& b[i]->0.wf()
        }
}

/// Whether the same participants sit at the same places and publish and receive
/// the same.
pub open spec fn media_kept(a: Seq<Option<Participant>>, b: Seq<Option<Participant>>) -> bool {
    &&& a.len() == b.len()
    &&& forall|i: int| #[trigger] taken(b, i) == taken(a, i)
    &&& forall|i: int| #[trigger]
        taken(b, i) ==> {
            &&& b[i]->0.user_id == a[i]->0.user_id
            &&& b[i]->0.tracks == a[i]->0.tracks
            &&& b[i]->0.simulcast_video_ssrc == a[i]->0.simulcast_video_ssrc
            &&& b[i]->0.subscribe_layers == a[i]->0.subscribe_layers
            &&& b[i]->0.rtp_cache == a[i]->0.rtp_cache
        }
}

pub proof fn lemma_publisher_kept(
    a: Seq<Option<Participant>>,
    b: Seq<Option<Participant>>,
    ssrc: u32,
    i: int,
)
    requires
        media_kept(a, b),
    ensures
        publisher_at(b, ssrc, i) == publisher_at(a, ssrc, i),
        vssrc_at(b, ssrc, i) == vssrc_at(a, ssrc, i),
    decreases a.len() - i,
{
    if 0 <= i < a.len() {
        assert(taken(b, i) == taken(a, i));
        lemma_publisher_kept(a, b, ssrc, i + 1);
    }
}

/// A room stays sound as long as everybody keeps their seat.
pub proof fn lemma_seats_kept(a: Room, b: Room)
    requires
        a.wf(),
        seats_kept(a.slots@, b.slots@),
        b.participants == a.participants,
        b.by_ufrag == a.by_ufrag,
        b.by_addr == a.by_addr,
        b.capacity == a.capacity,
        b.mode == a.mode,
        b.simulcast_enabled == a.simulcast_enabled,
        b.floor.wf(),
        !b.audio_rewriter@.video && b.video_rewriter@.video,
    ensures
        b.wf(),
{
    let names = names_of(a.participants);
    let ufrags = names_of(a.by_ufrag);
    let addrs = addrs_of(a.by_addr);
    assert forall|u: Seq<char>| #[trigger] names.dom().contains(u) implies taken(
        b.slots@,
        names[u].0 as int,
    ) && b.slots@[names[u].0 as int]->0.user_id@ == u by {
        assert(taken(b.slots@, names[u].0 as int) == taken(a.slots@, names[u].0 as int));
    }
    assert forall|u: Seq<char>| #[trigger] ufrags.dom().contains(u) implies taken(
        b.slots@,
        ufrags[u].0 as int,
    ) && b.slots@[ufrags[u].0 as int]->0.side(place_pc(ufrags[u])).ufrag@ == u by {
        assert(taken(b.slots@, ufrags[u].0 as int) == taken(a.slots@, ufrags[u].0 as int));
    }
    assert forall|k: AddrKey| #[trigger] addrs.dom().contains(k) implies taken(
        b.slots@,
        addrs[k].0 as int,
    ) && seen_at(b.slots@[addrs[k].0 as int]->0.side(place_pc(addrs[k])), k) by {
        assert(taken(b.slots@, addrs[k].0 as int) == taken(a.slots@, addrs[k].0 as int));
    }
}

// ---------------------------------------------------------------------------
// Laws of rooms
// ---------------------------------------------------------------------------

/// Whoever is let in is found by name and by the user fragment of either
/// connection; all others are found as before.
pub proof fn law_added_is_found(a: Room, b: Room, p: Participant)
    requires
        a.wf(),
        b.wf(),
        a.member(p.user_id@) is None,
        participant_added(a, b, p),
        p.publish.ufrag@ != p.subscribe.ufrag@,
    ensures
        b.member(p.user_id@) == Some(p),
        b.find_ufrag(p.publish.ufrag@) matches Some((i, pc)) && b.slots@[i as int] == Some(p) && pc
            == PcType::Publish,
        b.find_ufrag(p.subscribe.ufrag@) matches Some((i, pc)) && b.slots@[i as int] == Some(p) && pc
            == PcType::Subscribe,
        forall|u: Seq<char>| u != p.user_id@ ==> #[trigger] b.member(u) == a.member(u),
{
    let slot = choose|slot: usize| #[trigger] added_at(a, b, p, slot);
    assert forall|u: Seq<char>| u != p.user_id@ implies #[trigger] b.member(u) == a.member(u) by {
        if names_of(a.participants).dom().contains(u) {
            assert(taken(a.slots@, names_of(a.participants)[u].0 as int));
        }
    }
}

/// Whoever is let go is found neither by name nor by user fragment nor by
/// address; no user fragment and no address leads to their place any more.
pub proof fn law_removed_is_gone(a: Room, b: Room, p: Participant)
    requires
        a.wf(),
        b.wf(),
        a.member(p.user_id@) == Some(p),
        participant_removed(a, b, p),
    ensures
        b.member(p.user_id@) is None,
        b.find_ufrag(p.publish.ufrag@) is None,
        b.find_ufrag(p.subscribe.ufrag@) is None,
        p.publish.address matches Some(x) ==> b.find_addr(x) is None,
        p.subscribe.address matches Some(x) ==> b.find_addr(x) is None,
        forall|u: Seq<char>| u != p.user_id@ ==> #[trigger] b.member(u) == a.member(u),
{
    let slot = names_of(a.participants)[p.user_id@].0 as int;
    assert forall|u: Seq<char>| u != p.user_id@ implies #[trigger] b.member(u) == a.member(u) by {
        if names_of(a.participants).dom().contains(u) {
            assert(taken(a.slots@, names_of(a.participants)[u].0 as int));
        }
    }
}

/// A connection that was seen at an address is found there, and no longer where
/// it was before.
pub proof fn law_latched_is_found(a: Room, b: Room, slot: usize, pc: PcType, addr: SocketAddress)
    requires
        a.wf(),
        taken(a.slots@, slot as int),
        connection_latched(a, b, slot, pc, addr),
    ensures
        b.find_addr(addr) == Some((slot, pc)),
        b.slots@[slot as int]->0.side(pc).address == Some(addr),
        a.slots@[slot as int]->0.side(pc).address matches Some(last) ==> last != addr ==> b.find_addr(
            last,
        ) is None,
{
    if let Some(last) = a.slots@[slot as int]->0.side(pc).address {
        lemma_addr_key_injective(last, addr);
    }
}

/// A room never holds more than its capacity, which is 1000 at most.
pub proof fn law_capacity(r: Room)
    requires
        r.wf(),
    ensures
        names_of(r.participants).dom().len() <= r.capacity <= 1000,
        r.mode == RoomMode::Ptt ==> !r.simulcast_enabled,
{
}

} // verus!
