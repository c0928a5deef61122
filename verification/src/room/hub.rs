//! The hub that knows all rooms.

use vstd::prelude::*;

use crate::config::RoomMode;
use crate::error::{LightError, LightResult};
use crate::random::is_uuid;
use crate::room::index::{
    addrs_get, addrs_insert, addrs_new, addrs_of, addrs_remove, at_addr, named, names_get,
    names_insert, names_len, names_new, names_of, names_remove, Place,
};
use crate::room::participant::{Participant, PcType};
use crate::room::room::{
    added_at, connection_latched, participant_added, participant_removed, room_grown, taken,
    without_addr, Room, RoomSeed,
};
use crate::transport::addr::{addr_key, AddrKey, SocketAddress};

verus! {

pub struct RoomHub {
    /// The rooms; the place of a room that was removed stays empty.
    pub slots: Vec<Option<Room>>,
    /// Places by identifier.
    pub rooms: dashmap::DashMap<String, Place>,
    /// The place of the room that a user fragment belongs to.
    pub ufrag_index: dashmap::DashMap<String, Place>,
    /// The place of the room that an address belongs to.
    pub addr_index: dashmap::DashMap<AddrKey, Place>,
}

/// Whether there is a room at a place.
pub open spec fn open_at(slots: Seq<Option<Room>>, i: int) -> bool {
    0 <= i < slots.len() && slots[i] is Some
}

/// Every room is found by its identifier, and identifiers lead to nothing else.
pub open spec fn rooms_agree(slots: Seq<Option<Room>>, m: Map<Seq<char>, Place>) -> bool {
    &&& forall|u: Seq<char>| #[trigger]
        m.dom().contains(u) ==> open_at(slots, m[u].0 as int) && slots[m[u].0 as int]->0.id@ == u
    &&& forall|i: int| #[trigger]
        open_at(slots, i) ==> m.dom().contains(slots[i]->0.id@) && m[slots[i]->0.id@].0 == i
}

/// Every room is sound.
pub open spec fn rooms_valid(slots: Seq<Option<Room>>) -> bool {
    forall|i: int| #[trigger] open_at(slots, i) ==> slots[i]->0.wf()
}

/// An index with both user fragments of a participant.
pub open spec fn with_ufrags(m: Map<Seq<char>, Place>, p: Participant, place: Place) -> Map<
    Seq<char>,
    Place,
> {
    m.insert(p.publish.ufrag@, place).insert(p.subscribe.ufrag@, place)
}

/// An index without the user fragments of a participant.
pub open spec fn without_ufrags(m: Map<Seq<char>, Place>, p: Participant) -> Map<Seq<char>, Place> {
    m.remove(p.publish.ufrag@).remove(p.subscribe.ufrag@)
}

/// An index without the addresses of a participant.
pub open spec fn without_addrs(m: Map<AddrKey, Place>, p: Participant) -> Map<AddrKey, Place> {
    without_addr(without_addr(m, p.publish.address), p.subscribe.address)
}

/// An index without the user fragments of those at the first `n` places.
pub open spec fn without_all_ufrags(
    m: Map<Seq<char>, Place>,
    slots: Seq<Option<Participant>>,
    n: int,
) -> Map<Seq<char>, Place>
    decreases n,
{
    if n <= 0 {
        m
    } else if taken(slots, n - 1) {
        without_ufrags(without_all_ufrags(m, slots, n - 1), slots[n - 1]->0)
    } else {
        without_all_ufrags(m, slots, n - 1)
    }
}

/// An index without the addresses of those at the first `n` places.
pub open spec fn without_all_addrs(
    m: Map<AddrKey, Place>,
    slots: Seq<Option<Participant>>,
    n: int,
) -> Map<AddrKey, Place>
    decreases n,
{
    if n <= 0 {
        m
    } else if taken(slots, n - 1) {
        without_addrs(without_all_addrs(m, slots, n - 1), slots[n - 1]->0)
    } else {
        without_all_addrs(m, slots, n - 1)
    }
}

/// Whether a participant has given no sign of life for too long.
pub open spec fn is_zombie(p: Participant, now_ms: u64, timeout_ms: u64) -> bool {
    p.last_seen + timeout_ms < now_ms
}

/// A place after the dead were let go.
pub open spec fn survivor(p: Option<Participant>, now_ms: u64, timeout_ms: u64) -> Option<Participant> {
    match p {
        Some(x) => if is_zombie(x, now_ms, timeout_ms) {
            None
        } else {
            Some(x)
        },
        None => None,
    }
}

pub open spec fn survivors(slots: Seq<Option<Participant>>, now_ms: u64, timeout_ms: u64) -> Seq<
    Option<Participant>,
> {
    Seq::new(slots.len(), |i: int| survivor(slots[i], now_ms, timeout_ms))
}

/// The dead at the first `n` places.
pub open spec fn zombies_in(
    slots: Seq<Option<Participant>>,
    now_ms: u64,
    timeout_ms: u64,
    n: int,
) -> Seq<Participant>
    decreases n,
{
    if n <= 0 {
        Seq::empty()
    } else if taken(slots, n - 1) && is_zombie(slots[n - 1]->0, now_ms, timeout_ms) {
        zombies_in(slots, now_ms, timeout_ms, n - 1).push(slots[n - 1]->0)
    } else {
        zombies_in(slots, now_ms, timeout_ms, n - 1)
    }
}

/// Participants with the identifier of their room.
pub open spec fn tagged(ps: Seq<Participant>, id: Seq<char>) -> Seq<(Seq<char>, Participant)> {
    ps.map_values(|p: Participant| (id, p))
}

/// The dead of the first `n` rooms.
pub open spec fn all_zombies(rooms: Seq<Option<Room>>, now_ms: u64, timeout_ms: u64, n: int) -> Seq<
    (Seq<char>, Participant),
>
    decreases n,
{
    if n <= 0 {
        Seq::empty()
    } else if open_at(rooms, n - 1) {
        let room = rooms[n - 1]->0;
        all_zombies(rooms, now_ms, timeout_ms, n - 1) + tagged(
            zombies_in(room.slots@, now_ms, timeout_ms, room.slots@.len() as int),
            room.id@,
        )
    } else {
        all_zombies(rooms, now_ms, timeout_ms, n - 1)
    }
}

/// An index without the names of those who were let go.
pub open spec fn names_without(m: Map<Seq<char>, Place>, gone: Seq<Participant>) -> Map<
    Seq<char>,
    Place,
>
    decreases gone.len(),
{
    if gone.len() == 0 {
        m
    } else {
        names_without(m, gone.drop_last()).remove(gone.last().user_id@)
    }
}

/// An index without the user fragments of those who were let go.
pub open spec fn ufrags_without(m: Map<Seq<char>, Place>, gone: Seq<Participant>) -> Map<
    Seq<char>,
    Place,
>
    decreases gone.len(),
{
    if gone.len() == 0 {
        m
    } else {
        without_ufrags(ufrags_without(m, gone.drop_last()), gone.last())
    }
}

/// An index without the addresses of those who were let go.
pub open spec fn addrs_without(m: Map<AddrKey, Place>, gone: Seq<Participant>) -> Map<
    AddrKey,
    Place,
>
    decreases gone.len(),
{
    if gone.len() == 0 {
        m
    } else {
        without_addrs(addrs_without(m, gone.drop_last()), gone.last())
    }
}

/// Participants without the identifiers of their rooms.
pub open spec fn untagged(gone: Seq<(Seq<char>, Participant)>) -> Seq<Participant> {
    gone.map_values(|x: (Seq<char>, Participant)| x.1)
}

/// A room without those who were let go: nothing leads to them any more, and
/// everything to the others as before.
pub open spec fn led_without(a: Room, b: Room, gone: Seq<Participant>) -> bool {
    &&& b.same_settings(a)
    &&& b.active_since == a.active_since
    &&& names_of(b.participants) == names_without(names_of(a.participants), gone)
    &&& names_of(b.by_ufrag) == ufrags_without(names_of(a.by_ufrag), gone)
    &&& addrs_of(b.by_addr) == addrs_without(addrs_of(a.by_addr), gone)
}

/// A room after the dead were let go.
pub open spec fn room_reaped(a: Room, b: Room, now_ms: u64, timeout_ms: u64) -> bool {
    &&& b.slots@ == survivors(a.slots@, now_ms, timeout_ms)
    &&& led_without(
        a,
        b,
        zombies_in(a.slots@, now_ms, timeout_ms, a.slots@.len() as int),
    )
}

/// A hub after the dead were let go.
pub open spec fn hub_reaped(a: RoomHub, b: RoomHub, now_ms: u64, timeout_ms: u64) -> bool {
    let gone = untagged(all_zombies(a.slots@, now_ms, timeout_ms, a.slots@.len() as int));
    &&& b.slots@.len() == a.slots@.len()
    &&& forall|i: int| #[trigger] open_at(b.slots@, i) == open_at(a.slots@, i)
    &&& forall|i: int| #[trigger]
        open_at(b.slots@, i) ==> room_reaped(
            a.slots@[i]->0,
            b.slots@[i]->0,
            now_ms,
            timeout_ms,
        )
    &&& names_of(b.rooms) == names_of(a.rooms)
    &&& names_of(b.ufrag_index) == ufrags_without(names_of(a.ufrag_index), gone)
    &&& addrs_of(b.addr_index) == addrs_without(addrs_of(a.addr_index), gone)
}

proof fn lemma_one_more_gone(gone: Seq<(Seq<char>, Participant)>, id: Seq<char>, p: Participant)
    ensures
        untagged(gone.push((id, p))) == untagged(gone).push(p),
        untagged(gone).push(p).drop_last() == untagged(gone),
{
    assert(untagged(gone.push((id, p))) =~= untagged(gone).push(p));
    assert(untagged(gone).push(p).drop_last() =~= untagged(gone));
}

/// Whether rooms and indices are what they were.
pub open spec fn hub_unchanged(a: RoomHub, b: RoomHub) -> bool {
    &&& b.slots@ == a.slots@
    &&& b.rooms == a.rooms
    &&& b.ufrag_index == a.ufrag_index
    &&& b.addr_index == a.addr_index
}

/// A hub before and after a room was created: the room is found by its
/// identifier, all others as before.
pub open spec fn room_opened(
    a: RoomHub,
    b: RoomHub,
    room: Room,
    seed: RoomSeed,
    name: String,
    capacity: Option<usize>,
    mode: RoomMode,
    created_at: u64,
    simulcast_enabled: bool,
) -> bool {
    &&& room_grown(room, seed, name, capacity, mode, created_at, simulcast_enabled)
    &&& b.room(seed.id@) == Some(room)
    &&& forall|u: Seq<char>| u != seed.id@ ==> #[trigger] b.room(u) == a.room(u)
    &&& b.ufrag_index == a.ufrag_index
    &&& b.addr_index == a.addr_index
}

/// Whether the indices are what they were.
pub open spec fn indices_unchanged(a: RoomHub, b: RoomHub) -> bool {
    b.ufrag_index == a.ufrag_index && b.addr_index == a.addr_index
}

/// Whether `b` is `a` with another state of one room.
pub open spec fn room_replaced(a: RoomHub, b: RoomHub, id: Seq<char>) -> bool {
    let i = a.place_of_room(id)->0;
    &&& b.room(id) is Some
    &&& b.slots@ == a.slots@.update(i, b.room(id))
    &&& names_of(b.rooms) == names_of(a.rooms)
}

pub proof fn lemma_replaced(a: RoomHub, b: RoomHub, i: int)
    requires
        a.wf(),
        open_at(a.slots@, i),
        b.slots@.len() == a.slots@.len(),
        b.slots@[i] is Some,
        b.slots@[i]->0.wf(),
        b.slots@[i]->0.id == a.slots@[i]->0.id,
        forall|k: int| 0 <= k < a.slots@.len() && k != i ==> b.slots@[k] == a.slots@[k],
        names_of(b.rooms) == names_of(a.rooms),
    ensures
        rooms_agree(b.slots@, names_of(b.rooms)),
        rooms_valid(b.slots@),
        b.room(a.slots@[i]->0.id@) == b.slots@[i],
        b.slots@ == a.slots@.update(i, b.slots@[i]),
{
    let names = names_of(a.rooms);
    assert forall|k: int| #[trigger] open_at(b.slots@, k) == open_at(a.slots@, k) by {}
    assert forall|u: Seq<char>| #[trigger] names.dom().contains(u) implies open_at(
        b.slots@,
        names[u].0 as int,
    ) && b.slots@[names[u].0 as int]->0.id@ == u by {
        assert(open_at(a.slots@, names[u].0 as int));
    }
    assert(b.slots@ =~= a.slots@.update(i, b.slots@[i]));
}

impl RoomHub {
    /// What holds of the hub at all times.
    pub open spec fn wf(&self) -> bool {
        &&& rooms_agree(self.slots@, names_of(self.rooms))
        &&& rooms_valid(self.slots@)
        &&& names_of(self.rooms).dom().finite()
        &&& forall|u: Seq<char>| #[trigger]
            names_of(self.ufrag_index).dom().contains(u) ==> names_of(self.ufrag_index)[u].0
                < self.slots@.len()
        &&& forall|k: AddrKey| #[trigger]
            addrs_of(self.addr_index).dom().contains(k) ==> addrs_of(self.addr_index)[k].0
                < self.slots@.len()
    }

    /// The place of a room.
    pub open spec fn place_of_room(&self, id: Seq<char>) -> Option<int> {
        match named(names_of(self.rooms), id) {
            Some(p) => Some(p.0 as int),
            None => None,
        }
    }

    /// The room with an identifier.
    pub open spec fn room(&self, id: Seq<char>) -> Option<Room> {
        match self.place_of_room(id) {
            Some(i) => self.slots@[i],
            None => None,
        }
    }

    pub fn new() -> (r: Self)
        ensures
            r.wf(),
            r.slots@.len() == 0,
            names_of(r.rooms).dom().len() == 0,
    {
        RoomHub {
            slots: Vec::new(),
            rooms: names_new(),
            ufrag_index: names_new(),
            addr_index: addrs_new(),
        }
    }

    /// Puts a room into the hub, in place of one with the same identifier.
    pub fn insert_room(&mut self, room: Room) -> (r: usize)
        requires
            old(self).wf(),
            room.wf(),
        ensures
            final(self).wf(),
            final(self).place_of_room(room.id@) == Some(r as int),
            final(self).room(room.id@) == Some(room),
            forall|u: Seq<char>| u != room.id@ ==> #[trigger] final(self).room(u) == old(self).room(u),
            final(self).ufrag_index == old(self).ufrag_index,
            final(self).addr_index == old(self).addr_index,
    {
        let ghost before = self.slots@;
        let ghost id = room.id@;
        let ghost names = names_of(self.rooms);
        let slot: usize = match names_get(&self.rooms, room.id.as_str()) {
            Some(place) => {
                assert(names.dom().contains(id));
                place.0
            },
            None => self.slots.len(),
        };
        names_insert(&mut self.rooms, room.id.as_str(), (slot, false));
        if slot == self.slots.len() {
            self.slots.push(Some(room));
        } else {
            self.slots[slot] = Some(room);
        }
        proof {
            let after = self.slots@;
            assert(open_at(after, slot as int));
            assert forall|i: int| i != slot implies #[trigger] open_at(after, i) == open_at(before, i) && (
            open_at(before, i) ==> after[i] == before[i]) by {}
            assert forall|u: Seq<char>| u != id implies #[trigger] self.room(u) == old(self).room(u) by {
                if names.dom().contains(u) {
                    assert(open_at(before, names[u].0 as int));
                }
            }
        }
        slot
    }

    /// `create` with what is random about the room. It takes the place of a room
    /// with the same identifier.
    pub fn create_with(
        &mut self,
        seed: RoomSeed,
        name: String,
        capacity: Option<usize>,
        mode: RoomMode,
        created_at: u64,
        simulcast_enabled: bool,
    ) -> (r: usize)
        requires
            old(self).wf(),
        ensures
            final(self).wf(),
            open_at(final(self).slots@, r as int),
            room_opened(
                *old(self),
                *final(self),
                final(self).slots@[r as int]->0,
                seed,
                name,
                capacity,
                mode,
                created_at,
                simulcast_enabled,
            ),
    {
        let room = Room::with_ssrcs(
            seed.id,
            name,
            capacity,
            mode,
            created_at,
            simulcast_enabled,
            seed.audio_ssrc,
            seed.video_ssrc,
        );
        let ghost id = room.id@;
        let slot: usize = self.insert_room(room);
        assert(names_of(self.rooms).dom().contains(id));
        slot
    }

    /// A new room with a random identifier, or nothing where the system has no
    /// random numbers to give.
    pub fn create(
        &mut self,
        name: String,
        capacity: Option<usize>,
        mode: RoomMode,
        created_at: u64,
        simulcast_enabled: bool,
    ) -> (r: Option<usize>)
        requires
            old(self).wf(),
        ensures
            final(self).wf(),
            match r {
                Some(i) => {
                    &&& open_at(final(self).slots@, i as int)
                    &&& exists|seed: RoomSeed|
                        is_uuid(seed.id@) && #[trigger] room_opened(
                            *old(self),
                            *final(self),
                            final(self).slots@[i as int]->0,
                            seed,
                            name,
                            capacity,
                            mode,
                            created_at,
                            simulcast_enabled,
                        )
                },
                None => *final(self) == *old(self),
            },
    {
        match RoomSeed::fresh() {
            Some(seed) => Some(
                self.create_with(seed, name, capacity, mode, created_at, simulcast_enabled),
            ),
            None => None,
        }
    }

    /// The place of a room.
    pub fn slot_of(&self, room_id: &str) -> (r: Option<usize>)
        requires
            self.wf(),
        ensures
            match r {
                Some(i) => self.place_of_room(room_id@) == Some(i as int) && open_at(
                    self.slots@,
                    i as int,
                ) && self.slots@[i as int]->0.id@ == room_id@,
                None => self.place_of_room(room_id@) is None,
            },
    {
        match names_get(&self.rooms, room_id) {
            Some(place) => {
                assert(names_of(self.rooms).dom().contains(room_id@));
                Some(place.0)
            },
            None => None,
        }
    }

    pub fn get(&self, room_id: &str) -> (r: LightResult<&Room>)
        requires
            self.wf(),
        ensures
            match r {
                Ok(room) => self.room(room_id@) == Some(*room) && room.id@ == room_id@ && room.wf(),
                Err(e) => e is RoomNotFound && self.room(room_id@) is None,
            },
    {
        match self.slot_of(room_id) {
            Some(i) => match &self.slots[i] {
                Some(room) => Ok(room),
                None => Err(LightError::RoomNotFound),
            },
            None => Err(LightError::RoomNotFound),
        }
    }

    pub fn count(&self) -> (r: usize)
        ensures
            r == names_of(self.rooms).dom().len(),
    {
        names_len(&self.rooms)
    }

    /// Takes the user fragments and addresses of a participant out of the
    /// indices.
    fn forget(&mut self, p: &Participant)
        ensures
            *final(self) == (RoomHub {
                ufrag_index: final(self).ufrag_index,
                addr_index: final(self).addr_index,
                ..*old(self)
            }),
            names_of(final(self).ufrag_index) == without_ufrags(names_of(old(self).ufrag_index), *p),
            addrs_of(final(self).addr_index) == without_addrs(addrs_of(old(self).addr_index), *p),
    {
        names_remove(&mut self.ufrag_index, p.publish.ufrag.as_str());
        names_remove(&mut self.ufrag_index, p.subscribe.ufrag.as_str());
        if let Some(a) = p.publish.address {
            addrs_remove(&mut self.addr_index, a.key());
        }
        if let Some(a) = p.subscribe.address {
            addrs_remove(&mut self.addr_index, a.key());
        }
    }

    /// Removes a room with all that leads to its participants.
    pub fn remove_room(&mut self, room_id: &str) -> (r: LightResult<Room>)
        requires
            old(self).wf(),
        ensures
            final(self).wf(),
            match r {
                Ok(room) => {
                    &&& old(self).room(room_id@) == Some(room)
                    &&& final(self).room(room_id@) is None
                    &&& forall|u: Seq<char>|
                        u != room_id@ ==> #[trigger] final(self).room(u) == old(self).room(u)
                    &&& names_of(final(self).ufrag_index) == without_all_ufrags(
                        names_of(old(self).ufrag_index),
                        room.slots@,
                        room.slots@.len() as int,
                    )
                    &&& addrs_of(final(self).addr_index) == without_all_addrs(
                        addrs_of(old(self).addr_index),
                        room.slots@,
                        room.slots@.len() as int,
                    )
                },
                Err(e) => e is RoomNotFound && old(self).room(room_id@) is None && *final(self)
                    == *old(self),
            },
    {
        let slot: usize = match self.slot_of(room_id) {
            Some(i) => i,
            None => {
                return Err(LightError::RoomNotFound);
            },
        };
        let ghost before = self.slots@;
        let ghost names = names_of(self.rooms);
        let mut gone: Option<Room> = None;
        std::mem::swap(&mut gone, &mut self.slots[slot]);
        assert(self.slots@ =~= before.update(slot as int, None));
        match gone {
            Some(room) => {
                names_remove(&mut self.rooms, room_id);
                proof {
                    let after = self.slots@;
                    assert forall|i: int| #[trigger] open_at(after, i) == (i != slot && open_at(before, i))
                        && (open_at(after, i) ==> after[i] == before[i]) by {}
                    assert forall|u: Seq<char>| #[trigger] names_of(self.rooms).dom().contains(u) implies open_at(
                        after,
                        names_of(self.rooms)[u].0 as int,
                    ) by {
                        assert(open_at(before, names[u].0 as int));
                    }
                    assert forall|u: Seq<char>| u != room_id@ implies #[trigger] self.room(u) == old(
                        self,
                    ).room(u) by {
                        if names.dom().contains(u) {
                            assert(open_at(before, names[u].0 as int));
                        }
                    }
                }
                let ghost middle = *self;
                let mut i: usize = 0;
                while i < room.slots.len()
                    invariant
                        i <= room.slots@.len(),
                        *self == (RoomHub {
                            ufrag_index: self.ufrag_index,
                            addr_index: self.addr_index,
                            ..middle
                        }),
                        self.wf(),
                        names_of(self.ufrag_index) == without_all_ufrags(
                            names_of(middle.ufrag_index),
                            room.slots@,
                            i as int,
                        ),
                        addrs_of(self.addr_index) == without_all_addrs(
                            addrs_of(middle.addr_index),
                            room.slots@,
                            i as int,
                        ),
                    decreases room.slots@.len() - i,
                {
                    if let Some(p) = &room.slots[i] {
                        self.forget(p);
                    }
                    i += 1;
                }
                assert forall|u: Seq<char>| u != room_id@ implies #[trigger] self.room(u) == old(
                    self,
                ).room(u) by {
                    assert(self.room(u) == middle.room(u));
                }
                Ok(room)
            },
            None => Err(LightError::RoomNotFound),
        }
    }

    // --- participants ---

    /// Lets a participant into a room.
    pub fn add_participant(&mut self, room_id: &str, p: Participant) -> (r: LightResult<()>)
        requires
            old(self).wf(),
            p.wf(),
        ensures
            final(self).wf(),
            match r {
                Ok(_) => {
                    &&& old(self).room(room_id@) is Some
                    &&& room_replaced(*old(self), *final(self), room_id@)
                    &&& ({
                        let a = old(self).room(room_id@)->0;
                        let b = final(self).room(room_id@)->0;
                        &&& a.participants_len() < a.capacity
                        &&& a.member(p.user_id@) is None
                        &&& b.same_settings(a)
                        &&& participant_added(a, b, p)
                    })
                    &&& names_of(final(self).ufrag_index) == with_ufrags(
                        names_of(old(self).ufrag_index),
                        p,
                        (old(self).place_of_room(room_id@)->0 as usize, false),
                    )
                    &&& addrs_of(final(self).addr_index) == addrs_of(old(self).addr_index)
                },
                Err(e) => {
                    &&& hub_unchanged(*old(self), *final(self))
                    &&& e is RoomNotFound <==> old(self).room(room_id@) is None
                    &&& old(self).room(room_id@) matches Some(a) ==> {
                        &&& e is RoomFull <==> a.participants_len() >= a.capacity
                        &&& e is AlreadyInRoom <==> a.participants_len() < a.capacity
                        &&& e is AlreadyInRoom ==> a.member(p.user_id@) is Some
                    }
                },
            },
    {
        let slot: usize = match self.slot_of(room_id) {
            Some(i) => i,
            None => {
                return Err(LightError::RoomNotFound);
            },
        };
        let pub_ufrag = p.publish.ufrag.clone();
        let sub_ufrag = p.subscribe.ufrag.clone();
        let ghost before = self.slots@;
        match &mut self.slots[slot] {
            Some(room) => match room.add_participant(p) {
                Ok(_) => {},
                Err(e) => {
                    assert(self.slots@ =~= before);
                    return Err(e);
                },
            },
            None => {
                return Err(LightError::RoomNotFound);
            },
        }
        names_insert(&mut self.ufrag_index, pub_ufrag.as_str(), (slot, false));
        names_insert(&mut self.ufrag_index, sub_ufrag.as_str(), (slot, false));
        proof {
            lemma_replaced(*old(self), *self, slot as int);
        }
        Ok(())
    }

    /// Lets a participant of a room go, with all that leads to them.
    pub fn remove_participant(&mut self, room_id: &str, user_id: &str) -> (r: LightResult<Participant>)
        requires
            old(self).wf(),
        ensures
            final(self).wf(),
            match r {
                Ok(p) => {
                    &&& old(self).room(room_id@) is Some
                    &&& room_replaced(*old(self), *final(self), room_id@)
                    &&& ({
                        let a = old(self).room(room_id@)->0;
                        let b = final(self).room(room_id@)->0;
                        &&& a.member(user_id@) == Some(p)
                        &&& p.user_id@ == user_id@
                        &&& b.same_settings(a)
                        &&& participant_removed(a, b, p)
                    })
                    &&& names_of(final(self).ufrag_index) == without_ufrags(
                        names_of(old(self).ufrag_index),
                        p,
                    )
                    &&& addrs_of(final(self).addr_index) == without_addrs(
                        addrs_of(old(self).addr_index),
                        p,
                    )
                },
                Err(e) => {
                    &&& hub_unchanged(*old(self), *final(self))
                    &&& e is RoomNotFound <==> old(self).room(room_id@) is None
                    &&& old(self).room(room_id@) matches Some(a) ==> e is NotInRoom && a.member(
                        user_id@,
                    ) is None
                },
            },
    {
        let slot: usize = match self.slot_of(room_id) {
            Some(i) => i,
            None => {
                return Err(LightError::RoomNotFound);
            },
        };
        let ghost before = self.slots@;
        let gone: Participant = match &mut self.slots[slot] {
            Some(room) => match room.remove_participant(user_id) {
                Ok(p) => p,
                Err(e) => {
                    assert(self.slots@ =~= before);
                    return Err(e);
                },
            },
            None => {
                return Err(LightError::RoomNotFound);
            },
        };
        self.forget(&gone);
        proof {
            lemma_replaced(*old(self), *self, slot as int);
        }
        Ok(gone)
    }

    /// Room, place and connection of a user fragment.
    pub open spec fn find_ufrag(&self, ufrag: Seq<char>) -> Option<(usize, usize, PcType)> {
        match named(names_of(self.ufrag_index), ufrag) {
            Some(place) => match self.slots@[place.0 as int] {
                Some(room) => match room.find_ufrag(ufrag) {
                    Some((i, pc)) => Some((place.0, i, pc)),
                    None => None,
                },
                None => None,
            },
            None => None,
        }
    }

    /// Room, place and connection of an address.
    pub open spec fn find_addr(&self, addr: SocketAddress) -> Option<(usize, usize, PcType)> {
        match at_addr(addrs_of(self.addr_index), addr_key(addr)) {
            Some(place) => match self.slots@[place.0 as int] {
                Some(room) => match room.find_addr(addr) {
                    Some((i, pc)) => Some((place.0, i, pc)),
                    None => None,
                },
                None => None,
            },
            None => None,
        }
    }

    /// The connection with the user fragment `ufrag` was seen at `addr`.
    pub fn latch_by_ufrag(&mut self, ufrag: &str, addr: SocketAddress) -> (r: Option<
        (usize, usize, PcType),
    >)
        requires
            old(self).wf(),
        ensures
            final(self).wf(),
            r == old(self).find_ufrag(ufrag@),
            match r {
                Some((room, slot, pc)) => {
                    &&& open_at(old(self).slots@, room as int)
                    &&& taken(old(self).slots@[room as int]->0.slots@, slot as int)
                    &&& open_at(final(self).slots@, room as int)
                    &&& final(self).slots@ == old(self).slots@.update(
                        room as int,
                        final(self).slots@[room as int],
                    )
                    &&& final(self).slots@[room as int]->0.same_settings(
                        old(self).slots@[room as int]->0,
                    )
                    &&& connection_latched(
                        old(self).slots@[room as int]->0,
                        final(self).slots@[room as int]->0,
                        slot,
                        pc,
                        addr,
                    )
                    &&& names_of(final(self).rooms) == names_of(old(self).rooms)
                    &&& names_of(final(self).ufrag_index) == names_of(old(self).ufrag_index)
                    &&& addrs_of(final(self).addr_index) == addrs_of(old(self).addr_index).insert(
                        addr_key(addr),
                        (room, false),
                    )
                },
                None => hub_unchanged(*old(self), *final(self)),
            },
    {
        let place: Place = match names_get(&self.ufrag_index, ufrag) {
            Some(p) => p,
            None => {
                return None;
            },
        };
        assert(names_of(self.ufrag_index).dom().contains(ufrag@));
        let slot: usize = place.0;
        let ghost before = self.slots@;
        let found: Option<(usize, PcType)> = match &mut self.slots[slot] {
            Some(room) => {
                assert(open_at(before, slot as int));
                room.latch(ufrag, addr)
            },
            None => None,
        };
        match found {
            Some((i, pc)) => {
                addrs_insert(&mut self.addr_index, addr.key(), (slot, false));
                proof {
                    lemma_replaced(*old(self), *self, slot as int);
                }
                Some((slot, i, pc))
            },
            None => {
                assert(self.slots@ =~= before);
                None
            },
        }
    }

    pub fn find_by_addr(&self, addr: &SocketAddress) -> (r: Option<(usize, usize, PcType)>)
        requires
            self.wf(),
        ensures
            r == self.find_addr(*addr),
            r matches Some((room, i, pc)) ==> open_at(self.slots@, room as int) && taken(
                self.slots@[room as int]->0.slots@,
                i as int,
            ) && self.slots@[room as int]->0.slots@[i as int]->0.side(pc).address == Some(*addr),
    {
        let place: Place = match addrs_get(&self.addr_index, addr.key()) {
            Some(p) => p,
            None => {
                return None;
            },
        };
        assert(addrs_of(self.addr_index).dom().contains(addr_key(*addr)));
        match &self.slots[place.0] {
            Some(room) => {
                assert(open_at(self.slots@, place.0 as int));
                match room.get_by_addr(addr) {
                    Some((i, pc)) => Some((place.0, i, pc)),
                    None => None,
                }
            },
            None => None,
        }
    }

    pub fn find_by_ufrag(&self, ufrag: &str) -> (r: Option<(usize, usize, PcType)>)
        requires
            self.wf(),
        ensures
            r == self.find_ufrag(ufrag@),
            r matches Some((room, i, pc)) ==> open_at(self.slots@, room as int) && taken(
                self.slots@[room as int]->0.slots@,
                i as int,
            ) && self.slots@[room as int]->0.slots@[i as int]->0.side(pc).ufrag@ == ufrag@,
    {
        let place: Place = match names_get(&self.ufrag_index, ufrag) {
            Some(p) => p,
            None => {
                return None;
            },
        };
        assert(names_of(self.ufrag_index).dom().contains(ufrag@));
        match &self.slots[place.0] {
            Some(room) => {
                assert(open_at(self.slots@, place.0 as int));
                match room.get_by_ufrag(ufrag) {
                    Some((i, pc)) => Some((place.0, i, pc)),
                    None => None,
                }
            },
            None => None,
        }
    }

    /// Lets everybody go who has given no sign of life for longer than
    /// `timeout_ms`. They are returned with the identifiers of their rooms, room
    /// by room.
    pub fn reap_zombies(&mut self, now_ms: u64, timeout_ms: u64) -> (r: Vec<(String, Participant)>)
        requires
            old(self).wf(),
        ensures
            final(self).wf(),
            hub_reaped(*old(self), *final(self), now_ms, timeout_ms),
            r@.map_values(|x: (String, Participant)| (x.0@, x.1)) == all_zombies(
                old(self).slots@,
                now_ms,
                timeout_ms,
                old(self).slots@.len() as int,
            ),
    {
        let content = Ghost(|x: (String, Participant)| (x.0@, x.1));
        let mut reaped: Vec<(String, Participant)> = Vec::new();
        let n: usize = self.slots.len();
        let ghost whole = *self;
        let ghost start = self.slots@;
        let mut i: usize = 0;
        assert(reaped@.map_values(content@) =~= all_zombies(start, now_ms, timeout_ms, 0));
        assert(untagged(reaped@.map_values(content@)).len() == 0);
        while i < n
            invariant
                content@ == (|x: (String, Participant)| (x.0@, x.1)),
                self.wf(),
                i <= n == start.len() == self.slots@.len(),
                forall|k: int| i <= k < n ==> self.slots@[k] == start[k],
                forall|k: int| #[trigger] open_at(self.slots@, k) == open_at(start, k),
                forall|k: int|
                    0 <= k < i && #[trigger] open_at(self.slots@, k) ==> room_reaped(
                        start[k]->0,
                        self.slots@[k]->0,
                        now_ms,
                        timeout_ms,
                    ),
                reaped@.map_values(content@) == all_zombies(start, now_ms, timeout_ms, i as int),
                names_of(self.rooms) == names_of(whole.rooms),
                names_of(self.ufrag_index) == ufrags_without(
                    names_of(whole.ufrag_index),
                    untagged(reaped@.map_values(content@)),
                ),
                addrs_of(self.addr_index) == addrs_without(
                    addrs_of(whole.addr_index),
                    untagged(reaped@.map_values(content@)),
                ),
            decreases n - i,
        {
            let (room_id, m): (Option<String>, usize) = match &self.slots[i] {
                Some(room) => (Some(room.id.clone()), room.slots.len()),
                None => (None, 0),
            };
            let ghost mid = self.slots@;
            let ghost before = reaped@;
            if let Some(id) = room_id {
                assert(open_at(mid, i as int));
                let ghost people = mid[i as int]->0.slots@;
                let mut j: usize = 0;
                assert(reaped@.map_values(content@) =~= before.map_values(content@) + tagged(
                    zombies_in(people, now_ms, timeout_ms, 0),
                    id@,
                ));
                while j < m
                    invariant
                        content@ == (|x: (String, Participant)| (x.0@, x.1)),
                        self.wf(),
                        i < n == self.slots@.len() == mid.len(),
                        j <= m == people.len(),
                        open_at(mid, i as int),
                        open_at(self.slots@, i as int),
                        people == mid[i as int]->0.slots@,
                        id@ == self.slots@[i as int]->0.id@,
                        forall|k: int| 0 <= k < n && k != i ==> self.slots@[k] == mid[k],
                        led_without(
                            mid[i as int]->0,
                            self.slots@[i as int]->0,
                            zombies_in(people, now_ms, timeout_ms, j as int),
                        ),
                        names_of(self.rooms) == names_of(whole.rooms),
                        names_of(self.ufrag_index) == ufrags_without(
                            names_of(whole.ufrag_index),
                            untagged(reaped@.map_values(content@)),
                        ),
                        addrs_of(self.addr_index) == addrs_without(
                            addrs_of(whole.addr_index),
                            untagged(reaped@.map_values(content@)),
                        ),
                        self.slots@[i as int]->0.slots@.len() == m,
                        forall|q: int|
                            #![trigger self.slots@[i as int]->0.slots@[q]]
                            0 <= q < m ==> self.slots@[i as int]->0.slots@[q] == (if q < j {
                                survivor(people[q], now_ms, timeout_ms)
                            } else {
                                people[q]
                            }),
                        reaped@.map_values(content@) == before.map_values(content@) + tagged(
                            zombies_in(people, now_ms, timeout_ms, j as int),
                            id@,
                        ),
                    decreases m - j,
                {
                    let ghost here = self.slots@[i as int]->0;
                    assert(here.slots@[j as int] == people[j as int]);
                    let zombie: Option<String> = match &self.slots[i] {
                        Some(room) => match &room.slots[j] {
                            Some(p) => {
                                if now_ms.saturating_sub(p.last_seen) > timeout_ms {
                                    Some(p.user_id.clone())
                                } else {
                                    None
                                }
                            },
                            None => None,
                        },
                        None => None,
                    };
                    let ghost so_far = reaped@;
                    if let Some(user) = zombie {
                        proof {
                            assert(taken(here.slots@, j as int));
                            assert(names_of(self.rooms).dom().contains(id@));
                            assert(self.room(id@) == Some(here));
                            assert(here.member(user@) == here.slots@[j as int]);
                        }
                        match self.remove_participant(id.as_str(), user.as_str()) {
                            Ok(p) => {
                                reaped.push((id.clone(), p));
                                proof {
                                    assert(self.slots@[i as int]->0.slots@ == here.slots@.update(
                                        j as int,
                                        None,
                                    ));
                                    assert(tagged(
                                        zombies_in(people, now_ms, timeout_ms, j + 1),
                                        id@,
                                    ) =~= tagged(
                                        zombies_in(people, now_ms, timeout_ms, j as int),
                                        id@,
                                    ).push((id@, p)));
                                    assert(reaped@.map_values(content@) =~= so_far.map_values(content@).push(
                                        (id@, p),
                                    ));
                                    lemma_one_more_gone(so_far.map_values(content@), id@, p);
                                    let before_j = zombies_in(people, now_ms, timeout_ms, j as int);
                                    assert(zombies_in(people, now_ms, timeout_ms, j + 1)
                                        == before_j.push(p));
                                    assert(before_j.push(p).drop_last() =~= before_j);
                                }
                            },
                            Err(_) => {},
                        }
                    }
                    j += 1;
                }
                proof {
                    let got = self.slots@[i as int]->0;
                    assert(got.slots@ =~= survivors(people, now_ms, timeout_ms));
                }
            }
            i += 1;
            proof {
                assert(reaped@.map_values(content@) =~= all_zombies(start, now_ms, timeout_ms, i as int));
                assert forall|k: int| #[trigger] open_at(self.slots@, k) == open_at(start, k) by {
                    assert(open_at(mid, k) == open_at(start, k));
                }
                assert forall|k: int| 0 <= k < i && #[trigger] open_at(self.slots@, k) implies room_reaped(
                    start[k]->0,
                    self.slots@[k]->0,
                    now_ms,
                    timeout_ms,
                ) by {
                    assert(open_at(mid, k));
                }
            }
        }
        reaped
    }
}

// ---------------------------------------------------------------------------
// Laws of the hub
// ---------------------------------------------------------------------------

/// A participant who was let in is found through the hub by the user fragment of
/// either connection.
pub proof fn law_hub_finds_added(a: RoomHub, b: RoomHub, id: Seq<char>, p: Participant)
    requires
        a.wf(),
        b.wf(),
        a.room(id) is Some,
        room_replaced(a, b, id),
        a.room(id)->0.member(p.user_id@) is None,
        participant_added(a.room(id)->0, b.room(id)->0, p),
        names_of(b.ufrag_index) == with_ufrags(
            names_of(a.ufrag_index),
            p,
            (a.place_of_room(id)->0 as usize, false),
        ),
        p.publish.ufrag@ != p.subscribe.ufrag@,
    ensures
        b.find_ufrag(p.publish.ufrag@) matches Some((r, i, pc)) && r == a.place_of_room(id)->0 && pc
            == PcType::Publish && b.slots@[r as int]->0.slots@[i as int] == Some(p),
        b.find_ufrag(p.subscribe.ufrag@) matches Some((r, i, pc)) && r == a.place_of_room(id)->0 && pc
            == PcType::Subscribe && b.slots@[r as int]->0.slots@[i as int] == Some(p),
{
    let slot = choose|slot: usize| #[trigger] added_at(a.room(id)->0, b.room(id)->0, p, slot);
    assert(names_of(a.rooms).dom().contains(id));
    assert(open_at(a.slots@, a.place_of_room(id)->0));
}

/// A connection that was seen at an address is found through the hub by that
/// address.
pub proof fn law_hub_finds_latched(
    a: RoomHub,
    b: RoomHub,
    room: usize,
    slot: usize,
    pc: PcType,
    addr: SocketAddress,
)
    requires
        a.wf(),
        open_at(a.slots@, room as int),
        open_at(b.slots@, room as int),
        connection_latched(a.slots@[room as int]->0, b.slots@[room as int]->0, slot, pc, addr),
        addrs_of(b.addr_index) == addrs_of(a.addr_index).insert(addr_key(addr), (room, false)),
    ensures
        b.find_addr(addr) == Some((room, slot, pc)),
{
}

/// A participant who was let go is found through the hub neither by user fragment
/// nor by address.
pub proof fn law_hub_forgets_removed(a: RoomHub, b: RoomHub, p: Participant)
    requires
        names_of(b.ufrag_index) == without_ufrags(names_of(a.ufrag_index), p),
        addrs_of(b.addr_index) == without_addrs(addrs_of(a.addr_index), p),
    ensures
        b.find_ufrag(p.publish.ufrag@) is None,
        b.find_ufrag(p.subscribe.ufrag@) is None,
        p.publish.address matches Some(x) ==> b.find_addr(x) is None,
        p.subscribe.address matches Some(x) ==> b.find_addr(x) is None,
{
}

/// Reaping finds nobody a second time.
pub proof fn law_reaping_is_complete(a: Room, b: Room, now_ms: u64, timeout_ms: u64)
    requires
        room_reaped(a, b, now_ms, timeout_ms),
    ensures
        zombies_in(b.slots@, now_ms, timeout_ms, b.slots@.len() as int).len() == 0,
{
    lemma_no_zombies(a, b, now_ms, timeout_ms, b.slots@.len() as int);
}

proof fn lemma_no_zombies(a: Room, b: Room, now_ms: u64, timeout_ms: u64, n: int)
    requires
        room_reaped(a, b, now_ms, timeout_ms),
        n <= b.slots@.len(),
    ensures
        zombies_in(b.slots@, now_ms, timeout_ms, n).len() == 0,
    decreases n,
{
    if n > 0 {
        lemma_no_zombies(a, b, now_ms, timeout_ms, n - 1);
    }
}

} // verus!
