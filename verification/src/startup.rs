//! What is done once when the server starts.

use vstd::prelude::*;

use crate::config::RoomMode;
use crate::random::is_uuid;
use crate::room::hub::{room_opened, RoomHub};
use crate::room::room::{room_grown, Room, RoomSeed};
use crate::text::{chars_of, owned, parse_uint, uint_value};

verus! {

/// The setting that a variable gives; the default where it is not set or not a
/// number that fits.
pub open spec fn setting(value: Option<Seq<char>>, max: nat, default: nat) -> nat {
    match value {
        Some(s) => match uint_value(s, max) {
            Some(v) => v,
            None => default,
        },
        None => default,
    }
}

/// A 16-bit setting.
pub fn u16_or(value: Option<&str>, default: u16) -> (r: u16)
    ensures
        r == setting(
            match value {
                Some(s) => Some(s@),
                None => None,
            },
            u16::MAX as nat,
            default as nat,
        ),
{
    match value {
        Some(s) => match parse_uint(&chars_of(s), u16::MAX as u64) {
            Some(v) => v as u16,
            None => default,
        },
        None => default,
    }
}

/// A setting of the machine's word size.
pub fn usize_or(value: Option<&str>, default: usize) -> (r: usize)
    ensures
        r == setting(
            match value {
                Some(s) => Some(s@),
                None => None,
            },
            usize::MAX as nat,
            default as nat,
        ),
{
    match value {
        Some(s) => match parse_uint(&chars_of(s), usize::MAX as u64) {
            Some(v) => v as usize,
            None => default,
        },
        None => default,
    }
}

/// How many workers there are: as many as were asked for, else as many as the
/// machine runs at a time, and one where it does not say.
pub fn resolve_worker_count(configured: usize, available: Option<usize>) -> (r: usize)
    ensures
        r == (if configured > 0 {
            configured
        } else {
            match available {
                Some(n) => n,
                None => 1,
            }
        }),
{
    if configured > 0 {
        return configured;
    }
    match available {
        Some(n) => n,
        None => 1,
    }
}

/// The rooms that there are from the start: name, capacity, mode, and whether
/// there is simulcast.
pub open spec fn default_rooms() -> Seq<(Seq<char>, usize, RoomMode, bool)> {
    seq![
        ("무전 대화방"@, 10usize, RoomMode::Ptt, false),
        ("회의실-2"@, 10usize, RoomMode::Conference, false),
        ("대회의실"@, 20usize, RoomMode::Conference, true),
    ]
}

/// Whether a room is the `i`-th of those that there are from the start.
pub open spec fn is_default_room(room: Room, seed: RoomSeed, i: int, now_ms: u64) -> bool {
    let (name, capacity, mode, simulcast) = default_rooms()[i];
    room.name@ == name && room_grown(
        room,
        seed,
        room.name,
        Some(capacity),
        mode,
        now_ms,
        simulcast,
    )
}

/// Whether the identifier of the `i`-th seed does not come up again.
pub open spec fn unique_from(seeds: Seq<RoomSeed>, i: int) -> bool {
    forall|j: int| i < j < seeds.len() ==> (#[trigger] seeds[j]).id@ != seeds[i].id@
}

/// A hub before and after the rooms were created that there are from the start,
/// from one seed each. A room whose identifier comes up again for a later one
/// gives way to it.
pub open spec fn default_rooms_opened(
    a: RoomHub,
    b: RoomHub,
    now_ms: u64,
    seeds: Seq<RoomSeed>,
) -> bool {
    &&& forall|i: int|
        0 <= i < 3 && unique_from(seeds, i) ==> b.room((#[trigger] seeds[i]).id@) is Some
            && is_default_room(b.room(seeds[i].id@)->0, seeds[i], i, now_ms)
    &&& forall|u: Seq<char>|
        u != seeds[0].id@ && u != seeds[1].id@ && u != seeds[2].id@ ==> #[trigger] b.room(u)
            == a.room(u)
    &&& b.ufrag_index == a.ufrag_index
    &&& b.addr_index == a.addr_index
}

/// `create_default_rooms` with what is random about the three rooms.
pub fn create_default_rooms_with(
    hub: &mut RoomHub,
    now_ms: u64,
    first: RoomSeed,
    second: RoomSeed,
    third: RoomSeed,
) -> (r: Vec<String>)
    requires
        old(hub).wf(),
    ensures
        final(hub).wf(),
        r@ == seq![first.id, second.id, third.id],
        default_rooms_opened(*old(hub), *final(hub), now_ms, seq![first, second, third]),
{
    let ghost seeds = seq![first, second, third];
    let a = create_room(hub, first, owned("무전 대화방"), 10, RoomMode::Ptt, now_ms, false);
    let b = create_room(hub, second, owned("회의실-2"), 10, RoomMode::Conference, now_ms, false);
    let c = create_room(hub, third, owned("대회의실"), 20, RoomMode::Conference, now_ms, true);
    proof {
        assert(seeds[0] == first && seeds[1] == second && seeds[2] == third);
        assert(unique_from(seeds, 0) ==> seeds[1].id@ != seeds[0].id@ && seeds[2].id@
            != seeds[0].id@);
        assert(unique_from(seeds, 1) ==> seeds[2].id@ != seeds[1].id@);
    }
    let mut ids: Vec<String> = Vec::new();
    ids.push(a);
    ids.push(b);
    ids.push(c);
    assert(ids@ =~= seq![first.id, second.id, third.id]);
    ids
}

/// Creates the rooms that there are from the start. Their identifiers are
/// returned; nothing where the system has no random numbers to give.
pub fn create_default_rooms(hub: &mut RoomHub, now_ms: u64) -> (r: Option<Vec<String>>)
    requires
        old(hub).wf(),
    ensures
        final(hub).wf(),
        match r {
            Some(ids) => exists|first: RoomSeed, second: RoomSeed, third: RoomSeed|
                {
                    &&& is_uuid(first.id@) && is_uuid(second.id@) && is_uuid(third.id@)
                    &&& ids@ == seq![first.id, second.id, third.id]
                    &&& default_rooms_opened(
                        *old(hub),
                        *final(hub),
                        now_ms,
                        #[trigger] seq![first, second, third],
                    )
                },
            None => *final(hub) == *old(hub),
        },
{
    match (RoomSeed::fresh(), RoomSeed::fresh(), RoomSeed::fresh()) {
        (Some(first), Some(second), Some(third)) => Some(
            create_default_rooms_with(hub, now_ms, first, second, third),
        ),
        _ => None,
    }
}

fn create_room(
    hub: &mut RoomHub,
    seed: RoomSeed,
    name: String,
    capacity: usize,
    mode: RoomMode,
    now_ms: u64,
    simulcast: bool,
) -> (r: String)
    requires
        old(hub).wf(),
    ensures
        final(hub).wf(),
        r == seed.id,
        final(hub).room(seed.id@) is Some,
        room_opened(
            *old(hub),
            *final(hub),
            final(hub).room(seed.id@)->0,
            seed,
            name,
            Some(capacity),
            mode,
            now_ms,
            simulcast,
        ),
{
    let id = seed.id.clone();
    hub.create_with(seed, name, Some(capacity), mode, now_ms, simulcast);
    id
}

} // verus!
