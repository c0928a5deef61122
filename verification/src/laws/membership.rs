//! Laws of rooms and members: who is let in, what they are told, who is let go, and
//! what is left behind.

use vstd::prelude::*;

use crate::config::RoomMode;
use crate::error::LightError;
use crate::laws::wording::law_digit;
use crate::room::hub::{
    addrs_without, all_zombies, hub_reaped, names_without, open_at, room_reaped, ufrags_without,
    without_all_addrs, without_all_ufrags, zombies_in, RoomHub,
};
use crate::room::index::{addrs_of, names_of, Place};
use crate::room::participant::{layers_of, Layer, Participant, Track, TrackKind};
use crate::room::room::{other_places, places, room_grown, taken, user_ids, Room, RoomSeed};
use crate::signaling::effect::{effects_of, EffectView};
use crate::signaling::handler::admin::{open_rooms, present, shows_room, RoomSnapshot};
use crate::signaling::handler::floor_ops::{timers_done, times_fit_room, FloorTimes};
use crate::signaling::handler::helpers::{
    layers_purged, others_tracks, shown_tracks, without_publisher,
};
use crate::signaling::handler::room_ops::{
    chat_effects, departure, guest_name, join_refusal, join_view, joined_session, message_posted,
    receivable, room_infos, to_others, to_room, wanted_mode, Outcome, ServerInfo,
};
use crate::signaling::message::{
    MessageRequest, PacketView, PayloadView, RoomCreateRequest, RoomModeField,
};
use crate::signaling::session::{is_request, whereabouts, SessionView};
use crate::startup::{default_rooms, default_rooms_opened, setting};
use crate::tasks::{hub_purged, layers_without, place_ticked, reaped_effects, FloorTick};
use crate::text::digit;
use crate::transport::addr::{addr_key, AddrKey, SocketAddress};
use crate::transport::ice::IceCredentials;

verus! {

// ---------------------------------------------------------------------------
// Rooms
// ---------------------------------------------------------------------------

/// A new room has the capacity that was asked for, but 1000 at most, which is also
/// what it has where none was asked for; a push-to-talk room has no simulcast. It is
/// empty, and nobody has the floor.
pub proof fn law_new_room(
    r: Room,
    seed: RoomSeed,
    name: String,
    capacity: Option<usize>,
    mode: RoomMode,
    created_at: u64,
    simulcast: bool,
)
    requires
        room_grown(r, seed, name, capacity, mode, created_at, simulcast),
    ensures
        capacity matches Some(c) ==> c <= 1000 ==> r.capacity == c,
        capacity matches Some(c) ==> c > 1000 ==> r.capacity == 1000,
        capacity is None ==> r.capacity == 1000,
        mode == RoomMode::Ptt ==> !r.simulcast_enabled,
        mode != RoomMode::Ptt ==> r.simulcast_enabled == simulcast,
        r.mode == mode && r.name == name && r.id == seed.id && r.created_at == created_at,
        r.audio_rewriter@.ssrc == seed.audio_ssrc && r.video_rewriter@.ssrc == seed.video_ssrc,
        !r.audio_rewriter@.video && r.video_rewriter@.video,
        r.audio_rewriter@.speaker is None && r.video_rewriter@.speaker is None,
        r.audio_rewriter@.guard_gap == 960 && r.video_rewriter@.guard_gap == 3000,
        r.audio_rewriter@.last_seq == 0 && r.video_rewriter@.last_seq == 0,
        r.active_since == 0,
        r.slots@.len() == 0,
        r.floor@.burst is None && r.floor@.queue.len() == 0 && r.floor@.prev_speaker is None,
{
}

/// A room is a conference unless it is asked for push-to-talk.
pub proof fn law_mode_of_room(req: RoomCreateRequest)
    ensures
        wanted_mode(req) == RoomMode::Ptt <==> req.mode == Some(RoomModeField::Ptt),
        wanted_mode(req) == RoomMode::Conference <==> req.mode != Some(RoomModeField::Ptt),
{
    if let Some(m) = req.mode {
        assert(m == RoomModeField::Ptt || m == RoomModeField::Conference);
    }
}

/// The list of rooms has each room once, in the order of their places, with its own
/// name, capacity, mode and number of members.
pub proof fn law_rooms_are_listed(slots: Seq<Option<Room>>, n: int)
    requires
        0 < n <= slots.len(),
    ensures
        ({
            let before = room_infos(slots, n - 1);
            let all = room_infos(slots, n);
            let r = slots[n - 1]->0;
            if slots[n - 1] is None {
                all == before
            } else {
                &&& all.len() == before.len() + 1
                &&& all.drop_last() == before
                &&& all.last().room_id == r.id@ && all.last().name == r.name@
                &&& all.last().capacity == r.capacity && all.last().mode == r.mode
                &&& all.last().participants == names_of(r.participants).dom().len()
            }
        }),
        room_infos(slots, 0).len() == 0,
        open_rooms(slots, n) == (if slots[n - 1] is Some {
            open_rooms(slots, n - 1).push(slots[n - 1]->0)
        } else {
            open_rooms(slots, n - 1)
        }),
        open_rooms(slots, 0).len() == 0,
{
    let before = room_infos(slots, n - 1);
    let all = room_infos(slots, n);
    assert(all.len() > before.len() ==> all.drop_last() =~= before);
}

/// The lists of members have each member once, in the order of their places; that of
/// the others leaves one out.
pub proof fn law_members_are_listed(slots: Seq<Option<Participant>>, user: Seq<char>, n: int)
    requires
        0 < n <= slots.len(),
    ensures
        ({
            let p = slots[n - 1]->0;
            let there = slots[n - 1] is Some;
            &&& user_ids(slots, n) == (if there {
                user_ids(slots, n - 1).push(p.user_id@)
            } else {
                user_ids(slots, n - 1)
            })
            &&& places(slots, n) == (if there {
                places(slots, n - 1).push((n - 1) as usize)
            } else {
                places(slots, n - 1)
            })
            &&& other_places(slots, user, n) == (if there && p.user_id@ != user {
                other_places(slots, user, n - 1).push((n - 1) as usize)
            } else {
                other_places(slots, user, n - 1)
            })
            &&& present(slots, n) == (if there {
                present(slots, n - 1).push(p)
            } else {
                present(slots, n - 1)
            })
        }),
        user_ids(slots, 0).len() == 0 && places(slots, 0).len() == 0,
        other_places(slots, user, 0).len() == 0 && present(slots, 0).len() == 0,
{
}

/// The rooms that there are from the start.
pub proof fn law_default_rooms()
    ensures
        default_rooms().len() == 3,
        default_rooms()[0].0 == "무전 대화방"@,
        default_rooms()[1].0 == "회의실-2"@,
        default_rooms()[2].0 == "대회의실"@,
        default_rooms()[0].2 == RoomMode::Ptt && default_rooms()[0].1 == 10,
        default_rooms()[1].2 == RoomMode::Conference && default_rooms()[1].1 == 10,
        default_rooms()[2].2 == RoomMode::Conference && default_rooms()[2].1 == 20,
        !default_rooms()[0].3 && !default_rooms()[1].3 && default_rooms()[2].3,
{
}

// ---------------------------------------------------------------------------
// Joining
// ---------------------------------------------------------------------------

/// A name for whoever gives none: a letter and three digits, which are the number
/// they are drawn from, modulo 1000.
pub proof fn law_guest_name(n: u16)
    ensures
        ({
            let s = guest_name(n);
            &&& s.len() == 4
            &&& s[0] == 'U'
            &&& 48 <= s[1] as u32 <= 57 && 48 <= s[2] as u32 <= 57 && 48 <= s[3] as u32 <= 57
            &&& (s[1] as u32 - 48) * 100 + (s[2] as u32 - 48) * 10 + (s[3] as u32 - 48) == n
                % 1000
        }),
{
    let k = (n % 1000) as int;
    let (a, b, c) = (k / 100, k / 10 % 10, k % 10);
    law_digit(a);
    law_digit(b);
    law_digit(c);
    assert(k == a * 100 + b * 10 + c);
    let s = guest_name(n);
    assert(s[1] == digit(a) && s[2] == digit(b) && s[3] == digit(c));
}

/// A room is full where it has as many members as its capacity, and then nobody is
/// let in; otherwise everybody is who is not there yet.
pub proof fn law_who_is_let_in(room: Room, user: Seq<char>)
    ensures
        names_of(room.participants).dom().len() >= room.capacity ==> join_refusal(room, user)
            == Some(LightError::RoomFull),
        names_of(room.participants).dom().len() < room.capacity && room.member(user) is Some
            ==> join_refusal(room, user) == Some(LightError::AlreadyInRoom),
        join_refusal(room, user) is None <==> names_of(room.participants).dom().len()
            < room.capacity && room.member(user) is None,
{
}

/// What whoever joins is told: who is there, the credentials of each of their two
/// connections, where the server is, and in a push-to-talk room the SSRCs of its
/// streams and who speaks.
pub proof fn law_joining_is_told(
    room: Room,
    user: Seq<char>,
    server: ServerInfo,
    pub_ice: IceCredentials,
    sub_ice: IceCredentials,
)
    ensures
        ({
            let v = join_view(room, user, server, pub_ice, sub_ice);
            &&& v.room_id == room.id@ && v.mode == room.mode && v.simulcast
                == room.simulcast_enabled
            &&& v.participants == user_ids(room.slots@, room.slots@.len() as int)
            &&& v.publish_ufrag == pub_ice.ufrag@ && v.publish_pwd == pub_ice.pwd@
            &&& v.subscribe_ufrag == sub_ice.ufrag@ && v.subscribe_pwd == sub_ice.pwd@
            &&& v.ip == server.public_ip@ && v.port == server.udp_port
            &&& v.fingerprint == server.fingerprint@
            &&& v.max_bitrate_bps == server.max_bitrate_bps
            &&& v.tracks == others_tracks(
                room.slots@,
                room.simulcast_enabled,
                user,
                room.slots@.len() as int,
            )
            &&& v.ptt is Some <==> room.mode == RoomMode::Ptt
            &&& v.ptt matches Some(x) ==> {
                &&& x.audio_ssrc == room.audio_rewriter@.ssrc
                &&& x.video_ssrc == room.video_rewriter@.ssrc
                &&& x.speaker is Some <==> room.floor@.burst is Some
                &&& room.floor@.burst matches Some(b) ==> x.speaker == Some(b.speaker)
            }
        }),
{
}

/// A session that has joined knows its room and both its user fragments, and keeps
/// all else.
pub proof fn law_joined_session(
    s: SessionView,
    id: Seq<char>,
    pub_ice: IceCredentials,
    sub_ice: IceCredentials,
)
    ensures
        ({
            let t = joined_session(s, id, pub_ice, sub_ice);
            &&& t.current_room == Some(id)
            &&& t.pub_ufrag == Some(pub_ice.ufrag@)
            &&& t.sub_ufrag == Some(sub_ice.ufrag@)
            &&& t.user_id == s.user_id && t.server_pid == s.server_pid && t.ack_miss == s.ack_miss
            &&& whereabouts(t) is Some <==> s.user_id is Some
            &&& s.user_id matches Some(u) ==> whereabouts(t) == Some((id, u))
        }),
{
}

/// What a member of a room may receive: the tracks of the others, or in a
/// push-to-talk room its two streams.
pub proof fn law_receivable(room: Room, user: Seq<char>)
    ensures
        room.mode != RoomMode::Ptt ==> receivable(room, user) == others_tracks(
            room.slots@,
            room.simulcast_enabled,
            user,
            room.slots@.len() as int,
        ),
        room.mode == RoomMode::Ptt ==> {
            let d = receivable(room, user);
            &&& d.len() == 2
            &&& d[0].kind == TrackKind::Audio && d[0].ssrc == room.audio_rewriter@.ssrc
            &&& d[1].kind == TrackKind::Video && d[1].ssrc == room.video_rewriter@.ssrc
            &&& d[0].track_id == "ptt-audio"@ && d[1].track_id == "ptt-video"@
            &&& d[0].is_virtual && d[1].is_virtual
            &&& d[0].user_id is None && d[1].user_id is None
            &&& d[0].rtx_ssrc is None && d[1].rtx_ssrc is None
        },
{
}

/// A message goes to all others in its room, and to nobody where there is no such
/// room.
pub proof fn law_message_is_told(hub: RoomHub, id: Seq<char>, user: Seq<char>, content: Seq<char>)
    ensures
        hub.room(id) is None ==> chat_effects(hub, id, user, content).len() == 0,
        hub.room(id) is Some ==> chat_effects(hub, id, user, content) == seq![
            EffectView::ToOthers {
                exclude: user,
                packet: PacketView {
                    op: 103,
                    pid: 0,
                    ok: None,
                    d: PayloadView::Chat { room_id: id, user_id: user, content },
                },
            },
        ],
{
}

// ---------------------------------------------------------------------------
// Leaving
// ---------------------------------------------------------------------------

/// What is told of somebody who has left: first that their tracks are gone, as they
/// were shown, if there were any, then that they have left.
pub proof fn law_departure_is_told(
    id: Seq<char>,
    user: Seq<char>,
    tracks: Seq<Track>,
    simulcast: bool,
    vssrc: u32,
)
    ensures
        ({
            let shown = shown_tracks(user, tracks, simulcast, vssrc, tracks.len() as int);
            let d = departure(id, user, tracks, simulcast, vssrc);
            let left = PacketView {
                op: 100,
                pid: 0,
                ok: None,
                d: PayloadView::Event {
                    event_type: "participant_left"@,
                    room_id: id,
                    user_id: Some(user),
                },
            };
            &&& shown.len() == 0 ==> d == seq![left]
            &&& shown.len() > 0 ==> d == seq![
                PacketView {
                    op: 101,
                    pid: 0,
                    ok: None,
                    d: PayloadView::TracksRemoved { tracks: shown },
                },
                left,
            ]
        }),
{
}

/// Events go to all, or to all but one, each as it is and in order.
pub proof fn law_events_go_out(ps: Seq<PacketView>, user: Seq<char>, i: int)
    requires
        0 <= i < ps.len(),
    ensures
        to_room(ps).len() == ps.len() && to_others(ps, user).len() == ps.len(),
        to_room(ps)[i] == (EffectView::ToRoom { packet: ps[i] }),
        to_others(ps, user)[i] == (EffectView::ToOthers { exclude: user, packet: ps[i] }),
{
}

/// Somebody who was let go is asked for no more key frames, and all in their room
/// are told that they left.
pub proof fn law_reaped_is_told(room: Option<Room>, id: Seq<char>, p: Participant)
    ensures
        ({
            let e = reaped_effects(room, id, p);
            &&& e.len() > 0 && e[0] == (EffectView::CancelPli { user_id: p.user_id@ })
            &&& room is None ==> e.len() == 1
            &&& room matches Some(x) ==> e.subrange(1, e.len() as int) == to_room(
                departure(id, p.user_id@, p.tracks@, x.simulcast_enabled, p.simulcast_video_ssrc),
            )
        }),
{
    let e = reaped_effects(room, id, p);
    if let Some(x) = room {
        assert(e.subrange(1, e.len() as int) =~= to_room(
            departure(id, p.user_id@, p.tracks@, x.simulcast_enabled, p.simulcast_video_ssrc),
        ));
    }
}

/// Who is let go: exactly those who were last seen longer ago than the timeout. All
/// others keep their places.
pub proof fn law_who_is_let_go(a: Room, b: Room, now_ms: u64, timeout_ms: u64, i: int)
    requires
        room_reaped(a, b, now_ms, timeout_ms),
        0 <= i < a.slots@.len(),
        a.slots@[i] is Some,
    ensures
        b.slots@.len() == a.slots@.len(),
        now_ms - a.slots@[i]->0.last_seen > timeout_ms ==> b.slots@[i] is None,
        now_ms - a.slots@[i]->0.last_seen <= timeout_ms ==> b.slots@[i] == a.slots@[i],
        b.floor == a.floor && b.mode == a.mode && b.id == a.id,
{
}

/// The list of those who are let go has each of them once, in the order of their
/// places, and nobody else; that of all rooms has them room by room, each with the
/// identifier of the room.
pub proof fn law_let_go_are_listed(
    slots: Seq<Option<Participant>>,
    rooms: Seq<Option<Room>>,
    now_ms: u64,
    timeout_ms: u64,
    n: int,
)
    requires
        0 < n,
    ensures
        n <= slots.len() ==> zombies_in(slots, now_ms, timeout_ms, n) == (if slots[n - 1] is Some
            && now_ms - slots[n - 1]->0.last_seen > timeout_ms {
            zombies_in(slots, now_ms, timeout_ms, n - 1).push(slots[n - 1]->0)
        } else {
            zombies_in(slots, now_ms, timeout_ms, n - 1)
        }),
        zombies_in(slots, now_ms, timeout_ms, 0).len() == 0,
        all_zombies(rooms, now_ms, timeout_ms, 0).len() == 0,
        n <= rooms.len() && rooms[n - 1] is None ==> all_zombies(rooms, now_ms, timeout_ms, n)
            == all_zombies(rooms, now_ms, timeout_ms, n - 1),
        n <= rooms.len() && rooms[n - 1] is Some ==> {
            let before = all_zombies(rooms, now_ms, timeout_ms, n - 1);
            let here = zombies_in(
                rooms[n - 1]->0.slots@,
                now_ms,
                timeout_ms,
                rooms[n - 1]->0.slots@.len() as int,
            );
            let all = all_zombies(rooms, now_ms, timeout_ms, n);
            &&& all.len() == before.len() + here.len()
            &&& all.take(before.len() as int) == before
            &&& forall|k: int|
                0 <= k < here.len() ==> #[trigger] all[before.len() + k] == (
                    rooms[n - 1]->0.id@,
                    here[k],
                )
        },
{
    if n <= rooms.len() && rooms[n - 1] is Some {
        let before = all_zombies(rooms, now_ms, timeout_ms, n - 1);
        assert(all_zombies(rooms, now_ms, timeout_ms, n).take(before.len() as int) =~= before);
    }
}

/// Whether somebody has a user fragment.
pub open spec fn has_ufrag(p: Participant, u: Seq<char>) -> bool {
    p.publish.ufrag@ == u || p.subscribe.ufrag@ == u
}

/// Whether somebody was seen at an address.
pub open spec fn was_at(p: Participant, k: AddrKey) -> bool {
    (p.publish.address is Some && addr_key(p.publish.address->0) == k) || (
    p.subscribe.address is Some && addr_key(p.subscribe.address->0) == k)
}

/// Nothing leads to those who were let go: their names, user fragments and addresses
/// are gone from the indices. All other entries stay.
pub proof fn law_nothing_leads_to_them(
    names: Map<Seq<char>, Place>,
    ufrags: Map<Seq<char>, Place>,
    addrs: Map<AddrKey, Place>,
    gone: Seq<Participant>,
    u: Seq<char>,
    k: AddrKey,
)
    ensures
        ({
            let m = names_without(names, gone);
            let named = exists|i: int| 0 <= i < gone.len() && (#[trigger] gone[i]).user_id@ == u;
            m.dom().contains(u) == (names.dom().contains(u) && !named) && (m.dom().contains(u)
                ==> m[u] == names[u])
        }),
        ({
            let m = ufrags_without(ufrags, gone);
            let used = exists|i: int| 0 <= i < gone.len() && has_ufrag(#[trigger] gone[i], u);
            m.dom().contains(u) == (ufrags.dom().contains(u) && !used) && (m.dom().contains(u)
                ==> m[u] == ufrags[u])
        }),
        ({
            let m = addrs_without(addrs, gone);
            let used = exists|i: int| 0 <= i < gone.len() && was_at(#[trigger] gone[i], k);
            m.dom().contains(k) == (addrs.dom().contains(k) && !used) && (m.dom().contains(k)
                ==> m[k] == addrs[k])
        }),
    decreases gone.len(),
{
    if gone.len() > 0 {
        let rest = gone.drop_last();
        let n = gone.len() - 1;
        law_nothing_leads_to_them(names, ufrags, addrs, rest, u, k);
        assert forall|i: int| 0 <= i < rest.len() implies #[trigger] rest[i] == gone[i] by {}
        assert(gone[n] == gone.last());
        if exists|i: int| 0 <= i < rest.len() && (#[trigger] rest[i]).user_id@ == u {
            let i = choose|i: int| 0 <= i < rest.len() && (#[trigger] rest[i]).user_id@ == u;
            assert(gone[i].user_id@ == u);
        }
        if exists|i: int| 0 <= i < gone.len() && (#[trigger] gone[i]).user_id@ == u {
            let i = choose|i: int| 0 <= i < gone.len() && (#[trigger] gone[i]).user_id@ == u;
            if i < n {
                assert(rest[i].user_id@ == u);
            }
        }
        if exists|i: int| 0 <= i < rest.len() && has_ufrag(#[trigger] rest[i], u) {
            let i = choose|i: int| 0 <= i < rest.len() && has_ufrag(#[trigger] rest[i], u);
            assert(has_ufrag(gone[i], u));
        }
        if exists|i: int| 0 <= i < gone.len() && has_ufrag(#[trigger] gone[i], u) {
            let i = choose|i: int| 0 <= i < gone.len() && has_ufrag(#[trigger] gone[i], u);
            if i < n {
                assert(has_ufrag(rest[i], u));
            }
        }
        if exists|i: int| 0 <= i < rest.len() && was_at(#[trigger] rest[i], k) {
            let i = choose|i: int| 0 <= i < rest.len() && was_at(#[trigger] rest[i], k);
            assert(was_at(gone[i], k));
        }
        if exists|i: int| 0 <= i < gone.len() && was_at(#[trigger] gone[i], k) {
            let i = choose|i: int| 0 <= i < gone.len() && was_at(#[trigger] gone[i], k);
            if i < n {
                assert(was_at(rest[i], k));
            }
        }
    }
}

/// Whoever stays in a room drops their choices of those who were let go from it,
/// one after the other, and no others.
pub proof fn law_choices_of_reaped(
    layers: Seq<Layer>,
    own: Seq<char>,
    id: Seq<char>,
    gone: Seq<(Seq<char>, Participant)>,
    n: int,
)
    requires
        0 < n <= gone.len(),
    ensures
        layers_without(layers, own, id, gone, 0) == layers,
        gone[n - 1].0 == id && gone[n - 1].1.user_id@ != own ==> layers_without(
            layers,
            own,
            id,
            gone,
            n,
        ) == without_publisher(
            layers_without(layers, own, id, gone, n - 1),
            gone[n - 1].1.user_id@,
        ),
        gone[n - 1].0 != id || gone[n - 1].1.user_id@ == own ==> layers_without(
            layers,
            own,
            id,
            gone,
            n,
        ) == layers_without(layers, own, id, gone, n - 1),
{
}

// ---------------------------------------------------------------------------
// Sessions and addresses
// ---------------------------------------------------------------------------

/// The requests of clients, by number.
pub proof fn law_requests(op: u16)
    ensures
        is_request(op) <==> op == 1 || op == 3 || 9 <= op <= 12 || 15 <= op <= 18 || op == 20 || op
            == 30 || 40 <= op <= 43 || op == 50 || op == 51,
{
}

/// Two connections are told apart by their addresses: no two have one key.
pub proof fn law_addresses_are_told_apart(a: SocketAddress, b: SocketAddress)
    ensures
        addr_key(a) == addr_key(b) <==> a == b,
{
}

/// A setting is what it denotes, or the default where it is absent or denotes no
/// number in range.
pub proof fn law_settings(value: Option<Seq<char>>, max: nat, default: nat)
    ensures
        value is None ==> setting(value, max, default) == default,
        value matches Some(s) ==> crate::text::uint_value(s, max) is None ==> setting(
            value,
            max,
            default,
        ) == default,
        value matches Some(s) ==> crate::text::uint_value(s, max) matches Some(v) ==> setting(
            value,
            max,
            default,
        ) == v,
{
}

// ---------------------------------------------------------------------------
// What stays
// ---------------------------------------------------------------------------

/// What a room keeps when only its members change.
pub proof fn law_settings_stay(a: Room, b: Room)
    requires
        b.same_settings(a),
    ensures
        b.id == a.id && b.name == a.name && b.capacity == a.capacity && b.mode == a.mode,
        b.created_at == a.created_at && b.simulcast_enabled == a.simulcast_enabled,
        b.floor == a.floor && b.audio_rewriter == a.audio_rewriter && b.video_rewriter
            == a.video_rewriter,
{
}

/// When somebody leaves, only the choices of the others change, each by the one of whom
/// has left.
pub proof fn law_leaving_changes_choices(a: Room, b: Room, user: Seq<char>, i: int)
    requires
        layers_purged(a, b, user, a.slots@.len() as int),
        taken(a.slots@, i),
    ensures
        taken(b.slots@, i),
        a.slots@[i]->0.user_id@ == user ==> b.slots@[i] == a.slots@[i],
        a.slots@[i]->0.user_id@ != user ==> layers_of(b.slots@[i]->0.subscribe_layers@)
            == without_publisher(layers_of(a.slots@[i]->0.subscribe_layers@), user),
        b.slots@[i]->0 == (Participant {
            subscribe_layers: b.slots@[i]->0.subscribe_layers,
            ..a.slots@[i]->0
        }),
        b.floor == a.floor && b.mode == a.mode && b.participants == a.participants,
{
    assert(taken(b.slots@, i));
}

/// The same when several are let go at once: each room drops the choices of its own.
pub proof fn law_reaping_changes_choices(
    a: RoomHub,
    b: RoomHub,
    gone: Seq<(Seq<char>, Participant)>,
    n: int,
    r: int,
    i: int,
)
    requires
        hub_purged(a, b, gone, n),
        open_at(a.slots@, r),
        taken(a.slots@[r]->0.slots@, i),
    ensures
        open_at(b.slots@, r),
        taken(b.slots@[r]->0.slots@, i),
        ({
            let p = a.slots@[r]->0.slots@[i]->0;
            let q = b.slots@[r]->0.slots@[i]->0;
            &&& q == (Participant { subscribe_layers: q.subscribe_layers, ..p })
            &&& layers_of(q.subscribe_layers@) == layers_without(
                layers_of(p.subscribe_layers@),
                p.user_id@,
                a.slots@[r]->0.id@,
                gone,
                n,
            )
        }),
        b.slots@[r]->0.floor == a.slots@[r]->0.floor,
        b.slots@.len() == a.slots@.len(),
{
    assert(open_at(b.slots@, r));
    assert(taken(b.slots@[r]->0.slots@, i));
}

/// Reaping goes through all rooms, and no room is opened or closed by it; the members who
/// were let go are out of the indices of the hub.
pub proof fn law_all_rooms_are_reaped(
    a: RoomHub,
    b: RoomHub,
    now_ms: u64,
    timeout_ms: u64,
    r: int,
)
    requires
        hub_reaped(a, b, now_ms, timeout_ms),
        open_at(a.slots@, r),
    ensures
        open_at(b.slots@, r),
        room_reaped(a.slots@[r]->0, b.slots@[r]->0, now_ms, timeout_ms),
        b.slots@.len() == a.slots@.len(),
        names_of(b.rooms) == names_of(a.rooms),
        ({
            let gone = crate::room::hub::untagged(
                all_zombies(a.slots@, now_ms, timeout_ms, a.slots@.len() as int),
            );
            &&& names_of(b.ufrag_index) == ufrags_without(names_of(a.ufrag_index), gone)
            &&& addrs_of(b.addr_index) == addrs_without(addrs_of(a.addr_index), gone)
        }),
{
    assert(open_at(b.slots@, r));
}

/// Timers run in push-to-talk rooms alone.
pub proof fn law_timers_run_in_ptt(a: Option<Room>, b: Option<Room>, now_ms: u64, r: FloorTick)
    requires
        place_ticked(a, b, now_ms, r),
    ensures
        a is None ==> b is None && r.effects@.len() == 0,
        a matches Some(x) ==> x.mode != RoomMode::Ptt ==> b == a && r.effects@.len() == 0
            && r.counts.revoked == 0 && r.counts.granted == 0,
        a matches Some(x) ==> x.mode == RoomMode::Ptt ==> b is Some && exists|t: FloorTimes|
            #[trigger] timers_done(x, b->0, now_ms, t, (r.effects, r.counts)),
{
    if a is Some && a->0.mode == RoomMode::Ptt {
        let t = choose|t: FloorTimes|
            times_fit_room(a, t) && #[trigger] timers_done(
                a->0,
                b->0,
                now_ms,
                t,
                (r.effects, r.counts),
            );
        assert(timers_done(a->0, b->0, now_ms, t, (r.effects, r.counts)));
    }
}

/// A view of a room shows the room, each member in the order of their places and each of
/// their tracks; of a push-to-talk room also who speaks and the SSRCs of its streams.
pub proof fn law_snapshot(s: RoomSnapshot, r: Room, i: int, k: int)
    requires
        shows_room(s, r),
    ensures
        s.room_id@ == r.id@ && s.name@ == r.name@ && s.capacity == r.capacity && s.mode == r.mode,
        s.simulcast == r.simulcast_enabled && s.created_at == r.created_at,
        s.participants@.len() == present(r.slots@, r.slots@.len() as int).len(),
        0 <= i < s.participants@.len() ==> {
            let p = present(r.slots@, r.slots@.len() as int)[i];
            let v = s.participants@[i];
            &&& v.user_id@ == p.user_id@ && v.joined_at == p.joined_at
            &&& v.pub_ready == (p.publish.inbound_srtp@ is Some)
            &&& v.sub_ready == (p.subscribe.inbound_srtp@ is Some)
            &&& v.tracks@.len() == p.tracks@.len()
            &&& 0 <= k < p.tracks@.len() ==> {
                let t = v.tracks@[k];
                let u = p.tracks@[k];
                &&& t.kind == u.kind && t.ssrc == u.ssrc && t.track_id@ == u.track_id@
                &&& t.muted == u.muted && t.rtx_ssrc == u.rtx_ssrc
            }
        },
        s.ptt is Some <==> r.mode == RoomMode::Ptt,
        s.ptt matches Some(x) ==> {
            &&& x.floor_speaker is Some <==> r.floor@.burst is Some
            &&& r.floor@.burst is Some ==> x.floor_speaker->0@ == r.floor@.burst->0.speaker
            &&& x.audio_virtual_ssrc@ == crate::text::hex_text(r.audio_rewriter@.ssrc)
            &&& x.video_virtual_ssrc@ == crate::text::hex_text(r.video_rewriter@.ssrc)
        },
{
    let ps = present(r.slots@, r.slots@.len() as int);
    if 0 <= i < s.participants@.len() {
        assert(crate::signaling::handler::admin::shows_participant(s.participants@[i], ps[i]));
        if 0 <= k < ps[i].tracks@.len() {
            assert(crate::signaling::handler::admin::shows_track(
                s.participants@[i].tracks@[k],
                ps[i].tracks@[k],
            ));
        }
    }
}

/// Credentials that are drawn: four letters and twenty-two, all of them small letters or
/// digits.
pub proof fn law_drawn_credentials(c: IceCredentials, i: int)
    requires
        c.drawn(),
    ensures
        c.ufrag@.len() == 4 && c.pwd@.len() == 22,
        0 <= i < 4 ==> 48 <= c.ufrag@[i] as u32 <= 57 || 97 <= c.ufrag@[i] as u32 <= 122,
        0 <= i < 22 ==> 48 <= c.pwd@[i] as u32 <= 57 || 97 <= c.pwd@[i] as u32 <= 122,
{
}

/// The rooms that there are from the start are opened with their own names, capacities
/// and modes, and no other room changes.
pub proof fn law_default_rooms_are_opened(
    a: RoomHub,
    b: RoomHub,
    now_ms: u64,
    seeds: Seq<RoomSeed>,
    i: int,
    other: Seq<char>,
)
    requires
        seeds.len() == 3,
        default_rooms_opened(a, b, now_ms, seeds),
        0 <= i < 3,
        forall|j: int| i < j < 3 ==> (#[trigger] seeds[j]).id@ != seeds[i].id@,
    ensures
        b.room(seeds[i].id@) is Some,
        ({
            let r = b.room(seeds[i].id@)->0;
            &&& r.mode == (if i == 0 { RoomMode::Ptt } else { RoomMode::Conference })
            &&& r.capacity == (if i == 2 { 20usize } else { 10 })
            &&& r.simulcast_enabled == (i == 2)
            &&& r.name@ == default_rooms()[i].0
            &&& r.created_at == now_ms
            &&& r.slots@.len() == 0
            &&& r.audio_rewriter@.ssrc == seeds[i].audio_ssrc
            &&& r.video_rewriter@.ssrc == seeds[i].video_ssrc
        }),
        other != seeds[0].id@ && other != seeds[1].id@ && other != seeds[2].id@ ==> b.room(other)
            == a.room(other),
{
    assert(crate::startup::unique_from(seeds, i));
    assert(crate::startup::is_default_room(b.room(seeds[i].id@)->0, seeds[i], i, now_ms));
}

/// A message is answered with its identifier, and told as it is.
pub proof fn law_message_is_posted(
    hub: RoomHub,
    user: Seq<char>,
    pid: u64,
    req: MessageRequest,
    msg_id: Seq<char>,
    o: Outcome,
)
    requires
        message_posted(hub, user, pid, req, msg_id, o),
    ensures
        o.reply@ == (PacketView { op: 20, pid, ok: Some(true), d: PayloadView::Posted { msg_id } }),
        effects_of(o.effects@) == chat_effects(hub, req.room_id@, user, req.content@),
{
}

/// When a room is closed, nothing in the indices of the hub leads to its members.
pub proof fn law_closing_forgets(
    ufrags: Map<Seq<char>, Place>,
    addrs: Map<AddrKey, Place>,
    slots: Seq<Option<Participant>>,
    n: int,
    i: int,
    u: Seq<char>,
    k: AddrKey,
)
    requires
        0 <= i < n <= slots.len(),
        slots[i] is Some,
    ensures
        has_ufrag(slots[i]->0, u) ==> !without_all_ufrags(ufrags, slots, n).dom().contains(u),
        was_at(slots[i]->0, k) ==> !without_all_addrs(addrs, slots, n).dom().contains(k),
        (forall|j: int|
            0 <= j < n && (#[trigger] slots[j]) is Some ==> !has_ufrag(slots[j]->0, u)) ==> (
        without_all_ufrags(ufrags, slots, n).dom().contains(u) <==> ufrags.dom().contains(u)),
        (forall|j: int|
            0 <= j < n && (#[trigger] slots[j]) is Some ==> !was_at(slots[j]->0, k)) ==> (
        without_all_addrs(addrs, slots, n).dom().contains(k) <==> addrs.dom().contains(k)),
    decreases n,
{
    lemma_closing_keeps(ufrags, addrs, slots, n, u, k);
    if i < n - 1 {
        law_closing_forgets(ufrags, addrs, slots, n - 1, i, u, k);
    }
}

proof fn lemma_closing_keeps(
    ufrags: Map<Seq<char>, Place>,
    addrs: Map<AddrKey, Place>,
    slots: Seq<Option<Participant>>,
    n: int,
    u: Seq<char>,
    k: AddrKey,
)
    requires
        0 <= n <= slots.len(),
    ensures
        (forall|j: int|
            0 <= j < n && (#[trigger] slots[j]) is Some ==> !has_ufrag(slots[j]->0, u)) ==> (
        without_all_ufrags(ufrags, slots, n).dom().contains(u) <==> ufrags.dom().contains(u)),
        (forall|j: int|
            0 <= j < n && (#[trigger] slots[j]) is Some ==> !was_at(slots[j]->0, k)) ==> (
        without_all_addrs(addrs, slots, n).dom().contains(k) <==> addrs.dom().contains(k)),
    decreases n,
{
    if n > 0 {
        lemma_closing_keeps(ufrags, addrs, slots, n - 1, u, k);
        assert(slots[n - 1] is Some || slots[n - 1] is None);
    }
}

} // verus!
