//! Rooms on behalf of clients: who they are, which rooms there are, joining and
//! leaving them.

use vstd::prelude::*;

use crate::config::{BweMode, RoomMode};
use crate::error::{error_code, error_text, LightError, LightResult};
use crate::random::{fresh_uuid, is_uuid, random_u16};
use crate::room::floor::{after_leave, Floor};
use crate::room::hub::{
    hub_unchanged, indices_unchanged, lemma_replaced, open_at, room_opened, room_replaced,
    with_ufrags, without_addrs, without_ufrags, RoomHub,
};
use crate::room::index::{addrs_of, names_of};
use crate::room::participant::{
    is_newcomer, layer_place, layers_of, Participant, Track, TrackKind,
};
use crate::room::room::{
    added_at, participant_added, participant_removed, taken, user_ids, Room, RoomSeed,
};
use crate::signaling::effect::{effects_of, push_effect, Effect, EffectView};
use crate::signaling::handler::floor_ops::{
    floor_times, leave_floor, no_floor_counts, release_done, times_fit_room, FloorCounts,
    FloorOutcome, FloorTimes,
};
use crate::signaling::handler::helpers::{
    build_remove_tracks, codec_policy, collect_subscribe_tracks, ensure_video_ssrcs, extmap_policy,
    law_purged_is_forgotten, layers_purged, needs_vssrc, offered_tracks, purge_subscribe_layers, server_codec_policy,
    server_extmap_policy, shown_tracks, vssrc_missing, vssrcs_given, vssrcs_kept,
};
use crate::signaling::message::{
    done, event, refused, rooms_of, tracks_of, IdentifyRequest, JoinInfo, JoinView, MessageRequest,
    Packet, PacketView, Payload, PayloadView, PttInfo, PttView, RoomCreateRequest,
    RoomEventPayload, RoomInfo, RoomInfoView, RoomJoinRequest, RoomLeaveRequest, RoomModeField,
    TrackInfo, TrackView,
};
use crate::signaling::opcode;
use crate::signaling::session::{whereabouts, Session, SessionView};
use crate::text::{blank, digit, is_blank, owned, string_of};
use crate::transport::ice::IceCredentials;

verus! {

// ---------------------------------------------------------------------------
// Who the client is
// ---------------------------------------------------------------------------

/// The name of a nameless client: U and three digits.
pub open spec fn guest_name(n: u16) -> Seq<char> {
    let k = (n % 1000) as int;
    seq!['U', digit(k / 100), digit(k / 10 % 10), digit(k % 10)]
}

fn digit_char(d: u16) -> (r: char)
    requires
        d < 10,
    ensures
        r == digit(d as int),
{
    (0x30 + d as u8) as char
}

/// Whether a client says who it is.
pub open spec fn is_named(req: IdentifyRequest) -> bool {
    match req.user_id {
        Some(id) => !is_blank(id@),
        None => false,
    }
}

/// `handle_identify` with the number that a nameless client gets.
pub fn handle_identify_with(session: &mut Session, pid: u64, req: &IdentifyRequest, random: u16) -> (r:
    Packet)
    ensures
        ({
            let name = if is_named(*req) {
                req.user_id->0@
            } else {
                guest_name(random)
            };
            &&& final(session)@ == (SessionView { user_id: Some(name), ..old(session)@ })
            &&& r@ == done(opcode::IDENTIFY, pid, PayloadView::Identified { user_id: name })
        }),
{
    let mut name: Option<String> = None;
    if let Some(id) = &req.user_id {
        if !blank(id.as_str()) {
            name = Some(id.clone());
        }
    }
    let user_id: String = match name {
        Some(id) => id,
        None => {
            let k: u16 = random % 1000;
            let mut out: Vec<char> = Vec::new();
            out.push('U');
            out.push(digit_char(k / 100));
            out.push(digit_char(k / 10 % 10));
            out.push(digit_char(k % 10));
            assert(out@ =~= guest_name(random));
            string_of(out)
        },
    };
    session.user_id = Some(user_id.clone());
    Packet::ok(opcode::IDENTIFY, pid, Payload::Identified { user_id })
}

/// The client says who it is; one that does not gets a name. Nothing where a name
/// is wanted and the system has no random numbers to give.
pub fn handle_identify(session: &mut Session, pid: u64, req: &IdentifyRequest) -> (r: Option<Packet>)
    ensures
        match r {
            Some(p) => exists|random: u16|
                {
                    let name = if is_named(*req) {
                        req.user_id->0@
                    } else {
                        #[trigger] guest_name(random)
                    };
                    &&& final(session)@ == (SessionView { user_id: Some(name), ..old(session)@ })
                    &&& p@ == done(opcode::IDENTIFY, pid, PayloadView::Identified { user_id: name })
                },
            None => !is_named(*req) && *final(session) == *old(session),
        },
{
    let named: bool = match &req.user_id {
        Some(id) => !blank(id.as_str()),
        None => false,
    };
    let random: u16 = if named {
        0
    } else {
        match random_u16() {
            Some(n) => n,
            None => {
                return None;
            },
        }
    };
    let reply = handle_identify_with(session, pid, req, random);
    assert(guest_name(random) == guest_name(random));
    Some(reply)
}

// ---------------------------------------------------------------------------
// Which rooms there are
// ---------------------------------------------------------------------------

/// The entry of a room.
pub open spec fn room_info(r: Room) -> RoomInfoView {
    RoomInfoView {
        room_id: r.id@,
        name: r.name@,
        capacity: r.capacity,
        mode: r.mode,
        participants: r.participants_len(),
    }
}

/// The entries of the rooms at the first `n` places.
pub open spec fn room_infos(slots: Seq<Option<Room>>, n: int) -> Seq<RoomInfoView>
    decreases n,
{
    if n <= 0 {
        Seq::empty()
    } else if open_at(slots, n - 1) {
        room_infos(slots, n - 1).push(room_info(slots[n - 1]->0))
    } else {
        room_infos(slots, n - 1)
    }
}

pub fn handle_room_list(hub: &RoomHub, pid: u64) -> (r: Packet)
    ensures
        r@ == done(
            opcode::ROOM_LIST,
            pid,
            PayloadView::Rooms { rooms: room_infos(hub.slots@, hub.slots@.len() as int) },
        ),
{
    let mut rooms: Vec<RoomInfo> = Vec::new();
    let mut i: usize = 0;
    assert(rooms_of(rooms@) =~= Seq::empty());
    while i < hub.slots.len()
        invariant
            i <= hub.slots@.len(),
            rooms_of(rooms@) == room_infos(hub.slots@, i as int),
        decreases hub.slots@.len() - i,
    {
        let ghost before = rooms@;
        if let Some(room) = &hub.slots[i] {
            rooms.push(
                RoomInfo {
                    room_id: room.id.clone(),
                    name: room.name.clone(),
                    capacity: room.capacity,
                    mode: room.mode,
                    participants: room.participant_count(),
                },
            );
            assert(rooms_of(rooms@) =~= rooms_of(before).push(room_info(*room)));
        }
        i += 1;
    }
    Packet::ok(opcode::ROOM_LIST, pid, Payload::Rooms { rooms })
}

/// The kind of room that a request asks for: a conference where it does not say.
pub open spec fn wanted_mode(req: RoomCreateRequest) -> RoomMode {
    match req.mode {
        Some(m) => m.config(),
        None => RoomMode::Conference,
    }
}

/// What a request for a room comes to: the room is there, and the client is told
/// about it.
pub open spec fn create_done(
    a: RoomHub,
    b: RoomHub,
    pid: u64,
    req: RoomCreateRequest,
    now_ms: u64,
    seed: RoomSeed,
    reply: PacketView,
) -> bool {
    let room = b.room(seed.id@)->0;
    &&& b.room(seed.id@) is Some
    &&& room_opened(
        a,
        b,
        room,
        seed,
        req.name,
        req.capacity,
        wanted_mode(req),
        now_ms,
        req.simulcast == Some(true),
    )
    &&& reply == done(
        opcode::ROOM_CREATE,
        pid,
        PayloadView::RoomCreated {
            room_id: room.id@,
            name: room.name@,
            capacity: room.capacity,
            mode: room.mode,
            simulcast: room.simulcast_enabled,
        },
    )
}

/// `handle_room_create` with what is random about the room.
pub fn handle_room_create_with(
    hub: &mut RoomHub,
    pid: u64,
    req: &RoomCreateRequest,
    now_ms: u64,
    seed: RoomSeed,
) -> (r: Packet)
    requires
        old(hub).wf(),
    ensures
        final(hub).wf(),
        create_done(*old(hub), *final(hub), pid, *req, now_ms, seed, r@),
{
    let mode: RoomMode = match &req.mode {
        Some(m) => m.to_config(),
        None => RoomModeField::Conference.to_config(),
    };
    let simulcast: bool = match req.simulcast {
        Some(b) => b,
        None => false,
    };
    let id = seed.id.clone();
    let slot: usize = hub.create_with(
        seed,
        req.name.clone(),
        req.capacity,
        mode,
        now_ms,
        simulcast,
    );
    match &hub.slots[slot] {
        Some(room) => Packet::ok(
            opcode::ROOM_CREATE,
            pid,
            Payload::RoomCreated {
                room_id: id,
                name: room.name.clone(),
                capacity: room.capacity,
                mode: room.mode,
                simulcast: room.simulcast_enabled,
            },
        ),
        None => Packet::err(opcode::ROOM_CREATE, pid, 2001, "room not found"),
    }
}

/// The client wants a new room; a conference where it does not say which kind.
/// Nothing where the system has no random numbers to give.
pub fn handle_room_create(hub: &mut RoomHub, pid: u64, req: &RoomCreateRequest, now_ms: u64) -> (r:
    Option<Packet>)
    requires
        old(hub).wf(),
    ensures
        final(hub).wf(),
        match r {
            Some(p) => exists|seed: RoomSeed|
                is_uuid(seed.id@) && #[trigger] create_done(
                    *old(hub),
                    *final(hub),
                    pid,
                    *req,
                    now_ms,
                    seed,
                    p@,
                ),
            None => *final(hub) == *old(hub),
        },
{
    match RoomSeed::fresh() {
        Some(seed) => Some(handle_room_create_with(hub, pid, req, now_ms, seed)),
        None => None,
    }
}

// ---------------------------------------------------------------------------
// Joining
// ---------------------------------------------------------------------------

/// What the server says of itself.
#[derive(Debug)]
pub struct ServerInfo {
    pub public_ip: String,
    pub udp_port: u16,
    pub fingerprint: String,
    pub bwe_mode: BweMode,
    pub max_bitrate_bps: u64,
}

/// Who has the floor.
pub open spec fn speaker_of(f: Floor) -> Option<Seq<char>> {
    match f.burst {
        Some(b) => Some(b.speaker),
        None => None,
    }
}

/// What `user` is told when they have joined a room.
pub open spec fn join_view(
    room: Room,
    user: Seq<char>,
    server: ServerInfo,
    pub_ice: IceCredentials,
    sub_ice: IceCredentials,
) -> JoinView {
    JoinView {
        room_id: room.id@,
        mode: room.mode,
        participants: user_ids(room.slots@, room.slots@.len() as int),
        publish_ufrag: pub_ice.ufrag@,
        publish_pwd: pub_ice.pwd@,
        subscribe_ufrag: sub_ice.ufrag@,
        subscribe_pwd: sub_ice.pwd@,
        ip: server.public_ip@,
        port: server.udp_port,
        fingerprint: server.fingerprint@,
        codecs: codec_policy(),
        extmap: extmap_policy(server.bwe_mode, room.simulcast_enabled),
        max_bitrate_bps: server.max_bitrate_bps,
        tracks: offered_tracks(room, user),
        simulcast: room.simulcast_enabled,
        ptt: if room.mode == RoomMode::Ptt {
            Some(
                PttView {
                    audio_ssrc: room.audio_rewriter@.ssrc,
                    video_ssrc: room.video_rewriter@.ssrc,
                    speaker: speaker_of(room.floor@),
                },
            )
        } else {
            None
        },
    }
}

fn join_info(
    room: &Room,
    user: &str,
    server: &ServerInfo,
    pub_ice: &IceCredentials,
    sub_ice: &IceCredentials,
) -> (r: JoinInfo)
    requires
        room.wf(),
    ensures
        r@ == join_view(*room, user@, *server, *pub_ice, *sub_ice),
{
    let ptt: Option<PttInfo> = if room.mode == RoomMode::Ptt {
        Some(
            PttInfo {
                audio_ssrc: room.audio_rewriter.virtual_ssrc(),
                video_ssrc: room.video_rewriter.virtual_ssrc(),
                speaker: room.floor.current_speaker(),
            },
        )
    } else {
        None
    };
    JoinInfo {
        room_id: room.id.clone(),
        mode: room.mode,
        participants: room.member_ids(),
        publish_ufrag: pub_ice.ufrag.clone(),
        publish_pwd: pub_ice.pwd.clone(),
        subscribe_ufrag: sub_ice.ufrag.clone(),
        subscribe_pwd: sub_ice.pwd.clone(),
        ip: server.public_ip.clone(),
        port: server.udp_port,
        fingerprint: server.fingerprint.clone(),
        codecs: server_codec_policy(),
        extmap: server_extmap_policy(server.bwe_mode, room.simulcast_enabled),
        max_bitrate_bps: server.max_bitrate_bps,
        tracks: collect_subscribe_tracks(room, user),
        simulcast: room.simulcast_enabled,
        ptt,
    }
}

/// That somebody came to a room or left it.
pub open spec fn room_event(kind: Seq<char>, room_id: Seq<char>, user: Seq<char>) -> PacketView {
    event(
        opcode::ROOM_EVENT,
        PayloadView::Event { event_type: kind, room_id, user_id: Some(user) },
    )
}

fn room_event_packet(kind: &str, room_id: &str, user: &str) -> (r: Packet)
    ensures
        r@ == room_event(kind@, room_id@, user@),
{
    Packet::new(
        opcode::ROOM_EVENT,
        0,
        Payload::Event(
            RoomEventPayload {
                event_type: owned(kind),
                room_id: owned(room_id),
                user_id: Some(owned(user)),
            },
        ),
    )
}

/// Why somebody is not let into a room.
pub open spec fn join_refusal(room: Room, user: Seq<char>) -> Option<LightError> {
    if room.participants_len() >= room.capacity {
        Some(LightError::RoomFull)
    } else if room.member(user) is Some {
        Some(LightError::AlreadyInRoom)
    } else {
        None
    }
}

fn refusal_to_join(room: &Room, user: &str) -> (r: Option<LightError>)
    requires
        room.wf(),
    ensures
        r == join_refusal(*room, user@),
{
    if room.participant_count() >= room.capacity {
        Some(LightError::RoomFull)
    } else if room.slot_of(user).is_some() {
        Some(LightError::AlreadyInRoom)
    } else {
        None
    }
}

/// A room before and after `p` was let in. Others may have been given a virtual
/// SSRC for `p` to see; `all` says that whoever needs one has one.
pub open spec fn let_in(x: Room, middle: Room, y: Room, p: Participant, all: bool) -> bool {
    &&& middle.same_settings(x)
    &&& participant_added(x, middle, p)
    &&& vssrcs_kept(middle, y)
    &&& all ==> vssrcs_given(middle, y, p.user_id@, false, middle.slots@.len() as int)
}

/// A hub before and after `user` was let into a room.
pub open spec fn entered(
    a: RoomHub,
    b: RoomHub,
    user: Seq<char>,
    id: Seq<char>,
    pub_ice: IceCredentials,
    sub_ice: IceCredentials,
    now_ms: u64,
    all: bool,
) -> bool {
    let x = a.room(id)->0;
    let y = b.room(id)->0;
    &&& room_replaced(a, b, id)
    &&& exists|p: Participant, middle: Room| #[trigger]
        let_in(x, middle, y, p, all) && is_newcomer(
            p,
            user,
            id,
            pub_ice.ufrag@,
            pub_ice.pwd@,
            sub_ice.ufrag@,
            sub_ice.pwd@,
            now_ms,
        ) && names_of(b.ufrag_index) == with_ufrags(
            names_of(a.ufrag_index),
            p,
            (a.place_of_room(id)->0 as usize, false),
        )
    &&& addrs_of(b.addr_index) == addrs_of(a.addr_index)
}

/// What an answer to a client comes with.
#[derive(Debug)]
pub struct Outcome {
    pub reply: Packet,
    pub effects: Vec<Effect>,
}

/// Whoever lacks a virtual SSRC after somebody was let in lacked it before.
proof fn lemma_missing_before(x: Room, middle: Room, p: Participant)
    requires
        middle.same_settings(x),
        participant_added(x, middle, p),
        vssrc_missing(middle, p.user_id@, false),
    ensures
        vssrc_missing(x, p.user_id@, false),
{
    let slot = choose|slot: usize| #[trigger] added_at(x, middle, p, slot);
    let i = choose|i: int| #[trigger]
        taken(middle.slots@, i) && middle.slots@[i]->0.user_id@ != p.user_id@ && needs_vssrc(
            middle.slots@[i]->0,
            false,
        ) && middle.slots@[i]->0.simulcast_video_ssrc == 0;
    assert(i != slot);
    assert(taken(x.slots@, i));
}

/// The session of a client that has joined a room.
pub open spec fn joined_session(
    s: SessionView,
    id: Seq<char>,
    pub_ice: IceCredentials,
    sub_ice: IceCredentials,
) -> SessionView {
    SessionView {
        current_room: Some(id),
        pub_ufrag: Some(pub_ice.ufrag@),
        sub_ufrag: Some(sub_ice.ufrag@),
        ..s
    }
}

/// A hub before and after `user` was let into a room, what they are told and what
/// the others are told.
pub open spec fn admitted(
    a: RoomHub,
    b: RoomHub,
    user: Seq<char>,
    id: Seq<char>,
    pid: u64,
    server: ServerInfo,
    pub_ice: IceCredentials,
    sub_ice: IceCredentials,
    now_ms: u64,
    o: Outcome,
) -> bool {
    let y = b.room(id)->0;
    &&& entered(a, b, user, id, pub_ice, sub_ice, now_ms, true)
    &&& o.reply@ == done(
        opcode::ROOM_JOIN,
        pid,
        PayloadView::Joined { info: join_view(y, user, server, pub_ice, sub_ice) },
    )
    &&& effects_of(o.effects@) == seq![
        EffectView::ToOthers {
            exclude: user,
            packet: room_event("participant_joined"@, id, user),
        },
    ]
}

/// `handle_room_join` with the credentials of the two connections.
pub fn handle_room_join_with(
    session: &mut Session,
    hub: &mut RoomHub,
    pid: u64,
    req: &RoomJoinRequest,
    server: &ServerInfo,
    pub_ice: &IceCredentials,
    sub_ice: &IceCredentials,
    now_ms: u64,
) -> (r: Option<Outcome>)
    requires
        old(hub).wf(),
        old(session)@.user_id is Some,
    ensures
        final(hub).wf(),
        ({
            let user = old(session)@.user_id->0;
            let id = req.room_id@;
            match old(hub).room(id) {
                None => r matches Some(o) && o.reply@ == refused(
                    opcode::ROOM_JOIN,
                    pid,
                    2001,
                    "room not found"@,
                ) && o.effects@.len() == 0 && final(session)@ == old(session)@ && hub_unchanged(
                    *old(hub),
                    *final(hub),
                ),
                Some(x) => match join_refusal(x, user) {
                    Some(e) => r matches Some(o) && o.reply@ == refused(
                        opcode::ROOM_JOIN,
                        pid,
                        error_code(e),
                        error_text(e),
                    ) && o.effects@.len() == 0 && final(session)@ == old(session)@ && hub_unchanged(
                        *old(hub),
                        *final(hub),
                    ),
                    None => {
                        &&& final(session)@ == joined_session(
                            old(session)@,
                            id,
                            *pub_ice,
                            *sub_ice,
                        )
                        &&& r is None ==> vssrc_missing(x, user, false) && entered(
                            *old(hub),
                            *final(hub),
                            user,
                            id,
                            *pub_ice,
                            *sub_ice,
                            now_ms,
                            false,
                        )
                        &&& r matches Some(o) ==> admitted(
                            *old(hub),
                            *final(hub),
                            user,
                            id,
                            pid,
                            *server,
                            *pub_ice,
                            *sub_ice,
                            now_ms,
                            o,
                        )
                    },
                },
            }
        }),
{
    let user: String = match &session.user_id {
        Some(u) => u.clone(),
        None => {
            return None;
        },
    };
    let slot: usize = match hub.slot_of(req.room_id.as_str()) {
        Some(i) => i,
        None => {
            let reply = Packet::err(opcode::ROOM_JOIN, pid, 2001, "room not found");
            return Some(Outcome { reply, effects: Vec::new() });
        },
    };
    let ghost start = *hub;
    let p = Participant::new(
        user.clone(),
        req.room_id.clone(),
        pub_ice.ufrag.clone(),
        pub_ice.pwd.clone(),
        sub_ice.ufrag.clone(),
        sub_ice.pwd.clone(),
        now_ms,
    );
    let ghost newcomer = p;
    match hub.add_participant(req.room_id.as_str(), p) {
        Ok(_) => {},
        Err(e) => {
            let text = e.message();
            let reply = Packet::err(opcode::ROOM_JOIN, pid, e.code(), text.as_str());
            proof {
                let x = start.room(req.room_id@)->0;
                assert(join_refusal(x, user@) == Some(e));
            }
            return Some(Outcome { reply, effects: Vec::new() });
        },
    }
    session.current_room = Some(req.room_id.clone());
    session.pub_ufrag = Some(pub_ice.ufrag.clone());
    session.sub_ufrag = Some(sub_ice.ufrag.clone());
    let ghost between = *hub;
    let info: Option<JoinInfo> = match &mut hub.slots[slot] {
        Some(room) => if ensure_video_ssrcs(room, user.as_str(), false) {
            Some(join_info(room, user.as_str(), server, pub_ice, sub_ice))
        } else {
            None
        },
        None => None,
    };
    proof {
        lemma_replaced(between, *hub, slot as int);
        let x = start.room(req.room_id@)->0;
        let middle = between.slots@[slot as int]->0;
        let y = hub.slots@[slot as int]->0;
        assert(let_in(x, middle, y, newcomer, info is Some));
        assert(hub.slots@ =~= start.slots@.update(slot as int, hub.slots@[slot as int]));
        if info is None {
            lemma_missing_before(x, middle, newcomer);
        }
    }
    match info {
        Some(info) => {
            let mut effects: Vec<Effect> = Vec::new();
            assert(effects_of(effects@) =~= Seq::empty());
            push_effect(
                &mut effects,
                Effect::ToOthers {
                    exclude: user.clone(),
                    packet: room_event_packet(
                        "participant_joined",
                        req.room_id.as_str(),
                        user.as_str(),
                    ),
                },
            );
            proof {
                assert(effects_of(effects@) =~= seq![
                    EffectView::ToOthers {
                        exclude: user@,
                        packet: room_event("participant_joined"@, req.room_id@, user@),
                    },
                ]);
            }
            let reply = Packet::ok(opcode::ROOM_JOIN, pid, Payload::Joined(info));
            Some(Outcome { reply, effects })
        },
        None => None,
    }
}

/// The client joins a room, with fresh credentials for its two connections.
/// Nothing where it would be let in and the system has no random numbers to give.
pub fn handle_room_join(
    session: &mut Session,
    hub: &mut RoomHub,
    pid: u64,
    req: &RoomJoinRequest,
    server: &ServerInfo,
    now_ms: u64,
) -> (r: Option<Outcome>)
    requires
        old(hub).wf(),
        old(session)@.user_id is Some,
    ensures
        final(hub).wf(),
        ({
            let user = old(session)@.user_id->0;
            let id = req.room_id@;
            match old(hub).room(id) {
                None => {
                    &&& final(session)@ == old(session)@
                    &&& hub_unchanged(*old(hub), *final(hub))
                    &&& r matches Some(o) && o.reply@ == refused(
                        opcode::ROOM_JOIN,
                        pid,
                        2001,
                        "room not found"@,
                    ) && o.effects@.len() == 0
                },
                Some(x) => match join_refusal(x, user) {
                    Some(e) => {
                        &&& final(session)@ == old(session)@
                        &&& hub_unchanged(*old(hub), *final(hub))
                        &&& r matches Some(o) && o.reply@ == refused(
                            opcode::ROOM_JOIN,
                            pid,
                            error_code(e),
                            error_text(e),
                        ) && o.effects@.len() == 0
                    },
                    None => match r {
                        Some(o) => exists|pub_ice: IceCredentials, sub_ice: IceCredentials|
                            {
                                &&& pub_ice.drawn() && sub_ice.drawn()
                                &&& final(session)@ == joined_session(
                                    old(session)@,
                                    id,
                                    pub_ice,
                                    sub_ice,
                                )
                                &&& #[trigger] admitted(
                                    *old(hub),
                                    *final(hub),
                                    user,
                                    id,
                                    pid,
                                    *server,
                                    pub_ice,
                                    sub_ice,
                                    now_ms,
                                    o,
                                )
                            },
                        None => {
                            ||| final(session)@ == old(session)@ && hub_unchanged(
                                *old(hub),
                                *final(hub),
                            )
                            ||| vssrc_missing(x, user, false) && exists|
                                pub_ice: IceCredentials,
                                sub_ice: IceCredentials,
                            |
                                {
                                    &&& pub_ice.drawn() && sub_ice.drawn()
                                    &&& final(session)@ == joined_session(
                                        old(session)@,
                                        id,
                                        pub_ice,
                                        sub_ice,
                                    )
                                    &&& #[trigger] entered(
                                        *old(hub),
                                        *final(hub),
                                        user,
                                        id,
                                        pub_ice,
                                        sub_ice,
                                        now_ms,
                                        false,
                                    )
                                }
                        },
                    },
                },
            }
        }),
{
    match (hub.get(req.room_id.as_str()), &session.user_id) {
        (Ok(room), Some(user)) => {
            if let Some(e) = refusal_to_join(room, user.as_str()) {
                let text = e.message();
                let reply = Packet::err(opcode::ROOM_JOIN, pid, e.code(), text.as_str());
                return Some(Outcome { reply, effects: Vec::new() });
            }
        },
        _ => {
            let reply = Packet::err(opcode::ROOM_JOIN, pid, 2001, "room not found");
            return Some(Outcome { reply, effects: Vec::new() });
        },
    }
    match (IceCredentials::new(), IceCredentials::new()) {
        (Some(pub_ice), Some(sub_ice)) => {
            handle_room_join_with(session, hub, pid, req, server, &pub_ice, &sub_ice, now_ms)
        },
        _ => None,
    }
}

// ---------------------------------------------------------------------------
// The state of a room
// ---------------------------------------------------------------------------

/// A stream of a push-to-talk room.
pub open spec fn room_stream(name: Seq<char>, kind: TrackKind, ssrc: u32) -> TrackView {
    TrackView {
        user_id: None,
        track_id: name,
        kind,
        ssrc,
        rtx_ssrc: None,
        rid: None,
        is_virtual: true,
    }
}

/// What `user` can receive in a room: in push-to-talk the two streams of the
/// room, else the tracks of everybody else.
pub open spec fn receivable(room: Room, user: Seq<char>) -> Seq<TrackView> {
    if room.mode == RoomMode::Ptt {
        seq![
            room_stream("ptt-audio"@, TrackKind::Audio, room.audio_rewriter@.ssrc),
            room_stream("ptt-video"@, TrackKind::Video, room.video_rewriter@.ssrc),
        ]
    } else {
        offered_tracks(room, user)
    }
}

fn collect_receivable(room: &Room, user: &str) -> (r: Vec<TrackInfo>)
    ensures
        tracks_of(r@) == receivable(*room, user@),
{
    if room.mode == RoomMode::Ptt {
        let mut v: Vec<TrackInfo> = Vec::new();
        v.push(
            TrackInfo {
                user_id: None,
                track_id: owned("ptt-audio"),
                kind: TrackKind::Audio,
                ssrc: room.audio_rewriter.virtual_ssrc(),
                rtx_ssrc: None,
                rid: None,
                is_virtual: true,
            },
        );
        v.push(
            TrackInfo {
                user_id: None,
                track_id: owned("ptt-video"),
                kind: TrackKind::Video,
                ssrc: room.video_rewriter.virtual_ssrc(),
                rtx_ssrc: None,
                rid: None,
                is_virtual: true,
            },
        );
        assert(tracks_of(v@) =~= receivable(*room, user@));
        v
    } else {
        collect_subscribe_tracks(room, user)
    }
}

/// The client asks for the state of its room. Nothing only where somebody needs a
/// virtual SSRC and the system has no random numbers to give.
pub fn handle_room_sync(session: &Session, hub: &mut RoomHub, pid: u64) -> (r: Option<Packet>)
    requires
        old(hub).wf(),
    ensures
        final(hub).wf(),
        match (session@.user_id, session@.current_room) {
            (None, _) => r matches Some(p) && p@ == refused(
                opcode::ROOM_SYNC,
                pid,
                2003,
                "not identified"@,
            ) && hub_unchanged(*old(hub), *final(hub)),
            (Some(_), None) => r matches Some(p) && p@ == refused(
                opcode::ROOM_SYNC,
                pid,
                2004,
                "not in room"@,
            ) && hub_unchanged(*old(hub), *final(hub)),
            (Some(user), Some(id)) => match old(hub).room(id) {
                None => r matches Some(p) && p@ == refused(
                    opcode::ROOM_SYNC,
                    pid,
                    2001,
                    "room not found"@,
                ) && hub_unchanged(*old(hub), *final(hub)),
                Some(x) => {
                    let y = final(hub).room(id)->0;
                    &&& room_replaced(*old(hub), *final(hub), id)
                    &&& indices_unchanged(*old(hub), *final(hub))
                    &&& vssrcs_kept(x, y)
                    &&& r is None ==> vssrc_missing(x, user, false)
                    &&& r matches Some(p) ==> vssrcs_given(
                        x,
                        y,
                        user,
                        false,
                        x.slots@.len() as int,
                    ) && p@ == done(
                        opcode::ROOM_SYNC,
                        pid,
                        PayloadView::RoomState {
                            room_id: id,
                            mode: y.mode,
                            participants: user_ids(y.slots@, y.slots@.len() as int),
                            tracks: receivable(y, user),
                            speaker: speaker_of(y.floor@),
                        },
                    )
                },
            },
        },
{
    let user = match &session.user_id {
        Some(u) => u,
        None => {
            return Some(Packet::err(opcode::ROOM_SYNC, pid, 2003, "not identified"));
        },
    };
    let id = match &session.current_room {
        Some(x) => x,
        None => {
            return Some(Packet::err(opcode::ROOM_SYNC, pid, 2004, "not in room"));
        },
    };
    let slot: usize = match hub.slot_of(id.as_str()) {
        Some(i) => i,
        None => {
            return Some(Packet::err(opcode::ROOM_SYNC, pid, 2001, "room not found"));
        },
    };
    let ghost start = *hub;
    let payload: Option<Payload> = match &mut hub.slots[slot] {
        Some(room) => if ensure_video_ssrcs(room, user.as_str(), false) {
            Some(
                Payload::RoomState {
                    room_id: id.clone(),
                    mode: room.mode,
                    participants: room.member_ids(),
                    tracks: collect_receivable(room, user.as_str()),
                    speaker: room.floor.current_speaker(),
                },
            )
        } else {
            None
        },
        None => None,
    };
    proof {
        lemma_replaced(start, *hub, slot as int);
    }
    match payload {
        Some(d) => Some(Packet::ok(opcode::ROOM_SYNC, pid, d)),
        None => None,
    }
}

// ---------------------------------------------------------------------------
// Leaving
// ---------------------------------------------------------------------------

/// What the leaving of `user` from a room does to the floor, before they are gone.
pub open spec fn farewell_done(
    a: RoomHub,
    b: RoomHub,
    room_id: Seq<char>,
    user: Seq<char>,
    t: FloorTimes,
    r: (Vec<Effect>, FloorCounts),
) -> bool {
    match a.room(room_id) {
        None => hub_unchanged(a, b) && r.0@.len() == 0 && r.1 == no_floor_counts(),
        Some(x) => {
            let cancel = if x.member(user) is Some {
                seq![EffectView::CancelPli { user_id: user }]
            } else {
                Seq::empty()
            };
            if x.mode != RoomMode::Ptt {
                hub_unchanged(a, b) && effects_of(r.0@) == cancel && r.1 == no_floor_counts()
            } else {
                let y = b.room(room_id)->0;
                let (f, ns) = after_leave(x.floor@, user, t.now_ms);
                &&& room_replaced(a, b, room_id)
                &&& indices_unchanged(a, b)
                &&& y.floor@ == f
                &&& exists|o: FloorOutcome| #[trigger]
                    release_done(x, y, 0, user, t, ns, o) && effects_of(r.0@) == cancel
                        + effects_of(o.effects@) && r.1 == o.counts
            }
        },
    }
}

/// `say_farewell` at given times.
pub fn say_farewell_at(hub: &mut RoomHub, room_id: &str, user: &str, t: FloorTimes) -> (r: (
    Vec<Effect>,
    FloorCounts,
))
    requires
        old(hub).wf(),
    ensures
        final(hub).wf(),
        farewell_done(*old(hub), *final(hub), room_id@, user@, t, r),
{
    let mut effects: Vec<Effect> = Vec::new();
    let none = FloorCounts {
        granted: 0,
        revoked: 0,
        preempted: 0,
        queued: 0,
        released: 0,
        queue_pop: 0,
    };
    let slot: usize = match hub.slot_of(room_id) {
        Some(i) => i,
        None => {
            return (effects, none);
        },
    };
    let ghost start = *hub;
    assert(effects_of(effects@) =~= Seq::empty());
    let outcome: Option<FloorOutcome> = match &mut hub.slots[slot] {
        Some(room) => {
            if room.get_participant(user).is_some() {
                push_effect(&mut effects, Effect::CancelPli { user_id: owned(user) });
                assert(effects_of(effects@) =~= seq![EffectView::CancelPli { user_id: user@ }]);
            }
            if room.mode == RoomMode::Ptt {
                Some(leave_floor(room, user, t))
            } else {
                None
            }
        },
        None => None,
    };
    match outcome {
        Some(o) => {
            proof {
                lemma_replaced(start, *hub, slot as int);
            }
            let ghost whole = o;
            let ghost first = effects@;
            let mut more = o.effects;
            effects.append(&mut more);
            proof {
                assert(effects_of(effects@) =~= effects_of(first) + effects_of(whole.effects@));
                let x = start.room(room_id@)->0;
                let y = hub.room(room_id@)->0;
                let ns = after_leave(x.floor@, user@, t.now_ms).1;
                assert(release_done(x, y, 0, user@, t, ns, whole));
            }
            (effects, o.counts)
        },
        None => {
            assert(hub.slots@ =~= start.slots@);
            (effects, none)
        },
    }
}

/// Somebody is about to leave a room: they are asked for no more key frames, and
/// in push-to-talk the floor is handed on if they had it.
pub fn say_farewell(hub: &mut RoomHub, room_id: &str, user: &str) -> (r: (Vec<Effect>, FloorCounts))
    requires
        old(hub).wf(),
    ensures
        final(hub).wf(),
        exists|t: FloorTimes|
            times_fit_room(old(hub).room(room_id@), t) && #[trigger] farewell_done(
                *old(hub),
                *final(hub),
                room_id@,
                user@,
                t,
                r,
            ),
{
    let t: FloorTimes = match hub.get(room_id) {
        Ok(room) => floor_times(room),
        Err(_) => FloorTimes { now_ms: 0, audio_idle_ms: 0, video_idle_ms: 0 },
    };
    say_farewell_at(hub, room_id, user, t)
}

/// What the others are told when somebody has gone: which tracks are gone, if
/// there were any, and who.
pub open spec fn departure(
    room_id: Seq<char>,
    user: Seq<char>,
    tracks: Seq<Track>,
    simulcast: bool,
    vssrc: u32,
) -> Seq<PacketView> {
    let gone = shown_tracks(user, tracks, simulcast, vssrc, tracks.len() as int);
    let left = room_event("participant_left"@, room_id, user);
    if gone.len() > 0 {
        seq![event(opcode::TRACKS_UPDATE, PayloadView::TracksRemoved { tracks: gone }), left]
    } else {
        seq![left]
    }
}

/// Messages for everybody in the room.
pub open spec fn to_room(ps: Seq<PacketView>) -> Seq<EffectView> {
    ps.map_values(|p: PacketView| EffectView::ToRoom { packet: p })
}

/// Messages for everybody in the room but one.
pub open spec fn to_others(ps: Seq<PacketView>, user: Seq<char>) -> Seq<EffectView> {
    ps.map_values(|p: PacketView| EffectView::ToOthers { exclude: user, packet: p })
}

pub open spec fn packets_of(v: Seq<Packet>) -> Seq<PacketView> {
    v.map_values(|p: Packet| p@)
}

fn departure_packets(
    room_id: &str,
    user: &str,
    tracks: &Vec<Track>,
    simulcast: bool,
    vssrc: u32,
) -> (r: Vec<Packet>)
    ensures
        packets_of(r@) == departure(room_id@, user@, tracks@, simulcast, vssrc),
{
    let mut out: Vec<Packet> = Vec::new();
    let gone = build_remove_tracks(tracks, user, simulcast, vssrc);
    assert(tracks_of(gone@).len() == gone@.len());
    if gone.len() > 0 {
        out.push(Packet::new(opcode::TRACKS_UPDATE, 0, Payload::TracksRemoved { tracks: gone }));
    }
    out.push(room_event_packet("participant_left", room_id, user));
    assert(packets_of(out@) =~= departure(room_id@, user@, tracks@, simulcast, vssrc));
    out
}

/// What the others in the room are told about somebody who has gone.
pub fn announce_departure(
    room_id: &str,
    user: &str,
    tracks: &Vec<Track>,
    simulcast: bool,
    vssrc: u32,
) -> (r: Vec<Effect>)
    ensures
        effects_of(r@) == to_room(departure(room_id@, user@, tracks@, simulcast, vssrc)),
{
    let packets = departure_packets(room_id, user, tracks, simulcast, vssrc);
    let ghost all = packets_of(packets@);
    let mut out: Vec<Effect> = Vec::new();
    assert(effects_of(out@) =~= to_room(all.take(0)));
    for packet in it: packets
        invariant
            it.seq() == packets@,
            all == packets_of(packets@),
            effects_of(out@) == to_room(all.take(it.index() as int)),
    {
        assert(all[it.index() as int] == packet@);
        push_effect(&mut out, Effect::ToRoom { packet });
        assert(effects_of(out@) =~= to_room(all.take(it.index() + 1)));
    }
    assert(all.take(all.len() as int) =~= all);
    out
}

/// The client leaves a room. What concerns the floor has been done before.
pub fn handle_room_leave(session: &mut Session, hub: &mut RoomHub, pid: u64, req: &RoomLeaveRequest) -> (r:
    Outcome)
    requires
        old(hub).wf(),
        old(session)@.user_id is Some,
    ensures
        final(hub).wf(),
        ({
            let user = old(session)@.user_id->0;
            let id = req.room_id@;
            match old(hub).room(id) {
                None => {
                    &&& r.reply@ == refused(
                        opcode::ROOM_LEAVE,
                        pid,
                        2001,
                        error_text(LightError::RoomNotFound),
                    )
                    &&& r.effects@.len() == 0
                    &&& final(session)@ == old(session)@
                    &&& hub_unchanged(*old(hub), *final(hub))
                },
                Some(x) => match x.member(user) {
                    None => {
                        &&& r.reply@ == refused(
                            opcode::ROOM_LEAVE,
                            pid,
                            2004,
                            error_text(LightError::NotInRoom),
                        )
                        &&& r.effects@.len() == 0
                        &&& final(session)@ == old(session)@
                        &&& hub_unchanged(*old(hub), *final(hub))
                    },
                    Some(p) => {
                        let y = final(hub).room(id)->0;
                        &&& r.reply@ == done(opcode::ROOM_LEAVE, pid, PayloadView::Empty)
                        &&& effects_of(r.effects@) == to_room(
                            departure(
                                id,
                                user,
                                p.tracks@,
                                x.simulcast_enabled,
                                p.simulcast_video_ssrc,
                            ),
                        )
                        &&& final(session)@ == (SessionView {
                            current_room: None,
                            pub_ufrag: None,
                            sub_ufrag: None,
                            ..old(session)@
                        })
                        &&& removed_from(*old(hub), *final(hub), id, p)
                    },
                },
            }
        }),
{
    let user: String = match &session.user_id {
        Some(u) => u.clone(),
        None => {
            let reply = Packet::err(opcode::ROOM_LEAVE, pid, 2004, "[2004] not in room");
            return Outcome { reply, effects: Vec::new() };
        },
    };
    let simulcast: bool = match hub.get(req.room_id.as_str()) {
        Ok(room) => room.simulcast_enabled,
        Err(_) => false,
    };
    match let_go(hub, req.room_id.as_str(), user.as_str()) {
        Ok(p) => {
            let effects = announce_departure(
                req.room_id.as_str(),
                user.as_str(),
                &p.tracks,
                simulcast,
                p.simulcast_video_ssrc,
            );
            session.current_room = None;
            session.pub_ufrag = None;
            session.sub_ufrag = None;
            let reply = Packet::ok(opcode::ROOM_LEAVE, pid, Payload::Empty);
            Outcome { reply, effects }
        },
        Err(e) => {
            let text = e.message();
            let reply = Packet::err(opcode::ROOM_LEAVE, pid, e.code(), text.as_str());
            Outcome { reply, effects: Vec::new() }
        },
    }
}

/// Whether a participant of a room was let go, with all that leads to them, and
/// nobody receives anything of them any more.
pub open spec fn removed_from(a: RoomHub, b: RoomHub, id: Seq<char>, p: Participant) -> bool {
    &&& room_replaced(a, b, id)
    &&& exists|middle: Room| #[trigger]
        participant_removed(a.room(id)->0, middle, p) && middle.same_settings(a.room(id)->0)
            && layers_purged(middle, b.room(id)->0, p.user_id@, middle.slots@.len() as int)
    &&& names_of(b.ufrag_index) == without_ufrags(names_of(a.ufrag_index), p)
    &&& addrs_of(b.addr_index) == without_addrs(addrs_of(a.addr_index), p)
}

/// Nobody who is left receives anything of somebody who has gone; should they come
/// again, they are received afresh.
pub proof fn law_left_is_not_received(a: RoomHub, b: RoomHub, id: Seq<char>, p: Participant, i: int)
    requires
        a.wf(),
        a.room(id) is Some,
        a.room(id)->0.member(p.user_id@) == Some(p),
        removed_from(a, b, id, p),
        taken(b.room(id)->0.slots@, i),
        b.room(id)->0.slots@[i]->0.user_id@ != p.user_id@,
    ensures
        layer_place(
            layers_of(b.room(id)->0.slots@[i]->0.subscribe_layers@),
            p.user_id@,
        ) is None,
{
    let x = a.room(id)->0;
    let y = b.room(id)->0;
    assert(names_of(a.rooms).dom().contains(id));
    assert(open_at(a.slots@, a.place_of_room(id)->0));
    let middle = choose|middle: Room| #[trigger]
        participant_removed(x, middle, p) && middle.same_settings(x) && layers_purged(
            middle,
            y,
            p.user_id@,
            middle.slots@.len() as int,
        );
    assert(taken(middle.slots@, i));
    assert(taken(x.slots@, i));
    law_purged_is_forgotten(middle.slots@[i]->0, y.slots@[i]->0, p.user_id@);
}

/// Lets a participant of a room go; the others stop receiving them.
fn let_go(hub: &mut RoomHub, room_id: &str, user_id: &str) -> (r: LightResult<Participant>)
    requires
        old(hub).wf(),
    ensures
        final(hub).wf(),
        match r {
            Ok(p) => {
                &&& old(hub).room(room_id@) is Some
                &&& old(hub).room(room_id@)->0.member(user_id@) == Some(p)
                &&& p.user_id@ == user_id@
                &&& removed_from(*old(hub), *final(hub), room_id@, p)
            },
            Err(e) => {
                &&& hub_unchanged(*old(hub), *final(hub))
                &&& e is RoomNotFound <==> old(hub).room(room_id@) is None
                &&& old(hub).room(room_id@) matches Some(a) ==> e is NotInRoom && a.member(
                    user_id@,
                ) is None
            },
        },
{
    let ghost start = *hub;
    let gone = match hub.remove_participant(room_id, user_id) {
        Ok(p) => p,
        Err(e) => {
            return Err(e);
        },
    };
    let ghost between = *hub;
    if let Some(slot) = hub.slot_of(room_id) {
        match &mut hub.slots[slot] {
            Some(room) => purge_subscribe_layers(room, user_id),
            None => {},
        }
        proof {
            lemma_replaced(between, *hub, slot as int);
            let middle = between.slots@[slot as int]->0;
            assert(participant_removed(start.room(room_id@)->0, middle, gone));
            assert(hub.slots@ =~= start.slots@.update(slot as int, hub.slots@[slot as int]));
        }
    }
    Ok(gone)
}

/// The connection of a client is gone, and so is the client from its room. What
/// concerns the floor has been done before.
pub fn cleanup(session: &Session, hub: &mut RoomHub) -> (r: Vec<Effect>)
    requires
        old(hub).wf(),
    ensures
        final(hub).wf(),
        match whereabouts(session@) {
            None => r@.len() == 0 && hub_unchanged(*old(hub), *final(hub)),
            Some((id, user)) => match old(hub).room(id) {
                None => r@.len() == 0 && hub_unchanged(*old(hub), *final(hub)),
                Some(x) => match x.member(user) {
                    None => hub_unchanged(*old(hub), *final(hub)) && effects_of(r@) == to_others(
                        departure(id, user, Seq::empty(), x.simulcast_enabled, 0),
                        user,
                    ),
                    Some(p) => {
                        &&& removed_from(*old(hub), *final(hub), id, p)
                        &&& effects_of(r@) == to_others(
                            departure(
                                id,
                                user,
                                p.tracks@,
                                x.simulcast_enabled,
                                p.simulcast_video_ssrc,
                            ),
                            user,
                        )
                    },
                },
            },
        },
{
    let mut out: Vec<Effect> = Vec::new();
    let (id, user) = match (&session.current_room, &session.user_id) {
        (Some(id), Some(user)) => (id, user),
        _ => {
            return out;
        },
    };
    let simulcast: bool = match hub.get(id.as_str()) {
        Ok(room) => room.simulcast_enabled,
        Err(_) => {
            return out;
        },
    };
    let packets = match let_go(hub, id.as_str(), user.as_str()) {
        Ok(p) => departure_packets(
            id.as_str(),
            user.as_str(),
            &p.tracks,
            simulcast,
            p.simulcast_video_ssrc,
        ),
        Err(_) => {
            let nothing: Vec<Track> = Vec::new();
            assert(nothing@ =~= Seq::empty());
            departure_packets(id.as_str(), user.as_str(), &nothing, simulcast, 0)
        },
    };
    let ghost all = packets_of(packets@);
    assert(effects_of(out@) =~= to_others(all.take(0), user@));
    for packet in it: packets
        invariant
            it.seq() == packets@,
            all == packets_of(packets@),
            effects_of(out@) == to_others(all.take(it.index() as int), user@),
    {
        assert(all[it.index() as int] == packet@);
        push_effect(&mut out, Effect::ToOthers { exclude: user.clone(), packet });
        assert(effects_of(out@) =~= to_others(all.take(it.index() + 1), user@));
    }
    assert(all.take(all.len() as int) =~= all);
    out
}

// ---------------------------------------------------------------------------
// Chat
// ---------------------------------------------------------------------------

/// What a chat message comes to: the sender is told its identifier, the others in
/// the room are told the message.
pub open spec fn message_posted(
    hub: RoomHub,
    user: Seq<char>,
    pid: u64,
    req: MessageRequest,
    msg_id: Seq<char>,
    o: Outcome,
) -> bool {
    &&& o.reply@ == done(opcode::MESSAGE, pid, PayloadView::Posted { msg_id })
    &&& effects_of(o.effects@) == chat_effects(hub, req.room_id@, user, req.content@)
}

/// `handle_message` with the identifier of the message.
pub fn handle_message_with(
    session: &Session,
    hub: &RoomHub,
    pid: u64,
    req: &MessageRequest,
    msg_id: String,
) -> (r: Outcome)
    requires
        hub.wf(),
        session@.user_id is Some,
    ensures
        message_posted(*hub, session@.user_id->0, pid, *req, msg_id@, r),
{
    let effects = relay_message(session, hub, req);
    Outcome { reply: Packet::ok(opcode::MESSAGE, pid, Payload::Posted { msg_id }), effects }
}

/// The client says something to the others in a room. Nothing where the system
/// has no random numbers to give.
pub fn handle_message(session: &Session, hub: &RoomHub, pid: u64, req: &MessageRequest) -> (r: Option<
    Outcome,
>)
    requires
        hub.wf(),
        session@.user_id is Some,
    ensures
        r matches Some(o) ==> exists|msg_id: Seq<char>|
            is_uuid(msg_id) && #[trigger] message_posted(
                *hub,
                session@.user_id->0,
                pid,
                *req,
                msg_id,
                o,
            ),
{
    match fresh_uuid() {
        Some(msg_id) => Some(handle_message_with(session, hub, pid, req, msg_id)),
        None => None,
    }
}

/// What the others in a room, if it exists, hear of a chat message.
pub open spec fn chat_effects(hub: RoomHub, room_id: Seq<char>, user: Seq<char>, content: Seq<char>) -> Seq<
    EffectView,
> {
    if hub.room(room_id) is Some {
        seq![
            EffectView::ToOthers {
                exclude: user,
                packet: event(
                    opcode::MESSAGE_EVENT,
                    PayloadView::Chat { room_id, user_id: user, content },
                ),
            },
        ]
    } else {
        Seq::empty()
    }
}

fn relay_message(session: &Session, hub: &RoomHub, req: &MessageRequest) -> (r: Vec<Effect>)
    requires
        hub.wf(),
        session@.user_id is Some,
    ensures
        effects_of(r@) == chat_effects(*hub, req.room_id@, session@.user_id->0, req.content@),
{
    let mut effects: Vec<Effect> = Vec::new();
    assert(effects_of(effects@) =~= Seq::empty());
    if let Some(user) = &session.user_id {
        if hub.get(req.room_id.as_str()).is_ok() {
            let packet = Packet::new(
                opcode::MESSAGE_EVENT,
                0,
                Payload::Chat {
                    room_id: req.room_id.clone(),
                    user_id: user.clone(),
                    content: req.content.clone(),
                },
            );
            push_effect(&mut effects, Effect::ToOthers { exclude: user.clone(), packet });
        }
        assert(effects_of(effects@) =~= chat_effects(*hub, req.room_id@, user@, req.content@));
    }
    effects
}

} // verus!
