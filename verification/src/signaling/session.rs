//! The session of a signaling connection, and which requests it may make.

use vstd::prelude::*;

use crate::config;
use crate::room::hub::{hub_unchanged, indices_unchanged, lemma_replaced, room_replaced, RoomHub};
use crate::room::participant::Participant;
use crate::room::room::{lemma_seats_kept, taken, Room};
use crate::signaling::message::{
    done, refused, text_of, HelloEvent, Packet, PacketView, Payload, PayloadView,
};
use crate::signaling::opcode;

verus! {

#[derive(Debug)]
pub struct Session {
    /// Who the client is, once it has said so.
    pub user_id: Option<String>,
    /// The room that the client is in.
    pub current_room: Option<String>,
    pub pub_ufrag: Option<String>,
    pub sub_ufrag: Option<String>,
    /// The number of the server's next message.
    pub server_pid: u64,
    /// Messages that were not acknowledged.
    pub ack_miss: u64,
}

/// What a session holds.
pub struct SessionView {
    pub user_id: Option<Seq<char>>,
    pub current_room: Option<Seq<char>>,
    pub pub_ufrag: Option<Seq<char>>,
    pub sub_ufrag: Option<Seq<char>>,
    pub server_pid: u64,
    pub ack_miss: u64,
}

impl View for Session {
    type V = SessionView;

    open spec fn view(&self) -> SessionView {
        SessionView {
            user_id: text_of(self.user_id),
            current_room: text_of(self.current_room),
            pub_ufrag: text_of(self.pub_ufrag),
            sub_ufrag: text_of(self.sub_ufrag),
            server_pid: self.server_pid,
            ack_miss: self.ack_miss,
        }
    }
}

/// Whether a request with this code exists.
pub open spec fn is_request(op: u16) -> bool {
    ||| op == opcode::HEARTBEAT
    ||| op == opcode::IDENTIFY
    ||| op == opcode::ROOM_LIST
    ||| op == opcode::ROOM_CREATE
    ||| op == opcode::ROOM_JOIN
    ||| op == opcode::ROOM_LEAVE
    ||| op == opcode::PUBLISH_TRACKS
    ||| op == opcode::TRACKS_ACK
    ||| op == opcode::MUTE_UPDATE
    ||| op == opcode::CAMERA_READY
    ||| op == opcode::MESSAGE
    ||| op == opcode::TELEMETRY
    ||| op == opcode::ROOM_SYNC
    ||| op == opcode::FLOOR_REQUEST
    ||| op == opcode::FLOOR_RELEASE
    ||| op == opcode::FLOOR_PING
    ||| op == opcode::FLOOR_QUEUE_POS
    ||| op == opcode::SUBSCRIBE_LAYER
}

/// What becomes of a message of the client.
#[derive(Debug)]
pub enum Route {
    /// An acknowledgement: nothing more is to be done.
    Acknowledged,
    /// The request is refused.
    Refused(Packet),
    /// The request is to be handled.
    Handle,
}

impl Session {
    pub fn new() -> (r: Self)
        ensures
            r@ == (SessionView {
                user_id: None,
                current_room: None,
                pub_ufrag: None,
                sub_ufrag: None,
                server_pid: 1,
                ack_miss: 0,
            }),
    {
        Session {
            user_id: None,
            current_room: None,
            pub_ufrag: None,
            sub_ufrag: None,
            server_pid: 1,
            ack_miss: 0,
        }
    }

    /// The number of the server's next message; each is given out once.
    pub fn next_pid(&mut self) -> (r: u64)
        ensures
            r == old(self).server_pid,
            *final(self) == (Session { server_pid: r.wrapping_add(1), ..*old(self) }),
    {
        let pid: u64 = self.server_pid;
        self.server_pid = pid.wrapping_add(1);
        pid
    }

    pub fn is_authenticated(&self) -> (r: bool)
        ensures
            r == (self@.user_id is Some),
    {
        self.user_id.is_some()
    }

    /// The greeting with which a connection starts.
    pub fn hello(&mut self) -> (r: Packet)
        ensures
            r@ == (PacketView {
                op: opcode::HELLO,
                pid: old(self).server_pid,
                ok: None,
                d: PayloadView::Hello { heartbeat_interval: config::HEARTBEAT_INTERVAL_MS },
            }),
            *final(self) == (Session {
                server_pid: old(self).server_pid.wrapping_add(1),
                ..*old(self)
            }),
    {
        let pid: u64 = self.next_pid();
        Packet::new(
            opcode::HELLO,
            pid,
            Payload::Hello(HelloEvent { heartbeat_interval: config::HEARTBEAT_INTERVAL_MS }),
        )
    }

    /// Whether a message is handled: responses are acknowledgements, and but for
    /// heartbeats nothing is handled before the client has said who it is.
    pub fn route(&mut self, op: u16, pid: u64, ok: Option<bool>) -> (r: Route)
        ensures
            match r {
                Route::Acknowledged => ok is Some && *final(self) == (Session {
                    ack_miss: 0,
                    ..*old(self)
                }),
                Route::Refused(p) => {
                    &&& ok is None
                    &&& *final(self) == *old(self)
                    &&& if old(self)@.user_id is None && op != opcode::HEARTBEAT && op
                        != opcode::IDENTIFY {
                        p@ == refused(op, pid, 1001, "not authenticated"@)
                    } else {
                        !is_request(op) && p@ == refused(op, pid, 3001, "invalid opcode"@)
                    }
                },
                Route::Handle => {
                    &&& ok is None
                    &&& *final(self) == *old(self)
                    &&& is_request(op)
                    &&& old(self)@.user_id is Some || op == opcode::HEARTBEAT || op
                        == opcode::IDENTIFY
                },
            },
    {
        if ok.is_some() {
            self.ack_miss = 0;
            return Route::Acknowledged;
        }
        if op != opcode::HEARTBEAT && op != opcode::IDENTIFY && !self.is_authenticated() {
            return Route::Refused(Packet::err(op, pid, 1001, "not authenticated"));
        }
        if op == opcode::HEARTBEAT || op == opcode::IDENTIFY || op == opcode::ROOM_LIST || op
            == opcode::ROOM_CREATE || op == opcode::ROOM_JOIN || op == opcode::ROOM_LEAVE || op
            == opcode::PUBLISH_TRACKS || op == opcode::TRACKS_ACK || op == opcode::MUTE_UPDATE || op
            == opcode::CAMERA_READY || op == opcode::MESSAGE || op == opcode::TELEMETRY || op
            == opcode::ROOM_SYNC || op == opcode::FLOOR_REQUEST || op == opcode::FLOOR_RELEASE || op
            == opcode::FLOOR_PING || op == opcode::FLOOR_QUEUE_POS || op == opcode::SUBSCRIBE_LAYER {
            Route::Handle
        } else {
            Route::Refused(Packet::err(op, pid, 3001, "invalid opcode"))
        }
    }
}

/// The room and the name of a session that is in a room.
pub open spec fn whereabouts(s: SessionView) -> Option<(Seq<char>, Seq<char>)> {
    match (s.current_room, s.user_id) {
        (Some(room), Some(user)) => Some((room, user)),
        _ => None,
    }
}

/// A room in which one participant differs.
pub open spec fn one_participant_changed(a: Room, b: Room, user: Seq<char>, q: Participant) -> bool {
    &&& b == (Room { slots: b.slots, ..a })
    &&& b.slots@ == a.slots@.update(a.place_of_user(user)->0, Some(q))
}

/// A room stays sound if one participant changes and stays sound.
pub proof fn lemma_one_participant(a: Room, b: Room, i: int, q: Participant)
    requires
        a.wf(),
        taken(a.slots@, i),
        b == (Room { slots: b.slots, ..a }),
        b.slots@ == a.slots@.update(i, Some(q)),
        q.wf(),
        q.user_id == a.slots@[i]->0.user_id,
        q.publish.ufrag == a.slots@[i]->0.publish.ufrag,
        q.publish.address == a.slots@[i]->0.publish.address,
        q.subscribe.ufrag == a.slots@[i]->0.subscribe.ufrag,
        q.subscribe.address == a.slots@[i]->0.subscribe.address,
    ensures
        b.wf(),
{
    assert forall|k: int| #[trigger] taken(b.slots@, k) == taken(a.slots@, k) by {}
    assert forall|k: int| #[trigger] taken(b.slots@, k) implies b.slots@[k]->0.wf() by {
        assert(taken(a.slots@, k));
    }
    lemma_seats_kept(a, b);
}

/// Whether a client that has been silent for so many nanoseconds has missed its
/// heartbeats.
pub fn heartbeat_missed(idle_ns: u128) -> (r: bool)
    ensures
        r == (idle_ns > config::HEARTBEAT_TIMEOUT_MS * 1_000_000),
{
    idle_ns > config::HEARTBEAT_TIMEOUT_MS as u128 * 1_000_000
}

/// A heartbeat: whoever is in a room has given a sign of life.
pub fn handle_heartbeat(session: &Session, hub: &mut RoomHub, pid: u64, now_ms: u64) -> (r: Packet)
    requires
        old(hub).wf(),
    ensures
        final(hub).wf(),
        r@ == done(opcode::HEARTBEAT, pid, PayloadView::Empty),
        match whereabouts(session@) {
            Some((id, user)) => match old(hub).room(id) {
                Some(x) => match x.member(user) {
                    Some(p) => {
                        &&& room_replaced(*old(hub), *final(hub), id)
                        &&& indices_unchanged(*old(hub), *final(hub))
                        &&& one_participant_changed(
                            x,
                            final(hub).room(id)->0,
                            user,
                            Participant { last_seen: now_ms, ..p },
                        )
                    },
                    None => hub_unchanged(*old(hub), *final(hub)),
                },
                None => hub_unchanged(*old(hub), *final(hub)),
            },
            None => hub_unchanged(*old(hub), *final(hub)),
        },
{
    let reply = Packet::ok(opcode::HEARTBEAT, pid, Payload::Empty);
    if let (Some(id), Some(user)) = (&session.current_room, &session.user_id) {
        let slot: usize = match hub.slot_of(id.as_str()) {
            Some(i) => i,
            None => {
                return reply;
            },
        };
        let ghost start = *hub;
        match &mut hub.slots[slot] {
            Some(room) => {
                let ghost before = *room;
                let seat: usize = match room.slot_of(user.as_str()) {
                    Some(i) => i,
                    None => {
                        assert(hub.slots@ =~= start.slots@);
                        return reply;
                    },
                };
                match &mut room.slots[seat] {
                    Some(p) => {
                        p.touch(now_ms);
                    },
                    None => {},
                }
                proof {
                    let q = room.slots@[seat as int]->0;
                    assert(room.slots@ =~= before.slots@.update(seat as int, Some(q)));
                    lemma_one_participant(before, *room, seat as int, q);
                    lemma_replaced(start, *hub, slot as int);
                }
            },
            None => {},
        }
    }
    reply
}

} // verus!
