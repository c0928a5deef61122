//! Binding requests on the media port: by them the server learns where a
//! connection is.

use vstd::prelude::*;
use vstd::utf8::{decode_utf8, encode_utf8, valid_utf8};

use crate::room::hub::{
    hub_unchanged, law_hub_finds_latched, lemma_replaced, open_at, RoomHub,
};
use crate::room::index::{addrs_of, names_of};
use crate::room::participant::{Participant, PcType};
use crate::room::room::{connection_latched, taken};
use crate::signaling::session::lemma_one_participant;
use crate::text::{chars_of, string_of, sub_chars};
use crate::transport::addr::{addr_key, SocketAddress};
use crate::transport::stun::{
    attr_value, binding_response, build_binding_response, ice_integrity_key, integrity_holds,
    is_stun, parse, stun_content, verify_message_integrity, ATTR_USERNAME, ATTR_USE_CANDIDATE,
    BINDING_REQUEST,
};
use crate::transport::udp::ingress::seat_changed;

verus! {

/// What stands before the first colon; everything where there is none.
pub open spec fn before_colon(s: Seq<char>) -> Seq<char>
    decreases s.len(),
{
    if s.len() == 0 || s[0] == ':' {
        Seq::empty()
    } else {
        seq![s[0]] + before_colon(s.drop_first())
    }
}

fn server_part(s: &str) -> (r: String)
    ensures
        r@ == before_colon(s@),
{
    let chars = chars_of(s);
    let n: usize = chars.len();
    let ghost all = chars@;
    let mut i: usize = 0;
    assert(all.skip(0) =~= all);
    assert(all.take(0) + before_colon(all) =~= before_colon(all));
    while i < n && chars[i] != ':'
        invariant
            i <= n == chars@.len(),
            all == chars@,
            before_colon(all) == all.take(i as int) + before_colon(all.skip(i as int)),
        decreases n - i,
    {
        let ghost rest = all.skip(i as int);
        assert(rest.drop_first() =~= all.skip(i + 1));
        assert(rest[0] == all[i as int]);
        i += 1;
        assert(all.take(i - 1) + (seq![rest[0]] + before_colon(rest.drop_first())) =~= all.take(
            i as int,
        ) + before_colon(all.skip(i as int)));
    }
    assert(before_colon(all.skip(i as int)) =~= Seq::empty());
    let out = sub_chars(&chars, 0, i);
    assert(out@ =~= before_colon(s@));
    string_of(out)
}

/// The user fragment that a datagram asks for, if it is a binding request.
pub open spec fn requested_ufrag(buf: Seq<u8>) -> Option<Seq<char>> {
    let m = stun_content(buf);
    if !is_stun(buf) || m.msg_type != BINDING_REQUEST {
        None
    } else {
        match attr_value(m.attributes, ATTR_USERNAME) {
            Some(v) => if valid_utf8(v) {
                Some(before_colon(decode_utf8(v)))
            } else {
                None
            },
            None => None,
        }
    }
}

/// What a datagram comes to.
#[derive(Debug)]
pub enum BindingOutcome {
    /// No binding request with a user name.
    Ignored,
    /// No connection has this user fragment.
    Unknown,
    /// The integrity does not hold under the password of the connection.
    Mismatch { room: usize, seat: usize, pc: PcType },
    /// `response` goes back, and where `start_dtls` says so the handshake starts.
    Answered { room: usize, seat: usize, pc: PcType, response: Vec<u8>, start_dtls: bool },
}

/// A hub after a connection was seen at an address.
pub open spec fn hub_latched(
    a: RoomHub,
    b: RoomHub,
    room: usize,
    seat: usize,
    pc: PcType,
    addr: SocketAddress,
) -> bool {
    &&& open_at(a.slots@, room as int)
    &&& taken(a.slots@[room as int]->0.slots@, seat as int)
    &&& open_at(b.slots@, room as int)
    &&& b.slots@ == a.slots@.update(room as int, b.slots@[room as int])
    &&& b.slots@[room as int]->0.same_settings(a.slots@[room as int]->0)
    &&& connection_latched(a.slots@[room as int]->0, b.slots@[room as int]->0, seat, pc, addr)
    &&& names_of(b.rooms) == names_of(a.rooms)
    &&& names_of(b.ufrag_index) == names_of(a.ufrag_index)
    &&& addrs_of(b.addr_index) == addrs_of(a.addr_index).insert(addr_key(addr), (room, false))
}

/// A hub after a connection was seen at an address at a given time.
pub open spec fn hub_saw(
    a: RoomHub,
    middle: RoomHub,
    b: RoomHub,
    room: usize,
    seat: usize,
    pc: PcType,
    addr: SocketAddress,
    now_ms: u64,
) -> bool {
    &&& hub_latched(a, middle, room, seat, pc, addr)
    &&& seat_changed(
        middle,
        b,
        room as int,
        seat as int,
        Participant {
            last_seen: now_ms,
            ..middle.slots@[room as int]->0.slots@[seat as int]->0
        },
    )
}

/// A binding request: the connection of its user fragment is from now on at the
/// address that it came from, and is answered if the integrity holds under its
/// password. The handshake starts where the client has chosen this path, unless
/// it has started before (`dtls_known`).
pub fn handle_stun(hub: &mut RoomHub, buf: &[u8], remote: SocketAddress, now_ms: u64, dtls_known: bool) -> (r:
    BindingOutcome)
    requires
        old(hub).wf(),
    ensures
        final(hub).wf(),
        match requested_ufrag(buf@) {
            None => r is Ignored && hub_unchanged(*old(hub), *final(hub)),
            Some(ufrag) => match old(hub).find_ufrag(ufrag) {
                None => r is Unknown && hub_unchanged(*old(hub), *final(hub)),
                Some((room, seat, pc)) => {
                    let m = stun_content(buf@);
                    let key = encode_utf8(
                        old(hub).slots@[room as int]->0.slots@[seat as int]->0.side(pc).ice_pwd@,
                    );
                    &&& exists|middle: RoomHub| #[trigger]
                        hub_saw(*old(hub), middle, *final(hub), room, seat, pc, remote, now_ms)
                    &&& match r {
                        BindingOutcome::Answered { room: i, seat: k, pc: c, response, start_dtls } => {
                            &&& i == room && k == seat && c == pc
                            &&& integrity_holds(m, key)
                            &&& response@ == binding_response(remote, m.transaction_id, key)
                            &&& start_dtls == (attr_value(m.attributes, ATTR_USE_CANDIDATE) is Some
                                && !dtls_known)
                        },
                        BindingOutcome::Mismatch { room: i, seat: k, pc: c } => i == room && k == seat
                            && c == pc && !integrity_holds(m, key),
                        _ => false,
                    }
                },
            },
        },
{
    let msg = match parse(buf) {
        Some(m) => m,
        None => {
            return BindingOutcome::Ignored;
        },
    };
    if msg.msg_type != BINDING_REQUEST {
        return BindingOutcome::Ignored;
    }
    let ufrag = match msg.username() {
        Some(u) => server_part(u.as_str()),
        None => {
            return BindingOutcome::Ignored;
        },
    };
    let ghost start = *hub;
    let (room, seat, pc): (usize, usize, PcType) = match hub.latch_by_ufrag(ufrag.as_str(), remote) {
        Some(x) => x,
        None => {
            return BindingOutcome::Unknown;
        },
    };
    let ghost middle = *hub;
    let ghost x = hub.slots@[room as int]->0;
    let ghost p = x.slots@[seat as int]->0;
    let mut key: Vec<u8> = Vec::new();
    match &mut hub.slots[room] {
        Some(r) => {
            assert(taken(r.slots@, seat as int));
            match &mut r.slots[seat] {
                Some(me) => {
                    me.touch(now_ms);
                    key = ice_integrity_key(me.session(pc).ice_pwd.as_str());
                },
                None => {},
            }
        },
        None => {},
    }
    proof {
        let y = hub.slots@[room as int]->0;
        let q = y.slots@[seat as int]->0;
        assert(y.slots@ =~= x.slots@.update(seat as int, Some(q)));
        assert(x.wf());
        lemma_one_participant(x, y, seat as int, q);
        lemma_replaced(middle, *hub, room as int);
        assert(hub_saw(start, middle, *hub, room, seat, pc, remote, now_ms));
    }
    if !verify_message_integrity(&msg, &key) {
        return BindingOutcome::Mismatch { room, seat, pc };
    }
    let response = build_binding_response(&msg.transaction_id, remote, &key);
    let start_dtls: bool = msg.has_use_candidate() && !dtls_known;
    BindingOutcome::Answered { room, seat, pc, response, start_dtls }
}

/// Whoever was seen at an address is found there: the next packet from that
/// address is theirs.
pub proof fn law_seen_is_found(
    a: RoomHub,
    middle: RoomHub,
    b: RoomHub,
    room: usize,
    seat: usize,
    pc: PcType,
    addr: SocketAddress,
    now_ms: u64,
)
    requires
        a.wf(),
        hub_saw(a, middle, b, room, seat, pc, addr, now_ms),
    ensures
        b.find_addr(addr) == Some((room, seat, pc)),
{
    law_hub_finds_latched(a, middle, room, seat, pc, addr);
}

} // verus!
