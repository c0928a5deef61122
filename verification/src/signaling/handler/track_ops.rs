//! Tracks on behalf of clients: publishing, acknowledging, muting, and the choice
//! of simulcast layers.

use vstd::prelude::*;

use crate::config::RoomMode;
use crate::room::hub::{
    hub_unchanged, indices_unchanged, lemma_replaced, open_at, room_replaced, RoomHub,
};
use crate::room::participant::{
    copy_text, find_layer, find_track, fresh_layer, kind_ssrc, layer_place, layer_ssrc,
    layers_distinct, layers_of, lemma_layers_distinct, lemma_place_names, lemma_track_at,
    ssrc_of_kind, ssrc_of_layer, track_at, Layer, Participant, SimulcastRewriter,
    SubscribeLayerEntry, Track, TrackKind,
};
use crate::room::room::{taken, Room};
use crate::signaling::effect::{
    effects_of, push_effect, push_pli, with_pli, Effect, EffectView, PliSchedule,
};
use crate::signaling::handler::helpers::{
    collect_subscribe_tracks, ensure_video_ssrcs, lemma_vssrcs_kept, offered_tracks, shown_track,
    vssrc_kept, vssrc_missing, vssrcs_given, vssrcs_kept,
};
use crate::signaling::handler::room_ops::Outcome;
use crate::signaling::message::{
    done, event, refused, text_of, tracks_of, MuteUpdateRequest, Packet, Payload, PayloadView,
    PublishTrackItem, PublishTracksRequest, SubscribeLayerRequest, SubscribeLayerTarget, TrackInfo,
    TrackView, TracksAckRequest,
};
use crate::signaling::opcode;
use crate::signaling::session::{lemma_one_participant, one_participant_changed, Session};
use crate::text::{decimal, owned, push_decimal, push_str, string_of, text_eq};
use crate::transport::addr::SocketAddress;

verus! {

// ---------------------------------------------------------------------------
// Where the client is
// ---------------------------------------------------------------------------

/// Why a request about the tracks of a room is refused: the client is in no
/// room, the room is gone, or the client is not in it.
pub open spec fn membership(hub: RoomHub, room: Option<Seq<char>>, user: Seq<char>) -> Option<
    (u16, Seq<char>),
> {
    match room {
        None => Some((2004, "not in room"@)),
        Some(id) => match hub.room(id) {
            None => Some((2001, "room not found"@)),
            Some(x) => if x.member(user) is None {
                Some((2004, "not in room"@))
            } else {
                None
            },
        },
    }
}

/// The places of the client's room and of the client in it, or the refusal.
fn find_member(session: &Session, hub: &RoomHub, op: u16, pid: u64) -> (r: Result<
    (usize, usize),
    Packet,
>)
    requires
        hub.wf(),
        session@.user_id is Some,
    ensures
        ({
            let user = session@.user_id->0;
            match (r, membership(*hub, session@.current_room, user)) {
                (Ok((slot, seat)), None) => {
                    let id = session@.current_room->0;
                    let x = hub.room(id)->0;
                    &&& session@.current_room is Some
                    &&& hub.place_of_room(id) == Some(slot as int)
                    &&& open_at(hub.slots@, slot as int)
                    &&& hub.slots@[slot as int] == Some(x)
                    &&& x.id@ == id && x.wf()
                    &&& x.place_of_user(user) == Some(seat as int)
                    &&& taken(x.slots@, seat as int)
                    &&& x.slots@[seat as int]->0.user_id@ == user
                },
                (Err(p), Some((code, msg))) => p@ == refused(op, pid, code, msg),
                _ => false,
            }
        }),
{
    let user = match &session.user_id {
        Some(u) => u,
        None => {
            return Err(Packet::err(op, pid, 2004, "not in room"));
        },
    };
    let id = match &session.current_room {
        Some(x) => x,
        None => {
            return Err(Packet::err(op, pid, 2004, "not in room"));
        },
    };
    let slot: usize = match hub.slot_of(id.as_str()) {
        Some(i) => i,
        None => {
            return Err(Packet::err(op, pid, 2001, "room not found"));
        },
    };
    match &hub.slots[slot] {
        Some(room) => match room.slot_of(user.as_str()) {
            Some(seat) => Ok((slot, seat)),
            None => Err(Packet::err(op, pid, 2004, "not in room")),
        },
        None => Err(Packet::err(op, pid, 2001, "room not found")),
    }
}

fn only(reply: Packet) -> (r: Outcome)
    ensures
        r.reply == reply,
        r.effects@.len() == 0,
{
    Outcome { reply, effects: Vec::new() }
}

// ---------------------------------------------------------------------------
// Publishing
// ---------------------------------------------------------------------------

/// What a published track is.
pub struct TrackData {
    pub ssrc: u32,
    pub kind: TrackKind,
    pub track_id: Seq<char>,
    pub rtx_ssrc: Option<u32>,
    pub muted: bool,
    pub rid: Option<Seq<char>>,
    pub simulcast_group: Option<u32>,
}

pub open spec fn track_data(t: Track) -> TrackData {
    TrackData {
        ssrc: t.ssrc,
        kind: t.kind,
        track_id: t.track_id@,
        rtx_ssrc: t.rtx_ssrc,
        muted: t.muted,
        rid: text_of(t.rid),
        simulcast_group: t.simulcast_group,
    }
}

pub open spec fn data_of(v: Seq<Track>) -> Seq<TrackData> {
    v.map_values(|t: Track| track_data(t))
}

/// The first track with an SSRC.
pub open spec fn data_at(tracks: Seq<TrackData>, ssrc: u32) -> Option<int>
    decreases tracks.len(),
{
    if tracks.len() == 0 {
        None
    } else if tracks[0].ssrc == ssrc {
        Some(0)
    } else {
        match data_at(tracks.drop_first(), ssrc) {
            Some(i) => Some(i + 1),
            None => None,
        }
    }
}

proof fn lemma_data_at(tracks: Seq<Track>, ssrc: u32)
    ensures
        data_at(data_of(tracks), ssrc) == track_at(tracks, ssrc),
    decreases tracks.len(),
{
    if tracks.len() > 0 {
        assert(data_of(tracks).drop_first() =~= data_of(tracks.drop_first()));
        lemma_data_at(tracks.drop_first(), ssrc);
    }
}

/// The kind that a client names.
pub open spec fn named_kind(s: Seq<char>) -> Option<TrackKind> {
    if s == "audio"@ {
        Some(TrackKind::Audio)
    } else if s == "video"@ {
        Some(TrackKind::Video)
    } else {
        None
    }
}

fn kind_of_name(s: &str) -> (r: Option<TrackKind>)
    ensures
        r == named_kind(s@),
{
    if text_eq(s, "audio") {
        Some(TrackKind::Audio)
    } else if text_eq(s, "video") {
        Some(TrackKind::Video)
    } else {
        None
    }
}

/// What has been registered so far: the tracks, how many retransmission SSRCs and
/// track identifiers have been given out, the simulcast group, and what the
/// others are told.
pub struct Registry {
    pub tracks: Seq<TrackData>,
    pub rtx_count: u32,
    pub next_id: u64,
    pub group: u32,
    pub shown: Seq<TrackView>,
}

/// The identifier of a track: the name of the publisher and a number.
pub open spec fn track_name(user: Seq<char>, n: u64) -> Seq<char> {
    user.push('_') + decimal(n as nat)
}

/// The registry after one more track. An SSRC that is already published is not
/// registered again, but told about.
pub open spec fn registered(g: Registry, user: Seq<char>, item: PublishTrackItem) -> Registry {
    match named_kind(item.kind@) {
        None => g,
        Some(kind) => {
            let id = track_name(user, g.next_id);
            let rid = text_of(item.rid);
            let known = data_at(g.tracks, item.ssrc) is Some;
            let tracks = if known {
                g.tracks
            } else {
                g.tracks.push(
                    TrackData {
                        ssrc: item.ssrc,
                        kind,
                        track_id: id,
                        rtx_ssrc: if kind == TrackKind::Video {
                            Some(item.ssrc.wrapping_add(1000).wrapping_add(g.rtx_count))
                        } else {
                            None
                        },
                        muted: false,
                        rid,
                        simulcast_group: match rid {
                            Some(_) => Some(g.group),
                            None => None,
                        },
                    },
                )
            };
            Registry {
                tracks,
                rtx_count: if !known && kind == TrackKind::Video {
                    g.rtx_count.wrapping_add(1)
                } else {
                    g.rtx_count
                },
                next_id: g.next_id.wrapping_add(1),
                group: if rid == Some("l"@) {
                    g.group.wrapping_add(1)
                } else {
                    g.group
                },
                shown: g.shown.push(
                    TrackView {
                        user_id: Some(user),
                        track_id: id,
                        kind,
                        ssrc: item.ssrc,
                        rtx_ssrc: tracks[data_at(tracks, item.ssrc)->0].rtx_ssrc,
                        rid,
                        is_virtual: false,
                    },
                ),
            }
        },
    }
}

/// The registry after the first `n` tracks of a request.
pub open spec fn registry(p: Participant, items: Seq<PublishTrackItem>, n: int) -> Registry
    decreases n,
{
    if n <= 0 {
        Registry {
            tracks: data_of(p.tracks@),
            rtx_count: p.rtx_ssrc_counter,
            next_id: p.tracks@.len() as u64,
            group: 0,
            shown: Seq::empty(),
        }
    } else {
        registered(registry(p, items, n - 1), p.user_id@, items[n - 1])
    }
}

fn track_name_of(user: &str, n: u64) -> (r: String)
    ensures
        r@ == track_name(user@, n),
{
    let mut out: Vec<char> = Vec::new();
    push_str(&mut out, user);
    out.push('_');
    push_decimal(&mut out, n);
    assert(out@ =~= track_name(user@, n));
    string_of(out)
}

/// Registers the tracks of a publisher. What the others are told is returned.
pub fn register_tracks(p: &mut Participant, items: &Vec<PublishTrackItem>) -> (r: Vec<TrackInfo>)
    requires
        old(p).wf(),
    ensures
        final(p).wf(),
        ({
            let g = registry(*old(p), items@, items@.len() as int);
            &&& *final(p) == (Participant {
                tracks: final(p).tracks,
                rtx_ssrc_counter: g.rtx_count,
                ..*old(p)
            })
            &&& data_of(final(p).tracks@) == g.tracks
            &&& tracks_of(r@) == g.shown
        }),
{
    let ghost start = *p;
    let user: String = p.user_id.clone();
    let mut shown: Vec<TrackInfo> = Vec::new();
    let mut next_id: u64 = p.tracks.len() as u64;
    let mut group: u32 = 0;
    let mut i: usize = 0;
    assert(tracks_of(shown@) =~= Seq::empty());
    while i < items.len()
        invariant
            i <= items@.len(),
            p.wf(),
            user == start.user_id,
            *p == (Participant {
                tracks: p.tracks,
                rtx_ssrc_counter: p.rtx_ssrc_counter,
                ..start
            }),
            ({
                let g = registry(start, items@, i as int);
                &&& data_of(p.tracks@) == g.tracks
                &&& p.rtx_ssrc_counter == g.rtx_count
                &&& next_id == g.next_id
                &&& group == g.group
                &&& tracks_of(shown@) == g.shown
            }),
        decreases items@.len() - i,
    {
        let item = &items[i];
        let ghost g = registry(start, items@, i as int);
        if let Some(kind) = kind_of_name(item.kind.as_str()) {
            let ghost before = *p;
            let ghost shown_before = shown@;
            proof {
                lemma_data_at(before.tracks@, item.ssrc);
            }
            let name = track_name_of(user.as_str(), next_id);
            next_id = next_id.wrapping_add(1);
            let this_group: Option<u32> = match &item.rid {
                Some(_) => Some(group),
                None => None,
            };
            if let Some(rid) = &item.rid {
                if text_eq(rid.as_str(), "l") {
                    group = group.wrapping_add(1);
                }
            }
            p.add_track_ext(item.ssrc, kind, name.clone(), copy_text(&item.rid), this_group);
            proof {
                lemma_data_at(p.tracks@, item.ssrc);
                lemma_track_at(p.tracks@, item.ssrc);
                if track_at(before.tracks@, item.ssrc) is None {
                    assert(p.tracks@.last().ssrc == item.ssrc);
                    assert(data_of(p.tracks@) =~= data_of(before.tracks@).push(
                        track_data(p.tracks@.last()),
                    ));
                }
            }
            let rtx_ssrc: Option<u32> = match find_track(&p.tracks, item.ssrc) {
                Some(k) => p.tracks[k].rtx_ssrc,
                None => None,
            };
            shown.push(
                TrackInfo {
                    user_id: Some(user.clone()),
                    track_id: name,
                    kind,
                    ssrc: item.ssrc,
                    rtx_ssrc,
                    rid: copy_text(&item.rid),
                    is_virtual: false,
                },
            );
            proof {
                let h = registered(g, start.user_id@, *item);
                assert(tracks_of(shown@) =~= tracks_of(shown_before).push(shown@.last()@));
                assert(data_of(p.tracks@) == h.tracks);
                assert(tracks_of(shown@) =~= h.shown);
            }
        }
        i += 1;
    }
    shown
}

/// Publishing takes nothing back: the tracks of before stay as they were, and
/// come first.
pub proof fn law_publishing_keeps_tracks(p: Participant, items: Seq<PublishTrackItem>, n: int)
    requires
        0 <= n <= items.len(),
    ensures
        registry(p, items, n).tracks.len() >= p.tracks@.len(),
        registry(p, items, n).tracks.take(p.tracks@.len() as int) == data_of(p.tracks@),
    decreases n,
{
    if n > 0 {
        law_publishing_keeps_tracks(p, items, n - 1);
        let g = registry(p, items, n - 1);
        let h = registry(p, items, n);
        assert(h.tracks.take(p.tracks@.len() as int) =~= g.tracks.take(p.tracks@.len() as int));
    } else {
        assert(registry(p, items, n).tracks.take(p.tracks@.len() as int) =~= data_of(p.tracks@));
    }
}

/// Every track of a request that names its kind is published afterwards, and told
/// of with the SSRC of its retransmissions.
pub proof fn law_published_is_known(p: Participant, items: Seq<PublishTrackItem>, n: int, k: int)
    requires
        0 <= k < n <= items.len(),
        named_kind(items[k].kind@) is Some,
    ensures
        data_at(registry(p, items, n).tracks, items[k].ssrc) is Some,
    decreases n,
{
    let g = registry(p, items, n - 1);
    let h = registry(p, items, n);
    if k < n - 1 {
        law_published_is_known(p, items, n - 1, k);
        if h.tracks.len() > g.tracks.len() {
            lemma_data_push(g.tracks, h.tracks.last(), items[k].ssrc);
            assert(h.tracks =~= g.tracks.push(h.tracks.last()));
        }
    } else if h.tracks.len() > g.tracks.len() {
        lemma_data_push(g.tracks, h.tracks.last(), items[k].ssrc);
        assert(h.tracks =~= g.tracks.push(h.tracks.last()));
    }
}

proof fn lemma_data_push(tracks: Seq<TrackData>, t: TrackData, ssrc: u32)
    ensures
        data_at(tracks, ssrc) is Some ==> data_at(tracks.push(t), ssrc) is Some,
        t.ssrc == ssrc ==> data_at(tracks.push(t), ssrc) is Some,
    decreases tracks.len(),
{
    if tracks.len() > 0 {
        assert(tracks.push(t).drop_first() =~= tracks.drop_first().push(t));
        lemma_data_push(tracks.drop_first(), t, ssrc);
    } else {
        assert(tracks.push(t)[0] == t);
    }
}

/// A track as the others are told of it: with simulcast the low layer is not
/// told of, and video goes under the publisher's virtual SSRC without its layer.
pub open spec fn announced(tracks: Seq<TrackView>, simulcast: bool, vssrc: u32, n: int) -> Seq<TrackView>
    decreases n,
{
    if n <= 0 {
        Seq::empty()
    } else {
        let rest = announced(tracks, simulcast, vssrc, n - 1);
        let t = tracks[n - 1];
        if !simulcast {
            rest.push(t)
        } else if t.rid == Some("l"@) {
            rest
        } else if t.kind == TrackKind::Video {
            rest.push(TrackView { ssrc: vssrc, rid: None, ..t })
        } else {
            rest.push(t)
        }
    }
}

/// Those who are in the room when a track is published are told the same of it as
/// those who come later: a new track that is no simulcast layer is announced as
/// it is offered.
pub proof fn law_announced_as_offered(
    g: Registry,
    user: Seq<char>,
    item: PublishTrackItem,
    t: Track,
    simulcast: bool,
    vssrc: u32,
)
    requires
        named_kind(item.kind@) is Some,
        item.rid is None,
        data_at(g.tracks, item.ssrc) is None,
        track_data(t) == registered(g, user, item).tracks.last(),
        vssrc != 0,
    ensures
        announced(seq![registered(g, user, item).shown.last()], simulcast, vssrc, 1) == seq![
            shown_track(user, t, simulcast, vssrc),
        ],
{
    let h = registered(g, user, item);
    let v = h.shown.last();
    lemma_data_new(g.tracks, h.tracks.last(), item.ssrc);
    assert(h.tracks =~= g.tracks.push(h.tracks.last()));
    let one = seq![v];
    assert(announced(one, simulcast, vssrc, 0) =~= Seq::empty());
    assert(announced(one, simulcast, vssrc, 1) =~= seq![shown_track(user, t, simulcast, vssrc)]);
}

proof fn lemma_data_new(tracks: Seq<TrackData>, t: TrackData, ssrc: u32)
    requires
        data_at(tracks, ssrc) is None,
        t.ssrc == ssrc,
    ensures
        data_at(tracks.push(t), ssrc) == Some(tracks.len() as int),
    decreases tracks.len(),
{
    if tracks.len() > 0 {
        assert(tracks.push(t).drop_first() =~= tracks.drop_first().push(t));
        lemma_data_new(tracks.drop_first(), t, ssrc);
    }
}

/// Whether a video is told of.
pub open spec fn announces_video(tracks: Seq<TrackView>, n: int) -> bool
    decreases n,
{
    if n <= 0 {
        false
    } else {
        announces_video(tracks, n - 1) || (tracks[n - 1].kind == TrackKind::Video && tracks[n - 1].rid
            != Some("l"@))
    }
}

fn is_low(t: &TrackInfo) -> (r: bool)
    ensures
        r == (t@.rid == Some("l"@)),
{
    match &t.rid {
        Some(s) => text_eq(s.as_str(), "l"),
        None => false,
    }
}

fn announces(tracks: &Vec<TrackInfo>) -> (r: bool)
    ensures
        r == announces_video(tracks_of(tracks@), tracks@.len() as int),
{
    let mut r: bool = false;
    let mut i: usize = 0;
    while i < tracks.len()
        invariant
            i <= tracks@.len(),
            r == announces_video(tracks_of(tracks@), i as int),
        decreases tracks@.len() - i,
    {
        assert(tracks_of(tracks@)[i as int] == tracks@[i as int]@);
        if tracks[i].kind == TrackKind::Video && !is_low(&tracks[i]) {
            r = true;
        }
        i += 1;
    }
    r
}

fn announce(tracks: Vec<TrackInfo>, simulcast: bool, vssrc: u32) -> (r: Vec<TrackInfo>)
    ensures
        tracks_of(r@) == announced(tracks_of(tracks@), simulcast, vssrc, tracks@.len() as int),
{
    let ghost all = tracks_of(tracks@);
    let mut out: Vec<TrackInfo> = Vec::new();
    assert(tracks_of(out@) =~= Seq::empty());
    for track in it: tracks
        invariant
            it.seq() == tracks@,
            all == tracks_of(tracks@),
            tracks_of(out@) == announced(all, simulcast, vssrc, it.index() as int),
    {
        let mut t = track;
        let ghost before = out@;
        assert(all[it.index() as int] == t@);
        if !(simulcast && is_low(&t)) {
            if simulcast && t.kind == TrackKind::Video {
                t.ssrc = vssrc;
                t.rid = None;
            }
            out.push(t);
            assert(tracks_of(out@) =~= tracks_of(before).push(t@));
        }
    }
    out
}

/// A publisher before and after their tracks were registered in a room.
pub open spec fn published(
    p: Participant,
    q: Participant,
    req: PublishTracksRequest,
    simulcast: bool,
) -> bool {
    let g = registry(p, req.tracks@, req.tracks@.len() as int);
    &&& tracks_registered(p, q, req)
    &&& if simulcast && p.simulcast_video_ssrc == 0 && announces_video(g.shown, g.shown.len() as int) {
        q.simulcast_video_ssrc != 0
    } else {
        q.simulcast_video_ssrc == p.simulcast_video_ssrc
    }
}

/// A publisher before and after their tracks were registered, whatever became of
/// the virtual SSRC.
pub open spec fn tracks_registered(p: Participant, q: Participant, req: PublishTracksRequest) -> bool {
    let g = registry(p, req.tracks@, req.tracks@.len() as int);
    &&& q == (Participant {
        tracks: q.tracks,
        rtx_ssrc_counter: g.rtx_count,
        twcc_extmap_id: match req.twcc_extmap_id {
            Some(id) => id,
            None => p.twcc_extmap_id,
        },
        simulcast_video_ssrc: q.simulcast_video_ssrc,
        ..p
    })
    &&& data_of(q.tracks@) == g.tracks
}

/// What the others are told of new tracks, if there is anything to tell.
pub open spec fn publish_effects(user: Seq<char>, tracks: Seq<TrackView>) -> Seq<EffectView> {
    if tracks.len() > 0 {
        seq![
            EffectView::ToOthers {
                exclude: user,
                packet: event(opcode::TRACKS_UPDATE, PayloadView::TracksAdded { tracks }),
            },
        ]
    } else {
        Seq::empty()
    }
}

/// The client publishes tracks. Nothing only where their video needs a virtual
/// SSRC and the system has no random numbers to give.
pub fn handle_publish_tracks(session: &Session, hub: &mut RoomHub, pid: u64, req: &PublishTracksRequest) -> (r:
    Option<Outcome>)
    requires
        old(hub).wf(),
        session@.user_id is Some,
    ensures
        final(hub).wf(),
        ({
            let user = session@.user_id->0;
            match membership(*old(hub), session@.current_room, user) {
                Some((code, msg)) => {
                    &&& hub_unchanged(*old(hub), *final(hub))
                    &&& r matches Some(o) && o.reply@ == refused(
                        opcode::PUBLISH_TRACKS,
                        pid,
                        code,
                        msg,
                    ) && o.effects@.len() == 0
                },
                None => {
                    let id = session@.current_room->0;
                    let x = old(hub).room(id)->0;
                    let y = final(hub).room(id)->0;
                    let p = x.member(user)->0;
                    let q = y.slots@[x.place_of_user(user)->0]->0;
                    let g = registry(p, req.tracks@, req.tracks@.len() as int);
                    &&& room_replaced(*old(hub), *final(hub), id)
                    &&& indices_unchanged(*old(hub), *final(hub))
                    &&& one_participant_changed(x, y, user, q)
                    &&& r is None ==> {
                        &&& x.simulcast_enabled && p.simulcast_video_ssrc == 0
                        &&& announces_video(g.shown, g.shown.len() as int)
                        &&& tracks_registered(p, q, *req)
                        &&& q.simulcast_video_ssrc == 0
                    }
                    &&& r matches Some(o) ==> {
                        &&& published(p, q, *req, x.simulcast_enabled)
                        &&& o.reply@ == done(
                            opcode::PUBLISH_TRACKS,
                            pid,
                            PayloadView::Registered { count: g.shown.len() as usize },
                        )
                        &&& effects_of(o.effects@) == publish_effects(
                            user,
                            announced(
                                g.shown,
                                x.simulcast_enabled,
                                q.simulcast_video_ssrc,
                                g.shown.len() as int,
                            ),
                        )
                    }
                },
            }
        }),
{
    let (slot, seat): (usize, usize) = match find_member(session, hub, opcode::PUBLISH_TRACKS, pid) {
        Ok(x) => x,
        Err(p) => {
            return Some(only(p));
        },
    };
    let ghost start = *hub;
    let ghost x = hub.slots@[slot as int]->0;
    let ghost p = x.slots@[seat as int]->0;
    let mut told: Vec<TrackInfo> = Vec::new();
    let mut count: usize = 0;
    let mut fine: bool = false;
    match &mut hub.slots[slot] {
        Some(room) => {
            assert(taken(room.slots@, seat as int));
            let simulcast: bool = room.simulcast_enabled;
            match &mut room.slots[seat] {
                Some(me) => {
                    if let Some(id) = req.twcc_extmap_id {
                        me.twcc_extmap_id = id;
                    }
                    let ghost middle = *me;
                    let shown = register_tracks(me, &req.tracks);
                    proof {
                        lemma_registry_twcc(p, middle, req.tracks@, req.tracks@.len() as int);
                        assert(tracks_of(shown@).len() == shown@.len());
                    }
                    count = shown.len();
                    fine = true;
                    if simulcast && announces(&shown) {
                        match me.ensure_simulcast_video_ssrc() {
                            Some(_) => {},
                            None => {
                                fine = false;
                            },
                        }
                    }
                    told = announce(shown, simulcast, me.simulcast_video_ssrc);
                },
                None => {},
            }
        },
        None => {},
    }
    proof {
        let y = hub.slots@[slot as int]->0;
        let q = y.slots@[seat as int]->0;
        assert(y.slots@ =~= x.slots@.update(seat as int, Some(q)));
        lemma_one_participant(x, y, seat as int, q);
        lemma_replaced(start, *hub, slot as int);
        assert(tracks_of(told@).len() == told@.len());
    }
    if !fine {
        return None;
    }
    let mut effects: Vec<Effect> = Vec::new();
    assert(effects_of(effects@) =~= Seq::empty());
    if told.len() > 0 {
        let exclude: String = match &session.user_id {
            Some(u) => u.clone(),
            None => String::new(),
        };
        let packet = Packet::new(opcode::TRACKS_UPDATE, 0, Payload::TracksAdded { tracks: told });
        push_effect(&mut effects, Effect::ToOthers { exclude, packet });
    }
    proof {
        assert(effects_of(effects@) =~= publish_effects(
            session@.user_id->0,
            tracks_of(told@),
        ));
    }
    let reply = Packet::ok(opcode::PUBLISH_TRACKS, pid, Payload::Registered { count });
    Some(Outcome { reply, effects })
}

/// What is registered does not depend on how the client numbers its packets.
proof fn lemma_registry_twcc(p: Participant, q: Participant, items: Seq<PublishTrackItem>, n: int)
    requires
        q == (Participant { twcc_extmap_id: q.twcc_extmap_id, ..p }),
    ensures
        registry(p, items, n) == registry(q, items, n),
    decreases n,
{
    if n > 0 {
        lemma_registry_twcc(p, q, items, n - 1);
    }
}

// ---------------------------------------------------------------------------
// Acknowledging
// ---------------------------------------------------------------------------

/// The SSRCs of tracks.
pub open spec fn ssrcs_of(tracks: Seq<TrackView>) -> Seq<u32> {
    tracks.map_values(|t: TrackView| t.ssrc)
}

/// A stream of a push-to-talk room, as a client is told of it anew.
pub open spec fn virtual_track(name: Seq<char>, kind: TrackKind, ssrc: u32) -> TrackView {
    TrackView {
        user_id: Some("__virtual__"@),
        track_id: name,
        kind,
        ssrc,
        rtx_ssrc: None,
        rid: None,
        is_virtual: false,
    }
}

/// What `user` should know of: in push-to-talk the two streams of the room, else
/// the tracks of everybody else.
pub open spec fn due_tracks(room: Room, user: Seq<char>) -> Seq<TrackView> {
    if room.mode == RoomMode::Ptt {
        seq![
            virtual_track("virtual_audio"@, TrackKind::Audio, room.audio_rewriter@.ssrc),
            virtual_track("virtual_video"@, TrackKind::Video, room.video_rewriter@.ssrc),
        ]
    } else {
        offered_tracks(room, user)
    }
}

fn collect_due(room: &Room, user: &str) -> (r: Vec<TrackInfo>)
    ensures
        tracks_of(r@) == due_tracks(*room, user@),
{
    if room.mode == RoomMode::Ptt {
        let mut v: Vec<TrackInfo> = Vec::new();
        v.push(
            TrackInfo {
                user_id: Some(owned("__virtual__")),
                track_id: owned("virtual_audio"),
                kind: TrackKind::Audio,
                ssrc: room.audio_rewriter.virtual_ssrc(),
                rtx_ssrc: None,
                rid: None,
                is_virtual: false,
            },
        );
        v.push(
            TrackInfo {
                user_id: Some(owned("__virtual__")),
                track_id: owned("virtual_video"),
                kind: TrackKind::Video,
                ssrc: room.video_rewriter.virtual_ssrc(),
                rtx_ssrc: None,
                rid: None,
                is_virtual: false,
            },
        );
        assert(tracks_of(v@) =~= due_tracks(*room, user@));
        v
    } else {
        collect_subscribe_tracks(room, user)
    }
}

/// Whether two lists hold the same numbers, however often and in whatever order.
pub open spec fn same_numbers(a: Seq<u32>, b: Seq<u32>) -> bool {
    forall|x: u32| #[trigger] a.contains(x) <==> b.contains(x)
}

fn all_known(tracks: &Vec<TrackInfo>, ssrcs: &Vec<u32>) -> (r: bool)
    ensures
        r == (forall|x: u32| #[trigger]
            ssrcs_of(tracks_of(tracks@)).contains(x) ==> ssrcs@.contains(x)),
{
    let ghost list = ssrcs_of(tracks_of(tracks@));
    let mut i: usize = 0;
    while i < tracks.len()
        invariant
            i <= tracks@.len() == list.len(),
            list == ssrcs_of(tracks_of(tracks@)),
            forall|k: int| 0 <= k < i ==> ssrcs@.contains(#[trigger] list[k]),
        decreases tracks@.len() - i,
    {
        let ghost x = tracks@[i as int].ssrc;
        let mut found: bool = false;
        let mut j: usize = 0;
        while j < ssrcs.len() && !found
            invariant
                j <= ssrcs@.len(),
                i < tracks@.len(),
                x == tracks@[i as int].ssrc,
                found ==> ssrcs@.contains(x),
                !found ==> forall|k: int| 0 <= k < j ==> ssrcs@[k] != x,
            decreases ssrcs@.len() - j + (if found { 0int } else { 1int }),
        {
            if ssrcs[j] == tracks[i].ssrc {
                assert(ssrcs@[j as int] == x);
                found = true;
            } else {
                j += 1;
            }
        }
        assert(list[i as int] == x);
        if !found {
            assert(list.contains(x));
            assert(!ssrcs@.contains(x));
            return false;
        }
        i += 1;
    }
    assert forall|x: u32| #[trigger] list.contains(x) implies ssrcs@.contains(x) by {
        let k = choose|k: int| 0 <= k < list.len() && list[k] == x;
        assert(ssrcs@.contains(list[k]));
    }
    true
}

fn all_due(ssrcs: &Vec<u32>, tracks: &Vec<TrackInfo>) -> (r: bool)
    ensures
        r == (forall|x: u32| #[trigger]
            ssrcs@.contains(x) ==> ssrcs_of(tracks_of(tracks@)).contains(x)),
{
    let ghost list = ssrcs_of(tracks_of(tracks@));
    let mut i: usize = 0;
    while i < ssrcs.len()
        invariant
            i <= ssrcs@.len(),
            list == ssrcs_of(tracks_of(tracks@)),
            forall|k: int| 0 <= k < i ==> list.contains(#[trigger] ssrcs@[k]),
        decreases ssrcs@.len() - i,
    {
        let x: u32 = ssrcs[i];
        let mut found: bool = false;
        let mut j: usize = 0;
        while j < tracks.len() && !found
            invariant
                j <= tracks@.len() == list.len(),
                list == ssrcs_of(tracks_of(tracks@)),
                found ==> list.contains(x),
                !found ==> forall|k: int| 0 <= k < j ==> list[k] != x,
            decreases tracks@.len() - j + (if found { 0int } else { 1int }),
        {
            assert(list[j as int] == tracks@[j as int].ssrc);
            if tracks[j].ssrc == x {
                found = true;
            } else {
                j += 1;
            }
        }
        if !found {
            assert(ssrcs@.contains(x));
            assert(!list.contains(x));
            return false;
        }
        i += 1;
    }
    assert forall|x: u32| #[trigger] ssrcs@.contains(x) implies list.contains(x) by {
        let k = choose|k: int| 0 <= k < ssrcs@.len() && ssrcs@[k] == x;
        assert(list.contains(ssrcs@[k]));
    }
    true
}

/// Why an acknowledgement is refused.
pub open spec fn ack_refusal(hub: RoomHub, room: Option<Seq<char>>) -> Option<(u16, Seq<char>)> {
    match room {
        None => Some((2004, "not in room"@)),
        Some(id) => if hub.room(id) is None {
            Some((2001, "room not found"@))
        } else {
            None
        },
    }
}

/// The answer to an acknowledgement, and where the client does not know what it
/// should, a message that tells it.
#[derive(Debug)]
pub struct AckOutcome {
    pub reply: Packet,
    pub resync: Option<Packet>,
}

/// The client says which SSRCs it knows. Nothing only where somebody needs a
/// virtual SSRC and the system has no random numbers to give.
pub fn handle_tracks_ack(session: &Session, hub: &mut RoomHub, pid: u64, req: &TracksAckRequest) -> (r:
    Option<AckOutcome>)
    requires
        old(hub).wf(),
        session@.user_id is Some,
    ensures
        final(hub).wf(),
        ({
            let user = session@.user_id->0;
            match ack_refusal(*old(hub), session@.current_room) {
                Some((code, msg)) => {
                    &&& hub_unchanged(*old(hub), *final(hub))
                    &&& r matches Some(o) && o.reply@ == refused(opcode::TRACKS_ACK, pid, code, msg)
                        && o.resync is None
                },
                None => {
                    let id = session@.current_room->0;
                    let x = old(hub).room(id)->0;
                    let y = final(hub).room(id)->0;
                    let due = due_tracks(y, user);
                    &&& room_replaced(*old(hub), *final(hub), id)
                    &&& indices_unchanged(*old(hub), *final(hub))
                    &&& vssrcs_kept(x, y)
                    &&& r is None ==> vssrc_missing(x, user, true)
                    &&& r matches Some(o) ==> {
                        let synced = same_numbers(ssrcs_of(due), req.ssrcs@);
                        &&& vssrcs_given(x, y, user, true, x.slots@.len() as int)
                        &&& o.reply@ == done(
                            opcode::TRACKS_ACK,
                            pid,
                            PayloadView::Synced { synced },
                        )
                        &&& o.resync is None <==> synced
                        &&& o.resync matches Some(p) ==> p@ == event(
                            opcode::TRACKS_RESYNC,
                            PayloadView::TracksResync { tracks: due },
                        )
                    }
                },
            }
        }),
{
    let user = match &session.user_id {
        Some(u) => u,
        None => {
            return None;
        },
    };
    let id = match &session.current_room {
        Some(x) => x,
        None => {
            let reply = Packet::err(opcode::TRACKS_ACK, pid, 2004, "not in room");
            return Some(AckOutcome { reply, resync: None });
        },
    };
    let slot: usize = match hub.slot_of(id.as_str()) {
        Some(i) => i,
        None => {
            let reply = Packet::err(opcode::TRACKS_ACK, pid, 2001, "room not found");
            return Some(AckOutcome { reply, resync: None });
        },
    };
    let ghost start = *hub;
    let due: Option<Vec<TrackInfo>> = match &mut hub.slots[slot] {
        Some(room) => if ensure_video_ssrcs(room, user.as_str(), true) {
            Some(collect_due(room, user.as_str()))
        } else {
            None
        },
        None => None,
    };
    proof {
        lemma_replaced(start, *hub, slot as int);
    }
    match due {
        Some(tracks) => {
            let known: bool = all_known(&tracks, &req.ssrcs);
            let wanted: bool = all_due(&req.ssrcs, &tracks);
            let synced: bool = known && wanted;
            let ghost list = ssrcs_of(tracks_of(tracks@));
            assert(synced == same_numbers(list, req.ssrcs@)) by {
                if same_numbers(list, req.ssrcs@) {
                    assert(forall|x: u32| #[trigger]
                        list.contains(x) ==> req.ssrcs@.contains(x));
                    assert forall|x: u32| #[trigger] req.ssrcs@.contains(x) implies list.contains(
                        x,
                    ) by {
                        assert(list.contains(x) <==> req.ssrcs@.contains(x));
                    }
                }
            }
            let reply = Packet::ok(opcode::TRACKS_ACK, pid, Payload::Synced { synced });
            if synced {
                Some(AckOutcome { reply, resync: None })
            } else {
                let resync = Packet::new(opcode::TRACKS_RESYNC, 0, Payload::TracksResync { tracks });
                Some(AckOutcome { reply, resync: Some(resync) })
            }
        },
        None => None,
    }
}

/// A client that names exactly what it should know is in step, however often and
/// in whatever order it names them.
pub proof fn law_ack_of_due_is_synced(due: Seq<TrackView>, told: Seq<u32>)
    requires
        forall|x: u32| #[trigger] told.contains(x) <==> exists|i: int|
            0 <= i < due.len() && (#[trigger] due[i]).ssrc == x,
    ensures
        same_numbers(ssrcs_of(due), told),
{
    let list = ssrcs_of(due);
    assert forall|x: u32| #[trigger] list.contains(x) <==> told.contains(x) by {
        if list.contains(x) {
            let k = choose|k: int| 0 <= k < list.len() && list[k] == x;
            assert(due[k].ssrc == x);
        }
        if told.contains(x) {
            let k = choose|i: int| 0 <= i < due.len() && (#[trigger] due[i]).ssrc == x;
            assert(list[k] == x);
        }
    }
}

// ---------------------------------------------------------------------------
// Muting
// ---------------------------------------------------------------------------

/// What the others are told when a track is muted or unmuted; a publisher who
/// unmutes a video is asked for a key frame of it.
pub open spec fn mute_effects(
    p: Participant,
    user: Seq<char>,
    room_id: Seq<char>,
    ssrc: u32,
    kind: TrackKind,
    muted: bool,
) -> Seq<EffectView> {
    let told = seq![
        EffectView::ToOthers {
            exclude: user,
            packet: event(
                opcode::TRACK_STATE,
                PayloadView::TrackState { user_id: user, ssrc, kind, muted },
            ),
        },
    ];
    if kind != TrackKind::Video {
        told
    } else if muted {
        told.push(
            EffectView::ToOthers {
                exclude: user,
                packet: event(opcode::VIDEO_SUSPENDED, PayloadView::Video { user_id: user, room_id }),
            },
        )
    } else {
        match p.publish.address {
            Some(addr) => if p.publish.ready() {
                told.push(
                    EffectView::PliBurst {
                        user_id: user,
                        ssrc,
                        addr,
                        schedule: PliSchedule::Once,
                    },
                )
            } else {
                told
            },
            None => told,
        }
    }
}

/// The client mutes or unmutes a track.
pub fn handle_mute_update(session: &Session, hub: &mut RoomHub, pid: u64, req: &MuteUpdateRequest) -> (r:
    Outcome)
    requires
        old(hub).wf(),
        session@.user_id is Some,
    ensures
        final(hub).wf(),
        ({
            let user = session@.user_id->0;
            match membership(*old(hub), session@.current_room, user) {
                Some((code, msg)) => {
                    &&& hub_unchanged(*old(hub), *final(hub))
                    &&& r.reply@ == refused(opcode::MUTE_UPDATE, pid, code, msg)
                    &&& r.effects@.len() == 0
                },
                None => {
                    let id = session@.current_room->0;
                    let x = old(hub).room(id)->0;
                    let y = final(hub).room(id)->0;
                    let p = x.member(user)->0;
                    let q = y.slots@[x.place_of_user(user)->0]->0;
                    match track_at(p.tracks@, req.ssrc) {
                        None => {
                            &&& hub_unchanged(*old(hub), *final(hub))
                            &&& r.reply@ == refused(
                                opcode::MUTE_UPDATE,
                                pid,
                                2005,
                                "track not found"@,
                            )
                            &&& r.effects@.len() == 0
                        },
                        Some(i) => {
                            &&& room_replaced(*old(hub), *final(hub), id)
                            &&& indices_unchanged(*old(hub), *final(hub))
                            &&& one_participant_changed(x, y, user, q)
                            &&& q == (Participant { tracks: q.tracks, ..p })
                            &&& q.tracks@ == p.tracks@.update(
                                i,
                                Track { muted: req.muted, ..p.tracks@[i] },
                            )
                            &&& r.reply@ == done(
                                opcode::MUTE_UPDATE,
                                pid,
                                PayloadView::Muted { ssrc: req.ssrc, muted: req.muted },
                            )
                            &&& effects_of(r.effects@) == mute_effects(
                                p,
                                user,
                                id,
                                req.ssrc,
                                p.tracks@[i].kind,
                                req.muted,
                            )
                        },
                    }
                },
            }
        }),
{
    let (slot, seat): (usize, usize) = match find_member(session, hub, opcode::MUTE_UPDATE, pid) {
        Ok(x) => x,
        Err(p) => {
            return only(p);
        },
    };
    let (user, room_id): (String, String) = match (&session.user_id, &session.current_room) {
        (Some(u), Some(id)) => (u.clone(), id.clone()),
        _ => (String::new(), String::new()),
    };
    let ghost start = *hub;
    let ghost x = hub.slots@[slot as int]->0;
    let ghost p = x.slots@[seat as int]->0;
    let mut effects: Vec<Effect> = Vec::new();
    if let Some(room) = &hub.slots[slot] {
        if let Some(me) = &room.slots[seat] {
            if find_track(&me.tracks, req.ssrc).is_none() {
                return only(Packet::err(opcode::MUTE_UPDATE, pid, 2005, "track not found"));
            }
        }
    }
    match &mut hub.slots[slot] {
        Some(room) => {
            assert(taken(room.slots@, seat as int));
            match &mut room.slots[seat] {
                Some(me) => {
                    proof {
                        lemma_track_at(p.tracks@, req.ssrc);
                    }
                    if let Some(kind) = me.set_track_muted(req.ssrc, req.muted) {
                        assert(effects_of(effects@) =~= Seq::empty());
                        let packet = Packet::new(
                            opcode::TRACK_STATE,
                            0,
                            Payload::TrackState {
                                user_id: user.clone(),
                                ssrc: req.ssrc,
                                kind,
                                muted: req.muted,
                            },
                        );
                        push_effect(&mut effects, Effect::ToOthers { exclude: user.clone(), packet });
                        if kind == TrackKind::Video {
                            if req.muted {
                                let packet = Packet::new(
                                    opcode::VIDEO_SUSPENDED,
                                    0,
                                    Payload::Video { user_id: user.clone(), room_id },
                                );
                                push_effect(
                                    &mut effects,
                                    Effect::ToOthers { exclude: user.clone(), packet },
                                );
                            } else if me.is_publish_ready() {
                                if let Some(addr) = me.publish.get_address() {
                                    push_effect(
                                        &mut effects,
                                        Effect::PliBurst {
                                            user_id: user.clone(),
                                            ssrc: req.ssrc,
                                            addr,
                                            schedule: PliSchedule::Once,
                                        },
                                    );
                                }
                            }
                        }
                        assert(effects_of(effects@) =~= mute_effects(
                            p,
                            session@.user_id->0,
                            session@.current_room->0,
                            req.ssrc,
                            kind,
                            req.muted,
                        ));
                    }
                },
                None => {},
            }
        },
        None => {},
    }
    proof {
        let y = hub.slots@[slot as int]->0;
        let q = y.slots@[seat as int]->0;
        assert(y.slots@ =~= x.slots@.update(seat as int, Some(q)));
        lemma_one_participant(x, y, seat as int, q);
        lemma_replaced(start, *hub, slot as int);
    }
    let reply = Packet::ok(
        opcode::MUTE_UPDATE,
        pid,
        Payload::Muted { ssrc: req.ssrc, muted: req.muted },
    );
    Outcome { reply, effects }
}

// ---------------------------------------------------------------------------
// Cameras
// ---------------------------------------------------------------------------

/// What happens when the camera of a publisher is ready: they are asked for key
/// frames, if they can be asked, and the others hear that there is video again.
pub open spec fn camera_effects(room: Room, p: Participant, user: Seq<char>, room_id: Seq<char>) -> Seq<
    EffectView,
> {
    if kind_ssrc(p.tracks@, TrackKind::Video) is None {
        Seq::empty()
    } else {
        with_pli(Seq::empty(), room, user, PliSchedule::Camera).push(
            EffectView::ToOthers {
                exclude: user,
                packet: event(opcode::VIDEO_RESUMED, PayloadView::Video { user_id: user, room_id }),
            },
        )
    }
}

/// The camera of the client is ready.
pub fn handle_camera_ready(session: &Session, hub: &RoomHub, pid: u64) -> (r: Outcome)
    requires
        hub.wf(),
        session@.user_id is Some,
    ensures
        ({
            let user = session@.user_id->0;
            match membership(*hub, session@.current_room, user) {
                Some((code, msg)) => r.reply@ == refused(opcode::CAMERA_READY, pid, code, msg)
                    && r.effects@.len() == 0,
                None => {
                    let id = session@.current_room->0;
                    let x = hub.room(id)->0;
                    &&& r.reply@ == done(opcode::CAMERA_READY, pid, PayloadView::Empty)
                    &&& effects_of(r.effects@) == camera_effects(x, x.member(user)->0, user, id)
                },
            }
        }),
{
    let (slot, seat): (usize, usize) = match find_member(session, hub, opcode::CAMERA_READY, pid) {
        Ok(x) => x,
        Err(p) => {
            return only(p);
        },
    };
    let mut effects: Vec<Effect> = Vec::new();
    assert(effects_of(effects@) =~= Seq::empty());
    let reply = Packet::ok(opcode::CAMERA_READY, pid, Payload::Empty);
    match (&session.user_id, &session.current_room, &hub.slots[slot]) {
        (Some(user), Some(id), Some(room)) => {
            if let Some(me) = &room.slots[seat] {
                if ssrc_of_kind(&me.tracks, TrackKind::Video).is_some() {
                    push_pli(&mut effects, room, user.as_str(), PliSchedule::Camera);
                    let packet = Packet::new(
                        opcode::VIDEO_RESUMED,
                        0,
                        Payload::Video { user_id: user.clone(), room_id: id.clone() },
                    );
                    push_effect(&mut effects, Effect::ToOthers { exclude: user.clone(), packet });
                }
            }
        },
        _ => {},
    }
    Outcome { reply, effects }
}

// ---------------------------------------------------------------------------
// Simulcast layers
// ---------------------------------------------------------------------------

/// Whether a publisher is among the first `n` targets.
pub open spec fn is_target(targets: Seq<SubscribeLayerTarget>, user: Seq<char>, n: int) -> bool {
    exists|j: int| 0 <= j < n && (#[trigger] targets[j]).user_id@ == user
}

/// Whether the publishers among the first `n` targets have virtual SSRCs, and
/// nobody else was given one.
pub open spec fn targets_given(a: Room, b: Room, targets: Seq<SubscribeLayerTarget>, n: int) -> bool {
    forall|i: int| #[trigger]
        taken(b.slots@, i) ==> {
            let p = a.slots@[i]->0;
            let q = b.slots@[i]->0;
            if is_target(targets, p.user_id@, n) {
                q.simulcast_video_ssrc != 0
            } else {
                q.simulcast_video_ssrc == p.simulcast_video_ssrc
            }
        }
}

/// Whether a publisher among the targets has no virtual SSRC yet.
pub open spec fn target_lacks_ssrc(room: Room, targets: Seq<SubscribeLayerTarget>) -> bool {
    exists|i: int| #[trigger]
        taken(room.slots@, i) && room.slots@[i]->0.simulcast_video_ssrc == 0 && is_target(
            targets,
            room.slots@[i]->0.user_id@,
            targets.len() as int,
        )
}

/// Gives the publishers among the targets virtual SSRCs. False only where one has
/// none yet and the system has no random numbers to give.
fn ensure_target_ssrcs(room: &mut Room, targets: &Vec<SubscribeLayerTarget>) -> (r: bool)
    requires
        old(room).wf(),
    ensures
        final(room).wf(),
        vssrcs_kept(*old(room), *final(room)),
        r ==> targets_given(*old(room), *final(room), targets@, targets@.len() as int),
        !r ==> target_lacks_ssrc(*old(room), targets@),
{
    let ghost start = *room;
    let mut j: usize = 0;
    while j < targets.len()
        invariant
            j <= targets@.len(),
            *old(room) == start,
            start.wf(),
            room.wf(),
            vssrcs_kept(start, *room),
            targets_given(start, *room, targets@, j as int),
        decreases targets@.len() - j,
    {
        let ghost before = *room;
        let ghost user = targets@[j as int].user_id@;
        let seat: Option<usize> = room.slot_of(targets[j].user_id.as_str());
        if let Some(i) = seat {
            match &mut room.slots[i] {
                Some(p) => match p.ensure_simulcast_video_ssrc() {
                    Some(_) => {},
                    None => {
                        proof {
                            assert(room.slots@ =~= before.slots@);
                            lemma_vssrcs_kept(start, *room);
                            assert(taken(before.slots@, i as int));
                            assert(taken(start.slots@, i as int));
                            assert(targets@[j as int].user_id@ == user);
                        }
                        return false;
                    },
                },
                None => {},
            }
            proof {
                assert(room.slots@ =~= before.slots@.update(i as int, room.slots@[i as int]));
            }
        }
        proof {
            assert forall|k: int| #[trigger] taken(room.slots@, k) == taken(start.slots@, k) by {
                assert(taken(before.slots@, k) == taken(start.slots@, k));
            }
            assert forall|k: int| #[trigger] taken(room.slots@, k) implies vssrc_kept(
                start.slots@[k]->0,
                room.slots@[k]->0,
            ) by {
                assert(taken(before.slots@, k));
            }
            assert forall|k: int| #[trigger] taken(room.slots@, k) implies ({
                let p = start.slots@[k]->0;
                let q = room.slots@[k]->0;
                if is_target(targets@, p.user_id@, j + 1) {
                    q.simulcast_video_ssrc != 0
                } else {
                    q.simulcast_video_ssrc == p.simulcast_video_ssrc
                }
            }) by {
                assert(taken(before.slots@, k));
                assert(taken(start.slots@, k));
                let name = start.slots@[k]->0.user_id@;
                if name == user {
                    assert(targets@[j as int].user_id@ == name);
                    assert(is_target(targets@, name, j + 1));
                    assert(seat == Some(k as usize));
                } else {
                    assert(is_target(targets@, name, j + 1) == is_target(targets@, name, j as int));
                    assert(seat != Some(k as usize));
                }
            }
            lemma_vssrcs_kept(start, *room);
        }
        j += 1;
    }
    true
}

/// A choice among the layers of a publisher: what the layers are then, and
/// whether the publisher is asked for a key frame. The first choice and a change
/// wait for a key frame, and so does a choice that still waits; a pause does not.
pub open spec fn choose_layer(
    layers: Seq<Layer>,
    publisher: Seq<char>,
    rid: Seq<char>,
    vssrc: u32,
) -> (Seq<Layer>, bool) {
    let playing = rid != "pause"@;
    match layer_place(layers, publisher) {
        None => {
            let fresh = fresh_layer(vssrc);
            (
                layers.push(
                    Layer {
                        publisher,
                        rid,
                        rewriter: if playing {
                            SimulcastRewriter { pending_keyframe: true, ..fresh }
                        } else {
                            fresh
                        },
                    },
                ),
                playing,
            )
        },
        Some(i) => {
            let l = layers[i];
            if l.rid == rid {
                (layers, playing && !l.rewriter.initialized)
            } else {
                (
                    layers.update(
                        i,
                        Layer {
                            rid,
                            rewriter: if playing {
                                SimulcastRewriter { pending_keyframe: true, ..l.rewriter }
                            } else {
                                l.rewriter
                            },
                            ..l
                        },
                    ),
                    playing,
                )
            }
        },
    }
}

fn choose_layer_of(
    layers: &mut Vec<SubscribeLayerEntry>,
    publisher: &str,
    rid: &str,
    vssrc: u32,
) -> (r: bool)
    ensures
        (layers_of(final(layers)@), r) == choose_layer(
            layers_of(old(layers)@),
            publisher@,
            rid@,
            vssrc,
        ),
{
    let playing: bool = !text_eq(rid, "pause");
    match find_layer(layers, publisher) {
        None => {
            let mut rewriter = SimulcastRewriter::new(vssrc);
            if playing {
                rewriter.switch_layer();
            }
            let entry = SubscribeLayerEntry { publisher: owned(publisher), rid: owned(rid), rewriter };
            layers.push(entry);
            assert(layers_of(layers@) =~= layers_of(old(layers)@).push(entry@));
            playing
        },
        Some(i) => {
            let ghost l = layers@[i as int]@;
            if text_eq(layers[i].rid.as_str(), rid) {
                return playing && !layers[i].rewriter.initialized;
            }
            let mut rewriter: SimulcastRewriter = layers[i].rewriter;
            if playing {
                rewriter.switch_layer();
            }
            let entry = SubscribeLayerEntry {
                publisher: layers[i].publisher.clone(),
                rid: owned(rid),
                rewriter,
            };
            layers.set(i, entry);
            assert(layers_of(layers@) =~= layers_of(old(layers)@).update(i as int, entry@));
            playing
        },
    }
}

/// The layers of a subscriber after the first `n` targets.
pub open spec fn chosen_layers(
    room: Room,
    layers: Seq<Layer>,
    targets: Seq<SubscribeLayerTarget>,
    n: int,
) -> Seq<Layer>
    decreases n,
{
    if n <= 0 {
        layers
    } else {
        let rest = chosen_layers(room, layers, targets, n - 1);
        let t = targets[n - 1];
        match room.member(t.user_id@) {
            Some(p) => choose_layer(rest, t.user_id@, t.rid@, p.simulcast_video_ssrc).0,
            None => rest,
        }
    }
}

/// The key frames that publishers are asked for.
pub open spec fn layer_effects(
    room: Room,
    layers: Seq<Layer>,
    targets: Seq<SubscribeLayerTarget>,
    n: int,
) -> Seq<EffectView>
    decreases n,
{
    if n <= 0 {
        Seq::empty()
    } else {
        let rest = layer_effects(room, layers, targets, n - 1);
        let before = chosen_layers(room, layers, targets, n - 1);
        let t = targets[n - 1];
        match room.member(t.user_id@) {
            Some(p) => match (layer_ssrc(p.tracks@, t.rid@), p.publish.address) {
                (Some(ssrc), Some(addr)) => if p.publish.ready() && choose_layer(
                    before,
                    t.user_id@,
                    t.rid@,
                    p.simulcast_video_ssrc,
                ).1 {
                    rest.push(
                        EffectView::PliBurst {
                            user_id: t.user_id@,
                            ssrc,
                            addr,
                            schedule: PliSchedule::Layer,
                        },
                    )
                } else {
                    rest
                },
                _ => rest,
            },
            None => rest,
        }
    }
}

/// A room before and after a subscriber has chosen layers.
pub open spec fn layers_chosen(
    x: Room,
    middle: Room,
    y: Room,
    user: Seq<char>,
    targets: Seq<SubscribeLayerTarget>,
) -> bool {
    let s = middle.member(user)->0;
    let q = y.slots@[middle.place_of_user(user)->0]->0;
    &&& vssrcs_kept(x, middle)
    &&& targets_given(x, middle, targets, targets.len() as int)
    &&& one_participant_changed(middle, y, user, q)
    &&& q == (Participant { subscribe_layers: q.subscribe_layers, ..s })
    &&& layers_of(q.subscribe_layers@) == chosen_layers(
        middle,
        layers_of(s.subscribe_layers@),
        targets,
        targets.len() as int,
    )
}

/// A subscriber, at `seat`, chooses layers. Publishers have their virtual SSRCs.
fn choose_layers(room: &mut Room, seat: usize, targets: &Vec<SubscribeLayerTarget>) -> (r: Vec<Effect>)
    requires
        old(room).wf(),
        taken(old(room).slots@, seat as int),
    ensures
        final(room).wf(),
        ({
            let s = old(room).slots@[seat as int]->0;
            let q = final(room).slots@[seat as int]->0;
            let layers = layers_of(s.subscribe_layers@);
            let n = targets@.len() as int;
            &&& *final(room) == (Room { slots: final(room).slots, ..*old(room) })
            &&& final(room).slots@ == old(room).slots@.update(seat as int, Some(q))
            &&& q == (Participant { subscribe_layers: q.subscribe_layers, ..s })
            &&& layers_of(q.subscribe_layers@) == chosen_layers(*old(room), layers, targets@, n)
            &&& effects_of(r@) == layer_effects(*old(room), layers, targets@, n)
        }),
{
    let ghost start = *room;
    let ghost s = room.slots@[seat as int]->0;
    let ghost layers = layers_of(s.subscribe_layers@);
    let mut effects: Vec<Effect> = Vec::new();
    assert(effects_of(effects@) =~= Seq::empty());
    assert(start.slots@ =~= start.slots@.update(seat as int, Some(s)));
    let mut j: usize = 0;
    while j < targets.len()
        invariant
            j <= targets@.len(),
            start.wf(),
            room.wf(),
            taken(start.slots@, seat as int),
            s == start.slots@[seat as int]->0,
            layers == layers_of(s.subscribe_layers@),
            *room == (Room { slots: room.slots, ..start }),
            room.slots@ == start.slots@.update(seat as int, room.slots@[seat as int]),
            room.slots@[seat as int] is Some,
            ({
                let q = room.slots@[seat as int]->0;
                &&& q == (Participant { subscribe_layers: q.subscribe_layers, ..s })
                &&& layers_of(q.subscribe_layers@) == chosen_layers(
                    start,
                    layers,
                    targets@,
                    j as int,
                )
            }),
            effects_of(effects@) == layer_effects(start, layers, targets@, j as int),
        decreases targets@.len() - j,
    {
        let t = &targets[j];
        let ghost before = *room;
        let mut vssrc: u32 = 0;
        let mut target: Option<(u32, SocketAddress)> = None;
        let mut known: bool = false;
        if let Some(p) = room.get_participant(t.user_id.as_str()) {
            known = true;
            vssrc = p.simulcast_video_ssrc;
            if p.is_publish_ready() {
                if let (Some(ssrc), Some(addr)) = (
                    ssrc_of_layer(&p.tracks, t.rid.as_str()),
                    p.publish.get_address(),
                ) {
                    target = Some((ssrc, addr));
                }
            }
        }
        if known {
            let mut need_pli: bool = false;
            match &mut room.slots[seat] {
                Some(me) => {
                    need_pli = choose_layer_of(
                        &mut me.subscribe_layers,
                        t.user_id.as_str(),
                        t.rid.as_str(),
                        vssrc,
                    );
                },
                None => {},
            }
            if need_pli {
                if let Some((ssrc, addr)) = target {
                    push_effect(
                        &mut effects,
                        Effect::PliBurst {
                            user_id: t.user_id.clone(),
                            ssrc,
                            addr,
                            schedule: PliSchedule::Layer,
                        },
                    );
                }
            }
            proof {
                let q = room.slots@[seat as int]->0;
                assert(room.slots@ =~= start.slots@.update(seat as int, Some(q)));
                assert(taken(before.slots@, seat as int));
                lemma_choice_distinct(
                    layers_of(before.slots@[seat as int]->0.subscribe_layers@),
                    t.user_id@,
                    t.rid@,
                    vssrc,
                );
                lemma_one_participant(start, *room, seat as int, q);
            }
        }
        j += 1;
    }
    effects
}

/// Why a choice of layers is refused.
pub open spec fn layer_refusal(hub: RoomHub, room: Option<Seq<char>>, user: Seq<char>) -> Option<
    (u16, Seq<char>),
> {
    match room {
        None => Some((2004, "not in room"@)),
        Some(id) => match hub.room(id) {
            None => Some((2001, "room not found"@)),
            Some(x) => if !x.simulcast_enabled {
                Some((2030, "simulcast not enabled"@))
            } else if x.member(user) is None {
                Some((2004, "not in room"@))
            } else {
                None
            },
        },
    }
}

/// The client chooses among the simulcast layers of publishers. Nothing where the
/// system has no random numbers to give.
pub fn handle_subscribe_layer(session: &Session, hub: &mut RoomHub, pid: u64, req: &SubscribeLayerRequest) -> (r:
    Option<Outcome>)
    requires
        old(hub).wf(),
        session@.user_id is Some,
    ensures
        final(hub).wf(),
        ({
            let user = session@.user_id->0;
            match layer_refusal(*old(hub), session@.current_room, user) {
                Some((code, msg)) => {
                    &&& hub_unchanged(*old(hub), *final(hub))
                    &&& r matches Some(o) && o.reply@ == refused(
                        opcode::SUBSCRIBE_LAYER,
                        pid,
                        code,
                        msg,
                    ) && o.effects@.len() == 0
                },
                None => {
                    let id = session@.current_room->0;
                    let x = old(hub).room(id)->0;
                    let y = final(hub).room(id)->0;
                    &&& room_replaced(*old(hub), *final(hub), id)
                    &&& indices_unchanged(*old(hub), *final(hub))
                    &&& r is None ==> target_lacks_ssrc(x, req.targets@) && vssrcs_kept(x, y)
                    &&& r matches Some(o) ==> o.reply@ == done(
                        opcode::SUBSCRIBE_LAYER,
                        pid,
                        PayloadView::Empty,
                    ) && exists|middle: Room| #[trigger]
                        layers_chosen(x, middle, y, user, req.targets@) && effects_of(o.effects@)
                            == layer_effects(
                            middle,
                            layers_of(middle.member(user)->0.subscribe_layers@),
                            req.targets@,
                            req.targets@.len() as int,
                        )
                },
            }
        }),
{
    if let Some(id) = &session.current_room {
        if let Ok(room) = hub.get(id.as_str()) {
            if !room.simulcast_enabled {
                return Some(
                    only(Packet::err(opcode::SUBSCRIBE_LAYER, pid, 2030, "simulcast not enabled")),
                );
            }
        }
    }
    let (slot, seat): (usize, usize) = match find_member(session, hub, opcode::SUBSCRIBE_LAYER, pid) {
        Ok(x) => x,
        Err(p) => {
            return Some(only(p));
        },
    };
    let ghost start = *hub;
    let ghost x = hub.slots@[slot as int]->0;
    let ghost mut middle: Room = x;
    let effects: Option<Vec<Effect>> = match &mut hub.slots[slot] {
        Some(room) => {
            assert(taken(room.slots@, seat as int));
            if ensure_target_ssrcs(room, &req.targets) {
                proof {
                    middle = *room;
                    assert(taken(room.slots@, seat as int) == taken(x.slots@, seat as int));
                }
                Some(choose_layers(room, seat, &req.targets))
            } else {
                None
            }
        },
        None => None,
    };
    proof {
        lemma_replaced(start, *hub, slot as int);
    }
    match effects {
        Some(effects) => {
            proof {
                let y = hub.slots@[slot as int]->0;
                let user = session@.user_id->0;
                assert(layers_chosen(x, middle, y, user, req.targets@));
            }
            let reply = Packet::ok(opcode::SUBSCRIBE_LAYER, pid, Payload::Empty);
            Some(Outcome { reply, effects })
        },
        None => None,
    }
}

/// Choosing the layer that is already chosen changes nothing.
pub proof fn law_choice_is_idempotent(layers: Seq<Layer>, publisher: Seq<char>, rid: Seq<char>, vssrc: u32)
    ensures
        ({
            let once = choose_layer(layers, publisher, rid, vssrc).0;
            choose_layer(once, publisher, rid, vssrc).0 == once
        }),
{
    let once = choose_layer(layers, publisher, rid, vssrc).0;
    match layer_place(layers, publisher) {
        None => {
            assert(once.last().publisher == publisher);
            assert(layer_place(once, publisher) == Some(once.len() - 1));
        },
        Some(i) => {
            lemma_place_names(layers, publisher);
            lemma_layer_place(layers, once, publisher);
        },
    }
}

proof fn lemma_choice_distinct(layers: Seq<Layer>, publisher: Seq<char>, rid: Seq<char>, vssrc: u32)
    requires
        layers_distinct(layers),
    ensures
        layers_distinct(choose_layer(layers, publisher, rid, vssrc).0),
{
    let once = choose_layer(layers, publisher, rid, vssrc).0;
    lemma_place_names(layers, publisher);
    match layer_place(layers, publisher) {
        None => {
            lemma_layers_distinct(layers, once.last());
            assert(once =~= layers.push(once.last()));
        },
        Some(k) => {
            lemma_layers_distinct(layers, once[k]);
            assert(once =~= layers.update(k, once[k]));
        },
    }
}

proof fn lemma_layer_place(a: Seq<Layer>, b: Seq<Layer>, publisher: Seq<char>)
    requires
        a.len() == b.len(),
        forall|i: int| 0 <= i < a.len() ==> (#[trigger] b[i]).publisher == a[i].publisher,
    ensures
        layer_place(a, publisher) == layer_place(b, publisher),
        layer_place(a, publisher) matches Some(i) ==> 0 <= i < a.len(),
    decreases a.len(),
{
    if a.len() > 0 {
        assert(b[b.len() - 1].publisher == a[a.len() - 1].publisher);
        let (c, d) = (a.drop_last(), b.drop_last());
        assert forall|i: int| 0 <= i < c.len() implies (#[trigger] d[i]).publisher == c[i].publisher by {
            assert(d[i] == b[i]);
        }
        lemma_layer_place(c, d, publisher);
    }
}

/// A choice concerns one publisher: what is received of the others stays.
pub proof fn law_choice_concerns_one(layers: Seq<Layer>, publisher: Seq<char>, rid: Seq<char>, vssrc: u32, i: int)
    requires
        0 <= i < layers.len(),
        layers[i].publisher != publisher,
    ensures
        choose_layer(layers, publisher, rid, vssrc).0[i] == layers[i],
{
    lemma_place_names(layers, publisher);
}

} // verus!
