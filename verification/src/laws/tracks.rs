//! Laws of tracks: what publishing them registers, what the others are shown of
//! them, and which layers of them are received.

use vstd::prelude::*;

use crate::config::{BweMode, RoomMode};
use crate::laws::forwarding::chosen_at;
use crate::laws::lookup::{law_track_by_kind, law_track_by_layer, of_kind, of_layer};
use crate::room::hub::RoomHub;
use crate::room::participant::{
    layer_place, layers_distinct, lemma_place_names, Layer, Participant, Track, TrackKind,
};
use crate::room::room::Room;
use crate::signaling::effect::{pli_target, EffectView, PliSchedule};
use crate::signaling::handler::helpers::{
    codec_policy, extmap_policy, needs_vssrc, others_tracks, shown_tracks, without_publisher,
};
use crate::signaling::handler::track_ops::{
    ack_refusal, announced, announces_video, camera_effects, choose_layer, chosen_layers, data_at,
    due_tracks, layer_effects, layer_refusal, membership, mute_effects, publish_effects, registered,
    registry, Registry, TrackData,
};
use crate::signaling::message::{
    PacketView, PayloadView, PublishTrackItem, SubscribeLayerTarget, TrackView,
};
use crate::text::decimal;

verus! {

// ---------------------------------------------------------------------------
// Publishing
// ---------------------------------------------------------------------------

/// The name of a track: its publisher's, an underscore, and a number.
pub open spec fn numbered_name(user: Seq<char>, n: u64) -> Seq<char> {
    user + seq!['_'] + decimal(n as nat)
}

/// What an optional text says.
pub open spec fn said(s: Option<String>) -> Option<Seq<char>> {
    if s is Some {
        Some(s->0@)
    } else {
        None
    }
}

proof fn lemma_data_at(tracks: Seq<TrackData>, ssrc: u32)
    ensures
        match data_at(tracks, ssrc) {
            Some(i) => 0 <= i < tracks.len() && tracks[i].ssrc == ssrc && forall|j: int|
                0 <= j < i ==> (#[trigger] tracks[j]).ssrc != ssrc,
            None => forall|j: int| 0 <= j < tracks.len() ==> (#[trigger] tracks[j]).ssrc != ssrc,
        },
    decreases tracks.len(),
{
    if tracks.len() > 0 && tracks[0].ssrc != ssrc {
        let rest = tracks.drop_first();
        lemma_data_at(rest, ssrc);
        assert forall|j: int| 0 < j < tracks.len() implies #[trigger] tracks[j] == rest[j - 1] by {}
    }
}

/// A new SSRC becomes a track, named after its publisher and the next number, not
/// muted. A video track has a retransmission stream, whose SSRC lies 1000 and the
/// number of earlier video tracks behind its own; an audio track has none.
pub proof fn law_new_track(g: Registry, user: Seq<char>, item: PublishTrackItem)
    requires
        item.kind@ == "audio"@ || item.kind@ == "video"@,
        forall|j: int| 0 <= j < g.tracks.len() ==> (#[trigger] g.tracks[j]).ssrc != item.ssrc,
    ensures
        ({
            let h = registered(g, user, item);
            let t = h.tracks.last();
            let v = h.shown.last();
            let video = item.kind@ == "video"@;
            &&& h.tracks.len() == g.tracks.len() + 1
            &&& h.tracks.drop_last() == g.tracks
            &&& t.ssrc == item.ssrc
            &&& t.kind == (if video { TrackKind::Video } else { TrackKind::Audio })
            &&& t.track_id == numbered_name(user, g.next_id)
            &&& video ==> t.rtx_ssrc == Some(
                ((item.ssrc + 1000 + g.rtx_count) % 0x1_0000_0000) as u32,
            ) && h.rtx_count == g.rtx_count.wrapping_add(1)
            &&& !video ==> t.rtx_ssrc is None && h.rtx_count == g.rtx_count
            &&& !t.muted
            &&& t.rid == said(item.rid)
            &&& t.simulcast_group == (if item.rid is Some { Some(g.group) } else { None })
            &&& h.next_id == g.next_id.wrapping_add(1)
            &&& h.shown.len() == g.shown.len() + 1
            &&& h.shown.drop_last() == g.shown
            &&& v.user_id == Some(user) && v.track_id == t.track_id && v.kind == t.kind
            &&& v.ssrc == item.ssrc && v.rtx_ssrc == t.rtx_ssrc && v.rid == t.rid && !v.is_virtual
        }),
{
    reveal_strlit("audio");
    reveal_strlit("video");
    assert("audio"@[0] == 'a' && "video"@[0] == 'v');
    let h = registered(g, user, item);
    lemma_data_at(g.tracks, item.ssrc);
    lemma_data_at(h.tracks, item.ssrc);
    assert(h.tracks.drop_last() =~= g.tracks);
    assert(h.shown.drop_last() =~= g.shown);
    assert(h.tracks.last().ssrc == item.ssrc);
    assert forall|j: int| 0 <= j < g.tracks.len() implies (#[trigger] h.tracks[j]).ssrc
        != item.ssrc by {
        assert(h.tracks[j] == g.tracks[j]);
    }
    assert(h.tracks.last().track_id =~= numbered_name(user, g.next_id));
}

/// An SSRC that is known stays the track that it is; what is shown of it is its own
/// retransmission stream.
pub proof fn law_known_track(g: Registry, user: Seq<char>, item: PublishTrackItem, k: int)
    requires
        item.kind@ == "audio"@ || item.kind@ == "video"@,
        0 <= k < g.tracks.len(),
        g.tracks[k].ssrc == item.ssrc,
        forall|j: int| 0 <= j < k ==> (#[trigger] g.tracks[j]).ssrc != item.ssrc,
    ensures
        ({
            let h = registered(g, user, item);
            &&& h.tracks == g.tracks
            &&& h.rtx_count == g.rtx_count
            &&& h.shown.len() == g.shown.len() + 1
            &&& h.shown.last().ssrc == item.ssrc
            &&& h.shown.last().rtx_ssrc == g.tracks[k].rtx_ssrc
        }),
{
    lemma_data_at(g.tracks, item.ssrc);
    assert(g.tracks[k].ssrc == item.ssrc);
}

/// Tracks of other kinds than audio and video are passed over.
pub proof fn law_unknown_kind(g: Registry, user: Seq<char>, item: PublishTrackItem)
    requires
        item.kind@ != "audio"@,
        item.kind@ != "video"@,
    ensures
        registered(g, user, item) == g,
{
}

/// The layers of one camera, high and then low, are one group, and those of the next
/// camera another.
pub proof fn law_layers_are_grouped(
    g: Registry,
    user: Seq<char>,
    high: PublishTrackItem,
    low: PublishTrackItem,
    next: PublishTrackItem,
)
    requires
        high.kind@ == "video"@ && low.kind@ == "video"@ && next.kind@ == "video"@,
        said(high.rid) == Some("h"@) && said(low.rid) == Some("l"@) && said(next.rid) == Some(
            "h"@,
        ),
        forall|j: int|
            0 <= j < g.tracks.len() ==> (#[trigger] g.tracks[j]).ssrc != high.ssrc
                && g.tracks[j].ssrc != low.ssrc && g.tracks[j].ssrc != next.ssrc,
        high.ssrc != low.ssrc && high.ssrc != next.ssrc && low.ssrc != next.ssrc,
    ensures
        ({
            let a = registered(g, user, high);
            let b = registered(a, user, low);
            let c = registered(b, user, next);
            &&& a.tracks.last().simulcast_group is Some
            &&& b.tracks.last().simulcast_group == a.tracks.last().simulcast_group
            &&& c.tracks.last().simulcast_group is Some
            &&& c.tracks.last().simulcast_group != b.tracks.last().simulcast_group
        }),
{
    reveal_strlit("h");
    reveal_strlit("l");
    assert("h"@[0] == 'h' && "l"@[0] == 'l');
    let a = registered(g, user, high);
    let b = registered(a, user, low);
    law_new_track(g, user, high);
    assert forall|j: int| 0 <= j < a.tracks.len() implies (#[trigger] a.tracks[j]).ssrc != low.ssrc
        && a.tracks[j].ssrc != next.ssrc by {
        if j < g.tracks.len() {
            assert(a.tracks.drop_last()[j] == g.tracks[j]);
        }
    }
    law_new_track(a, user, low);
    assert forall|j: int| 0 <= j < b.tracks.len() implies (#[trigger] b.tracks[j]).ssrc
        != next.ssrc by {
        if j < a.tracks.len() {
            assert(b.tracks.drop_last()[j] == a.tracks[j]);
        }
    }
    law_new_track(b, user, next);
}

/// Publishing begins from the tracks that there are, whose number the first name
/// takes, and goes through what is published in its order.
pub proof fn law_publishing_in_order(p: Participant, items: Seq<PublishTrackItem>, n: int)
    requires
        0 < n <= items.len(),
    ensures
        registry(p, items, n) == registered(registry(p, items, n - 1), p.user_id@, items[n - 1]),
        registry(p, items, 0).next_id == p.tracks@.len() as u64,
        registry(p, items, 0).rtx_count == p.rtx_ssrc_counter,
        registry(p, items, 0).shown.len() == 0,
        registry(p, items, 0).group == 0,
        registry(p, items, 0).tracks.len() == p.tracks@.len(),
        forall|j: int|
            0 <= j < p.tracks@.len() ==> {
                let d = #[trigger] registry(p, items, 0).tracks[j];
                let t = p.tracks@[j];
                &&& d.ssrc == t.ssrc && d.kind == t.kind && d.rtx_ssrc == t.rtx_ssrc
                &&& d.track_id == t.track_id@ && d.muted == t.muted && d.rid == said(t.rid)
                &&& d.simulcast_group == t.simulcast_group
            },
{
}

/// How a published track is announced: without simulcast as it is; with simulcast a
/// low layer not at all, other video under the publisher's SSRC and without layer,
/// audio as it is. Each track is announced by itself, in order.
pub proof fn law_announced_each(tracks: Seq<TrackView>, simulcast: bool, vssrc: u32, n: int)
    requires
        0 < n <= tracks.len(),
    ensures
        ({
            let before = announced(tracks, simulcast, vssrc, n - 1);
            let all = announced(tracks, simulcast, vssrc, n);
            let t = tracks[n - 1];
            if !simulcast {
                all == before.push(t)
            } else if t.rid == Some("l"@) {
                all == before
            } else if t.kind == TrackKind::Video {
                &&& all.len() == before.len() + 1
                &&& all.drop_last() == before
                &&& all.last().ssrc == vssrc && all.last().rid is None
                &&& all.last().user_id == t.user_id && all.last().track_id == t.track_id
                &&& all.last().kind == t.kind && all.last().rtx_ssrc == t.rtx_ssrc
                &&& all.last().is_virtual == t.is_virtual
            } else {
                all == before.push(t)
            }
        }),
        announced(tracks, simulcast, vssrc, 0).len() == 0,
        announces_video(tracks, n) <==> exists|i: int|
            0 <= i < n && (#[trigger] tracks[i]).kind == TrackKind::Video && tracks[i].rid != Some(
                "l"@,
            ),
    decreases n,
{
    let before = announced(tracks, simulcast, vssrc, n - 1);
    let all = announced(tracks, simulcast, vssrc, n);
    assert(all.len() > before.len() ==> all.drop_last() =~= before);
    if n > 1 {
        law_announced_each(tracks, simulcast, vssrc, n - 1);
        if announces_video(tracks, n - 1) {
            let i = choose|i: int|
                0 <= i < n - 1 && (#[trigger] tracks[i]).kind == TrackKind::Video && tracks[i].rid
                    != Some("l"@);
            assert(tracks[i].kind == TrackKind::Video);
        }
    } else {
        assert(!announces_video(tracks, 0));
    }
}

/// What the others are told of published tracks: one event, none where there is
/// nothing to announce.
pub proof fn law_tracks_are_announced(user: Seq<char>, tracks: Seq<TrackView>)
    ensures
        tracks.len() == 0 ==> publish_effects(user, tracks).len() == 0,
        tracks.len() > 0 ==> publish_effects(user, tracks) == seq![
            EffectView::ToOthers {
                exclude: user,
                packet: PacketView {
                    op: 101,
                    pid: 0,
                    ok: None,
                    d: PayloadView::TracksAdded { tracks },
                },
            },
        ],
{
}

// ---------------------------------------------------------------------------
// What is shown
// ---------------------------------------------------------------------------

/// How a track is shown to others: a low layer is hidden where there is simulcast,
/// and other video is shown there under the publisher's SSRC, once they have one. All
/// else is shown under its own. Each track is shown by itself, in order.
pub proof fn law_shown_each(user: Seq<char>, tracks: Seq<Track>, simulcast: bool, vssrc: u32, n: int)
    requires
        0 < n <= tracks.len(),
    ensures
        ({
            let before = shown_tracks(user, tracks, simulcast, vssrc, n - 1);
            let all = shown_tracks(user, tracks, simulcast, vssrc, n);
            let t = tracks[n - 1];
            if simulcast && said(t.rid) == Some("l"@) {
                all == before
            } else {
                &&& all.len() == before.len() + 1
                &&& all.drop_last() == before
                &&& all.last() == (TrackView {
                    user_id: Some(user),
                    track_id: t.track_id@,
                    kind: t.kind,
                    ssrc: if simulcast && t.kind == TrackKind::Video && vssrc != 0 {
                        vssrc
                    } else {
                        t.ssrc
                    },
                    rtx_ssrc: t.rtx_ssrc,
                    rid: None,
                    is_virtual: false,
                })
            }
        }),
        shown_tracks(user, tracks, simulcast, vssrc, 0).len() == 0,
{
    let before = shown_tracks(user, tracks, simulcast, vssrc, n - 1);
    let all = shown_tracks(user, tracks, simulcast, vssrc, n);
    assert(all.len() > before.len() ==> all.drop_last() =~= before);
}

/// A member is offered the tracks of all others, in the order of their places, and
/// not their own.
pub proof fn law_offered_each(slots: Seq<Option<Participant>>, simulcast: bool, user: Seq<char>, n: int)
    requires
        0 < n <= slots.len(),
    ensures
        ({
            let before = others_tracks(slots, simulcast, user, n - 1);
            let all = others_tracks(slots, simulcast, user, n);
            let p = slots[n - 1]->0;
            if slots[n - 1] is Some && p.user_id@ != user {
                all == before + shown_tracks(
                    p.user_id@,
                    p.tracks@,
                    simulcast,
                    p.simulcast_video_ssrc,
                    p.tracks@.len() as int,
                )
            } else {
                all == before
            }
        }),
        others_tracks(slots, simulcast, user, 0).len() == 0,
{
}

/// What a member should know of: in a conference what they are offered, in a
/// push-to-talk room the two streams of the room.
pub proof fn law_due_tracks(room: Room, user: Seq<char>)
    ensures
        room.mode != RoomMode::Ptt ==> due_tracks(room, user) == others_tracks(
            room.slots@,
            room.simulcast_enabled,
            user,
            room.slots@.len() as int,
        ),
        room.mode == RoomMode::Ptt ==> {
            let d = due_tracks(room, user);
            &&& d.len() == 2
            &&& d[0].kind == TrackKind::Audio && d[0].ssrc == room.audio_rewriter@.ssrc
            &&& d[1].kind == TrackKind::Video && d[1].ssrc == room.video_rewriter@.ssrc
            &&& d[0].rtx_ssrc is None && d[1].rtx_ssrc is None
            &&& d[0].rid is None && d[1].rid is None
            &&& d[0].user_id == Some("__virtual__"@) && d[1].user_id == d[0].user_id
            &&& d[0].track_id == "virtual_audio"@ && d[1].track_id == "virtual_video"@
            &&& !d[0].is_virtual && !d[1].is_virtual
        },
{
}

/// Whether a publisher needs an SSRC to be seen under: where they have video that
/// is no low layer.
pub proof fn law_who_needs_ssrc(p: Participant)
    ensures
        needs_vssrc(p, true),
        needs_vssrc(p, false) <==> exists|i: int|
            0 <= i < p.tracks@.len() && (#[trigger] p.tracks@[i]).kind == TrackKind::Video && said(
                p.tracks@[i].rid,
            ) != Some("l"@),
{
    if needs_vssrc(p, false) {
        let i = choose|i: int|
            0 <= i < p.tracks@.len() && (#[trigger] p.tracks@[i]).kind == TrackKind::Video
                && !crate::room::participant::has_rid(p.tracks@[i], "l"@);
        assert(said(p.tracks@[i].rid) != Some("l"@));
    }
    if exists|i: int|
        0 <= i < p.tracks@.len() && (#[trigger] p.tracks@[i]).kind == TrackKind::Video && said(
            p.tracks@[i].rid,
        ) != Some("l"@) {
        let i = choose|i: int|
            0 <= i < p.tracks@.len() && (#[trigger] p.tracks@[i]).kind == TrackKind::Video && said(
                p.tracks@[i].rid,
            ) != Some("l"@);
        assert(!crate::room::participant::has_rid(p.tracks@[i], "l"@));
    }
}

// ---------------------------------------------------------------------------
// Muting and cameras
// ---------------------------------------------------------------------------

/// Whoever mutes or unmutes a track, the others are told; of video also that it is
/// suspended, and when it comes back one key frame is asked for, if it can be.
pub proof fn law_muting_is_told(
    p: Participant,
    user: Seq<char>,
    room_id: Seq<char>,
    ssrc: u32,
    kind: TrackKind,
    muted: bool,
)
    ensures
        ({
            let e = mute_effects(p, user, room_id, ssrc, kind, muted);
            let reachable = p.publish.inbound_srtp@ is Some && p.publish.address is Some;
            &&& e.len() >= 1
            &&& e[0] == (EffectView::ToOthers {
                exclude: user,
                packet: PacketView {
                    op: 102,
                    pid: 0,
                    ok: None,
                    d: PayloadView::TrackState { user_id: user, ssrc, kind, muted },
                },
            })
            &&& kind == TrackKind::Audio ==> e.len() == 1
            &&& kind == TrackKind::Video && muted ==> e.len() == 2 && e[1]
                == (EffectView::ToOthers {
                exclude: user,
                packet: PacketView {
                    op: 104,
                    pid: 0,
                    ok: None,
                    d: PayloadView::Video { user_id: user, room_id },
                },
            })
            &&& kind == TrackKind::Video && !muted && reachable ==> e.len() == 2 && e[1]
                == (EffectView::PliBurst {
                user_id: user,
                ssrc,
                addr: p.publish.address->0,
                schedule: PliSchedule::Once,
            })
            &&& kind == TrackKind::Video && !muted && !reachable ==> e.len() == 1
        }),
{
}

/// When a camera has warmed up, key frames of it are asked for, at once and after
/// 150 ms, and the others are told; nothing happens where there is no video.
pub proof fn law_camera_is_told(room: Room, p: Participant, user: Seq<char>, room_id: Seq<char>)
    requires
        room.member(user) == Some(p),
    ensures
        ({
            let e = camera_effects(room, p, user, room_id);
            let resumed = EffectView::ToOthers {
                exclude: user,
                packet: PacketView {
                    op: 105,
                    pid: 0,
                    ok: None,
                    d: PayloadView::Video { user_id: user, room_id },
                },
            };
            let video = exists|i: int| #[trigger] of_kind(p.tracks@, TrackKind::Video, i);
            &&& !video ==> e.len() == 0
            &&& video ==> e == (match pli_target(p) {
                Some((ssrc, addr)) => seq![
                    EffectView::PliBurst {
                        user_id: user,
                        ssrc,
                        addr,
                        schedule: PliSchedule::Camera,
                    },
                    resumed,
                ],
                None => seq![resumed],
            })
        }),
{
    law_track_by_kind(p.tracks@, TrackKind::Video);
    let e = camera_effects(room, p, user, room_id);
    let resumed = EffectView::ToOthers {
        exclude: user,
        packet: PacketView {
            op: 105,
            pid: 0,
            ok: None,
            d: PayloadView::Video { user_id: user, room_id },
        },
    };
    match pli_target(p) {
        Some((ssrc, addr)) => {
            assert(e.len() > 0 ==> e =~= seq![
                EffectView::PliBurst { user_id: user, ssrc, addr, schedule: PliSchedule::Camera },
                resumed,
            ]);
        },
        None => {
            assert(e.len() > 0 ==> e =~= seq![resumed]);
        },
    }
}

// ---------------------------------------------------------------------------
// Layers
// ---------------------------------------------------------------------------

/// Choosing a layer of somebody who was not received yet: it is received from the
/// next key frame on, which is to be asked for; a pause asks for none.
pub proof fn law_first_choice(layers: Seq<Layer>, publisher: Seq<char>, rid: Seq<char>, vssrc: u32)
    requires
        forall|k: int| !#[trigger] chosen_at(layers, publisher, k),
    ensures
        ({
            let (l, asks) = choose_layer(layers, publisher, rid, vssrc);
            &&& l.len() == layers.len() + 1
            &&& l.drop_last() == layers
            &&& l.last().publisher == publisher && l.last().rid == rid
            &&& l.last().rewriter.virtual_ssrc == vssrc
            &&& !l.last().rewriter.initialized
            &&& l.last().rewriter.pending_keyframe == (rid != "pause"@)
            &&& asks == (rid != "pause"@)
        }),
{
    lemma_place_names(layers, publisher);
    if let Some(k) = layer_place(layers, publisher) {
        assert(chosen_at(layers, publisher, k));
    }
    assert(choose_layer(layers, publisher, rid, vssrc).0.drop_last() =~= layers);
}

/// Changing the layer: the numbers go on from where they are, from the next key
/// frame of the new layer on, which is to be asked for. A pause changes nothing but
/// the choice. Choosing the same layer again changes nothing, and asks for a key
/// frame only where none has come yet.
pub proof fn law_next_choice(
    layers: Seq<Layer>,
    publisher: Seq<char>,
    rid: Seq<char>,
    vssrc: u32,
    k: int,
)
    requires
        layers_distinct(layers),
        chosen_at(layers, publisher, k),
    ensures
        ({
            let (l, asks) = choose_layer(layers, publisher, rid, vssrc);
            let old_rewriter = layers[k].rewriter;
            let new_rewriter = l[k].rewriter;
            &&& l.len() == layers.len()
            &&& forall|j: int| 0 <= j < l.len() && j != k ==> #[trigger] l[j] == layers[j]
            &&& l[k].publisher == publisher && l[k].rid == rid
            &&& new_rewriter.virtual_ssrc == old_rewriter.virtual_ssrc
            &&& new_rewriter.last_out_seq == old_rewriter.last_out_seq
            &&& new_rewriter.last_out_ts == old_rewriter.last_out_ts
            &&& new_rewriter.seq_offset == old_rewriter.seq_offset
            &&& new_rewriter.initialized == old_rewriter.initialized
            &&& rid == layers[k].rid || rid == "pause"@ ==> new_rewriter.pending_keyframe
                == old_rewriter.pending_keyframe
            &&& rid != layers[k].rid && rid != "pause"@ ==> new_rewriter.pending_keyframe && asks
            &&& rid == "pause"@ ==> !asks
            &&& rid == layers[k].rid && rid != "pause"@ ==> asks == !old_rewriter.initialized
        }),
{
    reveal(layers_distinct);
    lemma_place_names(layers, publisher);
}

/// The choices of a request are made one after the other, each for a member of the
/// room; where one asks for key frames they are asked of the chosen layer, at once
/// and after 200, 500 and 1500 ms more, if its publisher can be reached.
pub proof fn law_choices_in_order(
    room: Room,
    layers: Seq<Layer>,
    targets: Seq<SubscribeLayerTarget>,
    n: int,
    k: int,
)
    requires
        0 < n <= targets.len(),
    ensures
        ({
            let t = targets[n - 1];
            let before = chosen_layers(room, layers, targets, n - 1);
            let after = chosen_layers(room, layers, targets, n);
            let told = layer_effects(room, layers, targets, n - 1);
            let tells = layer_effects(room, layers, targets, n);
            match room.member(t.user_id@) {
                None => after == before && tells == told,
                Some(p) => {
                    let (l, asks) = choose_layer(before, t.user_id@, t.rid@, p.simulcast_video_ssrc);
                    let reachable = p.publish.inbound_srtp@ is Some && p.publish.address is Some;
                    &&& after == l
                    &&& of_layer(p.tracks@, t.rid@, k) && (forall|j: int|
                        0 <= j < k ==> !#[trigger] of_layer(p.tracks@, t.rid@, j)) && asks
                        && reachable ==> tells == told.push(
                        EffectView::PliBurst {
                            user_id: t.user_id@,
                            ssrc: p.tracks@[k].ssrc,
                            addr: p.publish.address->0,
                            schedule: PliSchedule::Layer,
                        },
                    )
                    &&& !asks || !reachable || (forall|j: int| !#[trigger]
                        of_layer(p.tracks@, t.rid@, j)) ==> tells == told
                },
            }
        }),
        chosen_layers(room, layers, targets, 0) == layers,
        layer_effects(room, layers, targets, 0).len() == 0,
{
    let t = targets[n - 1];
    if let Some(p) = room.member(t.user_id@) {
        law_track_by_layer(p.tracks@, t.rid@);
        assert(of_layer(p.tracks@, t.rid@, k) || !of_layer(p.tracks@, t.rid@, k));
    }
}

/// When somebody leaves, the choice of them goes and no other one.
pub proof fn law_choice_is_dropped(layers: Seq<Layer>, publisher: Seq<char>, k: int)
    requires
        layers_distinct(layers),
    ensures
        (forall|j: int| !#[trigger] chosen_at(layers, publisher, j)) ==> without_publisher(
            layers,
            publisher,
        ) == layers,
        chosen_at(layers, publisher, k) ==> without_publisher(layers, publisher)
            == layers.subrange(0, k) + layers.subrange(k + 1, layers.len() as int),
{
    reveal(layers_distinct);
    lemma_place_names(layers, publisher);
    if let Some(j) = layer_place(layers, publisher) {
        assert(chosen_at(layers, publisher, j));
    }
    if chosen_at(layers, publisher, k) {
        assert(layer_place(layers, publisher) == Some(k));
        assert(layers.remove(k) =~= layers.subrange(0, k) + layers.subrange(
            k + 1,
            layers.len() as int,
        ));
    }
}

// ---------------------------------------------------------------------------
// Refusals
// ---------------------------------------------------------------------------

/// Requests on tracks are refused exactly to those who are in no room, whose room is
/// gone, or who are not in it; on layers also where there is no simulcast. An
/// acknowledgement does not ask for membership.
pub proof fn law_track_refusals(hub: RoomHub, room: Option<Seq<char>>, user: Seq<char>)
    ensures
        ({
            let nowhere = room is None;
            let gone = room is Some && hub.room(room->0) is None;
            let there = room is Some && hub.room(room->0) is Some;
            let absent = there && hub.room(room->0)->0.member(user) is None;
            let plain = there && !hub.room(room->0)->0.simulcast_enabled;
            &&& nowhere ==> membership(hub, room, user) == Some((2004u16, "not in room"@))
            &&& gone ==> membership(hub, room, user) == Some((2001u16, "room not found"@))
            &&& absent ==> membership(hub, room, user) == Some((2004u16, "not in room"@))
            &&& there && !absent ==> membership(hub, room, user) is None
            &&& nowhere ==> ack_refusal(hub, room) == Some((2004u16, "not in room"@))
            &&& gone ==> ack_refusal(hub, room) == Some((2001u16, "room not found"@))
            &&& there ==> ack_refusal(hub, room) is None
            &&& nowhere ==> layer_refusal(hub, room, user) == Some((2004u16, "not in room"@))
            &&& gone ==> layer_refusal(hub, room, user) == Some((2001u16, "room not found"@))
            &&& plain ==> layer_refusal(hub, room, user) == Some(
                (2030u16, "simulcast not enabled"@),
            )
            &&& there && !plain && absent ==> layer_refusal(hub, room, user) == Some(
                (2004u16, "not in room"@),
            )
            &&& there && !plain && !absent ==> layer_refusal(hub, room, user) is None
        }),
{
}

// ---------------------------------------------------------------------------
// What the server offers
// ---------------------------------------------------------------------------

/// The payload types that are offered are those that media is told by: Opus is 111,
/// VP8 96 with retransmissions under 97, H.264 102 with 103; audio runs at 48 kHz
/// with two channels, video at 90 kHz. Each has one.
pub proof fn law_codecs(i: int, j: int)
    requires
        0 <= i < codec_policy().len(),
        0 <= j < codec_policy().len(),
    ensures
        ({
            let c = codec_policy()[i];
            &&& codec_policy().len() == 3
            &&& c.kind == TrackKind::Audio <==> c.pt == crate::config::OPUS_PAYLOAD_TYPE
            &&& c.kind == TrackKind::Audio ==> c.clockrate == 48_000 && c.channels == Some(2u8)
                && c.rtx_pt is None && c.name == "opus"@
            &&& c.kind == TrackKind::Video ==> c.clockrate == 90_000 && c.rtx_pt == Some(
                crate::config::rtx_pt(c.pt),
            ) && c.channels is None
            &&& c.name == "VP8"@ ==> c.pt == 96 && c.rtx_pt == Some(97u8)
            &&& c.name == "H264"@ ==> c.pt == 102 && c.rtx_pt == Some(103u8)
            &&& i != j ==> c.pt != codec_policy()[j].pt
        }),
{
    reveal_strlit("opus");
    reveal_strlit("VP8");
    reveal_strlit("H264");
    assert("opus"@[0] == 'o' && "VP8"@[0] == 'V' && "H264"@[0] == 'H');
}

/// The header extensions that are offered: 1, 4 and 5 always, 6 where bandwidth is
/// estimated from transport-wide feedback, 10 and 11 with simulcast.
pub proof fn law_extensions(bwe: BweMode, simulcast: bool, id: u8)
    ensures
        (exists|i: int|
            0 <= i < extmap_policy(bwe, simulcast).len() && (#[trigger] extmap_policy(
                bwe,
                simulcast,
            )[i]).0 == id) <==> id == 1 || id == 4 || id == 5 || (id == 6 && bwe == BweMode::Twcc) || (
        (id == 10 || id == 11) && simulcast),
        extmap_policy(bwe, simulcast).len() == 3 + (if bwe == BweMode::Twcc {
            1int
        } else {
            0
        }) + (if simulcast {
            2int
        } else {
            0
        }),
{
    let e = extmap_policy(bwe, simulcast);
    let n = if bwe == BweMode::Twcc { 4int } else { 3 };
    assert(e[0].0 == 1 && e[1].0 == 4 && e[2].0 == 5);
    assert(bwe == BweMode::Twcc ==> e[3].0 == 6);
    assert(simulcast ==> e[n].0 == 10 && e[n + 1].0 == 11);
}

} // verus!
