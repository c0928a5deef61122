//! Laws of looking things up: what is found is the first of what is asked for, and
//! where nothing is found there is none.

use vstd::prelude::*;

use crate::room::participant::{
    cached, has_rid, kind_at, kind_ssrc, layer_at, layer_of, layer_ssrc, layers_distinct, layers_of,
    lemma_place_names, recv_place, send_at, track_at, Participant, SubscribeLayerEntry, Track,
    TrackKind,
};
use crate::room::room::{publisher_at, taken, vssrc_at, Room};
use crate::transport::udp::rtcp_terminator::{Reception, SendStats};
use crate::wire::be16;

verus! {

/// Whether a track has an SSRC.
pub open spec fn with_ssrc(tracks: Seq<Track>, ssrc: u32, i: int) -> bool {
    0 <= i < tracks.len() && tracks[i].ssrc == ssrc
}

/// Whether a track is of a kind.
pub open spec fn of_kind(tracks: Seq<Track>, kind: TrackKind, i: int) -> bool {
    0 <= i < tracks.len() && tracks[i].kind == kind
}

/// Whether a track is a video layer.
pub open spec fn of_layer(tracks: Seq<Track>, rid: Seq<char>, i: int) -> bool {
    &&& 0 <= i < tracks.len()
    &&& tracks[i].kind == TrackKind::Video
    &&& tracks[i].rid is Some
    &&& tracks[i].rid->0@ == rid
}

/// A track is found by its SSRC: the first that has it.
pub proof fn law_track_by_ssrc(tracks: Seq<Track>, ssrc: u32)
    ensures
        match track_at(tracks, ssrc) {
            Some(i) => with_ssrc(tracks, ssrc, i) && forall|j: int|
                0 <= j < i ==> !#[trigger] with_ssrc(tracks, ssrc, j),
            None => forall|j: int| !#[trigger] with_ssrc(tracks, ssrc, j),
        },
    decreases tracks.len(),
{
    if tracks.len() > 0 && tracks[0].ssrc != ssrc {
        let rest = tracks.drop_first();
        law_track_by_ssrc(rest, ssrc);
        assert forall|j: int| with_ssrc(rest, ssrc, j - 1) == #[trigger] with_ssrc(
            tracks,
            ssrc,
            j,
        ) by {}
    }
}

/// Of several tracks of a kind the first one is found.
pub proof fn law_track_by_kind(tracks: Seq<Track>, kind: TrackKind)
    ensures
        match kind_at(tracks, kind) {
            Some(i) => of_kind(tracks, kind, i) && forall|j: int|
                0 <= j < i ==> !#[trigger] of_kind(tracks, kind, j),
            None => forall|j: int| !#[trigger] of_kind(tracks, kind, j),
        },
        kind_ssrc(tracks, kind) == (match kind_at(tracks, kind) {
            Some(i) => Some(tracks[i].ssrc),
            None => None,
        }),
    decreases tracks.len(),
{
    if tracks.len() > 0 && tracks[0].kind != kind {
        let rest = tracks.drop_first();
        law_track_by_kind(rest, kind);
        assert forall|j: int| of_kind(rest, kind, j - 1) == #[trigger] of_kind(
            tracks,
            kind,
            j,
        ) by {}
    }
}

/// A simulcast layer is found by its name, among the video tracks only.
pub proof fn law_track_by_layer(tracks: Seq<Track>, rid: Seq<char>)
    ensures
        match layer_at(tracks, rid) {
            Some(i) => of_layer(tracks, rid, i) && forall|j: int|
                0 <= j < i ==> !#[trigger] of_layer(tracks, rid, j),
            None => forall|j: int| !#[trigger] of_layer(tracks, rid, j),
        },
        layer_ssrc(tracks, rid) == (match layer_at(tracks, rid) {
            Some(i) => Some(tracks[i].ssrc),
            None => None,
        }),
    decreases tracks.len(),
{
    if tracks.len() > 0 && !(tracks[0].kind == TrackKind::Video && has_rid(tracks[0], rid)) {
        let rest = tracks.drop_first();
        law_track_by_layer(rest, rid);
        assert forall|j: int| of_layer(rest, rid, j - 1) == #[trigger] of_layer(
            tracks,
            rid,
            j,
        ) by {}
    }
}

/// Whether a place is taken by somebody with a track of an SSRC.
pub open spec fn publishes(slots: Seq<Option<Participant>>, ssrc: u32, i: int) -> bool {
    &&& 0 <= i < slots.len()
    &&& slots[i] is Some
    &&& exists|k: int| #[trigger] with_ssrc(slots[i]->0.tracks@, ssrc, k)
}

/// The publisher of an SSRC is the one at the first place with such a track.
pub proof fn law_publisher(slots: Seq<Option<Participant>>, ssrc: u32)
    ensures
        match publisher_at(slots, ssrc, 0) {
            Some(i) => publishes(slots, ssrc, i) && forall|j: int|
                0 <= j < i ==> !#[trigger] publishes(slots, ssrc, j),
            None => forall|j: int| !#[trigger] publishes(slots, ssrc, j),
        },
{
    lemma_publisher_from(slots, ssrc, 0);
}

proof fn lemma_publisher_from(slots: Seq<Option<Participant>>, ssrc: u32, from: int)
    requires
        0 <= from,
    ensures
        match publisher_at(slots, ssrc, from) {
            Some(i) => from <= i && publishes(slots, ssrc, i) && forall|j: int|
                from <= j < i ==> !#[trigger] publishes(slots, ssrc, j),
            None => forall|j: int| from <= j ==> !#[trigger] publishes(slots, ssrc, j),
        },
    decreases slots.len() - from,
{
    if from < slots.len() {
        lemma_publisher_from(slots, ssrc, from + 1);
        if slots[from] is Some {
            law_track_by_ssrc(slots[from]->0.tracks@, ssrc);
        }
        assert(publishes(slots, ssrc, from) == (taken(slots, from) && track_at(
            slots[from]->0.tracks@,
            ssrc,
        ) is Some));
    }
}

/// Whether the video of whoever has taken a place is seen under an SSRC.
pub open spec fn seen_under(slots: Seq<Option<Participant>>, vssrc: u32, i: int) -> bool {
    0 <= i < slots.len() && slots[i] is Some && slots[i]->0.simulcast_video_ssrc == vssrc
}

/// Whose video is seen under an SSRC is found at the first such place.
pub proof fn law_seen_publisher(slots: Seq<Option<Participant>>, vssrc: u32)
    ensures
        match vssrc_at(slots, vssrc, 0) {
            Some(i) => seen_under(slots, vssrc, i) && forall|j: int|
                0 <= j < i ==> !#[trigger] seen_under(slots, vssrc, j),
            None => forall|j: int| !#[trigger] seen_under(slots, vssrc, j),
        },
{
    lemma_seen_from(slots, vssrc, 0);
}

proof fn lemma_seen_from(slots: Seq<Option<Participant>>, vssrc: u32, from: int)
    requires
        0 <= from,
    ensures
        match vssrc_at(slots, vssrc, from) {
            Some(i) => from <= i && seen_under(slots, vssrc, i) && forall|j: int|
                from <= j < i ==> !#[trigger] seen_under(slots, vssrc, j),
            None => forall|j: int| from <= j ==> !#[trigger] seen_under(slots, vssrc, j),
        },
    decreases slots.len() - from,
{
    if from < slots.len() {
        lemma_seen_from(slots, vssrc, from + 1);
    }
}

/// A subscriber's choice for a publisher is the one entry that names them.
pub proof fn law_choice_of_layer(v: Seq<SubscribeLayerEntry>, publisher: Seq<char>)
    requires
        layers_distinct(layers_of(v)),
    ensures
        forall|k: int|
            0 <= k < v.len() ==> ((#[trigger] v[k]).publisher@ == publisher <==> layer_of(
                v,
                publisher,
            ) == Some(k)),
        layer_of(v, publisher) matches Some(k) ==> 0 <= k < v.len(),
{
    reveal(layers_distinct);
    lemma_place_names(layers_of(v), publisher);
    let l = layers_of(v);
    assert forall|k: int| 0 <= k < v.len() implies ((#[trigger] v[k]).publisher@ == publisher
        <==> layer_of(v, publisher) == Some(k)) by {
        assert(l[k] == v[k]@ && l.len() == v.len());
        match layer_of(v, publisher) {
            Some(m) => {
                assert(0 <= m < l.len() && l[m].publisher == publisher);
                if m < k {
                    assert(l[m].publisher != l[k].publisher);
                } else if k < m {
                    assert(l[k].publisher != l[m].publisher);
                }
            },
            None => {
                assert(l[k].publisher != publisher);
            },
        }
    }
}

/// A name leads to the participant who has it, wherever they sit.
pub proof fn law_member_by_name(room: Room, user: Seq<char>, i: int)
    requires
        room.wf(),
        0 <= i < room.slots@.len(),
        room.slots@[i] is Some,
    ensures
        room.slots@[i]->0.user_id@ == user <==> room.place_of_user(user) == Some(i),
        room.slots@[i]->0.user_id@ == user ==> room.member(user) == room.slots@[i],
        room.member(user) matches Some(p) ==> p.user_id@ == user,
{
    assert(taken(room.slots@, i));
    let names = crate::room::index::names_of(room.participants);
    if names.dom().contains(user) {
        assert(taken(room.slots@, names[user].0 as int));
    }
}

/// The counts of a stream are found by its SSRC.
pub proof fn law_reception_by_ssrc(stats: Seq<Reception>, ssrc: u32)
    ensures
        match recv_place(stats, ssrc) {
            Some(i) => 0 <= i < stats.len() && stats[i].ssrc == ssrc && forall|j: int|
                0 <= j < i ==> (#[trigger] stats[j]).ssrc != ssrc,
            None => forall|j: int| 0 <= j < stats.len() ==> (#[trigger] stats[j]).ssrc != ssrc,
        },
    decreases stats.len(),
{
    if stats.len() > 0 && stats[0].ssrc != ssrc {
        let rest = stats.drop_first();
        law_reception_by_ssrc(rest, ssrc);
        assert forall|j: int| 0 < j < stats.len() implies #[trigger] stats[j] == rest[j - 1] by {}
    }
}

/// The same of what was sent.
pub proof fn law_sent_by_ssrc(stats: Seq<SendStats>, ssrc: u32)
    ensures
        match send_at(stats, ssrc) {
            Some(i) => 0 <= i < stats.len() && stats[i].ssrc == ssrc && forall|j: int|
                0 <= j < i ==> (#[trigger] stats[j]).ssrc != ssrc,
            None => forall|j: int| 0 <= j < stats.len() ==> (#[trigger] stats[j]).ssrc != ssrc,
        },
    decreases stats.len(),
{
    if stats.len() > 0 && stats[0].ssrc != ssrc {
        let rest = stats.drop_first();
        law_sent_by_ssrc(rest, ssrc);
        assert forall|j: int| 0 < j < stats.len() implies #[trigger] stats[j] == rest[j - 1] by {}
    }
}

/// A cache of 512 packets holds a packet where its number says, until another one
/// whose number is 512 or a multiple of it away takes the place.
pub proof fn law_cache_place(c: Seq<Option<Seq<u8>>>, seq: u16)
    ensures
        match cached(c, seq) {
            Some(p) => c[seq as int % 512] == Some(p) && p.len() >= 12 && be16(p, 2) == seq,
            None => c[seq as int % 512] matches Some(p) ==> p.len() < 12 || be16(p, 2) != seq,
        },
{
}

} // verus!
