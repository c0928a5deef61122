//! What the handlers share: the codec and extension policy, and the track lists
//! that subscribers are shown.

use vstd::prelude::*;

use crate::config::BweMode;
use crate::room::participant::{
    find_layer, has_rid, layer_place, layers_of, lemma_layer_removed, track_has_rid, Layer,
    Participant, Track, TrackKind,
};
use crate::room::room::{lemma_seats_kept, taken, Room};
use crate::signaling::message::{tracks_of, TrackInfo, TrackView};
use crate::text::{owned, text_eq};

verus! {

// ---------------------------------------------------------------------------
// Policy
// ---------------------------------------------------------------------------

/// A codec that the server takes.
#[derive(Debug)]
pub struct Codec {
    pub kind: TrackKind,
    pub name: String,
    pub pt: u8,
    pub clockrate: u32,
    pub channels: Option<u8>,
    pub rtx_pt: Option<u8>,
    pub rtcp_fb: Vec<String>,
    pub fmtp: Option<String>,
}

/// What a codec entry says.
#[verifier::ext_equal]
pub struct CodecView {
    pub kind: TrackKind,
    pub name: Seq<char>,
    pub pt: u8,
    pub clockrate: u32,
    pub channels: Option<u8>,
    pub rtx_pt: Option<u8>,
    pub rtcp_fb: Seq<Seq<char>>,
    pub fmtp: Option<Seq<char>>,
}

impl View for Codec {
    type V = CodecView;

    open spec fn view(&self) -> CodecView {
        CodecView {
            kind: self.kind,
            name: self.name@,
            pt: self.pt,
            clockrate: self.clockrate,
            channels: self.channels,
            rtx_pt: self.rtx_pt,
            rtcp_fb: self.rtcp_fb@.map_values(|s: String| s@),
            fmtp: match self.fmtp {
                Some(s) => Some(s@),
                None => None,
            },
        }
    }
}

pub open spec fn codecs_of(v: Seq<Codec>) -> Seq<CodecView> {
    v.map_values(|c: Codec| c@)
}

/// The feedback that goes with video.
pub open spec fn video_feedback() -> Seq<Seq<char>> {
    seq!["nack"@, "nack pli"@, "ccm fir"@, "goog-remb"@]
}

/// The codecs: Opus, VP8 and H.264, each with its fixed payload type.
pub open spec fn codec_policy() -> Seq<CodecView> {
    seq![
        CodecView {
            kind: TrackKind::Audio,
            name: "opus"@,
            pt: 111,
            clockrate: 48000,
            channels: Some(2),
            rtx_pt: None,
            rtcp_fb: seq!["nack"@],
            fmtp: Some("minptime=10;useinbandfec=1"@),
        },
        CodecView {
            kind: TrackKind::Video,
            name: "VP8"@,
            pt: 96,
            clockrate: 90000,
            channels: None,
            rtx_pt: Some(97),
            rtcp_fb: video_feedback(),
            fmtp: None,
        },
        CodecView {
            kind: TrackKind::Video,
            name: "H264"@,
            pt: 102,
            clockrate: 90000,
            channels: None,
            rtx_pt: Some(103),
            rtcp_fb: video_feedback(),
            fmtp: Some("level-asymmetry-allowed=1;packetization-mode=1;profile-level-id=42e01f"@),
        },
    ]
}

fn video_feedback_list() -> (r: Vec<String>)
    ensures
        r@.map_values(|s: String| s@) == video_feedback(),
{
    let mut v: Vec<String> = Vec::new();
    v.push(owned("nack"));
    v.push(owned("nack pli"));
    v.push(owned("ccm fir"));
    v.push(owned("goog-remb"));
    assert(v@.map_values(|s: String| s@) =~= video_feedback());
    v
}

pub fn server_codec_policy() -> (r: Vec<Codec>)
    ensures
        codecs_of(r@) == codec_policy(),
{
    let mut nack: Vec<String> = Vec::new();
    nack.push(owned("nack"));
    assert(nack@.map_values(|s: String| s@) =~= seq!["nack"@]);
    let mut v: Vec<Codec> = Vec::new();
    v.push(
        Codec {
            kind: TrackKind::Audio,
            name: owned("opus"),
            pt: 111,
            clockrate: 48000,
            channels: Some(2),
            rtx_pt: None,
            rtcp_fb: nack,
            fmtp: Some(owned("minptime=10;useinbandfec=1")),
        },
    );
    v.push(
        Codec {
            kind: TrackKind::Video,
            name: owned("VP8"),
            pt: 96,
            clockrate: 90000,
            channels: None,
            rtx_pt: Some(97),
            rtcp_fb: video_feedback_list(),
            fmtp: None,
        },
    );
    v.push(
        Codec {
            kind: TrackKind::Video,
            name: owned("H264"),
            pt: 102,
            clockrate: 90000,
            channels: None,
            rtx_pt: Some(103),
            rtcp_fb: video_feedback_list(),
            fmtp: Some(
                owned("level-asymmetry-allowed=1;packetization-mode=1;profile-level-id=42e01f"),
            ),
        },
    );
    assert(codecs_of(v@) =~= codec_policy());
    v
}

/// A header extension and its number.
#[derive(Debug)]
pub struct ExtMap {
    pub id: u8,
    pub uri: String,
}

pub open spec fn extensions_of(v: Seq<ExtMap>) -> Seq<(u8, Seq<char>)> {
    v.map_values(|e: ExtMap| (e.id, e.uri@))
}

/// The header extensions: packets are numbered across the connection where the
/// bandwidth is estimated by transport-wide feedback, and streams carry their
/// identifier where there is simulcast.
pub open spec fn extmap_policy(bwe: BweMode, simulcast: bool) -> Seq<(u8, Seq<char>)> {
    let base = seq![
        (1u8, "urn:ietf:params:rtp-hdrext:sdes:mid"@),
        (4u8, "urn:ietf:params:rtp-hdrext:ssrc-audio-level"@),
        (5u8, "http://www.webrtc.org/experiments/rtp-hdrext/abs-send-time"@),
    ];
    let numbered = if bwe == BweMode::Twcc {
        base.push(
            (
                6u8,
                "http://www.ietf.org/id/draft-holmer-rmcat-transport-wide-cc-extensions-01"@,
            ),
        )
    } else {
        base
    };
    if simulcast {
        numbered.push((10u8, "urn:ietf:params:rtp-hdrext:sdes:rtp-stream-id"@)).push(
            (11u8, "urn:ietf:params:rtp-hdrext:sdes:repaired-rtp-stream-id"@),
        )
    } else {
        numbered
    }
}

pub fn server_extmap_policy(bwe_mode: BweMode, simulcast_enabled: bool) -> (r: Vec<ExtMap>)
    ensures
        extensions_of(r@) == extmap_policy(bwe_mode, simulcast_enabled),
{
    let mut v: Vec<ExtMap> = Vec::new();
    v.push(ExtMap { id: 1, uri: owned("urn:ietf:params:rtp-hdrext:sdes:mid") });
    v.push(ExtMap { id: 4, uri: owned("urn:ietf:params:rtp-hdrext:ssrc-audio-level") });
    v.push(
        ExtMap { id: 5, uri: owned("http://www.webrtc.org/experiments/rtp-hdrext/abs-send-time") },
    );
    if bwe_mode == BweMode::Twcc {
        v.push(
            ExtMap {
                id: 6,
                uri: owned(
                    "http://www.ietf.org/id/draft-holmer-rmcat-transport-wide-cc-extensions-01",
                ),
            },
        );
    }
    if simulcast_enabled {
        v.push(ExtMap { id: 10, uri: owned("urn:ietf:params:rtp-hdrext:sdes:rtp-stream-id") });
        v.push(
            ExtMap { id: 11, uri: owned("urn:ietf:params:rtp-hdrext:sdes:repaired-rtp-stream-id") },
        );
    }
    assert(extensions_of(v@) =~= extmap_policy(bwe_mode, simulcast_enabled));
    v
}

// ---------------------------------------------------------------------------
// Track lists
// ---------------------------------------------------------------------------

/// Subscribers of a simulcast room see one video, so the low layer is hidden.
pub open spec fn hidden(t: Track, simulcast: bool) -> bool {
    simulcast && has_rid(t, "l"@)
}

/// The SSRC under which subscribers see a track: with simulcast the publisher's
/// virtual one for video, where there is one.
pub open spec fn shown_ssrc(t: Track, simulcast: bool, vssrc: u32) -> u32 {
    if simulcast && t.kind == TrackKind::Video && vssrc != 0 {
        vssrc
    } else {
        t.ssrc
    }
}

/// A track as subscribers see it.
pub open spec fn shown_track(user: Seq<char>, t: Track, simulcast: bool, vssrc: u32) -> TrackView {
    TrackView {
        user_id: Some(user),
        track_id: t.track_id@,
        kind: t.kind,
        ssrc: shown_ssrc(t, simulcast, vssrc),
        rtx_ssrc: t.rtx_ssrc,
        rid: None,
        is_virtual: false,
    }
}

/// The first `n` tracks of a publisher as subscribers see them.
pub open spec fn shown_tracks(
    user: Seq<char>,
    tracks: Seq<Track>,
    simulcast: bool,
    vssrc: u32,
    n: int,
) -> Seq<TrackView>
    decreases n,
{
    if n <= 0 {
        Seq::empty()
    } else {
        let rest = shown_tracks(user, tracks, simulcast, vssrc, n - 1);
        if hidden(tracks[n - 1], simulcast) {
            rest
        } else {
            rest.push(shown_track(user, tracks[n - 1], simulcast, vssrc))
        }
    }
}

/// Adds what subscribers see of a publisher's tracks.
fn push_shown(
    out: &mut Vec<TrackInfo>,
    user: &str,
    tracks: &Vec<Track>,
    simulcast: bool,
    vssrc: u32,
)
    ensures
        tracks_of(final(out)@) == tracks_of(old(out)@) + shown_tracks(
            user@,
            tracks@,
            simulcast,
            vssrc,
            tracks@.len() as int,
        ),
{
    let ghost start = tracks_of(out@);
    let mut i: usize = 0;
    assert(start + Seq::<TrackView>::empty() =~= start);
    while i < tracks.len()
        invariant
            i <= tracks@.len(),
            tracks_of(out@) == start + shown_tracks(user@, tracks@, simulcast, vssrc, i as int),
        decreases tracks@.len() - i,
    {
        let t = &tracks[i];
        let ghost before = out@;
        if !(simulcast && track_has_rid(t, "l")) {
            let ssrc: u32 = if simulcast && t.kind == TrackKind::Video && vssrc != 0 {
                vssrc
            } else {
                t.ssrc
            };
            out.push(
                TrackInfo {
                    user_id: Some(owned(user)),
                    track_id: t.track_id.clone(),
                    kind: t.kind,
                    ssrc,
                    rtx_ssrc: t.rtx_ssrc,
                    rid: None,
                    is_virtual: false,
                },
            );
            assert(tracks_of(out@) =~= tracks_of(before).push(
                shown_track(user@, *t, simulcast, vssrc),
            ));
            assert(tracks_of(out@) =~= start + shown_tracks(
                user@,
                tracks@,
                simulcast,
                vssrc,
                i + 1,
            ));
        }
        i += 1;
    }
}

/// The tracks of a publisher who goes, as subscribers know them.
pub fn build_remove_tracks(tracks: &Vec<Track>, user_id: &str, sim_enabled: bool, vssrc: u32) -> (r:
    Vec<TrackInfo>)
    ensures
        tracks_of(r@) == shown_tracks(
            user_id@,
            tracks@,
            sim_enabled,
            vssrc,
            tracks@.len() as int,
        ),
{
    let mut out: Vec<TrackInfo> = Vec::new();
    assert(tracks_of(out@) =~= Seq::empty());
    push_shown(&mut out, user_id, tracks, sim_enabled, vssrc);
    assert(tracks_of(out@) =~= shown_tracks(
        user_id@,
        tracks@,
        sim_enabled,
        vssrc,
        tracks@.len() as int,
    ));
    out
}

/// What those at the first `n` places publish, without `user`, as subscribers see
/// it.
pub open spec fn others_tracks(
    slots: Seq<Option<Participant>>,
    simulcast: bool,
    user: Seq<char>,
    n: int,
) -> Seq<TrackView>
    decreases n,
{
    if n <= 0 {
        Seq::empty()
    } else {
        let rest = others_tracks(slots, simulcast, user, n - 1);
        if taken(slots, n - 1) && slots[n - 1]->0.user_id@ != user {
            let p = slots[n - 1]->0;
            rest + shown_tracks(
                p.user_id@,
                p.tracks@,
                simulcast,
                p.simulcast_video_ssrc,
                p.tracks@.len() as int,
            )
        } else {
            rest
        }
    }
}

/// What a room offers to `user`.
pub open spec fn offered_tracks(room: Room, user: Seq<char>) -> Seq<TrackView> {
    others_tracks(room.slots@, room.simulcast_enabled, user, room.slots@.len() as int)
}

/// The tracks of everybody else.
pub fn collect_subscribe_tracks(room: &Room, exclude_user: &str) -> (r: Vec<TrackInfo>)
    ensures
        tracks_of(r@) == offered_tracks(*room, exclude_user@),
{
    let mut out: Vec<TrackInfo> = Vec::new();
    assert(tracks_of(out@) =~= Seq::empty());
    let mut i: usize = 0;
    while i < room.slots.len()
        invariant
            i <= room.slots@.len(),
            tracks_of(out@) == others_tracks(
                room.slots@,
                room.simulcast_enabled,
                exclude_user@,
                i as int,
            ),
        decreases room.slots@.len() - i,
    {
        if let Some(p) = &room.slots[i] {
            if !text_eq(p.user_id.as_str(), exclude_user) {
                push_shown(
                    &mut out,
                    p.user_id.as_str(),
                    &p.tracks,
                    room.simulcast_enabled,
                    p.simulcast_video_ssrc,
                );
            }
        }
        i += 1;
    }
    out
}

// ---------------------------------------------------------------------------
// Virtual video SSRCs
// ---------------------------------------------------------------------------

/// Whether subscribers see a video among the first `n` tracks.
pub open spec fn shows_video(tracks: Seq<Track>, n: int) -> bool {
    exists|i: int| 0 <= i < n && (#[trigger] tracks[i]).kind == TrackKind::Video && !has_rid(tracks[i], "l"@)
}

fn has_shown_video(tracks: &Vec<Track>) -> (r: bool)
    ensures
        r == shows_video(tracks@, tracks@.len() as int),
{
    let mut i: usize = 0;
    while i < tracks.len()
        invariant
            i <= tracks@.len(),
            !shows_video(tracks@, i as int),
        decreases tracks@.len() - i,
    {
        if tracks[i].kind == TrackKind::Video && !track_has_rid(&tracks[i], "l") {
            return true;
        }
        i += 1;
    }
    false
}

/// Whether a participant needs a virtual SSRC: everybody where `all` says so,
/// else whoever publishes a video that subscribers see.
pub open spec fn needs_vssrc(p: Participant, all: bool) -> bool {
    all || shows_video(p.tracks@, p.tracks@.len() as int)
}

/// A participant who may have been given a virtual SSRC; one that was given
/// before stays.
pub open spec fn vssrc_kept(p: Participant, q: Participant) -> bool {
    &&& q == (Participant { simulcast_video_ssrc: q.simulcast_video_ssrc, ..p })
    &&& p.simulcast_video_ssrc != 0 ==> q.simulcast_video_ssrc == p.simulcast_video_ssrc
}

/// Whether the participants of a room are the same but for virtual SSRCs.
pub open spec fn vssrcs_kept(a: Room, b: Room) -> bool {
    &&& b == (Room { slots: b.slots, ..a })
    &&& b.slots@.len() == a.slots@.len()
    &&& forall|i: int| #[trigger] taken(b.slots@, i) == taken(a.slots@, i)
    &&& forall|i: int| #[trigger]
        taken(b.slots@, i) ==> vssrc_kept(a.slots@[i]->0, b.slots@[i]->0)
}

/// Whether those at the first `n` places have virtual SSRCs as far as they need
/// them, and nobody else was given one.
pub open spec fn vssrcs_given(a: Room, b: Room, user: Seq<char>, all: bool, n: int) -> bool {
    forall|i: int| #[trigger]
        taken(b.slots@, i) ==> {
            let p = a.slots@[i]->0;
            let q = b.slots@[i]->0;
            if i < n && a.simulcast_enabled && p.user_id@ != user && needs_vssrc(p, all) {
                q.simulcast_video_ssrc != 0
            } else {
                q.simulcast_video_ssrc == p.simulcast_video_ssrc
            }
        }
}

/// Whether somebody but `user` needs a virtual SSRC in a room with simulcast, and
/// has none yet.
pub open spec fn vssrc_missing(room: Room, user: Seq<char>, all: bool) -> bool {
    room.simulcast_enabled && exists|i: int| #[trigger]
        taken(room.slots@, i) && room.slots@[i]->0.user_id@ != user && needs_vssrc(
            room.slots@[i]->0,
            all,
        ) && room.slots@[i]->0.simulcast_video_ssrc == 0
}

pub proof fn lemma_vssrcs_kept(a: Room, b: Room)
    requires
        a.wf(),
        vssrcs_kept(a, b),
    ensures
        b.wf(),
{
    assert forall|i: int| #[trigger] taken(b.slots@, i) implies b.slots@[i]->0.wf() by {
        assert(taken(a.slots@, i));
    }
    lemma_seats_kept(a, b);
}

/// Gives everybody but `user` a virtual SSRC where the room has simulcast and
/// they need one. False only where somebody has none yet and the system has no
/// random numbers to give.
pub fn ensure_video_ssrcs(room: &mut Room, user: &str, all: bool) -> (r: bool)
    requires
        old(room).wf(),
    ensures
        final(room).wf(),
        vssrcs_kept(*old(room), *final(room)),
        r ==> vssrcs_given(
            *old(room),
            *final(room),
            user@,
            all,
            old(room).slots@.len() as int,
        ),
        !r ==> vssrc_missing(*old(room), user@, all),
{
    if !room.simulcast_enabled {
        return true;
    }
    let ghost start = *room;
    let n: usize = room.slots.len();
    let mut i: usize = 0;
    while i < n
        invariant
            i <= n == room.slots@.len(),
            start.wf(),
            start.simulcast_enabled,
            *old(room) == start,
            vssrcs_kept(start, *room),
            vssrcs_given(start, *room, user@, all, i as int),
        decreases n - i,
    {
        let ghost before = *room;
        assert(taken(before.slots@, i as int) == taken(start.slots@, i as int));
        match &mut room.slots[i] {
            Some(p) => {
                let ghost kept = *p;
                if !text_eq(p.user_id.as_str(), user) && (all || has_shown_video(&p.tracks)) {
                    match p.ensure_simulcast_video_ssrc() {
                        Some(_) => {},
                        None => {
                            proof {
                                assert(room.slots@ =~= before.slots@);
                                lemma_vssrcs_kept(start, *room);
                                assert(taken(before.slots@, i as int));
                                assert(taken(start.slots@, i as int));
                            }
                            return false;
                        },
                    }
                }
            },
            None => {},
        }
        proof {
            assert(room.slots@ =~= before.slots@.update(i as int, room.slots@[i as int]));
            assert forall|k: int| #[trigger] taken(room.slots@, k) == taken(start.slots@, k) by {
                assert(taken(before.slots@, k) == taken(start.slots@, k));
            }
            assert forall|k: int| #[trigger] taken(room.slots@, k) implies vssrc_kept(
                start.slots@[k]->0,
                room.slots@[k]->0,
            ) by {
                assert(taken(before.slots@, k));
            }
            assert forall|k: int| #[trigger] taken(room.slots@, k) implies ({
                let p = start.slots@[k]->0;
                let q = room.slots@[k]->0;
                if k < i + 1 && start.simulcast_enabled && p.user_id@ != user@ && needs_vssrc(p, all) {
                    q.simulcast_video_ssrc != 0
                } else {
                    q.simulcast_video_ssrc == p.simulcast_video_ssrc
                }
            }) by {
                assert(taken(before.slots@, k));
            }
        }
        i += 1;
    }
    proof {
        lemma_vssrcs_kept(start, *room);
    }
    true
}

// ---------------------------------------------------------------------------
// Layers of somebody who has gone
// ---------------------------------------------------------------------------

/// Layers without that of a publisher.
pub open spec fn without_publisher(layers: Seq<Layer>, publisher: Seq<char>) -> Seq<Layer> {
    match layer_place(layers, publisher) {
        Some(i) => layers.remove(i),
        None => layers,
    }
}

/// A participant who receives nothing of `user` any more.
pub open spec fn layer_purged(p: Participant, q: Participant, user: Seq<char>) -> bool {
    &&& q == (Participant { subscribe_layers: q.subscribe_layers, ..p })
    &&& layers_of(q.subscribe_layers@) == without_publisher(
        layers_of(p.subscribe_layers@),
        user,
    )
}

/// Whoever receives nothing of a publisher any more has no layer of them left: if
/// the publisher comes again, they start afresh.
pub proof fn law_purged_is_forgotten(p: Participant, q: Participant, user: Seq<char>)
    requires
        p.wf(),
        layer_purged(p, q, user),
    ensures
        q.wf(),
        layer_place(layers_of(q.subscribe_layers@), user) is None,
{
    if layer_place(layers_of(p.subscribe_layers@), user) is Some {
        lemma_layer_removed(layers_of(p.subscribe_layers@), user);
    }
}

/// Whether those at the first `n` places, without `user`, receive nothing of
/// `user` any more, and all else is as it was.
pub open spec fn layers_purged(a: Room, b: Room, user: Seq<char>, n: int) -> bool {
    &&& b == (Room { slots: b.slots, ..a })
    &&& b.slots@.len() == a.slots@.len()
    &&& forall|i: int| #[trigger] taken(b.slots@, i) == taken(a.slots@, i)
    &&& forall|i: int| #[trigger]
        taken(b.slots@, i) ==> if i < n && a.slots@[i]->0.user_id@ != user {
            layer_purged(a.slots@[i]->0, b.slots@[i]->0, user)
        } else {
            b.slots@[i] == a.slots@[i]
        }
}

/// Takes the layers of somebody who leaves from the others, so that they start
/// afresh if they come again.
pub fn purge_subscribe_layers(room: &mut Room, leaving_user: &str)
    requires
        old(room).wf(),
    ensures
        final(room).wf(),
        layers_purged(*old(room), *final(room), leaving_user@, old(room).slots@.len() as int),
{
    let ghost start = *room;
    let n: usize = room.slots.len();
    let mut i: usize = 0;
    while i < n
        invariant
            i <= n == room.slots@.len(),
            start.wf(),
            layers_purged(start, *room, leaving_user@, i as int),
        decreases n - i,
    {
        let ghost before = *room;
        assert(taken(before.slots@, i as int) == taken(start.slots@, i as int));
        match &mut room.slots[i] {
            Some(p) => {
                if !text_eq(p.user_id.as_str(), leaving_user) {
                    let ghost layers = p.subscribe_layers@;
                    if let Some(k) = find_layer(&p.subscribe_layers, leaving_user) {
                        p.subscribe_layers.remove(k);
                        assert(layers_of(p.subscribe_layers@) =~= layers_of(layers).remove(k as int));
                    }
                }
            },
            None => {},
        }
        proof {
            assert(room.slots@ =~= before.slots@.update(i as int, room.slots@[i as int]));
            assert forall|k: int| #[trigger] taken(room.slots@, k) == taken(start.slots@, k) by {
                assert(taken(before.slots@, k) == taken(start.slots@, k));
            }
            assert forall|k: int| #[trigger] taken(room.slots@, k) implies if k < i + 1
                && start.slots@[k]->0.user_id@ != leaving_user@ {
                layer_purged(start.slots@[k]->0, room.slots@[k]->0, leaving_user@)
            } else {
                room.slots@[k] == start.slots@[k]
            } by {
                assert(taken(before.slots@, k));
            }
        }
        i += 1;
    }
    proof {
        assert forall|k: int| #[trigger] taken(room.slots@, k) implies room.slots@[k]->0.wf() by {
            assert(taken(start.slots@, k));
            if start.slots@[k]->0.user_id@ != leaving_user@ {
                law_purged_is_forgotten(start.slots@[k]->0, room.slots@[k]->0, leaving_user@);
            }
        }
        lemma_seats_kept(start, *room);
    }
}

} // verus!
