//! The way of a publisher's packets to the subscribers: gating and rewriting in
//! push-to-talk rooms, the choice of layers in simulcast rooms.

use vstd::prelude::*;
use vstd::slice::slice_to_vec;

use crate::config::{self, RoomMode};
use crate::room::participant::{
    after_layer_packet, find_layer, find_track, fresh_layer, layer_packet, layer_passes,
    layer_place, layer_ssrc, layers_distinct, layers_of, lemma_layers_distinct, ssrc_of_layer,
    track_at, Layer, Participant, PipelineStats, SimulcastRewriter, SubscribeLayerEntry,
};
use crate::room::ptt_rewriter::{
    after_rewrite, is_vp8_keyframe, rewrite_outcome, rewritten, vp8_keyframe, RewriteResult, Stream,
};
use crate::room::room::{lemma_seats_kept, taken, Room};
use crate::text::{owned, text_eq};
use crate::transport::addr::SocketAddress;

verus! {

// ---------------------------------------------------------------------------
// Gating and rewriting
// ---------------------------------------------------------------------------

/// What becomes of a publisher's packet.
#[derive(Debug)]
pub enum Fanout {
    /// Dropped: somebody else has the floor.
    Gated,
    /// Dropped: the video waits for a key frame.
    PendingKeyframe,
    /// Sent on as a packet of the room's stream.
    Rewritten(Vec<u8>),
    /// Sent on as it came, though the room rewrites: not of a stream.
    Skipped(Vec<u8>),
    /// Sent on as it came.
    Plain(Vec<u8>),
}

pub enum FanoutView {
    Gated,
    PendingKeyframe,
    Rewritten(Seq<u8>),
    Skipped(Seq<u8>),
    Plain(Seq<u8>),
}

impl View for Fanout {
    type V = FanoutView;

    open spec fn view(&self) -> FanoutView {
        match self {
            Fanout::Gated => FanoutView::Gated,
            Fanout::PendingKeyframe => FanoutView::PendingKeyframe,
            Fanout::Rewritten(p) => FanoutView::Rewritten(p@),
            Fanout::Skipped(p) => FanoutView::Skipped(p@),
            Fanout::Plain(p) => FanoutView::Plain(p@),
        }
    }
}

/// Whether a user has the floor.
pub open spec fn has_floor(room: Room, user: Seq<char>) -> bool {
    match room.floor@.burst {
        Some(b) => b.speaker == user,
        None => false,
    }
}

pub fn holds_floor(room: &Room, user: &str) -> (r: bool)
    ensures
        r == has_floor(*room, user@),
{
    match room.floor.current_speaker() {
        Some(s) => text_eq(s.as_str(), user),
        None => false,
    }
}

/// What becomes of a packet in the stream it belongs to.
pub open spec fn stream_outcome(s: Stream, p: Seq<u8>, user: Seq<char>, keyframe: bool) -> FanoutView {
    match rewrite_outcome(s, p, user, keyframe) {
        RewriteResult::Rewritten => FanoutView::Rewritten(rewritten(s, p)),
        RewriteResult::PendingKeyframe => FanoutView::PendingKeyframe,
        RewriteResult::Skip => FanoutView::Skipped(p),
    }
}

/// The stream after a packet was offered to it.
pub open spec fn stream_after(s: Stream, p: Seq<u8>, user: Seq<char>, keyframe: bool) -> Stream {
    if rewrite_outcome(s, p, user, keyframe) == RewriteResult::Rewritten {
        after_rewrite(s, p)
    } else {
        s
    }
}

/// What becomes of a packet with the given payload type.
pub open spec fn fanout_outcome(room: Room, user: Seq<char>, p: Seq<u8>, pt: u8) -> FanoutView {
    if room.mode != RoomMode::Ptt {
        FanoutView::Plain(p)
    } else if !has_floor(room, user) {
        FanoutView::Gated
    } else if pt == config::OPUS_PAYLOAD_TYPE {
        stream_outcome(room.audio_rewriter@, p, user, false)
    } else if pt == config::VP8_PAYLOAD_TYPE {
        stream_outcome(room.video_rewriter@, p, user, vp8_keyframe(p))
    } else {
        FanoutView::Skipped(p)
    }
}

/// The counters of a publisher after a packet.
pub open spec fn pipeline_after(s: PipelineStats, o: FanoutView) -> PipelineStats {
    match o {
        FanoutView::Gated => PipelineStats { pub_rtp_gated: s.pub_rtp_gated.wrapping_add(1), ..s },
        FanoutView::PendingKeyframe => PipelineStats {
            pub_video_pending: s.pub_video_pending.wrapping_add(1),
            ..s
        },
        FanoutView::Rewritten(_) => PipelineStats {
            pub_rtp_rewritten: s.pub_rtp_rewritten.wrapping_add(1),
            ..s
        },
        FanoutView::Skipped(_) => s,
        FanoutView::Plain(_) => s,
    }
}

/// The room after a packet of the participant at `sender`.
pub open spec fn fanout_applied(a: Room, b: Room, sender: int, p: Seq<u8>, pt: u8) -> bool {
    let x = a.slots@[sender]->0;
    let user = x.user_id@;
    let speaks = a.mode == RoomMode::Ptt && has_floor(a, user);
    &&& b == (Room {
        slots: b.slots,
        audio_rewriter: b.audio_rewriter,
        video_rewriter: b.video_rewriter,
        ..a
    })
    &&& b.audio_rewriter@ == (if speaks && pt == config::OPUS_PAYLOAD_TYPE {
        stream_after(a.audio_rewriter@, p, user, false)
    } else {
        a.audio_rewriter@
    })
    &&& b.video_rewriter@ == (if speaks && pt == config::VP8_PAYLOAD_TYPE {
        stream_after(a.video_rewriter@, p, user, vp8_keyframe(p))
    } else {
        a.video_rewriter@
    })
    &&& b.slots@ == a.slots@.update(
        sender,
        Some(
            Participant {
                pipeline: pipeline_after(x.pipeline, fanout_outcome(a, user, p, pt)),
                ..x
            },
        ),
    )
}

pub proof fn lemma_one_changed(a: Room, b: Room, i: int)
    requires
        a.wf(),
        taken(a.slots@, i),
        b.slots@.len() == a.slots@.len(),
        forall|k: int| 0 <= k < a.slots@.len() && k != i ==> b.slots@[k] == a.slots@[k],
        b.slots@[i] is Some,
        b.slots@[i]->0.user_id == a.slots@[i]->0.user_id,
        b.slots@[i]->0.publish == a.slots@[i]->0.publish,
        b.slots@[i]->0.subscribe == a.slots@[i]->0.subscribe,
        b.slots@[i]->0.wf(),
        b.participants == a.participants,
        b.by_ufrag == a.by_ufrag,
        b.by_addr == a.by_addr,
        b.capacity == a.capacity,
        b.mode == a.mode,
        b.simulcast_enabled == a.simulcast_enabled,
        b.floor.wf(),
        !b.audio_rewriter@.video && b.video_rewriter@.video,
    ensures
        b.wf(),
{
    assert forall|k: int| #[trigger] taken(b.slots@, k) == taken(a.slots@, k) by {}
    assert forall|k: int| #[trigger] taken(b.slots@, k) implies b.slots@[k]->0.wf() by {
        assert(taken(a.slots@, k));
    }
    lemma_seats_kept(a, b);
}

/// Decides what becomes of a packet of the participant at `sender`: in a
/// push-to-talk room only the speaker is heard, as part of the room's streams.
pub fn prepare_fanout_payload(room: &mut Room, sender: usize, plaintext: &[u8], pt: u8) -> (r: Fanout)
    requires
        old(room).wf(),
        taken(old(room).slots@, sender as int),
    ensures
        final(room).wf(),
        r@ == fanout_outcome(
            *old(room),
            old(room).slots@[sender as int]->0.user_id@,
            plaintext@,
            pt,
        ),
        fanout_applied(*old(room), *final(room), sender as int, plaintext@, pt),
{
    let ghost start = *room;
    let user: String = match &room.slots[sender] {
        Some(p) => p.user_id.clone(),
        None => {
            return Fanout::Gated;
        },
    };
    let outcome: Fanout = if room.mode != RoomMode::Ptt {
        Fanout::Plain(slice_to_vec(plaintext))
    } else if !holds_floor(room, user.as_str()) {
        Fanout::Gated
    } else {
        let mut buf: Vec<u8> = slice_to_vec(plaintext);
        let result: RewriteResult = if pt == config::OPUS_PAYLOAD_TYPE {
            room.audio_rewriter.rewrite(&mut buf, user.as_str(), false)
        } else if pt == config::VP8_PAYLOAD_TYPE {
            let keyframe: bool = is_vp8_keyframe(plaintext);
            room.video_rewriter.rewrite(&mut buf, user.as_str(), keyframe)
        } else {
            RewriteResult::Skip
        };
        match result {
            RewriteResult::Rewritten => Fanout::Rewritten(buf),
            RewriteResult::PendingKeyframe => Fanout::PendingKeyframe,
            RewriteResult::Skip => Fanout::Skipped(buf),
        }
    };
    if let Some(p) = &mut room.slots[sender] {
        match &outcome {
            Fanout::Gated => {
                p.pipeline.pub_rtp_gated = p.pipeline.pub_rtp_gated.wrapping_add(1);
            },
            Fanout::PendingKeyframe => {
                p.pipeline.pub_video_pending = p.pipeline.pub_video_pending.wrapping_add(1);
            },
            Fanout::Rewritten(_) => {
                p.pipeline.pub_rtp_rewritten = p.pipeline.pub_rtp_rewritten.wrapping_add(1);
            },
            _ => {},
        }
    }
    proof {
        let x = start.slots@[sender as int]->0;
        assert(room.slots@ =~= start.slots@.update(
            sender as int,
            Some(
                Participant {
                    pipeline: pipeline_after(
                        x.pipeline,
                        fanout_outcome(start, user@, plaintext@, pt),
                    ),
                    ..x
                },
            ),
        ));
        lemma_one_changed(start, *room, sender as int);
    }
    outcome
}

/// In a push-to-talk room nothing is sent on but what comes from the speaker.
pub proof fn law_only_floor_holder_is_relayed(room: Room, user: Seq<char>, p: Seq<u8>, pt: u8)
    requires
        room.mode == RoomMode::Ptt,
        !has_floor(room, user),
    ensures
        fanout_outcome(room, user, p, pt) == FanoutView::Gated,
{
}

// ---------------------------------------------------------------------------
// Who gets a packet
// ---------------------------------------------------------------------------

/// Whether the participant at a place receives what `sender` publishes.
pub open spec fn is_target(slots: Seq<Option<Participant>>, sender: Seq<char>, i: int) -> bool {
    taken(slots, i) && slots[i]->0.user_id@ != sender && slots[i]->0.subscribe.ready()
}

/// The targets among the first `n` places.
pub open spec fn targets(slots: Seq<Option<Participant>>, sender: Seq<char>, n: int) -> Seq<usize>
    decreases n,
{
    if n <= 0 {
        Seq::empty()
    } else if is_target(slots, sender, n - 1) {
        targets(slots, sender, n - 1).push((n - 1) as usize)
    } else {
        targets(slots, sender, n - 1)
    }
}

/// The places of all who receive what `sender` publishes.
pub fn relay_targets(room: &Room, sender: &str) -> (r: Vec<usize>)
    ensures
        r@ == targets(room.slots@, sender@, room.slots@.len() as int),
{
    let mut out: Vec<usize> = Vec::new();
    let mut i: usize = 0;
    while i < room.slots.len()
        invariant
            i <= room.slots@.len(),
            out@ == targets(room.slots@, sender@, i as int),
        decreases room.slots@.len() - i,
    {
        if let Some(p) = &room.slots[i] {
            if !text_eq(p.user_id.as_str(), sender) && p.is_subscribe_ready() {
                out.push(i);
            }
        }
        i += 1;
    }
    out
}

/// Nobody receives their own packets, and everybody else who is ready does,
/// once.
pub proof fn law_targets(slots: Seq<Option<Participant>>, sender: Seq<char>, n: int)
    requires
        0 <= n <= slots.len() <= usize::MAX,
    ensures
        forall|i: int|
            0 <= i < n ==> (#[trigger] is_target(slots, sender, i) <==> targets(slots, sender, n).contains(
                i as usize,
            )),
        targets(slots, sender, n).no_duplicates(),
        forall|k: int|
            0 <= k < targets(slots, sender, n).len() ==> (#[trigger] targets(slots, sender, n)[k]) < n,
    decreases n,
{
    if n > 0 {
        law_targets(slots, sender, n - 1);
        let rest = targets(slots, sender, n - 1);
        let all = targets(slots, sender, n);
        assert forall|i: int| 0 <= i < n implies (#[trigger] is_target(slots, sender, i)
            <==> all.contains(i as usize)) by {
            if is_target(slots, sender, n - 1) {
                assert(all[rest.len() as int] == (n - 1) as usize);
                if i < n - 1 && rest.contains(i as usize) {
                    let k = choose|k: int| 0 <= k < rest.len() && rest[k] == i as usize;
                    assert(all[k] == i as usize);
                }
                if i < n - 1 && all.contains(i as usize) {
                    let k = choose|k: int| 0 <= k < all.len() && all[k] == i as usize;
                    assert(rest[k] == i as usize);
                }
            } else if i == n - 1 && all.contains(i as usize) {
                let k = choose|k: int| 0 <= k < all.len() && all[k] == i as usize;
                assert(rest[k] < n - 1);
            }
        }
    }
}

// ---------------------------------------------------------------------------
// Simulcast
// ---------------------------------------------------------------------------

/// The layers of a subscriber who has begun to receive a publisher: the high one
/// unless they chose.
pub open spec fn with_layer(layers: Seq<Layer>, publisher: Seq<char>, vssrc: u32) -> Seq<Layer> {
    if layer_place(layers, publisher) is Some {
        layers
    } else {
        layers.push(Layer { publisher, rid: "h"@, rewriter: fresh_layer(vssrc) })
    }
}

/// What a packet of a publisher's layer `rid` does to the layers of a subscriber,
/// and what is forwarded.
pub open spec fn layer_step(
    layers: Seq<Layer>,
    publisher: Seq<char>,
    rid: Seq<char>,
    vssrc: u32,
    p: Seq<u8>,
    keyframe: bool,
) -> (Seq<Layer>, Option<Seq<u8>>) {
    let all = with_layer(layers, publisher, vssrc);
    let k = layer_place(all, publisher)->0;
    let e = all[k];
    if e.rid == "pause"@ || e.rid != rid || !layer_passes(e.rewriter, p, keyframe) {
        (all, None)
    } else {
        (
            all.update(k, Layer { rewriter: after_layer_packet(e.rewriter, p), ..e }),
            Some(layer_packet(e.rewriter, p)),
        )
    }
}

/// Whoever has begun to receive a publisher has a layer of them, and one only.
proof fn lemma_begun(layers: Seq<Layer>, publisher: Seq<char>, vssrc: u32)
    requires
        layers_distinct(layers),
    ensures
        layers_distinct(with_layer(layers, publisher, vssrc)),
        layer_place(with_layer(layers, publisher, vssrc), publisher) is Some,
{
    let all = with_layer(layers, publisher, vssrc);
    if layer_place(layers, publisher) is None {
        lemma_layers_distinct(layers, all.last());
        assert(all.last().publisher == publisher);
    }
}

/// Whether a packet is of the layer that a subscriber receives, but is held back
/// from them until a key frame comes.
pub open spec fn held_back(
    layers: Seq<Layer>,
    publisher: Seq<char>,
    rid: Seq<char>,
    p: Seq<u8>,
    keyframe: bool,
) -> bool {
    let e = layers[layer_place(layers, publisher)->0];
    e.rid != "pause"@ && e.rid == rid && !layer_passes(e.rewriter, p, keyframe)
}

/// Whether a packet is cause to ask the publisher for a key frame: the subscriber
/// has only now begun to receive them, or still waits for one and it is time to
/// ask again.
pub open spec fn asks_key_frame(
    layers: Seq<Layer>,
    publisher: Seq<char>,
    rid: Seq<char>,
    p: Seq<u8>,
    keyframe: bool,
    retry: bool,
) -> bool {
    layer_place(layers, publisher) is None || (retry && held_back(
        layers,
        publisher,
        rid,
        p,
        keyframe,
    ))
}

/// Forwards a packet of a publisher's layer to a subscriber, if it is the one that
/// they receive. Tells also whether the publisher is to be asked for a key frame;
/// `retry` says that it is time to ask again.
pub fn forward_layer(
    target: &mut Participant,
    publisher: &str,
    rid: &str,
    vssrc: u32,
    payload: &[u8],
    keyframe: bool,
    retry: bool,
) -> (r: (Option<Vec<u8>>, bool))
    requires
        old(target).wf(),
    ensures
        final(target).wf(),
        *final(target) == (Participant {
            subscribe_layers: final(target).subscribe_layers,
            ..*old(target)
        }),
        ({
            let (layers, out) = layer_step(
                layers_of(old(target).subscribe_layers@),
                publisher@,
                rid@,
                vssrc,
                payload@,
                keyframe,
            );
            &&& layers_of(final(target).subscribe_layers@) == layers
            &&& match r.0 {
                Some(v) => out == Some(v@),
                None => out is None,
            }
        }),
        r.1 == asks_key_frame(
            layers_of(old(target).subscribe_layers@),
            publisher@,
            rid@,
            payload@,
            keyframe,
            retry,
        ),
{
    let ghost before = layers_of(target.subscribe_layers@);
    let (k, created): (usize, bool) = match find_layer(&target.subscribe_layers, publisher) {
        Some(k) => (k, false),
        None => {
            let k: usize = target.subscribe_layers.len();
            target.subscribe_layers.push(
                SubscribeLayerEntry {
                    publisher: owned(publisher),
                    rid: owned("h"),
                    rewriter: SimulcastRewriter::new(vssrc),
                },
            );
            (k, true)
        },
    };
    let ghost all = with_layer(before, publisher@, vssrc);
    assert(layers_of(target.subscribe_layers@) =~= all);
    assert(all[k as int] == target.subscribe_layers@[k as int]@);
    proof {
        lemma_begun(before, publisher@, vssrc);
    }
    if text_eq(target.subscribe_layers[k].rid.as_str(), "pause") || !text_eq(
        target.subscribe_layers[k].rid.as_str(),
        rid,
    ) {
        return (None, created);
    }
    let mut buf: Vec<u8> = slice_to_vec(payload);
    let forwarded: bool = target.subscribe_layers[k].rewriter.rewrite(&mut buf, keyframe);
    proof {
        let e = all[k as int];
        if forwarded {
            let x = Layer { rewriter: after_layer_packet(e.rewriter, payload@), ..e };
            assert(layers_of(target.subscribe_layers@) =~= all.update(k as int, x));
            lemma_layers_distinct(all, x);
        } else {
            assert(layers_of(target.subscribe_layers@) =~= all);
        }
    }
    if forwarded {
        (Some(buf), created)
    } else {
        (None, created || retry)
    }
}

/// What a packet is forwarded with: who published it, in which layer, and the
/// SSRC under which the subscribers see it.
pub struct LayerPacket {
    pub publisher: Seq<char>,
    pub rid: Seq<char>,
    pub vssrc: u32,
    pub bytes: Seq<u8>,
}

/// What is forwarded to the participant at a place.
pub open spec fn forwarded_to(slots: Seq<Option<Participant>>, i: int, q: LayerPacket) -> Option<Seq<u8>> {
    layer_step(
        layers_of(slots[i]->0.subscribe_layers@),
        q.publisher,
        q.rid,
        q.vssrc,
        q.bytes,
        vp8_keyframe(q.bytes),
    ).1
}

/// What is forwarded to the targets among the first `n` places.
pub open spec fn layer_forwards(slots: Seq<Option<Participant>>, q: LayerPacket, n: int) -> Seq<
    (usize, Seq<u8>),
>
    decreases n,
{
    if n <= 0 {
        Seq::empty()
    } else {
        let before = layer_forwards(slots, q, n - 1);
        if is_target(slots, q.publisher, n - 1) && forwarded_to(slots, n - 1, q) is Some {
            before.push(((n - 1) as usize, forwarded_to(slots, n - 1, q)->0))
        } else {
            before
        }
    }
}

/// Whether it is time to ask again on behalf of the participant at a place.
pub open spec fn retry_at(retry: Seq<bool>, i: int) -> bool {
    0 <= i < retry.len() && retry[i]
}

/// The targets among the first `n` places on whose behalf the publisher is to be
/// asked for a key frame.
pub open spec fn asking_for(
    slots: Seq<Option<Participant>>,
    q: LayerPacket,
    retry: Seq<bool>,
    n: int,
) -> Seq<usize>
    decreases n,
{
    if n <= 0 {
        Seq::empty()
    } else {
        let before = asking_for(slots, q, retry, n - 1);
        if is_target(slots, q.publisher, n - 1) && asks_key_frame(
            layers_of(slots[n - 1]->0.subscribe_layers@),
            q.publisher,
            q.rid,
            q.bytes,
            vp8_keyframe(q.bytes),
            retry_at(retry, n - 1),
        ) {
            before.push((n - 1) as usize)
        } else {
            before
        }
    }
}

/// Whether `b` is `a` after a packet was offered to a subscriber.
pub open spec fn layer_applied(a: Participant, b: Participant, q: LayerPacket) -> bool {
    &&& b == (Participant { subscribe_layers: b.subscribe_layers, ..a })
    &&& layers_of(b.subscribe_layers@) == layer_step(
        layers_of(a.subscribe_layers@),
        q.publisher,
        q.rid,
        q.vssrc,
        q.bytes,
        vp8_keyframe(q.bytes),
    ).0
}

/// The simulcast layer of a publisher's SSRC.
pub open spec fn rid_of(p: Participant, ssrc: u32) -> Option<Seq<char>> {
    match track_at(p.tracks@, ssrc) {
        Some(i) => match p.tracks@[i].rid {
            Some(r) => Some(r@),
            None => None,
        },
        None => None,
    }
}

/// The SSRC under which subscribers see a publisher's video, if `fresh` is to be
/// had for it.
pub open spec fn vssrc_or(p: Participant, fresh: u32) -> u32 {
    if p.simulcast_video_ssrc != 0 {
        p.simulcast_video_ssrc
    } else {
        fresh
    }
}

/// What is forwarded to whom, on whose behalf the publisher is to be asked for a
/// key frame, and on which SSRC and at which address, if they can be asked.
pub struct SimulcastFanout {
    pub forwards: Vec<(usize, Vec<u8>)>,
    pub asking: Vec<usize>,
    pub pli: Option<(u32, SocketAddress)>,
}

pub open spec fn forwards_of(v: Seq<(usize, Vec<u8>)>) -> Seq<(usize, Seq<u8>)> {
    v.map_values(|x: (usize, Vec<u8>)| (x.0, x.1@))
}

/// Where and on which SSRC a publisher is asked for a key frame of the high layer.
pub open spec fn high_layer_pli(p: Participant) -> Option<(u32, SocketAddress)> {
    match (layer_ssrc(p.tracks@, "h"@), p.publish.address) {
        (Some(ssrc), Some(addr)) => if p.publish.ready() {
            Some((ssrc, addr))
        } else {
            None
        },
        _ => None,
    }
}

/// The packet as it is offered to the subscribers.
pub open spec fn offered(p: Participant, ssrc: u32, fresh: u32, payload: Seq<u8>) -> LayerPacket {
    LayerPacket {
        publisher: p.user_id@,
        rid: rid_of(p, ssrc)->0,
        vssrc: vssrc_or(p, fresh),
        bytes: payload,
    }
}

/// The room after a video packet was offered to all subscribers.
pub open spec fn simulcast_applied(a: Room, b: Room, sender: int, ssrc: u32, fresh: u32, payload: Seq<u8>) -> bool {
    let x = a.slots@[sender]->0;
    let q = offered(x, ssrc, fresh, payload);
    &&& b == (Room { slots: b.slots, ..a })
    &&& b.slots@.len() == a.slots@.len()
    &&& b.slots@[sender] == Some(Participant { simulcast_video_ssrc: q.vssrc, ..x })
    &&& forall|i: int|
        0 <= i < a.slots@.len() && i != sender ==> if is_target(a.slots@, q.publisher, i) {
            #[trigger] b.slots@[i] is Some && layer_applied(a.slots@[i]->0, b.slots@[i]->0, q)
        } else {
            b.slots@[i] == a.slots@[i]
        }
}

/// Forwards a video packet of a simulcast publisher to everybody who receives its
/// layer. `fresh` becomes the SSRC under which the video is seen, should it have
/// none yet. `retry` says place by place for whom it is time to ask again for a key
/// frame that has not come.
pub fn fanout_simulcast_video(
    room: &mut Room,
    sender: usize,
    payload: &[u8],
    ssrc: u32,
    fresh: u32,
    retry: &Vec<bool>,
) -> (r: SimulcastFanout)
    requires
        old(room).wf(),
        taken(old(room).slots@, sender as int),
        fresh != 0,
    ensures
        final(room).wf(),
        ({
            let x = old(room).slots@[sender as int]->0;
            if rid_of(x, ssrc) is None {
                &&& *final(room) == *old(room)
                &&& r.forwards@.len() == 0
                &&& r.asking@.len() == 0
                &&& r.pli is None
            } else {
                let q = offered(x, ssrc, fresh, payload@);
                let n = old(room).slots@.len() as int;
                &&& simulcast_applied(*old(room), *final(room), sender as int, ssrc, fresh, payload@)
                &&& forwards_of(r.forwards@) == layer_forwards(old(room).slots@, q, n)
                &&& r.asking@ == asking_for(old(room).slots@, q, retry@, n)
                &&& r.pli == (if r.asking@.len() > 0 {
                    high_layer_pli(x)
                } else {
                    None
                })
            }
        }),
{
    let ghost start = *room;
    let ghost x = start.slots@[sender as int]->0;
    let mut forwards: Vec<(usize, Vec<u8>)> = Vec::new();
    let mut publisher: Option<(String, String)> = None;
    if let Some(p) = &room.slots[sender] {
        if let Some(t) = find_track(&p.tracks, ssrc) {
            if let Some(rid) = &p.tracks[t].rid {
                publisher = Some((p.user_id.clone(), rid.clone()));
            }
        }
    }
    let (user, rid): (String, String) = match publisher {
        Some(x) => x,
        None => {
            return SimulcastFanout { forwards, asking: Vec::new(), pli: None };
        },
    };
    let keyframe: bool = is_vp8_keyframe(payload);
    let vssrc: u32 = match &mut room.slots[sender] {
        Some(p) => p.simulcast_video_ssrc_or(fresh),
        None => fresh,
    };
    let ghost q = offered(x, ssrc, fresh, payload@);
    let mut asking: Vec<usize> = Vec::new();
    let n: usize = room.slots.len();
    let mut i: usize = 0;
    assert(forwards_of(forwards@) =~= Seq::empty());
    while i < n
        invariant
            start.wf(),
            taken(start.slots@, sender as int),
            x == start.slots@[sender as int]->0,
            q == offered(x, ssrc, fresh, payload@),
            user@ == q.publisher,
            rid@ == q.rid,
            vssrc == q.vssrc,
            keyframe == vp8_keyframe(payload@),
            i <= n == start.slots@.len() == room.slots@.len(),
            *room == (Room { slots: room.slots, ..start }),
            room.slots@[sender as int] == Some(Participant { simulcast_video_ssrc: q.vssrc, ..x }),
            forall|k: int|
                0 <= k < n && k != sender ==> if k < i && is_target(start.slots@, q.publisher, k) {
                    #[trigger] room.slots@[k] is Some && layer_applied(
                        start.slots@[k]->0,
                        room.slots@[k]->0,
                        q,
                    ) && room.slots@[k]->0.wf()
                } else {
                    room.slots@[k] == start.slots@[k]
                },
            forwards_of(forwards@) == layer_forwards(start.slots@, q, i as int),
            asking@ == asking_for(start.slots@, q, retry@, i as int),
        decreases n - i,
    {
        let ghost here = room.slots@;
        let ghost before = forwards@;
        if let Some(p) = &mut room.slots[i] {
            if !text_eq(p.user_id.as_str(), user.as_str()) && p.is_subscribe_ready() {
                assert(i != sender);
                assert(here[i as int] == start.slots@[i as int]);
                assert(taken(start.slots@, i as int));
                let again: bool = i < retry.len() && retry[i];
                let (out, asks) = forward_layer(
                    p,
                    user.as_str(),
                    rid.as_str(),
                    vssrc,
                    payload,
                    keyframe,
                    again,
                );
                if asks {
                    asking.push(i);
                }
                if let Some(buf) = out {
                    forwards.push((i, buf));
                    assert(forwards_of(forwards@) =~= forwards_of(before).push((i, buf@)));
                }
            }
        }
        i += 1;
        assert(room.slots@.len() == n);
    }
    let mut pli: Option<(u32, SocketAddress)> = None;
    if asking.len() > 0 {
        if let Some(p) = &room.slots[sender] {
            if let (Some(s), Some(a)) = (ssrc_of_layer(&p.tracks, "h"), p.publish.get_address()) {
                if p.is_publish_ready() {
                    pli = Some((s, a));
                }
            }
        }
    }
    proof {
        assert forall|k: int| #[trigger] taken(room.slots@, k) == taken(start.slots@, k) by {
            if 0 <= k < n && k != sender {
                assert(room.slots@[k] is Some == start.slots@[k] is Some);
            }
        }
        assert forall|k: int| #[trigger] taken(room.slots@, k) implies room.slots@[k]->0.wf() && (
        room.slots@[k]->0.user_id == start.slots@[k]->0.user_id) && room.slots@[k]->0.publish
            == start.slots@[k]->0.publish && room.slots@[k]->0.subscribe == start.slots@[k]->0.subscribe by {
            assert(taken(start.slots@, k));
            if k != sender {
                assert(room.slots@[k] is Some);
            }
        }
        lemma_seats_kept(start, *room);
    }
    SimulcastFanout { forwards, asking, pli }
}

} // verus!
