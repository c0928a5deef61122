//! A participant of a room: one session for publishing, one for subscribing, the
//! published tracks, and what the server keeps about the media.

use vstd::prelude::*;
use vstd::slice::slice_to_vec;

use crate::config;
use crate::random::random_u32;
use crate::room::ptt_rewriter::{renumber, renumbered};
use crate::text::text_eq;
use crate::transport::addr::SocketAddress;
use crate::transport::srtp::{SrtpContext, SrtpState};
use crate::transport::udp::rtcp_terminator::{reception_valid, Reception, RecvStats, SendStats};
use crate::wire::{be16, be32, lemma_be16_roundtrip, lemma_be32_roundtrip, read_u16, read_u32};

verus! {

// ---------------------------------------------------------------------------
// Counters
// ---------------------------------------------------------------------------

/// How many packets of a participant passed each stage. The counts wrap.
#[derive(Debug, Clone, Copy, PartialEq, Eq, Structural)]
pub struct PipelineStats {
    /// Packets received from the participant.
    pub pub_rtp_in: u64,
    /// Packets dropped because somebody else has the floor.
    pub pub_rtp_gated: u64,
    /// Packets rewritten for a push-to-talk stream.
    pub pub_rtp_rewritten: u64,
    /// Packets dropped for want of a key frame.
    pub pub_video_pending: u64,
    /// Packets queued for the participant.
    pub sub_rtp_relayed: u64,
    /// Packets dropped because the queue was full.
    pub sub_rtp_dropped: u64,
    /// Reports queued for the participant.
    pub sub_sr_relayed: u64,
}

/// The counters at one moment.
#[derive(Debug, Clone, Copy, PartialEq, Eq, Structural)]
pub struct PipelineSnapshot {
    pub pub_rtp_in: u64,
    pub pub_rtp_gated: u64,
    pub pub_rtp_rewritten: u64,
    pub pub_video_pending: u64,
    pub sub_rtp_relayed: u64,
    pub sub_rtp_dropped: u64,
    pub sub_sr_relayed: u64,
}

/// All counters at zero.
pub open spec fn no_pipeline() -> PipelineStats {
    PipelineStats {
        pub_rtp_in: 0,
        pub_rtp_gated: 0,
        pub_rtp_rewritten: 0,
        pub_video_pending: 0,
        sub_rtp_relayed: 0,
        sub_rtp_dropped: 0,
        sub_sr_relayed: 0,
    }
}

impl PipelineStats {
    pub fn new() -> (r: Self)
        ensures
            r == no_pipeline(),
    {
        PipelineStats {
            pub_rtp_in: 0,
            pub_rtp_gated: 0,
            pub_rtp_rewritten: 0,
            pub_video_pending: 0,
            sub_rtp_relayed: 0,
            sub_rtp_dropped: 0,
            sub_sr_relayed: 0,
        }
    }

    pub fn snapshot(&self) -> (r: PipelineSnapshot)
        ensures
            r.pub_rtp_in == self.pub_rtp_in,
            r.pub_rtp_gated == self.pub_rtp_gated,
            r.pub_rtp_rewritten == self.pub_rtp_rewritten,
            r.pub_video_pending == self.pub_video_pending,
            r.sub_rtp_relayed == self.sub_rtp_relayed,
            r.sub_rtp_dropped == self.sub_rtp_dropped,
            r.sub_sr_relayed == self.sub_sr_relayed,
    {
        PipelineSnapshot {
            pub_rtp_in: self.pub_rtp_in,
            pub_rtp_gated: self.pub_rtp_gated,
            pub_rtp_rewritten: self.pub_rtp_rewritten,
            pub_video_pending: self.pub_video_pending,
            sub_rtp_relayed: self.sub_rtp_relayed,
            sub_rtp_dropped: self.sub_rtp_dropped,
            sub_sr_relayed: self.sub_sr_relayed,
        }
    }
}

impl Default for PipelineStats {
    fn default() -> (r: Self)
        ensures
            r == no_pipeline(),
    {
        PipelineStats::new()
    }
}

// ---------------------------------------------------------------------------
// Simulcast
// ---------------------------------------------------------------------------

/// The rewriter of one publisher's video for one subscriber. The subscriber sees
/// one SSRC with continuous numbers whichever layer is forwarded.
#[derive(Debug, Clone, Copy, PartialEq, Eq, Structural)]
pub struct SimulcastRewriter {
    pub virtual_ssrc: u32,
    pub seq_offset: u16,
    pub ts_offset: u32,
    pub last_out_seq: u16,
    pub last_out_ts: u32,
    /// The layer was switched, and no key frame of the new one has come yet.
    pub pending_keyframe: bool,
    /// A key frame has come.
    pub initialized: bool,
}

/// A rewriter that has seen no packet.
pub open spec fn fresh_layer(virtual_ssrc: u32) -> SimulcastRewriter {
    SimulcastRewriter {
        virtual_ssrc,
        seq_offset: 0,
        ts_offset: 0,
        last_out_seq: 0,
        last_out_ts: 0,
        pending_keyframe: false,
        initialized: false,
    }
}

/// Whether a packet is forwarded: not before the first key frame, nor between a
/// switch and the next key frame.
pub open spec fn layer_passes(s: SimulcastRewriter, p: Seq<u8>, keyframe: bool) -> bool {
    p.len() >= 12 && (keyframe || (s.initialized && !s.pending_keyframe))
}

/// The offsets by which a packet is renumbered.
pub open spec fn layer_offsets(s: SimulcastRewriter, p: Seq<u8>) -> (u16, u32) {
    if !s.initialized {
        (0, 0)
    } else if s.pending_keyframe {
        (
            s.last_out_seq.wrapping_add(1).wrapping_sub(be16(p, 2)),
            s.last_out_ts.wrapping_add(1).wrapping_sub(be32(p, 4)),
        )
    } else {
        (s.seq_offset, s.ts_offset)
    }
}

pub open spec fn layer_seq(s: SimulcastRewriter, p: Seq<u8>) -> u16 {
    be16(p, 2).wrapping_add(layer_offsets(s, p).0)
}

pub open spec fn layer_ts(s: SimulcastRewriter, p: Seq<u8>) -> u32 {
    be32(p, 4).wrapping_add(layer_offsets(s, p).1)
}

/// The packet as it is forwarded.
pub open spec fn layer_packet(s: SimulcastRewriter, p: Seq<u8>) -> Seq<u8> {
    renumbered(p, layer_seq(s, p), layer_ts(s, p), s.virtual_ssrc)
}

/// The rewriter after a packet was forwarded.
pub open spec fn after_layer_packet(s: SimulcastRewriter, p: Seq<u8>) -> SimulcastRewriter {
    SimulcastRewriter {
        seq_offset: layer_offsets(s, p).0,
        ts_offset: layer_offsets(s, p).1,
        last_out_seq: layer_seq(s, p),
        last_out_ts: layer_ts(s, p),
        pending_keyframe: false,
        initialized: true,
        ..s
    }
}

impl SimulcastRewriter {
    pub fn new(virtual_ssrc: u32) -> (r: Self)
        ensures
            r == fresh_layer(virtual_ssrc),
    {
        SimulcastRewriter {
            virtual_ssrc,
            seq_offset: 0,
            ts_offset: 0,
            last_out_seq: 0,
            last_out_ts: 0,
            pending_keyframe: false,
            initialized: false,
        }
    }

    /// Another layer is forwarded from its next key frame on.
    pub fn switch_layer(&mut self)
        ensures
            *final(self) == (SimulcastRewriter { pending_keyframe: true, ..*old(self) }),
    {
        self.pending_keyframe = true;
    }

    /// Renumbers a packet in place; tells whether it is to be forwarded.
    pub fn rewrite(&mut self, buf: &mut [u8], is_keyframe: bool) -> (r: bool)
        ensures
            r == layer_passes(*old(self), old(buf)@, is_keyframe),
            r ==> final(buf)@ == layer_packet(*old(self), old(buf)@) && *final(self)
                == after_layer_packet(*old(self), old(buf)@),
            !r ==> final(buf)@ == old(buf)@ && *final(self) == *old(self),
    {
        if buf.len() < 12 {
            return false;
        }
        let input_seq: u16 = read_u16(buf, 2);
        let input_ts: u32 = read_u32(buf, 4);
        if !self.initialized {
            if !is_keyframe {
                return false;
            }
            self.seq_offset = 0;
            self.ts_offset = 0;
            self.initialized = true;
            self.pending_keyframe = false;
        } else if self.pending_keyframe {
            if !is_keyframe {
                return false;
            }
            self.seq_offset = self.last_out_seq.wrapping_add(1).wrapping_sub(input_seq);
            self.ts_offset = self.last_out_ts.wrapping_add(1).wrapping_sub(input_ts);
            self.pending_keyframe = false;
        }
        let out_seq: u16 = input_seq.wrapping_add(self.seq_offset);
        let out_ts: u32 = input_ts.wrapping_add(self.ts_offset);
        renumber(buf, out_seq, out_ts, self.virtual_ssrc);
        self.last_out_seq = out_seq;
        self.last_out_ts = out_ts;
        true
    }

    /// The sequence number that a forwarded packet had at its sender.
    pub fn reverse_seq(&self, virtual_seq: u16) -> (r: u16)
        ensures
            r == virtual_seq.wrapping_sub(self.seq_offset),
    {
        virtual_seq.wrapping_sub(self.seq_offset)
    }
}

/// A negative acknowledgement finds its packet: the sequence number that a
/// forwarded packet was given maps back to the one that it had.
pub proof fn law_layer_reverse(s: SimulcastRewriter, p: Seq<u8>)
    ensures
        layer_seq(s, p).wrapping_sub(after_layer_packet(s, p).seq_offset) == be16(p, 2),
{
}

/// A switch of layers leaves no gap: the first packet of the new layer carries
/// the numbers after the last ones that were sent, under the same SSRC.
pub proof fn law_layer_switch_is_seamless(s: SimulcastRewriter, p: Seq<u8>)
    requires
        s.initialized,
        p.len() >= 12,
    ensures
        ({
            let t = SimulcastRewriter { pending_keyframe: true, ..s };
            &&& !layer_passes(t, p, false)
            &&& layer_passes(t, p, true)
            &&& layer_seq(t, p) == s.last_out_seq.wrapping_add(1)
            &&& layer_ts(t, p) == s.last_out_ts.wrapping_add(1)
            &&& be16(layer_packet(t, p), 2) == layer_seq(t, p)
            &&& be32(layer_packet(t, p), 8) == s.virtual_ssrc
        }),
{
    let t = SimulcastRewriter { pending_keyframe: true, ..s };
    let q = layer_packet(t, p);
    assert(q.subrange(2, 4) =~= crate::wire::be16_bytes(layer_seq(t, p)));
    lemma_be16_roundtrip(q, 2, layer_seq(t, p));
    assert(q.subrange(8, 12) =~= crate::wire::be32_bytes(s.virtual_ssrc));
    lemma_be32_roundtrip(q, 8, s.virtual_ssrc);
}

/// Which layer of a publisher a subscriber receives.
#[derive(Debug)]
pub struct SubscribeLayerEntry {
    /// The publisher.
    pub publisher: String,
    /// "h", "l" or "pause".
    pub rid: String,
    pub rewriter: SimulcastRewriter,
}

/// What a layer entry says.
pub struct Layer {
    pub publisher: Seq<char>,
    pub rid: Seq<char>,
    pub rewriter: SimulcastRewriter,
}

impl View for SubscribeLayerEntry {
    type V = Layer;

    open spec fn view(&self) -> Layer {
        Layer { publisher: self.publisher@, rid: self.rid@, rewriter: self.rewriter }
    }
}

/// What a list of layer entries says.
pub open spec fn layers_of(v: Seq<SubscribeLayerEntry>) -> Seq<Layer> {
    v.map_values(|e: SubscribeLayerEntry| e@)
}

/// The place of a publisher in a list of layers.
pub open spec fn layer_place(layers: Seq<Layer>, publisher: Seq<char>) -> Option<int>
    decreases layers.len(),
{
    if layers.len() == 0 {
        None
    } else if layers.last().publisher == publisher {
        Some(layers.len() - 1)
    } else {
        layer_place(layers.drop_last(), publisher)
    }
}

/// Whether no publisher is received in two layers.
#[verifier::opaque]
pub open spec fn layers_distinct(layers: Seq<Layer>) -> bool {
    forall|i: int, j: int|
        0 <= i < j < layers.len() ==> (#[trigger] layers[i]).publisher != (
        #[trigger] layers[j]).publisher
}

/// Where a publisher stands in a list of layers, if they do.
pub proof fn lemma_place_names(layers: Seq<Layer>, publisher: Seq<char>)
    ensures
        match layer_place(layers, publisher) {
            Some(i) => 0 <= i < layers.len() && layers[i].publisher == publisher,
            None => forall|i: int|
                0 <= i < layers.len() ==> (#[trigger] layers[i]).publisher != publisher,
        },
    decreases layers.len(),
{
    if layers.len() > 0 && layers.last().publisher != publisher {
        let rest = layers.drop_last();
        lemma_place_names(rest, publisher);
        if layer_place(rest, publisher) is None {
            assert forall|i: int| 0 <= i < layers.len() implies (#[trigger] layers[i]).publisher
                != publisher by {
                if i < rest.len() {
                    assert(rest[i] == layers[i]);
                }
            }
        }
    }
}

/// Layers stay distinct when one is added for a publisher who has none, or changed
/// for the same publisher.
pub proof fn lemma_layers_distinct(layers: Seq<Layer>, x: Layer)
    requires
        layers_distinct(layers),
    ensures
        layer_place(layers, x.publisher) is None ==> layers_distinct(layers.push(x)),
        layer_place(layers, x.publisher) matches Some(k) ==> layers_distinct(layers.update(k, x)),
{
    reveal(layers_distinct);
    lemma_place_names(layers, x.publisher);
}

/// Layers stay distinct when one is taken out, and its publisher is then no longer
/// among them.
pub proof fn lemma_layer_removed(layers: Seq<Layer>, publisher: Seq<char>)
    requires
        layers_distinct(layers),
        layer_place(layers, publisher) is Some,
    ensures
        layers_distinct(layers.remove(layer_place(layers, publisher)->0)),
        layer_place(layers.remove(layer_place(layers, publisher)->0), publisher) is None,
{
    reveal(layers_distinct);
    lemma_place_names(layers, publisher);
    let k = layer_place(layers, publisher)->0;
    let rest = layers.remove(k);
    assert forall|i: int| 0 <= i < rest.len() implies #[trigger] rest[i] == (if i < k {
        layers[i]
    } else {
        layers[i + 1]
    }) by {}
    lemma_place_names(rest, publisher);
    if let Some(j) = layer_place(rest, publisher) {
        if j < k {
            assert(layers[j].publisher != layers[k].publisher);
        } else {
            assert(layers[k].publisher != layers[j + 1].publisher);
        }
    }
}

/// The place of a publisher in a list of layer entries.
pub open spec fn layer_of(v: Seq<SubscribeLayerEntry>, publisher: Seq<char>) -> Option<int> {
    layer_place(layers_of(v), publisher)
}

pub fn find_layer(layers: &Vec<SubscribeLayerEntry>, publisher: &str) -> (r: Option<usize>)
    ensures
        match r {
            Some(i) => layer_of(layers@, publisher@) == Some(i as int) && i < layers@.len()
                && layers@[i as int].publisher@ == publisher@,
            None => layer_of(layers@, publisher@) is None,
        },
{
    let mut i: usize = layers.len();
    let ghost all = layers_of(layers@);
    assert(all.take(i as int) =~= all);
    while i > 0
        invariant
            i <= layers@.len(),
            all == layers_of(layers@),
            layer_place(all, publisher@) == layer_place(all.take(i as int), publisher@),
        decreases i,
    {
        let ghost t = all.take(i as int);
        assert(t.drop_last() =~= all.take(i - 1));
        i -= 1;
        assert(t.last() == layers@[i as int]@);
        if text_eq(layers[i].publisher.as_str(), publisher) {
            return Some(i);
        }
    }
    None
}

// ---------------------------------------------------------------------------
// Packets, sessions, tracks
// ---------------------------------------------------------------------------

/// A packet to be encrypted and sent to a subscriber.
#[derive(Debug)]
pub enum EgressPacket {
    Rtp(Vec<u8>),
    Rtcp(Vec<u8>),
}

/// The two connections of a participant.
#[derive(Debug, Clone, Copy, PartialEq, Eq, Hash, Structural)]
pub enum PcType {
    /// From the client to the server.
    Publish,
    /// From the server to the client.
    Subscribe,
}

impl PcType {
    pub fn name(&self) -> (r: &'static str)
        ensures
            r@ == (match self {
                PcType::Publish => "pub"@,
                PcType::Subscribe => "sub"@,
            }),
    {
        match self {
            PcType::Publish => "pub",
            PcType::Subscribe => "sub",
        }
    }
}

#[derive(Debug, Clone, Copy, PartialEq, Eq, Hash, Structural)]
pub enum TrackKind {
    Audio,
    Video,
}

impl TrackKind {
    pub fn name(&self) -> (r: &'static str)
        ensures
            r@ == kind_name(*self),
    {
        match self {
            TrackKind::Audio => "audio",
            TrackKind::Video => "video",
        }
    }
}

pub open spec fn kind_name(k: TrackKind) -> Seq<char> {
    match k {
        TrackKind::Audio => "audio"@,
        TrackKind::Video => "video"@,
    }
}

/// A published track.
#[derive(Debug)]
pub struct Track {
    pub ssrc: u32,
    pub kind: TrackKind,
    pub track_id: String,
    /// The SSRC of its retransmissions; video only.
    pub rtx_ssrc: Option<u32>,
    pub muted: bool,
    /// The simulcast layer, "h" or "l".
    pub rid: Option<String>,
    /// Layers of one source share a group.
    pub simulcast_group: Option<u32>,
}

/// A copy of an optional text.
pub fn copy_text(s: &Option<String>) -> (r: Option<String>)
    ensures
        r == *s,
{
    match s {
        Some(t) => Some(t.clone()),
        None => None,
    }
}

impl Track {
    /// A copy of the track.
    pub fn duplicate(&self) -> (r: Track)
        ensures
            r == *self,
    {
        Track {
            ssrc: self.ssrc,
            kind: self.kind,
            track_id: self.track_id.clone(),
            rtx_ssrc: self.rtx_ssrc,
            muted: self.muted,
            rid: copy_text(&self.rid),
            simulcast_group: self.simulcast_group,
        }
    }
}

/// Whether a track is the simulcast layer `rid`.
pub open spec fn has_rid(t: Track, rid: Seq<char>) -> bool {
    match t.rid {
        Some(r) => r@ == rid,
        None => false,
    }
}

pub fn track_has_rid(t: &Track, rid: &str) -> (r: bool)
    ensures
        r == has_rid(*t, rid@),
{
    match &t.rid {
        Some(s) => text_eq(s.as_str(), rid),
        None => false,
    }
}

/// The first track with an SSRC.
pub open spec fn track_at(tracks: Seq<Track>, ssrc: u32) -> Option<int>
    decreases tracks.len(),
{
    if tracks.len() == 0 {
        None
    } else if tracks[0].ssrc == ssrc {
        Some(0)
    } else {
        match track_at(tracks.drop_first(), ssrc) {
            Some(i) => Some(i + 1),
            None => None,
        }
    }
}

/// The first track of a kind.
pub open spec fn kind_at(tracks: Seq<Track>, kind: TrackKind) -> Option<int>
    decreases tracks.len(),
{
    if tracks.len() == 0 {
        None
    } else if tracks[0].kind == kind {
        Some(0)
    } else {
        match kind_at(tracks.drop_first(), kind) {
            Some(i) => Some(i + 1),
            None => None,
        }
    }
}

/// The first video track of a simulcast layer.
pub open spec fn layer_at(tracks: Seq<Track>, rid: Seq<char>) -> Option<int>
    decreases tracks.len(),
{
    if tracks.len() == 0 {
        None
    } else if tracks[0].kind == TrackKind::Video && has_rid(tracks[0], rid) {
        Some(0)
    } else {
        match layer_at(tracks.drop_first(), rid) {
            Some(i) => Some(i + 1),
            None => None,
        }
    }
}

pub proof fn lemma_track_at(tracks: Seq<Track>, ssrc: u32)
    ensures
        match track_at(tracks, ssrc) {
            Some(i) => 0 <= i < tracks.len() && tracks[i].ssrc == ssrc && forall|k: int|
                0 <= k < i ==> (#[trigger] tracks[k]).ssrc != ssrc,
            None => forall|k: int| 0 <= k < tracks.len() ==> (#[trigger] tracks[k]).ssrc != ssrc,
        },
    decreases tracks.len(),
{
    if tracks.len() > 0 && tracks[0].ssrc != ssrc {
        let t = tracks.drop_first();
        lemma_track_at(t, ssrc);
        assert forall|k: int| 0 < k < tracks.len() implies #[trigger] tracks[k] == t[k - 1] by {}
    }
}

pub fn find_track(tracks: &Vec<Track>, ssrc: u32) -> (r: Option<usize>)
    ensures
        match r {
            Some(i) => track_at(tracks@, ssrc) == Some(i as int) && i < tracks@.len()
                && tracks@[i as int].ssrc == ssrc,
            None => track_at(tracks@, ssrc) is None,
        },
{
    let n: usize = tracks.len();
    let mut i: usize = 0;
    assert(tracks@.skip(0) =~= tracks@);
    while i < n
        invariant
            i <= n == tracks@.len(),
            track_at(tracks@, ssrc) == (match track_at(tracks@.skip(i as int), ssrc) {
                Some(k) => Some(k + i),
                None => None,
            }),
        decreases n - i,
    {
        assert(tracks@.skip(i as int).drop_first() =~= tracks@.skip(i + 1));
        assert(tracks@.skip(i as int)[0] == tracks@[i as int]);
        if tracks[i].ssrc == ssrc {
            return Some(i);
        }
        i += 1;
    }
    None
}

pub fn find_kind(tracks: &Vec<Track>, kind: TrackKind) -> (r: Option<usize>)
    ensures
        match r {
            Some(i) => kind_at(tracks@, kind) == Some(i as int) && i < tracks@.len()
                && tracks@[i as int].kind == kind,
            None => kind_at(tracks@, kind) is None,
        },
{
    let n: usize = tracks.len();
    let mut i: usize = 0;
    assert(tracks@.skip(0) =~= tracks@);
    while i < n
        invariant
            i <= n == tracks@.len(),
            kind_at(tracks@, kind) == (match kind_at(tracks@.skip(i as int), kind) {
                Some(k) => Some(k + i),
                None => None,
            }),
        decreases n - i,
    {
        assert(tracks@.skip(i as int).drop_first() =~= tracks@.skip(i + 1));
        assert(tracks@.skip(i as int)[0] == tracks@[i as int]);
        if tracks[i].kind == kind {
            return Some(i);
        }
        i += 1;
    }
    None
}

pub fn find_layer_track(tracks: &Vec<Track>, rid: &str) -> (r: Option<usize>)
    ensures
        match r {
            Some(i) => layer_at(tracks@, rid@) == Some(i as int) && i < tracks@.len(),
            None => layer_at(tracks@, rid@) is None,
        },
{
    let n: usize = tracks.len();
    let mut i: usize = 0;
    assert(tracks@.skip(0) =~= tracks@);
    while i < n
        invariant
            i <= n == tracks@.len(),
            layer_at(tracks@, rid@) == (match layer_at(tracks@.skip(i as int), rid@) {
                Some(k) => Some(k + i),
                None => None,
            }),
        decreases n - i,
    {
        assert(tracks@.skip(i as int).drop_first() =~= tracks@.skip(i + 1));
        assert(tracks@.skip(i as int)[0] == tracks@[i as int]);
        if tracks[i].kind == TrackKind::Video && track_has_rid(&tracks[i], rid) {
            return Some(i);
        }
        i += 1;
    }
    None
}

/// The SSRC of the first track of a kind.
pub open spec fn kind_ssrc(tracks: Seq<Track>, kind: TrackKind) -> Option<u32> {
    match kind_at(tracks, kind) {
        Some(i) => Some(tracks[i].ssrc),
        None => None,
    }
}

pub fn ssrc_of_kind(tracks: &Vec<Track>, kind: TrackKind) -> (r: Option<u32>)
    ensures
        r == kind_ssrc(tracks@, kind),
{
    match find_kind(tracks, kind) {
        Some(i) => Some(tracks[i].ssrc),
        None => None,
    }
}

/// The SSRC of a simulcast layer.
pub open spec fn layer_ssrc(tracks: Seq<Track>, rid: Seq<char>) -> Option<u32> {
    match layer_at(tracks, rid) {
        Some(i) => Some(tracks[i].ssrc),
        None => None,
    }
}

pub fn ssrc_of_layer(tracks: &Vec<Track>, rid: &str) -> (r: Option<u32>)
    ensures
        r == layer_ssrc(tracks@, rid@),
{
    match find_layer_track(tracks, rid) {
        Some(i) => Some(tracks[i].ssrc),
        None => None,
    }
}

/// One connection of a participant: its credentials, where it was last seen, and
/// its keys.
pub struct MediaSession {
    pub ufrag: String,
    pub ice_pwd: String,
    pub address: Option<SocketAddress>,
    pub inbound_srtp: SrtpContext,
    pub outbound_srtp: SrtpContext,
}

impl MediaSession {
    pub fn new(ufrag: String, ice_pwd: String) -> (r: Self)
        ensures
            r.ufrag == ufrag,
            r.ice_pwd == ice_pwd,
            r.address is None,
            r.inbound_srtp@ is None,
            r.outbound_srtp@ is None,
    {
        MediaSession {
            ufrag,
            ice_pwd,
            address: None,
            inbound_srtp: SrtpContext::new(),
            outbound_srtp: SrtpContext::new(),
        }
    }

    /// The peer was seen at `addr`.
    pub fn latch_address(&mut self, addr: SocketAddress)
        ensures
            *final(self) == (MediaSession { address: Some(addr), ..*old(self) }),
    {
        self.address = Some(addr);
    }

    pub fn get_address(&self) -> (r: Option<SocketAddress>)
        ensures
            r == self.address,
    {
        self.address
    }

    /// Whether the handshake is done.
    pub open spec fn ready(&self) -> bool {
        self.inbound_srtp@ is Some
    }

    pub fn is_media_ready(&self) -> (r: bool)
        ensures
            r == self.ready(),
    {
        self.inbound_srtp.is_ready()
    }

    /// Installs the keys of both directions: the client's for what comes in, the
    /// server's for what goes out.
    pub fn install_srtp_keys(
        &mut self,
        client_key: &[u8],
        client_salt: &[u8],
        server_key: &[u8],
        server_salt: &[u8],
    )
        ensures
            final(self).ufrag == old(self).ufrag,
            final(self).ice_pwd == old(self).ice_pwd,
            final(self).address == old(self).address,
            final(self).inbound_srtp@ == (if client_key@.len() == 16 && client_salt@.len() == 14 {
                Some(
                    SrtpState {
                        secret: client_key@ + client_salt@,
                        rtp: Map::empty(),
                        rtcp: Map::empty(),
                    },
                )
            } else {
                old(self).inbound_srtp@
            }),
            final(self).outbound_srtp@ == (if server_key@.len() == 16 && server_salt@.len() == 14 {
                Some(
                    SrtpState {
                        secret: server_key@ + server_salt@,
                        rtp: Map::empty(),
                        rtcp: Map::empty(),
                    },
                )
            } else {
                old(self).outbound_srtp@
            }),
    {
        self.inbound_srtp.install_key(client_key, client_salt);
        self.outbound_srtp.install_key(server_key, server_salt);
    }
}

// ---------------------------------------------------------------------------
// RtpCache
// ---------------------------------------------------------------------------

/// The latest video packets of a publisher, for retransmission. A packet stands
/// at its sequence number modulo the size, and later ones overwrite it.
#[derive(Debug)]
pub struct RtpCache {
    slots: Vec<Option<Vec<u8>>>,
}

impl View for RtpCache {
    type V = Seq<Option<Seq<u8>>>;

    closed spec fn view(&self) -> Seq<Option<Seq<u8>>> {
        self.slots@.map_values(
            |p: Option<Vec<u8>>|
                match p {
                    Some(v) => Some(v@),
                    None => None,
                },
        )
    }
}

/// A cache that holds nothing.
pub open spec fn empty_cache() -> Seq<Option<Seq<u8>>> {
    Seq::new(config::RTP_CACHE_SIZE as nat, |i: int| None)
}

/// Where the packet with a sequence number stands.
pub open spec fn cache_slot(seq: u16) -> int {
    seq as int % config::RTP_CACHE_SIZE as int
}

/// The packet with a sequence number, if the cache still holds it.
pub open spec fn cached(c: Seq<Option<Seq<u8>>>, seq: u16) -> Option<Seq<u8>> {
    match c[cache_slot(seq)] {
        Some(p) => if p.len() >= 12 && be16(p, 2) == seq {
            Some(p)
        } else {
            None
        },
        None => None,
    }
}

impl RtpCache {
    pub open spec fn wf(&self) -> bool {
        self@.len() == config::RTP_CACHE_SIZE
    }

    pub fn new() -> (r: Self)
        ensures
            r.wf(),
            r@ == empty_cache(),
    {
        let mut slots: Vec<Option<Vec<u8>>> = Vec::new();
        let mut i: usize = 0;
        while i < config::RTP_CACHE_SIZE
            invariant
                i <= config::RTP_CACHE_SIZE,
                slots@.len() == i,
                forall|k: int| 0 <= k < i ==> slots@[k] is None,
            decreases config::RTP_CACHE_SIZE - i,
        {
            slots.push(None);
            i += 1;
        }
        let r = RtpCache { slots };
        assert(r@ =~= empty_cache());
        r
    }

    pub fn store(&mut self, seq: u16, plaintext: &[u8])
        requires
            old(self).wf(),
        ensures
            final(self).wf(),
            final(self)@ == old(self)@.update(cache_slot(seq), Some(plaintext@)),
    {
        let idx: usize = seq as usize % config::RTP_CACHE_SIZE;
        self.slots[idx] = Some(slice_to_vec(plaintext));
        assert(self@ =~= old(self)@.update(cache_slot(seq), Some(plaintext@)));
    }

    /// The sequence number of the packet that stands where `seq` belongs.
    pub fn slot_seq(&self, seq: u16) -> (r: Option<u16>)
        requires
            self.wf(),
        ensures
            r == (match self@[cache_slot(seq)] {
                Some(p) => if p.len() >= 12 { Some(be16(p, 2)) } else { None },
                None => None,
            }),
    {
        let idx: usize = seq as usize % config::RTP_CACHE_SIZE;
        match &self.slots[idx] {
            Some(pkt) => {
                if pkt.len() >= config::RTP_HEADER_MIN_SIZE {
                    Some(read_u16(pkt, 2))
                } else {
                    None
                }
            },
            None => None,
        }
    }

    pub fn get(&self, seq: u16) -> (r: Option<&[u8]>)
        requires
            self.wf(),
        ensures
            match r {
                Some(p) => cached(self@, seq) == Some(p@),
                None => cached(self@, seq) is None,
            },
    {
        let idx: usize = seq as usize % config::RTP_CACHE_SIZE;
        match &self.slots[idx] {
            Some(pkt) => {
                if pkt.len() >= config::RTP_HEADER_MIN_SIZE && read_u16(pkt, 2) == seq {
                    Some(pkt.as_slice())
                } else {
                    None
                }
            },
            None => None,
        }
    }
}

impl Default for RtpCache {
    fn default() -> (r: Self)
        ensures
            r.wf(),
            r@ == empty_cache(),
    {
        RtpCache::new()
    }
}

/// A packet that was stored under its own sequence number can be had under it,
/// until one that belongs to the same place is stored; other places are not
/// touched.
pub proof fn law_cache_gives_back(c: Seq<Option<Seq<u8>>>, seq: u16, p: Seq<u8>, other: u16)
    requires
        c.len() == config::RTP_CACHE_SIZE,
        p.len() >= 12,
        be16(p, 2) == seq,
    ensures
        cached(c.update(cache_slot(seq), Some(p)), seq) == Some(p),
        cache_slot(other) != cache_slot(seq) ==> cached(c.update(cache_slot(seq), Some(p)), other)
            == cached(c, other),
        other != seq && cache_slot(other) == cache_slot(seq) ==> cached(
            c.update(cache_slot(seq), Some(p)),
            other,
        ) is None,
{
}

/// The cache never hands out a packet under a number that is not its own.
pub proof fn law_cache_is_honest(c: Seq<Option<Seq<u8>>>, seq: u16)
    ensures
        cached(c, seq) matches Some(p) ==> p.len() >= 12 && be16(p, 2) == seq,
{
}

// ---------------------------------------------------------------------------
// Participant
// ---------------------------------------------------------------------------

pub struct Participant {
    pub user_id: String,
    pub room_id: String,
    pub joined_at: u64,
    pub last_seen: u64,
    pub publish: MediaSession,
    pub subscribe: MediaSession,
    pub tracks: Vec<Track>,
    pub rtp_cache: RtpCache,
    /// How many retransmission SSRCs have been given out.
    pub rtx_ssrc_counter: u32,
    /// The next sequence number of a retransmission.
    pub rtx_seq: u16,
    /// What was received, one entry for each SSRC.
    pub recv_stats: Vec<RecvStats>,
    /// What was sent, one entry for each SSRC.
    pub send_stats: Vec<SendStats>,
    /// Retransmissions to this participant in the current window.
    pub rtx_budget_used: u64,
    /// The extension under which the client numbers its packets; 0 for none.
    pub twcc_extmap_id: u8,
    /// The SSRC under which subscribers see the video; 0 until there is one.
    pub simulcast_video_ssrc: u32,
    /// The layers that this participant receives, one entry for each publisher.
    pub subscribe_layers: Vec<SubscribeLayerEntry>,
    pub pipeline: PipelineStats,
}

/// What was received.
pub open spec fn receptions(v: Seq<RecvStats>) -> Seq<Reception> {
    v.map_values(|x: RecvStats| x@)
}

/// The place of an SSRC in what was received.
pub open spec fn recv_place(stats: Seq<Reception>, ssrc: u32) -> Option<int>
    decreases stats.len(),
{
    if stats.len() == 0 {
        None
    } else if stats[0].ssrc == ssrc {
        Some(0)
    } else {
        match recv_place(stats.drop_first(), ssrc) {
            Some(i) => Some(i + 1),
            None => None,
        }
    }
}

/// The place of an SSRC in what was sent.
pub open spec fn send_at(stats: Seq<SendStats>, ssrc: u32) -> Option<int>
    decreases stats.len(),
{
    if stats.len() == 0 {
        None
    } else if stats[0].ssrc == ssrc {
        Some(0)
    } else {
        match send_at(stats.drop_first(), ssrc) {
            Some(i) => Some(i + 1),
            None => None,
        }
    }
}

pub fn find_recv(stats: &Vec<RecvStats>, ssrc: u32) -> (r: Option<usize>)
    ensures
        match r {
            Some(i) => recv_place(receptions(stats@), ssrc) == Some(i as int) && i < stats@.len()
                && stats@[i as int]@.ssrc == ssrc,
            None => recv_place(receptions(stats@), ssrc) is None,
        },
{
    let n: usize = stats.len();
    let ghost all = receptions(stats@);
    let mut i: usize = 0;
    assert(all.skip(0) =~= all);
    while i < n
        invariant
            i <= n == stats@.len(),
            all == receptions(stats@),
            recv_place(all, ssrc) == (match recv_place(all.skip(i as int), ssrc) {
                Some(k) => Some(k + i),
                None => None,
            }),
        decreases n - i,
    {
        assert(all.skip(i as int).drop_first() =~= all.skip(i + 1));
        assert(all.skip(i as int)[0] == stats@[i as int]@);
        if stats[i].ssrc() == ssrc {
            return Some(i);
        }
        i += 1;
    }
    None
}

pub fn find_send(stats: &Vec<SendStats>, ssrc: u32) -> (r: Option<usize>)
    ensures
        match r {
            Some(i) => send_at(stats@, ssrc) == Some(i as int) && i < stats@.len()
                && stats@[i as int].ssrc == ssrc,
            None => send_at(stats@, ssrc) is None,
        },
{
    let n: usize = stats.len();
    let mut i: usize = 0;
    assert(stats@.skip(0) =~= stats@);
    while i < n
        invariant
            i <= n == stats@.len(),
            send_at(stats@, ssrc) == (match send_at(stats@.skip(i as int), ssrc) {
                Some(k) => Some(k + i),
                None => None,
            }),
        decreases n - i,
    {
        assert(stats@.skip(i as int).drop_first() =~= stats@.skip(i + 1));
        assert(stats@.skip(i as int)[0] == stats@[i as int]);
        if stats[i].ssrc == ssrc {
            return Some(i);
        }
        i += 1;
    }
    None
}

/// The track that a publisher announces.
pub open spec fn new_track(
    p: Participant,
    ssrc: u32,
    kind: TrackKind,
    track_id: String,
    rid: Option<String>,
    simulcast_group: Option<u32>,
) -> Track {
    Track {
        ssrc,
        kind,
        track_id,
        rtx_ssrc: if kind == TrackKind::Video {
            Some(ssrc.wrapping_add(1000).wrapping_add(p.rtx_ssrc_counter))
        } else {
            None
        },
        muted: false,
        rid,
        simulcast_group,
    }
}

/// Whether the counters of a participant are sound.
pub open spec fn stats_valid(stats: Seq<RecvStats>) -> bool {
    forall|i: int|
        0 <= i < stats.len() ==> reception_valid((#[trigger] stats[i])@) && stats[i]@.clock_rate
            <= config::CLOCK_RATE_VIDEO
}

/// Whether somebody has just come: nothing was seen, published, sent or received.
pub open spec fn is_newcomer(
    p: Participant,
    user_id: Seq<char>,
    room_id: Seq<char>,
    pub_ufrag: Seq<char>,
    pub_pwd: Seq<char>,
    sub_ufrag: Seq<char>,
    sub_pwd: Seq<char>,
    joined_at: u64,
) -> bool {
    &&& p.user_id@ == user_id && p.room_id@ == room_id
    &&& p.joined_at == joined_at && p.last_seen == joined_at
    &&& p.publish.ufrag@ == pub_ufrag && p.publish.ice_pwd@ == pub_pwd
    &&& p.subscribe.ufrag@ == sub_ufrag && p.subscribe.ice_pwd@ == sub_pwd
    &&& p.publish.address is None && p.subscribe.address is None
    &&& !p.publish.ready() && !p.subscribe.ready()
    &&& p.tracks@.len() == 0 && p.subscribe_layers@.len() == 0
    &&& p.recv_stats@.len() == 0 && p.send_stats@.len() == 0
    &&& p.rtp_cache@ == empty_cache()
    &&& p.rtx_ssrc_counter == 0 && p.rtx_seq == 0 && p.rtx_budget_used == 0
    &&& p.twcc_extmap_id == 0 && p.simulcast_video_ssrc == 0
    &&& p.pipeline == no_pipeline()
}

impl Participant {
    /// What holds of a participant at all times: the cache has its size, the
    /// counters are sound, no SSRC is published twice.
    pub open spec fn wf(&self) -> bool {
        &&& self.rtp_cache.wf()
        &&& stats_valid(self.recv_stats@)
        &&& forall|i: int, j: int|
            0 <= i < j < self.tracks@.len() ==> (#[trigger] self.tracks@[i]).ssrc != (
            #[trigger] self.tracks@[j]).ssrc
        &&& layers_distinct(layers_of(self.subscribe_layers@))
    }

    pub fn new(
        user_id: String,
        room_id: String,
        pub_ufrag: String,
        pub_pwd: String,
        sub_ufrag: String,
        sub_pwd: String,
        joined_at: u64,
    ) -> (r: Self)
        ensures
            r.wf(),
            is_newcomer(r, user_id@, room_id@, pub_ufrag@, pub_pwd@, sub_ufrag@, sub_pwd@, joined_at),
    {
        proof {
            reveal(layers_distinct);
        }
        Participant {
            user_id,
            room_id,
            joined_at,
            last_seen: joined_at,
            publish: MediaSession::new(pub_ufrag, pub_pwd),
            subscribe: MediaSession::new(sub_ufrag, sub_pwd),
            tracks: Vec::new(),
            rtp_cache: RtpCache::new(),
            rtx_ssrc_counter: 0,
            rtx_seq: 0,
            recv_stats: Vec::new(),
            send_stats: Vec::new(),
            rtx_budget_used: 0,
            twcc_extmap_id: 0,
            simulcast_video_ssrc: 0,
            subscribe_layers: Vec::new(),
            pipeline: PipelineStats::new(),
        }
    }

    /// A sign of life.
    pub fn touch(&mut self, ts: u64)
        ensures
            *final(self) == (Participant { last_seen: ts, ..*old(self) }),
    {
        self.last_seen = ts;
    }

    /// The session of a connection.
    pub open spec fn side(&self, pc: PcType) -> MediaSession {
        match pc {
            PcType::Publish => self.publish,
            PcType::Subscribe => self.subscribe,
        }
    }

    pub fn session(&self, pc: PcType) -> (r: &MediaSession)
        ensures
            *r == self.side(pc),
    {
        match pc {
            PcType::Publish => &self.publish,
            PcType::Subscribe => &self.subscribe,
        }
    }

    /// Announces a track. An SSRC that is already published changes nothing.
    pub fn add_track(&mut self, ssrc: u32, kind: TrackKind, track_id: String)
        requires
            old(self).wf(),
        ensures
            final(self).wf(),
            after_add_track(*old(self), *final(self), ssrc, kind, track_id, None, None),
    {
        self.add_track_ext(ssrc, kind, track_id, None, None);
    }

    /// Announces a track that may be a simulcast layer. An SSRC that is already
    /// published changes nothing.
    pub fn add_track_ext(
        &mut self,
        ssrc: u32,
        kind: TrackKind,
        track_id: String,
        rid: Option<String>,
        simulcast_group: Option<u32>,
    )
        requires
            old(self).wf(),
        ensures
            final(self).wf(),
            after_add_track(
                *old(self),
                *final(self),
                ssrc,
                kind,
                track_id,
                rid,
                simulcast_group,
            ),
    {
        if find_track(&self.tracks, ssrc).is_some() {
            return;
        }
        proof {
            lemma_track_at(self.tracks@, ssrc);
        }
        let rtx_ssrc: Option<u32> = if kind == TrackKind::Video {
            Some(self.alloc_rtx_ssrc(ssrc))
        } else {
            None
        };
        self.tracks.push(
            Track { ssrc, kind, track_id, rtx_ssrc, muted: false, rid, simulcast_group },
        );
    }

    /// A fresh SSRC for retransmissions.
    fn alloc_rtx_ssrc(&mut self, media_ssrc: u32) -> (r: u32)
        ensures
            r == media_ssrc.wrapping_add(1000).wrapping_add(old(self).rtx_ssrc_counter),
            *final(self) == (Participant {
                rtx_ssrc_counter: old(self).rtx_ssrc_counter.wrapping_add(1),
                ..*old(self)
            }),
    {
        let offset: u32 = self.rtx_ssrc_counter;
        self.rtx_ssrc_counter = offset.wrapping_add(1);
        media_ssrc.wrapping_add(1000).wrapping_add(offset)
    }

    /// The sequence number of the next retransmission.
    pub fn next_rtx_seq(&mut self) -> (r: u16)
        ensures
            r == old(self).rtx_seq,
            *final(self) == (Participant {
                rtx_seq: old(self).rtx_seq.wrapping_add(1),
                ..*old(self)
            }),
    {
        let seq: u16 = self.rtx_seq;
        self.rtx_seq = seq.wrapping_add(1);
        seq
    }

    /// Withdraws a track.
    pub fn remove_track(&mut self, ssrc: u32) -> (r: Option<Track>)
        requires
            old(self).wf(),
        ensures
            final(self).wf(),
            *final(self) == (Participant { tracks: final(self).tracks, ..*old(self) }),
            match track_at(old(self).tracks@, ssrc) {
                Some(i) => r == Some(old(self).tracks@[i]) && final(self).tracks@ == old(
                    self,
                ).tracks@.remove(i),
                None => r is None && final(self).tracks@ == old(self).tracks@,
            },
    {
        match find_track(&self.tracks, ssrc) {
            Some(i) => Some(self.tracks.remove(i)),
            None => None,
        }
    }

    /// Mutes or unmutes a track; tells of which kind it is.
    pub fn set_track_muted(&mut self, ssrc: u32, muted: bool) -> (r: Option<TrackKind>)
        requires
            old(self).wf(),
        ensures
            final(self).wf(),
            *final(self) == (Participant { tracks: final(self).tracks, ..*old(self) }),
            match track_at(old(self).tracks@, ssrc) {
                Some(i) => r == Some(old(self).tracks@[i].kind) && final(self).tracks@ == old(
                    self,
                ).tracks@.update(i, Track { muted, ..old(self).tracks@[i] }),
                None => r is None && final(self).tracks@ == old(self).tracks@,
            },
    {
        match find_track(&self.tracks, ssrc) {
            Some(i) => {
                self.tracks[i].muted = muted;
                Some(self.tracks[i].kind)
            },
            None => None,
        }
    }

    /// The published tracks.
    pub fn get_tracks(&self) -> (r: Vec<Track>)
        ensures
            r@ == self.tracks@,
    {
        let mut out: Vec<Track> = Vec::new();
        let mut i: usize = 0;
        while i < self.tracks.len()
            invariant
                i <= self.tracks@.len(),
                out@ == self.tracks@.take(i as int),
            decreases self.tracks@.len() - i,
        {
            out.push(self.tracks[i].duplicate());
            i += 1;
            assert(out@ =~= self.tracks@.take(i as int));
        }
        assert(out@ =~= self.tracks@);
        out
    }

    pub fn is_publish_ready(&self) -> (r: bool)
        ensures
            r == self.publish.ready(),
    {
        self.publish.is_media_ready()
    }

    pub fn is_subscribe_ready(&self) -> (r: bool)
        ensures
            r == self.subscribe.ready(),
    {
        self.subscribe.is_media_ready()
    }

    /// The SSRC under which subscribers see the video: the one that it has, or
    /// from now on `fresh`.
    pub fn simulcast_video_ssrc_or(&mut self, fresh: u32) -> (r: u32)
        requires
            fresh != 0,
        ensures
            r == (if old(self).simulcast_video_ssrc != 0 {
                old(self).simulcast_video_ssrc
            } else {
                fresh
            }),
            *final(self) == (Participant { simulcast_video_ssrc: r, ..*old(self) }),
            r != 0,
    {
        if self.simulcast_video_ssrc == 0 {
            self.simulcast_video_ssrc = fresh;
        }
        self.simulcast_video_ssrc
    }

    /// The SSRC under which subscribers see the video, random when first asked
    /// for and fixed from then on; nothing where the system has no random numbers
    /// to give.
    pub fn ensure_simulcast_video_ssrc(&mut self) -> (r: Option<u32>)
        ensures
            match r {
                Some(v) => {
                    &&& v != 0
                    &&& old(self).simulcast_video_ssrc != 0 ==> v == old(self).simulcast_video_ssrc
                    &&& *final(self) == (Participant { simulcast_video_ssrc: v, ..*old(self) })
                },
                None => old(self).simulcast_video_ssrc == 0 && *final(self) == *old(self),
            },
    {
        if self.simulcast_video_ssrc != 0 {
            return Some(self.simulcast_video_ssrc);
        }
        match random_nonzero_u32() {
            Some(fresh) => Some(self.simulcast_video_ssrc_or(fresh)),
            None => None,
        }
    }
}

/// What announcing a track does.
pub open spec fn after_add_track(
    p: Participant,
    q: Participant,
    ssrc: u32,
    kind: TrackKind,
    track_id: String,
    rid: Option<String>,
    simulcast_group: Option<u32>,
) -> bool {
    if track_at(p.tracks@, ssrc) is Some {
        q == p
    } else {
        &&& q.tracks@ == p.tracks@.push(new_track(p, ssrc, kind, track_id, rid, simulcast_group))
        &&& q == (Participant {
            tracks: q.tracks,
            rtx_ssrc_counter: if kind == TrackKind::Video {
                p.rtx_ssrc_counter.wrapping_add(1)
            } else {
                p.rtx_ssrc_counter
            },
            ..p
        })
    }
}

/// A random number other than 0, or nothing where the system has no random
/// numbers to give, or none but 0 sixty-four times in a row.
pub fn random_nonzero_u32() -> (r: Option<u32>)
    ensures
        r matches Some(v) ==> v != 0,
{
    let mut tries: u32 = 0;
    while tries < 64
        decreases 64 - tries,
    {
        match random_u32() {
            Some(v) => {
                if v != 0 {
                    return Some(v);
                }
            },
            None => {
                return None;
            },
        }
        tries += 1;
    }
    None
}

} // verus!
