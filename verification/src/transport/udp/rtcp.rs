//! RTP and RTCP packets: headers, NACK, compound packets, RTX, PLI, REMB and
//! the floor control messages that travel in RTCP APP packets.

use vstd::arithmetic::div_mod::lemma_div_denominator;
use vstd::arithmetic::power2::{lemma2_to64, lemma2_to64_rest, lemma_pow2_pos, lemma_pow2_unfold, pow2};
use vstd::prelude::*;
use vstd::slice::{slice_subrange, slice_to_vec};
use vstd::utf8::{decode_utf8, encode_utf8, encode_utf8_decode_utf8, encode_utf8_valid_utf8, valid_utf8};

use crate::config;
use crate::text::string_from_utf8;
use crate::wire::{
    be16, be16_bytes, be32, be32_bytes, bytes_eq, lemma_be16_roundtrip, lemma_be32_roundtrip,
    push_all, push_u16, push_u32, read_u16, read_u32,
};

verus! {

// ---------------------------------------------------------------------------
// RTP header
// ---------------------------------------------------------------------------

#[derive(Debug, Clone, Copy, PartialEq, Eq, Structural)]
pub struct RtpHeader {
    pub pt: u8,
    pub marker: bool,
    pub seq: u16,
    pub timestamp: u32,
    pub ssrc: u32,
    pub header_len: usize,
}

/// The fixed header of an RTP packet; all zero where the packet is too short
/// to have one.
pub open spec fn rtp_header(buf: Seq<u8>) -> RtpHeader {
    if buf.len() < config::RTP_HEADER_MIN_SIZE {
        RtpHeader { pt: 0, marker: false, seq: 0, timestamp: 0, ssrc: 0, header_len: 0 }
    } else {
        RtpHeader {
            pt: buf[1] % 0x80,
            marker: buf[1] >= 0x80,
            seq: be16(buf, 2),
            timestamp: be32(buf, 4),
            ssrc: be32(buf, 8),
            header_len: (12 + (buf[0] % 16) * 4) as usize,
        }
    }
}

pub fn parse_rtp_header(buf: &[u8]) -> (r: RtpHeader)
    ensures
        r == rtp_header(buf@),
{
    if buf.len() < config::RTP_HEADER_MIN_SIZE {
        return RtpHeader { pt: 0, marker: false, seq: 0, timestamp: 0, ssrc: 0, header_len: 0 };
    }
    let b1: u8 = buf[1];
    let cc: usize = (buf[0] % 16) as usize;
    RtpHeader {
        pt: b1 % 0x80,
        marker: b1 >= 0x80,
        seq: read_u16(buf, 2),
        timestamp: read_u32(buf, 4),
        ssrc: read_u32(buf, 8),
        header_len: 12 + cc * 4,
    }
}

// ---------------------------------------------------------------------------
// Generic NACK (RFC 4585)
// ---------------------------------------------------------------------------

/// One entry of a NACK: `pid` is lost, and so is `pid + i + 1` for each bit `i`
/// of `blp`.
#[derive(Debug, Clone, Copy, PartialEq, Eq, Structural)]
pub struct NackItem {
    pub media_ssrc: u32,
    pub pid: u16,
    pub blp: u16,
}

/// The length in bytes that the RTCP block at `off` gives itself.
pub open spec fn block_len(buf: Seq<u8>, off: int) -> int {
    (be16(buf, off + 2) + 1) * 4
}

/// Whether the RTCP block at `off` is a generic NACK.
pub open spec fn is_nack_block(buf: Seq<u8>, off: int) -> bool {
    buf[off + 1] == config::RTCP_PT_NACK && buf[off] % 32 == config::RTCP_FMT_NACK
}

/// How many entries the NACK at `off` holds, cut at the end of the packet.
pub open spec fn nack_entries(buf: Seq<u8>, off: int) -> int {
    let end = if off + block_len(buf, off) <= buf.len() {
        off + block_len(buf, off)
    } else {
        buf.len() as int
    };
    if off + 12 <= end {
        (end - (off + 12)) / 4
    } else {
        0
    }
}

/// The entry at position `k` of the NACK at `off`.
pub open spec fn nack_entry(buf: Seq<u8>, off: int, k: int) -> NackItem {
    NackItem {
        media_ssrc: be32(buf, off + 8),
        pid: be16(buf, off + 12 + 4 * k),
        blp: be16(buf, off + 14 + 4 * k),
    }
}

/// The entries of all generic NACKs in a compound packet from `off` on.
pub open spec fn nack_items(buf: Seq<u8>, off: int) -> Seq<NackItem>
    decreases (if off <= buf.len() { buf.len() - off } else { 0 }),
{
    if off + 4 > buf.len() {
        Seq::empty()
    } else {
        let here = if is_nack_block(buf, off) && off + 12 <= buf.len() {
            Seq::new(nack_entries(buf, off) as nat, |k: int| nack_entry(buf, off, k))
        } else {
            Seq::empty()
        };
        here + nack_items(buf, off + block_len(buf, off))
    }
}

/// The entries of all generic NACKs in a compound packet.
pub fn parse_rtcp_nack(buf: &[u8]) -> (items: Vec<NackItem>)
    ensures
        items@ == nack_items(buf@, 0),
{
    let mut items: Vec<NackItem> = Vec::new();
    let mut offset: usize = 0;
    let n: usize = buf.len();
    while n - offset >= 4
        invariant_except_break
            offset <= n == buf@.len(),
            nack_items(buf@, 0) =~= items@ + nack_items(buf@, offset as int),
        ensures
            items@ =~= nack_items(buf@, 0),
        decreases n - offset,
    {
        let fmt: u8 = buf[offset] % 32;
        let pt: u8 = buf[offset + 1];
        let pkt_len: usize = (read_u16(buf, offset + 2) as usize + 1) * 4;
        let end: usize = if pkt_len <= n - offset { offset + pkt_len } else { n };
        let ghost before = items@;
        if pt == config::RTCP_PT_NACK && fmt == config::RTCP_FMT_NACK && n - offset >= 12 {
            let media_ssrc: u32 = read_u32(buf, offset + 8);
            let first: usize = offset + 12;
            let count: usize = if first <= end { (end - first) / 4 } else { 0 };
            let mut k: usize = 0;
            while k < count
                invariant
                    n == buf@.len(),
                    offset + 12 == first <= n,
                    end <= n,
                    k <= count,
                    count == nack_entries(buf@, offset as int),
                    count == 0 || first + count * 4 <= end,
                    media_ssrc == be32(buf@, offset + 8),
                    items@ =~= before + Seq::new(k as nat, |j: int| nack_entry(buf@, offset as int, j)),
                decreases count - k,
            {
                let at: usize = first + k * 4;
                let pid: u16 = read_u16(buf, at);
                let blp: u16 = read_u16(buf, at + 2);
                items.push(NackItem { media_ssrc, pid, blp });
                k += 1;
            }
        }
        if pkt_len >= n - offset {
            assert(nack_items(buf@, offset + block_len(buf@, offset as int)) =~= Seq::empty());
            break;
        }
        offset += pkt_len;
    }
    items
}

/// Whether bit `i` of `blp` is set.
pub open spec fn blp_bit(blp: u16, i: int) -> bool {
    blp & (1u16 << (i as u16)) != 0
}

/// The lost sequence numbers that the first `n` bits of a mask stand for, in
/// ascending order of the bits.
pub open spec fn blp_seqs(pid: u16, blp: u16, n: int) -> Seq<u16>
    decreases n,
{
    if n <= 0 {
        Seq::empty()
    } else {
        let rest = blp_seqs(pid, blp, n - 1);
        if blp_bit(blp, n - 1) {
            rest.push(pid.wrapping_add(n as u16))
        } else {
            rest
        }
    }
}

/// The sequence numbers that a NACK entry reports as lost.
pub open spec fn lost_seqs(pid: u16, blp: u16) -> Seq<u16> {
    seq![pid] + blp_seqs(pid, blp, 16)
}

pub fn expand_nack(pid: u16, blp: u16) -> (seqs: Vec<u16>)
    ensures
        seqs@ == lost_seqs(pid, blp),
{
    let mut seqs: Vec<u16> = Vec::new();
    seqs.push(pid);
    let mut i: u16 = 0;
    while i < 16
        invariant
            i <= 16,
            seqs@ =~= seq![pid] + blp_seqs(pid, blp, i as int),
        decreases 16 - i,
    {
        if blp & (1u16 << i) != 0 {
            seqs.push(pid.wrapping_add(i + 1));
        }
        i += 1;
    }
    seqs
}

/// Whether bit `i` of a mask reports `x` as lost.
pub open spec fn reports(pid: u16, blp: u16, i: int, x: u16) -> bool {
    blp_bit(blp, i) && x == pid.wrapping_add((i + 1) as u16)
}

/// Whether one of the first `n` bits of a mask reports `x` as lost.
pub open spec fn reported(pid: u16, blp: u16, n: int, x: u16) -> bool {
    exists|i: int| 0 <= i < n && #[trigger] reports(pid, blp, i, x)
}

/// A NACK entry reports `pid` itself, and `pid + i + 1` exactly for the set bits
/// `i` of its mask; it reports nothing twice.
pub proof fn law_lost_seqs(pid: u16, blp: u16, x: u16)
    ensures
        lost_seqs(pid, blp).contains(x) <==> x == pid || reported(pid, blp, 16, x),
        lost_seqs(pid, blp).no_duplicates(),
{
    lemma_blp_seqs(pid, blp, 16);
    let t = blp_seqs(pid, blp, 16);
    let s = lost_seqs(pid, blp);
    assert(s[0] == pid);
    assert forall|k: int| 0 < k < s.len() implies #[trigger] s[k] == t[k - 1] by {}
    if s.contains(x) && x != pid {
        let k = choose|k: int| 0 <= k < s.len() && s[k] == x;
        assert(t[k - 1] == x);
    }
    if reported(pid, blp, 16, x) {
        let i = choose|i: int| 0 <= i < 16 && #[trigger] reports(pid, blp, i, x);
        let k = choose|k: int| 0 <= k < t.len() && t[k] == pid.wrapping_add((i + 1) as u16);
        assert(s[k + 1] == x);
    }
}

/// How far `x` lies ahead of `pid`, around the end of the number range.
spec fn seq_ahead(pid: u16, x: u16) -> int {
    (x - pid) % 0x1_0000
}

proof fn lemma_blp_seqs(pid: u16, blp: u16, n: int)
    requires
        0 <= n <= 16,
    ensures
        forall|k: int|
            0 <= k < blp_seqs(pid, blp, n).len() ==> reported(
                pid,
                blp,
                n,
                #[trigger] blp_seqs(pid, blp, n)[k],
            ),
        forall|i: int|
            0 <= i < n && #[trigger] blp_bit(blp, i) ==> blp_seqs(pid, blp, n).contains(
                pid.wrapping_add((i + 1) as u16),
            ),
        forall|k: int|
            0 <= k < blp_seqs(pid, blp, n).len() ==> 1 <= seq_ahead(
                pid,
                #[trigger] blp_seqs(pid, blp, n)[k],
            ) <= n,
        blp_seqs(pid, blp, n).no_duplicates(),
    decreases n,
{
    if n > 0 {
        lemma_blp_seqs(pid, blp, n - 1);
        let rest = blp_seqs(pid, blp, n - 1);
        let all = blp_seqs(pid, blp, n);
        let v = pid.wrapping_add(n as u16);
        assert(seq_ahead(pid, v) == n);
        assert forall|k: int| 0 <= k < all.len() implies reported(
            pid,
            blp,
            n,
            #[trigger] all[k],
        ) by {
            if k == rest.len() {
                assert(reports(pid, blp, n - 1, all[k]));
            } else {
                assert(all[k] == rest[k]);
                let i = choose|i: int| 0 <= i < n - 1 && reports(pid, blp, i, rest[k]);
                assert(reports(pid, blp, i, all[k]));
            }
        }
        assert forall|i: int| 0 <= i < n && #[trigger] blp_bit(blp, i) implies all.contains(
            pid.wrapping_add((i + 1) as u16),
        ) by {
            let x = pid.wrapping_add((i + 1) as u16);
            if i == n - 1 {
                assert(all[rest.len() as int] == x);
            } else {
                let k = choose|k: int| 0 <= k < rest.len() && rest[k] == x;
                assert(all[k] == x);
            }
        }
    }
}

// ---------------------------------------------------------------------------
// Compound packets
// ---------------------------------------------------------------------------

/// A block inside a compound packet. `media_ssrc` is the second SSRC of the
/// block, or 0 where the packet ends before it.
#[derive(Debug, Clone, Copy, PartialEq, Eq, Structural)]
pub struct RtcpBlockRef {
    pub offset: usize,
    pub length: usize,
    pub media_ssrc: u32,
}

/// A compound packet taken apart by what the server does with each block.
pub struct CompoundRtcpParsed {
    /// Generic NACKs, answered by the server from its cache.
    pub nack_blocks: Vec<Vec<u8>>,
    /// PLI and REMB, passed on to the publisher.
    pub relay_blocks: Vec<RtcpBlockRef>,
    /// Floor control messages.
    pub mbcp_blocks: Vec<MbcpMessage>,
    /// Sender reports, consumed by the server.
    pub sr_blocks: Vec<RtcpBlockRef>,
    /// Receiver reports, consumed by the server.
    pub rr_blocks: Vec<RtcpBlockRef>,
}

/// What the server does with a block.
#[derive(Debug, Clone, Copy, PartialEq, Eq, Structural)]
pub enum BlockKind {
    Nack,
    App,
    Sr,
    Rr,
    Relay,
    Other,
}

/// The kind of the block at `off`.
pub open spec fn block_kind(buf: Seq<u8>, off: int) -> BlockKind {
    let fmt = buf[off] % 32;
    let pt = buf[off + 1];
    if pt == config::RTCP_PT_NACK && fmt == config::RTCP_FMT_NACK {
        BlockKind::Nack
    } else if pt == config::RTCP_PT_APP {
        BlockKind::App
    } else if pt == config::RTCP_PT_SR {
        BlockKind::Sr
    } else if pt == config::RTCP_PT_RR {
        BlockKind::Rr
    } else if pt == config::RTCP_PT_PSFB && (fmt == config::RTCP_FMT_PLI || fmt
        == config::RTCP_FMT_REMB) {
        BlockKind::Relay
    } else {
        BlockKind::Other
    }
}

/// Whether a whole block stands at `off`.
pub open spec fn whole_block(buf: Seq<u8>, off: int) -> bool {
    off + 4 <= buf.len() && off + block_len(buf, off) <= buf.len()
}

/// The reference to the block at `off`.
pub open spec fn block_ref(buf: Seq<u8>, off: int) -> RtcpBlockRef {
    RtcpBlockRef {
        offset: off as usize,
        length: block_len(buf, off) as usize,
        media_ssrc: if off + 12 <= buf.len() { be32(buf, off + 8) } else { 0 },
    }
}

/// The blocks of one kind from `off` on, up to the first block that is cut off.
pub open spec fn blocks_of(buf: Seq<u8>, off: int, kind: BlockKind) -> Seq<RtcpBlockRef>
    decreases buf.len() - off,
{
    if !whole_block(buf, off) {
        Seq::empty()
    } else {
        let rest = blocks_of(buf, off + block_len(buf, off), kind);
        if block_kind(buf, off) == kind {
            seq![block_ref(buf, off)] + rest
        } else {
            rest
        }
    }
}

/// Whether blocks lie inside a packet.
pub open spec fn blocks_within(buf: Seq<u8>, blocks: Seq<RtcpBlockRef>) -> bool {
    forall|i: int|
        0 <= i < blocks.len() ==> (#[trigger] blocks[i]).length >= 4 && blocks[i].offset
            + blocks[i].length <= buf.len()
}

proof fn lemma_blocks_within(buf: Seq<u8>, off: int, kind: BlockKind)
    requires
        0 <= off <= buf.len() <= usize::MAX,
    ensures
        blocks_within(buf, blocks_of(buf, off, kind)),
    decreases buf.len() - off,
{
    if whole_block(buf, off) {
        lemma_blocks_within(buf, off + block_len(buf, off), kind);
        let rest = blocks_of(buf, off + block_len(buf, off), kind);
        let all = blocks_of(buf, off, kind);
        assert forall|i: int| 0 <= i < all.len() implies (#[trigger] all[i]).length >= 4 && all[i].offset
            + all[i].length <= buf.len() by {
            if block_kind(buf, off) == kind {
                if i > 0 {
                    assert(all[i] == rest[i - 1]);
                } else {
                    assert(all[i] == block_ref(buf, off));
                }
            }
        }
    }
}

/// The bytes of a block.
pub open spec fn block_bytes(buf: Seq<u8>, b: RtcpBlockRef) -> Seq<u8> {
    buf.subrange(b.offset as int, b.offset + b.length)
}

pub fn block_slice<'a>(buf: &'a [u8], b: &RtcpBlockRef) -> (r: &'a [u8])
    requires
        b.offset + b.length <= buf@.len(),
    ensures
        r@ == block_bytes(buf@, *b),
{
    let total: usize = buf.len();
    slice_subrange(buf, b.offset, b.offset + b.length)
}

/// What is passed on to publishers is key frame requests and bandwidth hints:
/// the receiver reports of subscribers end here.
pub proof fn law_relay_is_feedback(buf: Seq<u8>, off: int, i: int)
    requires
        0 <= off,
        buf.len() <= usize::MAX,
        0 <= i < blocks_of(buf, off, BlockKind::Relay).len(),
    ensures
        ({
            let b = blocks_of(buf, off, BlockKind::Relay)[i];
            &&& 0 <= b.offset && b.offset + b.length <= buf.len()
            &&& buf[b.offset + 1] == config::RTCP_PT_PSFB
            &&& buf[b.offset as int] % 32 == config::RTCP_FMT_PLI || buf[b.offset as int] % 32
                == config::RTCP_FMT_REMB
        }),
    decreases buf.len() - off,
{
    if whole_block(buf, off) {
        let next = off + block_len(buf, off);
        let rest = blocks_of(buf, next, BlockKind::Relay);
        let all = blocks_of(buf, off, BlockKind::Relay);
        if block_kind(buf, off) == BlockKind::Relay {
            if i > 0 {
                assert(all[i] == rest[i - 1]);
                law_relay_is_feedback(buf, next, i - 1);
            } else {
                assert(all[0] == block_ref(buf, off));
            }
        } else {
            assert(all =~= rest);
            law_relay_is_feedback(buf, next, i);
        }
    }
}

/// The floor control messages from `off` on, up to the first block that is cut
/// off.
pub open spec fn mbcp_messages(buf: Seq<u8>, off: int) -> Seq<MbcpContent>
    decreases buf.len() - off,
{
    if !whole_block(buf, off) {
        Seq::empty()
    } else {
        let rest = mbcp_messages(buf, off + block_len(buf, off));
        let here = mbcp_content(buf.subrange(off, off + block_len(buf, off)));
        if block_kind(buf, off) == BlockKind::App && here is Some {
            seq![here->0] + rest
        } else {
            rest
        }
    }
}

/// Takes a compound packet apart.
pub fn split_compound_rtcp(buf: &[u8]) -> (r: CompoundRtcpParsed)
    ensures
        r.nack_blocks@.len() == blocks_of(buf@, 0, BlockKind::Nack).len(),
        forall|i: int|
            0 <= i < r.nack_blocks@.len() ==> (#[trigger] r.nack_blocks@[i])@ == block_bytes(
                buf@,
                blocks_of(buf@, 0, BlockKind::Nack)[i],
            ),
        r.relay_blocks@ == blocks_of(buf@, 0, BlockKind::Relay),
        r.mbcp_blocks@.map_values(|m: MbcpMessage| m@) == mbcp_messages(buf@, 0),
        r.sr_blocks@ == blocks_of(buf@, 0, BlockKind::Sr),
        r.rr_blocks@ == blocks_of(buf@, 0, BlockKind::Rr),
        blocks_within(buf@, r.relay_blocks@),
        blocks_within(buf@, r.sr_blocks@),
{
    let mut nack_blocks: Vec<Vec<u8>> = Vec::new();
    let mut relay_blocks: Vec<RtcpBlockRef> = Vec::new();
    let mut mbcp_blocks: Vec<MbcpMessage> = Vec::new();
    let mut sr_blocks: Vec<RtcpBlockRef> = Vec::new();
    let mut rr_blocks: Vec<RtcpBlockRef> = Vec::new();
    let ghost mut nacks: Seq<RtcpBlockRef> = Seq::empty();
    let content = Ghost(|m: MbcpMessage| m@);
    let n: usize = buf.len();
    let mut offset: usize = 0;
    while n - offset >= 4
        invariant
            offset <= n == buf@.len(),
            content@ == (|m: MbcpMessage| m@),
            nacks.len() == nack_blocks@.len(),
            forall|i: int|
                0 <= i < nacks.len() ==> (#[trigger] nack_blocks@[i])@ == block_bytes(buf@, nacks[i]),
            blocks_of(buf@, 0, BlockKind::Nack) =~= nacks + blocks_of(buf@, offset as int, BlockKind::Nack),
            blocks_of(buf@, 0, BlockKind::Relay) =~= relay_blocks@ + blocks_of(buf@, offset as int, BlockKind::Relay),
            blocks_of(buf@, 0, BlockKind::Sr) =~= sr_blocks@ + blocks_of(buf@, offset as int, BlockKind::Sr),
            blocks_of(buf@, 0, BlockKind::Rr) =~= rr_blocks@ + blocks_of(buf@, offset as int, BlockKind::Rr),
            mbcp_messages(buf@, 0) =~= mbcp_blocks@.map_values(content@) + mbcp_messages(buf@, offset as int),
        ensures
            !whole_block(buf@, offset as int),
        decreases n - offset,
    {
        let fmt: u8 = buf[offset] % 32;
        let pt: u8 = buf[offset + 1];
        let pkt_len: usize = (read_u16(buf, offset + 2) as usize + 1) * 4;
        if pkt_len > n - offset {
            break;
        }
        let media_ssrc: u32 = if n - offset >= 12 { read_u32(buf, offset + 8) } else { 0 };
        let block = RtcpBlockRef { offset, length: pkt_len, media_ssrc };
        proof {
            assert(block == block_ref(buf@, offset as int));
        }
        if pt == config::RTCP_PT_NACK && fmt == config::RTCP_FMT_NACK {
            nack_blocks.push(slice_to_vec(slice_subrange(buf, offset, offset + pkt_len)));
            proof {
                nacks = nacks.push(block);
            }
        } else if pt == config::RTCP_PT_APP {
            if let Some(msg) = parse_mbcp_app(slice_subrange(buf, offset, offset + pkt_len)) {
                mbcp_blocks.push(msg);
            }
        } else if pt == config::RTCP_PT_SR {
            sr_blocks.push(block);
        } else if pt == config::RTCP_PT_RR {
            rr_blocks.push(block);
        } else if pt == config::RTCP_PT_PSFB && (fmt == config::RTCP_FMT_PLI || fmt
            == config::RTCP_FMT_REMB) {
            relay_blocks.push(block);
        }
        offset += pkt_len;
    }
    proof {
        lemma_blocks_within(buf@, 0, BlockKind::Relay);
        lemma_blocks_within(buf@, 0, BlockKind::Sr);
    }
    CompoundRtcpParsed { nack_blocks, relay_blocks, mbcp_blocks, sr_blocks, rr_blocks }
}

/// The first `n` of `blocks` one after the other.
pub open spec fn joined(blocks: Seq<&[u8]>, n: int) -> Seq<u8>
    decreases n,
{
    if n <= 0 {
        Seq::empty()
    } else {
        joined(blocks, n - 1) + blocks[n - 1]@
    }
}

/// One compound packet made of `blocks`.
pub fn assemble_compound(blocks: &[&[u8]]) -> (r: Vec<u8>)
    ensures
        r@ == joined(blocks@, blocks@.len() as int),
{
    let mut out: Vec<u8> = Vec::new();
    let mut i: usize = 0;
    while i < blocks.len()
        invariant
            i <= blocks@.len(),
            out@ == joined(blocks@, i as int),
        decreases blocks@.len() - i,
    {
        push_all(&mut out, blocks[i]);
        i += 1;
    }
    out
}

// ---------------------------------------------------------------------------
// Retransmission packets (RFC 4588)
// ---------------------------------------------------------------------------

/// The length of the fixed header and the contributing sources of an RTP packet.
pub open spec fn rtp_fixed_len(p: Seq<u8>) -> int {
    12 + (p[0] % 16) * 4
}

/// Whether `p` is long enough for the header that it announces.
pub open spec fn has_rtp_header(p: Seq<u8>) -> bool {
    12 <= p.len() && rtp_fixed_len(p) <= p.len()
}

/// The retransmission of `p`: its header with marker cleared and payload type,
/// sequence number and SSRC exchanged, then the sequence number that it had,
/// then its payload.
pub open spec fn rtx_packet(p: Seq<u8>, rtx_ssrc: u32, rtx_seq: u16) -> Seq<u8> {
    let h = rtp_fixed_len(p);
    seq![p[0], config::rtx_pt(p[1] % 0x80)] + be16_bytes(rtx_seq) + p.subrange(4, 8) + be32_bytes(
        rtx_ssrc,
    ) + p.subrange(12, h) + p.subrange(2, 4) + p.subrange(h, p.len() as int)
}

/// The retransmission of `original`; empty where `original` is no RTP packet.
pub fn build_rtx_packet(original: &[u8], rtx_ssrc: u32, rtx_seq: u16) -> (r: Vec<u8>)
    ensures
        r@ == (if has_rtp_header(original@) {
            rtx_packet(original@, rtx_ssrc, rtx_seq)
        } else {
            Seq::empty()
        }),
{
    if original.len() < config::RTP_HEADER_MIN_SIZE {
        return Vec::new();
    }
    let cc: usize = (original[0] % 16) as usize;
    let header_len: usize = 12 + cc * 4;
    if original.len() < header_len {
        return Vec::new();
    }
    let mut rtx: Vec<u8> = Vec::new();
    rtx.push(original[0]);
    rtx.push(config::rtx_pt_for(original[1] % 0x80));
    push_u16(&mut rtx, rtx_seq);
    push_all(&mut rtx, slice_subrange(original, 4, 8));
    push_u32(&mut rtx, rtx_ssrc);
    push_all(&mut rtx, slice_subrange(original, 12, header_len));
    push_all(&mut rtx, slice_subrange(original, 2, 4));
    push_all(&mut rtx, slice_subrange(original, header_len, original.len()));
    assert(rtx@ =~= rtx_packet(original@, rtx_ssrc, rtx_seq));
    rtx
}

/// A retransmission keeps all that a receiver needs to restore the packet: the
/// timestamp, the contributing sources, the sequence number it had, directly
/// behind the header, and the payload behind that; it carries the payload type,
/// sequence number and SSRC of the retransmission stream.
pub proof fn law_rtx_restores(p: Seq<u8>, rtx_ssrc: u32, rtx_seq: u16)
    requires
        has_rtp_header(p),
    ensures
        ({
            let r = rtx_packet(p, rtx_ssrc, rtx_seq);
            let h = rtp_fixed_len(p);
            &&& r.len() == p.len() + 2
            &&& has_rtp_header(r)
            &&& rtp_fixed_len(r) == h
            &&& rtp_header(r).pt == config::rtx_pt(rtp_header(p).pt)
            &&& !rtp_header(r).marker
            &&& rtp_header(r).seq == rtx_seq
            &&& rtp_header(r).ssrc == rtx_ssrc
            &&& rtp_header(r).timestamp == rtp_header(p).timestamp
            &&& r.subrange(12, h) == p.subrange(12, h)
            &&& be16(r, h) == rtp_header(p).seq
            &&& r.subrange(h + 2, r.len() as int) == p.subrange(h, p.len() as int)
        }),
{
    let r = rtx_packet(p, rtx_ssrc, rtx_seq);
    let h = rtp_fixed_len(p);
    assert(r.subrange(2, 4) =~= be16_bytes(rtx_seq));
    lemma_be16_roundtrip(r, 2, rtx_seq);
    assert(r.subrange(8, 12) =~= be32_bytes(rtx_ssrc));
    lemma_be32_roundtrip(r, 8, rtx_ssrc);
    assert(r.subrange(12, h) =~= p.subrange(12, h));
    assert(r[h] == p[2] && r[h + 1] == p[3]);
    assert(r.subrange(h + 2, r.len() as int) =~= p.subrange(h, p.len() as int));
}

// ---------------------------------------------------------------------------
// PLI and REMB
// ---------------------------------------------------------------------------

/// A picture loss indication for `media_ssrc` (RFC 4585), from sender 0.
pub open spec fn pli_packet(media_ssrc: u32) -> Seq<u8> {
    seq![0x81u8, 206, 0, 2, 0, 0, 0, 0] + be32_bytes(media_ssrc)
}

pub fn build_pli(media_ssrc: u32) -> (r: [u8; 12])
    ensures
        r@ == pli_packet(media_ssrc),
{
    let r: [u8; 12] = [
        0x81,
        206,
        0,
        2,
        0,
        0,
        0,
        0,
        (media_ssrc / 0x100_0000) as u8,
        (media_ssrc / 0x1_0000 % 0x100) as u8,
        (media_ssrc / 0x100 % 0x100) as u8,
        (media_ssrc % 0x100) as u8,
    ];
    assert(r@ =~= pli_packet(media_ssrc));
    r
}

/// Whether `(exp, mantissa)` is the REMB form of `bps`: the mantissa has at most
/// 18 bits, and the exponent is the smallest for which it has.
pub open spec fn remb_form(bps: u64, exp: nat, mantissa: nat) -> bool {
    &&& mantissa == bps as nat / pow2(exp)
    &&& mantissa <= 0x3FFFF
    &&& exp > 0 ==> bps as nat / pow2((exp - 1) as nat) > 0x3FFFF
}

/// Splits a bitrate into exponent and mantissa.
pub fn encode_remb_bitrate(bps: u64) -> (r: (u8, u32))
    ensures
        remb_form(bps, r.0 as nat, r.1 as nat),
        r.0 <= 46,
{
    let mut exp: u8 = 0;
    let mut mantissa: u64 = bps;
    proof {
        lemma2_to64();
    }
    while mantissa > 0x3FFFF
        invariant
            exp <= 46,
            mantissa == bps as nat / pow2(exp as nat),
            mantissa as int * 1 <= u64::MAX,
            exp > 0 ==> bps as nat / pow2((exp - 1) as nat) > 0x3FFFF,
        decreases mantissa,
    {
        proof {
            lemma2_to64();
            lemma2_to64_rest();
            lemma_pow2_unfold((exp + 1) as nat);
            lemma_pow2_pos(exp as nat);
            lemma_div_denominator(bps as int, pow2(exp as nat) as int, 2);
            assert(pow2((exp + 1) as nat) == pow2(exp as nat) * 2) by (nonlinear_arith)
                requires
                    pow2((exp + 1) as nat) == 2 * pow2(exp as nat),
            ;
            if exp >= 46 {
                vstd::arithmetic::div_mod::lemma_div_is_ordered(bps as int, u64::MAX as int, pow2(46) as int);
            }
        }
        mantissa = mantissa / 2;
        exp = exp + 1;
    }
    (exp, mantissa as u32)
}

/// A REMB packet for one SSRC.
pub open spec fn remb_packet(exp: u8, mantissa: u32, media_ssrc: u32) -> Seq<u8> {
    seq![0x8Fu8, 206, 0, 5, 0, 0, 0, 0, 0, 0, 0, 0, 0x52, 0x45, 0x4D, 0x42, 1] + seq![
        (exp * 4 + mantissa / 0x1_0000) as u8,
        (mantissa / 0x100 % 0x100) as u8,
        (mantissa % 0x100) as u8,
    ] + be32_bytes(media_ssrc)
}

/// A REMB that offers `bitrate_bps` for `media_ssrc`.
pub fn build_remb(bitrate_bps: u64, media_ssrc: u32) -> (r: [u8; 24])
    ensures
        exists|exp: u8, mantissa: u32|
            #![trigger remb_packet(exp, mantissa, media_ssrc)]
            remb_form(bitrate_bps, exp as nat, mantissa as nat) && exp <= 46 && r@ == remb_packet(
                exp,
                mantissa,
                media_ssrc,
            ),
{
    let (exp, mantissa) = encode_remb_bitrate(bitrate_bps);
    let r: [u8; 24] = [
        0x8F,
        206,
        0,
        5,
        0,
        0,
        0,
        0,
        0,
        0,
        0,
        0,
        0x52,
        0x45,
        0x4D,
        0x42,
        1,
        exp * 4 + (mantissa / 0x1_0000) as u8,
        (mantissa / 0x100 % 0x100) as u8,
        (mantissa % 0x100) as u8,
        (media_ssrc / 0x100_0000) as u8,
        (media_ssrc / 0x1_0000 % 0x100) as u8,
        (media_ssrc / 0x100 % 0x100) as u8,
        (media_ssrc % 0x100) as u8,
    ];
    assert(r@ =~= remb_packet(exp, mantissa, media_ssrc));
    r
}

/// A bitrate has one REMB form only.
pub proof fn law_remb_form_unique(bps: u64, e1: nat, m1: nat, e2: nat, m2: nat)
    requires
        remb_form(bps, e1, m1),
        remb_form(bps, e2, m2),
    ensures
        e1 == e2,
        m1 == m2,
{
    if e1 < e2 {
        lemma_remb_monotone(bps, e1, (e2 - 1) as nat);
    } else if e2 < e1 {
        lemma_remb_monotone(bps, e2, (e1 - 1) as nat);
    }
}

proof fn lemma_remb_monotone(bps: u64, a: nat, b: nat)
    requires
        a <= b,
    ensures
        bps as nat / pow2(b) <= bps as nat / pow2(a),
{
    lemma_pow2_pos(a);
    lemma_pow2_pos(b);
    if a < b {
        vstd::arithmetic::power2::lemma_pow2_strictly_increases(a, b);
    }
    vstd::arithmetic::div_mod::lemma_div_is_ordered_by_denominator(bps as int, pow2(a) as int, pow2(b) as int);
}

/// What a REMB offers never exceeds the bitrate that it was made for, and falls
/// short of it by less than one step of its exponent.
pub proof fn law_remb_precision(bps: u64, exp: nat, mantissa: nat)
    requires
        remb_form(bps, exp, mantissa),
    ensures
        mantissa * pow2(exp) <= bps < (mantissa + 1) * pow2(exp),
{
    lemma_pow2_pos(exp);
    let d = pow2(exp) as int;
    vstd::arithmetic::div_mod::lemma_fundamental_div_mod(bps as int, d);
    vstd::arithmetic::div_mod::lemma_mod_bound(bps as int, d);
    assert((mantissa + 1) * d == d * mantissa + d) by (nonlinear_arith);
    assert(mantissa * d == d * mantissa) by (nonlinear_arith);
}

// ---------------------------------------------------------------------------
// Floor control messages in RTCP APP packets
// ---------------------------------------------------------------------------

/// A floor control message.
#[derive(Debug)]
pub struct MbcpMessage {
    pub subtype: u8,
    /// The sender's SSRC.
    pub ssrc: u32,
    /// The text that comes with it, if any.
    pub data: Option<String>,
}

/// What a floor control message says.
pub struct MbcpContent {
    pub subtype: u8,
    pub ssrc: u32,
    pub data: Option<Seq<char>>,
}

impl View for MbcpMessage {
    type V = MbcpContent;

    open spec fn view(&self) -> MbcpContent {
        MbcpContent {
            subtype: self.subtype,
            ssrc: self.ssrc,
            data: match self.data {
                Some(d) => Some(d@),
                None => None,
            },
        }
    }
}

/// The bytes before the first zero.
pub open spec fn before_nul(s: Seq<u8>) -> Seq<u8>
    decreases s.len(),
{
    if s.len() == 0 || s[0] == 0 {
        Seq::empty()
    } else {
        seq![s[0]] + before_nul(s.drop_first())
    }
}

/// The text of an APP packet's data: the bytes before the first zero, if there
/// are any and they are UTF-8.
pub open spec fn mbcp_data(raw: Seq<u8>) -> Option<Seq<char>> {
    let t = before_nul(raw);
    if t.len() > 0 && valid_utf8(t) {
        Some(decode_utf8(t))
    } else {
        None
    }
}

/// The floor control message in an APP packet, if it is one.
pub open spec fn mbcp_content(buf: Seq<u8>) -> Option<MbcpContent> {
    if buf.len() >= 12 && buf[1] == config::RTCP_PT_APP && buf.subrange(8, 12)
        == config::MBCP_APP_NAME@ {
        Some(
            MbcpContent {
                subtype: buf[0] % 32,
                ssrc: be32(buf, 4),
                data: mbcp_data(buf.subrange(12, buf.len() as int)),
            },
        )
    } else {
        None
    }
}

proof fn lemma_before_nul(s: Seq<u8>, n: int)
    requires
        0 <= n <= s.len(),
        forall|i: int| 0 <= i < n ==> s[i] != 0,
        n < s.len() ==> s[n] == 0,
    ensures
        before_nul(s) == s.take(n),
    decreases n,
{
    if n == 0 {
        assert(s.take(0) =~= Seq::empty());
    } else {
        lemma_before_nul(s.drop_first(), n - 1);
        assert(s.take(n) =~= seq![s[0]] + s.drop_first().take(n - 1));
    }
}

/// Parses a floor control message.
pub fn parse_mbcp_app(buf: &[u8]) -> (r: Option<MbcpMessage>)
    ensures
        match r {
            Some(m) => mbcp_content(buf@) == Some(m@),
            None => mbcp_content(buf@) is None,
        },
{
    if buf.len() < 12 {
        return None;
    }
    if buf[1] != config::RTCP_PT_APP {
        return None;
    }
    if !bytes_eq(slice_subrange(buf, 8, 12), &config::MBCP_APP_NAME) {
        return None;
    }
    let subtype: u8 = buf[0] % 32;
    let ssrc: u32 = read_u32(buf, 4);
    let raw = slice_subrange(buf, 12, buf.len());
    let mut n: usize = 0;
    while n < raw.len() && raw[n] != 0
        invariant
            n <= raw@.len(),
            forall|i: int| 0 <= i < n ==> raw@[i] != 0,
        decreases raw@.len() - n,
    {
        n += 1;
    }
    proof {
        lemma_before_nul(raw@, n as int);
    }
    let data: Option<String> = if n == 0 {
        None
    } else {
        assert(raw@.subrange(0, n as int) =~= raw@.take(n as int));
        string_from_utf8(slice_to_vec(slice_subrange(raw, 0, n)))
    };
    Some(MbcpMessage { subtype, ssrc, data })
}

/// The text of a message as bytes; none is the same as empty.
pub open spec fn mbcp_text(data: Option<&str>) -> Seq<u8> {
    match data {
        Some(s) => encode_utf8(s@),
        None => Seq::empty(),
    }
}

/// The next multiple of four.
pub open spec fn padded_len(n: int) -> int {
    (n + 3) / 4 * 4
}

/// The APP packet of a floor control message: the data is padded with zeros to
/// a multiple of four bytes, and the length counts 32-bit words minus one.
pub open spec fn mbcp_packet(subtype: u8, ssrc: u32, text: Seq<u8>) -> Seq<u8> {
    let words = (12 + padded_len(text.len() as int)) / 4 - 1;
    seq![(0x80 + subtype % 32) as u8, config::RTCP_PT_APP] + be16_bytes((words % 0x1_0000) as u16)
        + be32_bytes(ssrc) + config::MBCP_APP_NAME@ + text + Seq::new(
        (padded_len(text.len() as int) - text.len()) as nat,
        |i: int| 0u8,
    )
}

/// Builds the APP packet of a floor control message.
pub fn build_mbcp_app(subtype: u8, ssrc: u32, data: Option<&str>) -> (r: Vec<u8>)
    ensures
        r@ == mbcp_packet(subtype, ssrc, mbcp_text(data)),
{
    let mut out: Vec<u8> = Vec::new();
    let len: usize = match data {
        Some(s) => s.as_bytes().len(),
        None => 0,
    };
    let padding: usize = (4 - len % 4) % 4;
    let words: usize = 2 + len / 4 + if padding > 0 { 1 } else { 0 };
    assert(padding == padded_len(len as int) - len);
    assert(words == (12 + padded_len(len as int)) / 4 - 1);
    out.push(0x80 + subtype % 32);
    out.push(config::RTCP_PT_APP);
    push_u16(&mut out, (words % 0x1_0000) as u16);
    push_u32(&mut out, ssrc);
    push_all(&mut out, &config::MBCP_APP_NAME);
    if let Some(s) = data {
        push_all(&mut out, s.as_bytes());
    }
    let ghost body = out@;
    let mut k: usize = 0;
    while k < padding
        invariant
            k <= padding,
            out@ =~= body + Seq::new(k as nat, |i: int| 0u8),
        decreases padding - k,
    {
        out.push(0);
        k += 1;
    }
    assert(out@ =~= mbcp_packet(subtype, ssrc, mbcp_text(data)));
    out
}

spec fn mbcp_layout(p: Seq<u8>, subtype: u8, ssrc: u32, text: Seq<u8>) -> bool {
    &&& p.len() == 12 + padded_len(text.len() as int)
    &&& p[0] == 0x80 + subtype % 32
    &&& p[1] == config::RTCP_PT_APP
    &&& p.subrange(4, 8) == be32_bytes(ssrc)
    &&& p.subrange(8, 12) == config::MBCP_APP_NAME@
    &&& p.subrange(12, p.len() as int).take(text.len() as int) == text
    &&& forall|i: int| 12 + text.len() <= i < p.len() ==> p[i] == 0
}

proof fn lemma_mbcp_layout(subtype: u8, ssrc: u32, text: Seq<u8>)
    ensures
        mbcp_layout(mbcp_packet(subtype, ssrc, text), subtype, ssrc, text),
{
    let p = mbcp_packet(subtype, ssrc, text);
    assert(p.subrange(4, 8) =~= be32_bytes(ssrc));
    assert(p.subrange(8, 12) =~= config::MBCP_APP_NAME@);
    assert(p.subrange(12, p.len() as int).take(text.len() as int) =~= text);
}

proof fn lemma_mbcp_parse(p: Seq<u8>, subtype: u8, ssrc: u32, text: Seq<char>)
    requires
        subtype < 32,
        mbcp_layout(p, subtype, ssrc, encode_utf8(text)),
        forall|i: int| 0 <= i < encode_utf8(text).len() ==> encode_utf8(text)[i] != 0,
    ensures
        mbcp_content(p) == Some(
            MbcpContent {
                subtype,
                ssrc,
                data: if text.len() > 0 { Some(text) } else { None },
            },
        ),
{
    lemma_be32_roundtrip(p, 4, ssrc);
    lemma_mbcp_data(p.subrange(12, p.len() as int), text);
}

proof fn lemma_mbcp_data(raw: Seq<u8>, text: Seq<char>)
    requires
        encode_utf8(text).len() <= raw.len(),
        raw.take(encode_utf8(text).len() as int) == encode_utf8(text),
        forall|i: int| encode_utf8(text).len() <= i < raw.len() ==> raw[i] == 0,
        forall|i: int| 0 <= i < encode_utf8(text).len() ==> encode_utf8(text)[i] != 0,
    ensures
        mbcp_data(raw) == (if text.len() > 0 { Some(text) } else { None }),
{
    let t = encode_utf8(text);
    assert forall|i: int| 0 <= i < t.len() implies raw[i] != 0 by {
        assert(raw.take(t.len() as int)[i] == t[i]);
    }
    lemma_before_nul(raw, t.len() as int);
    encode_utf8_valid_utf8(text);
    encode_utf8_decode_utf8(text);
    if text.len() > 0 && t.len() == 0 {
        assert(decode_utf8(t).len() == 0);
    }
}

/// Parsing undoes building: a message comes back with its subtype, its sender
/// and its text, provided that the text holds no NUL character.
pub proof fn law_mbcp_roundtrip(subtype: u8, ssrc: u32, text: Seq<char>)
    requires
        subtype < 32,
        forall|i: int| 0 <= i < encode_utf8(text).len() ==> encode_utf8(text)[i] != 0,
    ensures
        mbcp_content(mbcp_packet(subtype, ssrc, encode_utf8(text))) == Some(
            MbcpContent {
                subtype,
                ssrc,
                data: if text.len() > 0 { Some(text) } else { None },
            },
        ),
{
    lemma_mbcp_layout(subtype, ssrc, encode_utf8(text));
    lemma_mbcp_parse(mbcp_packet(subtype, ssrc, encode_utf8(text)), subtype, ssrc, text);
}

/// A message fills whole 32-bit words, and a packet whose length field can hold
/// its length says how long it is.
pub proof fn law_mbcp_length(subtype: u8, ssrc: u32, text: Seq<u8>)
    requires
        text.len() <= 0x3_FFF4,
    ensures
        mbcp_packet(subtype, ssrc, text).len() % 4 == 0,
        mbcp_packet(subtype, ssrc, text).len() == 12 + padded_len(text.len() as int),
        block_len(mbcp_packet(subtype, ssrc, text), 0) == mbcp_packet(subtype, ssrc, text).len(),
{
    let p = mbcp_packet(subtype, ssrc, text);
    let words = (12 + padded_len(text.len() as int)) / 4 - 1;
    assert(p.subrange(2, 4) =~= be16_bytes(words as u16));
    lemma_be16_roundtrip(p, 2, words as u16);
}

} // verus!
