//! Laws of packets: how they are told apart, and that what is written into one is
//! what is read out of it.

use vstd::prelude::*;
use vstd::utf8::{decode_utf8, encode_utf8, valid_utf8};

use crate::room::participant::MediaSession;
use crate::text::hex_byte;
use crate::transport::demux::{packet_type, PacketType};
use crate::transport::dtls::{fingerprint_text, hex_list, keyed, SrtpKeyMaterial};
use crate::transport::ice::{ice_char, is_request_for};
use crate::transport::srtp::{
    after_rtcp, after_rtp, ext_elements, index_of, rtcp_index, rtcp_next, rtcp_trailer_fits,
    rtp_parts_fit, srtp_advance, SrtpState,
};
use crate::transport::stun::{
    attr_offset, attr_place, attr_value, attrs_from, be_bytes, hmac_sha1, integrity_holds, is_stun,
    signed_part, stun_content, Attr, StunContent,
};
use crate::transport::udp::binding::{before_colon, requested_ufrag};
use crate::transport::udp::rtcp::{
    before_nul, block_kind, blocks_of, blp_bit, joined, law_lost_seqs, lost_seqs, mbcp_content,
    mbcp_messages, mbcp_packet, nack_items, pli_packet, remb_packet, reported, reports, rtp_header,
    BlockKind, NackItem,
};
use crate::wire::{be16, be32, be32_bytes, lemma_be32_roundtrip};

verus! {

// ---------------------------------------------------------------------------
// Telling packets apart
// ---------------------------------------------------------------------------

/// A datagram is told by its first byte: STUN up to 3, DTLS from 20 to 63, media
/// from 128 to 191 (RFC 5764).
pub proof fn law_packet_types(buf: Seq<u8>)
    ensures
        buf.len() == 0 ==> packet_type(buf) == PacketType::Unknown,
        buf.len() > 0 ==> {
            &&& packet_type(buf) == PacketType::Stun <==> buf[0] <= 3
            &&& packet_type(buf) == PacketType::Dtls <==> 20 <= buf[0] <= 63
            &&& packet_type(buf) == PacketType::Srtp <==> 128 <= buf[0] <= 191
        },
{
}

/// The header of a media packet (RFC 3550).
pub proof fn law_media_header(buf: Seq<u8>)
    requires
        buf.len() >= 12,
    ensures
        rtp_header(buf).marker == (buf[1] & 0x80 != 0),
        rtp_header(buf).pt == buf[1] & 0x7F,
        rtp_header(buf).seq == buf[2] * 256 + buf[3],
        rtp_header(buf).timestamp == ((buf[4] * 256 + buf[5]) * 256 + buf[6]) * 256 + buf[7],
        rtp_header(buf).ssrc == ((buf[8] * 256 + buf[9]) * 256 + buf[10]) * 256 + buf[11],
        rtp_header(buf).header_len == 12 + 4 * (buf[0] & 0x0F),
{
    let a = buf[0];
    let b = buf[1];
    assert((b & 0x80 != 0) == (b >= 0x80) && b & 0x7F == b % 0x80 && a & 0x0F == a % 16)
        by (bit_vector);
}

// ---------------------------------------------------------------------------
// Control packets
// ---------------------------------------------------------------------------

/// A block of negative acknowledgements, alone in a packet, with `n` entries: each
/// gives the first lost packet and a mask, all on one SSRC.
pub proof fn law_nack_block_reads_back(buf: Seq<u8>, n: int, k: int)
    requires
        0 <= k < n,
        buf.len() == 12 + 4 * n,
        buf[0] & 0x1F == 1,
        buf[1] == 205,
        be16(buf, 2) == 2 + n,
    ensures
        nack_items(buf, 0).len() == n,
        nack_items(buf, 0)[k] == (NackItem {
            media_ssrc: be32(buf, 8),
            pid: be16(buf, 12 + 4 * k),
            blp: be16(buf, 14 + 4 * k),
        }),
{
    lemma_low_five(buf[0]);
    assert(nack_items(buf, 12 + 4 * n).len() == 0);
    assert(crate::transport::udp::rtcp::block_len(buf, 0) == 12 + 4 * n);
}

proof fn lemma_low_five(b: u8)
    ensures
        b & 0x1F == b % 32,
{
    assert(b & 0x1F == b % 32) by (bit_vector);
}

/// Other blocks are passed over, by their length, and blocks are read in order.
pub proof fn law_other_blocks_are_skipped(buf: Seq<u8>, off: int)
    requires
        0 <= off,
        off + 4 <= buf.len(),
        buf[off + 1] != 205 || buf[off] & 0x1F != 1,
    ensures
        nack_items(buf, off) == nack_items(buf, off + 4 * (be16(buf, off + 2) + 1)),
{
    lemma_low_five(buf[off]);
    assert(nack_items(buf, off) =~= nack_items(buf, off + 4 * (be16(buf, off + 2) + 1)));
}

/// The mask of a negative acknowledgement: its lowest bit stands for the packet right
/// behind the first one, each further bit for one more.
pub proof fn law_mask(pid: u16, blp: u16, i: u16)
    requires
        i < 16,
    ensures
        lost_seqs(pid, blp)[0] == pid,
        lost_seqs(pid, blp).contains(pid.wrapping_add((i + 1) as u16)) <==> (blp >> i) & 1 == 1,
        lost_seqs(pid, blp).no_duplicates(),
{
    let x = pid.wrapping_add((i + 1) as u16);
    law_lost_seqs(pid, blp, x);
    assert(((blp & (1u16 << i)) != 0) <==> ((blp >> i) & 1 == 1)) by (bit_vector)
        requires
            i < 16,
    ;
    if blp_bit(blp, i as int) {
        assert(reports(pid, blp, i as int, x));
    }
    if reported(pid, blp, 16, x) {
        let j = choose|j: int| 0 <= j < 16 && #[trigger] reports(pid, blp, j, x);
        assert(j == i);
    }
}

/// What a block is: 205 with format 1 a negative acknowledgement, 204 an application
/// packet, 200 a sender report, 201 a receiver report, 206 with format 1 or 15 what is
/// relayed.
pub proof fn law_block_kinds(buf: Seq<u8>, off: int)
    requires
        0 <= off,
        off + 4 <= buf.len(),
    ensures
        ({
            let k = block_kind(buf, off);
            let pt = buf[off + 1];
            let fmt = buf[off] & 0x1F;
            &&& k == BlockKind::Nack <==> pt == 205 && fmt == 1
            &&& k == BlockKind::App <==> pt == 204
            &&& k == BlockKind::Sr <==> pt == 200
            &&& k == BlockKind::Rr <==> pt == 201
            &&& k == BlockKind::Relay <==> pt == 206 && (fmt == 1 || fmt == 15)
        }),
{
    lemma_low_five(buf[off]);
}

/// The blocks of a kind are found in order, each whole and with its own place; what is
/// cut off at the end is none.
pub proof fn law_blocks_in_order(buf: Seq<u8>, off: int, kind: BlockKind)
    requires
        0 <= off,
        buf.len() <= usize::MAX,
    ensures
        off + 4 > buf.len() || off + 4 * (be16(buf, off + 2) + 1) > buf.len() ==> blocks_of(
            buf,
            off,
            kind,
        ).len() == 0,
        off + 4 <= buf.len() && off + 4 * (be16(buf, off + 2) + 1) <= buf.len() ==> {
            let next = off + 4 * (be16(buf, off + 2) + 1);
            let all = blocks_of(buf, off, kind);
            let rest = blocks_of(buf, next, kind);
            &&& block_kind(buf, off) != kind ==> all == rest
            &&& block_kind(buf, off) == kind ==> {
                &&& all.len() == rest.len() + 1
                &&& all.drop_first() == rest
                &&& all[0].offset == off
                &&& all[0].length == 4 * (be16(buf, off + 2) + 1)
                &&& off + 12 <= buf.len() ==> all[0].media_ssrc == be32(buf, off + 8)
                &&& off + 12 > buf.len() ==> all[0].media_ssrc == 0
            }
        },
{
    if off + 4 <= buf.len() && off + 4 * (be16(buf, off + 2) + 1) <= buf.len() {
        let rest = blocks_of(buf, off + 4 * (be16(buf, off + 2) + 1), kind);
        if block_kind(buf, off) == kind {
            assert(blocks_of(buf, off, kind).drop_first() =~= rest);
        }
    }
}

/// Floor control in an application packet: packet type 204, and behind the SSRC the
/// four letters MBCP. Its text ends at the first zero.
pub proof fn law_floor_packet(buf: Seq<u8>)
    ensures
        mbcp_content(buf) is Some <==> buf.len() >= 12 && buf[1] == 204 && buf[8] == 0x4D && buf[9]
            == 0x42 && buf[10] == 0x43 && buf[11] == 0x50,
        mbcp_content(buf) matches Some(m) ==> m.subtype == buf[0] & 0x1F && m.ssrc == be32(buf, 4),
        mbcp_content(buf) is Some && (buf.len() == 12 || buf[12] == 0) ==> mbcp_content(
            buf,
        )->0.data is None,
{
    if buf.len() >= 12 {
        lemma_low_five(buf[0]);
        let name = crate::config::MBCP_APP_NAME@;
        assert(name =~= seq![0x4Du8, 0x42, 0x43, 0x50]);
        let s = buf.subrange(8, 12);
        assert(s[0] == buf[8] && s[1] == buf[9] && s[2] == buf[10] && s[3] == buf[11]);
        if buf[8] == 0x4D && buf[9] == 0x42 && buf[10] == 0x43 && buf[11] == 0x50 {
            assert(s =~= name);
        }
        if s == name {
            assert(s[0] == name[0] && s[1] == name[1] && s[2] == name[2] && s[3] == name[3]);
        }
    }
}

/// The messages of a packet are found in order, block by block.
pub proof fn law_floor_messages_in_order(buf: Seq<u8>, off: int)
    requires
        0 <= off,
        off + 4 <= buf.len(),
        off + 4 * (be16(buf, off + 2) + 1) <= buf.len(),
    ensures
        ({
            let next = off + 4 * (be16(buf, off + 2) + 1);
            let here = mbcp_content(buf.subrange(off, next));
            &&& here is None ==> mbcp_messages(buf, off) == mbcp_messages(buf, next)
            &&& here is Some ==> mbcp_messages(buf, off) == seq![here->0] + mbcp_messages(buf, next)
        }),
{
    let next = off + 4 * (be16(buf, off + 2) + 1);
    assert(buf.subrange(off, next)[1] == buf[off + 1] || next < off + 2);
}

/// A request for a key frame (RFC 4585): format 1 of type 206, three words, on an SSRC.
pub proof fn law_key_frame_request(ssrc: u32)
    ensures
        ({
            let p = pli_packet(ssrc);
            &&& p.len() == 12
            &&& p[0] == 0x81 && p[1] == 206 && be16(p, 2) == 2
            &&& be32(p, 4) == 0
            &&& be32(p, 8) == ssrc
            &&& block_kind(p, 0) == BlockKind::Relay
        }),
{
    let p = pli_packet(ssrc);
    assert(p.subrange(8, 12) =~= be32_bytes(ssrc));
    lemma_be32_roundtrip(p, 8, ssrc);
}

/// A bitrate estimate reads back: the letters REMB, one SSRC, a mantissa of 18 bits
/// and an exponent of 6.
pub proof fn law_bitrate_reads_back(exp: u8, mantissa: u32, ssrc: u32)
    requires
        exp < 64,
        mantissa < 0x4_0000,
    ensures
        ({
            let p = remb_packet(exp, mantissa, ssrc);
            &&& p.len() == 24
            &&& p[0] == 0x8F && p[1] == 206 && be16(p, 2) == 5
            &&& p[12] == 0x52 && p[13] == 0x45 && p[14] == 0x4D && p[15] == 0x42
            &&& p[16] == 1
            &&& p[17] / 4 == exp
            &&& (p[17] % 4) * 0x1_0000 + p[18] * 0x100 + p[19] == mantissa
            &&& be32(p, 20) == ssrc
            &&& be32(p, 4) == 0 && be32(p, 8) == 0
        }),
{
    let p = remb_packet(exp, mantissa, ssrc);
    assert(p.subrange(20, 24) =~= be32_bytes(ssrc));
    lemma_be32_roundtrip(p, 20, ssrc);
}

/// Blocks that are put together follow one another in their order.
pub proof fn law_blocks_are_joined(blocks: Seq<&[u8]>, n: int)
    requires
        0 < n <= blocks.len(),
    ensures
        joined(blocks, 0).len() == 0,
        joined(blocks, n).len() == joined(blocks, n - 1).len() + blocks[n - 1]@.len(),
        joined(blocks, n).take(joined(blocks, n - 1).len() as int) == joined(blocks, n - 1),
        joined(blocks, n).skip(joined(blocks, n - 1).len() as int) == blocks[n - 1]@,
{
    let before = joined(blocks, n - 1);
    assert(joined(blocks, n).take(before.len() as int) =~= before);
    assert(joined(blocks, n).skip(before.len() as int) =~= blocks[n - 1]@);
}

// ---------------------------------------------------------------------------
// STUN
// ---------------------------------------------------------------------------

/// What a STUN message looks like (RFC 5389): two zero bits, the magic cookie, a length
/// in whole words that the datagram covers.
pub proof fn law_stun_messages(buf: Seq<u8>)
    ensures
        is_stun(buf) <==> buf.len() >= 20 && buf[0] / 64 == 0 && buf[4] == 0x21 && buf[5] == 0x12
            && buf[6] == 0xA4 && buf[7] == 0x42 && be16(buf, 2) % 4 == 0 && buf.len() >= 20 + be16(
            buf,
            2,
        ),
        is_stun(buf) ==> {
            let m = stun_content(buf);
            &&& m.msg_type == be16(buf, 0)
            &&& m.length == be16(buf, 2)
            &&& m.transaction_id == buf.subrange(8, 20)
            &&& m.raw == buf.take(20 + be16(buf, 2))
        },
{
}

/// Attributes are read in order: each is a type, a length, a value of that length, and
/// padding to a whole word. One that is cut off ends the list.
pub proof fn law_attributes_in_order(buf: Seq<u8>, at: int, total: int)
    requires
        0 <= at,
        total <= buf.len(),
    ensures
        at + 4 > total ==> attrs_from(buf, at, total).len() == 0,
        at + 4 <= total && at + 4 + be16(buf, at + 2) > total ==> attrs_from(
            buf,
            at,
            total,
        ).len() == 0,
        at + 4 <= total && at + 4 + be16(buf, at + 2) <= total ==> {
            let n = be16(buf, at + 2) as int;
            let pad = if n % 4 == 0 {
                0
            } else {
                4 - n % 4
            };
            let all = attrs_from(buf, at, total);
            &&& all.len() > 0
            &&& all[0].0 == be16(buf, at)
            &&& all[0].1 == buf.subrange(at + 4, at + 4 + n)
            &&& all.drop_first() == attrs_from(buf, at + 4 + n + pad, total)
        },
{
    if at + 4 <= total && at + 4 + be16(buf, at + 2) <= total {
        let n = be16(buf, at + 2) as int;
        let pad = if n % 4 == 0 {
            0
        } else {
            4 - n % 4
        };
        assert(crate::transport::stun::padded(n) == n + pad);
        assert(attrs_from(buf, at, total).drop_first() =~= attrs_from(buf, at + 4 + n + pad, total));
    }
}

/// Of several attributes of a type the first one counts.
pub proof fn law_attribute_by_type(attrs: Seq<Attr>, t: u16)
    ensures
        match attr_place(attrs, t) {
            Some(i) => 0 <= i < attrs.len() && attrs[i].0 == t && attr_value(attrs, t) == Some(
                attrs[i].1,
            ) && forall|j: int| 0 <= j < i ==> (#[trigger] attrs[j]).0 != t,
            None => attr_value(attrs, t) is None && forall|j: int|
                0 <= j < attrs.len() ==> (#[trigger] attrs[j]).0 != t,
        },
    decreases attrs.len(),
{
    if attrs.len() > 0 && attrs[0].0 != t {
        let rest = attrs.drop_first();
        law_attribute_by_type(rest, t);
        assert forall|j: int| 0 < j < attrs.len() implies #[trigger] attrs[j] == rest[j - 1] by {}
    }
}

/// What is signed of a message: all before the code, with a length that counts the
/// code and what is before it, but nothing behind it.
pub proof fn law_signed_part(raw: Seq<u8>, at: int, i: int)
    requires
        20 <= at,
        at + 24 <= raw.len() <= 0xFFFF,
        0 <= i < at,
    ensures
        signed_part(raw, at).len() == at,
        be16(signed_part(raw, at), 2) == (at + 24) - 20,
        i != 2 && i != 3 ==> signed_part(raw, at)[i] == raw[i],
{
    let s = signed_part(raw, at);
    let n = (at + 4) as u16;
    assert(s.subrange(2, 4) =~= crate::wire::be16_bytes(n));
    crate::wire::lemma_be16_roundtrip(s, 2, n);
}

/// A message is genuine where it holds a code, of type 8, that the key gives for what
/// is before it. Without such a code it is not.
pub proof fn law_integrity(m: StunContent, key: Seq<u8>)
    ensures
        integrity_holds(m, key) ==> {
            let code = attr_value(m.attributes, 8);
            &&& code is Some
            &&& exists|at: int|
                20 <= at && at + 4 <= m.raw.len() && be16(m.raw, at) == 8 && code->0 == hmac_sha1(
                    key,
                    #[trigger] signed_part(m.raw, at),
                )
        },
        attr_value(m.attributes, 8) is None ==> !integrity_holds(m, key),
{
    lemma_offset(m.raw, 8, 20);
    if integrity_holds(m, key) {
        let at = attr_offset(m.raw, 8, 20)->0;
        assert(signed_part(m.raw, at) == signed_part(m.raw, at));
    }
}

proof fn lemma_offset(raw: Seq<u8>, t: u16, from: int)
    requires
        0 <= from,
    ensures
        attr_offset(raw, t, from) matches Some(at) ==> from <= at && at + 4 <= raw.len() && be16(
            raw,
            at,
        ) == t,
    decreases (if raw.len() > from { raw.len() - from } else { 0 }),
{
    if from + 4 <= raw.len() && be16(raw, from) != t {
        lemma_offset(raw, t, from + 4 + crate::transport::stun::padded(be16(raw, from + 2) as int));
    }
}

/// The first attribute of a type is found by going from one to the next.
pub proof fn law_place_of_attribute(raw: Seq<u8>, t: u16, at: int)
    requires
        0 <= at,
    ensures
        at + 4 > raw.len() ==> attr_offset(raw, t, at) is None,
        at + 4 <= raw.len() && be16(raw, at) == t ==> attr_offset(raw, t, at) == Some(at),
        at + 4 <= raw.len() && be16(raw, at) != t ==> {
            let n = be16(raw, at + 2) as int;
            let pad = if n % 4 == 0 {
                0
            } else {
                4 - n % 4
            };
            attr_offset(raw, t, at) == attr_offset(raw, t, at + 4 + n + pad)
        },
{
    if at + 4 <= raw.len() {
        let n = be16(raw, at + 2) as int;
        let pad = if n % 4 == 0 {
            0
        } else {
            4 - n % 4
        };
        assert(crate::transport::stun::padded(n) == n + pad);
    }
}

/// A number in big-endian bytes: the value of the bytes is the number, as far as it
/// fits.
pub proof fn law_number_in_bytes(x: nat, n: nat)
    ensures
        be_bytes(x, n).len() == n,
        n > 0 ==> be_bytes(x, n).last() == x % 0x100 && be_bytes(x, n).drop_last() == be_bytes(
            x / 0x100,
            (n - 1) as nat,
        ),
        x <= u32::MAX ==> be32(be_bytes(x, 4), 0) == x,
    decreases n,
{
    if n > 0 {
        law_number_in_bytes(x / 0x100, (n - 1) as nat);
        assert(be_bytes(x, n).drop_last() =~= be_bytes(x / 0x100, (n - 1) as nat));
    }
    if x <= u32::MAX {
        let a = x / 0x100;
        let b = a / 0x100;
        let c = b / 0x100;
        assert(be_bytes(c / 0x100, 0) =~= Seq::empty());
        assert(be_bytes(c, 1) =~= seq![(c % 0x100) as u8]);
        assert(be_bytes(b, 2) =~= seq![(c % 0x100) as u8, (b % 0x100) as u8]);
        assert(be_bytes(a, 3) =~= seq![(c % 0x100) as u8, (b % 0x100) as u8, (a % 0x100) as u8]);
        assert(be_bytes(x, 4) =~= seq![
            (c % 0x100) as u8,
            (b % 0x100) as u8,
            (a % 0x100) as u8,
            (x % 0x100) as u8,
        ]);
    }
}

/// The name in a binding request is the server's user fragment, a colon, and the
/// client's: the server's part leads to the connection.
pub proof fn law_ufrag_before_colon(server: Seq<char>, client: Seq<char>)
    requires
        forall|i: int| 0 <= i < server.len() ==> #[trigger] server[i] != ':',
    ensures
        before_colon(server + seq![':'] + client) == server,
        before_colon(server) == server,
    decreases server.len(),
{
    let s = server + seq![':'] + client;
    if server.len() > 0 {
        let rest = server.drop_first();
        assert forall|i: int| 0 <= i < rest.len() implies #[trigger] rest[i] != ':' by {
            assert(rest[i] == server[i + 1]);
        }
        law_ufrag_before_colon(rest, client);
        assert(s.drop_first() =~= rest + seq![':'] + client);
        assert(s[0] == server[0]);
        assert(seq![server[0]] + rest =~= server);
    } else {
        assert(s[0] == ':');
        assert(before_colon(s) =~= server);
        assert(before_colon(server) =~= server);
    }
}

/// Who a binding request is for: messages of type 1 with a name that can be read.
pub proof fn law_binding_request(buf: Seq<u8>, server: Seq<char>, client: Seq<char>)
    requires
        forall|i: int| 0 <= i < server.len() ==> #[trigger] server[i] != ':',
        is_stun(buf),
        ({
            let v = attr_value(stun_content(buf).attributes, 6);
            v is Some && valid_utf8(v->0) && decode_utf8(v->0) == server + seq![':'] + client
        }),
    ensures
        be16(buf, 0) == 1 ==> requested_ufrag(buf) == Some(server),
        be16(buf, 0) != 1 ==> requested_ufrag(buf) is None,
        forall|pwd: Seq<char>| #[trigger]
            is_request_for(buf, server, pwd) ==> be16(buf, 0) == 1 && integrity_holds(
                stun_content(buf),
                encode_utf8(pwd),
            ),
        forall|pwd: Seq<char>|
            be16(buf, 0) == 1 && integrity_holds(stun_content(buf), encode_utf8(pwd))
                ==> #[trigger] is_request_for(buf, server, pwd),
{
    law_ufrag_before_colon(server, client);
    let s = server + seq![':'] + client;
    assert(s.take(server.len() as int + 1) =~= server.push(':'));
}

/// The letters of user fragments and passwords: 36 of them, each drawn from a byte by
/// its remainder.
pub proof fn law_ice_letters(a: u8, b: u8)
    ensures
        48 <= ice_char(a) as u32 <= 57 || 97 <= ice_char(a) as u32 <= 122,
        ice_char(a) == ice_char(b) <==> a % 36 == b % 36,
{
    let x = a % 36;
    let y = b % 36;
    assert(x < 36 && y < 36);
    let cx = ice_char(a) as u32;
    let cy = ice_char(b) as u32;
    assert(cx == (if x < 10 {
        48 + x
    } else {
        87 + x
    }));
    assert(cy == (if y < 10 {
        48 + y
    } else {
        87 + y
    }));
}

// ---------------------------------------------------------------------------
// SRTP
// ---------------------------------------------------------------------------

/// The index of a packet ends in its number, and past the first half of the first turn
/// it is the nearest such index to the one before.
pub proof fn law_packet_index(prior: u64, seq: u16)
    requires
        prior < 0xFFFF_FFFF_0000,
    ensures
        srtp_advance(None, seq) == seq,
        srtp_advance(Some(prior), seq) as int % 0x1_0000 == seq as int,
        prior <= 0x8000 ==> srtp_advance(Some(prior), seq) == seq,
        prior > 0x8000 ==> -0x8000 <= srtp_advance(Some(prior), seq) - prior <= 0x8000,
{
    let last = prior % 0x1_0000;
    let high = prior / 0x1_0000;
    assert(prior == high * 0x1_0000 + last);
    let r = srtp_advance(Some(prior), seq);
    let base = prior + seq - last;
    assert(base == high * 0x1_0000 + seq);
    if prior <= 0x8000 {
        assert(high == 0);
    } else {
        let turn: int = if last < 0x8000 && seq - last > 0x8000 {
            -0x1_0000
        } else if last >= 0x8000 && last - 0x8000 > seq {
            0x1_0000
        } else {
            0
        };
        assert(turn < 0 ==> high >= 1);
        assert(0 <= base + turn < 0x1_0000_0000_0000_0000);
        assert(r == base + turn);
        assert(base + turn == (high + turn / 0x1_0000) * 0x1_0000 + seq);
    }
}

/// Control packets are numbered one by one for each SSRC, from 1 on, in 31 bits.
pub proof fn law_control_index(s: SrtpState, p: Seq<u8>, other: u32)
    ensures
        rtcp_next(None) == 1,
        forall|i: u64| i < 0x7FFF_FFFF ==> #[trigger] rtcp_next(Some(i)) == i + 1,
        rtcp_next(Some(0x7FFF_FFFF)) == 0,
        index_of(after_rtcp(s, p).rtcp, be32(p, 4)) == Some(rtcp_index(s, p)),
        other != be32(p, 4) ==> index_of(after_rtcp(s, p).rtcp, other) == index_of(s.rtcp, other),
        after_rtcp(s, p).rtp == s.rtp && after_rtcp(s, p).secret == s.secret,
        after_rtp(s, p).rtcp == s.rtcp && after_rtp(s, p).secret == s.secret,
        other != be32(p, 8) ==> index_of(after_rtp(s, p).rtp, other) == index_of(s.rtp, other),
        index_of(after_rtp(s, p).rtp, be32(p, 8)) == Some(
            srtp_advance(index_of(s.rtp, be32(p, 8)), be16(p, 2)),
        ),
{
}

/// What the client seals is opened with the client's keys, and what goes out is sealed
/// with the server's.
pub proof fn law_keys(a: MediaSession, b: MediaSession, k: SrtpKeyMaterial)
    requires
        keyed(a, b, k),
        k.client_key@.len() == 16 && k.server_key@.len() == 16,
        k.client_salt@.len() == 14 && k.server_salt@.len() == 14,
    ensures
        b.inbound_srtp@ is Some && b.outbound_srtp@ is Some,
        b.inbound_srtp@->0.secret == k.client_key@ + k.client_salt@,
        b.outbound_srtp@->0.secret == k.server_key@ + k.server_salt@,
        forall|ssrc: u32| #[trigger] index_of(b.inbound_srtp@->0.rtp, ssrc) is None,
        forall|ssrc: u32| #[trigger] index_of(b.outbound_srtp@->0.rtp, ssrc) is None,
        b.address == a.address && b.ufrag == a.ufrag && b.ice_pwd == a.ice_pwd,
{
}

/// What is too short for a header has none.
pub proof fn law_short_packet(buf: Seq<u8>)
    requires
        buf.len() < 12,
    ensures
        rtp_header(buf).pt == 0 && rtp_header(buf).ssrc == 0 && rtp_header(buf).seq == 0,
        rtp_header(buf).timestamp == 0 && rtp_header(buf).header_len == 0
            && !rtp_header(buf).marker,
{
}

/// A floor control packet as it is built: version 2, application type 204, a length that
/// counts the words behind the first, and zeros up to a whole word behind the text.
pub proof fn law_floor_packet_form(subtype: u8, ssrc: u32, text: Seq<u8>, i: int)
    requires
        subtype < 32,
        text.len() <= 0x3_FFF0,
    ensures
        ({
            let p = mbcp_packet(subtype, ssrc, text);
            &&& p.len() % 4 == 0
            &&& 12 + text.len() <= p.len() < 16 + text.len()
            &&& p[0] == 0x80 + subtype && p[1] == 204
            &&& p.len() == 4 * (be16(p, 2) + 1)
            &&& be32(p, 4) == ssrc
            &&& p[8] == 0x4D && p[9] == 0x42 && p[10] == 0x43 && p[11] == 0x50
            &&& p.subrange(12, 12 + text.len() as int) == text
            &&& 12 + text.len() <= i < p.len() ==> p[i] == 0
        }),
{
    let p = mbcp_packet(subtype, ssrc, text);
    crate::transport::udp::rtcp::law_mbcp_length(subtype, ssrc, text);
    assert(p.subrange(4, 8) =~= be32_bytes(ssrc));
    lemma_be32_roundtrip(p, 4, ssrc);
    assert(crate::config::MBCP_APP_NAME@ =~= seq![0x4Du8, 0x42, 0x43, 0x50]);
    assert(p.subrange(12, 12 + text.len() as int) =~= text);
}

/// The text of a floor control packet is what is before the first zero.
pub proof fn law_text_before_zero(text: Seq<u8>, rest: Seq<u8>)
    requires
        forall|i: int| 0 <= i < text.len() ==> #[trigger] text[i] != 0,
    ensures
        before_nul(text + seq![0u8] + rest) == text,
        before_nul(text) == text,
    decreases text.len(),
{
    let s = text + seq![0u8] + rest;
    if text.len() > 0 {
        let t = text.drop_first();
        assert forall|i: int| 0 <= i < t.len() implies #[trigger] t[i] != 0 by {
            assert(t[i] == text[i + 1]);
        }
        law_text_before_zero(t, rest);
        assert(s.drop_first() =~= t + seq![0u8] + rest);
        assert(s[0] == text[0]);
        assert(seq![text[0]] + t =~= text);
    } else {
        assert(s[0] == 0);
        assert(before_nul(s) =~= text);
        assert(before_nul(text) =~= text);
    }
}

/// A fingerprint is the name of the hash and its bytes in hexadecimal, with a colon
/// between any two.
pub proof fn law_fingerprint(hash: Seq<u8>, n: int)
    requires
        1 < n <= hash.len(),
    ensures
        fingerprint_text(hash) == "sha-256 "@ + hex_list(hash, hash.len() as int),
        hex_list(hash, n) == hex_list(hash, n - 1) + seq![':'] + hex_byte(hash[n - 1]),
        hex_list(hash, 1) == hex_byte(hash[0]),
        hex_list(hash, 0).len() == 0,
{
    assert(hex_list(hash, n) =~= hex_list(hash, n - 1) + seq![':'] + hex_byte(hash[n - 1]));
}

/// A block of negative acknowledgements that is cut off still says what is there: as many
/// whole entries as the datagram holds.
pub proof fn law_nack_block_cut_off(buf: Seq<u8>, k: int)
    requires
        buf.len() >= 12,
        buf[0] & 0x1F == 1,
        buf[1] == 205,
        4 * (be16(buf, 2) + 1) > buf.len(),
        0 <= k,
        16 + 4 * k <= buf.len(),
    ensures
        nack_items(buf, 0).len() == (buf.len() - 12) / 4,
        nack_items(buf, 0)[k] == (NackItem {
            media_ssrc: be32(buf, 8),
            pid: be16(buf, 12 + 4 * k),
            blp: be16(buf, 14 + 4 * k),
        }),
{
    lemma_low_five(buf[0]);
    let n = crate::transport::udp::rtcp::block_len(buf, 0);
    assert(nack_items(buf, n).len() == 0);
}

/// A control packet is opened only where it has room for the index and the code behind the
/// header; what is of another version is refused in any case, and so may be tried.
pub proof fn law_trailer_fits(p: Seq<u8>)
    ensures
        p.len() >= 14 ==> rtcp_trailer_fits(p),
        4 <= p.len() < 14 && p[0] / 64 == 2 ==> !rtcp_trailer_fits(p),
        p.len() < 4 ==> rtcp_trailer_fits(p),
        p.len() > 0 && p[0] / 64 != 2 ==> rtcp_trailer_fits(p),
{
}

/// A packet without header extension can be sealed whatever it holds.
pub proof fn law_plain_packets_fit(p: Seq<u8>)
    requires
        p.len() >= 12,
        (p[0] / 16) % 2 == 0,
    ensures
        rtp_parts_fit(p),
{
}

/// A packet with header extension can be sealed where its elements, padded to whole words,
/// leave room for all of them in the packet.
pub proof fn law_extended_packets_fit(p: Seq<u8>, n: int, m: int)
    requires
        p.len() >= 12,
        (p[0] / 16) % 2 == 1,
        p.len() >= 12 + (p[0] % 16) * 4 + 4 + be16(p, 12 + (p[0] % 16) * 4 + 2) * 4,
        ext_elements(p) == Some(n),
        n >= 0,
        n <= m < n + 4,
        m % 4 == 0,
    ensures
        rtp_parts_fit(p) <==> 12 + (p[0] % 16) * 4 + 4 + m <= p.len(),
{
    assert((n + 3) / 4 * 4 == m);
}

} // verus!
