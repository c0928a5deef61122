//! STUN messages (RFC 8489), as far as an ICE-Lite server needs them.
//!
//! A message is a header of 20 bytes (type, length of what follows, magic
//! cookie, transaction) and attributes, each with its type, its length and a value
//! that is padded to a multiple of four bytes.

use hmac::{Hmac, Mac};
use sha1::Sha1;
use vstd::prelude::*;
use vstd::slice::slice_subrange;
use vstd::utf8::{decode_utf8, encode_utf8, valid_utf8};

use crate::text::string_from_utf8;
use crate::transport::addr::SocketAddress;
use crate::wire::{
    be16, be16_bytes, be32, be32_bytes, bytes_eq, copy_bytes, lemma_be16_roundtrip,
    lemma_be32_roundtrip, push_all, push_u16, push_u32, read_u16, read_u32,
};

verus! {

pub const MAGIC_COOKIE: u32 = 0x2112_A442;

pub const HEADER_SIZE: usize = 20;

// --- message types ---
pub const BINDING_REQUEST: u16 = 0x0001;

pub const BINDING_RESPONSE: u16 = 0x0101;

pub const BINDING_ERROR_RESPONSE: u16 = 0x0111;

// --- attribute types ---
pub const ATTR_MAPPED_ADDRESS: u16 = 0x0001;

pub const ATTR_USERNAME: u16 = 0x0006;

pub const ATTR_MESSAGE_INTEGRITY: u16 = 0x0008;

pub const ATTR_XOR_MAPPED_ADDRESS: u16 = 0x0020;

pub const ATTR_PRIORITY: u16 = 0x0024;

pub const ATTR_USE_CANDIDATE: u16 = 0x0025;

pub const ATTR_ICE_CONTROLLED: u16 = 0x8029;

pub const ATTR_ICE_CONTROLLING: u16 = 0x802A;

pub const ATTR_FINGERPRINT: u16 = 0x8028;

pub const ATTR_SOFTWARE: u16 = 0x8022;

// --- address families ---
pub const ADDR_FAMILY_IPV4: u8 = 0x01;

pub const ADDR_FAMILY_IPV6: u8 = 0x02;

/// The upper half of the magic cookie.
pub const PORT_MASK: u16 = 0x2112;

/// What a fingerprint is combined with.
pub const FINGERPRINT_MASK: u32 = 0x5354_554E;

/// "light-livechat", by which the server names itself.
pub const SOFTWARE: [u8; 14] = [
    0x6C, 0x69, 0x67, 0x68, 0x74, 0x2D, 0x6C, 0x69, 0x76, 0x65, 0x63, 0x68, 0x61, 0x74,
];

// ---------------------------------------------------------------------------
// Messages
// ---------------------------------------------------------------------------

#[derive(Debug)]
pub struct StunMessage<'a> {
    pub msg_type: u16,
    pub length: u16,
    pub transaction_id: [u8; 12],
    pub attributes: Vec<StunAttribute<'a>>,
    /// The message itself, over which its integrity is computed.
    pub raw: &'a [u8],
}

#[derive(Debug)]
pub struct StunAttribute<'a> {
    pub attr_type: u16,
    pub value: &'a [u8],
}

/// An attribute: type and value.
pub type Attr = (u16, Seq<u8>);

/// What a message says.
#[verifier::ext_equal]
pub struct StunContent {
    pub msg_type: u16,
    pub length: u16,
    pub transaction_id: Seq<u8>,
    pub attributes: Seq<Attr>,
    pub raw: Seq<u8>,
}

pub open spec fn attrs_of(v: Seq<StunAttribute<'_>>) -> Seq<Attr> {
    v.map_values(|a: StunAttribute<'_>| (a.attr_type, a.value@))
}

impl<'a> View for StunMessage<'a> {
    type V = StunContent;

    open spec fn view(&self) -> StunContent {
        StunContent {
            msg_type: self.msg_type,
            length: self.length,
            transaction_id: self.transaction_id@,
            attributes: attrs_of(self.attributes@),
            raw: self.raw@,
        }
    }
}

/// A length, padded to a multiple of four.
pub open spec fn padded(n: int) -> int {
    (n + 3) / 4 * 4
}

/// The attributes from `offset` up to `total`; the first that does not fit ends
/// them.
pub open spec fn attrs_from(buf: Seq<u8>, offset: int, total: int) -> Seq<Attr>
    decreases (if total > offset { total - offset } else { 0 }),
{
    if offset + 4 > total {
        Seq::empty()
    } else {
        let len = be16(buf, offset + 2) as int;
        if offset + 4 + len > total {
            Seq::empty()
        } else {
            seq![(be16(buf, offset), buf.subrange(offset + 4, offset + 4 + len))] + attrs_from(
                buf,
                offset + 4 + padded(len),
                total,
            )
        }
    }
}

/// Whether a datagram is a STUN message: two zero bits, the cookie, and a length
/// that is a multiple of four and within the datagram.
pub open spec fn is_stun(buf: Seq<u8>) -> bool {
    &&& buf.len() >= HEADER_SIZE
    &&& buf[0] < 0x40
    &&& be32(buf, 4) == MAGIC_COOKIE
    &&& be16(buf, 2) % 4 == 0
    &&& buf.len() >= HEADER_SIZE + be16(buf, 2)
}

/// The message in a datagram.
pub open spec fn stun_content(buf: Seq<u8>) -> StunContent {
    let total = HEADER_SIZE + be16(buf, 2);
    StunContent {
        msg_type: be16(buf, 0),
        length: be16(buf, 2),
        transaction_id: buf.subrange(8, 20),
        attributes: attrs_from(buf, HEADER_SIZE as int, total),
        raw: buf.take(total),
    }
}

pub fn parse(buf: &[u8]) -> (r: Option<StunMessage<'_>>)
    ensures
        match r {
            Some(m) => is_stun(buf@) && m@ == stun_content(buf@),
            None => !is_stun(buf@),
        },
{
    if buf.len() < HEADER_SIZE {
        return None;
    }
    if buf[0] >= 0x40 {
        return None;
    }
    let msg_type: u16 = read_u16(buf, 0);
    let length: u16 = read_u16(buf, 2);
    let cookie: u32 = read_u32(buf, 4);
    if cookie != MAGIC_COOKIE {
        return None;
    }
    if length % 4 != 0 {
        return None;
    }
    let total_len: usize = HEADER_SIZE + length as usize;
    if buf.len() < total_len {
        return None;
    }
    let transaction_id: [u8; 12] = [
        buf[8], buf[9], buf[10], buf[11], buf[12], buf[13], buf[14], buf[15], buf[16], buf[17],
        buf[18], buf[19],
    ];
    assert(transaction_id@ =~= buf@.subrange(8, 20));
    let mut attributes: Vec<StunAttribute<'_>> = Vec::new();
    let mut offset: usize = HEADER_SIZE;
    let ghost all = attrs_from(buf@, HEADER_SIZE as int, total_len as int);
    assert(attrs_of(attributes@) + all =~= all);
    while offset + 4 <= total_len
        invariant_except_break
            attrs_of(attributes@) + attrs_from(buf@, offset as int, total_len as int) == all,
        invariant
            offset <= total_len + 3,
            total_len <= buf@.len(),
            total_len <= HEADER_SIZE + 0xFFFF,
        ensures
            attrs_of(attributes@) == all,
        decreases total_len + 4 - offset,
    {
        let attr_type: u16 = read_u16(buf, offset);
        let attr_len: usize = read_u16(buf, offset + 2) as usize;
        if offset + 4 + attr_len > total_len {
            assert(attrs_of(attributes@) + Seq::<Attr>::empty() =~= attrs_of(attributes@));
            break;
        }
        let value = slice_subrange(buf, offset + 4, offset + 4 + attr_len);
        let ghost before = attributes@;
        attributes.push(StunAttribute { attr_type, value });
        proof {
            let rest = attrs_from(
                buf@,
                offset + 4 + padded(attr_len as int),
                total_len as int,
            );
            let one = (attr_type, value@);
            assert(attrs_of(attributes@) =~= attrs_of(before).push(one));
            assert(attrs_of(attributes@) + rest =~= attrs_of(before) + (seq![one] + rest));
        }
        offset = offset + 4 + (attr_len + 3) / 4 * 4;
        if offset + 4 > total_len {
            assert(attrs_of(attributes@) + Seq::<Attr>::empty() =~= attrs_of(attributes@));
        }
    }
    Some(
        StunMessage {
            msg_type,
            length,
            transaction_id,
            attributes,
            raw: slice_subrange(buf, 0, total_len),
        },
    )
}

/// The place of the first attribute of a type.
pub open spec fn attr_place(attrs: Seq<Attr>, attr_type: u16) -> Option<int>
    decreases attrs.len(),
{
    if attrs.len() == 0 {
        None
    } else if attrs[0].0 == attr_type {
        Some(0)
    } else {
        match attr_place(attrs.drop_first(), attr_type) {
            Some(i) => Some(i + 1),
            None => None,
        }
    }
}

/// The value of the first attribute of a type.
pub open spec fn attr_value(attrs: Seq<Attr>, attr_type: u16) -> Option<Seq<u8>> {
    match attr_place(attrs, attr_type) {
        Some(i) => Some(attrs[i].1),
        None => None,
    }
}

impl<'a> StunMessage<'a> {
    /// The first attribute of a type.
    pub fn get_attr(&self, attr_type: u16) -> (r: Option<&StunAttribute<'a>>)
        ensures
            match r {
                Some(a) => a.attr_type == attr_type && attr_value(self@.attributes, attr_type)
                    == Some(a.value@),
                None => attr_value(self@.attributes, attr_type) is None,
            },
    {
        let n: usize = self.attributes.len();
        let ghost all = self@.attributes;
        let mut i: usize = 0;
        assert(all.skip(0) =~= all);
        while i < n
            invariant
                i <= n == self.attributes@.len(),
                all == self@.attributes,
                attr_place(all, attr_type) == (match attr_place(all.skip(i as int), attr_type) {
                    Some(k) => Some(k + i),
                    None => None,
                }),
            decreases n - i,
        {
            assert(all.skip(i as int).drop_first() =~= all.skip(i + 1));
            assert(all.skip(i as int)[0] == all[i as int]);
            if self.attributes[i].attr_type == attr_type {
                return Some(&self.attributes[i]);
            }
            i += 1;
        }
        None
    }

    /// The user name: "server:client", by which the ICE session is found.
    pub fn username(&self) -> (r: Option<String>)
        ensures
            match attr_value(self@.attributes, ATTR_USERNAME) {
                Some(v) => {
                    &&& r is Some <==> valid_utf8(v)
                    &&& r matches Some(s) ==> s@ == decode_utf8(v)
                },
                None => r is None,
            },
    {
        match self.get_attr(ATTR_USERNAME) {
            Some(a) => string_from_utf8(copy_bytes(a.value)),
            None => None,
        }
    }

    pub fn has_use_candidate(&self) -> (r: bool)
        ensures
            r == (attr_value(self@.attributes, ATTR_USE_CANDIDATE) is Some),
    {
        self.get_attr(ATTR_USE_CANDIDATE).is_some()
    }

    pub fn priority(&self) -> (r: Option<u32>)
        ensures
            r == (match attr_value(self@.attributes, ATTR_PRIORITY) {
                Some(v) => if v.len() == 4 {
                    Some(be32(v, 0))
                } else {
                    None
                },
                None => None,
            }),
    {
        match self.get_attr(ATTR_PRIORITY) {
            Some(a) => if a.value.len() == 4 {
                Some(read_u32(a.value, 0))
            } else {
                None
            },
            None => None,
        }
    }

    /// The HMAC that the message carries.
    pub fn message_integrity(&self) -> (r: Option<&[u8]>)
        ensures
            match r {
                Some(v) => attr_value(self@.attributes, ATTR_MESSAGE_INTEGRITY) == Some(v@),
                None => attr_value(self@.attributes, ATTR_MESSAGE_INTEGRITY) is None,
            },
    {
        match self.get_attr(ATTR_MESSAGE_INTEGRITY) {
            Some(a) => Some(a.value),
            None => None,
        }
    }
}

// ---------------------------------------------------------------------------
// Integrity
// ---------------------------------------------------------------------------

/// The HMAC-SHA1 of `data` under `key`.
pub uninterp spec fn hmac_sha1(key: Seq<u8>, data: Seq<u8>) -> Seq<u8>;

/// `hmac::Hmac<sha1::Sha1>`: the code of 20 bytes that key and data alone
/// determine. A key of any length is taken.
#[verifier::external_body]
pub(crate) fn compute_hmac_sha1(data: &[u8], key: &[u8]) -> (r: Vec<u8>)
    ensures
        r@ == hmac_sha1(key@, data@),
        r@.len() == 20,
{
    let mut mac = Hmac::<Sha1>::new_from_slice(key).expect("any key length is taken");
    mac.update(data);
    mac.finalize().into_bytes().to_vec()
}

/// The CRC-32 of `data`.
pub uninterp spec fn crc32(data: Seq<u8>) -> u32;

/// `crc32fast::hash`: the CRC-32 (IEEE) of the bytes.
#[verifier::external_body]
pub(crate) fn compute_crc32(data: &[u8]) -> (r: u32)
    ensures
        r == crc32(data@),
{
    crc32fast::hash(data)
}

/// Where the first attribute of a type starts, from `offset` on.
pub open spec fn attr_offset(raw: Seq<u8>, attr_type: u16, offset: int) -> Option<int>
    decreases (if raw.len() > offset { raw.len() - offset } else { 0 }),
{
    if offset < 0 || offset + 4 > raw.len() {
        None
    } else if be16(raw, offset) == attr_type {
        Some(offset)
    } else {
        attr_offset(raw, attr_type, offset + 4 + padded(be16(raw, offset + 2) as int))
    }
}

fn find_attr_offset(raw: &[u8], target_type: u16) -> (r: Option<usize>)
    ensures
        match r {
            Some(o) => attr_offset(raw@, target_type, HEADER_SIZE as int) == Some(o as int) && o >= HEADER_SIZE
                && o + 4 <= raw@.len(),
            None => attr_offset(raw@, target_type, HEADER_SIZE as int) is None,
        },
{
    let total: usize = raw.len();
    let mut offset: usize = HEADER_SIZE;
    while offset <= total && total - offset >= 4
        invariant
            offset >= HEADER_SIZE,
            total == raw@.len(),
            attr_offset(raw@, target_type, HEADER_SIZE as int) == attr_offset(
                raw@,
                target_type,
                offset as int,
            ),
        decreases (if total > offset { total - offset } else { 0 }),
    {
        if read_u16(raw, offset) == target_type {
            return Some(offset);
        }
        let attr_len: usize = read_u16(raw, offset + 2) as usize;
        let step: usize = 4 + (attr_len + 3) / 4 * 4;
        if total - offset < step {
            assert(attr_offset(raw@, target_type, offset + step) is None);
            return None;
        }
        offset = offset + step;
    }
    None
}

/// A header.
pub open spec fn stun_header(msg_type: u16, length: u16, transaction_id: Seq<u8>) -> Seq<u8> {
    be16_bytes(msg_type) + be16_bytes(length) + be32_bytes(MAGIC_COOKIE) + transaction_id
}

/// A message cut off at `end`, with the length that it would have if it ended
/// with an integrity attribute there.
pub open spec fn signed_part(raw: Seq<u8>, end: int) -> Seq<u8> {
    raw.take(2) + be16_bytes(((end + 4) % 0x1_0000) as u16) + raw.subrange(4, end)
}

/// Whether the integrity attribute of a message is the HMAC under `key`.
pub open spec fn integrity_holds(m: StunContent, key: Seq<u8>) -> bool {
    match (attr_value(m.attributes, ATTR_MESSAGE_INTEGRITY), attr_offset(
        m.raw,
        ATTR_MESSAGE_INTEGRITY,
        HEADER_SIZE as int,
    )) {
        (Some(code), Some(at)) => code == hmac_sha1(key, signed_part(m.raw, at)),
        _ => false,
    }
}

pub fn verify_message_integrity(msg: &StunMessage<'_>, key: &[u8]) -> (r: bool)
    ensures
        r == integrity_holds(msg@, key@),
{
    let received = match msg.message_integrity() {
        Some(v) => v,
        None => {
            return false;
        },
    };
    let at: usize = match find_attr_offset(msg.raw, ATTR_MESSAGE_INTEGRITY) {
        Some(o) => o,
        None => {
            return false;
        },
    };
    let n: usize = msg.raw.len();
    assert(at + 4 <= n);
    let mut signed: Vec<u8> = copy_bytes(slice_subrange(msg.raw, 0, 2));
    push_u16(&mut signed, ((at + 4) % 0x1_0000) as u16);
    push_all(&mut signed, slice_subrange(msg.raw, 4, at));
    assert(signed@ =~= signed_part(msg.raw@, at as int));
    let expected = compute_hmac_sha1(&signed, key);
    bytes_eq(&expected, received)
}

/// The key of an ICE session: the password.
pub fn ice_integrity_key(password: &str) -> (r: Vec<u8>)
    ensures
        r@ == encode_utf8(password@),
{
    copy_bytes(password.as_bytes())
}

// ---------------------------------------------------------------------------
// Responses
// ---------------------------------------------------------------------------

/// An attribute as it stands in a message.
pub open spec fn attr_bytes(attr_type: u16, value: Seq<u8>) -> Seq<u8> {
    be16_bytes(attr_type) + be16_bytes(value.len() as u16) + value + Seq::new(
        (padded(value.len() as int) - value.len()) as nat,
        |i: int| 0u8,
    )
}

fn write_attr(buf: &mut Vec<u8>, attr_type: u16, value: &[u8])
    requires
        value@.len() <= 0xFFFF,
    ensures
        final(buf)@ == old(buf)@ + attr_bytes(attr_type, value@),
{
    let n: usize = value.len();
    push_u16(buf, attr_type);
    push_u16(buf, n as u16);
    push_all(buf, value);
    let ghost start = buf@;
    let padding: usize = (4 - n % 4) % 4;
    let mut i: usize = 0;
    while i < padding
        invariant
            i <= padding,
            buf@ == start + Seq::new(i as nat, |k: int| 0u8),
        decreases padding - i,
    {
        buf.push(0);
        i += 1;
        assert(buf@ =~= start + Seq::new(i as nat, |k: int| 0u8));
    }
    assert(padding == padded(n as int) - n);
    assert(buf@ =~= old(buf)@ + attr_bytes(attr_type, value@));
}

/// The last `n` bytes of a number, most significant first.
pub open spec fn be_bytes(x: nat, n: nat) -> Seq<u8>
    decreases n,
{
    if n == 0 {
        Seq::empty()
    } else {
        be_bytes(x / 0x100, (n - 1) as nat).push((x % 0x100) as u8)
    }
}

fn bytes_of(x: u128, n: usize) -> (r: Vec<u8>)
    ensures
        r@ == be_bytes(x as nat, n as nat),
        r@.len() == n,
    decreases n,
{
    if n == 0 {
        Vec::new()
    } else {
        let mut v = bytes_of(x / 0x100, n - 1);
        v.push((x % 0x100) as u8);
        v
    }
}

/// `s` combined bit by bit with `mask`.
pub open spec fn xored(s: Seq<u8>, mask: Seq<u8>) -> Seq<u8> {
    Seq::new(s.len(), |i: int| s[i] ^ mask[i])
}

fn push_xored(buf: &mut Vec<u8>, s: &Vec<u8>, mask: &Vec<u8>)
    requires
        s@.len() <= mask@.len(),
    ensures
        final(buf)@ == old(buf)@ + xored(s@, mask@),
{
    let mut i: usize = 0;
    while i < s.len()
        invariant
            i <= s@.len() <= mask@.len(),
            buf@ == old(buf)@ + xored(s@, mask@).take(i as int),
        decreases s@.len() - i,
    {
        buf.push(s[i] ^ mask[i]);
        i += 1;
        assert(buf@ =~= old(buf)@ + xored(s@, mask@).take(i as int));
    }
    assert(buf@ =~= old(buf)@ + xored(s@, mask@));
}

/// The value of an XOR-MAPPED-ADDRESS: family, port and address, combined with
/// the cookie and, for the longer addresses, the transaction.
pub open spec fn xor_mapped(addr: SocketAddress, transaction_id: Seq<u8>) -> Seq<u8> {
    match addr {
        SocketAddress::V4 { ip, port } => seq![0u8, ADDR_FAMILY_IPV4] + be16_bytes(port ^ PORT_MASK)
            + xored(be_bytes(ip as nat, 4), be32_bytes(MAGIC_COOKIE)),
        SocketAddress::V6 { ip6, port, .. } => seq![0u8, ADDR_FAMILY_IPV6] + be16_bytes(
            port ^ PORT_MASK,
        ) + xored(be_bytes(ip6 as nat, 16), be32_bytes(MAGIC_COOKIE) + transaction_id),
    }
}

pub fn encode_xor_mapped_address(addr: SocketAddress, transaction_id: &[u8; 12]) -> (r: Vec<u8>)
    ensures
        r@ == xor_mapped(addr, transaction_id@),
{
    let mut buf: Vec<u8> = Vec::new();
    let mut mask: Vec<u8> = Vec::new();
    push_u32(&mut mask, MAGIC_COOKIE);
    assert(mask@ =~= be32_bytes(MAGIC_COOKIE));
    buf.push(0);
    match addr {
        SocketAddress::V4 { ip, port } => {
            buf.push(ADDR_FAMILY_IPV4);
            push_u16(&mut buf, port ^ PORT_MASK);
            let bytes = bytes_of(ip as u128, 4);
            push_xored(&mut buf, &bytes, &mask);
        },
        SocketAddress::V6 { ip6, port, .. } => {
            buf.push(ADDR_FAMILY_IPV6);
            push_u16(&mut buf, port ^ PORT_MASK);
            let bytes = bytes_of(ip6, 16);
            push_all(&mut mask, transaction_id);
            push_xored(&mut buf, &bytes, &mask);
        },
    }
    assert(buf@ =~= xor_mapped(addr, transaction_id@));
    buf
}

/// The attributes of a response up to its integrity attribute.
pub open spec fn response_body(addr: SocketAddress, transaction_id: Seq<u8>) -> Seq<u8> {
    attr_bytes(ATTR_XOR_MAPPED_ADDRESS, xor_mapped(addr, transaction_id)) + attr_bytes(
        ATTR_SOFTWARE,
        SOFTWARE@,
    )
}

/// The attributes of a response up to its fingerprint. The HMAC is that of the
/// message so far, with the length that the integrity attribute gives it.
pub open spec fn response_signed(addr: SocketAddress, transaction_id: Seq<u8>, key: Seq<u8>) -> Seq<
    u8,
> {
    let body = response_body(addr, transaction_id);
    body + attr_bytes(
        ATTR_MESSAGE_INTEGRITY,
        hmac_sha1(
            key,
            stun_header(BINDING_RESPONSE, (body.len() + 24) as u16, transaction_id) + body,
        ),
    )
}

/// The response to a binding request. The fingerprint is that of the message so
/// far, with its full length.
pub open spec fn binding_response(addr: SocketAddress, transaction_id: Seq<u8>, key: Seq<u8>) -> Seq<
    u8,
> {
    let signed = response_signed(addr, transaction_id, key);
    let head = stun_header(BINDING_RESPONSE, (signed.len() + 8) as u16, transaction_id);
    head + signed + attr_bytes(
        ATTR_FINGERPRINT,
        be32_bytes(crc32(head + signed) ^ FINGERPRINT_MASK),
    )
}

fn push_header(out: &mut Vec<u8>, msg_type: u16, length: u16, transaction_id: &[u8; 12])
    ensures
        final(out)@ == old(out)@ + stun_header(msg_type, length, transaction_id@),
{
    push_u16(out, msg_type);
    push_u16(out, length);
    push_u32(out, MAGIC_COOKIE);
    push_all(out, transaction_id);
    assert(out@ =~= old(out)@ + stun_header(msg_type, length, transaction_id@));
}

proof fn lemma_be_bytes_len(x: nat, n: nat)
    ensures
        be_bytes(x, n).len() == n,
    decreases n,
{
    if n > 0 {
        lemma_be_bytes_len(x / 0x100, (n - 1) as nat);
    }
}

proof fn lemma_mapped_len(addr: SocketAddress, transaction_id: Seq<u8>)
    ensures
        xor_mapped(addr, transaction_id).len() == (if addr is V4 { 8int } else { 20int }),
{
    match addr {
        SocketAddress::V4 { ip, .. } => lemma_be_bytes_len(ip as nat, 4),
        SocketAddress::V6 { ip6, .. } => lemma_be_bytes_len(ip6 as nat, 16),
    }
}

/// Builds the response to a binding request. It is itself a message that reads
/// back what was put in, and its integrity holds under the key that it was made
/// with, whatever the address, the transaction and the key.
pub fn build_binding_response(
    transaction_id: &[u8; 12],
    remote_addr: SocketAddress,
    integrity_key: &[u8],
) -> (r: Vec<u8>)
    ensures
        r@ == binding_response(remote_addr, transaction_id@, integrity_key@),
        response_reads_back(remote_addr, transaction_id@, integrity_key@),
{
    proof {
        lemma_mapped_len(remote_addr, transaction_id@);
    }
    let mapped = encode_xor_mapped_address(remote_addr, transaction_id);
    let software: [u8; 14] = SOFTWARE;
    let mut signed: Vec<u8> = Vec::new();
    write_attr(&mut signed, ATTR_XOR_MAPPED_ADDRESS, &mapped);
    write_attr(&mut signed, ATTR_SOFTWARE, &software);
    assert(signed@ =~= response_body(remote_addr, transaction_id@));
    let mut so_far: Vec<u8> = Vec::new();
    push_header(&mut so_far, BINDING_RESPONSE, (signed.len() + 24) as u16, transaction_id);
    push_all(&mut so_far, &signed);
    assert(so_far@ =~= stun_header(
        BINDING_RESPONSE,
        (signed@.len() + 24) as u16,
        transaction_id@,
    ) + signed@);
    let code = compute_hmac_sha1(&so_far, integrity_key);
    write_attr(&mut signed, ATTR_MESSAGE_INTEGRITY, &code);
    assert(signed@ =~= response_signed(remote_addr, transaction_id@, integrity_key@));
    let mut out: Vec<u8> = Vec::new();
    push_header(&mut out, BINDING_RESPONSE, (signed.len() + 8) as u16, transaction_id);
    push_all(&mut out, &signed);
    let ghost so_far = stun_header(
        BINDING_RESPONSE,
        (signed@.len() + 8) as u16,
        transaction_id@,
    ) + signed@;
    assert(out@ =~= so_far);
    let mut fingerprint: Vec<u8> = Vec::new();
    push_u32(&mut fingerprint, compute_crc32(&out) ^ FINGERPRINT_MASK);
    assert(fingerprint@ =~= be32_bytes(crc32(so_far) ^ FINGERPRINT_MASK));
    write_attr(&mut out, ATTR_FINGERPRINT, &fingerprint);
    assert(out@ =~= binding_response(remote_addr, transaction_id@, integrity_key@));
    proof {
        lemma_response_reads_back(remote_addr, transaction_id@, integrity_key@);
    }
    out
}

// ---------------------------------------------------------------------------
// Laws
// ---------------------------------------------------------------------------

/// An attribute is read back where it was written.
proof fn lemma_attr_at(buf: Seq<u8>, offset: int, total: int, t: u16, v: Seq<u8>)
    requires
        v.len() <= 0xFFFF,
        0 <= offset,
        offset + 4 + padded(v.len() as int) <= total <= buf.len(),
        buf.subrange(offset, offset + 4 + padded(v.len() as int)) == attr_bytes(t, v),
    ensures
        attrs_from(buf, offset, total) == seq![(t, v)] + attrs_from(
            buf,
            offset + 4 + padded(v.len() as int),
            total,
        ),
        be16(buf, offset) == t,
        be16(buf, offset + 2) == v.len(),
        buf.subrange(offset + 4, offset + 4 + v.len()) == v,
{
    let part = buf.subrange(offset, offset + 4 + padded(v.len() as int));
    assert(buf.subrange(offset, offset + 2) =~= part.subrange(0, 2));
    assert(part.subrange(0, 2) =~= be16_bytes(t));
    lemma_be16_roundtrip(buf, offset, t);
    assert(buf.subrange(offset + 2, offset + 4) =~= part.subrange(2, 4));
    assert(part.subrange(2, 4) =~= be16_bytes(v.len() as u16));
    lemma_be16_roundtrip(buf, offset + 2, v.len() as u16);
    assert(buf.subrange(offset + 4, offset + 4 + v.len()) =~= part.subrange(4, v.len() + 4int));
    assert(part.subrange(4, v.len() + 4int) =~= v);
}

/// The four attributes of a response.
pub open spec fn response_attrs(addr: SocketAddress, transaction_id: Seq<u8>, key: Seq<u8>) -> Seq<Attr> {
    let body = response_body(addr, transaction_id);
    let signed = response_signed(addr, transaction_id, key);
    let head = stun_header(BINDING_RESPONSE, (signed.len() + 8) as u16, transaction_id);
    seq![
        (ATTR_XOR_MAPPED_ADDRESS, xor_mapped(addr, transaction_id)),
        (ATTR_SOFTWARE, SOFTWARE@),
        (
            ATTR_MESSAGE_INTEGRITY,
            hmac_sha1(
                key,
                stun_header(BINDING_RESPONSE, (body.len() + 24) as u16, transaction_id) + body,
            ),
        ),
        (ATTR_FINGERPRINT, be32_bytes(crc32(head + signed) ^ FINGERPRINT_MASK)),
    ]
}

/// What is read out of a response is what was put in.
pub open spec fn response_reads_back(addr: SocketAddress, transaction_id: Seq<u8>, key: Seq<u8>) -> bool {
    let r = binding_response(addr, transaction_id, key);
    let m = stun_content(r);
    &&& is_stun(r)
    &&& m.msg_type == BINDING_RESPONSE
    &&& m.transaction_id == transaction_id
    &&& m.raw == r
    &&& m.attributes == response_attrs(addr, transaction_id, key)
    &&& integrity_holds(m, key)
}

proof fn lemma_response_reads_back(addr: SocketAddress, transaction_id: Seq<u8>, key: Seq<u8>)
    requires
        transaction_id.len() == 12,
        hmac_sha1(
            key,
            stun_header(
                BINDING_RESPONSE,
                (response_body(addr, transaction_id).len() + 24) as u16,
                transaction_id,
            ) + response_body(addr, transaction_id),
        ).len() == 20,
    ensures
        response_reads_back(addr, transaction_id, key),
{
    lemma_mapped_len(addr, transaction_id);
    let mapped = xor_mapped(addr, transaction_id);
    let body = response_body(addr, transaction_id);
    let signed = response_signed(addr, transaction_id, key);
    let r = binding_response(addr, transaction_id, key);
    let length = (signed.len() + 8) as u16;
    let head = stun_header(BINDING_RESPONSE, length, transaction_id);
    let short = stun_header(BINDING_RESPONSE, (body.len() + 24) as u16, transaction_id);
    let code = hmac_sha1(key, short + body);
    let print = be32_bytes(crc32(head + signed) ^ FINGERPRINT_MASK);
    let x = attr_bytes(ATTR_XOR_MAPPED_ADDRESS, mapped);
    let s = attr_bytes(ATTR_SOFTWARE, SOFTWARE@);
    let i = attr_bytes(ATTR_MESSAGE_INTEGRITY, code);
    let f = attr_bytes(ATTR_FINGERPRINT, print);
    assert(SOFTWARE@.len() == 14);
    assert(x.len() == 4 + mapped.len() && s.len() == 20 && i.len() == 24 && f.len() == 8);
    assert(r =~= head + x + s + i + f);
    let total = r.len() as int;
    let a1 = 20 + x.len() as int;
    let a2 = a1 + 20;
    let a3 = a2 + 24;
    assert(total == a3 + 8);
    assert(r.subrange(0, 2) =~= be16_bytes(BINDING_RESPONSE));
    lemma_be16_roundtrip(r, 0, BINDING_RESPONSE);
    assert(r.subrange(2, 4) =~= be16_bytes(length));
    lemma_be16_roundtrip(r, 2, length);
    assert(r.subrange(4, 8) =~= be32_bytes(MAGIC_COOKIE));
    lemma_be32_roundtrip(r, 4, MAGIC_COOKIE);
    assert(r.subrange(8, 20) =~= transaction_id);
    assert(r.take(total) =~= r);
    assert(r[0] == be16_bytes(BINDING_RESPONSE)[0]);
    assert(r.subrange(20, a1) =~= x);
    assert(r.subrange(a1, a2) =~= s);
    assert(r.subrange(a2, a3) =~= i);
    assert(r.subrange(a3, total) =~= f);
    lemma_attr_at(r, 20, total, ATTR_XOR_MAPPED_ADDRESS, mapped);
    lemma_attr_at(r, a1, total, ATTR_SOFTWARE, SOFTWARE@);
    lemma_attr_at(r, a2, total, ATTR_MESSAGE_INTEGRITY, code);
    lemma_attr_at(r, a3, total, ATTR_FINGERPRINT, print);
    let attrs = attrs_from(r, 20, total);
    let expected = response_attrs(addr, transaction_id, key);
    assert(attrs_from(r, total, total) =~= Seq::empty());
    assert(attrs =~= expected);
    assert(attr_offset(r, ATTR_MESSAGE_INTEGRITY, a2) == Some(a2));
    assert(attr_offset(r, ATTR_MESSAGE_INTEGRITY, a1) == Some(a2));
    assert(attr_offset(r, ATTR_MESSAGE_INTEGRITY, 20) == Some(a2));
    assert(attrs.drop_first().drop_first()[0] == attrs[2]);
    assert(attr_place(attrs.drop_first().drop_first(), ATTR_MESSAGE_INTEGRITY) == Some(0int));
    assert(attrs.drop_first()[0] == attrs[1]);
    assert(attr_place(attrs.drop_first(), ATTR_MESSAGE_INTEGRITY) == Some(1int));
    assert(attr_place(attrs, ATTR_MESSAGE_INTEGRITY) == Some(2int));
    assert(signed_part(r, a2) =~= short + body);
}

proof fn lemma_xor_twice_u8(a: u8, b: u8)
    ensures
        (a ^ b) ^ b == a,
{
    assert((a ^ b) ^ b == a) by (bit_vector);
}

proof fn lemma_xor_twice_u16(a: u16, b: u16)
    ensures
        (a ^ b) ^ b == a,
{
    assert((a ^ b) ^ b == a) by (bit_vector);
}

/// A client finds its own port and address in a response: combining once more
/// with the same masks gives them back.
pub proof fn law_mapped_address_reads_back(addr: SocketAddress, transaction_id: Seq<u8>)
    requires
        transaction_id.len() == 12,
    ensures
        ({
            let v = xor_mapped(addr, transaction_id);
            let rest = v.subrange(4, v.len() as int);
            &&& v.len() >= 4
            &&& match addr {
                SocketAddress::V4 { ip, port } => {
                    &&& v[1] == ADDR_FAMILY_IPV4
                    &&& be16(v, 2) ^ PORT_MASK == port
                    &&& xored(rest, be32_bytes(MAGIC_COOKIE)) == be_bytes(ip as nat, 4)
                },
                SocketAddress::V6 { ip6, port, .. } => {
                    &&& v[1] == ADDR_FAMILY_IPV6
                    &&& be16(v, 2) ^ PORT_MASK == port
                    &&& xored(rest, be32_bytes(MAGIC_COOKIE) + transaction_id) == be_bytes(
                        ip6 as nat,
                        16,
                    )
                },
            }
        }),
{
    lemma_mapped_len(addr, transaction_id);
    let v = xor_mapped(addr, transaction_id);
    let rest = v.subrange(4, v.len() as int);
    let (port, bytes, mask) = match addr {
        SocketAddress::V4 { ip, port } => (port, be_bytes(ip as nat, 4), be32_bytes(MAGIC_COOKIE)),
        SocketAddress::V6 { ip6, port, .. } => (
            port,
            be_bytes(ip6 as nat, 16),
            be32_bytes(MAGIC_COOKIE) + transaction_id,
        ),
    };
    assert(v.subrange(2, 4) =~= be16_bytes(port ^ PORT_MASK));
    lemma_be16_roundtrip(v, 2, port ^ PORT_MASK);
    lemma_xor_twice_u16(port, PORT_MASK);
    assert(rest =~= xored(bytes, mask));
    assert forall|i: int| 0 <= i < bytes.len() implies #[trigger] xored(rest, mask)[i] == bytes[i] by {
        lemma_xor_twice_u8(bytes[i], mask[i]);
    }
    assert(xored(rest, mask) =~= bytes);
}

} // verus!
