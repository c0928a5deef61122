//! Encryption of media: SRTP and SRTCP with the profile
//! AES_CM_128_HMAC_SHA1_80, a master key of 16 bytes and a master salt of 14.

use vstd::prelude::*;

use crate::text::{owned, push_str, string_of};
use crate::wire::{be16, be32, read_u16};

verus! {

// ---------------------------------------------------------------------------
// RTP headers as the cipher reads them
// ---------------------------------------------------------------------------

/// Where the fixed header and the contributing sources of a packet end.
pub open spec fn rtp_csrc_end(p: Seq<u8>) -> int {
    12 + (p[0] % 16) * 4
}

pub open spec fn rtp_has_ext(p: Seq<u8>) -> bool {
    p[0] / 16 % 2 == 1
}

/// Whether a packet is long enough for the header that it announces.
pub open spec fn rtp_header_whole(p: Seq<u8>) -> bool {
    &&& 12 <= p.len()
    &&& rtp_csrc_end(p) <= p.len()
    &&& rtp_has_ext(p) ==> rtp_csrc_end(p) + 4 <= p.len() && rtp_header_end(p) <= p.len()
}

/// Where the header of a packet ends, extension included.
pub open spec fn rtp_header_end(p: Seq<u8>) -> int {
    if rtp_has_ext(p) {
        rtp_csrc_end(p) + 4 + be16(p, rtp_csrc_end(p) + 2) * 4
    } else {
        rtp_csrc_end(p)
    }
}

/// The bytes that the elements of a one-byte header extension (RFC 8285) take
/// from `pos` up to `end` or the reserved identifier; none where an element
/// reaches behind the end of the packet.
pub open spec fn one_byte_elements(p: Seq<u8>, pos: int, end: int) -> Option<int>
    decreases end - pos,
{
    if pos >= end {
        Some(0)
    } else if p[pos] == 0 {
        match one_byte_elements(p, pos + 1, end) {
            Some(n) => Some(1 + n),
            None => None,
        }
    } else if p[pos] / 16 == 15 {
        Some(0)
    } else if pos + 2 + p[pos] % 16 > p.len() {
        None
    } else if pos + 2 + p[pos] % 16 > end {
        Some(2 + p[pos] % 16)
    } else {
        match one_byte_elements(p, pos + 2 + p[pos] % 16, end) {
            Some(n) => Some(2 + p[pos] % 16 + n),
            None => None,
        }
    }
}

/// The same of a two-byte header extension.
pub open spec fn two_byte_elements(p: Seq<u8>, pos: int, end: int) -> Option<int>
    decreases end - pos,
{
    if pos >= end {
        Some(0)
    } else if p[pos] == 0 {
        match two_byte_elements(p, pos + 1, end) {
            Some(n) => Some(1 + n),
            None => None,
        }
    } else if pos + 1 >= p.len() || pos + 2 + p[pos + 1] > p.len() {
        None
    } else if pos + 2 + p[pos + 1] > end {
        Some(2 + p[pos + 1] as int)
    } else {
        match two_byte_elements(p, pos + 2 + p[pos + 1], end) {
            Some(n) => Some(2 + p[pos + 1] + n),
            None => None,
        }
    }
}

/// The bytes that the elements of a packet's header extension take.
pub open spec fn ext_elements(p: Seq<u8>) -> Option<int> {
    let at = rtp_csrc_end(p) + 4;
    let end = rtp_header_end(p);
    if be16(p, rtp_csrc_end(p)) == 0xBEDE {
        one_byte_elements(p, at, end)
    } else if be16(p, rtp_csrc_end(p)) == 0x1000 {
        two_byte_elements(p, at, end)
    } else {
        Some(end - at)
    }
}

/// Whether no element of the header extension reaches behind the end of the
/// packet.
pub open spec fn rtp_elements_fit(p: Seq<u8>) -> bool {
    rtp_header_whole(p) && rtp_has_ext(p) ==> ext_elements(p) is Some
}

/// The length of the header as the sum of its parts.
pub open spec fn rtp_parts_len(p: Seq<u8>) -> int {
    if rtp_has_ext(p) {
        rtp_csrc_end(p) + 4 + (ext_elements(p)->0 + 3) / 4 * 4
    } else {
        rtp_csrc_end(p)
    }
}

/// Whether the parts of the header fit into the packet.
pub open spec fn rtp_parts_fit(p: Seq<u8>) -> bool {
    rtp_elements_fit(p) && (rtp_header_whole(p) ==> rtp_parts_len(p) <= p.len())
}

fn measure_one_byte(p: &[u8], at: usize, end: usize) -> (r: Option<usize>)
    requires
        at <= end <= p@.len(),
    ensures
        match r {
            Some(n) => one_byte_elements(p@, at as int, end as int) == Some(n as int) && n <= p@.len() - at,
            None => one_byte_elements(p@, at as int, end as int) is None,
        },
    decreases end - at,
{
    if at >= end {
        return Some(0);
    }
    let b: u8 = p[at];
    let size: usize = if b == 0 { 1 } else { 2 + (b % 16) as usize };
    if b / 16 == 15 {
        return Some(0);
    }
    if size > p.len() - at {
        return None;
    }
    if size > end - at {
        return Some(size);
    }
    match measure_one_byte(p, at + size, end) {
        Some(n) => Some(size + n),
        None => None,
    }
}

fn measure_two_byte(p: &[u8], at: usize, end: usize) -> (r: Option<usize>)
    requires
        at <= end <= p@.len(),
    ensures
        match r {
            Some(n) => two_byte_elements(p@, at as int, end as int) == Some(n as int) && n <= p@.len() - at,
            None => two_byte_elements(p@, at as int, end as int) is None,
        },
    decreases end - at,
{
    if at >= end {
        return Some(0);
    }
    let mut size: usize = 1;
    if p[at] != 0 {
        if p.len() - at <= 1 {
            return None;
        }
        size = 2 + p[at + 1] as usize;
    }
    if size > p.len() - at {
        return None;
    }
    if size > end - at {
        return Some(size);
    }
    match measure_two_byte(p, at + size, end) {
        Some(n) => Some(size + n),
        None => None,
    }
}

/// Where the elements of the header extension begin and how many bytes they
/// take, where the packet holds the header; the inner option is empty where one
/// of them reaches behind the packet.
fn measure_header(p: &[u8]) -> (r: Option<Option<(usize, usize)>>)
    ensures
        r is Some <==> rtp_header_whole(p@),
        r matches Some(m) ==> (m is Some <==> rtp_elements_fit(p@)),
        r matches Some(Some((at, k))) ==> at <= p@.len() && at + (k + 3) / 4 * 4 == rtp_parts_len(p@),
{
    let n: usize = p.len();
    if n < 12 {
        return None;
    }
    let fixed: usize = 12 + (p[0] % 16) as usize * 4;
    if n < fixed {
        return None;
    }
    if p[0] / 16 % 2 != 1 {
        return Some(Some((fixed, 0)));
    }
    if n - fixed < 4 {
        return None;
    }
    let ext_len: usize = read_u16(p, fixed + 2) as usize * 4;
    if n - fixed - 4 < ext_len {
        return None;
    }
    let at: usize = fixed + 4;
    let profile: u16 = read_u16(p, fixed);
    let inner: Option<usize> = if profile == 0xBEDE {
        measure_one_byte(p, at, at + ext_len)
    } else if profile == 0x1000 {
        measure_two_byte(p, at, at + ext_len)
    } else {
        Some(ext_len)
    };
    match inner {
        Some(k) => Some(Some((at, k))),
        None => Some(None),
    }
}

/// Whether a packet can be handed to `decrypt_rtp`.
pub fn can_decrypt_rtp(p: &[u8]) -> (r: bool)
    ensures
        r == rtp_elements_fit(p@),
{
    match measure_header(p) {
        None => true,
        Some(None) => false,
        Some(Some(_)) => true,
    }
}

/// Whether a packet can be handed to `encrypt_rtp`.
pub fn can_encrypt_rtp(p: &[u8]) -> (r: bool)
    ensures
        r == rtp_parts_fit(p@),
{
    match measure_header(p) {
        None => true,
        Some(None) => false,
        Some(Some((at, k))) => k <= (p.len() - at) / 4 * 4,
    }
}

/// Whether a packet can be handed to `decrypt_rtcp`.
pub fn can_decrypt_rtcp(p: &[u8]) -> (r: bool)
    ensures
        r == rtcp_trailer_fits(p@),
{
    !(p.len() >= 4 && p[0] / 64 == 2) || p.len() >= 14
}

// ---------------------------------------------------------------------------
// The cipher context
// ---------------------------------------------------------------------------

/// `webrtc_srtp::context::Context`: the keys of one direction, and for each SSRC
/// how far its packets have been counted.
#[verifier::external_type_specification]
#[verifier::external_body]
pub struct ExContext(webrtc_srtp::context::Context);

/// The master key of a context, then its master salt.
pub uninterp spec fn srtp_secret(c: webrtc_srtp::context::Context) -> Seq<u8>;

/// The packet index of each SSRC whose RTP a context has processed.
pub uninterp spec fn rtp_indices(c: webrtc_srtp::context::Context) -> Map<u32, u64>;

/// The packet index of each SSRC whose RTCP a context has encrypted.
pub uninterp spec fn rtcp_indices(c: webrtc_srtp::context::Context) -> Map<u32, u64>;

/// The packet index of a stream after a packet with the given sequence number: the
/// number itself at first, and from then on the index nearest to the last one whose
/// lower half is the number (RFC 3711), though in the first half of the first turn
/// no number is taken for one of the turn before.
pub open spec fn srtp_advance(prior: Option<u64>, seq: u16) -> u64 {
    match prior {
        None => seq as u64,
        Some(i) => {
            let last = i % 0x1_0000;
            let turn: int = if i <= 0x8000 {
                0
            } else if last < 0x8000 && seq - last > 0x8000 {
                -0x1_0000
            } else if last >= 0x8000 && last - 0x8000 > seq {
                0x1_0000
            } else {
                0
            };
            ((i + seq - last + turn) % 0x1_0000_0000_0000_0000) as u64
        },
    }
}

/// What encrypting an RTP packet gives: the bytes, or the text of the error.
pub uninterp spec fn srtp_sealed(secret: Seq<u8>, prior: Option<u64>, packet: Seq<u8>) -> Result<
    Seq<u8>,
    Seq<char>,
>;

/// What decrypting an SRTP packet gives: the bytes, or the text of the error.
pub uninterp spec fn srtp_opened(secret: Seq<u8>, prior: Option<u64>, packet: Seq<u8>) -> Result<
    Seq<u8>,
    Seq<char>,
>;

/// What encrypting an RTCP packet under a packet index gives.
pub uninterp spec fn srtcp_sealed(secret: Seq<u8>, index: u64, packet: Seq<u8>) -> Result<
    Seq<u8>,
    Seq<char>,
>;

/// What decrypting an SRTCP packet gives.
pub uninterp spec fn srtcp_opened(secret: Seq<u8>, packet: Seq<u8>) -> Result<Seq<u8>, Seq<char>>;

/// What a map holds at a key.
pub open spec fn index_of(m: Map<u32, u64>, ssrc: u32) -> Option<u64> {
    if m.dom().contains(ssrc) {
        Some(m[ssrc])
    } else {
        None
    }
}

/// The index after `prior` in the count of RTCP packets.
pub open spec fn rtcp_next(prior: Option<u64>) -> u64 {
    match prior {
        Some(i) => if i >= 0x7FFF_FFFF { 0 } else { (i + 1) as u64 },
        None => 1,
    }
}

/// Bytes or the text of an error.
pub open spec fn outcome(r: Result<Vec<u8>, String>) -> Result<Seq<u8>, Seq<char>> {
    match r {
        Ok(b) => Ok(b@),
        Err(e) => Err(e@),
    }
}

/// No stream has been counted yet.
pub open spec fn no_indices() -> Map<u32, u64> {
    Map::empty()
}

pub open spec fn opens_to(b: Seq<u8>) -> Result<Seq<u8>, Seq<char>> {
    Ok(b)
}

pub open spec fn fails_with(text: Seq<char>) -> Result<Seq<u8>, Seq<char>> {
    Err(text)
}

/// `Context::new` with the profile AES_CM_128_HMAC_SHA1_80 and no replay
/// protection: a context that has seen no packet, for keys of the right length.
#[verifier::external_body]
fn context_new(key: &[u8], salt: &[u8]) -> (r: Option<webrtc_srtp::context::Context>)
    ensures
        r is Some <==> (key@.len() == 16 && salt@.len() == 14),
        r matches Some(c) ==> srtp_secret(c) == key@ + salt@ && rtp_indices(c) == no_indices()
            && rtcp_indices(c) == no_indices(),
{
    webrtc_srtp::context::Context::new(
        key,
        salt,
        webrtc_srtp::protection_profile::ProtectionProfile::Aes128CmHmacSha1_80,
        None,
        None,
    ).ok()
}

/// `Context::encrypt_rtp`. The result is a function of the keys, the index of the
/// packet's SSRC and the packet; it panics on a header whose parts do not fit
/// into the packet, and fails on one that is cut off. A packet that was
/// encrypted is ten bytes longer, its index has advanced, and a context with the
/// same keys and the same index decrypts it, provided that the elements of the
/// header extension fill it.
#[verifier::external_body]
fn context_encrypt_rtp(c: &mut webrtc_srtp::context::Context, packet: &[u8]) -> (r: Result<
    Vec<u8>,
    String,
>)
    requires
        rtp_parts_fit(packet@),
    ensures
        outcome(r) == srtp_sealed(
            srtp_secret(*old(c)),
            index_of(rtp_indices(*old(c)), be32(packet@, 8)),
            packet@,
        ),
        srtp_secret(*final(c)) == srtp_secret(*old(c)),
        rtcp_indices(*final(c)) == rtcp_indices(*old(c)),
        r is Ok ==> rtp_indices(*final(c)) == rtp_indices(*old(c)).insert(
            be32(packet@, 8),
            srtp_advance(index_of(rtp_indices(*old(c)), be32(packet@, 8)), be16(packet@, 2)),
        ),
        r is Err ==> rtp_indices(*final(c)) == rtp_indices(*old(c)),
        r is Ok ==> rtp_header_whole(packet@),
        r matches Ok(b) ==> b@.len() == packet@.len() + 10 && b@.subrange(0, 12) == packet@.subrange(0, 12),
        r matches Ok(b) ==> rtp_parts_len(packet@) == rtp_header_end(packet@) ==> srtp_opened(
            srtp_secret(*old(c)),
            index_of(rtp_indices(*old(c)), be32(packet@, 8)),
            b@,
        ) == opens_to(packet@),
{
    c.encrypt_rtp(packet).map(|b| b.to_vec()).map_err(|e| e.to_string())
}

/// `Context::decrypt_rtp`. The result is a function of the keys, the index of the
/// packet's SSRC and the packet; it panics where an element of the header
/// extension reaches behind the packet, and fails on a header that is cut off.
/// The index advances with each packet that was decrypted.
#[verifier::external_body]
fn context_decrypt_rtp(c: &mut webrtc_srtp::context::Context, packet: &[u8]) -> (r: Result<
    Vec<u8>,
    String,
>)
    requires
        rtp_elements_fit(packet@),
    ensures
        outcome(r) == srtp_opened(
            srtp_secret(*old(c)),
            index_of(rtp_indices(*old(c)), be32(packet@, 8)),
            packet@,
        ),
        srtp_secret(*final(c)) == srtp_secret(*old(c)),
        rtcp_indices(*final(c)) == rtcp_indices(*old(c)),
        r is Ok ==> rtp_indices(*final(c)) == rtp_indices(*old(c)).insert(
            be32(packet@, 8),
            srtp_advance(index_of(rtp_indices(*old(c)), be32(packet@, 8)), be16(packet@, 2)),
        ),
        r is Err ==> rtp_indices(*final(c)) == rtp_indices(*old(c)),
        r matches Ok(b) ==> b@.len() + 10 == packet@.len() && rtp_header_whole(packet@),
{
    c.decrypt_rtp(packet).map(|b| b.to_vec()).map_err(|e| e.to_string())
}

/// `Context::encrypt_rtcp`. It fails exactly where the packet is shorter than
/// eight bytes or not of version 2; otherwise the packet is encrypted under the
/// next index of its SSRC, and a context with the same keys decrypts it.
#[verifier::external_body]
fn context_encrypt_rtcp(c: &mut webrtc_srtp::context::Context, packet: &[u8]) -> (r: Result<
    Vec<u8>,
    String,
>)
    ensures
        outcome(r) == srtcp_sealed(
            srtp_secret(*old(c)),
            rtcp_next(index_of(rtcp_indices(*old(c)), be32(packet@, 4))),
            packet@,
        ),
        srtp_secret(*final(c)) == srtp_secret(*old(c)),
        rtp_indices(*final(c)) == rtp_indices(*old(c)),
        r is Ok <==> (packet@.len() >= 8 && packet@[0] / 64 == 2),
        r is Ok ==> rtcp_indices(*final(c)) == rtcp_indices(*old(c)).insert(
            be32(packet@, 4),
            rtcp_next(index_of(rtcp_indices(*old(c)), be32(packet@, 4))),
        ),
        r is Err ==> rtcp_indices(*final(c)) == rtcp_indices(*old(c)),
        r matches Ok(b) ==> b@.len() == packet@.len() + 14 && srtcp_opened(
            srtp_secret(*old(c)),
            b@,
        ) == opens_to(packet@),
{
    c.encrypt_rtcp(packet).map(|b| b.to_vec()).map_err(|e| e.to_string())
}

/// Whether a packet that passes for SRTCP has room for index and tag.
pub open spec fn rtcp_trailer_fits(p: Seq<u8>) -> bool {
    p.len() >= 4 && p[0] / 64 == 2 ==> p.len() >= 14
}

/// `Context::decrypt_rtcp`. The result is a function of the keys and the packet,
/// which carries its index; it panics on a packet of version 2 that has no room
/// for index and tag.
#[verifier::external_body]
fn context_decrypt_rtcp(c: &mut webrtc_srtp::context::Context, packet: &[u8]) -> (r: Result<
    Vec<u8>,
    String,
>)
    requires
        rtcp_trailer_fits(packet@),
    ensures
        outcome(r) == srtcp_opened(srtp_secret(*old(c)), packet@),
        srtp_secret(*final(c)) == srtp_secret(*old(c)),
        rtp_indices(*final(c)) == rtp_indices(*old(c)),
        rtcp_indices(*final(c)) == rtcp_indices(*old(c)),
        r matches Ok(b) ==> b@.len() + 14 == packet@.len(),
{
    c.decrypt_rtcp(packet).map(|b| b.to_vec()).map_err(|e| e.to_string())
}

// ---------------------------------------------------------------------------
// SrtpContext
// ---------------------------------------------------------------------------

#[derive(Debug)]
pub enum SrtpError {
    DecryptFailed(String),
    EncryptFailed(String),
    KeyNotInstalled,
}

impl SrtpError {
    /// The text of the error.
    pub fn message(&self) -> (r: String)
        ensures
            r@ == (match self {
                SrtpError::DecryptFailed(m) => "SRTP decrypt failed: "@ + m@,
                SrtpError::EncryptFailed(m) => "SRTP encrypt failed: "@ + m@,
                SrtpError::KeyNotInstalled => "SRTP key not installed"@,
            }),
    {
        let mut out: Vec<char> = Vec::new();
        match self {
            SrtpError::DecryptFailed(m) => {
                push_str(&mut out, "SRTP decrypt failed: ");
                push_str(&mut out, m.as_str());
                assert(out@ =~= "SRTP decrypt failed: "@ + m@);
            },
            SrtpError::EncryptFailed(m) => {
                push_str(&mut out, "SRTP encrypt failed: ");
                push_str(&mut out, m.as_str());
                assert(out@ =~= "SRTP encrypt failed: "@ + m@);
            },
            SrtpError::KeyNotInstalled => {
                return owned("SRTP key not installed");
            },
        }
        string_of(out)
    }
}

/// One direction of a media session: without keys until the handshake is done.
pub struct SrtpContext {
    inner: Option<webrtc_srtp::context::Context>,
}

/// Keys and counts of a context.
#[verifier::ext_equal]
pub struct SrtpState {
    /// Master key, then master salt.
    pub secret: Seq<u8>,
    pub rtp: Map<u32, u64>,
    pub rtcp: Map<u32, u64>,
}

impl View for SrtpContext {
    type V = Option<SrtpState>;

    closed spec fn view(&self) -> Option<SrtpState> {
        match self.inner {
            Some(c) => Some(
                SrtpState { secret: srtp_secret(c), rtp: rtp_indices(c), rtcp: rtcp_indices(c) },
            ),
            None => None,
        }
    }
}

/// The index of the stream that an RTP packet belongs to.
pub open spec fn rtp_prior(s: SrtpState, p: Seq<u8>) -> Option<u64> {
    index_of(s.rtp, be32(p, 8))
}

/// The state after an RTP packet was processed.
pub open spec fn after_rtp(s: SrtpState, p: Seq<u8>) -> SrtpState {
    SrtpState { rtp: s.rtp.insert(be32(p, 8), srtp_advance(rtp_prior(s, p), be16(p, 2))), ..s }
}

/// The index under which an RTCP packet is encrypted.
pub open spec fn rtcp_index(s: SrtpState, p: Seq<u8>) -> u64 {
    rtcp_next(index_of(s.rtcp, be32(p, 4)))
}

/// The state after an RTCP packet was encrypted.
pub open spec fn after_rtcp(s: SrtpState, p: Seq<u8>) -> SrtpState {
    SrtpState { rtcp: s.rtcp.insert(be32(p, 4), rtcp_index(s, p)), ..s }
}

impl SrtpContext {
    pub fn new() -> (r: Self)
        ensures
            r@ is None,
    {
        SrtpContext { inner: None }
    }

    /// Installs the keys of a session. Keys of the wrong length change nothing.
    pub fn install_key(&mut self, key: &[u8], salt: &[u8])
        ensures
            final(self)@ == (if key@.len() == 16 && salt@.len() == 14 {
                Some(SrtpState { secret: key@ + salt@, rtp: Map::empty(), rtcp: Map::empty() })
            } else {
                old(self)@
            }),
    {
        if let Some(c) = context_new(key, salt) {
            self.inner = Some(c);
        }
    }

    /// Whether keys are installed.
    pub fn is_ready(&self) -> (r: bool)
        ensures
            r == (self@ is Some),
    {
        self.inner.is_some()
    }

    pub fn decrypt_rtp(&mut self, packet: &[u8]) -> (r: Result<Vec<u8>, SrtpError>)
        requires
            rtp_elements_fit(packet@),
        ensures
            match old(self)@ {
                None => r matches Err(e) && e is KeyNotInstalled && final(self)@ == old(self)@,
                Some(s) => match srtp_opened(s.secret, rtp_prior(s, packet@), packet@) {
                    Ok(b) => r matches Ok(v) && v@ == b && final(self)@ == Some(
                        after_rtp(s, packet@),
                    ),
                    Err(m) => r matches Err(SrtpError::DecryptFailed(t)) && t@ == m && final(self)@
                        == old(self)@,
                },
            },
            r matches Ok(v) ==> v@.len() + 10 == packet@.len() && rtp_header_whole(packet@),
    {
        match &mut self.inner {
            None => Err(SrtpError::KeyNotInstalled),
            Some(c) => match context_decrypt_rtp(c, packet) {
                Ok(b) => Ok(b),
                Err(e) => Err(SrtpError::DecryptFailed(e)),
            },
        }
    }

    pub fn decrypt_rtcp(&mut self, packet: &[u8]) -> (r: Result<Vec<u8>, SrtpError>)
        requires
            rtcp_trailer_fits(packet@),
        ensures
            final(self)@ == old(self)@,
            match old(self)@ {
                None => r matches Err(e) && e is KeyNotInstalled,
                Some(s) => match srtcp_opened(s.secret, packet@) {
                    Ok(b) => r matches Ok(v) && v@ == b,
                    Err(m) => r matches Err(SrtpError::DecryptFailed(t)) && t@ == m,
                },
            },
    {
        match &mut self.inner {
            None => Err(SrtpError::KeyNotInstalled),
            Some(c) => match context_decrypt_rtcp(c, packet) {
                Ok(b) => Ok(b),
                Err(e) => Err(SrtpError::DecryptFailed(e)),
            },
        }
    }

    /// Encrypts an RTP packet. A context with the same keys that has counted the
    /// stream as far decrypts it again, unless the elements of the packet's
    /// header extension leave a part of it unused.
    pub fn encrypt_rtp(&mut self, packet: &[u8]) -> (r: Result<Vec<u8>, SrtpError>)
        requires
            rtp_parts_fit(packet@),
        ensures
            match old(self)@ {
                None => r matches Err(e) && e is KeyNotInstalled && final(self)@ == old(self)@,
                Some(s) => match srtp_sealed(s.secret, rtp_prior(s, packet@), packet@) {
                    Ok(b) => {
                        &&& r matches Ok(v) && v@ == b
                        &&& final(self)@ == Some(after_rtp(s, packet@))
                        &&& b.len() == packet@.len() + 10
                        &&& b.subrange(0, 12) == packet@.subrange(0, 12)
                        &&& rtp_parts_len(packet@) == rtp_header_end(packet@) ==> srtp_opened(
                            s.secret,
                            rtp_prior(s, packet@),
                            b,
                        ) == opens_to(packet@)
                    },
                    Err(m) => r matches Err(SrtpError::EncryptFailed(t)) && t@ == m && final(self)@
                        == old(self)@,
                },
            },
    {
        match &mut self.inner {
            None => Err(SrtpError::KeyNotInstalled),
            Some(c) => match context_encrypt_rtp(c, packet) {
                Ok(b) => Ok(b),
                Err(e) => Err(SrtpError::EncryptFailed(e)),
            },
        }
    }

    /// Encrypts an RTCP packet. A context with the same keys decrypts it again.
    pub fn encrypt_rtcp(&mut self, packet: &[u8]) -> (r: Result<Vec<u8>, SrtpError>)
        ensures
            match old(self)@ {
                None => r matches Err(e) && e is KeyNotInstalled && final(self)@ == old(self)@,
                Some(s) => if packet@.len() >= 8 && packet@[0] / 64 == 2 {
                    &&& r matches Ok(v) && srtcp_sealed(s.secret, rtcp_index(s, packet@), packet@)
                        == opens_to(v@) && srtcp_opened(s.secret, v@) == opens_to(packet@) && v@.len() == packet@.len() + 14
                    &&& final(self)@ == Some(after_rtcp(s, packet@))
                } else {
                    &&& r matches Err(SrtpError::EncryptFailed(t)) && srtcp_sealed(
                        s.secret,
                        rtcp_index(s, packet@),
                        packet@,
                    ) == fails_with(t@)
                    &&& final(self)@ == old(self)@
                },
            },
    {
        match &mut self.inner {
            None => Err(SrtpError::KeyNotInstalled),
            Some(c) => match context_encrypt_rtcp(c, packet) {
                Ok(b) => Ok(b),
                Err(e) => Err(SrtpError::EncryptFailed(e)),
            },
        }
    }
}

impl Default for SrtpContext {
    fn default() -> (r: Self)
        ensures
            r@ is None,
    {
        SrtpContext::new()
    }
}

} // verus!
