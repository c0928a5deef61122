//! Constants and codec rules shared by the whole server.

use vstd::prelude::*;

use crate::text::{chars_of, lowercase, parse_uint, text_eq, to_lowercase, uint_value};

verus! {

// --- Server ---
pub const WS_PORT: u16 = 1974;

pub const UDP_PORT: u16 = 19740;

// --- Heartbeat ---
pub const HEARTBEAT_INTERVAL_MS: u64 = 30_000;

pub const HEARTBEAT_TIMEOUT_MS: u64 = 90_000;

// --- Zombie reaper ---
/// How often dead sessions are looked for.
pub const REAPER_INTERVAL_MS: u64 = 30_000;

/// A session without media or signalling for longer than this is dead.
pub const ZOMBIE_TIMEOUT_MS: u64 = 120_000;

/// How long connections may drain at shutdown.
pub const SHUTDOWN_DRAIN_MS: u64 = 3_000;

// --- Room ---
pub const ROOM_MAX_CAPACITY: usize = 1000;

pub const ROOM_DEFAULT_CAPACITY: usize = 1000;

// --- Signaling ---
pub const ACK_TIMEOUT_MS: u64 = 5_000;

pub const ACK_MISS_LIMIT: u32 = 3;

// --- Demultiplexing by first byte (RFC 5764) ---
pub const DEMUX_STUN_MIN: u8 = 0x00;

pub const DEMUX_STUN_MAX: u8 = 0x03;

pub const DEMUX_DTLS_MIN: u8 = 0x14;

pub const DEMUX_DTLS_MAX: u8 = 0x3F;

pub const DEMUX_RTP_MIN: u8 = 0x80;

pub const DEMUX_RTP_MAX: u8 = 0xBF;

/// Number of UDP workers; 0 stands for one per core.
pub const UDP_WORKER_COUNT: usize = 0;

/// Length of a subscriber's egress queue.
pub const EGRESS_QUEUE_SIZE: usize = 256;

// --- Media ---
pub const RTP_HEADER_MIN_SIZE: usize = 12;

pub const UDP_RECV_BUF_SIZE: usize = 2048;

// --- Codec payload types ---
pub const OPUS_PAYLOAD_TYPE: u8 = 111;

pub const VP8_PAYLOAD_TYPE: u8 = 96;

pub const VP8_RTX_PAYLOAD_TYPE: u8 = 97;

pub const H264_PAYLOAD_TYPE: u8 = 102;

pub const H264_RTX_PAYLOAD_TYPE: u8 = 103;

// --- RTX (RFC 4588) ---
/// Slots of the RTP cache; a packet stands at its sequence number modulo this.
pub const RTP_CACHE_SIZE: usize = 512;

pub const RTX_PAYLOAD_TYPE: u8 = 97;

pub const RTCP_PT_NACK: u8 = 205;

pub const RTCP_FMT_NACK: u8 = 1;

// --- RTCP ---
pub const RTCP_PT_SR: u8 = 200;

pub const RTCP_PT_RR: u8 = 201;

pub const RTCP_PT_PSFB: u8 = 206;

pub const RTCP_FMT_PLI: u8 = 1;

pub const RTCP_FMT_REMB: u8 = 15;

// --- Floor control over RTCP APP (RFC 3550, section 6.7) ---
pub const RTCP_PT_APP: u8 = 204;

pub const MBCP_SUBTYPE_FREQ: u8 = 0;

pub const MBCP_SUBTYPE_FREL: u8 = 1;

pub const MBCP_SUBTYPE_FTKN: u8 = 2;

pub const MBCP_SUBTYPE_FIDL: u8 = 3;

pub const MBCP_SUBTYPE_FRVK: u8 = 4;

pub const MBCP_SUBTYPE_FPNG: u8 = 5;

/// The name field of a floor control packet: "MBCP".
pub const MBCP_APP_NAME: [u8; 4] = [0x4D, 0x42, 0x43, 0x50];

// --- Bandwidth estimation ---
pub const REMB_INTERVAL_MS: u64 = 1_000;

pub const REMB_BITRATE_BPS: u64 = 500_000;

pub const TWCC_EXTMAP_ID: u8 = 6;

pub const TWCC_RECORDER_CAPACITY: usize = 8192;

pub const RTCP_PT_RTPFB: u8 = 205;

pub const RTCP_FMT_TWCC: u8 = 15;

pub const TWCC_FEEDBACK_INTERVAL_MS: u64 = 100;

// --- Floor control ---
/// Longest talk burst before the floor is revoked.
pub const FLOOR_MAX_BURST_MS: u64 = 30_000;

pub const FLOOR_PING_INTERVAL_MS: u64 = 2_000;

/// Without a ping for longer than this the floor is revoked.
pub const FLOOR_PING_TIMEOUT_MS: u64 = 5_000;

pub const FLOOR_DEFAULT_PRIORITY: u8 = 0;

pub const FLOOR_MAX_PRIORITY: u8 = 255;

pub const FLOOR_QUEUE_MAX_SIZE: usize = 10;

pub const FLOOR_DEFAULT_DURATION_S: u16 = 30;

/// Retransmissions that a subscriber may cause in a window of three seconds.
pub const RTX_BUDGET_PER_3S: u64 = 200;

// --- Server-generated reports ---
pub const RTCP_REPORT_INTERVAL_MS: u64 = 1_000;

pub const CLOCK_RATE_AUDIO: u32 = 48_000;

pub const CLOCK_RATE_VIDEO: u32 = 90_000;

pub const RTP_SEQ_MAX_DROPOUT: u16 = 3000;

pub const RTP_SEQ_MAX_MISORDER: u16 = 100;

pub const RTP_SEQ_MIN_SEQUENTIAL: u32 = 2;

// --- Simulcast ---
pub const SIMULCAST_HIGH_MAX_BITRATE: u32 = 1_650_000;

pub const SIMULCAST_LOW_MAX_BITRATE: u32 = 250_000;

pub const SIMULCAST_LOW_SCALE_DOWN: u32 = 4;

// --- Logging of the packet path ---
pub const DBG_DETAIL_LIMIT: u64 = 50;

pub const DBG_SUMMARY_INTERVAL: u64 = 1000;

/// Whether a payload type carries video.
pub fn is_video_pt(pt: u8) -> (r: bool)
    ensures
        r == (pt == VP8_PAYLOAD_TYPE || pt == H264_PAYLOAD_TYPE),
{
    pt == VP8_PAYLOAD_TYPE || pt == H264_PAYLOAD_TYPE
}

/// Whether a payload type carries audio.
pub fn is_audio_pt(pt: u8) -> (r: bool)
    ensures
        r == (pt == OPUS_PAYLOAD_TYPE),
{
    pt == OPUS_PAYLOAD_TYPE
}

/// Whether a payload type carries retransmissions.
pub open spec fn is_rtx(pt: u8) -> bool {
    pt == VP8_RTX_PAYLOAD_TYPE || pt == H264_RTX_PAYLOAD_TYPE
}

pub fn is_rtx_pt(pt: u8) -> (r: bool)
    ensures
        r == is_rtx(pt),
{
    pt == VP8_RTX_PAYLOAD_TYPE || pt == H264_RTX_PAYLOAD_TYPE
}

/// The retransmission payload type that belongs to a media payload type.
pub open spec fn rtx_pt(media_pt: u8) -> u8 {
    if media_pt == H264_PAYLOAD_TYPE {
        H264_RTX_PAYLOAD_TYPE
    } else {
        VP8_RTX_PAYLOAD_TYPE
    }
}

pub fn rtx_pt_for(media_pt: u8) -> (r: u8)
    ensures
        r == rtx_pt(media_pt),
{
    if media_pt == H264_PAYLOAD_TYPE {
        H264_RTX_PAYLOAD_TYPE
    } else {
        VP8_RTX_PAYLOAD_TYPE
    }
}

/// The REMB bitrate that a setting asks for: the number that it denotes, or the
/// default where it is absent or denotes none.
pub fn resolve_remb_bitrate(setting: Option<&str>) -> (r: u64)
    ensures
        r == (match setting {
            Some(v) => match uint_value(v@, u64::MAX as nat) {
                Some(n) => n as u64,
                None => REMB_BITRATE_BPS,
            },
            None => REMB_BITRATE_BPS,
        }),
{
    match setting {
        Some(v) => {
            let c = chars_of(v);
            match parse_uint(&c, u64::MAX) {
                Some(n) => n,
                None => REMB_BITRATE_BPS,
            }
        },
        None => REMB_BITRATE_BPS,
    }
}

/// How the bandwidth of a publisher is estimated.
#[derive(Debug, Clone, Copy, PartialEq, Eq, Structural)]
pub enum BweMode {
    Twcc,
    Remb,
}

impl BweMode {
    /// The name of the mode.
    pub fn name(&self) -> (r: &'static str)
        ensures
            r@ == (match self {
                BweMode::Twcc => "twcc"@,
                BweMode::Remb => "remb"@,
            }),
    {
        match self {
            BweMode::Twcc => "twcc",
            BweMode::Remb => "remb",
        }
    }
}

/// The mode that a lower-case setting names.
pub fn bwe_mode_of(lowered: &str) -> (r: BweMode)
    ensures
        r == (if lowered@ == "remb"@ { BweMode::Remb } else { BweMode::Twcc }),
{
    if text_eq(lowered, "remb") {
        BweMode::Remb
    } else {
        BweMode::Twcc
    }
}

/// The mode that a setting names, in any case; TWCC where it names none.
pub fn resolve_bwe_mode(setting: Option<&str>) -> (r: BweMode)
    ensures
        r == (match setting {
            Some(v) => if lowercase(v@) == "remb"@ { BweMode::Remb } else { BweMode::Twcc },
            None => BweMode::Twcc,
        }),
{
    match setting {
        Some(v) => {
            let lowered = to_lowercase(v);
            bwe_mode_of(lowered.as_str())
        },
        None => BweMode::Twcc,
    }
}

/// How the participants of a room share the channel.
#[derive(Debug, Clone, Copy, PartialEq, Eq, Structural)]
pub enum RoomMode {
    /// Everybody may speak at the same time.
    Conference,
    /// One speaker at a time, by floor control.
    Ptt,
}

impl RoomMode {
    /// The name of the mode.
    pub fn name(&self) -> (r: &'static str)
        ensures
            r@ == (match self {
                RoomMode::Conference => "conference"@,
                RoomMode::Ptt => "ptt"@,
            }),
    {
        match self {
            RoomMode::Conference => "conference",
            RoomMode::Ptt => "ptt",
        }
    }
}

} // verus!
