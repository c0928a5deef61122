//! Errors that a client is told about.

use vstd::prelude::*;

use crate::text::{owned, push_str, string_of};

verus! {

#[derive(Debug)]
pub enum LightError {
    // 1xxx: connection and authentication
    NotAuthenticated,
    InvalidToken,
    AlreadyIdentified,
    // 2xxx: room
    RoomNotFound,
    RoomFull,
    AlreadyInRoom,
    NotInRoom,
    RoomNameRequired,
    // 3xxx: signaling
    InvalidOpcode,
    InvalidPayload,
    MissingPid,
    // 4xxx: media and transport
    SdpParseError,
    DtlsHandshakeFailed,
    SrtpError,
    // 9xxx: internal
    Internal(String),
}

pub type LightResult<T> = Result<T, LightError>;

/// The numeric code of an error.
pub open spec fn error_code(e: LightError) -> u16 {
    match e {
        LightError::NotAuthenticated => 1001,
        LightError::InvalidToken => 1002,
        LightError::AlreadyIdentified => 1003,
        LightError::RoomNotFound => 2001,
        LightError::RoomFull => 2002,
        LightError::AlreadyInRoom => 2003,
        LightError::NotInRoom => 2004,
        LightError::RoomNameRequired => 2005,
        LightError::InvalidOpcode => 3001,
        LightError::InvalidPayload => 3002,
        LightError::MissingPid => 3003,
        LightError::SdpParseError => 4001,
        LightError::DtlsHandshakeFailed => 4002,
        LightError::SrtpError => 4003,
        LightError::Internal(_) => 9001,
    }
}

/// The text of an error.
pub open spec fn error_text(e: LightError) -> Seq<char> {
    match e {
        LightError::NotAuthenticated => "[1001] not authenticated"@,
        LightError::InvalidToken => "[1002] invalid token"@,
        LightError::AlreadyIdentified => "[1003] already identified"@,
        LightError::RoomNotFound => "[2001] room not found"@,
        LightError::RoomFull => "[2002] room full"@,
        LightError::AlreadyInRoom => "[2003] already in room"@,
        LightError::NotInRoom => "[2004] not in room"@,
        LightError::RoomNameRequired => "[2005] room name required"@,
        LightError::InvalidOpcode => "[3001] invalid opcode"@,
        LightError::InvalidPayload => "[3002] invalid payload"@,
        LightError::MissingPid => "[3003] missing pid"@,
        LightError::SdpParseError => "[4001] sdp parse error"@,
        LightError::DtlsHandshakeFailed => "[4002] dtls handshake failed"@,
        LightError::SrtpError => "[4003] srtp error"@,
        LightError::Internal(m) => "[9001] internal error: "@ + m@,
    }
}

impl LightError {
    pub fn code(&self) -> (r: u16)
        ensures
            r == error_code(*self),
    {
        match self {
            LightError::NotAuthenticated => 1001,
            LightError::InvalidToken => 1002,
            LightError::AlreadyIdentified => 1003,
            LightError::RoomNotFound => 2001,
            LightError::RoomFull => 2002,
            LightError::AlreadyInRoom => 2003,
            LightError::NotInRoom => 2004,
            LightError::RoomNameRequired => 2005,
            LightError::InvalidOpcode => 3001,
            LightError::InvalidPayload => 3002,
            LightError::MissingPid => 3003,
            LightError::SdpParseError => 4001,
            LightError::DtlsHandshakeFailed => 4002,
            LightError::SrtpError => 4003,
            LightError::Internal(_) => 9001,
        }
    }

    /// The text that the client is shown.
    pub fn message(&self) -> (r: String)
        ensures
            r@ == error_text(*self),
    {
        match self {
            LightError::NotAuthenticated => owned("[1001] not authenticated"),
            LightError::InvalidToken => owned("[1002] invalid token"),
            LightError::AlreadyIdentified => owned("[1003] already identified"),
            LightError::RoomNotFound => owned("[2001] room not found"),
            LightError::RoomFull => owned("[2002] room full"),
            LightError::AlreadyInRoom => owned("[2003] already in room"),
            LightError::NotInRoom => owned("[2004] not in room"),
            LightError::RoomNameRequired => owned("[2005] room name required"),
            LightError::InvalidOpcode => owned("[3001] invalid opcode"),
            LightError::InvalidPayload => owned("[3002] invalid payload"),
            LightError::MissingPid => owned("[3003] missing pid"),
            LightError::SdpParseError => owned("[4001] sdp parse error"),
            LightError::DtlsHandshakeFailed => owned("[4002] dtls handshake failed"),
            LightError::SrtpError => owned("[4003] srtp error"),
            LightError::Internal(m) => {
                let mut out: Vec<char> = Vec::new();
                push_str(&mut out, "[9001] internal error: ");
                push_str(&mut out, m.as_str());
                assert(out@ =~= "[9001] internal error: "@ + m@);
                string_of(out)
            },
        }
    }
}

} // verus!
