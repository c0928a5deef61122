//! ICE-Lite (RFC 8445): the server gathers and checks nothing, it answers the
//! binding requests of its clients.

use vstd::prelude::*;
use vstd::utf8::{decode_utf8, encode_utf8, valid_utf8};

use crate::random::random_bytes;
use crate::text::{chars_of, has_prefix, push_str, starts_with, string_of};
use crate::transport::addr::SocketAddress;
use crate::transport::stun::{
    attr_value, binding_response, build_binding_response, ice_integrity_key, integrity_holds,
    is_stun, parse, stun_content, verify_message_integrity, ATTR_USERNAME, ATTR_USE_CANDIDATE,
    BINDING_REQUEST,
};

verus! {

/// How long a user fragment and a password are.
pub const UFRAG_LEN: usize = 4;

pub const PWD_LEN: usize = 22;

/// The credentials of a session.
#[derive(Debug)]
pub struct IceCredentials {
    pub ufrag: String,
    pub pwd: String,
}

/// The digit or small letter that stands for a byte.
pub open spec fn ice_char(b: u8) -> char {
    if b % 36 < 10 {
        (0x30 + b % 36) as char
    } else {
        (0x61 + b % 36 - 10) as char
    }
}

pub open spec fn ice_text(bytes: Seq<u8>) -> Seq<char> {
    bytes.map_values(|b: u8| ice_char(b))
}

/// Whether a text holds digits and small letters only.
pub open spec fn is_ice_text(s: Seq<char>) -> bool {
    forall|i: int| 0 <= i < s.len() ==> '0' <= #[trigger] s[i] <= '9' || 'a' <= s[i] <= 'z'
}

/// The text that stands for random bytes.
pub fn ice_string(bytes: &Vec<u8>) -> (r: String)
    ensures
        r@ == ice_text(bytes@),
        is_ice_text(r@),
{
    let mut out: Vec<char> = Vec::new();
    let mut i: usize = 0;
    while i < bytes.len()
        invariant
            i <= bytes@.len(),
            out@ == ice_text(bytes@.take(i as int)),
            is_ice_text(out@),
        decreases bytes@.len() - i,
    {
        let r: u8 = bytes[i] % 36;
        let c: char = if r < 10 {
            (0x30 + r) as char
        } else {
            (0x61 + (r - 10)) as char
        };
        out.push(c);
        i += 1;
        assert(out@ =~= ice_text(bytes@.take(i as int)));
    }
    assert(bytes@.take(bytes@.len() as int) =~= bytes@);
    string_of(out)
}

/// Whether a text stands for some bytes; it then holds digits and small letters
/// only.
pub open spec fn is_drawn_text(s: Seq<char>) -> bool {
    is_ice_text(s) && exists|bytes: Seq<u8>|
        bytes.len() == s.len() && s == #[trigger] ice_text(bytes)
}

fn random_ice_string(len: usize) -> (r: Option<String>)
    ensures
        r matches Some(s) ==> s@.len() == len && is_drawn_text(s@),
{
    match random_bytes(len) {
        Some(b) => Some(ice_string(&b)),
        None => None,
    }
}

impl IceCredentials {
    /// Whether these are random credentials: a user fragment and a password of
    /// their lengths, each the text of random bytes.
    pub open spec fn drawn(&self) -> bool {
        &&& self.ufrag@.len() == UFRAG_LEN && is_drawn_text(self.ufrag@)
        &&& self.pwd@.len() == PWD_LEN && is_drawn_text(self.pwd@)
    }

    /// Random credentials, or nothing where the system has no random numbers to
    /// give.
    pub fn new() -> (r: Option<Self>)
        ensures
            r matches Some(c) ==> c.drawn(),
    {
        match (random_ice_string(UFRAG_LEN), random_ice_string(PWD_LEN)) {
            (Some(ufrag), Some(pwd)) => Some(IceCredentials { ufrag, pwd }),
            _ => None,
        }
    }
}

/// What becomes of a datagram.
#[derive(Debug)]
pub enum IceResult {
    /// `data` goes back to where the datagram came from.
    SendResponse { data: Vec<u8>, remote: SocketAddress, use_candidate: bool },
    Ignore,
}

/// Whether a datagram is a binding request for a session: the user name starts
/// with the session's user fragment and a colon, and the integrity holds under
/// the session's password.
pub open spec fn is_request_for(buf: Seq<u8>, ufrag: Seq<char>, pwd: Seq<char>) -> bool {
    let m = stun_content(buf);
    &&& is_stun(buf)
    &&& m.msg_type == BINDING_REQUEST
    &&& match attr_value(m.attributes, ATTR_USERNAME) {
        Some(v) => valid_utf8(v) && has_prefix(decode_utf8(v), ufrag.push(':')),
        None => false,
    }
    &&& integrity_holds(m, encode_utf8(pwd))
}

/// Answers a binding request for a session, and nothing else.
pub fn handle_stun_packet(buf: &[u8], remote: SocketAddress, local_creds: &IceCredentials) -> (r:
    IceResult)
    ensures
        match r {
            IceResult::SendResponse { data, remote: to, use_candidate } => {
                &&& is_request_for(buf@, local_creds.ufrag@, local_creds.pwd@)
                &&& to == remote
                &&& data@ == binding_response(
                    remote,
                    stun_content(buf@).transaction_id,
                    encode_utf8(local_creds.pwd@),
                )
                &&& use_candidate == (attr_value(
                    stun_content(buf@).attributes,
                    ATTR_USE_CANDIDATE,
                ) is Some)
            },
            IceResult::Ignore => !is_request_for(buf@, local_creds.ufrag@, local_creds.pwd@),
        },
{
    let msg = match parse(buf) {
        Some(m) => m,
        None => {
            return IceResult::Ignore;
        },
    };
    if msg.msg_type != BINDING_REQUEST {
        return IceResult::Ignore;
    }
    let username = match msg.username() {
        Some(u) => chars_of(u.as_str()),
        None => {
            return IceResult::Ignore;
        },
    };
    let mut expected: Vec<char> = Vec::new();
    push_str(&mut expected, local_creds.ufrag.as_str());
    expected.push(':');
    assert(expected@ =~= local_creds.ufrag@.push(':'));
    let expected_prefix = string_of(expected);
    if !starts_with(&username, expected_prefix.as_str()) {
        return IceResult::Ignore;
    }
    let key = ice_integrity_key(local_creds.pwd.as_str());
    if !verify_message_integrity(&msg, &key) {
        return IceResult::Ignore;
    }
    let data = build_binding_response(&msg.transaction_id, remote, &key);
    IceResult::SendResponse { data, remote, use_candidate: msg.has_use_candidate() }
}

} // verus!
