//! Keys and fingerprints of the DTLS handshake.
//!
//! The exported key material (RFC 5764) holds, one after the other, the client's
//! key, the server's key, the client's salt and the server's salt.

use sha2::{Digest, Sha256};
use vstd::prelude::*;
use vstd::slice::slice_subrange;

use crate::error::{LightError, LightResult};
use crate::room::hub::{hub_unchanged, lemma_replaced, RoomHub};
use crate::room::participant::{MediaSession, Participant, PcType};
use crate::room::room::taken;
use crate::signaling::session::lemma_one_participant;
use crate::text::{hex_byte, owned, push_hex_byte, push_str, string_of};
use crate::transport::srtp::SrtpState;
use crate::transport::udp::ingress::seat_changed;
use crate::wire::copy_bytes;

verus! {

pub const SRTP_MASTER_KEY_LEN: usize = 16;

pub const SRTP_MASTER_SALT_LEN: usize = 14;

pub const SRTP_KEY_MATERIAL_LEN: usize = 60;

/// The keys of both directions.
#[derive(Debug)]
pub struct SrtpKeyMaterial {
    pub client_key: Vec<u8>,
    pub server_key: Vec<u8>,
    pub client_salt: Vec<u8>,
    pub server_salt: Vec<u8>,
}

/// Takes the exported key material apart.
pub fn split_key_material(material: &[u8]) -> (r: SrtpKeyMaterial)
    requires
        material@.len() == SRTP_KEY_MATERIAL_LEN,
    ensures
        r.client_key@ == material@.subrange(0, 16),
        r.server_key@ == material@.subrange(16, 32),
        r.client_salt@ == material@.subrange(32, 46),
        r.server_salt@ == material@.subrange(46, 60),
{
    SrtpKeyMaterial {
        client_key: copy_bytes(slice_subrange(material, 0, 16)),
        server_key: copy_bytes(slice_subrange(material, 16, 32)),
        client_salt: copy_bytes(slice_subrange(material, 32, 46)),
        server_salt: copy_bytes(slice_subrange(material, 46, 60)),
    }
}

/// No byte of the key material is lost or used twice.
pub proof fn law_key_material_is_whole(material: Seq<u8>)
    requires
        material.len() == SRTP_KEY_MATERIAL_LEN,
    ensures
        material.subrange(0, 16) + material.subrange(16, 32) + material.subrange(32, 46)
            + material.subrange(46, 60) == material,
{
    assert(material.subrange(0, 16) + material.subrange(16, 32) + material.subrange(32, 46)
        + material.subrange(46, 60) =~= material);
}

/// The keys of a direction.
pub open spec fn fresh_keys(key: Seq<u8>, salt: Seq<u8>) -> SrtpState {
    SrtpState { secret: key + salt, rtp: Map::empty(), rtcp: Map::empty() }
}

/// A connection with its keys: the client's for what comes in, the server's for
/// what goes out.
pub open spec fn keyed(a: MediaSession, b: MediaSession, k: SrtpKeyMaterial) -> bool {
    &&& b.ufrag == a.ufrag && b.ice_pwd == a.ice_pwd && b.address == a.address
    &&& b.inbound_srtp@ == (if k.client_key@.len() == SRTP_MASTER_KEY_LEN && k.client_salt@.len()
        == SRTP_MASTER_SALT_LEN {
        Some(fresh_keys(k.client_key@, k.client_salt@))
    } else {
        a.inbound_srtp@
    })
    &&& b.outbound_srtp@ == (if k.server_key@.len() == SRTP_MASTER_KEY_LEN && k.server_salt@.len()
        == SRTP_MASTER_SALT_LEN {
        Some(fresh_keys(k.server_key@, k.server_salt@))
    } else {
        a.outbound_srtp@
    })
}

/// The handshake of a connection is done: its keys are installed. False where the
/// participant is not there any more.
pub fn install_keys(hub: &mut RoomHub, room_id: &str, user_id: &str, pc: PcType, keys: &SrtpKeyMaterial) -> (r:
    bool)
    requires
        old(hub).wf(),
    ensures
        final(hub).wf(),
        ({
            let found = match old(hub).room(room_id@) {
                Some(x) => x.member(user_id@) is Some,
                None => false,
            };
            &&& r == found
            &&& !found ==> hub_unchanged(*old(hub), *final(hub))
            &&& found ==> {
                let i = old(hub).place_of_room(room_id@)->0;
                let x = old(hub).slots@[i]->0;
                let k = x.place_of_user(user_id@)->0;
                let p = x.slots@[k]->0;
                let q = final(hub).slots@[i]->0.slots@[k]->0;
                &&& seat_changed(*old(hub), *final(hub), i, k, q)
                &&& match pc {
                    PcType::Publish => keyed(p.publish, q.publish, *keys) && q == (Participant {
                        publish: q.publish,
                        ..p
                    }),
                    PcType::Subscribe => keyed(p.subscribe, q.subscribe, *keys) && q == (Participant {
                        subscribe: q.subscribe,
                        ..p
                    }),
                }
            }
        }),
{
    let slot: usize = match hub.slot_of(room_id) {
        Some(i) => i,
        None => {
            return false;
        },
    };
    let seat: usize = match &hub.slots[slot] {
        Some(room) => match room.slot_of(user_id) {
            Some(k) => k,
            None => {
                return false;
            },
        },
        None => {
            return false;
        },
    };
    let ghost start = *hub;
    let ghost x = hub.slots@[slot as int]->0;
    match &mut hub.slots[slot] {
        Some(room) => {
            assert(taken(room.slots@, seat as int));
            match &mut room.slots[seat] {
                Some(p) => match pc {
                    PcType::Publish => {
                        p.publish.install_srtp_keys(
                            &keys.client_key,
                            &keys.client_salt,
                            &keys.server_key,
                            &keys.server_salt,
                        );
                    },
                    PcType::Subscribe => {
                        p.subscribe.install_srtp_keys(
                            &keys.client_key,
                            &keys.client_salt,
                            &keys.server_key,
                            &keys.server_salt,
                        );
                    },
                },
                None => {},
            }
        },
        None => {},
    }
    proof {
        let y = hub.slots@[slot as int]->0;
        let q = y.slots@[seat as int]->0;
        assert(y.slots@ =~= x.slots@.update(seat as int, Some(q)));
        lemma_one_participant(x, y, seat as int, q);
        lemma_replaced(start, *hub, slot as int);
    }
    true
}

// ---------------------------------------------------------------------------
// Fingerprints
// ---------------------------------------------------------------------------

/// The SHA-256 of `data`.
pub uninterp spec fn sha256(data: Seq<u8>) -> Seq<u8>;

/// `sha2::Sha256::digest`: the 32 bytes of the hash.
#[verifier::external_body]
fn sha256_of(data: &[u8]) -> (r: Vec<u8>)
    ensures
        r@ == sha256(data@),
        r@.len() == 32,
{
    Sha256::digest(data).to_vec()
}

/// The first `n` bytes in hexadecimal, with colons between them.
pub open spec fn hex_list(bytes: Seq<u8>, n: int) -> Seq<char>
    decreases n,
{
    if n <= 0 {
        Seq::empty()
    } else if n == 1 {
        hex_byte(bytes[0])
    } else {
        hex_list(bytes, n - 1).push(':') + hex_byte(bytes[n - 1])
    }
}

/// The text of a hash.
pub open spec fn fingerprint_text(hash: Seq<u8>) -> Seq<char> {
    "sha-256 "@ + hex_list(hash, hash.len() as int)
}

/// The fingerprint of a hash.
pub fn format_fingerprint(hash: &Vec<u8>) -> (r: String)
    ensures
        r@ == fingerprint_text(hash@),
{
    let mut out: Vec<char> = Vec::new();
    push_str(&mut out, "sha-256 ");
    let ghost head = out@;
    let mut i: usize = 0;
    assert(head + hex_list(hash@, 0) =~= head);
    while i < hash.len()
        invariant
            i <= hash@.len(),
            out@ == head + hex_list(hash@, i as int),
        decreases hash@.len() - i,
    {
        if i > 0 {
            out.push(':');
        }
        push_hex_byte(&mut out, hash[i]);
        i += 1;
        assert(out@ =~= head + hex_list(hash@, i as int));
    }
    assert(out@ =~= fingerprint_text(hash@));
    string_of(out)
}

/// The fingerprint of a certificate.
pub fn sha256_fingerprint(der: &[u8]) -> (r: String)
    ensures
        r@ == fingerprint_text(sha256(der@)),
{
    let hash = sha256_of(der);
    format_fingerprint(&hash)
}

// ---------------------------------------------------------------------------
// The certificate
// ---------------------------------------------------------------------------

/// `dtls::crypto::Certificate`: a certificate with its private key.
#[verifier::external_type_specification]
#[verifier::external_body]
pub struct ExCertificate(dtls::crypto::Certificate);

/// The first certificate in DER form; empty where there is none.
pub uninterp spec fn certificate_der(c: dtls::crypto::Certificate) -> Seq<u8>;

/// `Certificate::generate_self_signed` for a name in ASCII: a certificate with a
/// random key, or the text of the error. Nothing is claimed of the certificate.
#[verifier::external_body]
fn generate_self_signed(name: &str) -> (r: Result<dtls::crypto::Certificate, String>)
    requires
        forall|i: int| 0 <= i < name@.len() ==> (#[trigger] name@[i] as u32) < 128,
{
    dtls::crypto::Certificate::generate_self_signed(vec![name.to_string()]).map_err(
        |e| e.to_string(),
    )
}

/// The bytes of the first entry of `Certificate::certificate`.
#[verifier::external_body]
fn der_of(c: &dtls::crypto::Certificate) -> (r: Vec<u8>)
    ensures
        r@ == certificate_der(*c),
{
    c.certificate.first().map(|d| d.as_ref().to_vec()).unwrap_or_default()
}

/// The certificate of the server, and its fingerprint.
pub struct ServerCert {
    pub dtls_cert: dtls::crypto::Certificate,
    pub fingerprint: String,
}

impl ServerCert {
    /// The fingerprint is that of the certificate.
    pub open spec fn wf(&self) -> bool {
        self.fingerprint@ == fingerprint_text(sha256(certificate_der(self.dtls_cert)))
    }

    /// What becomes of a certificate that was generated, or of the text of the
    /// error: the certificate gets its fingerprint, the error is an internal one.
    pub fn from_generated(r: Result<dtls::crypto::Certificate, String>) -> (s: LightResult<Self>)
        ensures
            match r {
                Ok(c) => s matches Ok(x) && x.dtls_cert == c && x.wf(),
                Err(e) => s == Err::<Self, LightError>(LightError::Internal(e)),
            },
    {
        match r {
            Ok(dtls_cert) => {
                let der = der_of(&dtls_cert);
                let fingerprint = sha256_fingerprint(&der);
                Ok(ServerCert { dtls_cert, fingerprint })
            },
            Err(e) => Err(LightError::Internal(e)),
        }
    }

    /// A server certificate with a new key, for the name of the server.
    pub fn generate() -> (r: LightResult<Self>)
        ensures
            match r {
                Ok(c) => c.wf(),
                Err(e) => e is Internal,
            },
    {
        let name = server_name();
        proof {
            reveal_strlit("light-livechat");
        }
        ServerCert::from_generated(generate_self_signed(name.as_str()))
    }
}

/// The name that the certificate of the server is made out to.
pub fn server_name() -> (r: String)
    ensures
        r@ == "light-livechat"@,
{
    owned("light-livechat")
}

} // verus!
