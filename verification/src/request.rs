//! The relay request control message: its wire grammar, its decoding, and
//! its semantic validation.
//!
//! A fresh connection sends exactly one framed control message. The
//! transport delivers the frame's payload as bytes; this module owns
//! everything after that: the payload grammar (a tag byte, a little-endian
//! token length, the token bytes, then the presented-key bytes), the
//! decoding of a payload into a typed request, and the semantic checks —
//! the credential comparison against the configured server key and the
//! requirement that the token be non-empty.

use vstd::prelude::*;

verus! {

/// The tag byte that marks a control frame as a relay request; any other
/// tag is not a relay request and is rejected.
pub const REQUEST_TAG: u8 = 1;

/// The one control message a connection may send: the shared token that
/// names the desired pairing and the credential it offers.
pub struct RelayRequest {
    /// Opaque identifier shared out-of-band by the two endpoints that wish
    /// to be relayed together. Must be non-empty to be admitted.
    pub token: String,
    /// Credential compared byte-for-byte against the server's configured
    /// key. Empty means no credential offered.
    pub presented_key: String,
}

/// Whether the offered credential satisfies the configured server key: an
/// empty server key accepts anything (open mode), a non-empty one demands an
/// exact match.
pub open spec fn key_accepted(presented: Seq<char>, server_key: Seq<char>) -> bool {
    server_key.len() == 0 || presented == server_key
}

/// Whether a decoded relay request is admitted: its credential must satisfy
/// the configured key and its token must be non-empty.
pub open spec fn request_admitted(token: Seq<char>, presented: Seq<char>, server_key: Seq<char>) -> bool {
    key_accepted(presented, server_key) && token.len() > 0
}

/// Whether a byte sequence is well-formed UTF-8, exactly as std's string
/// conversion decides it.
pub uninterp spec fn utf8_decodes(bytes: Seq<u8>) -> bool;

/// The characters a well-formed UTF-8 byte sequence denotes.
pub uninterp spec fn utf8_chars(bytes: Seq<u8>) -> Seq<char>;

/// Relies on String::from_utf8: it succeeds exactly on well-formed UTF-8,
/// and the resulting characters depend on the bytes alone.
#[verifier::external_body]
fn string_from_utf8(bytes: Vec<u8>) -> (r: Option<String>)
    ensures
        r is Some <==> utf8_decodes(bytes@),
        r matches Some(s) ==> s@ == utf8_chars(bytes@),
{
    String::from_utf8(bytes).ok()
}

/// The token's length as the frame states it: four little-endian bytes
/// after the tag.
pub open spec fn token_len_of(frame: Seq<u8>) -> int {
    frame[1] + frame[2] * 0x100 + frame[3] * 0x1_0000 + frame[4] * 0x100_0000
}

/// Whether a frame payload is shaped as a relay request: the tag, the four
/// length bytes, and a stated token length that fits inside the frame.
pub open spec fn frame_is_request(frame: Seq<u8>) -> bool {
    &&& frame.len() >= 5
    &&& frame[0] == REQUEST_TAG
    &&& 5 + token_len_of(frame) <= frame.len()
}

/// The token bytes of a well-shaped frame.
pub open spec fn token_bytes_of(frame: Seq<u8>) -> Seq<u8> {
    frame.subrange(5, 5 + token_len_of(frame))
}

/// The presented-key bytes of a well-shaped frame: everything after the
/// token.
pub open spec fn key_bytes_of(frame: Seq<u8>) -> Seq<u8> {
    frame.subrange(5 + token_len_of(frame), frame.len() as int)
}

/// Decodes one control-frame payload into a relay request. Returns the
/// request exactly when the frame is shaped as the grammar demands and both
/// fields are well-formed UTF-8; every malformed payload — wrong tag, short
/// frame, overlong stated token length, or invalid UTF-8 — yields `None`,
/// which the caller treats like every other handshake failure.
pub fn decode_relay_request(frame: &[u8]) -> (r: Option<RelayRequest>)
    ensures
        match r {
            Some(req) => {
                &&& frame_is_request(frame@)
                &&& utf8_decodes(token_bytes_of(frame@))
                &&& utf8_decodes(key_bytes_of(frame@))
                &&& req.token@ == utf8_chars(token_bytes_of(frame@))
                &&& req.presented_key@ == utf8_chars(key_bytes_of(frame@))
            },
            None => !({
                &&& frame_is_request(frame@)
                &&& utf8_decodes(token_bytes_of(frame@))
                &&& utf8_decodes(key_bytes_of(frame@))
            }),
        },
{
    let n = frame.len();
    if n < 5 {
        return None;
    }
    if frame[0] != REQUEST_TAG {
        return None;
    }
    let stated: u64 = frame[1] as u64 + frame[2] as u64 * 0x100 + frame[3] as u64 * 0x1_0000
        + frame[4] as u64 * 0x100_0000;
    assert(stated == token_len_of(frame@));
    if stated > (n as u64) - 5 {
        return None;
    }
    let token_len: usize = stated as usize;
    let token_end: usize = 5 + token_len;

    let mut token_bytes: Vec<u8> = Vec::new();
    let mut i: usize = 5;
    assert(token_bytes@ =~= frame@.subrange(5, 5));
    while i < token_end
        invariant
            5 <= i <= token_end,
            token_end == 5 + token_len_of(frame@),
            token_end <= n,
            n == frame@.len(),
            token_bytes@ == frame@.subrange(5, i as int),
        decreases token_end - i,
    {
        token_bytes.push(frame[i]);
        i += 1;
        proof {
            assert(frame@.subrange(5, i as int)
                =~= frame@.subrange(5, i - 1).push(frame@[i - 1]));
        }
    }

    let mut key_bytes: Vec<u8> = Vec::new();
    let mut j: usize = token_end;
    assert(key_bytes@ =~= frame@.subrange(token_end as int, token_end as int));
    while j < n
        invariant
            token_end <= j <= n,
            token_end == 5 + token_len_of(frame@),
            n == frame@.len(),
            key_bytes@ == frame@.subrange(token_end as int, j as int),
        decreases n - j,
    {
        key_bytes.push(frame[j]);
        j += 1;
        proof {
            assert(frame@.subrange(token_end as int, j as int)
                =~= frame@.subrange(token_end as int, j - 1).push(frame@[j - 1]));
        }
    }

    let token = match string_from_utf8(token_bytes) {
        Some(t) => t,
        None => {
            return None;
        },
    };
    let presented_key = match string_from_utf8(key_bytes) {
        Some(k) => k,
        None => {
            return None;
        },
    };
    Some(RelayRequest { token, presented_key })
}

impl RelayRequest {
    /// The semantic validation step of the handshake: decides admission and
    /// nothing else. Every cause of rejection is treated identically by the
    /// caller (silent close), so a single boolean is the whole verdict.
    pub fn admitted(&self, server_key: &String) -> (r: bool)
        ensures
            r == request_admitted(self.token@, self.presented_key@, server_key@),
    {
        (server_key.as_str().is_empty() || self.presented_key == *server_key)
            && !self.token.as_str().is_empty()
    }
}

} // verus!
