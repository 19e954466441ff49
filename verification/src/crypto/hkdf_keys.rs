//! Session keys expanded from shared secrets.

use crate::crypto::mirror_aes;
use crate::crypto::primitives;
use crate::text;
use vstd::prelude::*;

verus! {

/// Derives the control key, for `info`, and the stream key of a session.
pub fn derive_session_keys(shared_secret: &[u8], salt: &[u8], info: &[u8]) -> (r: (
    [u8; 32],
    [u8; 32],
))
    ensures
        r.0@ == primitives::hkdf_sha512(shared_secret@, salt@, info@),
        r.1@ == primitives::hkdf_sha512(
            shared_secret@,
            salt@,
            text::utf8("AirPlay-Stream-Key"@),
        ),
{
    let control_key = primitives::hkdf_expand(shared_secret, salt, info);
    let stream_key = primitives::hkdf_expand(shared_secret, salt, "AirPlay-Stream-Key".as_bytes());
    (control_key, stream_key)
}

/// The key of the encrypted data channel with a stream connection id.
pub open spec fn data_stream_key(shared_secret: Seq<u8>, id: int) -> Seq<u8> {
    primitives::hkdf_sha512(
        shared_secret,
        text::utf8("DataStream-Salt"@ + text::decimal(mirror_aes::unsigned(id))),
        text::utf8("DataStream-Output-Encryption-Key"@),
    )
}

/// Derives the key of the encrypted data channel.
pub fn derive_data_stream_chacha_key(shared_secret: &[u8], stream_connection_id: i64) -> (r: [u8;
    32])
    ensures
        r@ == data_stream_key(shared_secret@, stream_connection_id as int),
{
    let salt = text::numbered("DataStream-Salt", mirror_aes::as_unsigned(stream_connection_id));
    primitives::hkdf_expand(
        shared_secret,
        salt.as_str().as_bytes(),
        "DataStream-Output-Encryption-Key".as_bytes(),
    )
}

/// The key of a stream comes from the shared secret with a salt that names the stream by its number
/// without sign, and no two streams have the same salt.
pub proof fn law_streams_have_own_salts(shared_secret: Seq<u8>, id: i64, other: i64) -> (salts: (
    Seq<u8>,
    Seq<u8>,
))
    requires
        id != other,
    ensures
        salts.0 != salts.1,
        vstd::utf8::decode_utf8(salts.0) == "DataStream-Salt"@ + text::decimal(
            if id < 0 {
                (id + 18446744073709551616) as nat
            } else {
                id as nat
            },
        ),
        data_stream_key(shared_secret, id as int) == primitives::hkdf_sha512(
            shared_secret,
            salts.0,
            vstd::utf8::encode_utf8("DataStream-Output-Encryption-Key"@),
        ),
        data_stream_key(shared_secret, other as int) == primitives::hkdf_sha512(
            shared_secret,
            salts.1,
            vstd::utf8::encode_utf8("DataStream-Output-Encryption-Key"@),
        ),
{
    let label = "DataStream-Salt"@;
    let (m, n) = (mirror_aes::unsigned(id as int), mirror_aes::unsigned(other as int));
    let (s, t) = (label + text::decimal(m), label + text::decimal(n));
    vstd::utf8::encode_utf8_decode_utf8(s);
    vstd::utf8::encode_utf8_decode_utf8(t);
    assert(s.skip(label.len() as int) =~= text::decimal(m));
    assert(t.skip(label.len() as int) =~= text::decimal(n));
    text::lemma_decimal_digits(m);
    text::lemma_decimal_digits(n);
    (text::utf8(s), text::utf8(t))
}
} // verus!
