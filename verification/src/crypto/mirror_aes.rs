//! AES-128-CTR encryption of mirror video.

use crate::bytes;
use crate::crypto::primitives;
use crate::text;
use vstd::prelude::*;

verus! {

/// The 64-bit two's complement of `id`, read as a natural number.
pub open spec fn unsigned(id: int) -> nat {
    (if id < 0 {
        id + 0x1_0000_0000_0000_0000
    } else {
        id
    }) as nat
}

/// The 64-bit two's complement of `id`, read as a natural number.
pub fn as_unsigned(id: i64) -> (r: u64)
    ensures
        r == unsigned(id as int),
{
    if id >= 0 {
        id as u64
    } else {
        0xffff_ffff_ffff_ffff - (-(id + 1)) as u64
    }
}

/// What a secret of a stream is hashed from: a numbered label and the shared key.
pub open spec fn secret_input(label: Seq<char>, shk: Seq<u8>, id: int) -> Seq<u8> {
    text::utf8(label + text::decimal(unsigned(id))) + shk
}

/// The first sixteen bytes of the SHA-512 of a numbered label and the shared key.
pub open spec fn stream_secret(label: Seq<char>, shk: Seq<u8>, id: int) -> Seq<u8> {
    primitives::sha512(secret_input(label, shk, id)).take(16)
}

fn labelled_secret(label: &str, shk: &[u8; 16], id: i64) -> (r: [u8; 16])
    ensures
        r@ == stream_secret(label@, shk@, id as int),
{
    let name = text::numbered(label, as_unsigned(id));
    let mut data = text::utf8_bytes(name.as_str());
    bytes::extend(&mut data, shk);
    let digest = primitives::sha512_digest(&data);
    bytes::array16(&digest)
}

/// Whether a pair is the key and the initial counter of a mirror video stream.
pub open spec fn are_video_keys(keys: ([u8; 16], [u8; 16]), shk: Seq<u8>, id: int) -> bool {
    &&& keys.0@ == stream_secret("AirPlayStreamKey"@, shk, id)
    &&& keys.1@ == stream_secret("AirPlayStreamIV"@, shk, id)
}

/// Derives the key and the initial counter of a mirror video stream.
pub fn derive_mirror_video_keys(shk: &[u8; 16], stream_connection_id: i64) -> (r: (
    [u8; 16],
    [u8; 16],
))
    ensures
        are_video_keys(r, shk@, stream_connection_id as int),
{
    let key = labelled_secret("AirPlayStreamKey", shk, stream_connection_id);
    let iv = labelled_secret("AirPlayStreamIV", shk, stream_connection_id);
    (key, iv)
}

/// The shared key and the stream alone decide the keys: both ends derive the same ones.
pub proof fn law_video_keys_agree(
    a: ([u8; 16], [u8; 16]),
    b: ([u8; 16], [u8; 16]),
    shk: Seq<u8>,
    id: int,
)
    requires
        are_video_keys(a, shk, id),
        are_video_keys(b, shk, id),
    ensures
        a.0@ == b.0@,
        a.1@ == b.1@,
{
}

/// The key and the initial counter are cut from the SHA-512 of two inputs that differ, whatever
/// the shared key and the stream: they can only be the same where the hash gives two inputs the
/// same first sixteen bytes.
pub proof fn law_video_keys_have_own_inputs(keys: ([u8; 16], [u8; 16]), shk: Seq<u8>, id: int)
    requires
        are_video_keys(keys, shk, id),
    ensures
        secret_input("AirPlayStreamKey"@, shk, id) != secret_input("AirPlayStreamIV"@, shk, id),
        keys.0@ == primitives::sha512(secret_input("AirPlayStreamKey"@, shk, id)).take(16),
        keys.1@ == primitives::sha512(secret_input("AirPlayStreamIV"@, shk, id)).take(16),
{
    reveal_strlit("AirPlayStreamKey");
    reveal_strlit("AirPlayStreamIV");
    let key_name = "AirPlayStreamKey"@ + text::decimal(unsigned(id));
    let iv_name = "AirPlayStreamIV"@ + text::decimal(unsigned(id));
    let (a, b) = (text::utf8(key_name), text::utf8(iv_name));
    if a + shk == b + shk {
        assert((a + shk).len() == a.len() + shk.len() && (b + shk).len() == b.len() + shk.len());
        assert(a =~= (a + shk).take(a.len() as int));
        assert(b =~= (b + shk).take(b.len() as int));
        vstd::utf8::encode_utf8_decode_utf8(key_name);
        vstd::utf8::encode_utf8_decode_utf8(iv_name);
        assert(key_name.len() == iv_name.len());
    }
}

/// `data` under the keystream from byte `offset` on.
pub open spec fn ctr_xor(key: Seq<u8>, iv: Seq<u8>, offset: nat, data: Seq<u8>) -> Seq<u8> {
    Seq::new(
        data.len(),
        |i: int| data[i] ^ primitives::aes_ctr_byte(key, iv, (offset + i) as nat),
    )
}

/// Keystream bytes that are left in the block that `offset` stands in.
pub open spec fn left_in_block(offset: nat) -> nat {
    ((16 - offset % 16) % 16) as nat
}

/// Where the keystream goes on after a frame: behind it, or, after a frame too short to use
/// up what was left of a block, at the next block.
pub open spec fn next_offset(offset: nat, len: nat) -> nat {
    if len < left_in_block(offset) {
        offset + left_in_block(offset)
    } else {
        offset + len
    }
}

/// Cipher that keeps its place in the keystream from frame to frame.
pub struct MirrorAesCtr {
    key: [u8; 16],
    iv: [u8; 16],
    offset: u64,
}

impl MirrorAesCtr {
    pub closed spec fn key(&self) -> Seq<u8> {
        self.key@
    }

    pub closed spec fn iv(&self) -> Seq<u8> {
        self.iv@
    }

    /// Keystream position of the next frame.
    pub closed spec fn offset(&self) -> nat {
        self.offset as nat
    }

    pub fn new(key: &[u8; 16], iv: &[u8; 16]) -> (r: Self)
        ensures
            r.key() == key@,
            r.iv() == iv@,
            r.offset() == 0,
    {
        MirrorAesCtr { key: *key, iv: *iv, offset: 0 }
    }

    /// Whether the keystream position has room for a frame of `len` bytes.
    pub fn has_room(&self, len: usize) -> (r: bool)
        ensures
            r == (self.offset() + len + 16 <= u64::MAX),
    {
        len as u64 <= 0xffff_ffff_ffff_ffef && self.offset <= 0xffff_ffff_ffff_ffef - len as u64
    }

    /// Encrypts one frame; the ciphertext is as long as the payload.
    pub fn encrypt_frame(&mut self, payload: &[u8]) -> (r: Vec<u8>)
        requires
            old(self).offset() + payload@.len() + 16 <= u64::MAX,
        ensures
            r@ == ctr_xor(old(self).key(), old(self).iv(), old(self).offset(), payload@),
            r@.len() == payload@.len(),
            final(self).key() == old(self).key(),
            final(self).iv() == old(self).iv(),
            final(self).offset() == next_offset(old(self).offset(), payload@.len()),
    {
        let out = primitives::aes_ctr_apply(&self.key, &self.iv, self.offset, payload);
        assert(out@ =~= ctr_xor(self.key@, self.iv@, self.offset as nat, payload@));
        let left: u64 = (16 - self.offset % 16) % 16;
        if (payload.len() as u64) < left {
            self.offset = self.offset + left;
        } else {
            self.offset = self.offset + payload.len() as u64;
        }
        out
    }
}

/// Encrypting a ciphertext from the same place in the keystream gives the plaintext.
pub proof fn law_ctr_involution(key: Seq<u8>, iv: Seq<u8>, offset: nat, data: Seq<u8>)
    ensures
        ctr_xor(key, iv, offset, ctr_xor(key, iv, offset, data)) == data,
{
    let once = ctr_xor(key, iv, offset, data);
    let twice = ctr_xor(key, iv, offset, once);
    assert forall|i: int| 0 <= i < data.len() implies twice[i] == data[i] by {
        let d = data[i];
        let k = primitives::aes_ctr_byte(key, iv, (offset + i) as nat);
        assert((d ^ k) ^ k == d) by (bit_vector);
    }
    assert(twice =~= data);
}

/// Frames that use up what was left of a block are encrypted as one continuous stream.
pub proof fn law_ctr_continuous(
    key: Seq<u8>,
    iv: Seq<u8>,
    offset: nat,
    first: Seq<u8>,
    second: Seq<u8>,
)
    requires
        first.len() >= left_in_block(offset),
    ensures
        ctr_xor(key, iv, offset, first) + ctr_xor(
            key,
            iv,
            next_offset(offset, first.len()),
            second,
        ) == ctr_xor(key, iv, offset, first + second),
{
    let a = ctr_xor(key, iv, offset, first);
    let b = ctr_xor(key, iv, offset + first.len(), second);
    let all = ctr_xor(key, iv, offset, first + second);
    assert forall|i: int| 0 <= i < all.len() implies (a + b)[i] == all[i] by {
        if i >= first.len() {
            assert(offset + first.len() + (i - first.len()) == offset + i);
        }
    }
    assert(a + b =~= all);
}

/// The keystream position never goes back, and after a frame too short for what was left of a
/// block it stands at a block boundary.
pub proof fn law_offset_advances(offset: nat, len: nat)
    ensures
        next_offset(offset, len) >= offset + len,
        len < left_in_block(offset) ==> next_offset(offset, len) % 16 == 0,
{
}

/// What a cipher makes of frames that come one after the other, from byte `offset` on.
pub open spec fn frames_xor(
    key: Seq<u8>,
    iv: Seq<u8>,
    offset: nat,
    frames: Seq<Seq<u8>>,
) -> Seq<Seq<u8>>
    decreases frames.len(),
{
    if frames.len() == 0 {
        Seq::empty()
    } else {
        seq![ctr_xor(key, iv, offset, frames[0])] + frames_xor(
            key,
            iv,
            next_offset(offset, frames[0].len()),
            frames.skip(1),
        )
    }
}

/// A second cipher that starts in step with the first gives all its frames back, however long
/// each of them is, and no frame changes its length.
pub proof fn law_frames_round_trip(
    key: Seq<u8>,
    iv: Seq<u8>,
    offset: nat,
    frames: Seq<Seq<u8>>,
)
    ensures
        frames_xor(key, iv, offset, frames_xor(key, iv, offset, frames)) == frames,
        frames_xor(key, iv, offset, frames).len() == frames.len(),
        forall|i: int|
            0 <= i < frames.len() ==> (#[trigger] frames_xor(key, iv, offset, frames)[i]).len()
                == frames[i].len(),
    decreases frames.len(),
{
    let sent = frames_xor(key, iv, offset, frames);
    if frames.len() > 0 {
        let first = ctr_xor(key, iv, offset, frames[0]);
        let next = next_offset(offset, frames[0].len());
        let rest = frames_xor(key, iv, next, frames.skip(1));
        law_frames_round_trip(key, iv, next, frames.skip(1));
        law_ctr_involution(key, iv, offset, frames[0]);
        assert(sent == seq![first] + rest);
        assert(sent[0] == first);
        assert(sent.skip(1) =~= rest);
        assert(seq![frames[0]] + frames.skip(1) =~= frames);
        assert forall|i: int| 0 <= i < frames.len() implies (#[trigger] sent[i]).len()
            == frames[i].len() by {
            if i > 0 {
                assert(sent[i] == rest[i - 1]);
            }
        }
    } else {
        assert(frames =~= Seq::empty());
    }
}

/// The input of a secret is the label, the number of the stream without its sign and the shared key
/// behind them, and no two streams, and no two shared keys, have the same input.
pub proof fn law_streams_have_own_inputs(
    label: Seq<char>,
    shk: Seq<u8>,
    id: i64,
    other_shk: Seq<u8>,
    other: i64,
)
    requires
        shk.len() == 16,
        other_shk.len() == 16,
        (shk, id) != (other_shk, other),
    ensures
        secret_input(label, shk, id as int) == vstd::utf8::encode_utf8(
            label + text::decimal(
                if id < 0 {
                    (id + 18446744073709551616) as nat
                } else {
                    id as nat
                },
            ),
        ) + shk,
        stream_secret(label, shk, id as int) == primitives::sha512(
            secret_input(label, shk, id as int),
        ).take(16),
        secret_input(label, shk, id as int) != secret_input(label, other_shk, other as int),
{
    let (m, n) = (unsigned(id as int), unsigned(other as int));
    let (s, t) = (label + text::decimal(m), label + text::decimal(n));
    let (a, b) = (text::utf8(s) + shk, text::utf8(t) + other_shk);
    if a == b {
        assert(a.skip(a.len() - 16) =~= shk);
        assert(b.skip(b.len() - 16) =~= other_shk);
        assert(a.take(a.len() - 16) =~= text::utf8(s));
        assert(b.take(b.len() - 16) =~= text::utf8(t));
        vstd::utf8::encode_utf8_decode_utf8(s);
        vstd::utf8::encode_utf8_decode_utf8(t);
        assert(s.skip(label.len() as int) =~= text::decimal(m));
        assert(t.skip(label.len() as int) =~= text::decimal(n));
        text::lemma_decimal_digits(m);
        text::lemma_decimal_digits(n);
    }
}

/// Where the next frame begins in the key stream: right behind the last one, except that a frame
/// which ends inside the block that it began in uses the block up.
pub proof fn law_next_frame_begins(offset: nat, len: nat)
    ensures
        offset % 16 == 0 ==> next_offset(offset, len) == offset + len,
        len >= 15 ==> next_offset(offset, len) == offset + len,
        offset % 16 != 0 && offset % 16 + len < 16 ==> next_offset(offset, len) == offset + 16
            - offset % 16,
        offset % 16 != 0 && offset % 16 + len >= 16 ==> next_offset(offset, len) == offset + len,
{
}
} // verus!
