//! Packets of the mirror data channel, and the NAL units that they carry.

use crate::binary;
use crate::bytes;
use crate::ntp::{self, SessionClock, Span};
use vstd::arithmetic::power;
use vstd::prelude::*;

verus! {

/// Length of a packet header.
pub const PACKET_HEADER_LEN: usize = 128;

/// Longest NAL unit accepted in a length-prefixed stream.
pub const MAX_NAL_LEN: usize = 16777216;

/// Playout bias of a latency in samples at 44100 a second.
pub fn bias_from_audio_latency_samples(samples: u32) -> (r: Span)
    ensures
        r.wf(),
        r.total() == samples as nat * 1_000_000_000 / 44100,
{
    Span::from_nanos(samples as u64 * 1_000_000_000 / 44100)
}

/// The playout bias that is used: five milliseconds at least.
pub open spec fn used_bias(bias: nat) -> nat {
    if bias < 5_000_000 {
        5_000_000
    } else {
        bias
    }
}

/// The timestamp of a frame, given the time since the start of the session.
pub fn ntp_time_at(elapsed: Span, bias: Span) -> (r: u64)
    requires
        elapsed.wf(),
        bias.wf(),
    ensures
        r == ntp::fixed_point(elapsed.total() + used_bias(bias.total()), 0),
{
    let least = Span::from_millis(5);
    let used = bias.longer(&least);
    ntp::ntp_boot_at_with_bias(elapsed, used)
}

/// The current timestamp of a frame with a playout bias, from the start of the session on.
pub fn ntp_time_with_bias(clock: &SessionClock, bias: Span) -> (r: u64)
    requires
        bias.wf(),
    ensures
        exists|e: Span|
            e.wf() && r == #[trigger] ntp::fixed_point(e.total() + used_bias(bias.total()), 0),
{
    let e = clock.elapsed();
    ntp_time_at(e, bias)
}

/// The current timestamp on the clock of the session, without a playout bias.
pub fn ntp_time_now(clock: &SessionClock) -> (r: u64)
    ensures
        exists|e: Span| e.wf() && r == #[trigger] ntp::fixed_point(e.total(), 0),
{
    let e = clock.elapsed();
    ntp::ntp_boot_at_with_bias(e, Span::zero())
}

/// Little-endian bytes of the single-precision number nearest to `v`.
pub open spec fn float_bytes(v: nat) -> Seq<u8> {
    bytes::le_bytes(binary::single_bits(v), 4)
}

/// Header of a packet that carries the codec configuration.
pub open spec fn codec_header(
    content_width: nat,
    content_height: nat,
    display_width: nat,
    display_height: nat,
    payload_len: nat,
    ntp_timestamp: nat,
) -> Seq<u8> {
    bytes::le_bytes(payload_len, 4) + seq![1u8, 0, 0x16, 1] + bytes::le_bytes(ntp_timestamp, 8)
        + float_bytes(content_width) + float_bytes(content_height) + bytes::zeros(16)
        + float_bytes(content_width) + float_bytes(content_height) + bytes::zeros(8)
        + float_bytes(display_width) + float_bytes(display_height) + bytes::zeros(64)
}

/// Header of a packet that carries picture data.
pub open spec fn video_header(payload_len: nat, is_keyframe: bool, ntp_timestamp: nat) -> Seq<u8> {
    bytes::le_bytes(payload_len, 4) + seq![
        0u8,
        if is_keyframe {
            0x10
        } else {
            0
        },
        0,
        0,
    ] + bytes::le_bytes(ntp_timestamp, 8) + bytes::zeros(112)
}

/// Header of a keepalive packet.
pub open spec fn heartbeat_header() -> Seq<u8> {
    seq![0u8, 0, 0, 0, 2, 0, 0x1e, 0] + bytes::zeros(120)
}

fn header_array(v: &Vec<u8>) -> (r: [u8; 128])
    requires
        v@.len() == 128,
    ensures
        r@ == v@,
{
    let mut a: [u8; 128] = [0u8; 128];
    let mut i: usize = 0;
    while i < 128
        invariant
            i <= 128,
            v@.len() == 128,
            forall|j: int| 0 <= j < i ==> a@[j] == v@[j],
        decreases 128 - i,
    {
        a[i] = v[i];
        i += 1;
    }
    assert(a@ =~= v@);
    a
}

fn put_f32_le(out: &mut Vec<u8>, v: u32)
    ensures
        final(out)@ == old(out)@ + float_bytes(v as nat),
        float_bytes(v as nat).len() == 4,
{
    proof {
        bytes::lemma_le_bytes_len(binary::single_bits(v as nat), 4);
    }
    let b = bytes::u32_le(binary::single_from(v));
    bytes::extend(out, &b);
}

/// Header of an unencrypted codec configuration packet, type 1. The content size stands at
/// offsets 16 and 40, the display size at 56.
pub fn build_codec_header(
    content_width: u32,
    content_height: u32,
    display_width: u32,
    display_height: u32,
    payload_len: usize,
    ntp_timestamp: u64,
) -> (r: [u8; 128])
    ensures
        r@ == codec_header(
            content_width as nat,
            content_height as nat,
            display_width as nat,
            display_height as nat,
            payload_len as nat,
            ntp_timestamp as nat,
        ),
{
    let mut out: Vec<u8> = Vec::new();
    proof {
        bytes::lemma_le_bytes_len(payload_len as nat, 4);
        bytes::lemma_le_bytes_len(ntp_timestamp as nat, 8);
    }
    bytes::extend(&mut out, &bytes::len_le32(payload_len));
    assert(out@ =~= bytes::le_bytes(payload_len as nat, 4));
    let kind: [u8; 4] = [1u8, 0, 0x16, 1];
    assert(kind@ =~= seq![1u8, 0, 0x16, 1]);
    bytes::extend(&mut out, &kind);
    bytes::extend(&mut out, &bytes::u64_le(ntp_timestamp));
    put_f32_le(&mut out, content_width);
    put_f32_le(&mut out, content_height);
    bytes::extend(&mut out, &bytes::zero_vec(16));
    put_f32_le(&mut out, content_width);
    put_f32_le(&mut out, content_height);
    bytes::extend(&mut out, &bytes::zero_vec(8));
    put_f32_le(&mut out, display_width);
    put_f32_le(&mut out, display_height);
    bytes::extend(&mut out, &bytes::zero_vec(64));
    header_array(&out)
}

/// Header of an encrypted picture packet, type 0.
pub fn build_video_header(payload_len: usize, is_keyframe: bool, ntp_timestamp: u64) -> (r: [u8;
    128])
    ensures
        r@ == video_header(payload_len as nat, is_keyframe, ntp_timestamp as nat),
{
    let mut out: Vec<u8> = Vec::new();
    proof {
        bytes::lemma_le_bytes_len(payload_len as nat, 4);
        bytes::lemma_le_bytes_len(ntp_timestamp as nat, 8);
    }
    bytes::extend(&mut out, &bytes::len_le32(payload_len));
    assert(out@ =~= bytes::le_bytes(payload_len as nat, 4));
    let flag: u8 = if is_keyframe {
        0x10
    } else {
        0
    };
    let kind: [u8; 4] = [0u8, flag, 0, 0];
    assert(kind@ =~= seq![0u8, flag, 0, 0]);
    bytes::extend(&mut out, &kind);
    bytes::extend(&mut out, &bytes::u64_le(ntp_timestamp));
    bytes::extend(&mut out, &bytes::zero_vec(112));
    header_array(&out)
}

/// Header of a keepalive packet, type 2, without payload.
pub fn build_heartbeat_header() -> (r: [u8; 128])
    ensures
        r@ == heartbeat_header(),
{
    let kind: [u8; 8] = [0u8, 0, 0, 0, 2, 0, 0x1e, 0];
    let mut out: Vec<u8> = Vec::new();
    bytes::extend(&mut out, &kind);
    bytes::extend(&mut out, &bytes::zero_vec(120));
    assert(out@ =~= heartbeat_header());
    header_array(&out)
}

/// A packet that a header of 128 bytes begins, which gives the length of what follows in its first
/// four bytes.
pub open spec fn is_framed(packet: Seq<u8>, body_len: nat) -> bool {
    packet.len() == PACKET_HEADER_LEN + body_len && packet.take(4) == bytes::le_bytes(body_len, 4)
}

/// A picture header frames a body of the length that it was made for.
pub proof fn law_video_header_frames(body: Seq<u8>, is_keyframe: bool, ts: nat)
    ensures
        is_framed(video_header(body.len(), is_keyframe, ts) + body, body.len()),
{
    bytes::lemma_le_bytes_len(body.len(), 4);
    bytes::lemma_le_bytes_len(ts, 8);
    let packet = video_header(body.len(), is_keyframe, ts) + body;
    assert(packet.take(4) =~= bytes::le_bytes(body.len(), 4));
}

/// A codec configuration header frames a body of the length that it was made for.
pub proof fn law_codec_header_frames(
    content_width: nat,
    content_height: nat,
    display_width: nat,
    display_height: nat,
    body: Seq<u8>,
    ts: nat,
)
    ensures
        is_framed(
            codec_header(
                content_width,
                content_height,
                display_width,
                display_height,
                body.len(),
                ts,
            ) + body,
            body.len(),
        ),
{
    bytes::lemma_le_bytes_len(body.len(), 4);
    bytes::lemma_le_bytes_len(ts, 8);
    bytes::lemma_le_bytes_len(binary::single_bits(content_width), 4);
    bytes::lemma_le_bytes_len(binary::single_bits(content_height), 4);
    bytes::lemma_le_bytes_len(binary::single_bits(display_width), 4);
    bytes::lemma_le_bytes_len(binary::single_bits(display_height), 4);
    let packet = codec_header(
        content_width,
        content_height,
        display_width,
        display_height,
        body.len(),
        ts,
    ) + body;
    assert(packet.take(4) =~= bytes::le_bytes(body.len(), 4));
}

/// A three-byte start code at `i`.
pub open spec fn short_code_at(data: Seq<u8>, i: int) -> bool {
    i + 3 <= data.len() && data[i] == 0 && data[i + 1] == 0 && data[i + 2] == 1
}

/// A four-byte start code at `i`.
pub open spec fn long_code_at(data: Seq<u8>, i: int) -> bool {
    i + 4 <= data.len() && data[i] == 0 && data[i + 1] == 0 && data[i + 2] == 0 && data[i + 3] == 1
}

/// A start code of either kind at `i`.
pub open spec fn code_at(data: Seq<u8>, i: int) -> bool {
    short_code_at(data, i) || long_code_at(data, i)
}

/// Where the NAL unit that is read at `i` ends: at the next start code, or with the data.
pub open spec fn nal_end(data: Seq<u8>, i: int) -> int
    decreases data.len() - i,
{
    if i >= data.len() {
        data.len() as int
    } else if code_at(data, i) {
        i
    } else {
        nal_end(data, i + 1)
    }
}

pub proof fn lemma_nal_end(data: Seq<u8>, i: int)
    requires
        0 <= i <= data.len(),
    ensures
        i <= nal_end(data, i) <= data.len(),
        forall|k: int| i <= k < nal_end(data, i) ==> !code_at(data, k),
        nal_end(data, i) < data.len() ==> code_at(data, nal_end(data, i)),
    decreases data.len() - i,
{
    if i < data.len() && !code_at(data, i) {
        lemma_nal_end(data, i + 1);
    }
}

/// Position behind the start code at `i`, if there is one.
pub open spec fn after_code(data: Seq<u8>, i: int) -> Option<int> {
    if short_code_at(data, i) {
        Some(i + 3)
    } else if long_code_at(data, i) {
        Some(i + 4)
    } else {
        None
    }
}

/// The NAL units found from position `i` on: what stands between two start codes, where anything
/// does, and what stands behind the last one.
pub open spec fn nals_from(data: Seq<u8>, i: int) -> Seq<Seq<u8>>
    decreases data.len() - i,
{
    if i < 0 || i >= data.len() {
        Seq::empty()
    } else {
        match after_code(data, i) {
            None => nals_from(data, i + 1),
            Some(start) => {
                proof {
                    lemma_nal_end(data, start);
                }
                let end = nal_end(data, start);
                if start < end {
                    seq![data.subrange(start, end)] + nals_from(data, end)
                } else {
                    nals_from(data, start)
                }
            },
        }
    }
}

/// Neither empty nor holding a start code.
pub open spec fn is_bare(nal: Seq<u8>) -> bool {
    &&& nal.len() > 0
    &&& forall|k: int| 0 <= k ==> !#[trigger] short_code_at(nal, k)
}

proof fn lemma_units_bare(data: Seq<u8>, i: int)
    requires
        0 <= i,
    ensures
        forall|k: int|
            0 <= k < nals_from(data, i).len() ==> is_bare(#[trigger] nals_from(data, i)[k]),
    decreases data.len() - i,
{
    let all = nals_from(data, i);
    if i < data.len() {
        match after_code(data, i) {
            None => {
                lemma_units_bare(data, i + 1);
                assert(all == nals_from(data, i + 1));
            },
            Some(start) => {
                lemma_nal_end(data, start);
                let end = nal_end(data, start);
                if start < end {
                    lemma_units_bare(data, end);
                    let nal = data.subrange(start, end);
                    assert(is_bare(nal)) by {
                        assert forall|k: int| 0 <= k implies !#[trigger] short_code_at(nal, k) by {
                            if short_code_at(nal, k) {
                                assert(data[start + k] == nal[k] && data[start + k + 1] == nal[k
                                    + 1] && data[start + k + 2] == nal[k + 2]);
                                assert(code_at(data, start + k));
                            }
                        }
                    }
                    let rest = nals_from(data, end);
                    assert(all == seq![nal] + rest);
                    assert forall|k: int| 0 <= k < all.len() implies is_bare(#[trigger] all[k]) by {
                        if k > 0 {
                            assert(all[k] == rest[k - 1]);
                        }
                    }
                } else {
                    lemma_units_bare(data, start);
                    assert(all == nals_from(data, start));
                }
            },
        }
    }
}

/// Whatever the data, the units that it is split into are not empty and hold no start code.
pub proof fn law_units_hold_no_code(data: Seq<u8>)
    ensures
        forall|k: int|
            0 <= k < nals_from(data, 0).len() ==> is_bare(#[trigger] nals_from(data, 0)[k]),
{
    lemma_units_bare(data, 0);
}

/// Splits a byte stream at its start codes into NAL units without them.
pub fn split_annex_b(data: &[u8]) -> (r: Vec<Vec<u8>>)
    ensures
        bytes::views(r@) == nals_from(data@, 0),
        forall|k: int| 0 <= k < r@.len() ==> is_bare((#[trigger] r@[k])@),
{
    let mut nals: Vec<Vec<u8>> = Vec::new();
    let mut i: usize = 0;
    assert(bytes::views(nals@) + nals_from(data@, 0) =~= nals_from(data@, 0));
    while i < data.len()
        invariant
            bytes::views(nals@) + nals_from(data@, i as int) == nals_from(data@, 0),
            i <= data.len(),
        decreases data.len() - i,
    {
        let left: usize = data.len() - i;
        let start: usize;
        if left >= 3 && data[i] == 0 && data[i + 1] == 0 && data[i + 2] == 1 {
            start = i + 3;
        } else if left >= 4 && data[i] == 0 && data[i + 1] == 0 && data[i + 2] == 0 && data[i + 3]
            == 1 {
            start = i + 4;
        } else {
            i += 1;
            continue ;
        }
        let mut end: usize = data.len();
        let mut j: usize = start;
        while j < data.len()
            invariant_except_break
                start <= j <= data.len(),
                end == data.len(),
                nal_end(data@, start as int) == nal_end(data@, j as int),
            invariant
                start <= data.len(),
            ensures
                end == nal_end(data@, start as int),
                start <= end <= data.len(),
            decreases data.len() - j,
        {
            let room: usize = data.len() - j;
            if room >= 3 && data[j] == 0 && data[j + 1] == 0 && (data[j + 2] == 1 || (room >= 4
                && data[j + 2] == 0 && data[j + 3] == 1)) {
                end = j;
                break ;
            }
            j += 1;
        }
        if start < end {
            let nal = bytes::sub_vec(data, start, end);
            let ghost before = nals@;
            nals.push(nal);
            proof {
                let rest = nals_from(data@, end as int);
                assert(bytes::views(nals@) =~= bytes::views(before).push(nal@));
                assert(bytes::views(nals@) + rest =~= bytes::views(before) + (seq![
                    data@.subrange(start as int, end as int),
                ] + rest));
            }
        }
        i = end;
    }
    assert(bytes::views(nals@) + nals_from(data@, i as int) =~= bytes::views(nals@));
    proof {
        law_units_hold_no_code(data@);
        assert forall|k: int| 0 <= k < nals@.len() implies is_bare((#[trigger] nals@[k])@) by {
            assert(bytes::views(nals@)[k] == nals@[k]@);
        }
    }
    nals
}

/// Codec configuration: profile bytes, one sequence parameter set and one picture parameter
/// set, each with its length, and a trailer.
pub open spec fn avcc_config(sps: Seq<u8>, pps: Seq<u8>) -> Seq<u8> {
    let profile = if sps.len() >= 4 {
        sps.subrange(1, 4)
    } else {
        bytes::zeros(3)
    };
    seq![1u8] + profile + seq![0xffu8, 0xe1] + bytes::be_bytes(sps.len(), 2) + sps + seq![1u8]
        + bytes::be_bytes(pps.len(), 2) + pps + seq![2u8, 0, 0, 0]
}

/// Builds the payload of a codec configuration packet.
pub fn build_avcc_config(sps: &[u8], pps: &[u8]) -> (r: Vec<u8>)
    ensures
        r@ == avcc_config(sps@, pps@),
{
    let mut out: Vec<u8> = Vec::new();
    out.push(1u8);
    assert(out@ =~= seq![1u8]);
    if sps.len() >= 4 {
        bytes::extend(&mut out, &bytes::sub_vec(sps, 1, 4));
    } else {
        bytes::extend(&mut out, &bytes::zero_vec(3));
    }
    let mark: [u8; 2] = [0xffu8, 0xe1];
    assert(mark@ =~= seq![0xffu8, 0xe1]);
    bytes::extend(&mut out, &mark);
    bytes::extend(&mut out, &bytes::len_be16(sps.len()));
    bytes::extend(&mut out, sps);
    let one: [u8; 1] = [1u8];
    assert(one@ =~= seq![1u8]);
    bytes::extend(&mut out, &one);
    bytes::extend(&mut out, &bytes::len_be16(pps.len()));
    bytes::extend(&mut out, pps);
    let tail: [u8; 4] = [2u8, 0, 0, 0];
    assert(tail@ =~= seq![2u8, 0, 0, 0]);
    bytes::extend(&mut out, &tail);
    out
}

/// Each NAL unit behind the low 32 bits of its length.
pub open spec fn length_prefixed(nals: Seq<Seq<u8>>) -> Seq<u8>
    decreases nals.len(),
{
    if nals.len() == 0 {
        Seq::empty()
    } else {
        length_prefixed(nals.drop_last()) + bytes::be_bytes(nals.last().len(), 4) + nals.last()
    }
}

/// Joins NAL units, each behind its length.
pub fn nals_to_avcc(nals: &[Vec<u8>]) -> (r: Vec<u8>)
    ensures
        r@ == length_prefixed(bytes::views(nals@)),
{
    let mut out: Vec<u8> = Vec::new();
    let mut i: usize = 0;
    while i < nals.len()
        invariant
            i <= nals@.len(),
            out@ == length_prefixed(bytes::views(nals@).take(i as int)),
        decreases nals.len() - i,
    {
        bytes::extend(&mut out, &bytes::len_be32(nals[i].len()));
        bytes::extend(&mut out, &nals[i]);
        i += 1;
        proof {
            let v = bytes::views(nals@);
            assert(v.take(i as int).drop_last() =~= v.take(i - 1));
            assert(v.take(i as int).last() == nals@[i - 1]@);
        }
    }
    assert(bytes::views(nals@).take(i as int) =~= bytes::views(nals@));
    out
}

/// Whether data begins with a start code.
pub open spec fn starts_with_code(data: Seq<u8>) -> bool {
    long_code_at(data, 0) || short_code_at(data, 0)
}

/// Whether a usable length prefix, with its unit, stands at `off`.
pub open spec fn unit_at(data: Seq<u8>, off: int) -> bool {
    off + 4 <= data.len() && {
        let len = bytes::be_value(data.subrange(off, off + 4));
        0 < len <= MAX_NAL_LEN && off + 4 + len <= data.len()
    }
}

/// The length-prefixed units from `off` on, up to the first that is not usable.
pub open spec fn units_from(data: Seq<u8>, off: int) -> Seq<Seq<u8>>
    decreases data.len() - off,
{
    if 0 <= off && unit_at(data, off) {
        let len = bytes::be_value(data.subrange(off, off + 4)) as int;
        seq![data.subrange(off + 4, off + 4 + len)] + units_from(data, off + 4 + len)
    } else {
        Seq::empty()
    }
}

/// The NAL units in encoder output: split at start codes where it begins with one, else
/// length-prefixed, else one unit as it is.
pub open spec fn nals_of(data: Seq<u8>) -> Seq<Seq<u8>> {
    if starts_with_code(data) {
        nals_from(data, 0)
    } else if units_from(data, 0).len() == 0 && data.len() > 0 {
        seq![data]
    } else {
        units_from(data, 0)
    }
}

fn has_annex_b_start(data: &[u8]) -> (r: bool)
    ensures
        r == starts_with_code(data@),
{
    if data.len() >= 4 && data[0] == 0 && data[1] == 0 && data[2] == 0 && data[3] == 1 {
        return true;
    }
    data.len() >= 3 && data[0] == 0 && data[1] == 0 && data[2] == 1
}

/// Extracts the NAL units, without start codes or lengths, from encoder output.
pub fn extract_nals(data: &[u8]) -> (r: Vec<Vec<u8>>)
    ensures
        bytes::views(r@) == nals_of(data@),
{
    if has_annex_b_start(data) {
        return split_annex_b(data);
    }
    let mut nals: Vec<Vec<u8>> = Vec::new();
    let mut off: usize = 0;
    assert(bytes::views(nals@) + units_from(data@, 0) =~= units_from(data@, 0));
    while data.len() - off >= 4
        invariant_except_break
            off <= data.len(),
            bytes::views(nals@) + units_from(data@, off as int) == units_from(data@, 0),
        ensures
            bytes::views(nals@) == units_from(data@, 0),
        decreases data.len() - off,
    {
        let len: usize = bytes::u32_from_be(data, off) as usize;
        if len == 0 || len > MAX_NAL_LEN || len > data.len() - off - 4 {
            assert(bytes::views(nals@) + units_from(data@, off as int) =~= bytes::views(nals@));
            break ;
        }
        let nal = bytes::sub_vec(data, off + 4, off + 4 + len);
        let ghost before = nals@;
        nals.push(nal);
        proof {
            let rest = units_from(data@, off + 4 + len);
            assert(bytes::views(nals@) =~= bytes::views(before).push(nal@));
            assert(bytes::views(nals@) + rest =~= bytes::views(before) + (seq![nal@] + rest));
        }
        off = off + 4 + len;
        if data.len() - off < 4 {
            assert(bytes::views(nals@) + units_from(data@, off as int) =~= bytes::views(nals@));
        }
    }
    if nals.len() == 0 && data.len() > 0 {
        let all = bytes::to_vec(data);
        nals.push(all);
        assert(bytes::views(nals@) =~= seq![data@]);
    }
    nals
}

/// The type of a NAL unit: the low five bits of its first byte, zero for an empty one.
pub open spec fn nal_type(nal: Seq<u8>) -> u8 {
    if nal.len() == 0 {
        0
    } else {
        nal[0] & 0x1f
    }
}

/// The last unit of type `t`.
pub open spec fn last_of_type(nals: Seq<Seq<u8>>, t: u8) -> Option<Seq<u8>>
    decreases nals.len(),
{
    if nals.len() == 0 {
        None
    } else if nal_type(nals.last()) == t {
        Some(nals.last())
    } else {
        last_of_type(nals.drop_last(), t)
    }
}

/// Units of types 1 to 5 carry picture data.
pub open spec fn is_vcl(nal: Seq<u8>) -> bool {
    1 <= nal_type(nal) <= 5
}

fn type_of(nal: &Vec<u8>) -> (r: u8)
    ensures
        r == nal_type(nal@),
{
    if nal.len() == 0 {
        0
    } else {
        nal[0] & 0x1f
    }
}

proof fn lemma_filter_contains(s: Seq<Seq<u8>>, keep: spec_fn(Seq<u8>) -> bool, n: Seq<u8>)
    ensures
        s.filter(keep).contains(n) <==> s.contains(n) && keep(n),
    decreases s.len(),
{
    reveal(Seq::filter);
    let kept = s.filter(keep);
    if s.len() > 0 {
        let (rest, last) = (s.drop_last(), s.last());
        lemma_filter_contains(rest, keep, n);
        let before = rest.filter(keep);
        assert(s[s.len() - 1] == last);
        if s.contains(n) && n != last {
            let i = choose|i: int| 0 <= i < s.len() && s[i] == n;
            assert(rest[i] == n);
        }
        if rest.contains(n) {
            let i = choose|i: int| 0 <= i < rest.len() && rest[i] == n;
            assert(s[i] == n);
        }
        if keep(last) {
            assert(kept == before.push(last));
            assert(kept[kept.len() - 1] == last);
            if before.contains(n) {
                let i = choose|i: int| 0 <= i < before.len() && before[i] == n;
                assert(kept[i] == n);
            }
            if kept.contains(n) && n != last {
                let i = choose|i: int| 0 <= i < kept.len() && kept[i] == n;
                assert(before[i] == n);
            }
        }
    }
}

/// Sorts an access unit: its last sequence parameter set, its last picture parameter set, and
/// its picture data units in order.
pub fn partition_access_unit(data: &[u8]) -> (r: (Option<Vec<u8>>, Option<Vec<u8>>, Vec<Vec<u8>>))
    ensures
        bytes::view_opt(r.0) == last_of_type(nals_of(data@), 7),
        bytes::view_opt(r.1) == last_of_type(nals_of(data@), 8),
        bytes::views(r.2@) == nals_of(data@).filter(|n: Seq<u8>| is_vcl(n)),
        forall|n: Seq<u8>|
            bytes::views(r.2@).contains(n) <==> nals_of(data@).contains(n) && #[trigger] n.len() > 0
                && 1 <= n[0] & 0x1f <= 5,
{
    let nals = extract_nals(data);
    let ghost all = nals_of(data@);
    let mut sps: Option<Vec<u8>> = None;
    let mut pps: Option<Vec<u8>> = None;
    let mut vcl: Vec<Vec<u8>> = Vec::new();
    let mut i: usize = 0;
    proof {
        reveal(Seq::filter);
        assert(bytes::views(vcl@) =~= all.take(0).filter(|n: Seq<u8>| is_vcl(n)));
    }
    while i < nals.len()
        invariant
            i <= nals@.len(),
            all == bytes::views(nals@),
            bytes::view_opt(sps) == last_of_type(all.take(i as int), 7),
            bytes::view_opt(pps) == last_of_type(all.take(i as int), 8),
            bytes::views(vcl@) == all.take(i as int).filter(|n: Seq<u8>| is_vcl(n)),
        decreases nals.len() - i,
    {
        let t: u8 = type_of(&nals[i]);
        let copy = bytes::to_vec(&nals[i]);
        proof {
            let part = all.take(i + 1);
            assert(part.drop_last() =~= all.take(i as int));
            assert(part.last() == nals@[i as int]@);
            reveal(Seq::filter);
        }
        if t == 7 {
            sps = Some(copy);
        } else if t == 8 {
            pps = Some(copy);
        } else if 1 <= t && t <= 5 {
            let ghost before = vcl@;
            vcl.push(copy);
            assert(bytes::views(vcl@) =~= bytes::views(before).push(copy@));
        }
        i += 1;
    }
    assert(all.take(i as int) =~= all);
    proof {
        assert forall|n: Seq<u8>|
            bytes::views(vcl@).contains(n) <==> all.contains(n) && #[trigger] n.len() > 0 && 1 <= n[0]
                & 0x1f <= 5 by {
            lemma_filter_contains(all, |n: Seq<u8>| is_vcl(n), n);
        }
    }
    (sps, pps, vcl)
}

/// The types of the NAL units in encoder output.
pub fn nal_type_summary(data: &[u8]) -> (r: Vec<u8>)
    ensures
        r@ == nals_of(data@).map_values(|n: Seq<u8>| nal_type(n)),
{
    let nals = extract_nals(data);
    let ghost all = nals_of(data@);
    let mut types: Vec<u8> = Vec::new();
    let mut i: usize = 0;
    while i < nals.len()
        invariant
            i <= nals@.len(),
            all == bytes::views(nals@),
            types@ == all.take(i as int).map_values(|n: Seq<u8>| nal_type(n)),
        decreases nals.len() - i,
    {
        types.push(type_of(&nals[i]));
        i += 1;
        assert(types@ =~= all.take(i as int).map_values(|n: Seq<u8>| nal_type(n)));
    }
    assert(all.take(i as int) =~= all);
    types
}

/// A start code of four bytes, or of three.
pub open spec fn start_code(long: bool) -> Seq<u8> {
    if long {
        seq![0u8, 0, 0, 1]
    } else {
        seq![0u8, 0, 1]
    }
}

/// Each NAL unit behind a start code, long or short as `long` says.
pub open spec fn annex_b(nals: Seq<Seq<u8>>, long: Seq<bool>) -> Seq<u8>
    decreases nals.len(),
{
    if nals.len() == 0 {
        Seq::empty()
    } else {
        start_code(long[0]) + nals[0] + annex_b(nals.skip(1), long.skip(1))
    }
}

/// Units that can be told from the start codes between them: bare ones, of which none ends in a
/// zero where a short code follows.
pub open spec fn can_be_split(nals: Seq<Seq<u8>>, long: Seq<bool>) -> bool {
    &&& long.len() == nals.len()
    &&& forall|k: int| 0 <= k < nals.len() ==> is_bare(#[trigger] nals[k])
    &&& forall|k: int|
        0 <= k && k + 1 < nals.len() && (#[trigger] nals[k]).last() == 0 ==> long[k + 1]
}

proof fn lemma_nal_end_at(data: Seq<u8>, i: int, end: int)
    requires
        0 <= i <= end <= data.len(),
        forall|k: int| i <= k < end ==> !#[trigger] code_at(data, k),
        end == data.len() || code_at(data, end),
    ensures
        nal_end(data, i) == end,
    decreases end - i,
{
    if i < end {
        assert(!code_at(data, i));
        lemma_nal_end_at(data, i + 1, end);
    }
}

proof fn lemma_split_tail(data: Seq<u8>, i: int, nals: Seq<Seq<u8>>, long: Seq<bool>)
    requires
        0 <= i <= data.len(),
        data.skip(i) == annex_b(nals, long),
        can_be_split(nals, long),
    ensures
        nals_from(data, i) == nals,
        nals.len() > 0 ==> code_at(data, i),
    decreases nals.len(),
{
    if nals.len() == 0 {
        assert(data.skip(i).len() == 0);
        assert(nals_from(data, i) =~= nals);
    } else {
        let tail = data.skip(i);
        let rest = nals.skip(1);
        let later = long.skip(1);
        let code = start_code(long[0]);
        let c = code.len() as int;
        let n = nals[0].len() as int;
        let nal = nals[0];
        assert(is_bare(nal));
        let start = i + c;
        let end = start + n;
        assert(tail.len() == c + n + annex_b(rest, later).len());
        assert forall|k: int| 0 <= k < tail.len() implies data[i + k] == tail[k] by {}
        assert forall|k: int| 0 <= k < c implies data[i + k] == code[k] by {
            assert(tail[k] == code[k]);
        }
        assert(data[i] == 0 && data[i + 1] == 0 && data[i + 2] == code[2]);
        if long[0] {
            assert(data[i + 3] == code[3]);
        }
        assert(after_code(data, i) == Some(start));
        assert forall|k: int| 0 <= k < n implies data[start + k] == nal[k] by {
            assert(data[i + (c + k)] == tail[c + k]);
        }
        assert(data.skip(end) =~= annex_b(rest, later)) by {
            assert forall|k: int| 0 <= k < annex_b(rest, later).len() implies data[end + k]
                == annex_b(rest, later)[k] by {
                assert(data[i + (c + n + k)] == tail[c + n + k]);
            }
        }
        assert(can_be_split(rest, later)) by {
            assert forall|k: int| 0 <= k < rest.len() implies is_bare(#[trigger] rest[k]) by {
                assert(rest[k] == nals[k + 1]);
            }
            assert forall|k: int|
                0 <= k && k + 1 < rest.len() && (#[trigger] rest[k]).last() == 0 implies later[k
                + 1] by {
                assert(rest[k] == nals[k + 1]);
            }
        }
        lemma_split_tail(data, end, rest, later);
        if rest.len() > 0 {
            assert(later[0] == long[1]);
            let more = data.skip(end);
            let next = start_code(long[1]);
            assert(more[0] == next[0] && more[1] == next[1] && more[2] == next[2]);
            assert(data[end] == 0 && data[end + 1] == 0 && data[end + 2] == next[2]);
            assert(long[1] || nal.last() != 0);
        } else {
            assert(end == data.len());
        }
        assert forall|k: int| start <= k < end implies !#[trigger] code_at(data, k) by {
            let j = k - start;
            assert(data[start + j] == nal[j]);
            if j + 1 < n {
                assert(data[start + (j + 1)] == nal[j + 1]);
            }
            if j + 2 < n {
                assert(data[start + (j + 2)] == nal[j + 2]);
            }
            if j + 3 < n {
                assert(data[start + (j + 3)] == nal[j + 3]);
            }
            assert(!short_code_at(nal, j));
            assert(!short_code_at(nal, j + 1));
        }
        lemma_nal_end_at(data, start, end);
        assert(data.subrange(start, end) =~= nal);
        assert(nals_from(data, i) =~= nals);
    }
}

/// NAL units written behind start codes of either length are read back one for one.
pub proof fn law_annex_b_roundtrip(nals: Seq<Seq<u8>>, long: Seq<bool>)
    requires
        can_be_split(nals, long),
    ensures
        nals_from(annex_b(nals, long), 0) == nals,
        nals_of(annex_b(nals, long)) == nals,
{
    let data = annex_b(nals, long);
    assert(data.skip(0) =~= data);
    lemma_split_tail(data, 0, nals, long);
    if nals.len() == 0 {
        assert(nals_of(data) =~= nals);
    }
}

proof fn lemma_prefixed_front(nal: Seq<u8>, rest: Seq<Seq<u8>>)
    ensures
        length_prefixed(seq![nal] + rest) == bytes::be_bytes(nal.len(), 4) + nal + length_prefixed(
            rest,
        ),
    decreases rest.len(),
{
    let all = seq![nal] + rest;
    if rest.len() == 0 {
        assert(all.drop_last() =~= Seq::<Seq<u8>>::empty());
        assert(all.last() == nal);
        assert(length_prefixed(all.drop_last()) =~= Seq::<u8>::empty());
        assert(length_prefixed(rest) =~= Seq::<u8>::empty());
        assert(length_prefixed(all) == length_prefixed(all.drop_last()) + bytes::be_bytes(
            nal.len(),
            4,
        ) + nal);
        assert(length_prefixed(all) =~= bytes::be_bytes(nal.len(), 4) + nal + length_prefixed(rest));
    } else {
        lemma_prefixed_front(nal, rest.drop_last());
        assert(all.drop_last() =~= seq![nal] + rest.drop_last());
        assert(all.last() == rest.last());
        let front = bytes::be_bytes(nal.len(), 4) + nal;
        let middle = length_prefixed(rest.drop_last());
        let size = bytes::be_bytes(rest.last().len(), 4);
        assert(length_prefixed(all) == front + middle + size + rest.last());
        assert(length_prefixed(rest) == middle + size + rest.last());
        assert(front + middle + size + rest.last() =~= front + (middle + size + rest.last()));
    }
}

proof fn lemma_units_tail(data: Seq<u8>, off: int, nals: Seq<Seq<u8>>)
    requires
        0 <= off <= data.len(),
        data.skip(off) == length_prefixed(nals),
        forall|k: int| 0 <= k < nals.len() ==> 0 < (#[trigger] nals[k]).len() <= MAX_NAL_LEN,
    ensures
        units_from(data, off) == nals,
    decreases nals.len(),
{
    let tail = data.skip(off);
    if nals.len() == 0 {
        assert(tail.len() == 0);
        assert(units_from(data, off) =~= nals);
    } else {
        let rest = nals.skip(1);
        let head = nals[0];
        let n = head.len() as int;
        let prefix = bytes::be_bytes(head.len(), 4);
        assert(nals =~= seq![head] + rest);
        lemma_prefixed_front(head, rest);
        bytes::lemma_be_bytes_len(head.len(), 4);
        bytes::lemma_be_value_of_be_bytes(head.len(), 4);
        assert(power::pow(256, 4) == 4294967296) by {
            reveal_with_fuel(power::pow, 5);
        }
        assert forall|k: int| 0 <= k < tail.len() implies data[off + k] == tail[k] by {}
        assert(tail.len() == 4 + n + length_prefixed(rest).len());
        assert(data.subrange(off, off + 4) =~= prefix) by {
            assert forall|k: int| 0 <= k < 4 implies data.subrange(off, off + 4)[k] == prefix[k] by {
                assert(data[off + k] == tail[k]);
                assert(tail[k] == prefix[k]);
            }
        }
        assert(data.subrange(off + 4, off + 4 + n) =~= head) by {
            assert forall|k: int| 0 <= k < n implies data[off + 4 + k] == head[k] by {
                assert(data[off + (4 + k)] == tail[4 + k]);
            }
        }
        assert(data.skip(off + 4 + n) =~= length_prefixed(rest)) by {
            assert forall|k: int| 0 <= k < length_prefixed(rest).len() implies data[off + 4 + n + k]
                == length_prefixed(rest)[k] by {
                assert(data[off + (4 + n + k)] == tail[4 + n + k]);
            }
        }
        assert(0 < nals[0].len() <= MAX_NAL_LEN);
        assert forall|k: int| 0 <= k < rest.len() implies 0 < (#[trigger] rest[k]).len()
            <= MAX_NAL_LEN by {
            assert(rest[k] == nals[k + 1]);
        }
        lemma_units_tail(data, off + 4 + n, rest);
        assert(units_from(data, off) =~= nals);
    }
}

/// NAL units written behind their lengths are read back one for one, unless the first length
/// reads as a start code: a length of 1, or one from 256 to 511. A unit may have 16 MiB.
pub proof fn law_length_prefix_roundtrip(nals: Seq<Seq<u8>>)
    requires
        forall|k: int| 0 <= k < nals.len() ==> 0 < (#[trigger] nals[k]).len() <= 16777216,
        nals.len() > 0 ==> nals[0].len() != 1 && !(256 <= nals[0].len() < 512),
    ensures
        nals_of(length_prefixed(nals)) == nals,
{
    let data = length_prefixed(nals);
    assert(data.skip(0) =~= data);
    lemma_units_tail(data, 0, nals);
    if nals.len() == 0 {
        assert(nals_of(data) =~= nals);
    } else {
        let n = nals[0].len();
        assert(0 < nals[0].len() <= MAX_NAL_LEN);
        assert(nals =~= seq![nals[0]] + nals.skip(1));
        lemma_prefixed_front(nals[0], nals.skip(1));
        let prefix = bytes::be_bytes(n, 4);
        bytes::lemma_be_bytes_len(n, 4);
        assert(data[0] == prefix[0] && data[1] == prefix[1] && data[2] == prefix[2] && data[3]
            == prefix[3]);
        assert(prefix[3] == n % 256 && prefix[2] == n / 256 % 256 && prefix[1] == n / 65536 % 256
            && prefix[0] == n / 16777216 % 256) by {
            reveal_with_fuel(bytes::be_bytes, 5);
        }
        assert(!starts_with_code(data));
    }
}

/// Behind any units, one more unit joins the picture data units exactly where the low five bits of
/// its first byte are 1 to 5, whatever its length, and it comes last; it becomes the parameter set
/// of a type exactly where those bits are that type.
pub proof fn law_units_are_sorted_by_first_byte(nals: Seq<Seq<u8>>, unit: Seq<u8>)
    ensures
        Seq::<Seq<u8>>::empty().filter(|n: Seq<u8>| is_vcl(n)) == Seq::<Seq<u8>>::empty(),
        nals.push(unit).filter(|n: Seq<u8>| is_vcl(n)) == (if unit.len() > 0 && 1 <= unit[0] & 0x1f
            <= 5 {
            nals.filter(|n: Seq<u8>| is_vcl(n)).push(unit)
        } else {
            nals.filter(|n: Seq<u8>| is_vcl(n))
        }),
        last_of_type(Seq::empty(), 7) is None,
        last_of_type(Seq::empty(), 8) is None,
        last_of_type(nals.push(unit), 7) == (if unit.len() > 0 && unit[0] & 0x1f == 7 {
            Some(unit)
        } else {
            last_of_type(nals, 7)
        }),
        last_of_type(nals.push(unit), 8) == (if unit.len() > 0 && unit[0] & 0x1f == 8 {
            Some(unit)
        } else {
            last_of_type(nals, 8)
        }),
{
    reveal(Seq::filter);
    let more = nals.push(unit);
    assert(more.drop_last() =~= nals);
    assert(more.last() == unit);
}

/// A key frame of a stream with start codes, made of both parameter sets and picture slices of any
/// length, is taken apart into exactly these.
pub proof fn law_key_frame_is_taken_apart(
    sps: Seq<u8>,
    pps: Seq<u8>,
    slices: Seq<Seq<u8>>,
    long: Seq<bool>,
)
    requires
        can_be_split(seq![sps, pps] + slices, long),
        sps[0] & 0x1f == 7,
        pps[0] & 0x1f == 8,
        forall|k: int| 0 <= k < slices.len() ==> 1 <= (#[trigger] slices[k])[0] & 0x1f <= 5,
    ensures
        ({
            let nals = nals_of(annex_b(seq![sps, pps] + slices, long));
            &&& last_of_type(nals, 7) == Some(sps)
            &&& last_of_type(nals, 8) == Some(pps)
            &&& nals.filter(|n: Seq<u8>| is_vcl(n)) == slices
        }),
{
    let nals = seq![sps, pps] + slices;
    law_annex_b_roundtrip(nals, long);
    assert(nals[0] == sps && nals[1] == pps);
    assert(is_bare(nals[0]) && is_bare(nals[1]));
    assert forall|k: int| 0 <= k < slices.len() implies (#[trigger] slices[k]).len() > 0 by {
        assert(nals[k + 2] == slices[k]);
        assert(is_bare(nals[k + 2]));
    }
    assert(Seq::empty().push(sps).push(pps) =~= seq![sps, pps]);
    lemma_sets_alone(sps, pps);
    lemma_key_frame(sps, pps, seq![sps, pps], slices);
    reveal(taken_apart);
}

proof fn lemma_sorted_step(nals: Seq<Seq<u8>>, unit: Seq<u8>)
    ensures
        picture_units(nals.push(unit)) == (if 1 <= nal_type(unit) <= 5 {
            picture_units(nals).push(unit)
        } else {
            picture_units(nals)
        }),
        last_of_type(nals.push(unit), 7) == (if nal_type(unit) == 7 {
            Some(unit)
        } else {
            last_of_type(nals, 7)
        }),
        last_of_type(nals.push(unit), 8) == (if nal_type(unit) == 8 {
            Some(unit)
        } else {
            last_of_type(nals, 8)
        }),
{
    law_units_are_sorted_by_first_byte(nals, unit);
}

/// The picture data units among units.
pub open spec fn picture_units(nals: Seq<Seq<u8>>) -> Seq<Seq<u8>> {
    nals.filter(|n: Seq<u8>| is_vcl(n))
}

/// Whether units are taken apart into both parameter sets and these picture data units.
#[verifier::opaque]
spec fn taken_apart(
    nals: Seq<Seq<u8>>,
    sps: Seq<u8>,
    pps: Seq<u8>,
    pictures: Seq<Seq<u8>>,
) -> bool {
    &&& last_of_type(nals, 7) == Some(sps)
    &&& last_of_type(nals, 8) == Some(pps)
    &&& picture_units(nals) == pictures
}

proof fn lemma_sets_alone(sps: Seq<u8>, pps: Seq<u8>)
    requires
        nal_type(sps) == 7,
        nal_type(pps) == 8,
    ensures
        taken_apart(Seq::empty().push(sps).push(pps), sps, pps, Seq::empty()),
{
    reveal(taken_apart);
    let none = Seq::<Seq<u8>>::empty();
    law_units_are_sorted_by_first_byte(none, sps);
    lemma_sorted_step(none, sps);
    lemma_sorted_step(none.push(sps), pps);
}

proof fn lemma_one_more_picture(
    nals: Seq<Seq<u8>>,
    sps: Seq<u8>,
    pps: Seq<u8>,
    pictures: Seq<Seq<u8>>,
    unit: Seq<u8>,
)
    requires
        taken_apart(nals, sps, pps, pictures),
        1 <= nal_type(unit) <= 5,
    ensures
        taken_apart(nals.push(unit), sps, pps, pictures.push(unit)),
{
    reveal(taken_apart);
    lemma_sorted_step(nals, unit);
}

proof fn lemma_key_frame(sps: Seq<u8>, pps: Seq<u8>, sets: Seq<Seq<u8>>, slices: Seq<Seq<u8>>)
    requires
        taken_apart(sets, sps, pps, Seq::empty()),
        forall|k: int| 0 <= k < slices.len() ==> 1 <= nal_type(#[trigger] slices[k]) <= 5,
    ensures
        taken_apart(sets + slices, sps, pps, slices),
    decreases slices.len(),
{
    if slices.len() == 0 {
        assert(sets + slices =~= sets);
        assert(slices =~= Seq::empty());
    } else {
        let rest = slices.drop_last();
        let unit = slices.last();
        assert(unit == slices[slices.len() - 1]);
        assert forall|k: int| 0 <= k < rest.len() implies 1 <= nal_type(#[trigger] rest[k]) <= 5 by {
            assert(rest[k] == slices[k]);
        }
        assert((sets + rest).push(unit) =~= sets + slices);
        assert(rest.push(unit) =~= slices);
        lemma_key_frame(sps, pps, sets, rest);
        lemma_one_more_picture(sets + rest, sps, pps, rest, unit);
    }
}

/// Where the parts of a codec configuration stand: a version, the three profile bytes of the
/// sequence parameter set, both parameter sets whole behind their lengths, and a trailer.
pub proof fn law_config_holds_parameter_sets(sps: Seq<u8>, pps: Seq<u8>)
    requires
        sps.len() < 65536,
        pps.len() < 65536,
    ensures
        ({
            let c = avcc_config(sps, pps);
            let n = sps.len() as int;
            let m = pps.len() as int;
            &&& c.len() == n + m + 15
            &&& c[0] == 1
            &&& n >= 4 ==> c[1] == sps[1] && c[2] == sps[2] && c[3] == sps[3]
            &&& n < 4 ==> c[1] == 0 && c[2] == 0 && c[3] == 0
            &&& c[4] == 0xff && c[5] == 0xe1
            &&& c[6] * 256 + c[7] == n
            &&& c.subrange(8, 8 + n) == sps
            &&& c[8 + n] == 1
            &&& c[9 + n] * 256 + c[10 + n] == m
            &&& c.subrange(11 + n, 11 + n + m) == pps
            &&& c[11 + n + m] == 2 && c[12 + n + m] == 0 && c[13 + n + m] == 0 && c[14 + n + m]
                == 0
        }),
{
    let c = avcc_config(sps, pps);
    let n = sps.len() as int;
    let m = pps.len() as int;
    bytes::lemma_be_bytes_len(sps.len(), 2);
    bytes::lemma_be_bytes_len(pps.len(), 2);
    reveal_with_fuel(bytes::be_bytes, 3);
    assert(c.subrange(8, 8 + n) =~= sps);
    assert(c.subrange(11 + n, 11 + n + m) =~= pps);
}

/// Where the fields of a picture header stand: the length of what follows, a mark for key frames
/// and the timestamp, both numbers little-endian, and zeros elsewhere.
pub proof fn law_video_header_fields(payload_len: nat, is_keyframe: bool, ts: nat)
    ensures
        ({
            let h = video_header(payload_len, is_keyframe, ts);
            &&& h.len() == 128
            &&& forall|i: int| 0 <= i < 4 ==> #[trigger] h[i] == payload_len / place(i) % 256
            &&& h[4] == 0
            &&& h[5] == (if is_keyframe {
                16u8
            } else {
                0
            })
            &&& h[6] == 0 && h[7] == 0
            &&& forall|i: int| 8 <= i < 16 ==> #[trigger] h[i] == ts / place(i - 8) % 256
            &&& forall|i: int| 16 <= i < 128 ==> #[trigger] h[i] == 0
        }),
{
    bytes::lemma_le_bytes_len(payload_len, 4);
    bytes::lemma_le_bytes_len(ts, 8);
    bytes::law_le_digits(payload_len, 4);
    bytes::law_le_digits(ts, 8);
    let h = video_header(payload_len, is_keyframe, ts);
    assert forall|i: int| 0 <= i < 4 implies #[trigger] h[i] == payload_len / place(i) % 256 by {
        assert(h[i] == bytes::le_bytes(payload_len, 4)[i]);
    }
    assert forall|i: int| 8 <= i < 16 implies #[trigger] h[i] == ts / place(i - 8) % 256 by {
        assert(h[i] == bytes::le_bytes(ts, 8)[i - 8]);
    }
}

/// The weight of byte `i` of a little-endian number.
pub open spec fn place(i: int) -> nat {
    power::pow(256, i as nat) as nat
}

/// Where the fields of a codec configuration header stand: the length of what follows, the type and
/// the timestamp, the encoded size at 16 and at 40, and the size that is shown at 56.
pub proof fn law_codec_header_fields(
    content_width: nat,
    content_height: nat,
    display_width: nat,
    display_height: nat,
    payload_len: nat,
    ts: nat,
)
    ensures
        ({
            let h = codec_header(
                content_width,
                content_height,
                display_width,
                display_height,
                payload_len,
                ts,
            );
            &&& h.len() == 128
            &&& forall|i: int| 0 <= i < 4 ==> #[trigger] h[i] == payload_len / place(i) % 256
            &&& h[4] == 1 && h[5] == 0 && h[6] == 0x16 && h[7] == 1
            &&& forall|i: int| 8 <= i < 16 ==> #[trigger] h[i] == ts / place(i - 8) % 256
            &&& h.subrange(16, 20) == float_bytes(content_width)
            &&& h.subrange(20, 24) == float_bytes(content_height)
            &&& h.subrange(40, 44) == float_bytes(content_width)
            &&& h.subrange(44, 48) == float_bytes(content_height)
            &&& h.subrange(56, 60) == float_bytes(display_width)
            &&& h.subrange(60, 64) == float_bytes(display_height)
            &&& forall|i: int|
                24 <= i < 40 || 48 <= i < 56 || 64 <= i < 128 ==> #[trigger] h[i] == 0
        }),
{
    bytes::lemma_le_bytes_len(payload_len, 4);
    bytes::lemma_le_bytes_len(ts, 8);
    bytes::lemma_le_bytes_len(binary::single_bits(content_width), 4);
    bytes::lemma_le_bytes_len(binary::single_bits(content_height), 4);
    bytes::lemma_le_bytes_len(binary::single_bits(display_width), 4);
    bytes::lemma_le_bytes_len(binary::single_bits(display_height), 4);
    bytes::law_le_digits(payload_len, 4);
    bytes::law_le_digits(ts, 8);
    let h = codec_header(
        content_width,
        content_height,
        display_width,
        display_height,
        payload_len,
        ts,
    );
    assert forall|i: int| 0 <= i < 4 implies #[trigger] h[i] == payload_len / place(i) % 256 by {
        assert(h[i] == bytes::le_bytes(payload_len, 4)[i]);
    }
    assert forall|i: int| 8 <= i < 16 implies #[trigger] h[i] == ts / place(i - 8) % 256 by {
        assert(h[i] == bytes::le_bytes(ts, 8)[i - 8]);
    }
    assert(h.subrange(16, 20) =~= float_bytes(content_width));
    assert(h.subrange(20, 24) =~= float_bytes(content_height));
    assert(h.subrange(40, 44) =~= float_bytes(content_width));
    assert(h.subrange(44, 48) =~= float_bytes(content_height));
    assert(h.subrange(56, 60) =~= float_bytes(display_width));
    assert(h.subrange(60, 64) =~= float_bytes(display_height));
}
/// Units of up to 16 MiB that are written behind their lengths are read back one for one by
/// whoever goes from length to length.
pub proof fn law_lengths_lead_from_unit_to_unit(nals: Seq<Seq<u8>>)
    requires
        forall|k: int| 0 <= k < nals.len() ==> 0 < (#[trigger] nals[k]).len() <= 16777216,
    ensures
        units_from(length_prefixed(nals), 0) == nals,
{
    let data = length_prefixed(nals);
    assert(data.skip(0) =~= data);
    lemma_units_tail(data, 0, nals);
}

/// A unit more adds its length in four bytes, most significant first, and itself.
pub proof fn law_length_prefix_grows(nals: Seq<Seq<u8>>, unit: Seq<u8>)
    requires
        unit.len() < 0x1_0000_0000,
    ensures
        length_prefixed(Seq::empty()).len() == 0,
        ({
            let before = length_prefixed(nals);
            let all = length_prefixed(nals.push(unit));
            let n = before.len() as int;
            &&& all.len() == n + 4 + unit.len()
            &&& all.take(n) == before
            &&& all.skip(n + 4) == unit
            &&& all[n] * 16777216 + all[n + 1] * 65536 + all[n + 2] * 256 + all[n + 3] == unit.len()
        }),
{
    let before = length_prefixed(nals);
    let more = nals.push(unit);
    assert(more.drop_last() =~= nals);
    let all = length_prefixed(more);
    let n = before.len() as int;
    bytes::lemma_be_bytes_len(unit.len(), 4);
    reveal_with_fuel(bytes::be_bytes, 5);
    assert(all.take(n) =~= before);
    assert(all.skip(n + 4) =~= unit);
}
/// A timestamp is at least five milliseconds ahead, and exactly as far as asked for where that is
/// more.
pub proof fn law_bias_has_a_floor(bias: nat)
    ensures
        used_bias(bias) >= 5_000_000,
        bias >= 5_000_000 ==> used_bias(bias) == bias,
        bias < 5_000_000 ==> used_bias(bias) == 5_000_000,
{
}

/// The bytes of a heartbeat: no payload, and the type of a heartbeat.
pub proof fn law_heartbeat_bytes(i: int)
    requires
        0 <= i < 128,
    ensures
        heartbeat_header().len() == 128,
        i != 4 && i != 6 ==> heartbeat_header()[i] == 0,
        heartbeat_header()[4] == 2,
        heartbeat_header()[6] == 30,
{
}

/// Data that begins with no start code and with no length that fits is one unit as a whole.
pub proof fn law_other_data_is_one_unit(data: Seq<u8>)
    requires
        data.len() > 0,
        !(data.len() >= 3 && data[0] == 0 && data[1] == 0 && data[2] == 1),
        !(data.len() >= 4 && data[0] == 0 && data[1] == 0 && data[2] == 0 && data[3] == 1),
        data.len() >= 4 ==> ({
            let len = data[0] * 16777216 + data[1] * 65536 + data[2] * 256 + data[3];
            len == 0 || len > 16777216 || len + 4 > data.len()
        }),
    ensures
        nals_of(data) == seq![data],
        nals_of(Seq::empty()).len() == 0,
{
    if data.len() >= 4 {
        let four = data.subrange(0, 4);
        assert(four =~= Seq::empty().push(data[0]).push(data[1]).push(data[2]).push(data[3]));
        let a = Seq::empty().push(data[0]);
        bytes::law_be_value_grows(Seq::empty(), data[0]);
        bytes::law_be_value_grows(a, data[1]);
        bytes::law_be_value_grows(a.push(data[1]), data[2]);
        bytes::law_be_value_grows(a.push(data[1]).push(data[2]), data[3]);
    }
}
} // verus!
