//! Mirror audio: latency, ports, and a stream of encrypted silence with its sync packets.

use crate::binary;
use crate::bytes;
use crate::crypto::chacha64;
use crate::ntp::Span;
use crate::plist_value::{self, Plist, PlistView};
use crate::protocol::alac;
use crate::text;
use vstd::arithmetic::power2;
use vstd::prelude::*;
use vstd::string::*;

verus! {

/// Samples in one audio packet.
pub const AUDIO_SPF: u16 = 352;

/// Default latency in samples.
pub const AUDIO_LATENCY_SAMPLES: u32 = 44;

/// Least latency in milliseconds.
pub const TARGET_LATENCY_MS: u64 = 1;

/// Sync packets that open a stream.
pub const SYNC_BURST: u8 = 7;

/// Milliseconds between sync packets.
pub const SYNC_INTERVAL_MS: u64 = 200;

/// Seconds during which sync packets are sent.
pub const SYNC_PERIOD_SECS: u64 = 5;

/// Seconds as a double, for a number of milliseconds: whole seconds and the quotient of the
/// rest are rounded, and then their sum.
pub open spec fn seconds_of(ms: nat) -> (nat, int) {
    binary::double_sum(
        binary::double_of(ms / 1000, 1),
        binary::double_of(ms % 1000 * 1_000_000, 1_000_000_000),
    )
}

/// Samples at 44100 a second in a number of milliseconds, rounded and held between one and the
/// largest 32-bit number.
pub open spec fn latency_of(ms: nat) -> nat {
    let n = binary::round_half_up(binary::double_times(seconds_of(ms), 44100));
    if n < 1 {
        1
    } else if n > u32::MAX {
        u32::MAX as nat
    } else {
        n
    }
}

proof fn lemma_seconds_exponent(secs: nat, e: int)
    requires
        0 < secs < 0x80_0000_0000_0000,
        binary::in_binade(secs, 1, e, 53),
    ensures
        -52 <= e <= 2,
{
    power2::lemma2_to64();
    power2::lemma2_to64_rest();
    if e > 2 {
        if e > 3 {
            power2::lemma_pow2_strictly_increases(3, e as nat);
        }
        let a = power2::pow2(e as nat) as int;
        assert(0x10_0000_0000_0000 * (1 * a) >= 0x80_0000_0000_0000) by (nonlinear_arith)
            requires
                a >= 8,
        ;
    }
    if e < -52 {
        let k = (-e) as nat;
        if k > 53 {
            power2::lemma_pow2_strictly_increases(53, k);
        }
        let a = power2::pow2(k) as int;
        let s = secs as int;
        assert(s * a >= 0x20_0000_0000_0000) by (nonlinear_arith)
            requires
                s >= 1,
                a >= 0x20_0000_0000_0000,
        ;
    }
}

proof fn lemma_fraction_exponent(nanos: nat, e: int)
    requires
        1_000_000 <= nanos < 1_000_000_000,
        binary::in_binade(nanos, 1_000_000_000, e, 53),
    ensures
        -62 <= e <= -53,
{
    power2::lemma2_to64();
    power2::lemma2_to64_rest();
    let n = nanos as int;
    if e >= 0 {
        let a = power2::pow2(e as nat) as int;
        power2::lemma_pow2_pos(e as nat);
        assert(0x10_0000_0000_0000 * (1_000_000_000 * a) >= 0x10_0000_0000_0000)
            by (nonlinear_arith)
            requires
                a >= 1,
        ;
    } else {
        let k = (-e) as nat;
        let a = power2::pow2(k) as int;
        if k > 62 {
            if k > 63 {
                power2::lemma_pow2_strictly_increases(63, k);
            }
            assert(n * a >= 1_000_000 * 0x8000_0000_0000_0000) by (nonlinear_arith)
                requires
                    n >= 1_000_000,
                    a >= 0x8000_0000_0000_0000,
            ;
        }
        if k < 53 {
            if k < 52 {
                power2::lemma_pow2_strictly_increases(k, 52);
            }
            assert(n * a < 1_000_000_000 * 0x10_0000_0000_0000) by (nonlinear_arith)
                requires
                    0 <= n < 1_000_000_000,
                    0 < a <= 0x10_0000_0000_0000,
            ;
        }
    }
}

/// Samples at 44100 a second in a number of milliseconds.
pub fn samples_for_44k1(ms: u64) -> (r: u32)
    ensures
        r == latency_of(ms as nat),
{
    let secs: u64 = ms / 1000;
    let nanos: u64 = ms % 1000 * 1_000_000;
    let a = binary::double_from_ratio(secs, 1);
    let b = binary::double_from_ratio(nanos, 1_000_000_000);
    proof {
        if secs > 0 {
            lemma_seconds_exponent(secs as nat, a.1 as int);
        }
        if nanos > 0 {
            lemma_fraction_exponent(nanos as nat, b.1 as int);
        }
    }
    let s = binary::double_add(a, b);
    let d = binary::double_mul(s, 44100);
    let n: u128 = binary::round_up_half(d);
    if n < 1 {
        1
    } else if n > 0xffff_ffff {
        0xffff_ffff
    } else {
        n as u32
    }
}

/// Playout latency in samples, given the receiver's floor in milliseconds; a receiver of which
/// no capabilities are known has none.
pub fn playout_latency_samples(features_raw: u64, floor_ms: u64) -> (r: u32)
    ensures
        r == latency_of(
            if features_raw == 0 || floor_ms < 1 {
                1
            } else {
                floor_ms as nat
            },
        ),
{
    let floor: u64 = if features_raw == 0 {
        0
    } else {
        floor_ms
    };
    let target: u64 = if floor < TARGET_LATENCY_MS {
        TARGET_LATENCY_MS
    } else {
        floor
    };
    samples_for_44k1(target)
}

/// The integer in a property list: integers that fit 64 bits and reals; zero for anything else.
pub open spec fn list_integer(p: PlistView) -> int {
    match p {
        PlistView::Integer(i) => if i64::MIN <= i <= i64::MAX {
            i
        } else {
            0
        },
        PlistView::Real(b) => binary::real_integer(b),
        _ => 0,
    }
}

/// The integer in a property list.
pub fn plist_int(p: &Plist) -> (r: i64)
    ensures
        r == list_integer(p@),
{
    match p {
        Plist::Integer(i) => if -0x8000_0000_0000_0000 <= *i && *i <= 0x7fff_ffff_ffff_ffff {
            *i as i64
        } else {
            0
        },
        Plist::Real(b) => binary::integer_of_real(*b),
        _ => 0,
    }
}

fn low16(v: i64) -> (r: u16)
    ensures
        r == v as int % 65536,
{
    if v >= 0 {
        (v as u64 % 65536) as u16
    } else {
        let n: u64 = (-(v + 1)) as u64;
        let q: u16 = (n % 65536) as u16;
        proof {
            let k = n as int / 65536;
            assert(n == k * 65536 + q);
            assert(v == (-k - 1) * 65536 + (65535 - q));
        }
        65535 - q
    }
}

/// The low 16 bits of the integer under `key`; zero where there is none.
pub open spec fn port_entry(stream: PlistView, key: Seq<char>) -> int {
    match plist_value::entry(stream, key) {
        Some(v) => list_integer(v) % 65536,
        None => 0,
    }
}

/// The port of a stream connection of a kind, if it is above zero.
pub open spec fn connection_port(stream: PlistView, kind: Seq<char>) -> Option<int> {
    match plist_value::entry(stream, "streamConnections"@) {
        Some(sc) => match plist_value::entry(sc, kind) {
            Some(c) => match plist_value::entry(c, "streamConnectionKeyPort"@) {
                Some(p) => if list_integer(p) > 0 {
                    Some(list_integer(p) % 65536)
                } else {
                    None
                },
                None => None,
            },
            None => None,
        },
        None => None,
    }
}

/// Data and control port of a stream; ports of stream connections go before plain ones.
pub open spec fn stream_ports(stream: PlistView) -> (int, int) {
    (
        match connection_port(stream, "streamConnectionTypeRTP"@) {
            Some(p) => p,
            None => port_entry(stream, "dataPort"@),
        },
        match connection_port(stream, "streamConnectionTypeRTCP"@) {
            Some(p) => p,
            None => port_entry(stream, "controlPort"@),
        },
    )
}

fn port_of(stream: &Plist, key: &str) -> (r: u16)
    ensures
        r == port_entry(stream@, key@),
{
    match stream.get(key) {
        Some(v) => low16(plist_int(v)),
        None => 0,
    }
}

fn connection_port_of(stream: &Plist, kind: &str) -> (r: Option<u16>)
    ensures
        match r {
            Some(p) => connection_port(stream@, kind@) == Some(p as int),
            None => connection_port(stream@, kind@) is None,
        },
{
    let sc = match stream.get("streamConnections") {
        Some(v) => v,
        None => return None,
    };
    let c = match sc.get(kind) {
        Some(v) => v,
        None => return None,
    };
    match c.get("streamConnectionKeyPort") {
        Some(v) => {
            let p: i64 = plist_int(v);
            if p > 0 {
                Some(low16(p))
            } else {
                None
            }
        },
        None => None,
    }
}

/// Data and control port of a stream.
pub fn plist_stream_ports(stream: &Plist) -> (r: (u16, u16))
    ensures
        (r.0 as int, r.1 as int) == stream_ports(stream@),
{
    let data: u16 = match connection_port_of(stream, "streamConnectionTypeRTP") {
        Some(p) => p,
        None => port_of(stream, "dataPort"),
    };
    let control: u16 = match connection_port_of(stream, "streamConnectionTypeRTCP") {
        Some(p) => p,
        None => port_of(stream, "controlPort"),
    };
    (data, control)
}

/// The ports of the first audio stream from position `i` on that has both; a list that holds
/// anything but dictionaries with a type before it has none.
pub open spec fn audio_ports_from(streams: Seq<PlistView>, i: int) -> Option<(int, int)>
    decreases streams.len() - i,
{
    if i < 0 || i >= streams.len() {
        None
    } else if !(streams[i] is Dict) {
        None
    } else {
        match plist_value::entry(streams[i], "type"@) {
            None => None,
            Some(t) => {
                let ports = stream_ports(streams[i]);
                if list_integer(t) == 96 && ports.0 > 0 && ports.1 > 0 {
                    Some(ports)
                } else {
                    audio_ports_from(streams, i + 1)
                }
            },
        }
    }
}

/// The audio ports in a set-up reply.
pub open spec fn audio_ports(reply: PlistView) -> Option<(int, int)> {
    match plist_value::entry(reply, "streams"@) {
        Some(PlistView::Array(streams)) => audio_ports_from(streams, 0),
        _ => None,
    }
}

/// Ports by their numbers.
pub open spec fn view_ports(r: Option<(u16, u16)>) -> Option<(int, int)> {
    match r {
        Some((a, b)) => Some((a as int, b as int)),
        None => None,
    }
}

/// The audio ports in a set-up reply that was read.
pub fn audio_ports_in(reply: &Plist) -> (r: Option<(u16, u16)>)
    ensures
        view_ports(r) == audio_ports(reply@),
{
    let streams = match reply.get("streams") {
        Some(v) => v,
        None => return None,
    };
    match streams {
        Plist::Array(list) => {
            let ghost all = streams@->Array_0;
            let mut i: usize = 0;
            while i < list.len()
                invariant
                    i <= list@.len(),
                    all.len() == list@.len(),
                    forall|k: int| 0 <= k < list@.len() ==> #[trigger] all[k] == list@[k]@,
                    audio_ports_from(all, 0) == audio_ports_from(all, i as int),
                    audio_ports(reply@) == audio_ports_from(all, 0),
                decreases list.len() - i,
            {
                let stream = &list[i];
                assert(all[i as int] == stream@);
                match stream {
                    Plist::Dict(_) => {},
                    _ => return None,
                }
                let t = match stream.get("type") {
                    Some(t) => t,
                    None => return None,
                };
                let kind: i64 = plist_int(t);
                if kind == 96 {
                    let (data, control) = plist_stream_ports(stream);
                    if data > 0 && control > 0 {
                        return Some((data, control));
                    }
                }
                i += 1;
            }
            None
        },
        _ => None,
    }
}

/// The audio ports in the body of a set-up reply; nothing where it is no property list.
pub fn plist_audio_ports(body: &[u8]) -> (r: Option<(u16, u16)>)
    ensures
        view_ports(r) == (match plist_value::read_outcome(body@) {
            Ok(p) => audio_ports(p),
            Err(_) => None,
        }),
{
    match plist_value::read_plist(body) {
        Ok(p) => audio_ports_in(&p),
        Err(_) => None,
    }
}

/// Host and port of a peer.
pub open spec fn peer_text(host: Seq<char>, port: u16) -> Seq<char> {
    host + ":"@ + text::decimal(port as nat)
}

/// Host and port of a peer.
pub fn peer_address(host: &str, port: u16) -> (r: String)
    ensures
        r@ == peer_text(host@, port),
{
    let mut s = text::owned(host);
    s.append(":");
    text::push_decimal(&mut s, port as u64);
    s
}

/// Media time that is played now, for the media time that is sent now.
pub open spec fn sync_time(rtp_now: nat, latency: nat) -> nat {
    if rtp_now >= latency {
        (rtp_now - latency) as nat
    } else {
        rtp_now
    }
}

/// Media time that is played now, for the media time that is sent now.
pub fn sync_rtp_for(rtp_now: u32, latency_samples: u32) -> (r: u32)
    ensures
        r == sync_time(rtp_now as nat, latency_samples as nat),
{
    if rtp_now >= latency_samples {
        rtp_now - latency_samples
    } else {
        rtp_now
    }
}

/// A sync packet: what is played at an NTP time, and what is sent next.
pub open spec fn sync_bytes(ntp_time: nat, rtp_now: nat, latency: nat, is_first: bool) -> Seq<u8> {
    seq![
        if is_first {
            0x90u8
        } else {
            0x80
        },
        0xd4,
        0,
        4,
    ] + bytes::be_bytes(sync_time(rtp_now, latency), 4) + bytes::be_bytes(ntp_time, 8)
        + bytes::be_bytes(rtp_now, 4)
}

/// Builds a sync packet.
pub fn sync_packet(ntp_time: u64, rtp_now: u32, latency_samples: u32, is_first: bool) -> (r: Vec<
    u8,
>)
    ensures
        r@ == sync_bytes(ntp_time as nat, rtp_now as nat, latency_samples as nat, is_first),
        r@.len() == 20,
{
    let flags: u8 = if is_first {
        0x90
    } else {
        0x80
    };
    let head: [u8; 4] = [flags, 0xd4, 0, 4];
    let mut p = bytes::to_vec(&head);
    assert(p@ =~= seq![flags, 0xd4, 0, 4]);
    bytes::extend(&mut p, &bytes::u32_be(sync_rtp_for(rtp_now, latency_samples)));
    bytes::extend(&mut p, &bytes::u64_be(ntp_time));
    bytes::extend(&mut p, &bytes::u32_be(rtp_now));
    proof {
        bytes::lemma_be_bytes_len(sync_time(rtp_now as nat, latency_samples as nat), 4);
        bytes::lemma_be_bytes_len(ntp_time as nat, 8);
        bytes::lemma_be_bytes_len(rtp_now as nat, 4);
    }
    p
}

/// The header of an audio packet.
pub open spec fn audio_header(seq_no: nat, rtp_time: nat, ssrc: nat) -> Seq<u8> {
    seq![0x80u8, 0x60] + bytes::be_bytes(seq_no, 2) + bytes::be_bytes(rtp_time, 4)
        + bytes::be_bytes(ssrc, 4)
}

/// An audio packet: header, payload sealed with the last eight header bytes as associated data,
/// and the nonce.
pub open spec fn audio_bytes(
    key: Seq<u8>,
    nonce: nat,
    payload: Seq<u8>,
    rtp_time: nat,
    seq_no: nat,
    ssrc: nat,
) -> Seq<u8> {
    let header = audio_header(seq_no, rtp_time, ssrc);
    header + chacha64::sealed(
        key,
        bytes::le_bytes(nonce, 8),
        payload,
        header.subrange(4, 12),
    ) + bytes::le_bytes(nonce, 8)
}

/// Builds an audio packet.
pub fn audio_packet(
    key: &[u8; 32],
    nonce: u64,
    payload: &[u8],
    rtp_time: u32,
    seq_no: u16,
    ssrc: u32,
) -> (r: Vec<u8>)
    requires
        payload@.len() <= chacha64::MAX_SEAL_LEN,
    ensures
        r@ == audio_bytes(
            key@,
            nonce as nat,
            payload@,
            rtp_time as nat,
            seq_no as nat,
            ssrc as nat,
        ),
        r@.len() == payload@.len() + 36,
{
    let mark: [u8; 2] = [0x80u8, 0x60];
    let mut packet = bytes::to_vec(&mark);
    assert(packet@ =~= seq![0x80u8, 0x60]);
    bytes::extend(&mut packet, &bytes::u16_be(seq_no));
    bytes::extend(&mut packet, &bytes::u32_be(rtp_time));
    bytes::extend(&mut packet, &bytes::u32_be(ssrc));
    proof {
        bytes::lemma_be_bytes_len(seq_no as nat, 2);
        bytes::lemma_be_bytes_len(rtp_time as nat, 4);
        bytes::lemma_be_bytes_len(ssrc as nat, 4);
        bytes::lemma_le_bytes_len(nonce as nat, 8);
    }
    assert(packet@ == audio_header(seq_no as nat, rtp_time as nat, ssrc as nat));
    let aad = bytes::sub_vec(&packet, 4, 12);
    let nonce_bytes = bytes::u64_le(nonce);
    let sealed = chacha64::seal(key, &nonce_bytes, payload, &aad);
    bytes::extend(&mut packet, &sealed);
    bytes::extend(&mut packet, &nonce_bytes);
    packet
}

/// What a stream of silence needs: where it goes, its key and its latency.
#[derive(Debug, Clone)]
pub struct MirrorAudioSetup {
    pub host: String,
    pub chacha_key: [u8; 32],
    pub remote_data_port: u16,
    pub remote_control_port: u16,
    pub latency_samples: u32,
}

impl MirrorAudioSetup {
    /// The stream at its start.
    pub fn stream(&self) -> (r: SilenceStream)
        ensures
            r.wf(),
            r@ == start_view(self.chacha_key@, self.latency_samples),
    {
        SilenceStream::new(&self.chacha_key, self.latency_samples)
    }

    /// Where audio packets go.
    pub fn data_address(&self) -> (r: String)
        ensures
            r@ == peer_text(self.host@, self.remote_data_port),
    {
        peer_address(self.host.as_str(), self.remote_data_port)
    }

    /// Where sync packets go.
    pub fn control_address(&self) -> (r: String)
        ensures
            r@ == peer_text(self.host@, self.remote_control_port),
    {
        peer_address(self.host.as_str(), self.remote_control_port)
    }
}

/// A stream of silence.
pub struct SilenceStream {
    key: [u8; 32],
    frame: Vec<u8>,
    latency_samples: u32,
    nonce: u64,
    seq_no: u16,
    rtp_time: u32,
}

/// A stream of silence by its counters.
pub struct SilenceView {
    pub key: Seq<u8>,
    pub latency: nat,
    pub nonce: nat,
    pub seq_no: nat,
    pub rtp_time: nat,
}

/// A stream of silence at its start.
pub open spec fn start_view(key: Seq<u8>, latency_samples: u32) -> SilenceView {
    SilenceView {
        key,
        latency: latency_samples as nat,
        nonce: 0,
        seq_no: 1,
        rtp_time: latency_samples as nat,
    }
}

/// One frame of silence.
pub open spec fn silence_frame() -> Seq<u8> {
    alac::verbatim_frame(bytes::zeros(1408), 352, 2, 16)
}

impl View for SilenceStream {
    type V = SilenceView;

    closed spec fn view(&self) -> SilenceView {
        SilenceView {
            key: self.key@,
            latency: self.latency_samples as nat,
            nonce: self.nonce as nat,
            seq_no: self.seq_no as nat,
            rtp_time: self.rtp_time as nat,
        }
    }
}

impl SilenceStream {
    /// The frame is one of silence.
    pub closed spec fn wf(&self) -> bool {
        self.frame@ == silence_frame()
    }

    /// A stream at its start: the first packet has number one and the media time of the latency.
    pub fn new(key: &[u8; 32], latency_samples: u32) -> (r: Self)
        ensures
            r.wf(),
            r@ == start_view(key@, latency_samples),
    {
        SilenceStream {
            key: *key,
            frame: alac::encode_alac_verbatim_silence(AUDIO_SPF),
            latency_samples,
            nonce: 0,
            seq_no: 1,
            rtp_time: latency_samples,
        }
    }

    /// Milliseconds between audio packets.
    pub fn tick_millis() -> (r: u64)
        ensures
            r == 7,
    {
        let ms: u64 = AUDIO_SPF as u64 * 1000 / 44100;
        if ms < 1 {
            1
        } else {
            ms
        }
    }

    /// The sync packets that open the stream: seven of one kind, at media time zero.
    pub fn opening_syncs(&self, ntp_time: u64) -> (r: Vec<Vec<u8>>)
        ensures
            r@.len() == SYNC_BURST,
            r@.len() == 7,
            forall|i: int|
                0 <= i < r@.len() ==> (#[trigger] r@[i])@ == sync_bytes(
                    ntp_time as nat,
                    0,
                    self@.latency,
                    true,
                ) && r@[i]@.len() == 20,
    {
        let mut out: Vec<Vec<u8>> = Vec::new();
        while out.len() < SYNC_BURST as usize
            invariant
                out@.len() <= SYNC_BURST,
                forall|i: int|
                    0 <= i < out@.len() ==> (#[trigger] out@[i])@ == sync_bytes(
                        ntp_time as nat,
                        0,
                        self@.latency,
                        true,
                    ) && out@[i]@.len() == 20,
            decreases SYNC_BURST - out@.len(),
        {
            out.push(sync_packet(ntp_time, 0, self.latency_samples, true));
        }
        out
    }

    /// Whether periodic sync packets are still sent, given the time since the stream began.
    pub fn sync_goes_on(since_start: Span) -> (r: bool)
        requires
            since_start.wf(),
        ensures
            r == (since_start.total() < SYNC_PERIOD_SECS * 1_000_000_000),
            r <==> since_start.total() < 5_000_000_000,
    {
        since_start.secs < SYNC_PERIOD_SECS
    }

    /// A sync packet for the media time that is sent next.
    pub fn next_sync(&self, ntp_time: u64) -> (r: Vec<u8>)
        ensures
            r@ == sync_bytes(ntp_time as nat, self@.rtp_time, self@.latency, false),
            r@.len() == 20,
    {
        sync_packet(ntp_time, self.rtp_time, self.latency_samples, false)
    }

    /// The next audio packet. Packet number, media time and nonce go on, each modulo its width.
    pub fn next_packet(&mut self) -> (r: Vec<u8>)
        requires
            old(self).wf(),
        ensures
            final(self).wf(),
            r@ == audio_bytes(
                old(self)@.key,
                old(self)@.nonce,
                silence_frame(),
                old(self)@.rtp_time,
                old(self)@.seq_no,
                0,
            ),
            final(self)@ == (SilenceView {
                nonce: (old(self)@.nonce + 1) % 0x1_0000_0000_0000_0000,
                seq_no: (old(self)@.seq_no + 1) % 0x1_0000,
                rtp_time: (old(self)@.rtp_time + 352) % 0x1_0000_0000,
                ..old(self)@
            }),
    {
        proof {
            alac::law_frame_length(bytes::zeros(1408), 352, 2, 16);
        }
        let packet = audio_packet(
            &self.key,
            self.nonce,
            &self.frame,
            self.rtp_time,
            self.seq_no,
            0,
        );
        self.nonce = if self.nonce == 0xffff_ffff_ffff_ffff {
            0
        } else {
            self.nonce + 1
        };
        self.seq_no = if self.seq_no == 0xffff {
            0
        } else {
            self.seq_no + 1
        };
        self.rtp_time = ((self.rtp_time as u64 + 352) % 0x1_0000_0000) as u32;
        packet
    }
}

/// The counters of a stream after `n` packets.
pub open spec fn after_packets(v: SilenceView, n: nat) -> SilenceView
    decreases n,
{
    if n == 0 {
        v
    } else {
        let w = after_packets(v, (n - 1) as nat);
        SilenceView {
            nonce: (w.nonce + 1) % 0x1_0000_0000_0000_0000,
            seq_no: (w.seq_no + 1) % 0x1_0000,
            rtp_time: (w.rtp_time + 352) % 0x1_0000_0000,
            ..w
        }
    }
}

proof fn lemma_step_mod(x: int, step: int, m: int)
    requires
        m > 0,
    ensures
        (x % m + step) % m == (x + step) % m,
{
    vstd::arithmetic::div_mod::lemma_add_mod_noop_right(step, x, m);
    assert(x % m + step == step + x % m);
}

/// After `n` packets the counters have moved by `n` packets, and no two of the first 2^64
/// packets of a stream have the same nonce.
pub proof fn law_counters_advance(v: SilenceView, n: nat)
    requires
        v.nonce == 0,
        n < 0x1_0000_0000_0000_0000,
        v.rtp_time < 0x1_0000_0000,
        v.seq_no < 0x1_0000,
    ensures
        after_packets(v, n).nonce == n,
        after_packets(v, n).seq_no == (v.seq_no + n) % 0x1_0000,
        after_packets(v, n).rtp_time == (v.rtp_time + 352 * n) % 0x1_0000_0000,
    decreases n,
{
    if n > 0 {
        let m = (n - 1) as nat;
        law_counters_advance(v, m);
        lemma_step_mod((v.seq_no + m) as int, 1, 0x1_0000);
        lemma_step_mod((v.rtp_time + 352 * m) as int, 352, 0x1_0000_0000);
    }
}

/// Where the fields of a time announcement stand: the packet is twenty bytes long, and holds the
/// sample that is heard, the time at which it is, and the sample that is sent, most significant
/// bytes first.
pub proof fn law_sync_fields(ntp_time: nat, rtp_now: nat, latency: nat, is_first: bool)
    requires
        ntp_time < 0x1_0000_0000_0000_0000,
        rtp_now < 0x1_0000_0000,
    ensures
        ({
            let p = sync_bytes(ntp_time, rtp_now, latency, is_first);
            &&& p.len() == 20
            &&& p[0] == if is_first { 144int } else { 128 }
            &&& p[1] == 212 && p[2] == 0 && p[3] == 4
            &&& rtp_now >= latency ==> bytes::be_value(p.subrange(4, 8)) == rtp_now - latency
            &&& rtp_now < latency ==> bytes::be_value(p.subrange(4, 8)) == rtp_now
            &&& bytes::be_value(p.subrange(8, 16)) == ntp_time
            &&& bytes::be_value(p.subrange(16, 20)) == rtp_now
        }),
{
    let p = sync_bytes(ntp_time, rtp_now, latency, is_first);
    let heard = sync_time(rtp_now, latency);
    lemma_word(heard, 4);
    lemma_word(rtp_now, 4);
    lemma_word(ntp_time, 8);
    assert(p.subrange(4, 8) =~= bytes::be_bytes(heard, 4));
    assert(p.subrange(8, 16) =~= bytes::be_bytes(ntp_time, 8));
    assert(p.subrange(16, 20) =~= bytes::be_bytes(rtp_now, 4));
}

proof fn lemma_word(v: nat, n: nat)
    requires
        n == 2 && v < 0x1_0000 || n == 4 && v < 0x1_0000_0000 || n == 8 && v
            < 0x1_0000_0000_0000_0000,
    ensures
        bytes::be_bytes(v, n).len() == n,
        bytes::be_value(bytes::be_bytes(v, n)) == v,
{
    bytes::lemma_be_bytes_len(v, n);
    bytes::lemma_be_value_of_be_bytes(v, n);
    reveal_with_fuel(vstd::arithmetic::power::pow, 9);
    assert(vstd::arithmetic::power::pow(256, 2) == 0x1_0000);
    assert(vstd::arithmetic::power::pow(256, 4) == 0x1_0000_0000);
    assert(vstd::arithmetic::power::pow(256, 8) == 0x1_0000_0000_0000_0000);
    vstd::arithmetic::div_mod::lemma_small_mod(v, vstd::arithmetic::power::pow(256, n) as nat);
}

/// Where the fields of a sound packet stand: behind its number, time and source comes the payload,
/// sealed under the key and the nonce with time and source as extra data, and the nonce comes last.
pub proof fn law_sound_fields(
    key: Seq<u8>,
    nonce: nat,
    payload: Seq<u8>,
    rtp_time: nat,
    seq_no: nat,
    ssrc: nat,
)
    requires
        seq_no < 0x1_0000,
        rtp_time < 0x1_0000_0000,
        ssrc < 0x1_0000_0000,
    ensures
        ({
            let p = audio_bytes(key, nonce, payload, rtp_time, seq_no, ssrc);
            let n = p.len() as int;
            let tail = bytes::le_bytes(nonce, 8);
            &&& n >= 20
            &&& p[0] == 128 && p[1] == 96
            &&& bytes::be_value(p.subrange(2, 4)) == seq_no
            &&& bytes::be_value(p.subrange(4, 8)) == rtp_time
            &&& bytes::be_value(p.subrange(8, 12)) == ssrc
            &&& p.subrange(12, n - 8) == crate::crypto::primitives::chacha_sealed(
                key,
                bytes::zeros(4) + tail,
                payload,
                p.subrange(4, 12),
            )
            &&& p.skip(n - 8) == tail
        }),
{
    let p = audio_bytes(key, nonce, payload, rtp_time, seq_no, ssrc);
    let n = p.len() as int;
    lemma_word(seq_no, 2);
    lemma_word(rtp_time, 4);
    lemma_word(ssrc, 4);
    bytes::lemma_le_bytes_len(nonce, 8);
    let header = audio_header(seq_no, rtp_time, ssrc);
    let tail = bytes::le_bytes(nonce, 8);
    assert(header.len() == 12);
    assert(p.subrange(2, 4) =~= bytes::be_bytes(seq_no, 2));
    assert(p.subrange(4, 8) =~= bytes::be_bytes(rtp_time, 4));
    assert(p.subrange(8, 12) =~= bytes::be_bytes(ssrc, 4));
    assert(p.subrange(4, 12) =~= header.subrange(4, 12));
    chacha64::law_short_nonce(key, tail, payload, header.subrange(4, 12));
    assert(p.subrange(12, n - 8) =~= chacha64::sealed(key, tail, payload, header.subrange(4, 12)));
    assert(p.skip(n - 8) =~= tail);
}

/// The ports of a stream are those of its connections where these tell some, and else those that
/// stand in the stream itself.
pub proof fn law_stream_ports(stream: PlistView, data: int, control: int)
    requires
        0 < data < 65536,
        0 < control < 65536,
    ensures
        plist_value::entry(stream, "streamConnections"@) is None && plist_value::stands_under(
            stream,
            "dataPort"@,
            PlistView::Integer(data),
        ) && plist_value::stands_under(stream, "controlPort"@, PlistView::Integer(control))
            ==> stream_ports(stream) == (data, control),
        forall|all: PlistView, rtp: PlistView, rtcp: PlistView|
            plist_value::stands_under(stream, "streamConnections"@, all)
                && #[trigger] plist_value::stands_under(all, "streamConnectionTypeRTP"@, rtp)
                && #[trigger] plist_value::stands_under(all, "streamConnectionTypeRTCP"@, rtcp)
                && plist_value::stands_under(
                rtp,
                "streamConnectionKeyPort"@,
                PlistView::Integer(data),
            ) && plist_value::stands_under(
                rtcp,
                "streamConnectionKeyPort"@,
                PlistView::Integer(control),
            ) ==> stream_ports(stream) == (data, control),
{
    plist_value::law_entry_is_first_of_its_key(stream, "streamConnections"@);
    plist_value::law_entry_is_first_of_its_key(stream, "dataPort"@);
    plist_value::law_entry_is_first_of_its_key(stream, "controlPort"@);
    assert forall|all: PlistView, rtp: PlistView, rtcp: PlistView|
        plist_value::stands_under(stream, "streamConnections"@, all)
            && #[trigger] plist_value::stands_under(all, "streamConnectionTypeRTP"@, rtp)
            && #[trigger] plist_value::stands_under(all, "streamConnectionTypeRTCP"@, rtcp)
            && plist_value::stands_under(
            rtp,
            "streamConnectionKeyPort"@,
            PlistView::Integer(data),
        ) && plist_value::stands_under(
            rtcp,
            "streamConnectionKeyPort"@,
            PlistView::Integer(control),
        ) implies stream_ports(stream) == (data, control) by {
        plist_value::law_entry_is_first_of_its_key(all, "streamConnectionTypeRTP"@);
        plist_value::law_entry_is_first_of_its_key(all, "streamConnectionTypeRTCP"@);
        plist_value::law_entry_is_first_of_its_key(rtp, "streamConnectionKeyPort"@);
        plist_value::law_entry_is_first_of_its_key(rtcp, "streamConnectionKeyPort"@);
    }
}

/// The ports for sound are those of the first stream of type 96 that has both.
pub proof fn law_sound_stream_is_found(
    reply: PlistView,
    streams: Seq<PlistView>,
    types: Seq<int>,
    i: int,
)
    requires
        plist_value::stands_under(reply, "streams"@, PlistView::Array(streams)),
        0 <= i < streams.len(),
        plist_value::stands_under(streams[i], "type"@, PlistView::Integer(96)),
        stream_ports(streams[i]).0 > 0,
        stream_ports(streams[i]).1 > 0,
        types.len() == i,
        forall|k: int|
            0 <= k < i ==> -0x8000_0000_0000_0000 <= #[trigger] types[k] < 0x8000_0000_0000_0000
                && types[k] != 96 && plist_value::stands_under(
                streams[k],
                "type"@,
                PlistView::Integer(types[k]),
            ),
    ensures
        audio_ports(reply) == Some(stream_ports(streams[i])),
{
    plist_value::law_entry_is_first_of_its_key(reply, "streams"@);
    lemma_sound_stream(streams, types, 0, i);
}

proof fn lemma_sound_stream(streams: Seq<PlistView>, types: Seq<int>, from: int, i: int)
    requires
        0 <= from <= i < streams.len(),
        plist_value::stands_under(streams[i], "type"@, PlistView::Integer(96)),
        stream_ports(streams[i]).0 > 0,
        stream_ports(streams[i]).1 > 0,
        types.len() == i,
        forall|k: int|
            0 <= k < i ==> -0x8000_0000_0000_0000 <= #[trigger] types[k] < 0x8000_0000_0000_0000
                && types[k] != 96 && plist_value::stands_under(
                streams[k],
                "type"@,
                PlistView::Integer(types[k]),
            ),
    ensures
        audio_ports_from(streams, from) == Some(stream_ports(streams[i])),
    decreases i - from,
{
    plist_value::law_entry_is_first_of_its_key(streams[from], "type"@);
    if from < i {
        let t = types[from];
        assert(plist_value::stands_under(streams[from], "type"@, PlistView::Integer(t)));
        lemma_sound_stream(streams, types, from + 1, i);
    }
}
/// A latency in milliseconds is counted in samples, of which 44100 make a second, to the nearest
/// sample; without any it is one sample.
pub proof fn law_samples_for_time(ms: nat)
    requires
        ms <= 67108864,
    ensures
        ms == 0 ==> latency_of(ms) == 1,
        ms > 0 ==> -510 <= 1000 * latency_of(ms) - 44100 * ms <= 510,
{
    power2::lemma2_to64();
    if ms > 0 {
        lemma_samples(ms);
    } else {
        let none = (0nat, 0int);
        assert(power2::pow2(0) == 1);
        assert(0 * power2::pow2(0) == 0) by (nonlinear_arith);
        assert(binary::in_units(none, 0) == 0);
        assert(seconds_of(0) == none);
        assert(binary::double_times(none, 44100) == none);
        assert(binary::round_half_up(none) == 0);
    }
}

proof fn lemma_at_near(m: nat, e: int)
    requires
        m > 0,
        e >= -140,
    ensures
        ({
            let d = binary::double_at(m, e);
            let v = d.0 * power2::pow2((d.1 + 200) as nat);
            let w = m * power2::pow2((e + 200) as nat);
            &&& d.1 >= e - 52
            &&& 0x20_0000_0000_0000 * (v - w) <= w
            &&& 0x20_0000_0000_0000 * (w - v) <= w
        }),
{
    power2::lemma2_to64();
    power2::lemma2_to64_rest();
    let r = binary::nearest(m, 1, 53);
    let f = r.1;
    let r0 = r.0 as int;
    let mi = m as int;
    let q = 0x20_0000_0000_0000int;
    let big = power2::pow2((e + 200) as nat) as int;
    power2::lemma_pow2_pos((e + 200) as nat);
    binary::law_nearest_is_near(m, 1, 53);
    if f >= 0 {
        let pf = power2::pow2(f as nat) as int;
        power2::lemma_pow2_pos(f as nat);
        power2::lemma_pow2_adds(f as nat, (e + 200) as nat);
        assert(power2::pow2(52) * pf <= mi);
        assert(0x10_0000_0000_0000 * pf <= mi) by (nonlinear_arith)
            requires
                power2::pow2(52) * pf <= mi,
                power2::pow2(52) == 0x10_0000_0000_0000,
        ;
        let rp = r0 * pf;
        assert(2 * mi <= 2 * rp + pf && 2 * rp <= 2 * mi + pf);
        assert(q * (rp - mi) <= mi && q * (mi - rp) <= mi);
        assert(r0 * (pf * big) == rp * big) by (nonlinear_arith)
            requires
                rp == r0 * pf,
        ;
        assert(q * (rp * big - mi * big) <= mi * big) by (nonlinear_arith)
            requires
                q * (rp - mi) <= mi,
                big > 0,
        ;
        assert(q * (mi * big - rp * big) <= mi * big) by (nonlinear_arith)
            requires
                q * (mi - rp) <= mi,
                big > 0,
        ;
    } else {
        let k = (-f) as nat;
        let g = power2::pow2(k) as int;
        power2::lemma_pow2_pos(k);
        let n = mi * g;
        assert(binary::scaled_num(m, f) == n && binary::scaled_den(1, f) == 1);
        assert(r0 == n);
        assert(n < power2::pow2(53) * 1);
        if k >= 53 {
            if k > 53 {
                power2::lemma_pow2_strictly_increases(53, k);
            }
            assert(n >= g) by (nonlinear_arith)
                requires
                    n == mi * g,
                    mi >= 1,
                    g > 0,
            ;
        }
        power2::lemma_pow2_adds(k, (e + 200 + f) as nat);
        let low = power2::pow2((e + 200 + f) as nat) as int;
        assert(n * low == mi * (g * low)) by (nonlinear_arith)
            requires
                n == mi * g,
        ;
        assert(mi * big >= 0) by (nonlinear_arith)
            requires
                mi > 0,
                big > 0,
        ;
    }
}

proof fn lemma_in_units(d: (nat, int), unit: int)
    requires
        unit <= d.1,
        unit >= -140,
    ensures
        binary::in_units(d, unit) * power2::pow2((unit + 200) as nat) == d.0 * power2::pow2(
            (d.1 + 200) as nat,
        ),
{
    power2::lemma_pow2_adds((d.1 - unit) as nat, (unit + 200) as nat);
    let a = power2::pow2((d.1 - unit) as nat) as int;
    let b = power2::pow2((unit + 200) as nat) as int;
    let m = d.0 as int;
    assert((m * a) * b == m * (a * b)) by (nonlinear_arith);
}

proof fn lemma_part_of_second(rem: nat)
    requires
        0 < rem < 1000,
    ensures
        ({
            let d = binary::double_of(rem * 1_000_000, 1_000_000_000);
            let v = d.0 * power2::pow2((d.1 + 200) as nat);
            let t = power2::pow2(200) as int;
            &&& d.0 > 0
            &&& -62 <= d.1 <= -53
            &&& 0x20_0000_0000_0000 * (1000 * v - rem * t) <= 500 * t
            &&& 0x20_0000_0000_0000 * (rem * t - 1000 * v) <= 500 * t
        }),
{
    power2::lemma2_to64();
    power2::lemma2_to64_rest();
    let nanos = rem * 1_000_000;
    binary::lemma_binade_exists(nanos, 1_000_000_000, 53);
    binary::lemma_nearest_positive(nanos, 1_000_000_000, 53);
    binary::law_nearest_is_near(nanos, 1_000_000_000, 53);
    let d = binary::double_of(nanos, 1_000_000_000);
    lemma_fraction_exponent(nanos, d.1);
    let k = power2::pow2((-d.1) as nat) as int;
    let p = power2::pow2((d.1 + 200) as nat) as int;
    let t = power2::pow2(200) as int;
    power2::lemma_pow2_pos((-d.1) as nat);
    power2::lemma_pow2_pos((d.1 + 200) as nat);
    power2::lemma_pow2_adds((-d.1) as nat, (d.1 + 200) as nat);
    if d.1 < -53 {
        power2::lemma_pow2_strictly_increases(53, (-d.1) as nat);
    }
    let m = d.0 as int;
    let ri = rem as int;
    let rk = ri * k;
    assert(binary::scaled_num(nanos, d.1) == 1_000_000 * rk) by (nonlinear_arith)
        requires
            binary::scaled_num(nanos, d.1) == nanos * k,
            nanos == rem * 1_000_000,
            rk == rem * k,
    ;
    assert(2 * rk <= 2000 * m + 1000 && 2000 * m <= 2 * rk + 1000);
    let v = m * p;
    assert(rk * p == ri * t) by (nonlinear_arith)
        requires
            rk == ri * k,
            t == k * p,
    ;
    assert((2 * rk) * p <= (2000 * m + 1000) * p && (2000 * m) * p <= (2 * rk + 1000) * p)
        by (nonlinear_arith)
        requires
            2 * rk <= 2000 * m + 1000,
            2000 * m <= 2 * rk + 1000,
            p > 0,
    ;
    assert((2 * rk) * p == 2 * (rk * p)) by (nonlinear_arith);
    assert((2000 * m + 1000) * p == 2000 * v + 1000 * p) by (nonlinear_arith)
        requires
            v == m * p,
    ;
    assert((2000 * m) * p == 2000 * v) by (nonlinear_arith)
        requires
            v == m * p,
    ;
    assert((2 * rk + 1000) * p == 2 * (rk * p) + 1000 * p) by (nonlinear_arith);
    assert(0x20_0000_0000_0000 * p <= t) by (nonlinear_arith)
        requires
            t == k * p,
            k >= 0x20_0000_0000_0000,
            p > 0,
    ;
}

proof fn lemma_whole_seconds(secs: nat)
    requires
        0 < secs < 0x80_0000_0000_0000,
    ensures
        ({
            let d = binary::double_of(secs, 1);
            let v = d.0 * power2::pow2((d.1 + 200) as nat);
            let t = power2::pow2(200) as int;
            &&& d.0 > 0
            &&& -52 <= d.1 <= 2
            &&& 0x20_0000_0000_0000 * (v - secs * t) <= secs * t
            &&& 0x20_0000_0000_0000 * (secs * t - v) <= secs * t
        }),
{
    binary::lemma_binade_exists(secs, 1, 53);
    binary::lemma_nearest_positive(secs, 1, 53);
    let d = binary::double_of(secs, 1);
    lemma_seconds_exponent(secs, d.1);
    lemma_at_near(secs, 0);
    assert(binary::double_at(secs, 0) == d);
}

proof fn lemma_samples(ms: nat)
    requires
        0 < ms <= 67108864,
    ensures
        -510 <= 1000 * latency_of(ms) - 44100 * ms <= 510,
{
    power2::lemma2_to64();
    let secs = ms / 1000;
    let rem = ms % 1000;
    let a = binary::double_of(secs, 1);
    let b = binary::double_of(rem * 1_000_000, 1_000_000_000);
    let t = power2::pow2(200) as int;
    power2::lemma_pow2_pos(200);
    if secs > 0 {
        lemma_whole_seconds(secs);
    }
    if rem > 0 {
        lemma_part_of_second(rem);
    }
    let unit = binary::lower(a.1, b.1);
    lemma_in_units(a, unit);
    lemma_in_units(b, unit);
    let va = a.0 * power2::pow2((a.1 + 200) as nat) as int;
    let vb = b.0 * power2::pow2((b.1 + 200) as nat) as int;
    let (ua, ub) = (binary::in_units(a, unit), binary::in_units(b, unit));
    let p = power2::pow2((unit + 200) as nat) as int;
    let u = ua + ub;
    let mu = u * p;
    assert(mu == va + vb) by (nonlinear_arith)
        requires
            mu == (ua + ub) * p,
            ua * p == va,
            ub * p == vb,
    ;
    let (st, rt, x) = (secs * t, rem * t, ms * t);
    assert(x == 1000 * st + rt) by (nonlinear_arith)
        requires
            ms == 1000 * secs + rem,
            st == secs * t,
            rt == rem * t,
            x == ms * t,
    ;
    assert(0 <= st && 0 <= rt && x <= 67108864 * t && x >= t) by (nonlinear_arith)
        requires
            st == secs * t,
            rt == rem * t,
            x == ms * t,
            1 <= ms <= 67108864,
            secs >= 0,
            rem >= 0,
            t > 0,
    ;
    let q = 0x20_0000_0000_0000int;
    if secs == 0 {
        assert(va == 0 && st == 0);
    }
    if rem == 0 {
        assert(b == (0nat, 0int));
        assert(0 * power2::pow2(200) == 0 && 0 * t == 0) by (nonlinear_arith);
        assert(vb == 0 && rt == 0);
    }
    assert(q * (1000 * mu - x) <= x + 500 * t && q * (x - 1000 * mu) <= x + 500 * t);
    assert(mu > 0);
    assert(u > 0) by (nonlinear_arith)
        requires
            u * p > 0,
            u >= 0,
    ;
    lemma_at_near(u, unit);
    let s = seconds_of(ms);
    assert(s == binary::double_at(u, unit));
    let v1 = s.0 * power2::pow2((s.1 + 200) as nat) as int;
    assert(q * (v1 - mu) <= mu && q * (mu - v1) <= mu);
    assert(v1 > 0);
    let big = power2::pow2((s.1 + 200) as nat) as int;
    assert(s.0 > 0) by (nonlinear_arith)
        requires
            s.0 * big > 0,
            s.0 >= 0,
    ;
    let w = s.0 * 44100;
    lemma_at_near(w, s.1);
    let mw = w * big;
    assert(mw == 44100 * v1) by (nonlinear_arith)
        requires
            mw == (s.0 * 44100) * big,
            v1 == s.0 * big,
    ;
    let d = binary::double_times(s, 44100);
    let v2 = d.0 * power2::pow2((d.1 + 200) as nat) as int;
    assert(q * (v2 - mw) <= mw && q * (mw - v2) <= mw);
    let n = binary::round_half_up(d);
    lemma_half_up(d);
    let nt = n * t;
    assert(2 * nt <= 2 * v2 + t && 2 * v2 <= 2 * nt + t);
    assert(1000 * nt - 44100 * x <= 510 * t);
    assert(44100 * x - 1000 * nt <= 510 * t);
    let e = 1000 * n - 44100 * ms;
    assert(e * t == 1000 * nt - 44100 * x) by (nonlinear_arith)
        requires
            e == 1000 * n - 44100 * ms,
            nt == n * t,
            x == ms * t,
    ;
    assert(-510 <= e <= 510) by (nonlinear_arith)
        requires
            e * t <= 510 * t,
            -(e * t) <= 510 * t,
            t > 0,
    ;
}

proof fn lemma_half_up(d: (nat, int))
    requires
        d.1 >= -200,
    ensures
        ({
            let v = d.0 * power2::pow2((d.1 + 200) as nat);
            let t = power2::pow2(200) as int;
            let n = binary::round_half_up(d);
            &&& 2 * (n * t) <= 2 * v + t
            &&& 2 * v <= 2 * (n * t) + t
        }),
{
    let t = power2::pow2(200) as int;
    power2::lemma_pow2_pos(200);
    let m = d.0 as int;
    let n = binary::round_half_up(d) as int;
    if d.1 >= 0 {
        let g = power2::pow2(d.1 as nat) as int;
        power2::lemma_pow2_adds(d.1 as nat, 200);
        assert((m * g) * t == m * (g * t)) by (nonlinear_arith);
    } else {
        let g = power2::pow2((-d.1) as nat) as int;
        let p = power2::pow2((d.1 + 200) as nat) as int;
        power2::lemma_pow2_pos((-d.1) as nat);
        power2::lemma_pow2_pos((d.1 + 200) as nat);
        power2::lemma_pow2_adds((-d.1) as nat, (d.1 + 200) as nat);
        let c = 2 * m + g;
        assert(n == c / (2 * g));
        vstd::arithmetic::div_mod::lemma_fundamental_div_mod(c, 2 * g);
        vstd::arithmetic::div_mod::lemma_mod_bound(c, 2 * g);
        let ng = n * g;
        assert((2 * g) * (c / (2 * g)) == 2 * ng) by (nonlinear_arith)
            requires
                n == c / (2 * g),
                ng == n * g,
        ;
        assert(2 * ng <= c && c < 2 * ng + 2 * g);
        let np = ng * p;
        assert(n * t == np) by (nonlinear_arith)
            requires
                ng == n * g,
                np == ng * p,
                t == g * p,
        ;
        let v = m * p;
        assert((2 * ng) * p <= c * p && c * p <= (2 * ng + 2 * g) * p) by (nonlinear_arith)
            requires
                2 * ng <= c,
                c < 2 * ng + 2 * g,
                p > 0,
        ;
        assert(c * p == 2 * v + t) by (nonlinear_arith)
            requires
                c == 2 * m + g,
                v == m * p,
                t == g * p,
        ;
        assert((2 * ng) * p == 2 * np) by (nonlinear_arith)
            requires
                np == ng * p,
        ;
        assert((2 * ng + 2 * g) * p == 2 * np + 2 * t) by (nonlinear_arith)
            requires
                np == ng * p,
                t == g * p,
        ;
    }
}
} // verus!
