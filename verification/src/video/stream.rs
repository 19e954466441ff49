//! The stream of frames to the receiver.

use crate::bytes;
use crate::crypto::chacha::{self, StreamCipher};
use crate::crypto::mirror_aes::{self, MirrorAesCtr};
use crate::crypto::mirror_crypto::MirrorVideoCrypto;
use crate::crypto::primitives;
use crate::error::{ErrorView, RottenError};
use crate::text;
use crate::video::encoder::EncodedFrame;
use crate::video::mirror_packet;
use vstd::prelude::*;
use vstd::string::*;

verus! {

/// Counts of a stream.
#[derive(Debug, Clone, Copy, PartialEq, Eq, Structural)]
pub struct StreamStats {
    pub frames_sent: u64,
    pub bytes_sent: u64,
    pub dropped_frames: u64,
}

impl Default for StreamStats {
    fn default() -> (r: Self)
        ensures
            r == (StreamStats { frames_sent: 0, bytes_sent: 0, dropped_frames: 0 }),
    {
        StreamStats { frames_sent: 0, bytes_sent: 0, dropped_frames: 0 }
    }
}

/// Where a stream goes, and how it is encrypted.
pub struct MirrorStreamer {
    host: String,
    port: u16,
    video_crypto: MirrorVideoCrypto,
    stats: StreamStats,
}

impl MirrorStreamer {
    pub closed spec fn stats_view(&self) -> StreamStats {
        self.stats
    }

    pub closed spec fn crypto(&self) -> MirrorVideoCrypto {
        self.video_crypto
    }

    /// Host and port.
    pub closed spec fn target(&self) -> (Seq<char>, u16) {
        (self.host@, self.port)
    }

    pub fn new(host: String, port: u16, video_crypto: MirrorVideoCrypto) -> (r: Self)
        ensures
            r.target() == (host@, port),
            r.crypto() == video_crypto,
            r.stats_view() == (StreamStats { frames_sent: 0, bytes_sent: 0, dropped_frames: 0 }),
    {
        MirrorStreamer { host, port, video_crypto, stats: StreamStats::default() }
    }

    /// The counts so far.
    pub fn stats(&self) -> (r: StreamStats)
        ensures
            r == self.stats_view(),
    {
        self.stats
    }

    /// The encryption of the stream.
    pub fn video_crypto(&self) -> (r: &MirrorVideoCrypto)
        ensures
            *r == self.crypto(),
    {
        &self.video_crypto
    }

    /// Address of the receiver's data port.
    pub fn address(&self) -> (r: String)
        ensures
            r@ == self.target().0 + ":"@ + text::decimal(self.target().1 as nat),
    {
        let mut s = text::owned(self.host.as_str());
        s.append(":");
        text::push_decimal(&mut s, self.port as u64);
        s
    }

    /// Counts a picture packet that was sent.
    pub fn count_sent(&mut self, packet_len: usize)
        ensures
            final(self).target() == old(self).target(),
            final(self).crypto() == old(self).crypto(),
            final(self).stats_view() == (StreamStats {
                frames_sent: ((old(self).stats_view().frames_sent + 1)
                    % 0x1_0000_0000_0000_0000) as u64,
                bytes_sent: ((old(self).stats_view().bytes_sent + packet_len)
                    % 0x1_0000_0000_0000_0000) as u64,
                ..old(self).stats_view()
            }),
    {
        self.stats.frames_sent = wrapping(self.stats.frames_sent, 1);
        self.stats.bytes_sent = wrapping(self.stats.bytes_sent, packet_len as u64);
    }

    /// Takes over the number of dropped frames where it has grown.
    pub fn note_dropped(&mut self, queue_dropped: u64)
        ensures
            final(self).target() == old(self).target(),
            final(self).crypto() == old(self).crypto(),
            final(self).stats_view() == (StreamStats {
                dropped_frames: if queue_dropped > old(self).stats_view().dropped_frames {
                    queue_dropped
                } else {
                    old(self).stats_view().dropped_frames
                },
                ..old(self).stats_view()
            }),
    {
        if queue_dropped > self.stats.dropped_frames {
            self.stats.dropped_frames = queue_dropped;
        }
    }
}

fn wrapping(a: u64, b: u64) -> (r: u64)
    ensures
        r == (a + b) % 0x1_0000_0000_0000_0000,
{
    ((a as u128 + b as u128) % 0x1_0000_0000_0000_0000) as u64
}

/// The cipher of a stream, with its state.
pub enum MirrorCipher {
    Plain,
    Aes(MirrorAesCtr),
    ChaCha(StreamCipher),
}

/// What a cipher does next depends on.
pub enum CipherView {
    Plain,
    Aes { key: Seq<u8>, iv: Seq<u8>, offset: nat },
    ChaCha { key: Seq<u8>, counter: nat },
}

impl View for MirrorCipher {
    type V = CipherView;

    open spec fn view(&self) -> CipherView {
        match self {
            MirrorCipher::Plain => CipherView::Plain,
            MirrorCipher::Aes(c) => CipherView::Aes {
                key: c.key(),
                iv: c.iv(),
                offset: c.offset(),
            },
            MirrorCipher::ChaCha(c) => CipherView::ChaCha { key: c.key(), counter: c.counter() },
        }
    }
}

/// Whether a cipher can take a payload of `len` bytes.
pub open spec fn takes(c: CipherView, len: nat) -> bool {
    match c {
        CipherView::Plain => true,
        CipherView::Aes { offset, .. } => offset + len + 16 <= u64::MAX,
        CipherView::ChaCha { counter, .. } => counter < u64::MAX && len + 16 <= usize::MAX
            && chacha::seal_len_ok(len),
    }
}

/// Whether a cipher refuses a payload that is too long for one message.
pub open spec fn refuses(c: CipherView, len: nat) -> bool {
    c is ChaCha && len > primitives::CHACHA_MAX_LEN
}

/// The cipher after a payload.
pub open spec fn cipher_after(c: CipherView, len: nat) -> CipherView {
    match c {
        CipherView::Plain => CipherView::Plain,
        CipherView::Aes { key, iv, offset } => CipherView::Aes {
            key,
            iv,
            offset: mirror_aes::next_offset(offset, len),
        },
        CipherView::ChaCha { key, counter } => CipherView::ChaCha { key, counter: counter + 1 },
    }
}

/// A picture packet. With ChaCha20-Poly1305 the header announces the tag too, and is
/// authenticated.
pub open spec fn video_packet(c: CipherView, payload: Seq<u8>, is_keyframe: bool, ts: nat) -> Seq<
    u8,
> {
    match c {
        CipherView::Plain => mirror_packet::video_header(payload.len(), is_keyframe, ts) + payload,
        CipherView::Aes { key, iv, offset } => mirror_packet::video_header(
            payload.len(),
            is_keyframe,
            ts,
        ) + mirror_aes::ctr_xor(key, iv, offset, payload),
        CipherView::ChaCha { key, counter } => {
            let header = mirror_packet::video_header(payload.len() + 16, is_keyframe, ts);
            header + primitives::chacha_sealed(
                key,
                chacha::nonce_of(counter),
                payload,
                header,
            )
        },
    }
}

/// Length of what a packet carries behind its header: the payload, with ChaCha20-Poly1305 and the
/// tag of sixteen bytes.
pub open spec fn body_len(c: CipherView, payload_len: nat) -> nat {
    if c is ChaCha {
        payload_len + 16
    } else {
        payload_len
    }
}

impl MirrorCipher {
    /// The cipher of a stream at its start.
    pub fn from_crypto(crypto: &MirrorVideoCrypto) -> (r: Self)
        ensures
            r@ == (match *crypto {
                MirrorVideoCrypto::Plain => CipherView::Plain,
                MirrorVideoCrypto::AesCtr { key, iv } => CipherView::Aes {
                    key: key@,
                    iv: iv@,
                    offset: 0,
                },
                MirrorVideoCrypto::ChaCha { key } => CipherView::ChaCha { key: key@, counter: 0 },
            }),
    {
        match crypto {
            MirrorVideoCrypto::Plain => MirrorCipher::Plain,
            MirrorVideoCrypto::AesCtr { key, iv } => MirrorCipher::Aes(MirrorAesCtr::new(key, iv)),
            MirrorVideoCrypto::ChaCha { key } => MirrorCipher::ChaCha(StreamCipher::new(key)),
        }
    }

    /// A name for logs.
    pub fn mode_name(&self) -> (r: &'static str)
        ensures
            r@ == (match self@ {
                CipherView::Plain => "none"@,
                CipherView::Aes { .. } => "aes-ctr"@,
                CipherView::ChaCha { .. } => "chacha"@,
            }),
    {
        match self {
            MirrorCipher::Plain => "none",
            MirrorCipher::Aes(_) => "aes-ctr",
            MirrorCipher::ChaCha(_) => "chacha",
        }
    }

    /// Whether the cipher can take a payload of `len` bytes.
    pub fn can_take(&self, len: usize) -> (r: bool)
        ensures
            r == takes(self@, len as nat),
    {
        match self {
            MirrorCipher::Plain => true,
            MirrorCipher::Aes(c) => c.has_room(len),
            MirrorCipher::ChaCha(c) => c.has_room() && len <= usize::MAX - 16 && (len as u64
                <= primitives::CHACHA_MAX_LEN || (274877906880 <= len as u64 && len
                <= isize::MAX as usize - 16)),
        }
    }

    /// Builds the packet of a payload.
    pub fn packet(&mut self, payload: &[u8], is_keyframe: bool, ts: u64) -> (r: Result<
        Vec<u8>,
        RottenError,
    >)
        requires
            takes(old(self)@, payload@.len()),
        ensures
            match r {
                Ok(v) => {
                    &&& !refuses(old(self)@, payload@.len())
                    &&& v@ == video_packet(old(self)@, payload@, is_keyframe, ts as nat)
                    &&& mirror_packet::is_framed(v@, body_len(old(self)@, payload@.len()))
                },
                Err(e) => refuses(old(self)@, payload@.len()) && e@ == ErrorView::Crypto(
                    "encrypt: aead::Error"@,
                ),
            },
            final(self)@ == cipher_after(old(self)@, payload@.len()),
    {
        match self {
            MirrorCipher::Plain => {
                let header = mirror_packet::build_video_header(payload.len(), is_keyframe, ts);
                proof {
                    mirror_packet::law_video_header_frames(payload@, is_keyframe, ts as nat);
                }
                Ok(bytes::concat(&header, payload))
            },
            MirrorCipher::Aes(c) => {
                let encrypted = c.encrypt_frame(payload);
                let header = mirror_packet::build_video_header(payload.len(), is_keyframe, ts);
                proof {
                    mirror_packet::law_video_header_frames(encrypted@, is_keyframe, ts as nat);
                }
                Ok(bytes::concat(&header, &encrypted))
            },
            MirrorCipher::ChaCha(c) => {
                let header = mirror_packet::build_video_header(
                    payload.len() + 16,
                    is_keyframe,
                    ts,
                );
                match c.encrypt_mirror_vcl(payload, &header) {
                    Ok(encrypted) => {
                        proof {
                            mirror_packet::law_video_header_frames(
                                encrypted@,
                                is_keyframe,
                                ts as nat,
                            );
                        }
                        Ok(bytes::concat(&header, &encrypted))
                    },
                    Err(e) => Err(e),
                }
            },
        }
    }
}

/// The picture data of an access unit: its picture data units, each behind its length.
pub open spec fn vcl_payload(data: Seq<u8>) -> Seq<u8> {
    mirror_packet::length_prefixed(
        mirror_packet::nals_of(data).filter(|n: Seq<u8>| mirror_packet::is_vcl(n)),
    )
}

/// Whether an access unit has picture data.
pub open spec fn has_vcl(data: Seq<u8>) -> bool {
    mirror_packet::nals_of(data).filter(|n: Seq<u8>| mirror_packet::is_vcl(n)).len() > 0
}

/// Picture sizes that the codec packet gives.
#[derive(Debug, Clone, Copy, PartialEq, Eq, Structural)]
pub struct CodecSizes {
    pub content_width: u32,
    pub content_height: u32,
    pub display_width: u32,
    pub display_height: u32,
}

/// The codec packet that goes before an access unit: for a key frame with both parameter sets,
/// as long as none was sent.
pub open spec fn codec_packet(
    data: Seq<u8>,
    is_keyframe: bool,
    codec_sent: bool,
    sizes: CodecSizes,
    ts: nat,
) -> Option<Seq<u8>> {
    let sps = mirror_packet::last_of_type(mirror_packet::nals_of(data), 7);
    let pps = mirror_packet::last_of_type(mirror_packet::nals_of(data), 8);
    if is_keyframe && !codec_sent && sps is Some && pps is Some {
        let avcc = mirror_packet::avcc_config(sps->0, pps->0);
        Some(
            mirror_packet::codec_header(
                sizes.content_width as nat,
                sizes.content_height as nat,
                sizes.display_width as nat,
                sizes.display_height as nat,
                avcc.len(),
                ts,
            ) + avcc,
        )
    } else {
        None
    }
}

/// The packets of an access unit, in the order in which they are sent.
pub struct UnitPackets {
    pub codec: Option<Vec<u8>>,
    pub vcl: Result<Option<Vec<u8>>, RottenError>,
}

/// The picture packet of an access unit: none without picture data, and an error where the
/// cipher refuses the payload.
pub open spec fn is_vcl_packet(
    c: CipherView,
    frame: EncodedFrame,
    ts: nat,
    r: Result<Option<Vec<u8>>, RottenError>,
) -> bool {
    let payload = vcl_payload(frame.data@);
    if !has_vcl(frame.data@) {
        r == Ok::<Option<Vec<u8>>, RottenError>(None)
    } else {
        match r {
            Ok(v) => {
                &&& !refuses(c, payload.len())
                &&& bytes::view_opt(v) == Some(video_packet(c, payload, frame.is_keyframe, ts))
                &&& v matches Some(p) && mirror_packet::is_framed(p@, body_len(c, payload.len()))
            },
            Err(e) => refuses(c, payload.len()) && e@ == ErrorView::Crypto(
                "encrypt: aead::Error"@,
            ),
        }
    }
}

/// The cipher after an access unit.
pub open spec fn cipher_after_unit(c: CipherView, frame: EncodedFrame) -> CipherView {
    if has_vcl(frame.data@) {
        cipher_after(c, vcl_payload(frame.data@).len())
    } else {
        c
    }
}

/// Builds the packets of an access unit.
pub fn unit_packets(
    cipher: &mut MirrorCipher,
    frame: &EncodedFrame,
    codec_sent: bool,
    sizes: CodecSizes,
    ts: u64,
) -> (r: UnitPackets)
    requires
        takes(old(cipher)@, vcl_payload(frame.data@).len()),
    ensures
        bytes::view_opt(r.codec) == codec_packet(
            frame.data@,
            frame.is_keyframe,
            codec_sent,
            sizes,
            ts as nat,
        ),
        r.codec matches Some(p) ==> p@.len() >= 128 && mirror_packet::is_framed(
            p@,
            (p@.len() - 128) as nat,
        ),
        is_vcl_packet(old(cipher)@, *frame, ts as nat, r.vcl),
        final(cipher)@ == cipher_after_unit(old(cipher)@, *frame),
{
    let (sps, pps, vcl) = mirror_packet::partition_access_unit(&frame.data);
    let mut codec: Option<Vec<u8>> = None;
    if frame.is_keyframe && !codec_sent {
        match (&sps, &pps) {
            (Some(s), Some(p)) => {
                let avcc = mirror_packet::build_avcc_config(s, p);
                let header = mirror_packet::build_codec_header(
                    sizes.content_width,
                    sizes.content_height,
                    sizes.display_width,
                    sizes.display_height,
                    avcc.len(),
                    ts,
                );
                proof {
                    mirror_packet::law_codec_header_frames(
                        sizes.content_width as nat,
                        sizes.content_height as nat,
                        sizes.display_width as nat,
                        sizes.display_height as nat,
                        avcc@,
                        ts as nat,
                    );
                }
                codec = Some(bytes::concat(&header, &avcc));
            },
            _ => {},
        }
    }
    assert(bytes::views(vcl@).len() == vcl@.len());
    if vcl.len() == 0 {
        return UnitPackets { codec, vcl: Ok(None) };
    }
    let payload = mirror_packet::nals_to_avcc(&vcl);
    let packet = match cipher.packet(&payload, frame.is_keyframe, ts) {
        Ok(p) => Ok(Some(p)),
        Err(e) => Err(e),
    };
    UnitPackets { codec, vcl: packet }
}

/// State of the loop that sends frames.
pub struct StreamLoop {
    cipher: MirrorCipher,
    pts_us: u64,
    frame_interval_us: u64,
    codec_sent: bool,
    stream_width: u32,
    stream_height: u32,
    display_width: u32,
    display_height: u32,
    first_frame_sent: bool,
    units: u64,
}

/// State of the loop by its parts.
pub struct LoopView {
    pub cipher: CipherView,
    pub pts_us: nat,
    pub interval_us: nat,
    pub codec_sent: bool,
    pub stream_size: (u32, u32),
    pub display_size: (u32, u32),
    pub first_frame_sent: bool,
    pub units: nat,
}

impl View for StreamLoop {
    type V = LoopView;

    closed spec fn view(&self) -> LoopView {
        LoopView {
            cipher: self.cipher@,
            pts_us: self.pts_us as nat,
            interval_us: self.frame_interval_us as nat,
            codec_sent: self.codec_sent,
            stream_size: (self.stream_width, self.stream_height),
            display_size: (self.display_width, self.display_height),
            first_frame_sent: self.first_frame_sent,
            units: self.units as nat,
        }
    }
}

/// What is sent for an encoded frame: the codec packet, and behind it the picture packet or the
/// error that ends the stream.
pub struct Outgoing {
    pub codec: Option<Vec<u8>>,
    pub vcl: Result<Option<Vec<u8>>, RottenError>,
    /// The first access unit carries picture data, and whoever waits for it is told once it is
    /// sent.
    pub announces_first: bool,
}

/// Whether the codec configuration counts as sent when a frame of the given coded size comes: a
/// change of size asks for a new one.
pub open spec fn codec_valid(v: LoopView, frame: EncodedFrame) -> bool {
    v.codec_sent && v.stream_size == (frame.coded_width, frame.coded_height)
}

/// The sizes for the codec packet of a frame.
pub open spec fn codec_sizes(v: LoopView, frame: EncodedFrame) -> CodecSizes {
    CodecSizes {
        content_width: frame.coded_width,
        content_height: frame.coded_height,
        display_width: v.display_size.0,
        display_height: v.display_size.1,
    }
}

/// The codec packet for a frame.
pub open spec fn loop_codec(v: LoopView, frame: EncodedFrame, ts: nat) -> Option<Seq<u8>> {
    codec_packet(
        frame.data@,
        frame.is_keyframe,
        codec_valid(v, frame),
        codec_sizes(v, frame),
        ts,
    )
}

/// Whether the cipher refuses the picture data of a frame.
pub open spec fn fails(v: LoopView, frame: EncodedFrame) -> bool {
    has_vcl(frame.data@) && refuses(v.cipher, vcl_payload(frame.data@).len())
}

/// The state after a frame: the clock of the stream goes on even where the encoder gave none.
pub open spec fn loop_after(v: LoopView, encoded: Option<EncodedFrame>, ts: nat) -> LoopView {
    let ticked = LoopView { pts_us: v.pts_us + v.interval_us, ..v };
    match encoded {
        None => ticked,
        Some(frame) => LoopView {
            cipher: cipher_after_unit(v.cipher, frame),
            codec_sent: codec_valid(v, frame) || loop_codec(v, frame, ts) is Some,
            stream_size: (frame.coded_width, frame.coded_height),
            first_frame_sent: v.first_frame_sent || !fails(v, frame),
            units: v.units + 1,
            ..ticked
        },
    }
}

/// Whether the counters and the cipher can take another frame.
pub open spec fn loop_takes(v: LoopView, encoded: Option<EncodedFrame>) -> bool {
    &&& v.pts_us + v.interval_us <= u64::MAX
    &&& v.units < u64::MAX
    &&& encoded matches Some(frame) ==> takes(v.cipher, vcl_payload(frame.data@).len())
}

impl StreamLoop {
    /// The loop at its start.
    pub fn new(
        crypto: &MirrorVideoCrypto,
        width: u32,
        height: u32,
        presentation_width: u32,
        presentation_height: u32,
        fps: u32,
    ) -> (r: Self)
        ensures
            r@.cipher == (match *crypto {
                MirrorVideoCrypto::Plain => CipherView::Plain,
                MirrorVideoCrypto::AesCtr { key, iv } => CipherView::Aes {
                    key: key@,
                    iv: iv@,
                    offset: 0,
                },
                MirrorVideoCrypto::ChaCha { key } => CipherView::ChaCha { key: key@, counter: 0 },
            }),
            r@.pts_us == 0,
            r@.interval_us == 1_000_000nat / (if fps == 0 {
                1
            } else {
                fps as nat
            }),
            !r@.codec_sent,
            r@.stream_size == (width, height),
            r@.display_size == (presentation_width, presentation_height),
            !r@.first_frame_sent,
            r@.units == 0,
    {
        let rate: u64 = if fps == 0 {
            1
        } else {
            fps as u64
        };
        StreamLoop {
            cipher: MirrorCipher::from_crypto(crypto),
            pts_us: 0,
            frame_interval_us: 1_000_000 / rate,
            codec_sent: false,
            stream_width: width,
            stream_height: height,
            display_width: presentation_width,
            display_height: presentation_height,
            first_frame_sent: false,
            units: 0,
        }
    }

    /// Time of the next frame on the clock of the stream.
    pub fn pts(&self) -> (r: u64)
        ensures
            r == self@.pts_us,
    {
        self.pts_us
    }

    /// Whether the counters and the cipher can take another frame.
    pub fn can_take(&self, encoded: &Option<EncodedFrame>) -> (r: bool)
        ensures
            r == loop_takes(self@, *encoded),
    {
        if self.pts_us > 0xffff_ffff_ffff_ffff - self.frame_interval_us || self.units
            == 0xffff_ffff_ffff_ffff {
            return false;
        }
        match encoded {
            None => true,
            Some(frame) => {
                let (_sps, _pps, vcl) = mirror_packet::partition_access_unit(&frame.data);
                let payload = mirror_packet::nals_to_avcc(&vcl);
                self.cipher.can_take(payload.len())
            },
        }
    }

    /// Takes what the encoder gave for a frame, and gives what is to be sent for it.
    pub fn on_encoded(&mut self, encoded: Option<EncodedFrame>, ts: u64) -> (r: Option<Outgoing>)
        requires
            loop_takes(old(self)@, encoded),
        ensures
            final(self)@ == loop_after(old(self)@, encoded, ts as nat),
            match encoded {
                None => r is None,
                Some(frame) => {
                    &&& r matches Some(out)
                    &&& bytes::view_opt(out.codec) == loop_codec(old(self)@, frame, ts as nat)
                    &&& is_vcl_packet(old(self)@.cipher, frame, ts as nat, out.vcl)
                    &&& out.announces_first == (old(self)@.units == 0 && has_vcl(frame.data@)
                        && !fails(old(self)@, frame))
                },
            },
    {
        self.pts_us = self.pts_us + self.frame_interval_us;
        let frame = match encoded {
            None => return None,
            Some(f) => f,
        };
        if frame.coded_width != self.stream_width || frame.coded_height != self.stream_height {
            self.codec_sent = false;
            self.stream_width = frame.coded_width;
            self.stream_height = frame.coded_height;
        }
        let first = self.units == 0;
        self.units = self.units + 1;
        let sizes = CodecSizes {
            content_width: self.stream_width,
            content_height: self.stream_height,
            display_width: self.display_width,
            display_height: self.display_height,
        };
        let packets = unit_packets(&mut self.cipher, &frame, self.codec_sent, sizes, ts);
        if packets.codec.is_some() {
            self.codec_sent = true;
        }
        let written = match &packets.vcl {
            Ok(v) => v.is_some(),
            Err(_) => false,
        };
        if packets.vcl.is_ok() {
            self.first_frame_sent = true;
        }
        let announces_first = first && written;
        Some(Outgoing { codec: packets.codec, vcl: packets.vcl, announces_first })
    }

    /// The keepalive packet that is due every second once a frame was sent.
    pub fn heartbeat(&self) -> (r: Option<[u8; 128]>)
        ensures
            match r {
                Some(h) => self@.first_frame_sent && h@ == mirror_packet::heartbeat_header(),
                None => !self@.first_frame_sent,
            },
    {
        if self.first_frame_sent {
            Some(mirror_packet::build_heartbeat_header())
        } else {
            None
        }
    }
}

/// A frame: pixels, width and height.
pub type FrameItem = (Vec<u8>, u32, u32);

/// A queue of one frame, in which a new frame takes the place of one that was not fetched.
pub struct LatestFrame {
    slot: Option<FrameItem>,
    dropped: u64,
}

/// What a receiver finds in the queue.
pub enum Fetched {
    Frame(FrameItem),
    /// The queue is empty, and frames may come.
    Wait,
    /// The queue is empty, and no frame will come.
    Closed,
}

impl LatestFrame {
    /// The frame that is waiting.
    pub closed spec fn slot(&self) -> Option<FrameItem> {
        self.slot
    }

    /// Frames that were replaced, modulo 2^64.
    pub closed spec fn dropped(&self) -> nat {
        self.dropped as nat
    }

    /// Puts a frame in; one that was waiting is dropped and counted.
    pub fn send(&mut self, frame: FrameItem)
        ensures
            final(self).slot() == Some(frame),
            final(self).dropped() == (if old(self).slot() is Some {
                (old(self).dropped() + 1) % 0x1_0000_0000_0000_0000
            } else {
                old(self).dropped()
            }),
    {
        if self.slot.is_some() {
            self.dropped = wrapping(self.dropped, 1);
        }
        self.slot = Some(frame);
    }

    /// Frames that were replaced.
    pub fn dropped_frames(&self) -> (r: u64)
        ensures
            r == self.dropped(),
    {
        self.dropped
    }

    /// Fetches the frame that is waiting, given whether a sender is left.
    pub fn recv(&mut self, sender_left: bool) -> (r: Fetched)
        ensures
            final(self).dropped() == old(self).dropped(),
            final(self).slot() is None,
            match old(self).slot() {
                Some(f) => r == Fetched::Frame(f),
                None => if sender_left {
                    r is Wait
                } else {
                    r is Closed
                },
            },
    {
        match self.slot.take() {
            Some(f) => Fetched::Frame(f),
            None => if sender_left {
                Fetched::Wait
            } else {
                Fetched::Closed
            },
        }
    }
}

/// An empty queue.
pub fn frame_channel() -> (r: LatestFrame)
    ensures
        r.slot() is None,
        r.dropped() == 0,
{
    LatestFrame { slot: None, dropped: 0 }
}

/// The queue after frames were sent to it: the frame that waits, and the number of frames that
/// were replaced.
pub open spec fn queue_after(slot: Option<FrameItem>, dropped: nat, sent: Seq<FrameItem>) -> (
    Option<FrameItem>,
    nat,
)
    decreases sent.len(),
{
    if sent.len() == 0 {
        (slot, dropped)
    } else {
        let (s, d) = queue_after(slot, dropped, sent.drop_last());
        (
            Some(sent.last()),
            if s is Some {
                (d + 1) % 0x1_0000_0000_0000_0000
            } else {
                d
            },
        )
    }
}

/// A receiver gets the frame that was sent last, and every frame before it that was not fetched
/// counts as dropped.
pub proof fn law_latest_frame_wins(sent: Seq<FrameItem>)
    requires
        0 < sent.len() <= 0x1_0000_0000_0000_0000,
    ensures
        queue_after(None, 0, sent) == (Some(sent.last()), (sent.len() - 1) as nat),
    decreases sent.len(),
{
    let front = sent.drop_last();
    if sent.len() > 1 {
        law_latest_frame_wins(front);
    } else {
        assert(front.len() == 0);
        assert(queue_after(None, 0, front) == (None::<FrameItem>, 0nat));
    }
}

/// What a receiver in the same state makes of a packet that is not sealed: the data behind the
/// header, deciphered.
pub open spec fn read_back(c: CipherView, packet: Seq<u8>) -> Seq<u8> {
    match c {
        CipherView::Aes { key, iv, offset } => mirror_aes::ctr_xor(
            key,
            iv,
            offset,
            packet.skip(128),
        ),
        _ => packet.skip(128),
    }
}

/// A receiver whose cipher is in the state of the sender's reads the payload back from a packet
/// that is plain or enciphered with AES.
pub proof fn law_receiver_reads_payload(
    c: CipherView,
    payload: Seq<u8>,
    is_keyframe: bool,
    ts: nat,
)
    requires
        !(c is ChaCha),
    ensures
        read_back(c, video_packet(c, payload, is_keyframe, ts)) == payload,
{
    let header = mirror_packet::video_header(payload.len(), is_keyframe, ts);
    bytes::lemma_le_bytes_len(payload.len(), 4);
    bytes::lemma_le_bytes_len(ts, 8);
    assert(header.len() == 128);
    match c {
        CipherView::Aes { key, iv, offset } => {
            let sealed = mirror_aes::ctr_xor(key, iv, offset, payload);
            assert((header + sealed).skip(128) =~= sealed);
            mirror_aes::law_ctr_involution(key, iv, offset, payload);
        },
        _ => {
            assert((header + payload).skip(128) =~= payload);
        },
    }
}

/// A receiver that opens what stands behind the header of a packet sealed with ChaCha20-Poly1305,
/// as the message of the same number and with the header as associated data, reads the payload
/// back. `opened` stands for what decryption returned, of which `StreamCipher::decrypt` states
/// that it is the plaintext of whatever was sealed to these bytes.
pub proof fn law_receiver_opens_payload(
    key: Seq<u8>,
    counter: nat,
    payload: Seq<u8>,
    is_keyframe: bool,
    ts: nat,
    opened: Option<Seq<u8>>,
)
    requires
        payload.len() <= primitives::CHACHA_MAX_LEN,
        ({
            let packet = video_packet(
                CipherView::ChaCha { key, counter },
                payload,
                is_keyframe,
                ts,
            );
            primitives::gives_back(
                opened,
                key,
                chacha::nonce_of(counter),
                packet.skip(128),
                packet.take(128),
            )
        }),
    ensures
        opened == Some(payload),
{
    let header = mirror_packet::video_header(payload.len() + 16, is_keyframe, ts);
    let sealed = primitives::chacha_sealed(key, chacha::nonce_of(counter), payload, header);
    bytes::lemma_le_bytes_len(payload.len() + 16, 4);
    bytes::lemma_le_bytes_len(ts, 8);
    assert(header.len() == 128);
    assert((header + sealed).skip(128) =~= sealed);
    assert((header + sealed).take(128) =~= header);
}

/// Until a frame of another coded size comes, the codec configuration is sent at most once: a
/// frame of the same size finds it valid.
pub proof fn law_codec_sent_once(v: LoopView, frame: EncodedFrame, ts: nat, next: EncodedFrame, ts2: nat)
    requires
        loop_codec(v, frame, ts) is Some,
        next.coded_width == frame.coded_width,
        next.coded_height == frame.coded_height,
    ensures
        loop_codec(loop_after(v, Some(frame), ts), next, ts2) is None,
{
}

/// A change of the coded size makes the next key frame with both parameter sets carry a codec
/// configuration again.
pub proof fn law_codec_resent_on_resize(v: LoopView, frame: EncodedFrame, ts: nat)
    requires
        v.stream_size != (frame.coded_width, frame.coded_height),
        frame.is_keyframe,
        mirror_packet::last_of_type(mirror_packet::nals_of(frame.data@), 7) is Some,
        mirror_packet::last_of_type(mirror_packet::nals_of(frame.data@), 8) is Some,
    ensures
        loop_codec(v, frame, ts) is Some,
{
}

/// The picture data of a frame that an encoder wrote behind start codes reaches the receiver whole:
/// it reads the slices, one for one and in order, from the payload, whatever their lengths.
pub proof fn law_slices_reach_receiver(
    sps: Seq<u8>,
    pps: Seq<u8>,
    slices: Seq<Seq<u8>>,
    long: Seq<bool>,
)
    requires
        mirror_packet::can_be_split(seq![sps, pps] + slices, long),
        sps[0] & 0x1f == 7,
        pps[0] & 0x1f == 8,
        forall|k: int|
            0 <= k < slices.len() ==> 1 <= (#[trigger] slices[k])[0] & 0x1f <= 5 && slices[k].len()
                <= 16777216,
    ensures
        ({
            let data = mirror_packet::annex_b(seq![sps, pps] + slices, long);
            &&& has_vcl(data) == (slices.len() > 0)
            &&& mirror_packet::units_from(vcl_payload(data), 0) == slices
        }),
{
    let nals = seq![sps, pps] + slices;
    assert forall|k: int| 0 <= k < slices.len() implies 0 < (#[trigger] slices[k]).len()
        <= 16777216 by {
        assert(nals[k + 2] == slices[k]);
        assert(mirror_packet::is_bare(nals[k + 2]));
        assert(1 <= slices[k][0] & 0x1f <= 5 && slices[k].len() <= 16777216);
    }
    mirror_packet::law_key_frame_is_taken_apart(sps, pps, slices, long);
    mirror_packet::law_lengths_lead_from_unit_to_unit(slices);
}

/// A codec packet goes before a key frame with both parameter sets as long as none was sent, and
/// only then; behind its header stands the configuration made of these sets.
pub proof fn law_codec_packet_comes_first(
    data: Seq<u8>,
    is_keyframe: bool,
    codec_sent: bool,
    sizes: CodecSizes,
    ts: nat,
    sps: Seq<u8>,
    pps: Seq<u8>,
)
    ensures
        !is_keyframe || codec_sent ==> codec_packet(data, is_keyframe, codec_sent, sizes, ts) is None,
        is_keyframe && !codec_sent && mirror_packet::last_of_type(mirror_packet::nals_of(data), 7)
            == Some(sps) && mirror_packet::last_of_type(mirror_packet::nals_of(data), 8) == Some(pps)
            ==> {
            &&& codec_packet(data, is_keyframe, codec_sent, sizes, ts) matches Some(p)
            &&& p.skip(128) == mirror_packet::avcc_config(sps, pps)
            &&& p.subrange(16, 20) == mirror_packet::float_bytes(sizes.content_width as nat)
            &&& p.subrange(20, 24) == mirror_packet::float_bytes(sizes.content_height as nat)
            &&& p.subrange(56, 60) == mirror_packet::float_bytes(sizes.display_width as nat)
            &&& p.subrange(60, 64) == mirror_packet::float_bytes(sizes.display_height as nat)
            &&& p[4] == 1
        },
{
    let avcc = mirror_packet::avcc_config(sps, pps);
    let (a, b, c, d) = (
        sizes.content_width as nat,
        sizes.content_height as nat,
        sizes.display_width as nat,
        sizes.display_height as nat,
    );
    mirror_packet::law_codec_header_fields(a, b, c, d, avcc.len(), ts);
    let h = mirror_packet::codec_header(a, b, c, d, avcc.len(), ts);
    assert((h + avcc).skip(128) =~= avcc);
    assert((h + avcc).subrange(16, 20) =~= h.subrange(16, 20));
    assert((h + avcc).subrange(20, 24) =~= h.subrange(20, 24));
    assert((h + avcc).subrange(56, 60) =~= h.subrange(56, 60));
    assert((h + avcc).subrange(60, 64) =~= h.subrange(60, 64));
    assert((h + avcc)[4] == h[4]);
}

/// Every frame moves the clock of the stream on by one interval, whether the encoder gave anything
/// for it or not. The cipher moves on exactly where picture data is sent, and one frame more is
/// counted exactly where the encoder gave one. What the stream shows and how fast stays.
pub proof fn law_loop_moves_on(v: LoopView, encoded: Option<EncodedFrame>, ts: nat)
    ensures
        ({
            let w = loop_after(v, encoded, ts);
            &&& w.pts_us == v.pts_us + v.interval_us
            &&& w.interval_us == v.interval_us
            &&& w.display_size == v.display_size
            &&& v.first_frame_sent ==> w.first_frame_sent
            &&& encoded is None ==> w.cipher == v.cipher && w.codec_sent == v.codec_sent
                && w.stream_size == v.stream_size && w.units == v.units && w.first_frame_sent
                == v.first_frame_sent
            &&& encoded matches Some(f) ==> {
                &&& w.units == v.units + 1
                &&& w.stream_size == (f.coded_width, f.coded_height)
                &&& !has_vcl(f.data@) ==> w.cipher == v.cipher && w.first_frame_sent
                &&& has_vcl(f.data@) && v.cipher is ChaCha ==> w.cipher is ChaCha
                    && w.cipher->ChaCha_counter == v.cipher->ChaCha_counter + 1
                    && w.cipher->ChaCha_key == v.cipher->ChaCha_key
                &&& has_vcl(f.data@) && v.cipher is Aes ==> w.cipher is Aes
                    && w.cipher->Aes_offset >= v.cipher->Aes_offset + vcl_payload(f.data@).len()
                    && w.cipher->Aes_key == v.cipher->Aes_key && w.cipher->Aes_iv
                    == v.cipher->Aes_iv
            }
        }),
{
    if let Some(f) = encoded {
        if v.cipher is Aes {
            mirror_aes::law_offset_advances(
                v.cipher->Aes_offset,
                vcl_payload(f.data@).len(),
            );
        }
    }
}
/// A packet begins with the header of a picture packet, for the length of what follows it: as long
/// as the payload, or sixteen bytes longer where the payload is sealed. A sealed payload is bound
/// to its header, and sealed under the number of the packet.
pub proof fn law_packet_is_headed(c: CipherView, payload: Seq<u8>, is_keyframe: bool, ts: nat)
    ensures
        ({
            let p = video_packet(c, payload, is_keyframe, ts);
            let longer: nat = if c is ChaCha {
                16
            } else {
                0
            };
            &&& p.take(128) == mirror_packet::video_header(payload.len() + longer, is_keyframe, ts)
            &&& c is Plain ==> p.skip(128) == payload
            &&& c matches CipherView::ChaCha { key, counter } ==> p.skip(128)
                == primitives::chacha_sealed(
                key,
                bytes::zeros(4) + bytes::le_bytes(counter, 8),
                payload,
                p.take(128),
            )
            &&& c matches CipherView::Aes { key, iv, offset } ==> p.skip(128)
                == mirror_aes::ctr_xor(key, iv, offset, payload)
        }),
        refuses(c, payload.len()) <==> c is ChaCha && payload.len() > 274877906816,
        c is Plain ==> takes(c, payload.len()),
        c matches CipherView::Aes { offset, .. } ==> (takes(c, payload.len()) <==> offset
            + payload.len() + 16 < 0x1_0000_0000_0000_0000),
{
    let longer: nat = if c is ChaCha {
        16
    } else {
        0
    };
    let p = video_packet(c, payload, is_keyframe, ts);
    mirror_packet::law_video_header_fields(payload.len() + longer, is_keyframe, ts);
    let h = mirror_packet::video_header(payload.len() + longer, is_keyframe, ts);
    assert(h.len() == 128);
    assert(p.take(128) =~= h);
    match c {
        CipherView::Plain => {
            assert(p.skip(128) =~= payload);
        },
        CipherView::Aes { key, iv, offset } => {
            assert(p.skip(128) =~= mirror_aes::ctr_xor(key, iv, offset, payload));
        },
        CipherView::ChaCha { key, counter } => {
            assert(p.skip(128) =~= primitives::chacha_sealed(
                key,
                chacha::nonce_of(counter),
                payload,
                h,
            ));
        },
    }
}

/// The codec packet of a key frame tells its own size and the size at which it is shown, and is
/// sent again exactly where none was sent for this size.
pub proof fn law_codec_packet_tells_sizes(v: LoopView, frame: EncodedFrame)
    ensures
        codec_sizes(v, frame).content_width == frame.coded_width,
        codec_sizes(v, frame).content_height == frame.coded_height,
        (codec_sizes(v, frame).display_width, codec_sizes(v, frame).display_height)
            == v.display_size,
        codec_valid(v, frame) <==> v.codec_sent && v.stream_size.0 == frame.coded_width
            && v.stream_size.1 == frame.coded_height,
{
}
/// What is sent for a frame: its picture data in one packet, marked as that of a key frame where it
/// is one, at its time; and before it the codec packet, at the same time.
pub proof fn law_frame_is_sent(
    v: LoopView,
    frame: EncodedFrame,
    ts: nat,
    r: Result<Option<Vec<u8>>, RottenError>,
)
    requires
        is_vcl_packet(v.cipher, frame, ts, r),
    ensures
        !has_vcl(frame.data@) ==> r == Ok::<Option<Vec<u8>>, RottenError>(None),
        has_vcl(frame.data@) && !(v.cipher is ChaCha && vcl_payload(frame.data@).len()
            > 274877906816) ==> (r matches Ok(Some(p)) && p@ == video_packet(
            v.cipher,
            vcl_payload(frame.data@),
            frame.is_keyframe,
            ts,
        )),
        loop_codec(v, frame, ts) matches Some(p) ==> {
            &&& frame.is_keyframe
            &&& p.len() >= 128
            &&& p.take(128) == mirror_packet::codec_header(
                frame.coded_width as nat,
                frame.coded_height as nat,
                v.display_size.0 as nat,
                v.display_size.1 as nat,
                (p.len() - 128) as nat,
                ts,
            )
        },
{
    if let Some(p) = loop_codec(v, frame, ts) {
        let sps = mirror_packet::last_of_type(mirror_packet::nals_of(frame.data@), 7)->0;
        let pps = mirror_packet::last_of_type(mirror_packet::nals_of(frame.data@), 8)->0;
        let avcc = mirror_packet::avcc_config(sps, pps);
        let (a, b, c, d) = (
            frame.coded_width as nat,
            frame.coded_height as nat,
            v.display_size.0 as nat,
            v.display_size.1 as nat,
        );
        mirror_packet::law_codec_header_fields(a, b, c, d, avcc.len(), ts);
        let h = mirror_packet::codec_header(a, b, c, d, avcc.len(), ts);
        assert(p =~= h + avcc);
        assert(p.take(128) =~= h);
    }
}
} // verus!
