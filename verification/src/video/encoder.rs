//! H.264 encoding in software.

use crate::config::HwAccel;
use crate::error::{self, ErrorView, RottenError};
use crate::text;
use crate::video::geometry;
use openh264::encoder::{BitRate, Encoder, EncoderConfig, FrameType, UsageType};
use openh264::formats::{RgbSliceU8, YUVBuffer};
use openh264::OpenH264API;
use vstd::prelude::*;

verus! {

/// Build stamp of the encoder.
pub const ENCODER_BUILD_ID: &'static str = "v0.1.0";

/// Kinds of encoders.
#[derive(Debug, Clone, Copy, PartialEq, Eq, Structural)]
pub enum HwEncoderKind {
    Software,
    Nvenc,
    Vaapi,
}

impl HwEncoderKind {
    /// The encoder that a preference leads to; automatic choice means software.
    pub fn resolve(pref: HwAccel) -> (r: Self)
        ensures
            r == (match pref {
                HwAccel::Nvenc => HwEncoderKind::Nvenc,
                HwAccel::Vaapi => HwEncoderKind::Vaapi,
                HwAccel::Disabled | HwAccel::Auto => HwEncoderKind::Software,
            }),
    {
        match pref {
            HwAccel::Nvenc => HwEncoderKind::Nvenc,
            HwAccel::Vaapi => HwEncoderKind::Vaapi,
            HwAccel::Disabled | HwAccel::Auto => HwEncoderKind::Software,
        }
    }
}

/// An encoded frame.
#[derive(Debug, Clone)]
pub struct EncodedFrame {
    pub data: Vec<u8>,
    pub pts_us: u64,
    pub is_keyframe: bool,
    pub coded_width: u32,
    pub coded_height: u32,
    pub display_width: u32,
    pub display_height: u32,
}

/// Kinds of frames that the encoder gives.
#[derive(Debug, Clone, Copy, PartialEq, Eq, Structural)]
pub enum FrameKind {
    Invalid,
    Idr,
    I,
    P,
    Skip,
    IpMixed,
}

/// `openh264::encoder::Encoder`, which is opaque.
#[verifier::external_type_specification]
#[verifier::external_body]
pub struct ExEncoder(openh264::encoder::Encoder);

/// Kinds of pictures that an encoder can be made for.
#[derive(Debug, Clone, Copy, PartialEq, Eq, Structural)]
pub enum Usage {
    CameraVideoRealTime,
    ScreenContentRealTime,
    CameraVideoNonRealTime,
    ScreenContentNonRealTime,
    InputContentTypeAll,
}

/// A call on the outside encoder, and what it gave.
pub enum EncoderCall {
    /// The encoder was made for a bit rate and a kind of pictures.
    Make { bps: nat, usage: Usage },
    /// The next frame was asked to be an intra frame.
    ForceIntra,
    /// A picture was encoded.
    Encode {
        rgb: Seq<u8>,
        width: nat,
        height: nat,
        out: Result<(Seq<u8>, FrameKind), Seq<char>>,
    },
}

/// The calls that an encoder has seen since it was made, and what they gave.
pub uninterp spec fn encoder_calls(encoder: Encoder) -> Seq<EncoderCall>;

/// Whether an encoder, where there is one, is fresh and made for a bit rate and a kind of pictures.
pub open spec fn made_for(r: Result<Encoder, String>, bps: nat, usage: Usage) -> bool {
    r matches Ok(e) ==> encoder_calls(e) == seq![EncoderCall::Make { bps, usage }]
}

/// `openh264::encoder::Encoder::with_api_config` for a bit rate and a kind of pictures: an encoder
/// that has seen no other call. Whether there is one is up to the library behind it.
#[verifier::external_body]
fn openh264_new(bps: u32, usage: Usage) -> (r: Result<Encoder, String>)
    ensures
        made_for(r, bps as nat, usage),
{
    let usage_type = match usage {
        Usage::CameraVideoRealTime => UsageType::CameraVideoRealTime,
        Usage::ScreenContentRealTime => UsageType::ScreenContentRealTime,
        Usage::CameraVideoNonRealTime => UsageType::CameraVideoNonRealTime,
        Usage::ScreenContentNonRealTime => UsageType::ScreenContentNonRealTime,
        Usage::InputContentTypeAll => UsageType::InputContentTypeAll,
    };
    let config = EncoderConfig::new().bitrate(BitRate::from_bps(bps)).usage_type(usage_type);
    Encoder::with_api_config(OpenH264API::from_source(), config).map_err(|e| e.to_string())
}

/// `openh264::encoder::Encoder::force_intra_frame`: one more call on the encoder. That an intra
/// frame comes is up to the library behind it.
#[verifier::external_body]
fn openh264_force_intra(encoder: &mut Encoder)
    ensures
        encoder_calls(*final(encoder)) == encoder_calls(*old(encoder)).push(
            EncoderCall::ForceIntra,
        ),
{
    encoder.force_intra_frame();
}

/// `openh264::encoder::Encoder::encode` of an RGB picture: one more call on the encoder. What it
/// gives depends on all calls before and on the library behind it, and nothing is said of it. The
/// sides of the picture must be even and its bytes complete.
#[verifier::external_body]
fn openh264_encode(encoder: &mut Encoder, rgb: &[u8], width: u32, height: u32) -> (r: Result<
    (Vec<u8>, FrameKind),
    String,
>)
    requires
        0 < width <= 1920,
        0 < height <= 1088,
        width % 2 == 0,
        height % 2 == 0,
        rgb@.len() == width * height * 3,
    ensures
        encoder_calls(*final(encoder)) == encoder_calls(*old(encoder)).push(
            EncoderCall::Encode {
                rgb: rgb@,
                width: width as nat,
                height: height as nat,
                out: view_output(r),
            },
        ),
{
    let source = RgbSliceU8::new(rgb, (width as usize, height as usize));
    let out = encoder.encode(&YUVBuffer::from_rgb8_source(source)).map_err(|e| e.to_string())?;
    let kind = match out.frame_type() {
        FrameType::IDR => FrameKind::Idr,
        FrameType::I => FrameKind::I,
        FrameType::P => FrameKind::P,
        FrameType::Skip => FrameKind::Skip,
        FrameType::IPMixed => FrameKind::IpMixed,
        FrameType::Invalid => FrameKind::Invalid,
    };
    Ok((out.to_vec(), kind))
}

/// Sizes that go with a frame.
#[derive(Debug, Clone, Copy, PartialEq, Eq, Structural)]
pub struct FrameSizes {
    pub coded_width: u32,
    pub coded_height: u32,
    pub display_width: u32,
    pub display_height: u32,
}

/// Whether `r` is the frame made of what the encoder gave: nothing for no data, a key frame for
/// the two intra kinds.
pub open spec fn is_frame_of(
    out: Result<(Seq<u8>, FrameKind), Seq<char>>,
    pts_us: u64,
    sizes: FrameSizes,
    r: Result<Option<EncodedFrame>, RottenError>,
) -> bool {
    match out {
        Err(t) => r matches Err(e) && e@ == ErrorView::Video("openh264 encode: "@ + t),
        Ok((data, kind)) => if data.len() == 0 {
            r matches Ok(None)
        } else {
            &&& r matches Ok(Some(f))
            &&& f.data@ == data
            &&& f.pts_us == pts_us
            &&& f.is_keyframe == (kind == FrameKind::Idr || kind == FrameKind::I)
            &&& f.coded_width == sizes.coded_width
            &&& f.coded_height == sizes.coded_height
            &&& f.display_width == sizes.display_width
            &&& f.display_height == sizes.display_height
        },
    }
}

/// Encoder output by its contents.
pub open spec fn view_output(out: Result<(Vec<u8>, FrameKind), String>) -> Result<
    (Seq<u8>, FrameKind),
    Seq<char>,
> {
    match out {
        Ok((d, k)) => Ok((d@, k)),
        Err(t) => Err(t@),
    }
}

/// The frame made of what the encoder gave.
pub fn frame_of_output(
    out: Result<(Vec<u8>, FrameKind), String>,
    pts_us: u64,
    sizes: FrameSizes,
) -> (r: Result<Option<EncodedFrame>, RottenError>)
    ensures
        is_frame_of(view_output(out), pts_us, sizes, r),
{
    match out {
        Err(t) => Err(RottenError::Video(error::labelled("openh264 encode: ", t.as_str()))),
        Ok((data, kind)) => {
            if data.len() == 0 {
                return Ok(None);
            }
            Ok(
                Some(
                    EncodedFrame {
                        data,
                        pts_us,
                        is_keyframe: kind == FrameKind::Idr || kind == FrameKind::I,
                        coded_width: sizes.coded_width,
                        coded_height: sizes.coded_height,
                        display_width: sizes.display_width,
                        display_height: sizes.display_height,
                    },
                ),
            )
        },
    }
}

/// An H.264 encoder.
pub trait EncoderTrait {
    /// Pictures that can be encoded.
    spec fn accepts(&self, width: u32, height: u32) -> bool;

    fn encode(&mut self, rgba: &[u8], width: u32, height: u32, pts_us: u64) -> (r: Result<
        Option<EncodedFrame>,
        RottenError,
    >)
        requires
            old(self).accepts(width, height),
    ;

    fn force_keyframe(&mut self);

    fn kind(&self) -> HwEncoderKind;
}

/// What the software encoder keeps between frames, with the calls that it made.
pub struct EncoderView {
    pub width: u32,
    pub height: u32,
    pub force_idr: bool,
    pub rgb: Seq<u8>,
    pub calls: Seq<EncoderCall>,
}

/// Software encoder.
pub struct SoftwareEncoder {
    encoder: Encoder,
    rgb_buf: Vec<u8>,
    width: u32,
    height: u32,
    force_idr: bool,
}

/// Largest even number not above `v`.
pub open spec fn even(v: u32) -> nat {
    (v - v % 2) as nat
}

/// The sizes of the frame for a picture.
pub open spec fn sizes_of(width: u32, height: u32) -> FrameSizes {
    let dims = geometry::fitted_dims(even(width), even(height));
    FrameSizes {
        coded_width: dims.0 as u32,
        coded_height: dims.1 as u32,
        display_width: even(width) as u32,
        display_height: even(height) as u32,
    }
}

/// The state after a picture was made ready: the coded size, whether an intra frame must be
/// forced, and the colours that go to the encoder.
pub open spec fn prepared(v: EncoderView, rgba: Seq<u8>, width: u32, height: u32) -> EncoderView {
    let s = sizes_of(width, height);
    EncoderView {
        width: s.coded_width,
        height: s.coded_height,
        force_idr: v.force_idr || v.width != s.coded_width || v.height != s.coded_height,
        rgb: geometry::rgb_over(
            v.rgb,
            geometry::coded_rgba(
                rgba,
                s.display_width as nat,
                s.display_height as nat,
                s.coded_width as nat,
                s.coded_height as nat,
            ),
            s.coded_width as nat * s.coded_height as nat,
        ),
        ..v
    }
}

/// The state after a picture that was made ready went to the encoder, which gave `out`: an intra
/// frame is asked for first where one must be forced, and the request is then spent.
pub open spec fn handed_over(
    v: EncoderView,
    out: Result<(Seq<u8>, FrameKind), Seq<char>>,
) -> EncoderView {
    let asked = if v.force_idr {
        v.calls.push(EncoderCall::ForceIntra)
    } else {
        v.calls
    };
    EncoderView {
        force_idr: false,
        calls: asked.push(
            EncoderCall::Encode {
                rgb: v.rgb,
                width: v.width as nat,
                height: v.height as nat,
                out,
            },
        ),
        ..v
    }
}

/// The state of a new encoder.
pub open spec fn fresh(width: u32, height: u32, bitrate_kbps: u32) -> EncoderView {
    EncoderView {
        width,
        height,
        force_idr: true,
        rgb: Seq::empty(),
        calls: seq![
            EncoderCall::Make {
                bps: bits_per_second(bitrate_kbps),
                usage: Usage::ScreenContentRealTime,
            },
        ],
    }
}

impl View for SoftwareEncoder {
    type V = EncoderView;

    closed spec fn view(&self) -> EncoderView {
        EncoderView {
            width: self.width,
            height: self.height,
            force_idr: self.force_idr,
            rgb: self.rgb_buf@,
            calls: encoder_calls(self.encoder),
        }
    }
}

/// Bits per second for the encoder: at least 500 kbit/s.
pub open spec fn bits_per_second(bitrate_kbps: u32) -> nat {
    if bitrate_kbps < 500 {
        500_000
    } else {
        (bitrate_kbps * 1000) as nat
    }
}

/// Bits per second for the encoder: at least 500 kbit/s.
pub fn encoder_bps(bitrate_kbps: u32) -> (r: u32)
    requires
        bitrate_kbps <= 4294967,
    ensures
        r == bits_per_second(bitrate_kbps),
{
    let kbps: u32 = if bitrate_kbps < 500 {
        500
    } else {
        bitrate_kbps
    };
    kbps * 1000
}

impl SoftwareEncoder {
    /// An encoder whose first frame is a key frame.
    pub fn new(width: u32, height: u32, bitrate_kbps: u32) -> (r: Result<Self, RottenError>)
        requires
            bitrate_kbps <= 4294967,
        ensures
            match r {
                Ok(e) => e@ == fresh(width, height, bitrate_kbps),
                Err(e) => e@ matches ErrorView::Video(t) && text::starts_with_text(
                    t,
                    "openh264 encoder init: "@,
                ),
            },
    {
        match openh264_new(encoder_bps(bitrate_kbps), Usage::ScreenContentRealTime) {
            Ok(encoder) => Ok(
                SoftwareEncoder { encoder, rgb_buf: Vec::new(), width, height, force_idr: true },
            ),
            Err(t) => {
                let msg = error::labelled("openh264 encoder init: ", t.as_str());
                assert(msg@.take("openh264 encoder init: "@.len() as int)
                    =~= "openh264 encoder init: "@);
                Err(RottenError::Video(msg))
            },
        }
    }

    /// The encoder that a preference leads to; hardware encoders are refused.
    pub fn from_hw_pref(width: u32, height: u32, bitrate_kbps: u32, pref: HwAccel) -> (r: Result<
        Self,
        RottenError,
    >)
        requires
            bitrate_kbps <= 4294967,
        ensures
            match r {
                Ok(e) => (pref == HwAccel::Disabled || pref == HwAccel::Auto) && e@ == fresh(
                    width,
                    height,
                    bitrate_kbps,
                ),
                Err(e) => match pref {
                    HwAccel::Nvenc => e@ == ErrorView::Video(
                        "NVENC hardware encoding is not implemented yet; use --hwaccel none or auto"@,
                    ),
                    HwAccel::Vaapi => e@ == ErrorView::Video(
                        "VAAPI hardware encoding is not implemented yet; use --hwaccel none or auto"@,
                    ),
                    _ => e@ matches ErrorView::Video(t) && text::starts_with_text(
                        t,
                        "openh264 encoder init: "@,
                    ),
                },
            },
    {
        match HwEncoderKind::resolve(pref) {
            HwEncoderKind::Nvenc => Err(
                error::video_error(
                    "NVENC hardware encoding is not implemented yet; use --hwaccel none or auto",
                ),
            ),
            HwEncoderKind::Vaapi => Err(
                error::video_error(
                    "VAAPI hardware encoding is not implemented yet; use --hwaccel none or auto",
                ),
            ),
            HwEncoderKind::Software => SoftwareEncoder::new(width, height, bitrate_kbps),
        }
    }

    /// Makes a picture ready for the encoder; gives the sizes of its frame, or nothing for a
    /// picture that has no even size.
    pub fn prepare(&mut self, rgba: &[u8], width: u32, height: u32) -> (r: Option<FrameSizes>)
        requires
            even(height) <= 4294967280,
        ensures
            match r {
                None => (even(width) == 0 || even(height) == 0) && final(self)@ == old(self)@,
                Some(s) => {
                    &&& even(width) > 0 && even(height) > 0
                    &&& s == sizes_of(width, height)
                    &&& final(self)@ == prepared(old(self)@, rgba@, width, height)
                    &&& 16 <= s.coded_width <= 1920 && s.coded_width % 16 == 0
                    &&& 16 <= s.coded_height <= 1088 && s.coded_height % 16 == 0
                    &&& final(self)@.rgb.len() == s.coded_width * s.coded_height * 3
                },
            },
    {
        let display_width: u32 = geometry::even_dim(width);
        let display_height: u32 = geometry::even_dim(height);
        if display_width == 0 || display_height == 0 {
            return None;
        }
        let (coded_width, coded_height) = geometry::fit_stream_dims(
            display_width,
            display_height,
        );
        if coded_width != self.width || coded_height != self.height {
            self.width = coded_width;
            self.height = coded_height;
            self.force_idr = true;
        }
        proof {
            assert(0 <= coded_width * coded_height <= 1920 * 1088) by (nonlinear_arith)
                requires
                    0 <= coded_width <= 1920,
                    0 <= coded_height <= 1088,
            ;
        }
        let work = geometry::fit_rgba_to_coded(
            rgba,
            display_width,
            display_height,
            coded_width,
            coded_height,
        );
        let pixels: usize = coded_width as usize * coded_height as usize;
        geometry::fill_rgb(&mut self.rgb_buf, &work, pixels);
        Some(FrameSizes { coded_width, coded_height, display_width, display_height })
    }
}

impl EncoderTrait for SoftwareEncoder {
    open spec fn accepts(&self, width: u32, height: u32) -> bool {
        even(height) <= 4294967280
    }

    /// Encodes a picture. An intra frame is forced where one was asked for or the coded size
    /// changed, and the request is then spent. What comes back is what the encoder gives.
    fn encode(&mut self, rgba: &[u8], width: u32, height: u32, pts_us: u64) -> (r: Result<
        Option<EncodedFrame>,
        RottenError,
    >)
        ensures
            even(width) == 0 || even(height) == 0 ==> (r matches Ok(None)) && final(self)@
                == old(self)@,
            even(width) > 0 && even(height) > 0 ==> exists|
                out: Result<(Seq<u8>, FrameKind), Seq<char>>,
            | #[trigger] is_frame_of(out, pts_us, sizes_of(width, height), r) && final(self)@
                == handed_over(prepared(old(self)@, rgba@, width, height), out),
    {
        let sizes = match self.prepare(rgba, width, height) {
            None => return Ok(None),
            Some(s) => s,
        };
        if self.force_idr {
            openh264_force_intra(&mut self.encoder);
            self.force_idr = false;
        }
        let out = openh264_encode(
            &mut self.encoder,
            &self.rgb_buf,
            sizes.coded_width,
            sizes.coded_height,
        );
        let ghost shown = view_output(out);
        let r = frame_of_output(out, pts_us, sizes);
        assert(is_frame_of(shown, pts_us, sizes_of(width, height), r));
        assert(self@ == handed_over(prepared(old(self)@, rgba@, width, height), shown));
        r
    }

    fn force_keyframe(&mut self)
        ensures
            final(self)@ == (EncoderView { force_idr: true, ..old(self)@ }),
    {
        self.force_idr = true;
    }

    fn kind(&self) -> (r: HwEncoderKind)
        ensures
            r == HwEncoderKind::Software,
    {
        HwEncoderKind::Software
    }
}

/// An encoder that is made when the first picture comes.
pub struct LazyEncoder {
    inner: Option<SoftwareEncoder>,
    init_width: u32,
    init_height: u32,
    bitrate_kbps: u32,
    hw_accel: HwAccel,
}

impl LazyEncoder {
    /// The encoder, once it is made.
    pub closed spec fn inner(&self) -> Option<SoftwareEncoder> {
        self.inner
    }

    /// Coded size that the encoder starts with.
    pub closed spec fn init_size(&self) -> (nat, nat) {
        (self.init_width as nat, self.init_height as nat)
    }

    pub closed spec fn bitrate(&self) -> u32 {
        self.bitrate_kbps
    }

    pub closed spec fn preference(&self) -> HwAccel {
        self.hw_accel
    }

    pub fn new(width: u32, height: u32, bitrate_kbps: u32, hw_accel: HwAccel) -> (r: Self)
        requires
            height <= 4294967280,
        ensures
            r.inner() is None,
            r.init_size() == geometry::fitted_dims(width as nat, height as nat),
            r.bitrate() == bitrate_kbps,
            r.preference() == hw_accel,
    {
        let (init_width, init_height) = geometry::fit_stream_dims(width, height);
        LazyEncoder { inner: None, init_width, init_height, bitrate_kbps, hw_accel }
    }

    /// The state that the next picture meets: that of the encoder, or of a fresh one.
    pub open spec fn state(&self) -> EncoderView {
        match self.inner() {
            Some(e) => e@,
            None => fresh(
                self.init_size().0 as u32,
                self.init_size().1 as u32,
                self.bitrate(),
            ),
        }
    }

    /// Encodes a picture, after making the encoder where there is none. Hardware encoders are
    /// refused, and nothing changes then.
    pub fn encode(&mut self, rgba: &[u8], width: u32, height: u32, pts_us: u64) -> (r: Result<
        Option<EncodedFrame>,
        RottenError,
    >)
        requires
            even(height) <= 4294967280,
            old(self).bitrate() <= 4294967,
        ensures
            final(self).init_size() == old(self).init_size(),
            final(self).bitrate() == old(self).bitrate(),
            final(self).preference() == old(self).preference(),
            old(self).inner() is Some ==> final(self).inner() is Some,
            old(self).inner() is None && old(self).preference() == HwAccel::Nvenc ==>
                final(self).inner() is None && (r matches Err(e) && e@ == ErrorView::Video(
                "NVENC hardware encoding is not implemented yet; use --hwaccel none or auto"@,
            )),
            old(self).inner() is None && old(self).preference() == HwAccel::Vaapi ==>
                final(self).inner() is None && (r matches Err(e) && e@ == ErrorView::Video(
                "VAAPI hardware encoding is not implemented yet; use --hwaccel none or auto"@,
            )),
            final(self).inner() is None ==> r is Err,
            final(self).inner() is None && (old(self).preference() == HwAccel::Auto
                || old(self).preference() == HwAccel::Disabled) ==> (r matches Err(e) && e@ matches
            ErrorView::Video(t) && text::starts_with_text(t, "openh264 encoder init: "@)),
            final(self).inner() is Some && (even(width) == 0 || even(height) == 0) ==> (
            r matches Ok(None)) && final(self).state() == old(self).state(),
            final(self).inner() is Some && even(width) > 0 && even(height) > 0 ==> exists|
                out: Result<(Seq<u8>, FrameKind), Seq<char>>,
            | #[trigger] is_frame_of(out, pts_us, sizes_of(width, height), r)
                && final(self).state() == handed_over(
                prepared(old(self).state(), rgba@, width, height),
                out,
            ),
    {
        let mut enc = match self.inner.take() {
            Some(e) => e,
            None => match SoftwareEncoder::from_hw_pref(
                self.init_width,
                self.init_height,
                self.bitrate_kbps,
                self.hw_accel,
            ) {
                Ok(e) => e,
                Err(e) => return Err(e),
            },
        };
        let r = enc.encode(rgba, width, height, pts_us);
        self.inner = Some(enc);
        r
    }
}

/// An intra frame is asked for right before a picture where one was requested, which holds of the
/// first picture, or where the coded size differs from that of the picture before; else none is
/// asked for. The request is spent, and the size is remembered.
pub proof fn law_resize_forces_intra(
    v: EncoderView,
    rgba: Seq<u8>,
    width: u32,
    height: u32,
    out: Result<(Seq<u8>, FrameKind), Seq<char>>,
)
    ensures
        ({
            let s = sizes_of(width, height);
            let next = handed_over(prepared(v, rgba, width, height), out);
            let n = next.calls.len() as int;
            &&& if v.force_idr || (v.width, v.height) != (s.coded_width, s.coded_height) {
                n == v.calls.len() + 2 && next.calls[n - 2] == EncoderCall::ForceIntra
            } else {
                n == v.calls.len() + 1
            }
            &&& next.calls[n - 1] is Encode
            &&& !next.force_idr
            &&& (next.width, next.height) == (s.coded_width, s.coded_height)
        }),
{
}

/// What the encoder gave is passed on whole: a frame of any length but zero, with its time and its
/// sizes, and as a key frame exactly where it is one that needs no other.
pub proof fn law_output_is_passed_on(
    data: Seq<u8>,
    kind: FrameKind,
    pts_us: u64,
    sizes: FrameSizes,
    r: Result<Option<EncodedFrame>, RottenError>,
)
    requires
        is_frame_of(Ok((data, kind)), pts_us, sizes, r),
    ensures
        data.len() == 0 <==> r == Ok::<Option<EncodedFrame>, RottenError>(None),
        data.len() > 0 ==> (r matches Ok(Some(f)) && f.data@ == data && f.pts_us == pts_us
            && f.coded_width == sizes.coded_width && f.coded_height == sizes.coded_height
            && f.display_width == sizes.display_width && f.display_height == sizes.display_height
            && (f.is_keyframe <==> kind == FrameKind::Idr || kind == FrameKind::I)),
{
}

/// The picture that is handed over is the one that was given: where it has the coded size, every
/// pixel with its three colours; where it is lower, with black rows below.
pub proof fn law_picture_is_handed_over(
    v: EncoderView,
    rgba: Seq<u8>,
    width: u32,
    height: u32,
    out: Result<(Seq<u8>, FrameKind), Seq<char>>,
    p: int,
)
    requires
        0 < width <= 1920,
        width % 16 == 0,
        0 < height <= 1088,
        height % 2 == 0,
        rgba.len() == width * height * 4,
        0 <= p < width * height,
    ensures
        ({
            let calls = handed_over(prepared(v, rgba, width, height), out).calls;
            &&& calls.last() matches EncoderCall::Encode { rgb, width: w, height: h, .. }
            &&& w == width
            &&& h % 16 == 0 && h - 16 < height <= h
            &&& rgb.len() == w * h * 3
            &&& geometry::pixel_of(rgb, p, 3) == geometry::pixel_of(rgba, p, 4).take(3)
        }),
{
    geometry::law_small_sizes_are_aligned(width as nat, height as nat);
    let s = sizes_of(width, height);
    let (w, dh, ch) = (width as nat, height as nat, s.coded_height as nat);
    assert(s.coded_width == width);
    let x = p % w as int;
    let y = p / w as int;
    vstd::arithmetic::div_mod::lemma_fundamental_div_mod(p, w as int);
    assert(0 <= y < dh) by (nonlinear_arith)
        requires
            y == p / (w as int),
            0 <= p < w * dh,
            w > 0,
    ;
    assert(w * y == y * w) by (nonlinear_arith);
    let coded = geometry::coded_rgba(rgba, w, dh, w, ch);
    geometry::law_rows_are_kept(rgba, w, dh, ch, x, y);
    assert(p == y * w + x);
    assert(p * 4 == 4 * p);
    assert(geometry::pixel_of(coded, p, 4) == geometry::pixel_of(rgba, p, 4));
    geometry::lemma_inside(x, y, w as int, ch as int);
    geometry::law_colours_are_kept(v.rgb, coded, w * ch);
    assert(geometry::pixel_of(geometry::rgb_over(v.rgb, coded, w * ch), p, 3)
        == geometry::pixel_of(coded, p, 4).take(3));
}

/// The bit rate in bits: a thousand for a kilobit, and never less than half a million.
pub proof fn law_bits_per_second(bitrate_kbps: u32)
    ensures
        bits_per_second(bitrate_kbps) >= 500000,
        bitrate_kbps >= 500 ==> bits_per_second(bitrate_kbps) == bitrate_kbps * 1000,
        bitrate_kbps < 500 ==> bits_per_second(bitrate_kbps) == 500000,
{
}

/// The display sizes of a frame are the sides without an odd last row or column.
pub proof fn law_display_sides_are_even(width: u32, height: u32)
    ensures
        sizes_of(width, height).display_width % 2 == 0,
        sizes_of(width, height).display_height % 2 == 0,
        width - 1 <= sizes_of(width, height).display_width <= width,
        height - 1 <= sizes_of(width, height).display_height <= height,
{
}
/// The first picture of an encoder is an intra frame: it is asked for right before the picture is
/// handed over, whatever its size.
pub proof fn law_first_picture_is_intra(
    start: (u32, u32),
    bitrate_kbps: u32,
    rgba: Seq<u8>,
    width: u32,
    height: u32,
    out: Result<(Seq<u8>, FrameKind), Seq<char>>,
)
    ensures
        ({
            let calls = handed_over(
                prepared(fresh(start.0, start.1, bitrate_kbps), rgba, width, height),
                out,
            ).calls;
            &&& calls.len() == 3
            &&& calls[0] == (EncoderCall::Make {
                bps: bits_per_second(bitrate_kbps),
                usage: Usage::ScreenContentRealTime,
            })
            &&& calls[1] == EncoderCall::ForceIntra
            &&& calls[2] is Encode
        }),
{
}
} // verus!
