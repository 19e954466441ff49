//! What a mirror session streams, and how.

use crate::capture::frame::{self, CaptureFrame, DisplayInfo};
use crate::config::{MirrorConfig, StreamConfig};
use crate::device::AirPlayDevice;
use crate::protocol::audio_rtp;
use crate::video::geometry;
use crate::video::stream::FrameItem;
use vstd::prelude::*;

verus! {

/// Seconds between feedback requests.
pub const FEEDBACK_SECS: u64 = 2;

/// Seconds between requests that keep the control session alive.
pub const KEEPALIVE_SECS: u64 = 15;

/// The bit rate of a stream: the one that is asked for, or one that fits picture size and rate.
pub open spec fn stream_bitrate(c: StreamConfig) -> nat {
    if c.bitrate_kbps == 0 {
        geometry::bitrate_for((c.width * c.height * c.fps) as nat)
    } else {
        c.bitrate_kbps as nat
    }
}

/// The size of the picture that is captured: that of the first screen, where one is captured.
pub open spec fn capture_size(c: StreamConfig, displays: Seq<DisplayInfo>) -> (u32, u32) {
    if displays.len() > 0 {
        (displays[0].width, displays[0].height)
    } else {
        (c.width, c.height)
    }
}

/// The size of the picture that is captured.
pub fn captured_size(c: &StreamConfig, displays: &[DisplayInfo]) -> (r: (u32, u32))
    ensures
        r == capture_size(*c, displays@),
{
    if displays.len() > 0 {
        (displays[0].width, displays[0].height)
    } else {
        (c.width, c.height)
    }
}

/// The size at which the receiver shows the picture: that of its screen, where it is known, or
/// the captured size in even numbers.
pub open spec fn presentation(
    display_width: Option<u32>,
    display_height: Option<u32>,
    captured: (u32, u32),
) -> (int, int, Seq<char>) {
    match (display_width, display_height) {
        (Some(w), Some(h)) => if w > 0 && h > 0 {
            (w as int, h as int, "receiver-info"@)
        } else {
            (captured.0 - captured.0 % 2, captured.1 - captured.1 % 2, "capture-size"@)
        },
        _ => (captured.0 - captured.0 % 2, captured.1 - captured.1 % 2, "capture-size"@),
    }
}

/// The size at which the receiver shows the picture, and where it is known from.
pub fn presentation_size(device: &AirPlayDevice, captured: (u32, u32)) -> (r: (
    u32,
    u32,
    &'static str,
))
    ensures
        (r.0 as int, r.1 as int, r.2@) == presentation(
            device.display_width,
            device.display_height,
            captured,
        ),
{
    match (device.display_width, device.display_height) {
        (Some(w), Some(h)) => if w > 0 && h > 0 {
            return (w, h, "receiver-info");
        },
        _ => {},
    }
    (geometry::even_dim(captured.0), geometry::even_dim(captured.1), "capture-size")
}

/// Milliseconds between pictures of a source.
pub fn frame_delay_ms(fps: u32) -> (r: u64)
    ensures
        r == 1000nat / (if fps == 0 {
            1
        } else {
            fps as nat
        }),
{
    let rate: u64 = if fps == 0 {
        1
    } else {
        fps as u64
    };
    1000 / rate
}

/// What the streamer is started with.
#[derive(Debug)]
pub struct StreamPlan {
    pub width: u32,
    pub height: u32,
    pub presentation_width: u32,
    pub presentation_height: u32,
    pub presentation_source: &'static str,
    pub latency_samples: u32,
    pub fps: u32,
    pub bitrate_kbps: u32,
    pub frame_delay_ms: u64,
}

/// Plans a stream: its coded size, presentation size, latency and bit rate. The bit rate goes by
/// the configured size, the others by the captured one; a stream of silence gives the latency
/// where there is one, else the receiver's floor.
pub fn plan_stream(
    config: &MirrorConfig,
    device: &AirPlayDevice,
    displays: &[DisplayInfo],
    audio_latency: Option<u32>,
    floor_ms: u64,
) -> (r: StreamPlan)
    requires
        config.stream.bitrate_kbps == 0 ==> config.stream.width * config.stream.height
            * config.stream.fps <= u64::MAX,
        capture_size(config.stream, displays@).1 <= 4294967280,
    ensures
        ({
            let size = capture_size(config.stream, displays@);
            &&& (r.width as nat, r.height as nat) == geometry::fitted_dims(
                size.0 as nat,
                size.1 as nat,
            )
            &&& (
                r.presentation_width as int,
                r.presentation_height as int,
                r.presentation_source@,
            ) == presentation(device.display_width, device.display_height, size)
        }),
        r.latency_samples == (match audio_latency {
            Some(l) => l as nat,
            None => audio_rtp::latency_of(
                if device.features.raw == 0 || floor_ms < 1 {
                    1
                } else {
                    floor_ms as nat
                },
            ),
        }),
        r.fps == config.stream.fps,
        r.bitrate_kbps == stream_bitrate(config.stream),
        r.frame_delay_ms == 1000nat / (if config.stream.fps == 0 {
            1
        } else {
            config.stream.fps as nat
        }),
{
    let c = &config.stream;
    let bitrate_kbps: u32 = if c.bitrate_kbps == 0 {
        geometry::auto_bitrate_kbps(c.width, c.height, c.fps)
    } else {
        c.bitrate_kbps
    };
    let latency_samples: u32 = match audio_latency {
        Some(l) => l,
        None => audio_rtp::playout_latency_samples(device.features.raw, floor_ms),
    };
    let size = captured_size(c, displays);
    let (width, height) = geometry::fit_stream_dims(size.0, size.1);
    let (presentation_width, presentation_height, presentation_source) = presentation_size(
        device,
        size,
    );
    StreamPlan {
        width,
        height,
        presentation_width,
        presentation_height,
        presentation_source,
        latency_samples,
        fps: c.fps,
        bitrate_kbps,
        frame_delay_ms: frame_delay_ms(c.fps),
    }
}

/// A captured picture at the size at which it is encoded.
pub open spec fn queued(f: (Seq<u8>, u32, u32)) -> (Seq<u8>, nat, nat) {
    let (w, h) = geometry::fitted_dims(f.1 as nat, f.2 as nat);
    if w != f.1 || h != f.2 {
        (geometry::scaled_rgba(f.0, f.1 as nat, f.2 as nat, w, h), w, h)
    } else {
        (f.0, w, h)
    }
}

/// Scales a captured picture to the size at which it is encoded.
pub fn queue_frame(frame: CaptureFrame) -> (r: FrameItem)
    requires
        frame.height <= 4294967280,
    ensures
        (r.0@, r.1 as nat, r.2 as nat) == queued(frame::frame_view(frame)),
{
    let (cw, ch) = geometry::fit_stream_dims(frame.width, frame.height);
    if cw != frame.width || ch != frame.height {
        proof {
            assert(cw * ch <= 1920 * 1088) by (nonlinear_arith)
                requires
                    0 <= cw <= 1920,
                    0 <= ch <= 1088,
            ;
        }
        let rgba = geometry::downscale_rgba(&frame.rgba, frame.width, frame.height, cw, ch);
        (rgba, cw, ch)
    } else {
        (frame.rgba, cw, ch)
    }
}

/// Whether the control session is still kept alive after a reply: a bad request ends it.
pub fn keeps_alive(status: u16) -> (r: bool)
    ensures
        r == (status != 400),
{
    status != 400
}

/// A queued picture has a size of the macroblock grid within the bounds of a stream, and is not
/// scaled a second time.
pub proof fn law_queued_picture_settles(f: (Seq<u8>, u32, u32), g: (Seq<u8>, u32, u32))
    requires
        f.2 <= 4294967280,
        (g.0, g.1 as nat, g.2 as nat) == queued(f),
    ensures
        g.1 % 16 == 0,
        g.2 % 16 == 0,
        16 <= g.1 <= geometry::MAX_STREAM_WIDTH,
        16 <= g.2 <= geometry::MAX_STREAM_HEIGHT,
        queued(g) == queued(f),
{
    geometry::law_fitting_settles(f.1 as nat, f.2 as nat);
}

/// The receiver shows the picture at its own size where it told one, whatever was captured, and
/// else at the size of what is captured without an odd last row or column.
pub proof fn law_presentation(width: Option<u32>, height: Option<u32>, captured: (u32, u32))
    ensures
        width is Some && height is Some && width->0 > 0 && height->0 > 0 ==> {
            &&& presentation(width, height, captured).0 == width->0
            &&& presentation(width, height, captured).1 == height->0
        },
        width is None || height is None || width->0 == 0 || height->0 == 0 ==> {
            let p = presentation(width, height, captured);
            &&& p.0 % 2 == 0 && captured.0 - 1 <= p.0 <= captured.0
            &&& p.1 % 2 == 0 && captured.1 - 1 <= p.1 <= captured.1
        },
{
}

/// A picture whose sides fit is queued as it is; of any other, the pixel in column `x` and row `y`
/// of the queued one is that of the captured one at the same part of its width and height.
pub proof fn law_queued_picture_shows_captured(f: (Seq<u8>, u32, u32), x: int, y: int)
    requires
        f.1 > 0,
        0 < f.2 <= 4294967280,
        f.0.len() == f.1 * f.2 * 4,
        0 <= x < queued(f).1,
        0 <= y < queued(f).2,
    ensures
        f.1 % 16 == 0 && f.2 % 16 == 0 && f.1 <= 1920 && f.2 <= 1088 ==> queued(f).0 == f.0
            && queued(f).1 == f.1 && queued(f).2 == f.2,
        geometry::pixel_at(queued(f).0, queued(f).1, x, y) == geometry::pixel_at(
            f.0,
            f.1 as nat,
            x * f.1 / queued(f).1 as int,
            y * f.2 / queued(f).2 as int,
        ),
{
    let (w, h) = geometry::fitted_dims(f.1 as nat, f.2 as nat);
    geometry::law_pixels_are_scaled(f.0, f.1 as nat, f.2 as nat, w, h, x, y);
    if w == f.1 && h == f.2 {
        assert(x * w / w as int == x) by {
            vstd::arithmetic::div_mod::lemma_div_by_multiple(x, w as int);
        }
        assert(y * h / h as int == y) by {
            vstd::arithmetic::div_mod::lemma_div_by_multiple(y, h as int);
        }
    }
}
/// A bit rate that is given is kept, and none has it go by the number of pixels in a second. What
/// is captured has the size of the first screen, or that of the stream where there is none.
pub proof fn law_rate_and_size_of_stream(c: StreamConfig, displays: Seq<DisplayInfo>)
    ensures
        c.bitrate_kbps > 0 ==> stream_bitrate(c) == c.bitrate_kbps,
        c.bitrate_kbps == 0 && 2000000 <= c.width * c.height * c.fps < 20000000 ==> stream_bitrate(c)
            * 1000 <= c.width * c.height * c.fps < (stream_bitrate(c) + 1) * 1000,
        displays.len() > 0 ==> capture_size(c, displays) == (displays[0].width, displays[0].height),
        displays.len() == 0 ==> capture_size(c, displays) == (c.width, c.height),
{
    assert(c.width * c.height * c.fps >= 0) by (nonlinear_arith)
        requires
            c.width >= 0,
            c.height >= 0,
            c.fps >= 0,
    ;
    if c.width * c.height * c.fps < 20000000 {
        geometry::law_bit_rate_follows_pixels((c.width * c.height * c.fps) as nat);
    }
}
} // verus!
