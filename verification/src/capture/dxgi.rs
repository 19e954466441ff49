//! Screens by desktop duplication.

use crate::capture::frame::{self, CaptureFrame, DisplayInfo, DisplayView};
use crate::capture::virtual_display;
use crate::bytes;
use crate::config;
use crate::error::{ErrorView, RottenError};
use crate::text;
use vstd::prelude::*;
use vstd::string::*;

verus! {

/// The text of UTF-16 units, with a replacement character for each fault.
pub uninterp spec fn utf16_text(units: Seq<u16>) -> Seq<char>;

/// Whether all units are below 128.
pub open spec fn ascii_units(units: Seq<u16>) -> bool {
    forall|i: int| 0 <= i < units.len() ==> #[trigger] units[i] < 128
}

/// The text with one character for each unit.
pub open spec fn units_as_chars(units: Seq<u16>) -> Seq<char> {
    Seq::new(units.len(), |i: int| units[i] as char)
}

/// `String::from_utf16_lossy`: a function of the units; ASCII units become the characters of
/// the same numbers.
#[verifier::external_body]
fn from_utf16_lossy(units: &[u16]) -> (r: String)
    ensures
        r@ == utf16_text(units@),
        ascii_units(units@) ==> r@ == units_as_chars(units@),
{
    String::from_utf16_lossy(units)
}

/// The units before the first zero.
pub open spec fn until_zero(units: Seq<u16>) -> Seq<u16>
    decreases units.len(),
{
    if units.len() == 0 || units[0] == 0 {
        Seq::empty()
    } else {
        seq![units[0]] + until_zero(units.skip(1))
    }
}

/// The units before the first zero.
pub fn before_zero(units: &[u16]) -> (r: Vec<u16>)
    ensures
        r@ == until_zero(units@),
{
    let mut out: Vec<u16> = Vec::new();
    let mut i: usize = 0;
    assert(units@.skip(0) =~= units@);
    assert(out@ + until_zero(units@) =~= until_zero(units@));
    while i < units.len() && units[i] != 0
        invariant
            i <= units@.len(),
            until_zero(units@) == out@ + until_zero(units@.skip(i as int)),
        decreases units.len() - i,
    {
        let ghost rest = units@.skip(i as int);
        assert(rest.skip(1) =~= units@.skip(i + 1));
        assert(out@.push(rest[0]) + until_zero(rest.skip(1)) =~= out@ + until_zero(rest));
        out.push(units[i]);
        i += 1;
    }
    assert(until_zero(units@) =~= out@);
    out
}

/// The name in a buffer that a zero ends.
pub fn output_device_name(device_name: &[u16]) -> (r: String)
    ensures
        r@ == utf16_text(until_zero(device_name@)),
        ascii_units(until_zero(device_name@)) ==> r@ == units_as_chars(until_zero(device_name@)),
{
    let units = before_zero(device_name);
    from_utf16_lossy(&units)
}

/// An output of an adapter, and its place on the desktop.
#[derive(Debug, Clone)]
pub struct OutputDesc {
    pub device_name: Vec<u16>,
    pub left: i32,
    pub top: i32,
    pub right: i32,
    pub bottom: i32,
}

/// An adapter with its outputs.
#[derive(Debug, Clone)]
pub struct AdapterDesc {
    pub description: Vec<u16>,
    pub outputs: Vec<OutputDesc>,
}

/// The number of adapters that are looked at, and of outputs of each.
pub const ENUM_LIMIT: usize = 16;

/// The smaller of a length and the limit.
pub open spec fn limited(len: nat) -> nat {
    if len < ENUM_LIMIT {
        len
    } else {
        ENUM_LIMIT as nat
    }
}

/// The places of all outputs, as number of the adapter and number of the output.
pub open spec fn places(adapters: Seq<AdapterDesc>) -> Seq<(int, int)>
    decreases adapters.len(),
{
    if adapters.len() == 0 {
        Seq::empty()
    } else {
        places(adapters.drop_last()) + outputs_of(
            adapters.len() - 1,
            limited(adapters.last().outputs@.len()),
        )
    }
}

/// The places of the first outputs of an adapter.
pub open spec fn outputs_of(adapter: int, outputs: nat) -> Seq<(int, int)> {
    Seq::new(outputs, |o: int| (adapter, o))
}

/// The places of the outputs that are looked at.
pub open spec fn all_places(adapters: Seq<AdapterDesc>) -> Seq<(int, int)> {
    places(adapters.take(limited(adapters.len()) as int))
}

/// The distance of two coordinates, modulo 2^32.
pub open spec fn extent(low: i32, high: i32) -> u32 {
    ((high - low) % 0x1_0000_0000) as u32
}

fn extent_of(low: i32, high: i32) -> (r: u32)
    ensures
        r == extent(low, high),
{
    let d: i64 = high as i64 - low as i64;
    if d < 0 {
        (d + 0x1_0000_0000) as u32
    } else {
        d as u32
    }
}

/// Whether the output or the adapter has the name of a virtual one.
pub open spec fn virtual_output(device: Seq<char>, adapter: Seq<char>) -> bool {
    virtual_display::virtual_name(config::lowercase(device)) || virtual_display::virtual_name(
        config::lowercase(adapter),
    )
}

fn is_virtual_output(device: &str, adapter: &str) -> (r: bool)
    ensures
        r == virtual_output(device@, adapter@),
{
    virtual_display::is_virtual_display_name(device) || virtual_display::is_virtual_display_name(
        adapter,
    )
}

/// The screen of an output; one without a name is named after its adapter.
pub open spec fn output_view(adapters: Seq<AdapterDesc>, at: (int, int), index: int) -> DisplayView {
    let adapter = utf16_text(until_zero(adapters[at.0].description@));
    let o = adapters[at.0].outputs@[at.1];
    let device = utf16_text(until_zero(o.device_name@));
    DisplayView {
        index: index as u32,
        name: if device.len() == 0 {
            adapter + " #"@ + text::decimal(at.1 as nat)
        } else {
            device
        },
        width: extent(o.left, o.right),
        height: extent(o.top, o.bottom),
        is_virtual: virtual_output(device, adapter),
    }
}

/// The screens at the given places, numbered from zero.
pub open spec fn views_at(adapters: Seq<AdapterDesc>, at: Seq<(int, int)>) -> Seq<DisplayView> {
    Seq::new(at.len(), |k: int| output_view(adapters, at[k], k))
}

proof fn lemma_places_bound(adapters: Seq<AdapterDesc>)
    ensures
        places(adapters).len() <= 16 * adapters.len(),
    decreases adapters.len(),
{
    if adapters.len() > 0 {
        lemma_places_bound(adapters.drop_last());
    }
}

/// Lists the screens of all adapters.
pub fn enumerate_outputs(adapters: &[AdapterDesc]) -> (r: Vec<DisplayInfo>)
    ensures
        frame::display_views(r@) == views_at(adapters@, all_places(adapters@)),
{
    let n: usize = if adapters.len() < ENUM_LIMIT {
        adapters.len()
    } else {
        ENUM_LIMIT
    };
    let mut displays: Vec<DisplayInfo> = Vec::new();
    let mut a: usize = 0;
    assert(frame::display_views(displays@) =~= views_at(adapters@, places(adapters@.take(0))));
    while a < n
        invariant
            a <= n <= 16,
            n <= adapters@.len(),
            displays@.len() <= 16 * a,
            frame::display_views(displays@) == views_at(
                adapters@,
                places(adapters@.take(a as int)),
            ),
        decreases n - a,
    {
        let adapter_name = output_device_name(&adapters[a].description);
        let outputs = &adapters[a].outputs;
        let m: usize = if outputs.len() < ENUM_LIMIT {
            outputs.len()
        } else {
            ENUM_LIMIT
        };
        let ghost before = places(adapters@.take(a as int));
        let mut o: usize = 0;
        assert(before + outputs_of(a as int, 0) =~= before);
        while o < m
            invariant
                o <= m <= 16,
                a < n <= 16,
                n <= adapters@.len(),
                outputs == adapters@[a as int].outputs,
                m <= outputs@.len(),
                adapter_name@ == utf16_text(until_zero(adapters@[a as int].description@)),
                displays@.len() <= 16 * a + o,
                frame::display_views(displays@) == views_at(
                    adapters@,
                    before + outputs_of(a as int, o as nat),
                ),
            decreases m - o,
        {
            let ghost at = before + outputs_of(a as int, o as nat);
            let ghost shown = displays@;
            let out = &outputs[o];
            let device_name = output_device_name(&out.device_name);
            let is_virtual = is_virtual_output(device_name.as_str(), adapter_name.as_str());
            let name = if device_name.as_str().unicode_len() == 0 {
                let mut s = text::owned(adapter_name.as_str());
                s.append(" #");
                text::push_decimal(&mut s, o as u64);
                s
            } else {
                text::owned(device_name.as_str())
            };
            let info = DisplayInfo {
                index: displays.len() as u32,
                name,
                width: extent_of(out.left, out.right),
                height: extent_of(out.top, out.bottom),
                is_virtual,
            };
            displays.push(info);
            o += 1;
            proof {
                let next = before + outputs_of(a as int, o as nat);
                assert(next =~= at.push((a as int, o - 1)));
                assert(frame::display_views(shown).len() == at.len());
                assert(frame::display_views(displays@) =~= views_at(adapters@, next)) by {
                    assert forall|k: int| 0 <= k < displays@.len() implies displays@[k]@
                        == output_view(adapters@, next[k], k) by {
                        if k < shown.len() {
                            assert(displays@[k] == shown[k]);
                            assert(frame::display_views(shown)[k] == views_at(adapters@, at)[k]);
                            assert(next[k] == at[k]);
                        }
                    }
                }
            }
        }
        a += 1;
        proof {
            assert(adapters@.take(a as int).drop_last() =~= adapters@.take(a - 1));
        }
    }
    displays
}

/// Finds the output of a screen: the number of its adapter and its number there.
pub fn find_output(adapters: &[AdapterDesc], display_index: u32) -> (r: Result<
    (usize, usize),
    RottenError,
>)
    ensures
        ({
            let at = all_places(adapters@);
            match r {
                Ok(p) => display_index < at.len() && at[display_index as int] == (
                    p.0 as int,
                    p.1 as int,
                ),
                Err(e) => display_index >= at.len() && e@ == ErrorView::Capture(
                    "display index "@ + text::decimal(display_index as nat) + " not found ("@
                        + text::decimal(at.len()) + " outputs total)"@,
                ),
            }
        }),
{
    let n: usize = if adapters.len() < ENUM_LIMIT {
        adapters.len()
    } else {
        ENUM_LIMIT
    };
    let mut total: u32 = 0;
    let mut a: usize = 0;
    while a < n
        invariant
            a <= n <= 16,
            n == limited(adapters@.len()),
            n <= adapters@.len(),
            total <= 16 * a,
            total == places(adapters@.take(a as int)).len(),
            total <= display_index,
        decreases n - a,
    {
        let m: usize = if adapters[a].outputs.len() < ENUM_LIMIT {
            adapters[a].outputs.len()
        } else {
            ENUM_LIMIT
        };
        proof {
            assert(adapters@.take(a + 1).drop_last() =~= adapters@.take(a as int));
        }
        if display_index - total < m as u32 {
            proof {
                lemma_places_front(adapters@, a + 1, n as int, display_index as int);
            }
            return Ok((a, (display_index - total) as usize));
        }
        total += m as u32;
        a += 1;
    }
    let mut msg = text::numbered("display index ", display_index as u64);
    msg.append(" not found (");
    text::push_decimal(&mut msg, total as u64);
    msg.append(" outputs total)");
    Err(RottenError::Capture(msg))
}

proof fn lemma_places_front(adapters: Seq<AdapterDesc>, a: int, n: int, k: int)
    requires
        0 <= a <= n <= adapters.len(),
        0 <= k < places(adapters.take(a)).len(),
    ensures
        k < places(adapters.take(n)).len(),
        places(adapters.take(n))[k] == places(adapters.take(a))[k],
    decreases n - a,
{
    if a < n {
        assert(adapters.take(a + 1).drop_last() =~= adapters.take(a));
        lemma_places_front(adapters, a + 1, n, k);
    }
}

/// Screen `k` of the list has index `k`, and looking that index up gives the output that the
/// screen was made from.
pub proof fn law_listed_screens_are_found(adapters: Seq<AdapterDesc>, k: int)
    requires
        0 <= k < all_places(adapters).len(),
    ensures
        ({
            let d = views_at(adapters, all_places(adapters))[k];
            &&& d.index == k
            &&& d == output_view(adapters, all_places(adapters)[d.index as int], k)
        }),
{
    lemma_places_bound(adapters.take(limited(adapters.len()) as int));
}

/// Whether an error says that no new picture came in time.
pub open spec fn wait_timeout(e: ErrorView) -> bool {
    e matches ErrorView::Capture(msg) && (text::contains_text(msg, "0x887A0027"@)
        || text::contains_text(msg, "DXGI_ERROR_WAIT_TIMEOUT"@))
}

/// Whether an error says that no new picture came in time.
pub fn is_dxgi_wait_timeout(err: &RottenError) -> (r: bool)
    ensures
        r == wait_timeout(err@),
{
    match err {
        RottenError::Capture(msg) => {
            let m = text::chars_of(msg.as_str());
            let code = text::chars_of("0x887A0027");
            let name = text::chars_of("DXGI_ERROR_WAIT_TIMEOUT");
            text::has_text(&m, &code) || text::has_text(&m, &name)
        },
        _ => false,
    }
}

/// The last picture of a screen, for the times when nothing changes on it.
#[derive(Debug)]
pub struct FrameCache {
    pub last_frame: Option<CaptureFrame>,
    pub width: u32,
    pub height: u32,
}

/// What is shown where no new picture came.
pub open spec fn fallback_frame(cache: FrameCache) -> (Seq<u8>, u32, u32) {
    match cache.last_frame {
        Some(f) => frame::frame_view(f),
        None => (
            bytes::zeros((cache.width * cache.height * 4) as nat),
            cache.width,
            cache.height,
        ),
    }
}

impl FrameCache {
    /// No picture yet of a screen of the given size.
    pub fn new(width: u32, height: u32) -> (r: Self)
        ensures
            r.last_frame is None,
            r.width == width,
            r.height == height,
    {
        FrameCache { last_frame: None, width, height }
    }

    /// Takes what the screen gave. A new picture is kept; where none came in time the last one
    /// is shown again, or a blank one.
    pub fn grab_frame(&mut self, acquired: Result<CaptureFrame, RottenError>) -> (r: Result<
        CaptureFrame,
        RottenError,
    >)
        requires
            old(self).width * old(self).height * 4 <= isize::MAX,
        ensures
            final(self).width == old(self).width,
            final(self).height == old(self).height,
            match acquired {
                Ok(f) => {
                    &&& r matches Ok(out) && frame::frame_view(out) == frame::frame_view(f)
                    &&& final(self).last_frame matches Some(kept) && frame::frame_view(kept)
                        == frame::frame_view(f)
                },
                Err(e) => {
                    &&& final(self).last_frame == old(self).last_frame
                    &&& wait_timeout(e@) ==> (r matches Ok(out) && frame::frame_view(out)
                        == fallback_frame(*old(self)))
                    &&& !wait_timeout(e@) ==> r == Err::<CaptureFrame, RottenError>(e)
                },
            },
    {
        match acquired {
            Ok(f) => {
                let copy = frame::copy_frame(&f);
                self.last_frame = Some(f);
                Ok(copy)
            },
            Err(e) => {
                if !is_dxgi_wait_timeout(&e) {
                    return Err(e);
                }
                match &self.last_frame {
                    Some(f) => Ok(frame::copy_frame(f)),
                    None => Ok(frame::blank_frame(self.width, self.height)),
                }
            },
        }
    }
}

/// The screen that is captured.
pub fn captured_display(
    display_index: u32,
    device_name: &str,
    adapter_name: &str,
    width: u32,
    height: u32,
) -> (r: DisplayInfo)
    ensures
        r@ == (DisplayView {
            index: display_index,
            name: device_name@,
            width,
            height,
            is_virtual: virtual_output(device_name@, adapter_name@),
        }),
{
    DisplayInfo {
        index: display_index,
        name: text::owned(device_name),
        width,
        height,
        is_virtual: is_virtual_output(device_name, adapter_name),
    }
}

/// A name ends before its first zero, and has no zero in it.
pub proof fn law_name_ends_at_zero(name: Seq<u16>, rest: Seq<u16>)
    requires
        forall|k: int| 0 <= k < name.len() ==> #[trigger] name[k] != 0,
    ensures
        until_zero(name) == name,
        until_zero(name + seq![0u16] + rest) == name,
    decreases name.len(),
{
    let whole = name + seq![0u16] + rest;
    if name.len() > 0 {
        let tail = name.skip(1);
        assert forall|k: int| 0 <= k < tail.len() implies #[trigger] tail[k] != 0 by {
            assert(tail[k] == name[k + 1]);
        }
        law_name_ends_at_zero(tail, rest);
        assert(name[0] != 0);
        assert(whole[0] == name[0]);
        assert(whole.skip(1) =~= tail + seq![0u16] + rest);
        assert(name =~= seq![name[0]] + tail);
    } else {
        assert(until_zero(whole) =~= name);
    }
}

/// The side of a screen is the distance between its edges.
pub proof fn law_side_is_distance(low: i32, high: i32)
    requires
        low <= high,
    ensures
        extent(low, high) == high - low,
{
}

/// The screens of the first sixteen adapters are listed, of each the first sixteen outputs, adapter
/// by adapter and output by output.
pub proof fn law_outputs_are_listed(adapters: Seq<AdapterDesc>, a: AdapterDesc)
    ensures
        places(Seq::empty()).len() == 0,
        ({
            let before = places(adapters);
            let all = places(adapters.push(a));
            let n = before.len() as int;
            &&& all.take(n) == before
            &&& a.outputs@.len() <= 16 ==> all.len() == n + a.outputs@.len()
            &&& a.outputs@.len() > 16 ==> all.len() == n + 16
            &&& forall|o: int|
                0 <= o && n + o < all.len() ==> #[trigger] all[n + o] == (adapters.len() as int, o)
        }),
        adapters.len() <= 16 ==> all_places(adapters) == places(adapters),
        adapters.len() > 16 ==> all_places(adapters) == places(adapters.take(16)),
{
    assert(adapters.push(a).drop_last() =~= adapters);
    assert(adapters.take(adapters.len() as int) =~= adapters);
    let before = places(adapters);
    let all = places(adapters.push(a));
    assert(all.take(before.len() as int) =~= before);
}

/// An error tells of a timeout wherever its code or its name stands in the text of a capture error,
/// and no other error does.
pub proof fn law_timeout_is_told(before: Seq<char>, behind: Seq<char>, e: ErrorView)
    ensures
        wait_timeout(ErrorView::Capture(before + "0x887A0027"@ + behind)),
        wait_timeout(ErrorView::Capture(before + "DXGI_ERROR_WAIT_TIMEOUT"@ + behind)),
        !(e is Capture) ==> !wait_timeout(e),
{
    text::law_texts_are_found(before, "0x887A0027"@, behind);
    text::law_texts_are_found(before, "DXGI_ERROR_WAIT_TIMEOUT"@, behind);
}
/// A screen has the sides and the name of its output, or that of its adapter with a number where
/// the output has none; it is virtual by either name.
pub proof fn law_screen_is_described(adapters: Seq<AdapterDesc>, at: (int, int), index: int)
    requires
        0 <= index <= u32::MAX,
    ensures
        ({
            let d = output_view(adapters, at, index);
            let o = adapters[at.0].outputs@[at.1];
            let own = utf16_text(until_zero(o.device_name@));
            let adapter = utf16_text(until_zero(adapters[at.0].description@));
            &&& d.index == index
            &&& o.left <= o.right ==> d.width == o.right - o.left
            &&& o.top <= o.bottom ==> d.height == o.bottom - o.top
            &&& own.len() > 0 ==> d.name == own
            &&& own.len() == 0 ==> d.name == adapter + " #"@ + text::decimal(at.1 as nat)
            &&& d.is_virtual <==> virtual_display::virtual_name(config::lowercase(own))
                || virtual_display::virtual_name(config::lowercase(adapter))
        }),
{
}

/// Where no new picture came, the last one is shown again, and before the first one a blank one of
/// the size of the screen.
pub proof fn law_last_picture_is_shown(cache: FrameCache, i: int)
    ensures
        cache.last_frame matches Some(f) ==> fallback_frame(cache) == (f.rgba@, f.width, f.height),
        cache.last_frame is None ==> fallback_frame(cache).1 == cache.width && fallback_frame(
            cache,
        ).2 == cache.height && fallback_frame(cache).0.len() == cache.width * cache.height * 4 && (0
            <= i < cache.width * cache.height * 4 ==> fallback_frame(cache).0[i] == 0),
{
    assert(cache.width * cache.height >= 0) by (nonlinear_arith)
        requires
            cache.width >= 0,
            cache.height >= 0,
    ;
}
} // verus!
