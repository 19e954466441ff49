//! Screens and captured pictures.

use crate::bytes;
use vstd::prelude::*;

verus! {

/// A screen.
#[derive(Debug, Clone)]
pub struct DisplayInfo {
    pub index: u32,
    pub name: String,
    pub width: u32,
    pub height: u32,
    pub is_virtual: bool,
}

/// A screen by its contents.
pub struct DisplayView {
    pub index: u32,
    pub name: Seq<char>,
    pub width: u32,
    pub height: u32,
    pub is_virtual: bool,
}

impl View for DisplayInfo {
    type V = DisplayView;

    open spec fn view(&self) -> DisplayView {
        DisplayView {
            index: self.index,
            name: self.name@,
            width: self.width,
            height: self.height,
            is_virtual: self.is_virtual,
        }
    }
}

/// Screens by their contents.
pub open spec fn display_views(s: Seq<DisplayInfo>) -> Seq<DisplayView> {
    Seq::new(s.len(), |i: int| s[i]@)
}

/// A picture of a screen, four bytes a pixel.
#[derive(Debug)]
pub struct CaptureFrame {
    pub rgba: Vec<u8>,
    pub width: u32,
    pub height: u32,
}

/// A picture by its pixels, width and height.
pub open spec fn frame_view(f: CaptureFrame) -> (Seq<u8>, u32, u32) {
    (f.rgba@, f.width, f.height)
}

/// A copy of a picture.
pub fn copy_frame(f: &CaptureFrame) -> (r: CaptureFrame)
    ensures
        frame_view(r) == frame_view(*f),
{
    CaptureFrame { rgba: bytes::to_vec(&f.rgba), width: f.width, height: f.height }
}

/// Byte `i` of an opaque RGBA picture made from BGR bytes, where its pixel starts at `at` in
/// `src`: zero where `src` does not hold the pixel.
pub open spec fn swapped_byte(src: Seq<u8>, at: int, i: int) -> u8 {
    if at + 3 >= src.len() {
        0
    } else if i % 4 == 3 {
        255
    } else {
        src[at + 2 - i % 4]
    }
}

/// An RGBA picture of `width * height` pixels made from rows of BGR pixels that are `row_pitch`
/// bytes apart.
pub open spec fn swapped_rows(src: Seq<u8>, row_pitch: nat, width: nat, height: nat) -> Seq<u8> {
    Seq::new(
        width * height * 4,
        |i: int|
            swapped_byte(
                src,
                i / 4 / width as int * row_pitch + i / 4 % width as int * 4,
                i,
            ),
    )
}

/// An RGBA picture of `pixels` pixels made from BGR pixels without gaps.
pub open spec fn swapped_run(src: Seq<u8>, pixels: nat) -> Seq<u8> {
    Seq::new(pixels * 4, |i: int| swapped_byte(src, i / 4 * 4, i))
}

/// Appends the pixel that starts at `at` in `src`, or four zero bytes.
fn push_pixel(out: &mut Vec<u8>, src: &[u8], at: usize)
    requires
        at + 3 <= usize::MAX,
    ensures
        final(out)@.len() == old(out)@.len() + 4,
        final(out)@.take(old(out)@.len() as int) == old(out)@,
        forall|c: int|
            0 <= c < 4 ==> #[trigger] final(out)@[old(out)@.len() + c] == swapped_byte(
                src@,
                at as int,
                c,
            ),
{
    if at + 3 < src.len() {
        out.push(src[at + 2]);
        out.push(src[at + 1]);
        out.push(src[at]);
        out.push(255);
    } else {
        out.push(0);
        out.push(0);
        out.push(0);
        out.push(0);
    }
    assert(out@.take(old(out)@.len() as int) =~= old(out)@);
}

/// Makes an RGBA picture from BGR pixels without gaps; pixels that `bgrx` does not hold stay
/// zero.
pub fn bgrx_to_rgba(bgrx: &[u8], width: usize, height: usize) -> (r: Vec<u8>)
    requires
        width * height * 4 <= isize::MAX,
    ensures
        r@ == swapped_run(bgrx@, (width * height) as nat),
{
    let pixel_count: usize = width * height;
    let ghost want = swapped_run(bgrx@, pixel_count as nat);
    let mut rgba: Vec<u8> = Vec::new();
    let mut i: usize = 0;
    while i < pixel_count
        invariant
            i <= pixel_count,
            pixel_count * 4 <= isize::MAX,
            want == swapped_run(bgrx@, pixel_count as nat),
            rgba@ == want.take(i * 4),
        decreases pixel_count - i,
    {
        let ghost before = rgba@;
        push_pixel(&mut rgba, bgrx, i * 4);
        proof {
            assert forall|k: int| 0 <= k < rgba@.len() implies rgba@[k] == want[k] by {
                if k < i * 4 {
                    assert(rgba@[k] == rgba@.take(before.len() as int)[k]);
                } else {
                    let c = k - i * 4;
                    assert(rgba@[before.len() + c] == swapped_byte(bgrx@, i * 4, c));
                    assert(k / 4 == i && k % 4 == c);
                }
            }
        }
        i += 1;
        assert(rgba@ =~= want.take(i * 4));
    }
    assert(want.take(pixel_count * 4) =~= want);
    rgba
}

proof fn lemma_pixel(y: int, x: int, w: int)
    requires
        0 <= x < w,
        0 <= y,
    ensures
        (y * w + x) / w == y,
        (y * w + x) % w == x,
{
    vstd::arithmetic::div_mod::lemma_fundamental_div_mod_converse(y * w + x, w, y, x);
}

/// Makes an RGBA picture from rows of BGR pixels that are `row_pitch` bytes apart; pixels that
/// `src` does not hold stay zero.
pub fn bgra_to_rgba(src: &[u8], row_pitch: usize, width: usize, height: usize) -> (r: Vec<u8>)
    requires
        width * height * 4 <= isize::MAX,
        height * row_pitch + width * 4 <= usize::MAX,
    ensures
        r@ == swapped_rows(src@, row_pitch as nat, width as nat, height as nat),
{
    let ghost want = swapped_rows(src@, row_pitch as nat, width as nat, height as nat);
    let mut rgba: Vec<u8> = Vec::new();
    let mut y: usize = 0;
    while y < height
        invariant
            y <= height,
            width * height * 4 <= isize::MAX,
            height * row_pitch + width * 4 <= usize::MAX,
            want == swapped_rows(src@, row_pitch as nat, width as nat, height as nat),
            rgba@ == want.take(y * width * 4),
        decreases height - y,
    {
        let mut x: usize = 0;
        proof {
            assert(y * row_pitch <= height * row_pitch) by (nonlinear_arith)
                requires
                    y <= height,
                    0 <= row_pitch,
            ;
            assert((y + 1) * width <= height * width) by (nonlinear_arith)
                requires
                    y + 1 <= height,
                    0 <= width,
            ;
            assert((y + 1) * width == y * width + width) by (nonlinear_arith);
            assert(height * width == width * height) by (nonlinear_arith);
        }
        while x < width
            invariant
                y < height,
                x <= width,
                width * height * 4 <= isize::MAX,
                height * row_pitch + width * 4 <= usize::MAX,
                y * row_pitch <= height * row_pitch,
                y * width + width <= width * height,
                want == swapped_rows(src@, row_pitch as nat, width as nat, height as nat),
                rgba@ == want.take((y * width + x) * 4),
            decreases width - x,
        {
            let ghost before = rgba@;
            let ghost p = y * width + x;
            push_pixel(&mut rgba, src, y * row_pitch + x * 4);
            proof {
                assert forall|k: int| 0 <= k < rgba@.len() implies rgba@[k] == want[k] by {
                    if k < p * 4 {
                        assert(rgba@[k] == rgba@.take(before.len() as int)[k]);
                    } else {
                        let c = k - p * 4;
                        assert(rgba@[before.len() + c] == swapped_byte(
                            src@,
                            y * row_pitch + x * 4,
                            c,
                        ));
                        assert(k / 4 == p && k % 4 == c);
                        lemma_pixel(y as int, x as int, width as int);
                    }
                }
            }
            x += 1;
            assert(rgba@ =~= want.take((y * width + x) * 4));
        }
        y += 1;
        assert(rgba@ =~= want.take(y * width * 4));
    }
    assert(height * width == width * height) by (nonlinear_arith);
    assert(want.take(height * width * 4) =~= want);
    rgba
}

/// A black transparent picture.
pub fn blank_frame(width: u32, height: u32) -> (r: CaptureFrame)
    requires
        width * height * 4 <= isize::MAX,
    ensures
        frame_view(r) == (bytes::zeros((width * height * 4) as nat), width, height),
{
    proof {
        assert(width * height <= 0xffff_ffff * 0xffff_ffff) by (nonlinear_arith)
            requires
                0 <= width <= 0xffff_ffff,
                0 <= height <= 0xffff_ffff,
        ;
    }
    let len: u128 = width as u128 * height as u128 * 4;
    CaptureFrame { rgba: bytes::zero_vec(len as usize), width, height }
}

/// The pixel in column `x` and row `y` of a converted picture has the colours of the one at the
/// same place in the source, whose rows are `row_pitch` bytes apart, with red and blue exchanged,
/// and nothing shines through.
pub proof fn law_pixels_are_exchanged(
    src: Seq<u8>,
    row_pitch: nat,
    width: nat,
    height: nat,
    x: int,
    y: int,
)
    requires
        0 <= x < width,
        0 <= y < height,
        y * row_pitch + 4 * x + 4 <= src.len(),
    ensures
        swapped_rows(src, row_pitch, width, height).len() == width * height * 4,
        ({
            let at = y * row_pitch + 4 * x;
            swapped_rows(src, row_pitch, width, height).subrange(
                (y * width + x) * 4,
                (y * width + x) * 4 + 4,
            ) == seq![src[at + 2], src[at + 1], src[at], 255u8]
        }),
{
    crate::video::geometry::lemma_inside(x, y, width as int, height as int);
    let p = y * width + x;
    let all = swapped_rows(src, row_pitch, width, height);
    let at = y * row_pitch + 4 * x;
    assert forall|c: int| 0 <= c < 4 implies #[trigger] all[p * 4 + c] == swapped_byte(
        src,
        at,
        p * 4 + c,
    ) by {
        assert((p * 4 + c) / 4 == p);
    }
    assert(all[p * 4 + 0] == src[at + 2] && all[p * 4 + 1] == src[at + 1] && all[p * 4 + 2] == src[at]
        && all[p * 4 + 3] == 255);
    assert(all.subrange(p * 4, p * 4 + 4) =~= seq![src[at + 2], src[at + 1], src[at], 255u8]);
}

/// In a picture without gaps between its rows, pixel `p` of the result has the colours of pixel `p`
/// of the source, with red and blue exchanged.
pub proof fn law_run_is_exchanged(src: Seq<u8>, pixels: nat, p: int)
    requires
        0 <= p < pixels,
        4 * p + 4 <= src.len(),
    ensures
        swapped_run(src, pixels).len() == pixels * 4,
        swapped_run(src, pixels).subrange(4 * p, 4 * p + 4) == seq![
            src[4 * p + 2],
            src[4 * p + 1],
            src[4 * p],
            255u8,
        ],
{
    let all = swapped_run(src, pixels);
    assert forall|c: int| 0 <= c < 4 implies #[trigger] all[4 * p + c] == swapped_byte(
        src,
        4 * p,
        4 * p + c,
    ) by {
        assert((4 * p + c) / 4 == p);
    }
    assert(all[4 * p + 0] == src[4 * p + 2] && all[4 * p + 1] == src[4 * p + 1] && all[4 * p + 2]
        == src[4 * p] && all[4 * p + 3] == 255);
    assert(all.subrange(4 * p, 4 * p + 4) =~= seq![
        src[4 * p + 2],
        src[4 * p + 1],
        src[4 * p],
        255u8,
    ]);
}
} // verus!
