//! A test pattern.

use crate::error::RottenError;
use vstd::prelude::*;

verus! {

/// Colour channel `c` of pixel (`x`, `y`) in frame `t`.
pub open spec fn pattern_byte(x: nat, y: nat, c: int, t: nat) -> u8 {
    if c == 0 {
        ((x * 3 + t) % 256) as u8
    } else if c == 1 {
        ((y * 5 + t) % 256) as u8
    } else if c == 2 {
        (t % 256) as u8
    } else {
        255
    }
}

/// A whole frame of the pattern.
pub open spec fn pattern(width: nat, height: nat, t: nat) -> Seq<u8> {
    Seq::new(
        width * height * 4,
        |i: int|
            pattern_byte(
                (i / 4 % width as int) as nat,
                (i / 4 / width as int) as nat,
                i % 4,
                t % 256,
            ),
    )
}

/// A source of test frames.
pub struct SyntheticSource {
    width: u32,
    height: u32,
    frame: u64,
}

impl SyntheticSource {
    pub closed spec fn size(&self) -> (nat, nat) {
        (self.width as nat, self.height as nat)
    }

    /// Frames made so far.
    pub closed spec fn frame(&self) -> nat {
        self.frame as nat
    }

    pub fn new(width: u32, height: u32) -> (r: Self)
        ensures
            r.size() == (width as nat, height as nat),
            r.frame() == 0,
    {
        SyntheticSource { width, height, frame: 0 }
    }

    /// Whether another frame can be made and counted.
    pub fn has_next(&self) -> (r: bool)
        ensures
            r == (self.size().0 * self.size().1 * 4 <= u32::MAX && self.frame() < u64::MAX),
    {
        proof {
            let (w, h) = (self.width as int, self.height as int);
            assert(0 <= w * h <= 0xffff_ffff * 0xffff_ffff) by (nonlinear_arith)
                requires
                    0 <= w <= 0xffff_ffff,
                    0 <= h <= 0xffff_ffff,
            ;
        }
        self.width as u64 * self.height as u64 <= 0x3fff_ffff && self.frame < 0xffff_ffff_ffff_ffff
    }

    /// The next frame with its size.
    pub fn next_frame(&mut self) -> (r: Result<(Vec<u8>, u32, u32), RottenError>)
        requires
            old(self).size().0 * old(self).size().1 * 4 <= u32::MAX,
            old(self).frame() < u64::MAX,
        ensures
            r matches Ok((rgba, w, h)) && rgba@ == pattern(
                old(self).size().0,
                old(self).size().1,
                old(self).frame(),
            ) && (w as nat, h as nat) == old(self).size(),
            final(self).size() == old(self).size(),
            final(self).frame() == old(self).frame() + 1,
    {
        let w: u32 = self.width;
        let h: u32 = self.height;
        let t: u32 = (self.frame % 256) as u32;
        let ghost want = pattern(w as nat, h as nat, self.frame as nat);
        let mut rgba: Vec<u8> = Vec::new();
        let total: u32 = w * h;
        let mut p: u32 = 0;
        while p < total
            invariant
                p <= total,
                total == w * h,
                total * 4 <= u32::MAX,
                t < 256,
                t == self.frame % 256,
                want == pattern(w as nat, h as nat, self.frame as nat),
                rgba@ == want.take(p * 4),
            decreases total - p,
        {
            proof {
                assert(w > 0) by (nonlinear_arith)
                    requires
                        w * h > 0,
                        w >= 0,
                        h >= 0,
                ;
                assert(p / w <= p) by (nonlinear_arith)
                    requires
                        w > 0,
                        p >= 0,
                ;
            }
            let x: u64 = (p % w) as u64;
            let y: u64 = (p / w) as u64;
            let red: u8 = ((x * 3 + t as u64) % 256) as u8;
            let green: u8 = ((y * 5 + t as u64) % 256) as u8;
            rgba.push(red);
            rgba.push(green);
            rgba.push(t as u8);
            rgba.push(255u8);
            proof {
                let base = p * 4;
                assert(base / 4 == p && base % 4 == 0);
                assert((base + 1) / 4 == p && (base + 1) % 4 == 1);
                assert((base + 2) / 4 == p && (base + 2) % 4 == 2);
                assert((base + 3) / 4 == p && (base + 3) % 4 == 3);
                assert(rgba@ =~= want.take((p + 1) * 4));
            }
            p += 1;
        }
        assert(want.take(p * 4) =~= want);
        self.frame += 1;
        Ok((rgba, w, h))
    }
}

/// The pixel in column `x` and row `y` of picture `t`: red goes by the column, green by the row,
/// blue by the picture, and nothing shines through.
pub proof fn law_pattern_pixel(width: nat, height: nat, t: nat, x: int, y: int)
    requires
        0 <= x < width,
        0 <= y < height,
    ensures
        pattern(width, height, t).len() == width * height * 4,
        pattern(width, height, t).subrange((y * width + x) * 4, (y * width + x) * 4 + 4) == seq![
            ((3 * x + t) % 256) as u8,
            ((5 * y + t) % 256) as u8,
            (t % 256) as u8,
            255u8,
        ],
{
    crate::video::geometry::lemma_inside(x, y, width as int, height as int);
    let p = y * width + x;
    lemma_pattern_byte(width, height, t, p, 0);
    lemma_pattern_byte(width, height, t, p, 1);
    lemma_pattern_byte(width, height, t, p, 2);
    lemma_pattern_byte(width, height, t, p, 3);
    assert((3 * x + t % 256) % 256 == (3 * x + t) % 256);
    assert((5 * y + t % 256) % 256 == (5 * y + t) % 256);
    assert(pattern(width, height, t).subrange(p * 4, p * 4 + 4) =~= seq![
        ((3 * x + t) % 256) as u8,
        ((5 * y + t) % 256) as u8,
        (t % 256) as u8,
        255u8,
    ]);
}

proof fn lemma_pattern_byte(width: nat, height: nat, t: nat, p: int, c: int)
    requires
        0 <= p,
        p + 1 <= width * height,
        width > 0,
        0 <= c < 4,
    ensures
        pattern(width, height, t)[p * 4 + c] == pattern_byte(
            (p % width as int) as nat,
            (p / width as int) as nat,
            c,
            t % 256,
        ),
{
    assert((p * 4 + c) / 4 == p && (p * 4 + c) % 4 == c);
}

} // verus!
