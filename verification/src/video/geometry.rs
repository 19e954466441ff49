//! Picture sizes on the macroblock grid, and the pixels that go with them.

use crate::binary;
use vstd::arithmetic::power2;
use vstd::prelude::*;

verus! {

/// Widest picture that is streamed.
pub const MAX_STREAM_WIDTH: u32 = 1920;

/// Tallest picture that is streamed.
pub const MAX_STREAM_HEIGHT: u32 = 1088;

/// `v` rounded down to a multiple of 16.
pub open spec fn down16(v: nat) -> nat {
    (v - v % 16) as nat
}

/// `v` rounded up to a multiple of 16.
pub open spec fn up16(v: nat) -> nat {
    (v + 15) / 16 * 16
}

pub open spec fn at_least16(v: nat) -> nat {
    if v < 16 {
        16
    } else {
        v
    }
}

/// The double by which a picture of `w` by `h` is scaled down: the smaller of the two
/// quotients that fit its sides.
pub open spec fn fit_scale(w: nat, h: nat) -> (nat, int) {
    let a = binary::double_of(MAX_STREAM_WIDTH as nat, w);
    let b = binary::double_of(MAX_STREAM_HEIGHT as nat, h);
    if binary::double_le(a, b) {
        a
    } else {
        b
    }
}

/// The coded size of a picture of `width` by `height`.
pub open spec fn fitted_dims(width: nat, height: nat) -> (nat, nat) {
    let w = down16(width);
    let h = up16(height);
    if w == 0 || h == 0 {
        (16, 16)
    } else if w <= MAX_STREAM_WIDTH && h <= MAX_STREAM_HEIGHT {
        (w, h)
    } else {
        let s = fit_scale(w, h);
        (
            down16(at_least16(binary::whole_part(binary::double_times(s, w)))),
            up16(at_least16(binary::whole_part(binary::double_times(s, h)))),
        )
    }
}

/// Rounds down to a multiple of 16.
pub fn align16(v: u32) -> (r: u32)
    ensures
        r == down16(v as nat),
{
    v - v % 16
}

/// Rounds up to a multiple of 16.
pub fn align16_ceil(v: u32) -> (r: u32)
    requires
        v <= 4294967280,
    ensures
        r == up16(v as nat),
{
    (v + 15) / 16 * 16
}

proof fn lemma_small_ratio(p: nat, x: nat, e: int)
    requires
        0 < p < 2048,
        0 < x <= 0x1_0000_0000,
        binary::in_binade(p, x, e, 53),
    ensures
        -85 < e <= -41,
{
    power2::lemma2_to64();
    power2::lemma2_to64_rest();
    let lo = power2::pow2(52) as int;
    let hi = power2::pow2(53) as int;
    let xi = x as int;
    let pi = p as int;
    if e >= 0 {
        let a = power2::pow2(e as nat) as int;
        power2::lemma_pow2_pos(e as nat);
        assert(lo * (xi * a) >= lo) by (nonlinear_arith)
            requires
                xi >= 1,
                a >= 1,
                lo >= 1,
        {
            assert(xi * a >= 1) by (nonlinear_arith)
                requires
                    xi >= 1,
                    a >= 1,
            ;
        }
    } else {
        let k = (-e) as nat;
        let a = power2::pow2(k) as int;
        if k >= 85 {
            if k > 85 {
                power2::lemma_pow2_strictly_increases(85, k);
            }
            power2::lemma_pow2_adds(53, 32);
            assert(hi * xi <= hi * 0x1_0000_0000) by (nonlinear_arith)
                requires
                    xi <= 0x1_0000_0000,
                    hi >= 0,
            ;
            assert(pi * a >= a) by (nonlinear_arith)
                requires
                    pi >= 1,
                    a >= 0,
            ;
        }
        if k <= 40 {
            if k < 40 {
                power2::lemma_pow2_strictly_increases(k, 40);
            }
            assert(pi * a < 2048 * 0x100_0000_0000) by (nonlinear_arith)
                requires
                    0 < pi < 2048,
                    0 <= a <= 0x100_0000_0000,
            ;
            assert(lo * xi >= lo) by (nonlinear_arith)
                requires
                    xi >= 1,
                    lo >= 0,
            ;
        }
    }
}

/// Two roundings of a number that is at most `p` leave it below `p + 1`.
proof fn lemma_two_roundings(m: int, w: int, p: int, q: int)
    requires
        0x20_0000_0000_0000 * m <= (0x20_0000_0000_0000 + 1) * w,
        0x20_0000_0000_0000 * w <= (0x20_0000_0000_0000 + 1) * (p * q),
        0 <= p < 2048,
        q > 0,
    ensures
        m < (p + 1) * q,
{
    let pq = p * q;
    assert((p + 1) * q == pq + q) by (nonlinear_arith)
        requires
            pq == p * q,
    ;
    assert(pq <= 2047 * q) by (nonlinear_arith)
        requires
            pq == p * q,
            p <= 2047,
            q > 0,
    ;
    assert(pq >= 0) by (nonlinear_arith)
        requires
            pq == p * q,
            p >= 0,
            q > 0,
    ;
    let k = 0x20_0000_0000_0000int;
    assert(k * (k * m) <= k * ((k + 1) * w));
    assert(k * ((k + 1) * w) == (k + 1) * (k * w)) by (nonlinear_arith);
    assert((k + 1) * (k * w) <= (k + 1) * ((k + 1) * pq));
    assert((k + 1) * ((k + 1) * pq) == k * (k * pq) + (2 * k + 1) * pq) by (nonlinear_arith);
    assert((2 * k + 1) * pq < k * (k * q)) by {
        let c = (2 * k + 1) * 2047;
        assert(c < k * k);
        assert((2 * k + 1) * pq <= c * q) by (nonlinear_arith)
            requires
                c == (2 * k + 1) * 2047,
                pq <= 2047 * q,
                k > 0,
        ;
        assert(c * q < (k * k) * q) by (nonlinear_arith)
            requires
                c < k * k,
                q > 0,
        ;
        assert((k * k) * q == k * (k * q)) by (nonlinear_arith);
    }
    assert(k * (k * m) < k * (k * (pq + q)));
}

/// A side scaled by at most `p / x` is at most `p`.
proof fn lemma_scaled_side(p: nat, x: nat, b: (nat, int), s: (nat, int), e2: int)
    requires
        0 < x,
        p < 2048,
        b == binary::nearest(p, x, 53),
        binary::in_binade(p, x, b.1, 53),
        b.1 < 0,
        s.1 < 0,
        s.0 > 0,
        binary::double_le(s, b),
        binary::in_binade(s.0 * x, 1, e2, 53),
    ensures
        binary::whole_part(binary::double_times(s, x)) <= p,
{
    power2::lemma2_to64();
    power2::lemma2_to64_rest();
    binary::lemma_nearest_close(p, x, b.1, 53);
    let k = 0x20_0000_0000_0000int;
    let kb = (-b.1) as nat;
    let ks = (-s.1) as nat;
    let pb = power2::pow2(kb) as int;
    let ps = power2::pow2(ks) as int;
    power2::lemma_pow2_pos(kb);
    power2::lemma_pow2_pos(ks);
    let xi = x as int;
    let pi = p as int;
    let s0 = s.0 as int;
    let b0 = b.0 as int;
    let bx = b0 * xi;
    let w = s0 * xi;
    assert(k * bx <= (k + 1) * (pi * pb));
    assert(k * w <= (k + 1) * (pi * ps)) by {
        if s.1 <= b.1 {
            let g = power2::pow2((b.1 - s.1) as nat) as int;
            power2::lemma_pow2_adds(kb, (b.1 - s.1) as nat);
            assert(s0 * 1 == s0);
            assert(s0 <= b0 * g);
            assert(w <= bx * g) by (nonlinear_arith)
                requires
                    w == s0 * xi,
                    bx == b0 * xi,
                    s0 <= b0 * g,
                    xi > 0,
            ;
            assert((k * bx) * g <= ((k + 1) * (pi * pb)) * g) by (nonlinear_arith)
                requires
                    k * bx <= (k + 1) * (pi * pb),
                    g >= 0,
            ;
            assert((k * bx) * g == k * (bx * g)) by (nonlinear_arith);
            assert(((k + 1) * (pi * pb)) * g == (k + 1) * (pi * (pb * g))) by (nonlinear_arith);
        } else {
            let g = power2::pow2((s.1 - b.1) as nat) as int;
            power2::lemma_pow2_pos((s.1 - b.1) as nat);
            power2::lemma_pow2_adds(ks, (s.1 - b.1) as nat);
            assert(b0 * 1 == b0);
            assert(s0 * g <= b0);
            assert(w * g <= bx) by (nonlinear_arith)
                requires
                    w == s0 * xi,
                    bx == b0 * xi,
                    s0 * g <= b0,
                    xi > 0,
            ;
            assert(k * w <= (k + 1) * (pi * ps)) by (nonlinear_arith)
                requires
                    k * (w * g) <= (k + 1) * (pi * (ps * g)),
                    g > 0,
            {
                assert(k * (w * g) == (k * w) * g) by (nonlinear_arith);
                assert((k + 1) * (pi * (ps * g)) == ((k + 1) * (pi * ps)) * g) by (nonlinear_arith);
            }
        }
    }
    assert(w > 0) by (nonlinear_arith)
        requires
            w == s0 * xi,
            s0 > 0,
            xi > 0,
    ;
    let wn = w as nat;
    binary::lemma_nearest_close(wn, 1, e2, 53);
    let d = binary::double_times(s, x);
    let m2 = d.0 as int;
    assert(d.1 == e2 - ks);
    if e2 >= 0 {
        let pe = power2::pow2(e2 as nat) as int;
        power2::lemma_pow2_pos(e2 as nat);
        assert(1 * pe == pe);
        lemma_two_roundings(m2 * pe, w, pi, ps);
        if e2 >= ks {
            let g = power2::pow2((e2 - ks) as nat) as int;
            power2::lemma_pow2_adds(ks, (e2 - ks) as nat);
            assert(m2 * g < pi + 1) by (nonlinear_arith)
                requires
                    m2 * (ps * g) < (pi + 1) * ps,
                    ps > 0,
            {
                assert(m2 * (ps * g) == (m2 * g) * ps) by (nonlinear_arith);
            }
        } else {
            let g = power2::pow2((ks - e2) as nat) as int;
            power2::lemma_pow2_pos((ks - e2) as nat);
            power2::lemma_pow2_adds(e2 as nat, (ks - e2) as nat);
            assert(m2 < (pi + 1) * g) by (nonlinear_arith)
                requires
                    m2 * pe < (pi + 1) * (pe * g),
                    pe > 0,
            {
                assert((pi + 1) * (pe * g) == ((pi + 1) * g) * pe) by (nonlinear_arith);
            }
            lemma_quotient_below(m2, pi + 1, g);
        }
    } else {
        let pe = power2::pow2((-e2) as nat) as int;
        let g = power2::pow2((ks - e2) as nat) as int;
        power2::lemma_pow2_pos((ks - e2) as nat);
        power2::lemma_pow2_pos((-e2) as nat);
        power2::lemma_pow2_adds(ks, (-e2) as nat);
        assert(m2 * 1 == m2);
        let wp = w * pe;
        assert(k * wp <= (k + 1) * (pi * g)) by (nonlinear_arith)
            requires
                k * w <= (k + 1) * (pi * ps),
                wp == w * pe,
                g == ps * pe,
                pe > 0,
        {
            assert((k * w) * pe <= ((k + 1) * (pi * ps)) * pe) by (nonlinear_arith)
                requires
                    k * w <= (k + 1) * (pi * ps),
                    pe > 0,
            ;
            assert((k * w) * pe == k * (w * pe)) by (nonlinear_arith);
            assert(((k + 1) * (pi * ps)) * pe == (k + 1) * (pi * (ps * pe))) by (nonlinear_arith);
        }
        lemma_two_roundings(m2, wp, pi, g);
        lemma_quotient_below(m2, pi + 1, g);
    }
}

proof fn lemma_quotient_below(m: int, c: int, g: int)
    requires
        m < c * g,
        g > 0,
    ensures
        m / g < c,
{
    assert(m / g < c) by (nonlinear_arith)
        requires
            m < c * g,
            g > 0,
    ;
}

proof fn lemma_double_le_total(a: (nat, int), b: (nat, int))
    ensures
        binary::double_le(a, b) || binary::double_le(b, a),
        binary::double_le(a, a),
{
}

/// The coded size of a picture: on the macroblock grid, and no larger than 1920 by 1088.
pub fn fit_stream_dims(width: u32, height: u32) -> (r: (u32, u32))
    requires
        height <= 4294967280,
    ensures
        (r.0 as nat, r.1 as nat) == fitted_dims(width as nat, height as nat),
        r.0 % 16 == 0,
        r.1 % 16 == 0,
        16 <= r.0 <= MAX_STREAM_WIDTH,
        16 <= r.1 <= MAX_STREAM_HEIGHT,
        r.0 <= 1920,
        r.1 <= 1088,
{
    let w: u32 = align16(width);
    let h: u32 = align16_ceil(height);
    if w == 0 || h == 0 {
        return (16, 16);
    }
    if w <= MAX_STREAM_WIDTH && h <= MAX_STREAM_HEIGHT {
        return (w, h);
    }
    let a = binary::double_from_ratio(MAX_STREAM_WIDTH as u64, w as u64);
    let b = binary::double_from_ratio(MAX_STREAM_HEIGHT as u64, h as u64);
    proof {
        lemma_small_ratio(MAX_STREAM_WIDTH as nat, w as nat, a.1 as int);
        lemma_small_ratio(MAX_STREAM_HEIGHT as nat, h as nat, b.1 as int);
        lemma_double_le_total((a.0 as nat, a.1 as int), (b.0 as nat, b.1 as int));
        lemma_double_le_total((b.0 as nat, b.1 as int), (b.0 as nat, b.1 as int));
    }
    let s = if binary::double_not_above(a, b) {
        a
    } else {
        b
    };
    let dw = binary::double_mul(s, w);
    let dh = binary::double_mul(s, h);
    proof {
        let sv = (s.0 as nat, s.1 as int);
        lemma_scaled_side(
            MAX_STREAM_WIDTH as nat,
            w as nat,
            (a.0 as nat, a.1 as int),
            sv,
            dw.1 - s.1,
        );
        lemma_scaled_side(
            MAX_STREAM_HEIGHT as nat,
            h as nat,
            (b.0 as nat, b.1 as int),
            sv,
            dh.1 - s.1,
        );
    }
    let sw: u32 = binary::whole(dw) as u32;
    let sh: u32 = binary::whole(dh) as u32;
    let nw: u32 = align16(if sw < 16 { 16 } else { sw });
    let nh: u32 = align16_ceil(if sh < 16 { 16 } else { sh });
    (nw, nh)
}

/// A coded size is on the macroblock grid and within the bounds of a stream, and fitting it
/// again does not change it.
pub proof fn law_fitting_settles(width: nat, height: nat)
    requires
        width <= u32::MAX,
        height <= 4294967280,
    ensures
        ({
            let (w, h) = fitted_dims(width, height);
            &&& w % 16 == 0
            &&& h % 16 == 0
            &&& 16 <= w <= MAX_STREAM_WIDTH
            &&& 16 <= h <= MAX_STREAM_HEIGHT
            &&& fitted_dims(w, h) == (w, h)
        }),
{
    let w = down16(width);
    let h = up16(height);
    if w > 0 && h > 0 && (w > MAX_STREAM_WIDTH || h > MAX_STREAM_HEIGHT) {
        let a = binary::double_of(MAX_STREAM_WIDTH as nat, w);
        let b = binary::double_of(MAX_STREAM_HEIGHT as nat, h);
        let s = fit_scale(w, h);
        binary::lemma_binade_exists(MAX_STREAM_WIDTH as nat, w, 53);
        binary::lemma_binade_exists(MAX_STREAM_HEIGHT as nat, h, 53);
        lemma_small_ratio(MAX_STREAM_WIDTH as nat, w, a.1);
        lemma_small_ratio(MAX_STREAM_HEIGHT as nat, h, b.1);
        lemma_double_le_total(a, b);
        lemma_double_le_total(b, b);
        binary::lemma_nearest_positive(MAX_STREAM_WIDTH as nat, w, 53);
        binary::lemma_nearest_positive(MAX_STREAM_HEIGHT as nat, h, 53);
        assert(s.0 * w > 0 && s.0 * h > 0) by (nonlinear_arith)
            requires
                s.0 > 0,
                w > 0,
                h > 0,
        ;
        binary::lemma_binade_exists(s.0 * w, 1, 53);
        binary::lemma_binade_exists(s.0 * h, 1, 53);
        lemma_scaled_side(MAX_STREAM_WIDTH as nat, w, a, s, binary::binade(s.0 * w, 1, 53));
        lemma_scaled_side(MAX_STREAM_HEIGHT as nat, h, b, s, binary::binade(s.0 * h, 1, 53));
    }
}

/// The largest even number not above `v`.
pub fn even_dim(v: u32) -> (r: u32)
    ensures
        r == v - v % 2,
{
    v - v % 2
}

/// Encoder bit rate for a picture size and frame rate.
pub open spec fn bitrate_for(pixels_per_second: nat) -> nat {
    let k = pixels_per_second / 1000 % 0x1_0000_0000;
    if k < 2000 {
        2000
    } else if k > 20000 {
        20000
    } else {
        k
    }
}

/// Encoder bit rate in kbit/s: one bit per pixel, between 2000 and 20000. The quotient is
/// taken modulo 2^32 before it is clamped.
pub fn auto_bitrate_kbps(width: u32, height: u32, fps: u32) -> (r: u32)
    requires
        width * height * fps <= u64::MAX,
    ensures
        r == bitrate_for((width * height * fps) as nat),
        2000 <= r <= 20000,
{
    proof {
        assert(width * height <= 0xffff_ffff * 0xffff_ffff) by (nonlinear_arith)
            requires
                0 <= width <= 0xffff_ffff,
                0 <= height <= 0xffff_ffff,
        ;
    }
    let area: u64 = width as u64 * height as u64;
    let pixels: u64 = area * fps as u64;
    let k: u32 = (pixels / 1000 % 0x1_0000_0000) as u32;
    if k < 2000 {
        2000
    } else if k > 20000 {
        20000
    } else {
        k
    }
}

/// Position in the source of the pixel shown at pixel `p` of a picture `dst_w` wide.
pub open spec fn source_index(p: int, src_w: nat, src_h: nat, dst_w: nat, dst_h: nat) -> int {
    let y = p / dst_w as int;
    let x = p % dst_w as int;
    (y * src_h / dst_h as int * src_w + x * src_w / dst_w as int) * 4
}

/// Nearest-neighbour scaling; pixels that the source does not hold are zero.
pub open spec fn scaled_rgba(
    rgba: Seq<u8>,
    src_w: nat,
    src_h: nat,
    dst_w: nat,
    dst_h: nat,
) -> Seq<u8> {
    Seq::new(
        dst_w * dst_h * 4,
        |i: int|
            {
                let from = source_index(i / 4, src_w, src_h, dst_w, dst_h);
                if from + 3 < rgba.len() {
                    rgba[from + i % 4]
                } else {
                    0u8
                }
            },
    )
}

/// Scales RGBA pixels to `dst_w` by `dst_h`.
pub fn downscale_rgba(rgba: &[u8], src_w: u32, src_h: u32, dst_w: u32, dst_h: u32) -> (r: Vec<u8>)
    requires
        dst_w * dst_h * 4 <= isize::MAX,
    ensures
        r@ == scaled_rgba(rgba@, src_w as nat, src_h as nat, dst_w as nat, dst_h as nat),
        r@.len() == dst_w * dst_h * 4,
        src_w > 0 && src_h > 0 && rgba@.len() >= src_w * src_h * 4 ==> forall|x: int, y: int|
            0 <= x < dst_w && 0 <= y < dst_h ==> #[trigger] pixel_at(r@, dst_w as nat, x, y)
                == pixel_at(
                rgba@,
                src_w as nat,
                x * src_w / dst_w as int,
                y * src_h / dst_h as int,
            ),
{
    let ghost want = scaled_rgba(rgba@, src_w as nat, src_h as nat, dst_w as nat, dst_h as nat);
    let mut out: Vec<u8> = Vec::new();
    proof {
        assert(dst_w * dst_h <= 0xffff_ffff * 0xffff_ffff) by (nonlinear_arith)
            requires
                0 <= dst_w <= 0xffff_ffff,
                0 <= dst_h <= 0xffff_ffff,
        ;
    }
    let total: u64 = dst_w as u64 * dst_h as u64;
    let mut p: u64 = 0;
    while p < total
        invariant
            total == dst_w * dst_h,
            p <= total,
            want == scaled_rgba(rgba@, src_w as nat, src_h as nat, dst_w as nat, dst_h as nat),
            out@ == want.take(p * 4),
        decreases total - p,
    {
        proof {
            assert(dst_w > 0 && dst_h > 0) by (nonlinear_arith)
                requires
                    dst_w * dst_h > 0,
                    dst_w >= 0,
                    dst_h >= 0,
            ;
            assert(p / dst_w as u64 <= 0xffff_ffff) by (nonlinear_arith)
                requires
                    p < dst_w * dst_h,
                    0 < dst_w,
                    0 <= dst_h <= 0xffff_ffff,
            ;
        }
        let y: u64 = p / dst_w as u64;
        let x: u64 = p % dst_w as u64;
        proof {
            assert(0 <= y * src_h <= 0xffff_ffff * 0xffff_ffff) by (nonlinear_arith)
                requires
                    0 <= y <= 0xffff_ffff,
                    0 <= src_h <= 0xffff_ffff,
            ;
            assert(0 <= x * src_w <= 0xffff_ffff * 0xffff_ffff) by (nonlinear_arith)
                requires
                    0 <= x <= 0xffff_ffff,
                    0 <= src_w <= 0xffff_ffff,
            ;
        }
        let sy: u64 = y * src_h as u64 / dst_h as u64;
        let sx: u64 = x * src_w as u64 / dst_w as u64;
        proof {
            assert(sy <= 0xffff_ffff * 0xffff_ffff) by (nonlinear_arith)
                requires
                    sy == (y * src_h) as int / dst_h as int,
                    0 <= y * src_h <= 0xffff_ffff * 0xffff_ffff,
                    dst_h > 0,
            ;
            assert(sy * src_w <= 0xffff_ffff * 0xffff_ffff * 0xffff_ffff) by (nonlinear_arith)
                requires
                    0 <= sy <= 0xffff_ffff * 0xffff_ffff,
                    0 <= src_w <= 0xffff_ffff,
            ;
        }
        let from: u128 = (sy as u128 * src_w as u128 + sx as u128) * 4;
        assert(from == source_index(
            p as int,
            src_w as nat,
            src_h as nat,
            dst_w as nat,
            dst_h as nat,
        ));
        let mut c: usize = 0;
        while c < 4
            invariant
                c <= 4,
                total == dst_w * dst_h,
                p < total,
                want == scaled_rgba(rgba@, src_w as nat, src_h as nat, dst_w as nat, dst_h as nat),
                from == source_index(
                    p as int,
                    src_w as nat,
                    src_h as nat,
                    dst_w as nat,
                    dst_h as nat,
                ),
                from <= 0x1_0000_0000_0000_0000_0000_0000_0000,
                out@ == want.take(p * 4 + c),
            decreases 4 - c,
        {
            assert((p * 4 + c) / 4 == p && (p * 4 + c) % 4 == c);
            assert(p * 4 + c < want.len());
            if from + 3 < rgba.len() as u128 {
                out.push(rgba[from as usize + c]);
            } else {
                out.push(0u8);
            }
            assert(out@ =~= want.take(p * 4 + c + 1));
            c += 1;
        }
        p += 1;
    }
    assert(want.take(p * 4) =~= want);
    proof {
        if rgba@.len() >= src_w * src_h * 4 && src_w > 0 && src_h > 0 {
            assert forall|x: int, y: int| 0 <= x < dst_w && 0 <= y < dst_h implies #[trigger] pixel_at(
                out@,
                dst_w as nat,
                x,
                y,
            ) == pixel_at(
                rgba@,
                src_w as nat,
                x * src_w / dst_w as int,
                y * src_h / dst_h as int,
            ) by {
                law_pixels_are_scaled(
                    rgba@,
                    src_w as nat,
                    src_h as nat,
                    dst_w as nat,
                    dst_h as nat,
                    x,
                    y,
                );
            }
        }
    }
    out
}

/// The `n` bytes of pixel `p` of a picture with `n` bytes for each pixel.
pub open spec fn pixel_of(picture: Seq<u8>, p: int, n: int) -> Seq<u8> {
    picture.subrange(n * p, n * p + n)
}

/// The four bytes of the pixel in column `x` and row `y` of an RGBA picture `w` wide.
pub open spec fn pixel_at(rgba: Seq<u8>, w: nat, x: int, y: int) -> Seq<u8> {
    rgba.subrange((y * w + x) * 4, (y * w + x) * 4 + 4)
}

/// A quotient of a coordinate below `dst` that is scaled by `src / dst` is below `src`.
proof fn lemma_coordinate(v: int, src: int, dst: int)
    requires
        0 <= v < dst,
        0 < src,
    ensures
        0 <= v * src / dst < src,
{
    assert(0 <= v * src < src * dst) by (nonlinear_arith)
        requires
            0 <= v < dst,
            0 < src,
    ;
    assert(0 <= v * src / dst < src) by (nonlinear_arith)
        requires
            0 <= v * src < src * dst,
            dst > 0,
    ;
}

pub proof fn lemma_inside(x: int, y: int, w: int, h: int)
    requires
        0 <= x < w,
        0 <= y < h,
    ensures
        0 <= y * w + x,
        y * w + x + 1 <= w * h,
        (y * w + x) / w == y,
        (y * w + x) % w == x,
{
    assert(y * w + w <= w * h) by (nonlinear_arith)
        requires
            0 <= y,
            y + 1 <= h,
            w > 0,
    ;
    assert(0 <= y * w) by (nonlinear_arith)
        requires
            0 <= y,
            w > 0,
    ;
    vstd::arithmetic::div_mod::lemma_fundamental_div_mod_converse(y * w + x, w, y, x);
}

/// The pixel that a scaled picture shows in column `x` and row `y` is that of the source in the
/// column and row that lie as far in, and the source holds it.
pub proof fn law_pixels_are_scaled(
    rgba: Seq<u8>,
    src_w: nat,
    src_h: nat,
    dst_w: nat,
    dst_h: nat,
    x: int,
    y: int,
)
    requires
        0 < src_w,
        0 < src_h,
        rgba.len() >= src_w * src_h * 4,
        0 <= x < dst_w,
        0 <= y < dst_h,
    ensures
        scaled_rgba(rgba, src_w, src_h, dst_w, dst_h).len() == dst_w * dst_h * 4,
        0 <= x * src_w / (dst_w as int) < src_w,
        0 <= y * src_h / (dst_h as int) < src_h,
        pixel_at(scaled_rgba(rgba, src_w, src_h, dst_w, dst_h), dst_w, x, y) == pixel_at(
            rgba,
            src_w,
            x * src_w / dst_w as int,
            y * src_h / dst_h as int,
        ),
{
    let all = scaled_rgba(rgba, src_w, src_h, dst_w, dst_h);
    let (sx, sy) = (x * src_w / dst_w as int, y * src_h / dst_h as int);
    lemma_coordinate(x, src_w as int, dst_w as int);
    lemma_coordinate(y, src_h as int, dst_h as int);
    lemma_inside(x, y, dst_w as int, dst_h as int);
    lemma_inside(sx, sy, src_w as int, src_h as int);
    let p = y * dst_w + x;
    let q = sy * src_w + sx;
    assert(all.len() == dst_w * dst_h * 4);
    let (shown, held) = (pixel_at(all, dst_w, x, y), pixel_at(rgba, src_w, sx, sy));
    assert forall|c: int| 0 <= c < 4 implies #[trigger] shown[c] == held[c] by {
        assert(shown[c] == all[p * 4 + c] && held[c] == rgba[q * 4 + c]);
        assert((p * 4 + c) / 4 == p && (p * 4 + c) % 4 == c);
        assert(source_index(p, src_w, src_h, dst_w, dst_h) == q * 4);
    }
    assert(shown =~= held);
}

/// Scaling a complete picture to its own size gives it back.
pub proof fn law_same_size_is_kept(rgba: Seq<u8>, w: nat, h: nat)
    requires
        rgba.len() == w * h * 4,
    ensures
        scaled_rgba(rgba, w, h, w, h) == rgba,
{
    let all = scaled_rgba(rgba, w, h, w, h);
    assert forall|i: int| 0 <= i < rgba.len() implies all[i] == rgba[i] by {
        let p = i / 4;
        assert(w > 0 && h > 0) by (nonlinear_arith)
            requires
                w * h * 4 > 0,
                w >= 0,
                h >= 0,
        ;
        vstd::arithmetic::div_mod::lemma_fundamental_div_mod(p, w as int);
        let (x, y) = (p % w as int, p / w as int);
        assert(0 <= y < h) by (nonlinear_arith)
            requires
                p == w * y + x,
                0 <= x < w,
                0 <= p < w * h,
        ;
        vstd::arithmetic::div_mod::lemma_div_multiples_vanish(x, w as int);
        vstd::arithmetic::div_mod::lemma_div_multiples_vanish(y, h as int);
        assert(x * w == w * x && y * h == h * y && y * w == w * y) by (nonlinear_arith);
        assert(source_index(p, w, h, w, h) == p * 4);
    }
    assert(all =~= rgba);
}

/// Opaque black pixels.
pub open spec fn black_pixels(pixels: nat) -> Seq<u8> {
    Seq::new(
        pixels * 4,
        |i: int|
            if i % 4 == 3 {
                255u8
            } else {
                0u8
            },
    )
}

/// The pixels of the coded picture: the display picture itself when the sizes agree, the
/// display picture with black rows below when only rows are missing, else a scaled copy.
pub open spec fn coded_rgba(
    rgba: Seq<u8>,
    display_w: nat,
    display_h: nat,
    coded_w: nat,
    coded_h: nat,
) -> Seq<u8> {
    if coded_w == display_w && coded_h == display_h {
        rgba
    } else if coded_w == display_w && coded_h > display_h && rgba.len() == display_w * display_h
        * 4 {
        rgba + black_pixels(((coded_h - display_h) * coded_w) as nat)
    } else {
        scaled_rgba(rgba, display_w, display_h, coded_w, coded_h)
    }
}

/// Pads or scales RGBA pixels to the coded picture size.
pub fn fit_rgba_to_coded(
    rgba: &[u8],
    display_w: u32,
    display_h: u32,
    coded_w: u32,
    coded_h: u32,
) -> (r: Vec<u8>)
    requires
        coded_w * coded_h * 4 <= isize::MAX,
    ensures
        r@ == coded_rgba(
            rgba@,
            display_w as nat,
            display_h as nat,
            coded_w as nat,
            coded_h as nat,
        ),
{
    if coded_w == display_w && coded_h == display_h {
        return crate::bytes::to_vec(rgba);
    }
    proof {
        assert(display_w * display_h <= 0xffff_ffff * 0xffff_ffff) by (nonlinear_arith)
            requires
                0 <= display_w <= 0xffff_ffff,
                0 <= display_h <= 0xffff_ffff,
        ;
    }
    let display_bytes: u128 = display_w as u128 * display_h as u128 * 4;
    if coded_w == display_w && coded_h > display_h && rgba.len() as u128 == display_bytes {
        let mut out = crate::bytes::to_vec(rgba);
        proof {
            assert((coded_h - display_h) * coded_w <= 0xffff_ffff * 0xffff_ffff) by (nonlinear_arith)
                requires
                    0 <= coded_h - display_h <= 0xffff_ffff,
                    0 <= coded_w <= 0xffff_ffff,
            ;
        }
        let pad: u64 = (coded_h - display_h) as u64 * coded_w as u64;
        let mut p: u64 = 0;
        while p < pad
            invariant
                p <= pad,
                out@ == rgba@ + black_pixels(p as nat),
            decreases pad - p,
        {
            out.push(0u8);
            out.push(0u8);
            out.push(0u8);
            out.push(255u8);
            p += 1;
            assert(out@ =~= rgba@ + black_pixels(p as nat));
        }
        return out;
    }
    downscale_rgba(rgba, display_w, display_h, coded_w, coded_h)
}

/// Colour bytes of an RGBA picture laid over what `old` held: pixels that the picture
/// does not hold keep their old colour, and new ones start black.
pub open spec fn rgb_over(old: Seq<u8>, rgba: Seq<u8>, pixels: nat) -> Seq<u8> {
    Seq::new(
        pixels * 3,
        |i: int|
            if i / 3 * 4 + 3 < rgba.len() {
                rgba[i / 3 * 4 + i % 3]
            } else if i < old.len() {
                old[i]
            } else {
                0u8
            },
    )
}

/// Drops the alpha channel of `rgba` into `rgb`, for a picture of `pixels` pixels.
pub fn fill_rgb(rgb: &mut Vec<u8>, rgba: &[u8], pixels: usize)
    requires
        pixels * 4 <= isize::MAX,
    ensures
        final(rgb)@ == rgb_over(old(rgb)@, rgba@, pixels as nat),
        final(rgb)@.len() == pixels * 3,
        forall|p: int|
            0 <= p < pixels && 4 * p + 3 < rgba@.len() ==> #[trigger] pixel_of(final(rgb)@, p, 3)
                == pixel_of(rgba@, p, 4).take(3),
        forall|p: int|
            0 <= p < pixels && 4 * p + 3 >= rgba@.len() && 3 * p + 3 <= old(rgb)@.len()
                ==> #[trigger] pixel_of(final(rgb)@, p, 3) == pixel_of(old(rgb)@, p, 3),
{
    let ghost before = rgb@;
    let ghost want = rgb_over(before, rgba@, pixels as nat);
    let mut out: Vec<u8> = Vec::new();
    let total: usize = pixels * 3;
    let mut i: usize = 0;
    while i < total
        invariant
            total == pixels * 3,
            pixels * 4 <= isize::MAX,
            i <= total,
            rgb@ == before,
            want == rgb_over(before, rgba@, pixels as nat),
            out@ == want.take(i as int),
        decreases total - i,
    {
        let src: usize = i / 3 * 4;
        if src + 3 < rgba.len() {
            out.push(rgba[src + i % 3]);
        } else if i < rgb.len() {
            out.push(rgb[i]);
        } else {
            out.push(0u8);
        }
        i += 1;
        assert(out@ =~= want.take(i as int));
    }
    assert(out@ =~= want);
    *rgb = out;
    proof {
        law_colours_are_kept(before, rgba@, pixels as nat);
    }
}

/// Every pixel that an RGBA picture holds keeps its red, green and blue byte when its alpha byte is
/// dropped, and every pixel that it does not hold keeps what was there before.
pub proof fn law_colours_are_kept(old: Seq<u8>, rgba: Seq<u8>, pixels: nat)
    ensures
        rgb_over(old, rgba, pixels).len() == pixels * 3,
        forall|p: int|
            0 <= p < pixels && 4 * p + 3 < rgba.len() ==> #[trigger] pixel_of(
                rgb_over(old, rgba, pixels),
                p,
                3,
            ) == pixel_of(rgba, p, 4).take(3),
        forall|p: int|
            0 <= p < pixels && 4 * p + 3 >= rgba.len() && 3 * p + 3 <= old.len()
                ==> #[trigger] pixel_of(rgb_over(old, rgba, pixels), p, 3) == pixel_of(old, p, 3),
{
    let all = rgb_over(old, rgba, pixels);
    assert forall|p: int| 0 <= p < pixels && 4 * p + 3 < rgba.len() implies #[trigger] pixel_of(
        all,
        p,
        3,
    ) == pixel_of(rgba, p, 4).take(3) by {
        let (a, b) = (pixel_of(all, p, 3), pixel_of(rgba, p, 4).take(3));
        assert forall|c: int| 0 <= c < 3 implies #[trigger] a[c] == b[c] by {
            assert(a[c] == all[3 * p + c] && b[c] == rgba[4 * p + c]);
            assert((3 * p + c) / 3 == p && (3 * p + c) % 3 == c);
        }
        assert(a =~= b);
    }
    assert forall|p: int|
        0 <= p < pixels && 4 * p + 3 >= rgba.len() && 3 * p + 3 <= old.len() implies #[trigger] pixel_of(
        all,
        p,
        3,
    ) == pixel_of(old, p, 3) by {
        let (a, b) = (pixel_of(all, p, 3), pixel_of(old, p, 3));
        assert forall|c: int| 0 <= c < 3 implies #[trigger] a[c] == b[c] by {
            assert(a[c] == all[3 * p + c] && b[c] == old[3 * p + c]);
            assert((3 * p + c) / 3 == p && (3 * p + c) % 3 == c);
        }
        assert(a =~= b);
    }
}
/// Sides of a picture that fits: whole sixteens, the width cut off and the height filled up by less
/// than sixteen; a picture without width or height is shown as the smallest one.
pub proof fn law_small_sizes_are_aligned(width: nat, height: nat)
    requires
        width < 1936,
        height <= 1088,
    ensures
        width < 16 || height == 0 ==> fitted_dims(width, height) == (16nat, 16nat),
        width >= 16 && height > 0 ==> ({
            let (w, h) = fitted_dims(width, height);
            &&& w % 16 == 0 && h % 16 == 0
            &&& w <= width < w + 16
            &&& h - 16 < height <= h
        }),
{
}

/// The bit rate follows the number of pixels in a second, a thousand of them for a kilobit, between
/// two and twenty megabits.
pub proof fn law_bit_rate_follows_pixels(pixels: nat)
    requires
        pixels < 4294967296000,
    ensures
        2000 <= bitrate_for(pixels) <= 20000,
        pixels < 2000000 ==> bitrate_for(pixels) == 2000,
        pixels >= 20000000 ==> bitrate_for(pixels) == 20000,
        2000000 <= pixels < 20000000 ==> bitrate_for(pixels) * 1000 <= pixels < (bitrate_for(pixels)
            + 1) * 1000,
{
}

/// A picture that is lower than the coded one keeps all its rows, and the rows below them are
/// black; one of the coded size is left alone.
pub proof fn law_rows_are_kept(
    rgba: Seq<u8>,
    w: nat,
    display_h: nat,
    coded_h: nat,
    x: int,
    y: int,
)
    requires
        rgba.len() == w * display_h * 4,
        display_h <= coded_h,
        0 <= x < w,
        0 <= y < coded_h,
    ensures
        coded_rgba(rgba, w, display_h, w, coded_h).len() == w * coded_h * 4,
        y < display_h ==> pixel_at(coded_rgba(rgba, w, display_h, w, coded_h), w, x, y) == pixel_at(
            rgba,
            w,
            x,
            y,
        ),
        y >= display_h ==> pixel_at(coded_rgba(rgba, w, display_h, w, coded_h), w, x, y) == seq![
            0u8,
            0,
            0,
            255,
        ],
{
    let all = coded_rgba(rgba, w, display_h, w, coded_h);
    lemma_inside(x, y, w as int, coded_h as int);
    let p = y * w + x;
    let extra = coded_h - display_h;
    assert(extra * w == w * coded_h - w * display_h) by (nonlinear_arith)
        requires
            extra == coded_h - display_h,
    ;
    assert(extra * w >= 0);
    if y < display_h {
        lemma_inside(x, y, w as int, display_h as int);
        assert(pixel_at(all, w, x, y) =~= pixel_at(rgba, w, x, y));
    } else {
        assert(y * w >= display_h * w) by (nonlinear_arith)
            requires
                y >= display_h,
        ;
        assert(display_h * w == w * display_h) by (nonlinear_arith);
        let q = p - w * display_h;
        assert(all[p * 4] == black_pixels((extra * w) as nat)[q * 4]);
        assert(all[p * 4 + 1] == black_pixels((extra * w) as nat)[q * 4 + 1]);
        assert(all[p * 4 + 2] == black_pixels((extra * w) as nat)[q * 4 + 2]);
        assert(all[p * 4 + 3] == black_pixels((extra * w) as nat)[q * 4 + 3]);
        assert((q * 4) % 4 == 0 && (q * 4 + 1) % 4 == 1 && (q * 4 + 2) % 4 == 2 && (q * 4 + 3) % 4
            == 3);
        assert(pixel_at(all, w, x, y) =~= seq![0u8, 0, 0, 255]);
    }
}
/// A picture that is too large is scaled down: one of its sides reaches its limit, or the last
/// whole sixteen below it, and the proportion of its sides stays, as far as whole sixteens admit.
pub proof fn law_large_sizes_are_scaled(width: nat, height: nat)
    requires
        16 <= width <= u32::MAX,
        0 < height <= 4294967280,
        width >= 1936 || height > 1088,
    ensures
        ({
            let w = width - width % 16;
            let h = (height + 15) / 16 * 16;
            let (a, b) = fitted_dims(width, height);
            &&& a % 16 == 0 && b % 16 == 0
            &&& a >= 1904 || b >= 1088
            &&& a > 16 && b > 16 ==> a * h <= b * w + 17 * (w + h) && b * w <= a * h + 17 * (w + h)
        }),
{
    let w = down16(width);
    let h = up16(height);
    let a = binary::double_of(1920, w);
    let b = binary::double_of(1088, h);
    let s = fit_scale(w, h);
    lemma_ratio_near(1920, w);
    lemma_ratio_near(1088, h);
    lemma_double_le_total(a, b);
    let k = power2::pow2((-s.1) as nat) as int;
    let s0 = s.0 as int;
    lemma_smaller_scale(s, a, w);
    lemma_smaller_scale(s, b, h);
    lemma_scaled_near(s, w);
    lemma_scaled_near(s, h);
    let tw = binary::whole_part(binary::double_times(s, w)) as int;
    let th = binary::whole_part(binary::double_times(s, h)) as int;
    let (wi, hi) = (w as int, h as int);
    power2::lemma_pow2_pos((-s.1) as nat);
    if s == a {
        assert(tw >= 1918) by (nonlinear_arith)
            requires
                tw * k > s0 * wi - 2 * k,
                s0 * wi > 1919 * k,
                k > 0,
        ;
    } else {
        assert(th >= 1086) by (nonlinear_arith)
            requires
                th * k > s0 * hi - 2 * k,
                s0 * hi > 1087 * k,
                k > 0,
        ;
    }
    lemma_sides_in_proportion(tw, th, wi, hi, s0, k);
    lemma_sides_in_proportion(th, tw, hi, wi, s0, k);
    let (fw, fh) = fitted_dims(width, height);
    if fw > 16 && fh > 16 {
        assert(fw <= tw < fw + 16 && fh - 16 < th <= fh);
        let (x, y) = (fw as int, fh as int);
        assert(x * hi <= tw * hi && tw * hi <= x * hi + 15 * hi) by (nonlinear_arith)
            requires
                x <= tw <= x + 15,
                hi >= 0,
        ;
        assert(th * wi <= y * wi && y * wi <= th * wi + 15 * wi) by (nonlinear_arith)
            requires
                y - 15 <= th <= y,
                wi >= 0,
        ;
    }
}

proof fn lemma_ratio_near(p: nat, x: nat)
    requires
        0 < p < 2047,
        0 < x <= 0x1_0000_0000,
    ensures
        ({
            let a = binary::double_of(p, x);
            let k = power2::pow2((-a.1) as nat) as int;
            &&& a.0 > 0
            &&& a.1 < 0
            &&& a.0 * x > (p - 1) * k
            &&& a.0 * x < 2048 * k
        }),
{
    binary::lemma_binade_exists(p, x, 53);
    let a = binary::double_of(p, x);
    lemma_small_ratio(p, x, a.1);
    binary::law_nearest_is_near(p, x, 53);
    binary::lemma_nearest_positive(p, x, 53);
    power2::lemma2_to64();
    power2::lemma2_to64_rest();
    let k = power2::pow2((-a.1) as nat) as int;
    power2::lemma_pow2_pos((-a.1) as nat);
    let pk = p * k;
    let ax = a.0 * x;
    assert(2 * pk <= 2 * ax + x && 2 * ax <= 2 * pk + x);
    assert(0x10_0000_0000_0000 * x <= pk);
    assert(pk <= 2046 * k) by (nonlinear_arith)
        requires
            pk == p * k,
            p <= 2046,
            k > 0,
    ;
    assert((p - 1) * k == pk - k) by (nonlinear_arith)
        requires
            pk == p * k,
    ;
}

proof fn lemma_smaller_scale(s: (nat, int), b: (nat, int), y: nat)
    requires
        binary::double_le(s, b),
        s.1 < 0,
        b.1 < 0,
        b.0 * y < 2048 * power2::pow2((-b.1) as nat),
    ensures
        s.0 * y < 2048 * power2::pow2((-s.1) as nat),
{
    let ks = power2::pow2((-s.1) as nat) as int;
    let kb = power2::pow2((-b.1) as nat) as int;
    let (s0, b0, yi) = (s.0 as int, b.0 as int, y as int);
    power2::lemma2_to64();
    if s.1 <= b.1 {
        let g = power2::pow2((b.1 - s.1) as nat) as int;
        power2::lemma_pow2_pos((b.1 - s.1) as nat);
        power2::lemma_pow2_adds((-b.1) as nat, (b.1 - s.1) as nat);
        assert(s0 * 1 == s0);
        assert(s0 <= b0 * g);
        assert(s0 * yi <= (b0 * g) * yi) by (nonlinear_arith)
            requires
                s0 <= b0 * g,
                yi >= 0,
        ;
        assert((b0 * g) * yi == (b0 * yi) * g) by (nonlinear_arith);
        assert((b0 * yi) * g < (2048 * kb) * g) by (nonlinear_arith)
            requires
                b0 * yi < 2048 * kb,
                g > 0,
        ;
        assert((2048 * kb) * g == 2048 * (kb * g)) by (nonlinear_arith);
    } else {
        let g = power2::pow2((s.1 - b.1) as nat) as int;
        power2::lemma_pow2_pos((s.1 - b.1) as nat);
        power2::lemma_pow2_adds((-s.1) as nat, (s.1 - b.1) as nat);
        assert(b0 * 1 == b0);
        assert(s0 * g <= b0);
        assert(s0 * yi < 2048 * ks) by (nonlinear_arith)
            requires
                s0 * g <= b0,
                b0 * yi < 2048 * (ks * g),
                yi >= 0,
                g > 0,
        {
            assert((s0 * g) * yi <= b0 * yi) by (nonlinear_arith)
                requires
                    s0 * g <= b0,
                    yi >= 0,
            ;
            assert((s0 * g) * yi == (s0 * yi) * g) by (nonlinear_arith);
            assert(2048 * (ks * g) == (2048 * ks) * g) by (nonlinear_arith);
        }
    }
}

proof fn lemma_scaled_near(s: (nat, int), x: nat)
    requires
        s.0 > 0,
        s.1 < 0,
        x > 0,
        s.0 * x < 2048 * power2::pow2((-s.1) as nat),
    ensures
        ({
            let k = power2::pow2((-s.1) as nat) as int;
            let t = binary::whole_part(binary::double_times(s, x)) as int;
            &&& t * k < s.0 * x + k
            &&& t * k > s.0 * x - 2 * k
        }),
{
    let ks = (-s.1) as nat;
    let k = power2::pow2(ks) as int;
    power2::lemma_pow2_pos(ks);
    power2::lemma2_to64();
    power2::lemma2_to64_rest();
    assert(s.0 * x > 0) by (nonlinear_arith)
        requires
            s.0 > 0,
            x > 0,
    ;
    let wn = s.0 * x;
    let w = wn as int;
    binary::lemma_binade_exists(wn, 1, 53);
    binary::law_nearest_is_near(wn, 1, 53);
    let r = binary::nearest(wn, 1, 53);
    let e = r.1;
    let m = r.0 as int;
    let d = binary::double_times(s, x);
    assert(d == (r.0, e - ks));
    let t = binary::whole_part(d) as int;
    if e >= 0 {
        let pe = power2::pow2(e as nat) as int;
        power2::lemma_pow2_pos(e as nat);
        assert(binary::scaled_den(1, e) == pe && binary::scaled_num(wn, e) == w);
        let mp = m * pe;
        assert(power2::pow2(52) == 0x10_0000_0000_0000);
        assert(power2::pow2(52) * pe <= w);
        assert(0x10_0000_0000_0000 * pe <= w) by (nonlinear_arith)
            requires
                power2::pow2(52) * pe <= w,
                power2::pow2(52) == 0x10_0000_0000_0000,
        ;
        assert(2 * w <= 2 * mp + pe && 2 * mp <= 2 * w + pe);
        if e >= ks {
            if e > ks {
                power2::lemma_pow2_strictly_increases(ks, e as nat);
            }
            assert(pe >= k);
        }
        assert(pe < k);
        let g = power2::pow2((ks - e) as nat) as int;
        power2::lemma_pow2_pos((ks - e) as nat);
        power2::lemma_pow2_adds(e as nat, (ks - e) as nat);
        assert(t == m / g);
        lemma_quotient(m, g, pe, k, t);
    } else {
        let pe = power2::pow2((-e) as nat) as int;
        power2::lemma_pow2_pos((-e) as nat);
        let n = w * pe;
        assert(binary::scaled_den(1, e) == 1 && binary::scaled_num(wn, e) == n);
        assert(m == n);
        let g = power2::pow2((ks - e) as nat) as int;
        power2::lemma_pow2_pos((ks - e) as nat);
        power2::lemma_pow2_adds(ks, (-e) as nat);
        assert(t == n / g);
        lemma_quotient(n, g, 1, g, t);
        assert(t * k <= w && w < t * k + k) by (nonlinear_arith)
            requires
                t * g <= n,
                n < t * g + g,
                n == w * pe,
                g == k * pe,
                pe > 0,
        {
            assert(t * (k * pe) == (t * k) * pe) by (nonlinear_arith);
            assert((t * k) * pe + k * pe == (t * k + k) * pe) by (nonlinear_arith);
        }
    }
}

proof fn lemma_quotient(m: int, g: int, pe: int, k: int, t: int)
    requires
        g > 0,
        pe > 0,
        k == pe * g,
        t == m / g,
    ensures
        t * k <= m * pe,
        m * pe < t * k + k,
{
    vstd::arithmetic::div_mod::lemma_fundamental_div_mod(m, g);
    vstd::arithmetic::div_mod::lemma_mod_bound(m, g);
    let u = t * g;
    assert(g * (m / g) == u) by (nonlinear_arith)
        requires
            t == m / g,
            u == t * g,
    ;
    assert(u <= m && m < u + g);
    assert(t * k == u * pe) by (nonlinear_arith)
        requires
            k == pe * g,
            u == t * g,
    ;
    assert(u * pe <= m * pe && m * pe < (u + g) * pe) by (nonlinear_arith)
        requires
            u <= m,
            m < u + g,
            pe > 0,
    ;
    assert((u + g) * pe == u * pe + k) by (nonlinear_arith)
        requires
            k == pe * g,
    ;
}

proof fn lemma_sides_in_proportion(t: int, other: int, x: int, y: int, s: int, k: int)
    requires
        t * k < s * x + k,
        other * k > s * y - 2 * k,
        x > 0,
        y > 0,
        k > 0,
    ensures
        t * y - other * x < y + 2 * x,
{
    assert((t * k) * y < (s * x + k) * y) by (nonlinear_arith)
        requires
            t * k < s * x + k,
            y > 0,
    ;
    assert((other * k) * x > (s * y - 2 * k) * x) by (nonlinear_arith)
        requires
            other * k > s * y - 2 * k,
            x > 0,
    ;
    let sxy = s * x * y;
    assert((s * x + k) * y == sxy + k * y) by (nonlinear_arith)
        requires
            sxy == s * x * y,
    ;
    assert((s * y - 2 * k) * x == sxy - 2 * (k * x)) by (nonlinear_arith)
        requires
            sxy == s * x * y,
    ;
    let d = t * y - other * x;
    assert((t * k) * y - (other * k) * x == d * k) by (nonlinear_arith)
        requires
            d == t * y - other * x,
    ;
    assert(k * y + 2 * (k * x) == (y + 2 * x) * k) by (nonlinear_arith);
    assert(d < y + 2 * x) by (nonlinear_arith)
        requires
            d * k < (y + 2 * x) * k,
            k > 0,
    ;
}
} // verus!
