//! Pacing of frames.

use crate::binary;
use vstd::arithmetic::power2;
use vstd::prelude::*;

verus! {

/// Nanoseconds of one frame: the double nearest to a second over the frame rate, rounded to
/// nanoseconds, halves to even. A rate of zero counts as one.
pub open spec fn frame_nanos(fps: nat) -> nat {
    let d = binary::double_of(
        1,
        if fps == 0 {
            1
        } else {
            fps
        },
    );
    binary::round_half_even(1_000_000_000 * d.0, power2::pow2((-d.1) as nat))
}

/// Frame pacing on a clock that counts nanoseconds.
pub struct FramePacer {
    frame_nanos: u128,
    next_frame: u128,
}

proof fn lemma_frame_exponent(fps: nat, e: int)
    requires
        0 < fps <= 0xffff_ffff,
        binary::in_binade(1, fps, e, 53),
    ensures
        -86 <= e <= -52,
{
    power2::lemma2_to64();
    power2::lemma2_to64_rest();
    let f = fps as int;
    if e >= 0 {
        let a = power2::pow2(e as nat) as int;
        power2::lemma_pow2_pos(e as nat);
        assert(0x10_0000_0000_0000 * (f * a) > 1) by (nonlinear_arith)
            requires
                f >= 1,
                a >= 1,
        {
            assert(f * a >= 1) by (nonlinear_arith)
                requires
                    f >= 1,
                    a >= 1,
            ;
        }
    } else {
        let k = (-e) as nat;
        let a = power2::pow2(k) as int;
        assert(1 * a == a);
        if k < 52 {
            power2::lemma_pow2_strictly_increases(k, 52);
            assert(0x10_0000_0000_0000 * f >= 0x10_0000_0000_0000) by (nonlinear_arith)
                requires
                    f >= 1,
            ;
        }
        if k > 86 {
            power2::lemma_pow2_strictly_increases(86, k);
            power2::lemma_pow2_adds(53, 33);
            assert(0x20_0000_0000_0000 * f < 0x20_0000_0000_0000 * 0x2_0000_0000)
                by (nonlinear_arith)
                requires
                    f <= 0xffff_ffff,
            ;
        }
    }
}

fn power_of_two(k: u32) -> (r: u128)
    requires
        k <= 86,
    ensures
        r == power2::pow2(k as nat),
        0 < r <= 0x40_0000_0000_0000_0000_0000,
{
    let mut v: u128 = 1;
    let mut i: u32 = 0;
    proof {
        power2::lemma2_to64();
        power2::lemma2_to64_rest();
        power2::lemma_pow2_adds(43, 43);
    }
    while i < k
        invariant
            i <= k <= 86,
            v == power2::pow2(i as nat),
            power2::pow2(86) == 0x40_0000_0000_0000_0000_0000,
        decreases k - i,
    {
        proof {
            power2::lemma_pow2_strictly_increases(i as nat, 86);
            power2::lemma_pow2_unfold((i + 1) as nat);
        }
        v = v * 2;
        i += 1;
    }
    proof {
        power2::lemma_pow2_pos(k as nat);
        if k < 86 {
            power2::lemma_pow2_strictly_increases(k as nat, 86);
        }
    }
    v
}

/// Nanoseconds of one frame.
pub fn frame_duration(fps: u32) -> (r: u128)
    ensures
        r == frame_nanos(fps as nat),
        r <= 0x1_0000_0000_0000_0000_0000_0000,
{
    let rate: u32 = if fps == 0 {
        1
    } else {
        fps
    };
    let d = binary::double_from_ratio(1, rate as u64);
    proof {
        lemma_frame_exponent(rate as nat, d.1 as int);
    }
    let n: u128 = 1_000_000_000 * d.0 as u128;
    let q: u128 = power_of_two((-d.1) as u32);
    let whole: u128 = n / q;
    let rest: u128 = n % q;
    proof {
        assert(whole <= n) by (nonlinear_arith)
            requires
                whole == n / q,
                q >= 1,
                n >= 0,
        ;
    }
    if 2 * rest > q || (2 * rest == q && whole % 2 == 1) {
        whole + 1
    } else {
        whole
    }
}

impl FramePacer {
    /// Nanoseconds of one frame.
    pub closed spec fn step(&self) -> nat {
        self.frame_nanos as nat
    }

    /// When the next frame is due.
    pub closed spec fn next_frame(&self) -> nat {
        self.next_frame as nat
    }

    /// A pacer whose first frame is due at once.
    pub fn new(fps: u32, now: u128) -> (r: Self)
        ensures
            r.step() == frame_nanos(fps as nat),
            r.next_frame() == now,
    {
        FramePacer { frame_nanos: frame_duration(fps), next_frame: now }
    }

    /// How long to wait for the next frame.
    pub fn delay(&self, now: u128) -> (r: u128)
        ensures
            r == (if self.next_frame() > now {
                self.next_frame() - now
            } else {
                0
            }),
    {
        if self.next_frame > now {
            self.next_frame - now
        } else {
            0
        }
    }

    /// Whether there is a due time after the next one.
    pub fn has_next(&self) -> (r: bool)
        ensures
            r == (self.next_frame() + self.step() <= u128::MAX),
    {
        self.next_frame <= u128::MAX - self.frame_nanos
    }

    /// Sets the time of the frame after one that was waited for: one step on, or now where that
    /// has passed.
    pub fn wait(&mut self, now: u128)
        requires
            old(self).next_frame() + old(self).step() <= u128::MAX,
        ensures
            final(self).step() == old(self).step(),
            final(self).next_frame() == (if old(self).next_frame() + old(self).step() < now {
                now as nat
            } else {
                old(self).next_frame() + old(self).step()
            }),
    {
        self.next_frame = self.next_frame + self.frame_nanos;
        if self.next_frame < now {
            self.next_frame = now;
        }
    }
}

/// The next due time after one that was waited for.
pub open spec fn due_after(next_frame: nat, step: nat, now: nat) -> nat {
    if next_frame + step < now {
        now
    } else {
        next_frame + step
    }
}

/// Frames are due at least one step apart, and a frame that is late does not make up for the
/// time that has passed.
pub proof fn law_frames_spaced(next_frame: nat, step: nat, now: nat)
    ensures
        due_after(next_frame, step, now) >= next_frame + step,
        due_after(next_frame, step, now) >= now,
{
}

/// The time of one frame, as often as there are frames in a second, makes one second, but for half
/// a nanosecond in each frame.
pub proof fn law_frames_fill_a_second(fps: nat)
    requires
        0 < fps <= 0xffff_ffff,
    ensures
        2 * (frame_nanos(fps) * fps) <= 2_000_000_000 + fps + 1,
        2_000_000_000 <= 2 * (frame_nanos(fps) * fps) + fps + 1,
        frame_nanos(0) == frame_nanos(1),
{
    binary::lemma_binade_exists(1, fps, 53);
    let d = binary::double_of(1, fps);
    lemma_frame_exponent(fps, d.1);
    binary::law_nearest_is_near(1, fps, 53);
    let k = (-d.1) as nat;
    let a = power2::pow2(k) as int;
    power2::lemma_pow2_pos(k);
    power2::lemma2_to64();
    power2::lemma2_to64_rest();
    assert(binary::scaled_num(1, d.1) == a && binary::scaled_den(fps, d.1) == fps);
    let m = d.0 as int;
    let f = fps as int;
    let r = frame_nanos(fps) as int;
    let g = 1_000_000_000int;
    binary::law_rounding_is_near((g * m) as nat, a as nat);
    assert(2 * (g * m) <= 2 * (r * a) + a && 2 * (r * a) <= 2 * (g * m) + a);
    assert(2 * a <= 2 * (m * f) + f && 2 * (m * f) <= 2 * a + f);
    assert(0x10_0000_0000_0000 * f <= a);
    // Both inequalities, times f, and the second pair times g.
    let rf = r * f;
    assert(2 * (g * m) * f <= (2 * (r * a) + a) * f) by (nonlinear_arith)
        requires
            2 * (g * m) <= 2 * (r * a) + a,
            f > 0,
    ;
    assert((2 * (r * a)) * f <= (2 * (g * m) + a) * f) by (nonlinear_arith)
        requires
            2 * (r * a) <= 2 * (g * m) + a,
            f > 0,
    ;
    let mf = m * f;
    assert(2 * (g * m) * f == 2 * (g * mf)) by (nonlinear_arith)
        requires
            mf == m * f,
    ;
    assert((2 * (r * a) + a) * f == 2 * (rf * a) + a * f) by (nonlinear_arith)
        requires
            rf == r * f,
    ;
    assert((2 * (g * m) + a) * f == 2 * (g * mf) + a * f) by (nonlinear_arith)
        requires
            mf == m * f,
    ;
    assert((2 * (r * a)) * f == 2 * (rf * a)) by (nonlinear_arith)
        requires
            rf == r * f,
    ;
    // g * f is less than a.
    assert(g * f <= a);
    assert(2 * (g * a) <= 2 * (g * mf) + g * f);
    assert(2 * (g * mf) <= 2 * (g * a) + g * f);
    assert(2 * (g * a) <= 2 * (rf * a) + a * f + a);
    assert(2 * (rf * a) <= 2 * (g * a) + a * f + a);
    assert(2 * g <= 2 * rf + f + 1) by (nonlinear_arith)
        requires
            2 * (g * a) <= 2 * (rf * a) + a * f + a,
            a > 0,
    ;
    assert(2 * rf <= 2 * g + f + 1) by (nonlinear_arith)
        requires
            2 * (rf * a) <= 2 * (g * a) + a * f + a,
            a > 0,
    ;
}
} // verus!
