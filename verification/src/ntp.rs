//! NTP timestamps on one clock that timing replies, audio sync packets and video frame headers
//! share.

use std::time::Instant;
use vstd::prelude::*;

verus! {

/// Seconds between the NTP epoch, 1900-01-01, and the Unix epoch, 1970-01-01.
pub const NTP_EPOCH_OFFSET: u64 = 2208988800;

/// `std::time::Instant`, which is opaque.
#[verifier::external_type_specification]
#[verifier::external_body]
pub struct ExInstant(std::time::Instant);

/// A length of time in whole seconds and nanoseconds.
#[derive(Debug, Clone, Copy, PartialEq, Eq, Structural)]
pub struct Span {
    pub secs: u64,
    pub nanos: u32,
}

impl Span {
    /// Less than a second of nanoseconds.
    pub open spec fn wf(&self) -> bool {
        self.nanos < 1_000_000_000
    }

    /// The length in nanoseconds.
    pub open spec fn total(&self) -> nat {
        (self.secs * 1_000_000_000 + self.nanos) as nat
    }

    pub fn zero() -> (r: Self)
        ensures
            r.wf(),
            r.total() == 0,
            r.secs == 0,
    {
        Span { secs: 0, nanos: 0 }
    }

    pub fn from_millis(ms: u64) -> (r: Self)
        ensures
            r.wf(),
            r.total() == ms * 1_000_000,
            r.secs == ms / 1000,
    {
        Span { secs: ms / 1000, nanos: (ms % 1000) as u32 * 1_000_000 }
    }

    pub fn from_nanos(nanos: u64) -> (r: Self)
        ensures
            r.wf(),
            r.total() == nanos,
            r.secs == nanos / 1_000_000_000,
    {
        Span { secs: nanos / 1_000_000_000, nanos: (nanos % 1_000_000_000) as u32 }
    }

    /// The longer of two lengths.
    pub fn longer(&self, other: &Span) -> (r: Self)
        requires
            self.wf(),
            other.wf(),
        ensures
            r.wf(),
            r == *self || r == *other,
            r.total() == (if self.total() < other.total() {
                other.total()
            } else {
                self.total()
            }),
    {
        if self.secs < other.secs || (self.secs == other.secs && self.nanos < other.nanos) {
            *other
        } else {
            *self
        }
    }
}

/// The fixed-point timestamp of `total` nanoseconds, `offset` seconds on: 32 bits of seconds,
/// which wrap, and 32 bits of fraction, rounded down.
pub open spec fn fixed_point(total: nat, offset: nat) -> nat {
    (total / 1_000_000_000 + offset) % 0x1_0000_0000 * 0x1_0000_0000 + total % 1_000_000_000
        * 0x1_0000_0000 / 1_000_000_000
}

/// The timestamp of two lengths of time together, `epoch_offset_secs` on.
pub fn to_fixed_point(elapsed: Span, bias: Span, epoch_offset_secs: u64) -> (r: u64)
    requires
        elapsed.wf(),
        bias.wf(),
    ensures
        r == fixed_point(elapsed.total() + bias.total(), epoch_offset_secs as nat),
{
    let nanos: u64 = elapsed.nanos as u64 + bias.nanos as u64;
    let (carry, rest): (u64, u64) = if nanos >= 1_000_000_000 {
        (1, (nanos - 1_000_000_000) as u64)
    } else {
        (0, nanos)
    };
    proof {
        let t = elapsed.total() + bias.total();
        assert(t == (elapsed.secs + bias.secs + carry) * 1_000_000_000 + rest);
        assert(t / 1_000_000_000 == elapsed.secs + bias.secs + carry);
        assert(t % 1_000_000_000 == rest);
    }
    let sec: u64 = (elapsed.secs % 0x1_0000_0000 + bias.secs % 0x1_0000_0000 + carry
        + epoch_offset_secs % 0x1_0000_0000) % 0x1_0000_0000;
    assert(sec == (elapsed.secs + bias.secs + carry + epoch_offset_secs) % 0x1_0000_0000);
    let frac: u64 = rest * 0x1_0000_0000 / 1_000_000_000;
    sec * 0x1_0000_0000 + frac
}

/// A clock that counts from the start of the session.
pub struct SessionClock {
    start: Instant,
}

/// `std::time::Instant::now`: nothing is known of the value.
#[verifier::external_body]
pub(crate) fn instant_now() -> (r: Instant) {
    Instant::now()
}

/// `std::time::Instant::elapsed`: a length of time with less than a second of nanoseconds. It
/// rests on when it is called; how two readings of one clock compare is left unsaid.
#[verifier::external_body]
pub(crate) fn instant_elapsed(start: &Instant) -> (r: Span)
    ensures
        r.wf(),
{
    let d = start.elapsed();
    Span { secs: d.as_secs(), nanos: d.subsec_nanos() }
}

/// Starts the clock that timing, audio and video share.
pub fn init_session_clock() -> SessionClock {
    SessionClock { start: instant_now() }
}

impl SessionClock {
    /// Time since the start of the session.
    pub fn elapsed(&self) -> (r: Span)
        ensures
            r.wf(),
    {
        instant_elapsed(&self.start)
    }
}

/// The timestamp, from the NTP epoch on, when `elapsed` has passed.
pub fn ntp_epoch_at(elapsed: Span) -> (r: u64)
    requires
        elapsed.wf(),
    ensures
        r == fixed_point(elapsed.total(), NTP_EPOCH_OFFSET as nat),
{
    to_fixed_point(elapsed, Span::zero(), NTP_EPOCH_OFFSET)
}

/// The timestamp, from the NTP epoch on, `bias` after `elapsed` has passed.
pub fn ntp_epoch_at_with_bias(elapsed: Span, bias: Span) -> (r: u64)
    requires
        elapsed.wf(),
        bias.wf(),
    ensures
        r == fixed_point(elapsed.total() + bias.total(), NTP_EPOCH_OFFSET as nat),
{
    to_fixed_point(elapsed, bias, NTP_EPOCH_OFFSET)
}

/// The timestamp, from the start of the session on, `bias` after `elapsed` has passed.
pub fn ntp_boot_at_with_bias(elapsed: Span, bias: Span) -> (r: u64)
    requires
        elapsed.wf(),
        bias.wf(),
    ensures
        r == fixed_point(elapsed.total() + bias.total(), 0),
{
    to_fixed_point(elapsed, bias, 0)
}

/// The current timestamp from the NTP epoch on, for timing replies and audio sync packets.
pub fn ntp_epoch_now(clock: &SessionClock) -> (r: u64)
    ensures
        exists|e: Span|
            e.wf() && r == #[trigger] fixed_point(e.total(), NTP_EPOCH_OFFSET as nat),
{
    let e = clock.elapsed();
    ntp_epoch_at(e)
}

/// The current timestamp from the NTP epoch on, with a playout bias.
pub fn ntp_epoch_with_bias(clock: &SessionClock, bias: Span) -> (r: u64)
    requires
        bias.wf(),
    ensures
        exists|e: Span|
            e.wf() && r == #[trigger] fixed_point(
                e.total() + bias.total(),
                NTP_EPOCH_OFFSET as nat,
            ),
{
    let e = clock.elapsed();
    ntp_epoch_at_with_bias(e, bias)
}

/// The current timestamp from the start of the session on, with a playout bias, for video frame
/// headers.
pub fn ntp_boot_relative_with_bias(clock: &SessionClock, bias: Span) -> (r: u64)
    requires
        bias.wf(),
    ensures
        exists|e: Span| e.wf() && r == #[trigger] fixed_point(e.total() + bias.total(), 0),
{
    let e = clock.elapsed();
    ntp_boot_at_with_bias(e, bias)
}

/// The current timestamp from the start of the session on.
pub fn ntp_boot_relative(clock: &SessionClock) -> (r: u64)
    ensures
        exists|e: Span| e.wf() && r == #[trigger] fixed_point(e.total(), 0),
{
    let e = clock.elapsed();
    to_fixed_point(e, Span::zero(), 0)
}

/// The current timestamp from the NTP epoch on, for timing replies.
pub fn ntp_boot_with_epoch(clock: &SessionClock) -> (r: u64)
    ensures
        exists|e: Span|
            e.wf() && r == #[trigger] fixed_point(e.total(), NTP_EPOCH_OFFSET as nat),
{
    let e = clock.elapsed();
    ntp_epoch_at(e)
}

/// Later times have timestamps that are not smaller, as long as the seconds do not wrap.
pub proof fn law_timestamps_monotone(earlier: nat, later: nat, offset: nat)
    requires
        earlier <= later,
        later / 1_000_000_000 + offset < 0x1_0000_0000,
    ensures
        fixed_point(earlier, offset) <= fixed_point(later, offset),
{
    let (a, b) = (earlier / 1_000_000_000, later / 1_000_000_000);
    let (x, y) = (earlier % 1_000_000_000, later % 1_000_000_000);
    assert(earlier == a * 1_000_000_000 + x && later == b * 1_000_000_000 + y);
    assert(x * 0x1_0000_0000 / 1_000_000_000 < 0x1_0000_0000);
    if a == b {
        assert(x <= y);
    } else {
        assert(a < b);
    }
}

proof fn lemma_fixed_point(total: nat, offset: nat)
    requires
        total / 1_000_000_000 + offset < 0x1_0000_0000,
    ensures
        fixed_point(total, offset) == total * 0x1_0000_0000 / 1_000_000_000 + offset
            * 0x1_0000_0000,
{
    let (a, x) = (total / 1_000_000_000, total % 1_000_000_000);
    assert(total == a * 1_000_000_000 + x);
    assert(total * 0x1_0000_0000 == a * 0x1_0000_0000 * 1_000_000_000 + x * 0x1_0000_0000);
}

/// A playout bias sets a timestamp ahead by the bias in fixed point, give or take the last place,
/// as long as the seconds do not wrap.
pub proof fn law_bias_advances(total: nat, bias: nat, offset: nat)
    requires
        (total + bias) / 1_000_000_000 + offset < 0x1_0000_0000,
    ensures
        fixed_point(total, offset) + fixed_point(bias, 0) <= fixed_point(total + bias, offset)
            <= fixed_point(total, offset) + fixed_point(bias, 0) + 1,
{
    lemma_fixed_point(total, offset);
    lemma_fixed_point(bias, 0);
    lemma_fixed_point(total + bias, offset);
}

/// A timestamp from the NTP epoch on is ahead of one from the start of the session, taken no
/// later, by at least the epoch offset, so it is the larger, as long as the seconds do not wrap.
pub proof fn law_epoch_ahead_of_boot(boot: nat, epoch: nat)
    requires
        boot <= epoch,
        epoch / 1_000_000_000 + NTP_EPOCH_OFFSET < 0x1_0000_0000,
    ensures
        fixed_point(epoch, NTP_EPOCH_OFFSET as nat) >= fixed_point(boot, 0) + NTP_EPOCH_OFFSET
            * 0x1_0000_0000,
        fixed_point(epoch, NTP_EPOCH_OFFSET as nat) > fixed_point(boot, 0),
{
    law_timestamps_monotone(boot, epoch, 0);
}

/// The upper half of a timestamp counts seconds from the start of its epoch, and the lower half is
/// the part of a second that has passed, in steps of which 2^32 make one second. The epoch begins
/// seventy years, with seventeen leap days, before 1970.
pub proof fn law_seconds_and_fraction(secs: nat, nanos: nat, offset: nat)
    requires
        nanos < 1_000_000_000,
        secs + offset < 0x1_0000_0000,
    ensures
        ({
            let t = fixed_point(secs * 1_000_000_000 + nanos, offset);
            let part = t % 0x1_0000_0000;
            &&& t / 0x1_0000_0000 == secs + offset
            &&& part * 1_000_000_000 <= nanos * 0x1_0000_0000
            &&& nanos * 0x1_0000_0000 < (part + 1) * 1_000_000_000
        }),
        NTP_EPOCH_OFFSET == (70 * 365 + 17) * 86400,
{
    let total = secs * 1_000_000_000 + nanos;
    assert(total / 1_000_000_000 == secs && total % 1_000_000_000 == nanos);
    let part = nanos * 0x1_0000_0000 / 1_000_000_000;
    assert(part < 0x1_0000_0000);
    let t = fixed_point(total, offset);
    assert(t == (secs + offset) * 0x1_0000_0000 + part);
}
} // verus!
