//! How far a transfer has come, and when that is worth telling the user.

use crate::rounding::{
    a_small_quotient_stays_near, as_double, hundredfold, hundredfold_keeps_order, nearest,
    nearest_double, nearest_keeps_order, one_as_double, one_hundred_as_double,
    one_hundred_times_stays_near, power_of_two, truncated, truncation_keeps_order,
    whole_as_double, whole_keeps_order, whole_stays_positive,
};
use vstd::arithmetic::power2::{
    lemma2_to64, lemma_pow2_adds, lemma_pow2_pos, lemma_pow2_strictly_increases, pow2,
};
use vstd::prelude::*;

verus! {

/// Progress is told at most this often, in nanoseconds, while the percentage
/// stands still.
pub const PROGRESS_THROTTLE: u64 = 80_000_000;

/// `done` of `total` in percent: the quotient times one hundred, each step in
/// double precision, cut to a whole number. Nothing of nothing is complete.
pub open spec fn percent(done: nat, total: nat) -> nat {
    if total == 0 {
        100
    } else {
        let ratio = nearest_double(whole_as_double(done), whole_as_double(total));
        let whole = truncated(hundredfold(ratio));
        if whole <= u32::MAX {
            whole
        } else {
            u32::MAX as nat
        }
    }
}

/// `done` of `total` in percent.
pub fn pct_of(done: u64, total: u64) -> (pct: u32)
    ensures
        pct == percent(done as nat, total as nat),
{
    if total == 0 {
        return 100;
    }
    let ratio = nearest(as_double(done), as_double(total));
    let product = nearest(100 * ratio.mantissa as u128, 1);
    let exponent: i32 = product.exponent + ratio.exponent;
    if product.mantissa == 0 {
        proof {
            if exponent >= 0 {
                assert(0 * pow2(exponent as nat) == 0);
            } else {
                lemma_pow2_pos((-exponent) as nat);
                assert(0nat / pow2((-exponent) as nat) == 0) by (nonlinear_arith)
                    requires
                        pow2((-exponent) as nat) > 0,
                ;
            }
        }
        return 0;
    }
    if exponent >= 0 {
        proof {
            lemma_pow2_pos(exponent as nat);
            let m = product.mantissa;
            let p = pow2(exponent as nat);
            assert(m * p >= m) by (nonlinear_arith)
                requires
                    p >= 1,
            ;
        }
        return u32::MAX;
    }
    let shift: u32 = (-exponent) as u32;
    if shift >= 64 {
        proof {
            lemma2_to64();
            if shift > 64 {
                lemma_pow2_strictly_increases(64, shift as nat);
            }
            let m = product.mantissa as nat;
            let p = pow2(shift as nat);
            assert(m / p == 0) by (nonlinear_arith)
                requires
                    m < p,
            ;
        }
        return 0;
    }
    proof {
        lemma_pow2_pos(shift as nat);
    }
    let whole: u64 = product.mantissa / power_of_two(shift);
    if whole <= u32::MAX as u64 {
        whole as u32
    } else {
        u32::MAX
    }
}

/// The bytes of one transfer: how many there are, how many have passed, and
/// what was told last.
#[derive(Clone, Copy, Debug, PartialEq, Eq, Structural)]
pub struct Meter {
    pub total: u64,
    pub done: u64,
    /// The percentage that was told last.
    pub last_pct: u32,
    /// When it was told, in nanoseconds.
    pub last_emit: u64,
    /// How many bytes had passed by then.
    pub last_emit_bytes: u64,
}

/// One piece of progress that is told.
#[derive(Clone, Copy, Debug, PartialEq, Eq, Structural)]
pub struct Tick {
    pub pct: u32,
    pub is_done: bool,
    /// The bytes that have passed since the last piece of progress.
    pub bytes_since: u64,
    /// The nanoseconds that have passed since then.
    pub elapsed: u64,
}

/// `a - b`, or zero where `b` is the greater.
pub open spec fn minus(a: u64, b: u64) -> u64 {
    if a >= b {
        (a - b) as u64
    } else {
        0
    }
}

impl Meter {
    /// Nothing has passed yet of `total` bytes.
    pub fn new(total: u64, now: u64) -> (meter: Meter)
        ensures
            meter == (Meter {
                total,
                done: 0,
                last_pct: 0,
                last_emit: now,
                last_emit_bytes: 0,
            }),
    {
        Meter { total, done: 0, last_pct: 0, last_emit: now, last_emit_bytes: 0 }
    }

    /// `n` more bytes have passed.
    pub open spec fn counted(self, n: nat) -> Meter {
        Meter { done: (self.done + n) as u64, ..self }
    }

    /// Whether progress is told at `now`: the percentage has grown or is
    /// complete, or the last piece of progress is old enough.
    pub open spec fn is_due(self, now: u64) -> bool {
        let pct = percent(self.done as nat, self.total as nat);
        ||| pct > self.last_pct
        ||| pct == 100
        ||| minus(now, self.last_emit) >= PROGRESS_THROTTLE
    }

    /// The progress that is told at `now`.
    pub open spec fn tick(self, now: u64) -> Tick {
        let pct = percent(self.done as nat, self.total as nat);
        Tick {
            pct: pct as u32,
            is_done: pct == 100,
            bytes_since: minus(self.done, self.last_emit_bytes),
            elapsed: minus(now, self.last_emit),
        }
    }

    /// The meter once progress has been told at `now`.
    pub open spec fn told(self, now: u64) -> Meter {
        Meter {
            last_pct: percent(self.done as nat, self.total as nat) as u32,
            last_emit: now,
            last_emit_bytes: self.done,
            ..self
        }
    }

    /// Counts `n` bytes of which no progress is told: they were there before.
    pub fn skip(&mut self, n: u64)
        requires
            old(self).done + n <= u64::MAX,
        ensures
            *final(self) == old(self).counted(n as nat),
    {
        self.done = self.done + n;
    }

    /// Counts `n` bytes that have passed by `now`, and gives the progress to
    /// tell, if it is time to tell some.
    pub fn advance(&mut self, n: u64, now: u64) -> (tick: Option<Tick>)
        requires
            old(self).done + n <= u64::MAX,
        ensures
            ({
                let counted = old(self).counted(n as nat);
                if counted.is_due(now) {
                    tick == Some(counted.tick(now)) && *final(self) == counted.told(now)
                } else {
                    tick is None && *final(self) == counted
                }
            }),
    {
        self.done = self.done + n;
        let pct: u32 = pct_of(self.done, self.total);
        let elapsed: u64 = now.saturating_sub(self.last_emit);
        if pct > self.last_pct || pct == 100 || elapsed >= PROGRESS_THROTTLE {
            let bytes_since: u64 = self.done.saturating_sub(self.last_emit_bytes);
            self.last_pct = pct;
            self.last_emit = now;
            self.last_emit_bytes = self.done;
            Some(Tick { pct, is_done: pct == 100, bytes_since, elapsed })
        } else {
            None
        }
    }
}

/// Progress does not go back: more bytes are no smaller percentage.
pub proof fn progress_does_not_go_back(a: nat, b: nat, total: nat)
    requires
        a <= b,
    ensures
        percent(a, total) <= percent(b, total),
{
    if total > 0 {
        let x = whole_as_double(a);
        let y = whole_as_double(b);
        let t = whole_as_double(total);
        whole_keeps_order(a, b);
        whole_stays_positive(total);
        assert(x * t <= y * t) by (nonlinear_arith)
            requires
                x <= y,
        ;
        nearest_keeps_order(x, t, y, t);
        let p = nearest_double(x, t);
        let q = nearest_double(y, t);
        hundredfold_keeps_order(p, q);
        truncation_keeps_order(hundredfold(p), hundredfold(q));
    }
}

/// All of a transfer is one hundred percent of it.
pub proof fn everything_is_one_hundred_percent(total: nat)
    ensures
        percent(total, total) == 100,
{
    if total > 0 {
        let t = whole_as_double(total);
        whole_stays_positive(total);
        one_as_double(t);
        one_hundred_as_double();
    }
}

/// As long as no more bytes have passed than there are, progress is at most one
/// hundred percent.
pub proof fn progress_is_at_most_one_hundred_percent(done: nat, total: nat)
    requires
        done <= total,
    ensures
        percent(done, total) <= 100,
{
    progress_does_not_go_back(done, total, total);
    everything_is_one_hundred_percent(total);
}

/// When the last byte passes, the user is told that the transfer is complete,
/// however short the time since the last piece of progress is.
pub proof fn the_last_byte_is_told(meter: Meter, n: nat, now: u64)
    requires
        meter.done + n == meter.total,
    ensures
        meter.counted(n).is_due(now),
        meter.counted(n).tick(now).is_done,
        meter.counted(n).tick(now).pct == 100,
        meter.counted(n).told(now).last_pct == 100,
{
    everything_is_one_hundred_percent(meter.total as nat);
}

/// The percentage is the percentage: so many hundredths of the whole have passed, and not one
/// more. The whole is up to sixteen tebibytes.
pub proof fn so_many_hundredths_have_passed(done: nat, total: nat)
    requires
        done <= total,
        0 < total <= 0x1000_0000_0000,
    ensures
        percent(done, total) * total <= 100 * done,
        100 * done <= (percent(done, total) + 1) * total,
{
    progress_is_at_most_one_hundred_percent(done, total);
    if done == 0 {
        nothing_is_zero_percent(total);
        assert(0 * total == 0);
    } else {
        let x = nearest_double(done, total);
        let y = hundredfold(x);
        a_small_quotient_stays_near(done, total);
        one_hundred_times_stays_near(x);
        let scale = pow2((-x.exponent) as nat);
        let f = pow2((y.exponent - x.exponent) as nat);
        let g = pow2((-y.exponent) as nat);
        lemma_pow2_adds((y.exponent - x.exponent) as nat, (-y.exponent) as nat);
        lemma_pow2_pos((-y.exponent) as nat);
        lemma_pow2_pos((y.exponent - x.exponent) as nat);
        assert(scale == f * g);
        let m = x.mantissa as int;
        let p = y.mantissa as int;
        let q = (y.mantissa / g) as int;
        assert(q == truncated(y));
        vstd::arithmetic::div_mod::lemma_fundamental_div_mod(p, g as int);
        assert(q * g == g * q && (q + 1) * g == g * q + g) by (nonlinear_arith);
        assert(0 <= p % (g as int) < g);
        hundredths_are_bounded(
            done as int,
            total as int,
            m,
            p,
            q,
            f as int,
            g as int,
            scale as int,
        );
    }
}

/// Nothing of something is no percent of it.
pub proof fn nothing_is_zero_percent(total: nat)
    requires
        total > 0,
    ensures
        percent(0, total) == 0,
{
    let x = nearest_double(0, whole_as_double(total));
    let y = hundredfold(x);
    assert(y.mantissa == 0 && y.exponent == 0);
    assert(0 * pow2(0) == 0);
}

/// What is left of the roundings when the percentage is cut to a whole number.
proof fn hundredths_are_bounded(
    a: int,
    t: int,
    m: int,
    p: int,
    q: int,
    f: int,
    g: int,
    scale: int,
)
    requires
        0 < t <= 0x1000_0000_0000,
        0x10_0000_0000_0000 <= scale == f * g,
        0 < f <= 128,
        0 < g,
        -t <= 2 * (m * t - a * scale) <= t,
        -f <= 2 * (p * f - 100 * m) <= f,
        q * g <= p < (q + 1) * g,
    ensures
        q * t <= 100 * a <= (q + 1) * t,
{
    assert(q * scale <= p * f && p * f < (q + 1) * scale) by (nonlinear_arith)
        requires
            scale == f * g,
            f > 0,
            q * g <= p < (q + 1) * g,
    ;
    let pf = p * f;
    assert(100 * m - 64 <= pf <= 100 * m + 64);
    assert(pf * t <= (100 * m + 64) * t && (100 * m - 64) * t <= pf * t) by (nonlinear_arith)
        requires
            t > 0,
            100 * m - 64 <= pf <= 100 * m + 64,
    ;
    assert((100 * m + 64) * t == 100 * (m * t) + 64 * t && (100 * m - 64) * t == 100 * (m * t)
        - 64 * t) by (nonlinear_arith);
    let e = a * scale;
    assert(100 * e - 114 * t <= pf * t <= 100 * e + 114 * t);
    assert(114 * t < scale);
    assert((q * scale) * t <= pf * t && pf * t < ((q + 1) * scale) * t) by (nonlinear_arith)
        requires
            t > 0,
            q * scale <= pf < (q + 1) * scale,
    ;
    assert((q * scale) * t == (q * t) * scale) by (nonlinear_arith);
    assert(((q + 1) * scale) * t == ((q + 1) * t) * scale) by (nonlinear_arith);
    assert(100 * e == (100 * a) * scale) by (nonlinear_arith)
        requires
            e == a * scale,
    ;
    let low = q * t;
    let high = (q + 1) * t;
    let n = 100 * a;
    assert(low * scale < n * scale + scale);
    assert(high * scale > n * scale - scale);
    assert(low <= n) by (nonlinear_arith)
        requires
            low * scale < n * scale + scale,
            scale > 0,
    ;
    assert(n <= high) by (nonlinear_arith)
        requires
            high * scale > n * scale - scale,
            scale > 0,
    ;
}

/// Progress is told if and only if the percentage has grown, or is complete, or the last piece
/// of progress is eighty milliseconds old. What is told is what has passed since the last piece
/// of progress and how long that took, and the next count begins there.
pub proof fn progress_is_told_in_time(meter: Meter, n: nat, now: u64)
    requires
        meter.done + n <= u64::MAX,
    ensures
        ({
            let counted = meter.counted(n);
            let pct = percent((meter.done + n) as nat, meter.total as nat);
            let tick = counted.tick(now);
            let told = counted.told(now);
            &&& counted.done == meter.done + n && counted.total == meter.total
            &&& counted.last_pct == meter.last_pct && counted.last_emit == meter.last_emit
            &&& counted.last_emit_bytes == meter.last_emit_bytes
            &&& counted.is_due(now) <==> pct > meter.last_pct || pct == 100 || now
                - meter.last_emit >= 80_000_000
            &&& tick.pct == pct
            &&& tick.is_done <==> pct == 100
            &&& meter.last_emit_bytes <= meter.done ==> tick.bytes_since == meter.done + n
                - meter.last_emit_bytes
            &&& meter.last_emit <= now ==> tick.elapsed == now - meter.last_emit
            &&& now < meter.last_emit ==> tick.elapsed == 0
            &&& told.done == counted.done && told.total == counted.total
            &&& told.last_pct == pct && told.last_emit == now
            &&& told.last_emit_bytes == meter.done + n
        }),
{
}

/// Bytes can be counted at once or one lot after the other.
pub proof fn bytes_add_up(meter: Meter, a: nat, b: nat)
    requires
        meter.done + a + b <= u64::MAX,
    ensures
        meter.counted(a).counted(b) == meter.counted(a + b),
{
}

} // verus!
