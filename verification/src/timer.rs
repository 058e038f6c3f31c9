// Busy-wait delays on the free-running system timer: the tick at which a delay ends.
use vstd::prelude::*;

verus! {

/// Units per second of a delay given in nanoseconds.
pub const NANOS_PER_SEC: u64 = 1_000_000_000;
/// Units per second of a delay given in microseconds.
pub const MICROS_PER_SEC: u64 = 1_000_000;
/// Units per second of a delay given in milliseconds.
pub const MILLIS_PER_SEC: u64 = 1_000;

/// `a / b` rounded up.
pub open spec fn ceil_div(a: int, b: int) -> int {
    (a + b - 1) / b
}

/// The end tick of a delay (see `delay_end_ticks`).
pub open spec fn delay_end_spec(start: int, amount: int, ticks_per_sec: int, units_per_sec: int) -> int {
    let t = start + ceil_div(amount * ticks_per_sec, units_per_sec);
    if t > u64::MAX { u64::MAX as int } else { t }
}

/// The tick at which a delay of `amount` units (`units_per_sec` of them in a second)
/// started at tick `start` ends: the delay in ticks is rounded up, so the wait is never
/// shorter than asked, and the end saturates at the largest tick.
pub fn delay_end_ticks(start: u64, amount: u32, ticks_per_sec: u64, units_per_sec: u64) -> (end: u64)
    requires
        units_per_sec > 0,
        amount * ticks_per_sec <= u64::MAX,
    ensures
        end == delay_end_spec(start as int, amount as int, ticks_per_sec as int, units_per_sec as int),
{
    let p: u64 = amount as u64 * ticks_per_sec;
    let q: u64 = p / units_per_sec;
    let r: u64 = p % units_per_sec;
    proof {
        let pi = p as int;
        let d = units_per_sec as int;
        vstd::arithmetic::div_mod::lemma_fundamental_div_mod(pi, d);
        assert(pi == q * d + r) by (nonlinear_arith)
            requires
                pi == d * (pi / d) + pi % d,
                q == pi / d,
                r == pi % d,
        ;
        if r != 0 {
            assert(q < u64::MAX) by (nonlinear_arith)
                requires
                    pi == q * d + r,
                    d >= 2,
                    0 <= r < d,
                    pi <= u64::MAX,
                    q >= 0,
            ;
            assert(pi + d - 1 == (q + 1) * d + (r - 1)) by (nonlinear_arith)
                requires
                    pi == q * d + r,
            ;
            vstd::arithmetic::div_mod::lemma_fundamental_div_mod_converse(pi + d - 1, d, q as int + 1, r as int - 1);
        } else {
            assert(pi + d - 1 == q * d + (d - 1)) by (nonlinear_arith)
                requires
                    pi == q * d + r,
                    r == 0,
            ;
            vstd::arithmetic::div_mod::lemma_fundamental_div_mod_converse(pi + d - 1, d, q as int, d - 1);
        }
    }
    let delta: u64 = if r != 0 { q + 1 } else { q };
    assert(delta == ceil_div(p as int, units_per_sec as int));
    if start > u64::MAX - delta {
        u64::MAX
    } else {
        start + delta
    }
}

/// A delay is never shorter than asked: unless the end saturates at the largest tick,
/// at least `amount * ticks_per_sec / units_per_sec` ticks pass (as an exact fraction),
/// and less than one tick more.
pub proof fn lemma_delay_not_shorter(start: int, amount: int, ticks_per_sec: int, units_per_sec: int)
    requires
        0 <= start,
        0 <= amount,
        0 <= ticks_per_sec,
        units_per_sec > 0,
        delay_end_spec(start, amount, ticks_per_sec, units_per_sec) < u64::MAX,
    ensures
        (delay_end_spec(start, amount, ticks_per_sec, units_per_sec) - start) * units_per_sec >= amount * ticks_per_sec,
        (delay_end_spec(start, amount, ticks_per_sec, units_per_sec) - start - 1) * units_per_sec < amount * ticks_per_sec,
{
    let p = amount * ticks_per_sec;
    let d = units_per_sec;
    let c = ceil_div(p, d);
    assert(p >= 0) by (nonlinear_arith)
        requires
            0 <= amount,
            0 <= ticks_per_sec,
            p == amount * ticks_per_sec,
    ;
    vstd::arithmetic::div_mod::lemma_fundamental_div_mod(p + d - 1, d);
    let r = (p + d - 1) % d;
    assert(p + d - 1 == d * c + r);
    assert(c * d >= p) by (nonlinear_arith)
        requires
            p + d - 1 == d * c + r,
            0 <= r < d,
    ;
    assert((c - 1) * d < p) by (nonlinear_arith)
        requires
            p + d - 1 == d * c + r,
            0 <= r,
    ;
    assert(delay_end_spec(start, amount, ticks_per_sec, units_per_sec) - start == c);
}

} // verus!
