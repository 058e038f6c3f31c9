// Deep sleep: holding the back button puts the watch to sleep; the software clock is
// carried across in the always-on RTC timer, in microseconds.
use vstd::prelude::*;

verus! {

pub const WAKE_RELEASE_POLL_MS: u32 = 10;
pub const WAKE_RELEASE_TIMEOUT_MS: u32 = 3000;
pub const POST_RELEASE_DELAY_MS: u32 = 50;

/// Tracks how long button 1 has been held; returns whether the hold is long enough to
/// go to sleep.
pub fn sleep_hold_update(hold_start: &mut Option<u64>, now_ms: u64, btn1_down: bool, sleep_hold_ms: u64) -> (sleep: bool)
    ensures
        !btn1_down ==> *final(hold_start) == None::<u64> && !sleep,
        btn1_down ==> *final(hold_start) == Some(match *old(hold_start) {
            Some(t) => t,
            None => now_ms,
        }),
        btn1_down ==> sleep == ({
            let t0 = final(hold_start)->0;
            (if now_ms >= t0 { now_ms - t0 } else { 0 }) >= sleep_hold_ms
        }),
{
    if btn1_down && hold_start.is_none() {
        *hold_start = Some(now_ms);
    }
    if !btn1_down {
        *hold_start = None;
    }
    match *hold_start {
        Some(t0) => now_ms.saturating_sub(t0) >= sleep_hold_ms && btn1_down,
        None => false,
    }
}

/// The RTC time to store before sleeping: the clock's whole seconds, plus the
/// sub-second part of the time the RTC ran since boot.
pub fn rtc_time_to_save_us(clock_secs: u64, rtc_now_us: u64, rtc_boot_time_us: u64) -> (r: u64)
    requires
        clock_secs * 1_000_000 + 999_999 <= u64::MAX,
    ensures
        r == clock_secs * 1_000_000 + (if rtc_now_us >= rtc_boot_time_us { rtc_now_us - rtc_boot_time_us } else { 0 }) % 1_000_000,
{
    let elapsed = rtc_now_us.saturating_sub(rtc_boot_time_us);
    clock_secs * 1_000_000 + (elapsed % 1_000_000)
}

/// The clock value restored after waking: the RTC's whole seconds, cut to 32 bits.
pub fn restored_clock_secs(rtc_time_us: u64) -> (r: u32)
    ensures
        r == (rtc_time_us / 1_000_000) % 0x1_0000_0000,
{
    let s = rtc_time_us / 1_000_000;
    let r = s as u32;
    assert(r == s % 0x1_0000_0000) by (bit_vector)
        requires
            r == s as u32,
    ;
    r
}

/// One poll while waiting for a button to be released after `waited_ms`: returns the
/// time waited after the next poll interval, or `None` when waiting ends (the button is
/// up, or the timeout is reached).
pub fn release_wait_step(waited_ms: u32, released: bool) -> (r: Option<u32>)
    ensures
        released ==> r is None,
        !released ==> ({
            let w = if waited_ms + 10 > u32::MAX { u32::MAX as int } else { waited_ms + 10 };
            r == (if w >= 3000 { None::<u32> } else { Some(w as u32) })
        }),
{
    if released {
        return None;
    }
    let w = waited_ms.saturating_add(WAKE_RELEASE_POLL_MS);
    if w >= WAKE_RELEASE_TIMEOUT_MS {
        None
    } else {
        Some(w)
    }
}

} // verus!
