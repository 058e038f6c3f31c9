// Software wall clock and the four-digit HH:MM editor of the watch page.
//
// The clock is a base value in seconds plus the system-timer tick count at
// which it was set; reading it adds the whole seconds elapsed since then.
use vstd::prelude::*;

verus! {

pub const SECS_PER_DAY: u64 = 86_400;

/// The HH:MM editor: four digits and the one being edited.
#[derive(Copy, Clone, Debug, PartialEq, Eq)]
pub struct ClockEditState {
    /// Tens of hours, hours, tens of minutes, minutes.
    pub digits: [u8; 4],
    /// The active digit, 0 to 3.
    pub idx: u8,
}

/// Last drawn end points of the second, minute and hour hands.
#[derive(Copy, Clone, Debug, PartialEq, Eq)]
pub struct HandCache {
    pub sec: Option<(i32, i32)>,
    pub min: Option<(i32, i32)>,
    pub hour: Option<(i32, i32)>,
}

impl HandCache {
    pub open spec fn is_empty(self) -> bool {
        self.sec is None && self.min is None && self.hour is None
    }

    pub fn new() -> (r: Self)
        ensures
            r.is_empty(),
    {
        HandCache { sec: None, min: None, hour: None }
    }
}

/// Everything the clock keeps between calls.
pub struct ClockState {
    pub base_secs: u64,
    pub base_ticks: u64,
    pub edit: Option<ClockEditState>,
    pub hand_cache: HandCache,
    pub watch_face_dirty: bool,
}

/// Largest value each digit of the editor may take: `2`, `9`, `5`, `9`.
/// (The hours digit is limited to `3` only while it is being edited after a `2`.)
pub open spec fn digit_cap(i: int) -> int {
    if i == 0 { 2 } else if i == 2 { 5 } else { 9 }
}

/// The range the active digit wraps around in while it is adjusted.
pub open spec fn digit_range(ed: ClockEditState) -> (int, int) {
    let i = ed.idx as int;
    if i == 0 {
        (0, 2)
    } else if i == 1 {
        if ed.digits[0] == 2 { (0, 3) } else { (0, 9) }
    } else if i == 2 {
        (0, 5)
    } else {
        (0, 9)
    }
}

/// An editor state that the watch can reach: index in range, digits within their caps.
pub open spec fn edit_wf(ed: ClockEditState) -> bool {
    &&& ed.idx <= 3
    &&& forall|i: int| 0 <= i < 4 ==> ed.digits[i] <= #[trigger] digit_cap(i)
}

impl ClockState {
    pub open spec fn wf(&self) -> bool {
        self.edit matches Some(ed) ==> edit_wf(ed)
    }
}

/// Seconds shown by the clock at tick `now`: the base plus whole elapsed seconds,
/// saturating at `u64::MAX`; ticks before the base count as none.
pub open spec fn clock_seconds_spec(c: ClockState, now: u64, tps: u64) -> int {
    let elapsed: int = if now >= c.base_ticks { (now - c.base_ticks) / (tps as int) } else { 0 };
    if c.base_secs + elapsed > u64::MAX { u64::MAX as int } else { c.base_secs + elapsed }
}

/// The editor state that shows the time of day of `secs` as HH:MM.
pub open spec fn edit_from_secs(secs: int) -> ClockEditState {
    let mins = secs / 60;
    let h = (mins / 60) % 24;
    let m = mins % 60;
    ClockEditState { digits: [(h / 10) as u8, (h % 10) as u8, (m / 10) as u8, (m % 10) as u8], idx: 0 }
}

/// The clock value that committing the editor's digits sets.
pub open spec fn edit_commit_secs(ed: ClockEditState) -> int {
    let hours = ed.digits[0] * 10 + ed.digits[1];
    let mins = ed.digits[2] * 10 + ed.digits[3];
    (hours * 60 + mins) * 60
}

/// The active digit after adding `delta`, wrapped into its range.
pub open spec fn adjusted_digit(ed: ClockEditState, delta: int) -> int {
    let (lo, hi) = digit_range(ed);
    let d = ed.digits[ed.idx as int] + delta;
    if d > hi { lo } else if d < lo { hi } else { d }
}

/// The editor after adjusting its active digit by `delta` (`0` changes nothing).
pub open spec fn edit_adjust_spec(ed: ClockEditState, delta: int) -> ClockEditState {
    if delta == 0 {
        ed
    } else {
        let v = adjusted_digit(ed, delta) as u8;
        let i = ed.idx;
        ClockEditState {
            digits: [
                if i == 0 { v } else { ed.digits[0] },
                if i == 1 { v } else { ed.digits[1] },
                if i == 2 { v } else { ed.digits[2] },
                if i == 3 { v } else { ed.digits[3] },
            ],
            idx: ed.idx,
        }
    }
}

/// The "HH:MM" text of the time of day of `secs`, as ASCII bytes.
pub open spec fn hm_bytes(secs: int) -> Seq<u8> {
    let mins = secs / 60;
    let h = (mins / 60) % 24;
    let m = mins % 60;
    seq![(48 + h / 10) as u8, (48 + h % 10) as u8, 58u8, (48 + m / 10) as u8, (48 + m % 10) as u8]
}

pub fn new_clock_state() -> (r: ClockState)
    ensures
        r.wf(),
        r.base_secs == 0,
        r.base_ticks == 0,
        r.edit is None,
        r.hand_cache.is_empty(),
        !r.watch_face_dirty,
{
    ClockState { base_secs: 0, base_ticks: 0, edit: None, hand_cache: HandCache::new(), watch_face_dirty: false }
}

/// Sets the clock to `seconds` as of tick `now_ticks`; the hands are redrawn from scratch.
pub fn set_clock_seconds(clock: &mut ClockState, seconds: u32, now_ticks: u64)
    ensures
        final(clock).base_secs == seconds,
        final(clock).base_ticks == now_ticks,
        final(clock).hand_cache.is_empty(),
        final(clock).watch_face_dirty,
        final(clock).edit == old(clock).edit,
{
    clock.base_secs = seconds as u64;
    clock.base_ticks = now_ticks;
    clock.hand_cache = HandCache::new();
    clock.watch_face_dirty = true;
}

pub fn watch_edit_active(clock: &ClockState) -> (r: bool)
    ensures
        r == clock.edit is Some,
{
    clock.edit.is_some()
}

fn clock_now_seconds(clock: &ClockState, now_ticks: u64, ticks_per_second: u64) -> (r: u64)
    requires
        ticks_per_second > 0,
    ensures
        r == clock_seconds_spec(*clock, now_ticks, ticks_per_second),
{
    let elapsed = now_ticks.saturating_sub(clock.base_ticks) / ticks_per_second;
    clock.base_secs.saturating_add(elapsed)
}

/// Clock seconds at tick `now_ticks`, for a timer running at `ticks_per_second`.
pub fn get_clock_seconds(clock: &ClockState, now_ticks: u64, ticks_per_second: u64) -> (r: u64)
    requires
        ticks_per_second > 0,
    ensures
        r == clock_seconds_spec(*clock, now_ticks, ticks_per_second),
{
    clock_now_seconds(clock, now_ticks, ticks_per_second)
}

/// The clock seconds truncated to 32 bits.
pub fn clock_now_seconds_u32(clock: &ClockState, now_ticks: u64, ticks_per_second: u64) -> (r: u32)
    requires
        ticks_per_second > 0,
    ensures
        r == clock_seconds_spec(*clock, now_ticks, ticks_per_second) % 0x1_0000_0000,
{
    let s = clock_now_seconds(clock, now_ticks, ticks_per_second);
    let r = s as u32;
    assert(r == s % 0x1_0000_0000) by (bit_vector)
        requires
            r == s as u32,
    ;
    r
}

/// Opens the editor on the current time of day, first digit active.
pub fn watch_edit_start(clock: &mut ClockState, now_ticks: u64, ticks_per_second: u64)
    requires
        ticks_per_second > 0,
    ensures
        final(clock).edit == Some(edit_from_secs(clock_seconds_spec(*old(clock), now_ticks, ticks_per_second))),
        final(clock).wf(),
        final(clock).base_secs == old(clock).base_secs,
        final(clock).base_ticks == old(clock).base_ticks,
        final(clock).hand_cache == old(clock).hand_cache,
        final(clock).watch_face_dirty == old(clock).watch_face_dirty,
{
    let now = clock_now_seconds(clock, now_ticks, ticks_per_second);
    let total_mins = now / 60;
    let h = ((total_mins / 60) % 24) as u8;
    let m = (total_mins % 60) as u8;
    let digits = [h / 10, h % 10, m / 10, m % 10];
    let ed = ClockEditState { digits, idx: 0 };
    proof {
        assert(digits@ =~= edit_from_secs(now as int).digits@);
        assert(ed.digits[0] <= digit_cap(0));
        assert(ed.digits[1] <= digit_cap(1));
        assert(ed.digits[2] <= digit_cap(2));
        assert(ed.digits[3] <= digit_cap(3));
    }
    clock.edit = Some(ed);
}

/// Closes the editor without changing the clock.
pub fn watch_edit_cancel(clock: &mut ClockState)
    ensures
        final(clock).edit is None,
        final(clock).base_secs == old(clock).base_secs,
        final(clock).base_ticks == old(clock).base_ticks,
        final(clock).hand_cache == old(clock).hand_cache,
        final(clock).watch_face_dirty == old(clock).watch_face_dirty,
{
    clock.edit = None;
}

/// Moves the editor to the next digit; on the last digit, sets the clock to the
/// edited HH:MM (as of tick `now_ticks`) and closes the editor.
pub fn watch_edit_advance(clock: &mut ClockState, now_ticks: u64)
    ensures
        match old(clock).edit {
            None => *final(clock) == *old(clock),
            Some(ed) => if ed.idx < 3 {
                &&& final(clock).edit == Some(ClockEditState { digits: ed.digits, idx: (ed.idx + 1) as u8 })
                &&& final(clock).base_secs == old(clock).base_secs
                &&& final(clock).base_ticks == old(clock).base_ticks
                &&& final(clock).hand_cache == old(clock).hand_cache
                &&& final(clock).watch_face_dirty == old(clock).watch_face_dirty
            } else {
                &&& final(clock).edit is None
                &&& final(clock).base_secs == edit_commit_secs(ed)
                &&& final(clock).base_ticks == now_ticks
                &&& final(clock).hand_cache.is_empty()
                &&& final(clock).watch_face_dirty
            },
        },
        old(clock).wf() ==> final(clock).wf(),
{
    match clock.edit {
        Some(ed) => {
            if ed.idx < 3 {
                clock.edit = Some(ClockEditState { digits: ed.digits, idx: ed.idx + 1 });
            } else {
                let hours = (ed.digits[0] as u32) * 10 + (ed.digits[1] as u32);
                let mins = (ed.digits[2] as u32) * 10 + (ed.digits[3] as u32);
                let secs = (hours * 60 + mins) * 60;
                set_clock_seconds(clock, secs, now_ticks);
                clock.edit = None;
            }
        },
        None => {},
    }
}

/// Whether adjusting by `delta` stays clear of `i32` overflow.
pub open spec fn edit_adjust_ok(clock: ClockState, delta: int) -> bool {
    clock.edit matches Some(ed) ==> ed.idx < 4 && ed.digits[ed.idx as int] + delta <= i32::MAX
}

/// Adds `delta` to the active digit, wrapping past either end of its range.
pub fn watch_edit_adjust(clock: &mut ClockState, delta: i32)
    requires
        edit_adjust_ok(*old(clock), delta as int),
    ensures
        final(clock).edit == (match old(clock).edit {
            Some(ed) => Some(edit_adjust_spec(ed, delta as int)),
            None => None,
        }),
        final(clock).base_secs == old(clock).base_secs,
        final(clock).base_ticks == old(clock).base_ticks,
        final(clock).hand_cache == old(clock).hand_cache,
        final(clock).watch_face_dirty == old(clock).watch_face_dirty,
        old(clock).wf() ==> final(clock).wf(),
        delta != 0 ==> (final(clock).edit matches Some(ed) ==> ({
            let (lo, hi) = digit_range(old(clock).edit->0);
            lo <= ed.digits[ed.idx as int] <= hi
        })),
{
    if delta == 0 {
        return;
    }
    match clock.edit {
        Some(ed) => {
            let idx = ed.idx as usize;
            let mut digit = ed.digits[idx] as i32;
            let (min_d, max_d): (i32, i32) = if idx == 0 {
                (0, 2)
            } else if idx == 1 {
                if ed.digits[0] == 2 { (0, 3) } else { (0, 9) }
            } else if idx == 2 {
                (0, 5)
            } else {
                (0, 9)
            };
            digit = digit + delta;
            if digit > max_d {
                digit = min_d;
            }
            if digit < min_d {
                digit = max_d;
            }
            let mut digits = ed.digits;
            digits[idx] = digit as u8;
            let ned = ClockEditState { digits, idx: ed.idx };
            proof {
                assert(ned.digits =~= edit_adjust_spec(ed, delta as int).digits);
                assert(ned == edit_adjust_spec(ed, delta as int));
                if edit_wf(ed) {
                    assert forall|i: int| 0 <= i < 4 implies ned.digits[i] <= #[trigger] digit_cap(i) by {
                        if i != ed.idx as int {
                            assert(ned.digits[i] == ed.digits[i]);
                        }
                    }
                }
            }
            clock.edit = Some(ned);
        },
        None => {},
    }
}

pub fn current_edit_state(clock: &ClockState) -> (r: Option<ClockEditState>)
    ensures
        r == clock.edit,
{
    clock.edit
}

/// Writes the clock's time of day at tick `now_ticks` into `buf` as "HH:MM" and returns it.
pub fn format_clock_hm<'a>(clock: &ClockState, now_ticks: u64, ticks_per_second: u64, buf: &'a mut [u8; 5]) -> (r: &'a str)
    requires
        ticks_per_second > 0,
    ensures
        final(buf)@ == hm_bytes(clock_seconds_spec(*clock, now_ticks, ticks_per_second)),
        r@ == hm_bytes(clock_seconds_spec(*clock, now_ticks, ticks_per_second)).map_values(|b: u8| b as char),
{
    let total_secs = clock_now_seconds(clock, now_ticks, ticks_per_second);
    let total_mins = total_secs / 60;
    let h = (total_mins / 60) % 24;
    let m = total_mins % 60;
    buf[0] = 48u8 + (h / 10) as u8;
    buf[1] = 48u8 + (h % 10) as u8;
    buf[2] = 58u8;
    buf[3] = 48u8 + (m / 10) as u8;
    buf[4] = 48u8 + (m % 10) as u8;
    proof {
        assert(buf@ =~= hm_bytes(total_secs as int));
    }
    match ascii_str(buf) {
        Some(s) => s,
        None => "??:??",
    }
}

/// `core::str::from_utf8` on the buffer: on bytes that are all ASCII it succeeds
/// and the text holds the same characters.
#[verifier::external_body]
fn ascii_str<'a>(buf: &'a [u8; 5]) -> (r: Option<&'a str>)
    ensures
        (forall|i: int| 0 <= i < 5 ==> buf[i] < 128) ==> (r is Some && r->0@ == buf@.map_values(|b: u8| b as char)),
{
    core::str::from_utf8(buf).ok()
}

/// Forgets the drawn hand positions so the next frame redraws all hands.
pub fn reset_hand_cache(clock: &mut ClockState)
    ensures
        final(clock).hand_cache.is_empty(),
        final(clock).edit == old(clock).edit,
        final(clock).base_secs == old(clock).base_secs,
        final(clock).base_ticks == old(clock).base_ticks,
        final(clock).watch_face_dirty == old(clock).watch_face_dirty,
{
    clock.hand_cache = HandCache::new();
}

/// Returns whether the watch face needs a redraw and clears the flag.
pub fn take_watch_face_dirty(clock: &mut ClockState) -> (r: bool)
    ensures
        r == old(clock).watch_face_dirty,
        !final(clock).watch_face_dirty,
        final(clock).edit == old(clock).edit,
        final(clock).hand_cache == old(clock).hand_cache,
        final(clock).base_secs == old(clock).base_secs,
        final(clock).base_ticks == old(clock).base_ticks,
{
    let dirty = clock.watch_face_dirty;
    if dirty {
        clock.watch_face_dirty = false;
    }
    dirty
}

pub fn mark_watch_face_dirty(clock: &mut ClockState)
    ensures
        final(clock).watch_face_dirty,
        final(clock).edit == old(clock).edit,
        final(clock).hand_cache == old(clock).hand_cache,
        final(clock).base_secs == old(clock).base_secs,
        final(clock).base_ticks == old(clock).base_ticks,
{
    clock.watch_face_dirty = true;
}

/// Closes the editor, forgets the hands and clears the redraw flag; the time is kept.
pub fn reset_clock_state(clock: &mut ClockState)
    ensures
        final(clock).edit is None,
        final(clock).hand_cache.is_empty(),
        !final(clock).watch_face_dirty,
        final(clock).base_secs == old(clock).base_secs,
        final(clock).base_ticks == old(clock).base_ticks,
{
    clock.edit = None;
    clock.hand_cache = HandCache::new();
    clock.watch_face_dirty = false;
}

/// Opening the editor and confirming its four digits unchanged sets the clock to the
/// current time of day, rounded down to the minute.
pub proof fn lemma_edit_roundtrip(secs: int)
    requires
        secs >= 0,
    ensures
        edit_wf(edit_from_secs(secs)),
        edit_commit_secs(edit_from_secs(secs)) == (secs / 60) % 1440 * 60,
{
    let mins = secs / 60;
    let h = (mins / 60) % 24;
    let m = mins % 60;
    vstd::arithmetic::div_mod::lemma_div_pos_is_pos(secs, 60);
    vstd::arithmetic::div_mod::lemma_mod_breakdown(mins, 60, 24);
    assert(mins % 1440 == 60 * h + m);
    let ed = edit_from_secs(secs);
    assert(ed.digits[0] == h / 10 && ed.digits[1] == h % 10 && ed.digits[2] == m / 10 && ed.digits[3] == m % 10);
    assert(ed.digits[0] <= digit_cap(0));
    assert(ed.digits[1] <= digit_cap(1));
    assert(ed.digits[2] <= digit_cap(2));
    assert(ed.digits[3] <= digit_cap(3));
    assert(h == (h / 10) * 10 + h % 10);
    assert(m == (m / 10) * 10 + m % 10);
}

/// The clock never runs backwards: a later tick reads at least as many seconds.
pub proof fn lemma_clock_monotonic(c: ClockState, t1: u64, t2: u64, tps: u64)
    requires
        tps > 0,
        t1 <= t2,
    ensures
        clock_seconds_spec(c, t1, tps) <= clock_seconds_spec(c, t2, tps),
{
    if t1 >= c.base_ticks {
        vstd::arithmetic::div_mod::lemma_div_is_ordered(t1 - c.base_ticks, t2 - c.base_ticks, tps as int);
    } else if t2 >= c.base_ticks {
        vstd::arithmetic::div_mod::lemma_div_pos_is_pos(t2 - c.base_ticks, tps as int);
    }
}

/// A clock set to `s` at some tick reads `s` at that tick.
pub proof fn lemma_set_then_read(c: ClockState, s: u32, now: u64, tps: u64)
    requires
        tps > 0,
        c.base_secs == s,
        c.base_ticks == now,
    ensures
        clock_seconds_spec(c, now, tps) == s,
{
}

/// The active digit wraps around exactly the values that keep HH:MM a time of day: from
/// 0, the tens of hours up to 2 (hours 0 to 23), the hour units up to 3 after a 2 and up to
/// 9 otherwise, the tens of minutes up to 5, the minute units up to 9.
pub proof fn lemma_digit_ranges(ed: ClockEditState, v: int)
    requires
        edit_wf(ed),
        0 <= v <= 9,
    ensures
        digit_range(ed).0 == 0,
        digit_range(ed).1 <= 9,
        ed.idx == 0 ==> (v <= digit_range(ed).1 <==> v * 10 < 24),
        ed.idx == 1 ==> (v <= digit_range(ed).1 <==> ed.digits[0] * 10 + v < 24),
        ed.idx == 2 ==> (v <= digit_range(ed).1 <==> v * 10 + ed.digits[3] < 60),
        ed.idx == 3 ==> (v <= digit_range(ed).1 <==> ed.digits[2] * 10 + v < 60),
{
    assert(ed.digits[0] <= digit_cap(0));
    assert(ed.digits[2] <= digit_cap(2));
    assert(ed.digits[3] <= digit_cap(3));
}

/// Adjusting by one steps the active digit to its neighbour within its range and wraps at
/// the ends (up from the top to 0, down from 0 to the top); the other digits and the
/// position stay.
pub proof fn lemma_adjust_steps(ed: ClockEditState)
    requires
        ed.idx <= 3,
        ed.digits[ed.idx as int] <= digit_range(ed).1,
    ensures
        ({
            let i = ed.idx as int;
            let d = ed.digits[i] as int;
            let hi = digit_range(ed).1;
            let up = edit_adjust_spec(ed, 1);
            let down = edit_adjust_spec(ed, -1);
            &&& up.digits[i] == (if d == hi { 0 } else { d + 1 })
            &&& down.digits[i] == (if d == 0 { hi } else { d - 1 })
            &&& up.idx == ed.idx && down.idx == ed.idx
            &&& forall|k: int| 0 <= k < 4 && k != i ==> up.digits[k] == ed.digits[k] && down.digits[k] == ed.digits[k]
        }),
{
}

/// The clock text is five ASCII bytes "HH:MM": two decimal digits of the hour of the day
/// (0 to 23), a colon, two decimal digits of the minute of the hour; the editor opened at
/// the same time starts on the same four digits.
pub proof fn lemma_hm_text(secs: int)
    requires
        secs >= 0,
    ensures
        ({
            let t = hm_bytes(secs);
            let ed = edit_from_secs(secs);
            &&& t.len() == 5
            &&& t[2] == 58
            &&& forall|i: int| 0 <= i < 5 && i != 2 ==> 48 <= #[trigger] t[i] <= 57
            &&& (t[0] - 48) * 10 + (t[1] - 48) == (secs / 3600) % 24
            &&& (t[3] - 48) * 10 + (t[4] - 48) == (secs / 60) % 60
            &&& t[0] == 48 + ed.digits[0] && t[1] == 48 + ed.digits[1]
            &&& t[3] == 48 + ed.digits[2] && t[4] == 48 + ed.digits[3]
        }),
{
    let mins = secs / 60;
    let h = (mins / 60) % 24;
    let m = mins % 60;
    vstd::arithmetic::div_mod::lemma_div_denominator(secs, 60, 60);
    assert(h == (h / 10) * 10 + h % 10);
    assert(m == (m / 10) * 10 + m % 10);
}

} // verus!
