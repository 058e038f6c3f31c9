// Decisions of the main loop: when to redraw, when to read the motion sensor, what a
// smash and a turn of the knob do, and when the hardware clock must be written.
// The loop itself (timers, buses, the panel) runs outside and hands in what it read.
use vstd::prelude::*;
use crate::brightness::{BrightnessState, brightness_adjust, clamp_pct};
use crate::time::{ClockState, edit_adjust_ok, edit_adjust_spec, watch_edit_active, watch_edit_adjust};
use crate::ui_state::{Dialog, Page, SettingsMenuState, UiState, WatchAppState, next_item_spec, prev_item_spec};

verus! {

/// Interval of the fallback sensor poll when no data-ready interrupt arrives.
pub const IMU_POLL_MS: u64 = 50;
/// Smashes needed on the Omnitrix page to trigger a transformation.
pub const SMASHES_TO_TRANSFORM: u8 = 1;

/// Settings of the main loop.
#[derive(Copy, Clone, Debug, PartialEq, Eq, Structural)]
pub struct RunConfig {
    /// Encoder steps per detent of the knob.
    pub detent_steps: i32,
    /// How long both buttons must be held to go to sleep.
    pub sleep_hold_ms: u64,
}

/// What the main loop remembers between iterations.
#[derive(Copy, Clone, Debug, PartialEq, Eq, Structural)]
pub struct LoopState {
    pub last_ui_state: UiState,
    pub needs_redraw: bool,
    pub last_detent: Option<i32>,
    pub last_watch_edit_active: bool,
    pub next_poll_ms: u64,
    pub smash_count: u8,
}

pub fn new_loop_state(ui: UiState) -> (r: LoopState)
    ensures
        r.last_ui_state == ui,
        r.needs_redraw,
        r.last_detent is None,
        !r.last_watch_edit_active,
        r.next_poll_ms == 0,
        r.smash_count == 0,
{
    LoopState { last_ui_state: ui, needs_redraw: true, last_detent: None, last_watch_edit_active: false, next_poll_ms: 0, smash_count: 0 }
}

/// Whether this frame must be redrawn: the UI state changed, a watch face is shown
/// (its hands and digits move), the brightness page has a new value, or the
/// transformation dialog is animating.
pub open spec fn frame_redraw_spec(ls: LoopState, ui: UiState, brightness_dirty: bool) -> bool {
    ls.needs_redraw || ui != ls.last_ui_state || ui.page is Watch || (ui.page == Page::Settings(
        SettingsMenuState::BrightnessAdjust,
    ) && brightness_dirty) || ui.dialog == Some(Dialog::TransformPage)
}

/// Start of an iteration: records the UI state and decides whether to redraw. The
/// brightness page's pending update is taken only while that page is shown; it is
/// returned so the caller can apply it. Leaving the Omnitrix page forgets smashes.
pub fn begin_frame(ls: &mut LoopState, ui: UiState, bright: &mut BrightnessState) -> (redraw: bool)
    ensures
        redraw == frame_redraw_spec(*old(ls), ui, old(bright).dirty),
        final(ls).last_ui_state == ui,
        !final(ls).needs_redraw,
        final(ls).smash_count == (if ui.page is Omnitrix { old(ls).smash_count } else { 0 }),
        final(ls).last_detent == old(ls).last_detent,
        final(ls).last_watch_edit_active == old(ls).last_watch_edit_active,
        final(ls).next_poll_ms == old(ls).next_poll_ms,
        final(bright).dirty == (old(bright).dirty && ui.page != Page::Settings(SettingsMenuState::BrightnessAdjust)),
        final(bright).pct == old(bright).pct,
        final(bright).edit == old(bright).edit,
        final(bright).last == old(bright).last,
{
    let mut redraw = ls.needs_redraw;
    if ui != ls.last_ui_state {
        ls.last_ui_state = ui;
        redraw = true;
    }
    let in_omnitrix = matches!(ui.page, Page::Omnitrix(_));
    if !in_omnitrix {
        ls.smash_count = 0;
    }
    if matches!(ui.page, Page::Watch(_)) {
        redraw = true;
    }
    if ui.page == Page::Settings(SettingsMenuState::BrightnessAdjust) {
        if crate::brightness::brightness_take_dirty(bright) {
            redraw = true;
        }
    }
    if ui.dialog == Some(Dialog::TransformPage) {
        redraw = true;
    }
    ls.needs_redraw = false;
    redraw
}

/// Whether to read the motion sensor now: on its interrupt flag or low interrupt line,
/// before the first sample, or when the fallback poll is due.
pub fn imu_should_read(int_flag: bool, pin_low: bool, have_sample: bool, now_ms: u64, next_poll_ms: u64) -> (r: bool)
    ensures
        r == (int_flag || pin_low || !have_sample || now_ms >= next_poll_ms),
{
    int_flag || pin_low || !have_sample || now_ms >= next_poll_ms
}

/// After a read that was due to the poll timer, the next poll is scheduled.
pub fn schedule_poll(ls: &mut LoopState, now_ms: u64)
    requires
        now_ms >= old(ls).next_poll_ms,
    ensures
        final(ls).next_poll_ms == (if now_ms + IMU_POLL_MS > u64::MAX { u64::MAX as int } else { now_ms + IMU_POLL_MS }),
        *final(ls) == (LoopState { next_poll_ms: final(ls).next_poll_ms, ..*old(ls) }),
{
    ls.next_poll_ms = now_ms.saturating_add(IMU_POLL_MS);
}

/// A smash was detected. On the Omnitrix page it counts, and enough of them trigger a
/// transformation (returned as `true`, as if the transform button was pressed).
pub fn count_smash(ls: &mut LoopState, in_omnitrix: bool) -> (transform: bool)
    ensures
        !in_omnitrix ==> !transform && *final(ls) == *old(ls),
        in_omnitrix ==> {
            let c = if old(ls).smash_count == 255 { 255int } else { old(ls).smash_count + 1 };
            &&& transform == (c >= SMASHES_TO_TRANSFORM)
            &&& final(ls).smash_count == (if transform { 0 } else { c })
            &&& *final(ls) == (LoopState { smash_count: final(ls).smash_count, ..*old(ls) })
        },
{
    if !in_omnitrix {
        return false;
    }
    ls.smash_count = if ls.smash_count == 255 { 255 } else { ls.smash_count + 1 };
    if ls.smash_count >= SMASHES_TO_TRANSFORM {
        ls.smash_count = 0;
        true
    } else {
        false
    }
}

pub open spec fn abs_int(x: int) -> int {
    if x < 0 { -x } else { x }
}

/// `x / d` rounded toward zero.
pub open spec fn div_toward_zero(x: int, d: int) -> int {
    if (x < 0) == (d < 0) { abs_int(x) / abs_int(d) } else { -(abs_int(x) / abs_int(d)) }
}

/// The detent the knob is in: encoder position over steps per detent, rounded toward zero.
pub fn detent_of(pos: i32, detent_steps: i32) -> (r: i32)
    requires
        detent_steps != 0,
        !(pos == i32::MIN && detent_steps == -1),
    ensures
        r == div_toward_zero(pos as int, detent_steps as int),
{
    let p = pos as i64;
    let s = detent_steps as i64;
    let ap: i64 = if p < 0 { -p } else { p };
    let as_: i64 = if s < 0 { -s } else { s };
    let q: i64 = ap / as_;
    assert(q <= ap) by (nonlinear_arith)
        requires
            q == ap / as_,
            ap >= 0,
            as_ >= 1,
    ;
    proof {
        if as_ == 1 {
            vstd::arithmetic::div_mod::lemma_div_basics(ap as int);
            assert(q == ap);
        } else {
            vstd::arithmetic::div_mod::lemma_div_is_ordered_by_denominator(ap as int, 2, as_ as int);
            assert(ap / 2 <= 0x4000_0000);
        }
    }
    let r: i64 = if (p < 0) != (s < 0) { -q } else { q };
    r as i32
}

/// What turning the knob does to the brightness, if it is being adjusted.
pub open spec fn rotary_ok(ls: LoopState, clock: ClockState, bright: BrightnessState, detent: i32) -> bool {
    ls.last_detent matches Some(prev) ==> {
        let d = detent - prev;
        &&& i32::MIN < d <= i32::MAX
        &&& edit_adjust_ok(clock, -d)
        &&& bright.pct - d <= i32::MAX
    }
}

/// Whether `rotary_update` can take the knob to `detent`: the move and what it does to
/// the editor digit and the level stay within `i32`.
pub fn rotary_in_range(ls: &LoopState, clock: &ClockState, bright: &BrightnessState, detent: i32) -> (r: bool)
    ensures
        r == rotary_ok(*ls, *clock, *bright, detent),
{
    match ls.last_detent {
        Some(prev) => {
            let d: i64 = detent as i64 - prev as i64;
            let digit_ok = match clock.edit {
                Some(ed) => ed.idx < 4 && (ed.digits[ed.idx as usize] as i64) - d <= i32::MAX as i64,
                None => true,
            };
            d > i32::MIN as i64 && d <= i32::MAX as i64 && digit_ok && (bright.pct as i64) - d <= i32::MAX as i64
        },
        None => true,
    }
}

/// The knob is in detent `detent`. When it moved from a known detent by `d`: the clock
/// editor's digit changes by `-d` if the editor is open, else on the brightness page
/// the level changes by `-d` (returned so the panel can be set), else the highlighted
/// item moves back (`d > 0`) or forward (`d < 0`).
pub fn rotary_update(
    ls: &mut LoopState,
    ui: &mut UiState,
    clock: &mut ClockState,
    bright: &mut BrightnessState,
    detent: i32,
) -> (r: (bool, Option<u8>))
    requires
        rotary_ok(*old(ls), *old(clock), *old(bright), detent),
    ensures
        final(ls).last_detent == Some(detent),
        *final(ls) == (LoopState { last_detent: Some(detent), ..*old(ls) }),
        match old(ls).last_detent {
            Some(prev) if prev != detent => {
                let d = detent - prev;
                if old(clock).edit is Some {
                    &&& r == (true, None::<u8>)
                    &&& final(clock).edit == Some(edit_adjust_spec(old(clock).edit->0, -d))
                    &&& *final(ui) == *old(ui)
                    &&& *final(bright) == *old(bright)
                } else if old(ui).page == Page::Settings(SettingsMenuState::BrightnessAdjust) {
                    &&& r == (true, Some(clamp_pct(old(bright).pct - d) as u8))
                    &&& final(bright).pct == clamp_pct(old(bright).pct - d)
                    &&& *final(ui) == *old(ui)
                    &&& *final(clock) == *old(clock)
                } else {
                    &&& r == (true, None::<u8>)
                    &&& *final(ui) == (if d > 0 { prev_item_spec(*old(ui)) } else { next_item_spec(*old(ui)) })
                    &&& *final(clock) == *old(clock)
                    &&& *final(bright) == *old(bright)
                }
            },
            _ => r == (false, None::<u8>) && *final(ui) == *old(ui) && *final(clock) == *old(clock) && *final(bright)
                == *old(bright),
        },
{
    let mut redraw = false;
    let mut apply: Option<u8> = None;
    match ls.last_detent {
        Some(prev) => {
            if prev != detent {
                let step_delta = detent - prev;
                if watch_edit_active(clock) {
                    watch_edit_adjust(clock, -step_delta);
                    redraw = true;
                } else if ui.page == Page::Settings(SettingsMenuState::BrightnessAdjust) {
                    let pct = brightness_adjust(bright, -step_delta);
                    apply = Some(pct);
                    redraw = true;
                } else if step_delta > 0 {
                    let s = *ui;
                    *ui = s.prev_item();
                    redraw = true;
                } else {
                    let s = *ui;
                    *ui = s.next_item();
                    redraw = true;
                }
            }
        },
        None => {},
    }
    ls.last_detent = Some(detent);
    (redraw, apply)
}

/// Called each iteration with whether the clock editor is open; returns `true` when it
/// has just been closed, so the hardware clock must be set from the software clock.
pub fn rtc_sync_due(ls: &mut LoopState, edit_active: bool) -> (sync: bool)
    ensures
        sync == (old(ls).last_watch_edit_active && !edit_active),
        *final(ls) == (LoopState { last_watch_edit_active: edit_active, ..*old(ls) }),
{
    let sync = ls.last_watch_edit_active && !edit_active;
    ls.last_watch_edit_active = edit_active;
    sync
}

} // verus!
