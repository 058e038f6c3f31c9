// Panel brightness setting, its editor flag and the redraw bookkeeping of its page.
use vstd::prelude::*;

verus! {

/// Brightness the watch starts with, in percent.
pub const BRIGHTNESS_DEFAULT_PCT: u8 = 100;

pub struct BrightnessState {
    /// Current brightness in percent, 0 to 100.
    pub pct: u8,
    /// The brightness page is taking encoder turns.
    pub edit: bool,
    /// The percentage last drawn on the brightness page, if any.
    pub last: Option<u8>,
    /// The panel has not been told the current brightness yet.
    pub dirty: bool,
}

impl BrightnessState {
    pub open spec fn wf(&self) -> bool {
        self.pct <= 100
    }
}

/// `v` clamped into 0..=100.
pub open spec fn clamp_pct(v: int) -> int {
    if v < 0 { 0 } else if v > 100 { 100 } else { v }
}

pub fn new_brightness_state() -> (r: BrightnessState)
    ensures
        r.wf(),
        r.pct == BRIGHTNESS_DEFAULT_PCT,
        !r.edit,
        r.last is None,
        !r.dirty,
{
    BrightnessState { pct: BRIGHTNESS_DEFAULT_PCT, edit: false, last: None, dirty: false }
}

pub fn get_brightness_pct(b: &BrightnessState) -> (r: u8)
    ensures
        r == b.pct,
{
    b.pct
}

pub fn brightness_pct(b: &BrightnessState) -> (r: u8)
    ensures
        r == b.pct,
{
    b.pct
}

/// Sets the brightness to `new_pct` clamped into 0..=100 and marks it for the panel.
pub fn brightness_set_pct(b: &mut BrightnessState, new_pct: i32) -> (r: u8)
    ensures
        r == clamp_pct(new_pct as int),
        final(b).pct == r,
        final(b).dirty,
        final(b).edit == old(b).edit,
        final(b).last == old(b).last,
        final(b).wf(),
{
    let clamped: u8 = if new_pct < 0 {
        0
    } else if new_pct > 100 {
        100
    } else {
        new_pct as u8
    };
    b.pct = clamped;
    b.dirty = true;
    clamped
}

/// Changes the brightness by `delta` percent, clamped into 0..=100, and returns it.
/// The panel is marked for an update only when the value changed.
pub fn brightness_adjust(b: &mut BrightnessState, delta: i32) -> (r: u8)
    requires
        old(b).pct + delta <= i32::MAX,
    ensures
        r == (if delta == 0 { old(b).pct as int } else { clamp_pct(old(b).pct + delta) }),
        final(b).pct == r,
        final(b).dirty == (old(b).dirty || r != old(b).pct),
        final(b).edit == old(b).edit,
        final(b).last == old(b).last,
        old(b).wf() ==> final(b).wf(),
{
    if delta == 0 {
        return b.pct;
    }
    let mut v: i32 = b.pct as i32 + delta;
    if v < 0 {
        v = 0;
    } else if v > 100 {
        v = 100;
    }
    let pct = v as u8;
    if pct != b.pct {
        b.pct = pct;
        b.dirty = true;
    }
    pct
}

pub fn brightness_edit_active(b: &BrightnessState) -> (r: bool)
    ensures
        r == b.edit,
{
    b.edit
}

pub fn brightness_edit_set(b: &mut BrightnessState, active: bool)
    ensures
        final(b).edit == active,
        final(b).pct == old(b).pct,
        final(b).last == old(b).last,
        final(b).dirty == old(b).dirty,
{
    b.edit = active;
}

/// Returns whether the panel still needs the current brightness, and clears the flag.
pub fn brightness_take_dirty(b: &mut BrightnessState) -> (r: bool)
    ensures
        r == old(b).dirty,
        !final(b).dirty,
        final(b).pct == old(b).pct,
        final(b).edit == old(b).edit,
        final(b).last == old(b).last,
{
    let was = b.dirty;
    b.dirty = false;
    was
}

pub fn get_brightness_last_pct(b: &BrightnessState) -> (r: Option<u8>)
    ensures
        r == b.last,
{
    b.last
}

pub fn set_brightness_last_pct(b: &mut BrightnessState, pct: Option<u8>)
    ensures
        final(b).last == pct,
        final(b).pct == old(b).pct,
        final(b).edit == old(b).edit,
        final(b).dirty == old(b).dirty,
{
    b.last = pct;
}

pub fn reset_brightness_last(b: &mut BrightnessState)
    ensures
        final(b).last is None,
        final(b).pct == old(b).pct,
        final(b).edit == old(b).edit,
        final(b).dirty == old(b).dirty,
{
    set_brightness_last_pct(b, None);
}

/// Clears the drawn value, the pending update and the editor flag; the level is kept.
pub fn reset_flags(b: &mut BrightnessState)
    ensures
        final(b).last is None,
        !final(b).dirty,
        !final(b).edit,
        final(b).pct == old(b).pct,
{
    b.last = None;
    b.dirty = false;
    b.edit = false;
}

/// How the brightness ring is brought up to date on a frame of the adjust page.
#[derive(Copy, Clone, Debug, PartialEq, Eq, Structural)]
pub enum RingUpdate {
    /// Nothing drawn yet: clear the ring and draw the arc up to the level (if above 0).
    Full { draw_arc: bool },
    /// The level changed from `from_pct`: redraw the arc between the two levels.
    Partial { from_pct: u8 },
    /// Same level as drawn: leave the ring.
    Unchanged,
}

/// Plans a frame of the brightness page and records the level as drawn. Returns the
/// level shown and how to update the ring.
pub fn brightness_ui_plan(b: &mut BrightnessState) -> (r: (u8, RingUpdate))
    ensures
        r.0 == old(b).pct,
        r.1 == (match old(b).last {
            None => RingUpdate::Full { draw_arc: old(b).pct > 0 },
            Some(prev) => if prev != old(b).pct { RingUpdate::Partial { from_pct: prev } } else { RingUpdate::Unchanged },
        }),
        final(b).last == Some(old(b).pct),
        final(b).pct == old(b).pct,
        final(b).edit == old(b).edit,
        final(b).dirty == old(b).dirty,
{
    let pct = b.pct;
    let update = match b.last {
        None => RingUpdate::Full { draw_arc: pct > 0 },
        Some(prev) => if prev != pct { RingUpdate::Partial { from_pct: prev } } else { RingUpdate::Unchanged },
    };
    b.last = Some(pct);
    (pct, update)
}

/// The panel's brightness register value (0 to 255) for a level in percent; levels
/// above 100 wrap around the byte.
pub fn brightness_hw_level(pct: u8) -> (r: u8)
    ensures
        r == (pct * 255 / 100) % 256,
        pct <= 100 ==> r == pct * 255 / 100,
{
    let v: u16 = (pct as u16) * 255 / 100;
    let r = #[verifier::truncate] (v as u8);
    assert(r == v % 256) by (bit_vector)
        requires
            r == #[verifier::truncate] (v as u8),
    ;
    r
}

/// Turning the encoder by `d` and back by `-d` restores the level whenever the first
/// turn did not hit either end of the range.
pub proof fn lemma_adjust_undo(pct: int, d: int)
    requires
        0 <= pct <= 100,
        0 <= pct + d <= 100,
    ensures
        clamp_pct(clamp_pct(pct + d) - d) == pct,
{
}

/// The level always stays within 0..=100, however far the encoder turns.
pub proof fn lemma_adjust_in_range(pct: int, d: int)
    ensures
        0 <= clamp_pct(pct + d) <= 100,
{
}

} // verus!
