// Button debouncing, quadrature decoding of the rotary encoder, and the event
// flags that the interrupt handler raises for the main loop.
use vstd::prelude::*;

verus! {

/// Minimum time between two accepted presses of one button.
pub const DEBOUNCE_MS: u64 = 150;

/// What a button's interrupt handler remembers between edges.
#[derive(Copy, Clone, Debug, PartialEq, Eq, Structural)]
pub struct ButtonState {
    /// Level seen at the previous edge (`true` = released, the line idles high).
    pub last_level: bool,
    /// Time of the last accepted press in milliseconds.
    pub last_interrupt: u64,
}

/// `a - b`, or 0 when `b > a`.
pub open spec fn sat_sub(a: u64, b: u64) -> int {
    if a >= b { a - b } else { 0 }
}

impl ButtonState {
    /// A released button whose last press was at `now_ms`.
    pub fn new(level_high: bool, now_ms: u64) -> (r: Self)
        ensures
            r.last_level == level_high,
            r.last_interrupt == now_ms,
    {
        ButtonState { last_level: level_high, last_interrupt: now_ms }
    }
}

/// Handles one edge of a button line whose new level is `level_is_low`. Returns whether
/// it is a press: a falling edge more than `debounce_ms` after the last accepted press.
pub fn handle_button_generic(btn: &mut ButtonState, level_is_low: bool, now_ms: u64, debounce_ms: u64) -> (pressed: bool)
    ensures
        pressed == (old(btn).last_level && level_is_low && sat_sub(now_ms, old(btn).last_interrupt) > debounce_ms),
        final(btn).last_level == !level_is_low,
        final(btn).last_interrupt == (if pressed { now_ms } else { old(btn).last_interrupt }),
{
    let last_high = btn.last_level;
    btn.last_level = !level_is_low;
    if last_high && level_is_low {
        let last_debounce = btn.last_interrupt;
        if now_ms.saturating_sub(last_debounce) > debounce_ms {
            btn.last_interrupt = now_ms;
            return true;
        }
    }
    false
}

/// What the encoder's interrupt handler remembers between transitions.
#[derive(Copy, Clone, Debug, PartialEq, Eq, Structural)]
pub struct RotaryState {
    /// Accumulated steps, saturating at the ends of `i32`.
    pub position: i32,
    /// Last quadrature state, `CLK << 1 | DT`.
    pub last_qstate: u8,
    /// Direction of the last step, +1 or -1 (0 before the first).
    pub last_step: i8,
}

impl RotaryState {
    pub open spec fn wf(&self) -> bool {
        self.last_qstate < 4
    }

    /// An encoder at rest in the given pin state, position 0.
    pub fn new(clk_high: bool, dt_high: bool) -> (r: Self)
        ensures
            r.wf(),
            r.position == 0,
            r.last_qstate == qstate(clk_high, dt_high),
            r.last_step == 0,
    {
        RotaryState { position: 0, last_qstate: qstate_of(clk_high, dt_high), last_step: 0 }
    }
}

/// The two pin levels as a 2-bit quadrature state.
pub open spec fn qstate(clk_high: bool, dt_high: bool) -> u8 {
    ((if clk_high { 2u8 } else { 0u8 }) + (if dt_high { 1u8 } else { 0u8 })) as u8
}

/// Step of a transition between quadrature states: +1 one way round the Gray cycle
/// 00, 10, 11, 01, -1 the other way, 0 for no change or an invalid jump.
pub open spec fn quad_step(prev: u8, cur: u8) -> i8 {
    if prev == 0 {
        if cur == 1 { -1i8 } else if cur == 2 { 1 } else { 0 }
    } else if prev == 1 {
        if cur == 0 { 1 } else if cur == 3 { -1i8 } else { 0 }
    } else if prev == 2 {
        if cur == 0 { -1i8 } else if cur == 3 { 1 } else { 0 }
    } else {
        if cur == 1 { 1 } else if cur == 2 { -1i8 } else { 0 }
    }
}

fn qstate_of(clk_high: bool, dt_high: bool) -> (r: u8)
    ensures
        r == qstate(clk_high, dt_high),
        r < 4,
{
    let c: u8 = if clk_high { 2 } else { 0 };
    let d: u8 = if dt_high { 1 } else { 0 };
    c + d
}

/// Looks the transition up in the decoding table, indexed by `prev << 2 | cur`.
fn transition_step(prev: u8, cur: u8) -> (r: i8)
    requires
        prev < 4,
        cur < 4,
    ensures
        r == quad_step(prev, cur),
{
    let table: [i8; 16] = [0, -1, 1, 0, 1, 0, 0, -1, -1, 0, 0, 1, 0, 1, -1, 0];
    let idx: usize = (prev as usize) * 4 + (cur as usize);
    let r = table[idx];
    proof {
        assert(table[0] == 0 && table[1] == -1 && table[2] == 1 && table[3] == 0);
        assert(table[4] == 1 && table[5] == 0 && table[6] == 0 && table[7] == -1);
        assert(table[8] == -1 && table[9] == 0 && table[10] == 0 && table[11] == 1);
        assert(table[12] == 0 && table[13] == 1 && table[14] == -1 && table[15] == 0);
    }
    r
}

/// `p + s` saturated into the range of `i32`.
pub open spec fn sat_add_i32(p: int, s: int) -> int {
    if p + s > i32::MAX { i32::MAX as int } else if p + s < i32::MIN { i32::MIN as int } else { p + s }
}

/// Handles a change on either encoder pin, given the levels now read.
pub fn handle_encoder_generic(enc: &mut RotaryState, clk_high: bool, dt_high: bool)
    requires
        old(enc).wf(),
    ensures
        final(enc).wf(),
        final(enc).last_qstate == qstate(clk_high, dt_high),
        ({
            let s = quad_step(old(enc).last_qstate, qstate(clk_high, dt_high));
            &&& final(enc).position == (if s == 0 { old(enc).position as int } else { sat_add_i32(old(enc).position as int, s as int) })
            &&& final(enc).last_step == (if s == 0 { old(enc).last_step } else { s })
        }),
{
    let current = qstate_of(clk_high, dt_high);
    let step = transition_step(enc.last_qstate, current);
    if step != 0 {
        let p = enc.position;
        let np: i32 = if step > 0 {
            if p == i32::MAX { p } else { p + 1 }
        } else {
            if p == i32::MIN { p } else { p - 1 }
        };
        enc.position = np;
        enc.last_step = step;
    }
    enc.last_qstate = current;
}

/// Reversing a transition reverses its step.
pub proof fn lemma_quad_reverse(a: u8, b: u8)
    requires
        a < 4,
        b < 4,
    ensures
        quad_step(b, a) == -quad_step(a, b),
{
}

/// One detent of the knob walks the whole Gray cycle and moves the position by four
/// steps, in the direction of travel.
pub proof fn lemma_quad_full_cycle()
    ensures
        quad_step(0, 2) + quad_step(2, 3) + quad_step(3, 1) + quad_step(1, 0) == 4,
        quad_step(0, 1) + quad_step(1, 3) + quad_step(3, 2) + quad_step(2, 0) == -4,
{
}

/// Events that the interrupt handler leaves for the main loop.
#[derive(Copy, Clone, Debug, PartialEq, Eq, Structural)]
pub struct InputFlags {
    pub button1: bool,
    pub button2: bool,
    pub button3: bool,
    pub imu_int: bool,
    /// Presses and turns are only taken once the boot sequence is over.
    pub inputs_enabled: bool,
}

impl InputFlags {
    pub fn new() -> (r: Self)
        ensures
            !r.button1 && !r.button2 && !r.button3 && !r.imu_int && !r.inputs_enabled,
    {
        InputFlags { button1: false, button2: false, button3: false, imu_int: false, inputs_enabled: false }
    }
}

/// Drops every pending event; whether inputs are enabled is kept.
pub fn clear_pending_events(f: &mut InputFlags)
    ensures
        *final(f) == (InputFlags { button1: false, button2: false, button3: false, imu_int: false, ..*old(f) }),
{
    f.button1 = false;
    f.button2 = false;
    f.button3 = false;
    f.imu_int = false;
}

pub fn take_button1_event(f: &mut InputFlags) -> (r: bool)
    ensures
        r == old(f).button1,
        *final(f) == (InputFlags { button1: false, ..*old(f) }),
{
    let r = f.button1;
    f.button1 = false;
    r
}

pub fn take_button2_event(f: &mut InputFlags) -> (r: bool)
    ensures
        r == old(f).button2,
        *final(f) == (InputFlags { button2: false, ..*old(f) }),
{
    let r = f.button2;
    f.button2 = false;
    r
}

pub fn take_button3_event(f: &mut InputFlags) -> (r: bool)
    ensures
        r == old(f).button3,
        *final(f) == (InputFlags { button3: false, ..*old(f) }),
{
    let r = f.button3;
    f.button3 = false;
    r
}

pub fn take_imu_int_flag(f: &mut InputFlags) -> (r: bool)
    ensures
        r == old(f).imu_int,
        *final(f) == (InputFlags { imu_int: false, ..*old(f) }),
{
    let r = f.imu_int;
    f.imu_int = false;
    r
}

pub fn inputs_enabled(f: &InputFlags) -> (r: bool)
    ensures
        r == f.inputs_enabled,
{
    f.inputs_enabled
}

pub fn set_inputs_enabled(f: &mut InputFlags, enabled: bool)
    ensures
        *final(f) == (InputFlags { inputs_enabled: enabled, ..*old(f) }),
{
    f.inputs_enabled = enabled;
}

/// The pending-press flag of button 1, for the interrupt handler to raise.
pub fn button1_flag(f: &mut InputFlags) -> (r: &mut bool)
    ensures
        *r == old(f).button1,
        *final(f) == (InputFlags { button1: *final(r), ..*old(f) }),
{
    &mut f.button1
}

pub fn button2_flag(f: &mut InputFlags) -> (r: &mut bool)
    ensures
        *r == old(f).button2,
        *final(f) == (InputFlags { button2: *final(r), ..*old(f) }),
{
    &mut f.button2
}

pub fn button3_flag(f: &mut InputFlags) -> (r: &mut bool)
    ensures
        *r == old(f).button3,
        *final(f) == (InputFlags { button3: *final(r), ..*old(f) }),
{
    &mut f.button3
}

pub fn imu_int_flag(f: &mut InputFlags) -> (r: &mut bool)
    ensures
        *r == old(f).imu_int,
        *final(f) == (InputFlags { imu_int: *final(r), ..*old(f) }),
{
    &mut f.imu_int
}

/// Milliseconds since boot from a tick count: `ticks * 1000` (saturating) over the tick rate.
pub fn ticks_to_ms(ticks: u64, ticks_per_second: u64) -> (r: u64)
    requires
        ticks_per_second > 0,
    ensures
        r == (if ticks * 1000 > u64::MAX { u64::MAX as int } else { ticks * 1000 }) / (ticks_per_second as int),
{
    let scaled: u64 = match ticks.checked_mul(1000) {
        Some(v) => v,
        None => u64::MAX,
    };
    scaled / ticks_per_second
}

} // verus!
