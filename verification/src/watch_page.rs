// The watch page: when the face must be repainted, which screen area the moving
// hands touch, the background pixels to restore there, and the layout of the
// HH:MM editor. Hand end points are computed by the caller.
use vstd::prelude::*;
use crate::assets::{MAX_IMG_H, MAX_IMG_W, ensure_watch_background_loaded, zlib_inflate};
use crate::time::{ClockEditState, ClockState, HandCache, current_edit_state, reset_hand_cache, take_watch_face_dirty};
use crate::ui_state::WatchAppState;

verus! {

/// Panel width in pixels, as the row length of a full-screen image.
pub const PANEL_W: usize = 466;
/// Bytes of a full-screen RGB565 image.
pub const PANEL_BYTES: usize = 434_312;
/// Margin kept around the second and minute hands' ends when clearing.
pub const SEC_PAD: i32 = 8;
pub const MIN_PAD: i32 = 8;
/// Margin kept around the hour hand's end.
pub const HOUR_PAD: i32 = 10;
/// Margin around the centre dot.
pub const DOT_PAD: i32 = 22;

/// What the watch page remembers between frames.
pub struct WatchPageState {
    pub last_watch: Option<WatchAppState>,
    pub last_edit_active: bool,
    /// The decompressed background, kept while the page is shown.
    pub bg: Option<Vec<u8>>,
}

pub fn new_watch_page_state() -> (r: WatchPageState)
    ensures
        r.last_watch is None,
        !r.last_edit_active,
        r.bg is None,
{
    WatchPageState { last_watch: None, last_edit_active: false, bg: None }
}

/// Leaving the page: forget the mode and free the background.
pub fn reset_on_exit(page: &mut WatchPageState)
    ensures
        final(page).last_watch is None,
        !final(page).last_edit_active,
        final(page).bg is None,
{
    page.last_watch = None;
    page.bg = None;
    page.last_edit_active = false;
}

/// What to draw on the watch page this frame.
#[derive(Copy, Clone, Debug)]
pub enum WatchDraw {
    Analog,
    DigitalTime,
    DigitalEdit(ClockEditState),
}

#[derive(Copy, Clone, Debug)]
pub struct WatchFrame {
    /// Paint the background over the whole face first.
    pub repaint_background: bool,
    pub draw: WatchDraw,
}

/// Plans a frame of the watch page. The face is repainted when the mode changed, when
/// the time was set, or when the editor has just closed, provided the background
/// (decompressed from `bg_blob` when needed) is available; the first two also make
/// the hands be drawn afresh.
pub fn render(page: &mut WatchPageState, clock: &mut ClockState, watch_state: WatchAppState, bg_blob: &[u8]) -> (f: WatchFrame)
    ensures
        final(page).last_watch == Some(watch_state),
        final(page).last_edit_active == (if watch_state == WatchAppState::Digital { old(clock).edit is Some } else { old(page).last_edit_active }),
        !final(clock).watch_face_dirty,
        final(clock).edit == old(clock).edit,
        final(clock).base_secs == old(clock).base_secs,
        final(clock).base_ticks == old(clock).base_ticks,
        (old(page).last_watch != Some(watch_state) || old(clock).watch_face_dirty) ==> final(clock).hand_cache.is_empty(),
        !(old(page).last_watch != Some(watch_state) || old(clock).watch_face_dirty) ==> final(clock).hand_cache == old(clock).hand_cache,
        ({
            let wants = old(page).last_watch != Some(watch_state) || old(clock).watch_face_dirty || (watch_state
                == WatchAppState::Digital && old(page).last_edit_active && old(clock).edit is None);
            let decoded = zlib_inflate(bg_blob@, (MAX_IMG_W * MAX_IMG_H * 2) as usize);
            &&& f.repaint_background == (wants && final(page).bg is Some)
            &&& (old(page).bg is Some ==> final(page).bg == old(page).bg)
            &&& (old(page).bg is None && !wants ==> final(page).bg is None)
            &&& (old(page).bg is None && wants ==> (final(page).bg is Some <==> decoded is Some))
            &&& (old(page).bg is None && wants ==> (final(page).bg matches Some(v) ==> v@ == decoded->0))
        }),
        f.draw == (match watch_state {
            WatchAppState::Analog => WatchDraw::Analog,
            WatchAppState::Digital => match old(clock).edit {
                Some(ed) => WatchDraw::DigitalEdit(ed),
                None => WatchDraw::DigitalTime,
            },
        }),
{
    let mut repaint = false;
    let mode_changed = match page.last_watch {
        Some(w) => w != watch_state,
        None => true,
    };
    page.last_watch = Some(watch_state);
    if mode_changed {
        if ensure_watch_background_loaded(&mut page.bg, bg_blob) {
            repaint = true;
        }
        reset_hand_cache(clock);
    }
    let face_dirty = take_watch_face_dirty(clock);
    if face_dirty {
        if ensure_watch_background_loaded(&mut page.bg, bg_blob) {
            repaint = true;
        }
        reset_hand_cache(clock);
    }
    let draw = match watch_state {
        WatchAppState::Analog => WatchDraw::Analog,
        WatchAppState::Digital => {
            let edit = current_edit_state(clock);
            let was = page.last_edit_active;
            let now = edit.is_some();
            page.last_edit_active = now;
            if was && !now {
                if ensure_watch_background_loaded(&mut page.bg, bg_blob) {
                    repaint = true;
                }
            }
            match edit {
                Some(ed) => WatchDraw::DigitalEdit(ed),
                None => WatchDraw::DigitalTime,
            }
        },
    };
    WatchFrame { repaint_background: repaint, draw }
}

pub open spec fn min_i(a: int, b: int) -> int {
    if a <= b { a } else { b }
}

pub open spec fn max_i(a: int, b: int) -> int {
    if a >= b { a } else { b }
}

/// A rectangle `(x0, y0, x1, y1)` grown to hold point `p` with margin `pad`.
pub open spec fn grow(r: (int, int, int, int), p: (i32, i32), pad: int) -> (int, int, int, int) {
    (min_i(r.0, p.0 - pad), min_i(r.1, p.1 - pad), max_i(r.2, p.0 + pad), max_i(r.3, p.1 + pad))
}

pub open spec fn grow_opt(r: (int, int, int, int), p: Option<(i32, i32)>, pad: int) -> (int, int, int, int) {
    match p {
        Some(q) => grow(r, q, pad),
        None => r,
    }
}

/// The area the analog hands touch this frame: the old and new end points of the
/// three hands and the centre dot, each with its margin.
pub open spec fn hands_rect_spec(cache: HandCache, sec: (i32, i32), min: (i32, i32), hour: (i32, i32)) -> (int, int, int, int) {
    let r0 = (233int, 233int, 233int, 233int);
    let r1 = grow_opt(grow_opt(grow_opt(r0, cache.sec, 8), cache.min, 8), cache.hour, 10);
    let r2 = grow(grow(grow(r1, sec, 8), min, 8), hour, 10);
    grow(r2, (233i32, 233i32), 22)
}

/// A point an analog hand can end at: on the panel or near it.
pub open spec fn near_panel(p: (i32, i32)) -> bool {
    -10_000 <= p.0 <= 10_000 && -10_000 <= p.1 <= 10_000
}

pub open spec fn near_panel_opt(p: Option<(i32, i32)>) -> bool {
    p matches Some(q) ==> near_panel(q)
}

fn grow_rect(r: (i32, i32, i32, i32), p: (i32, i32), pad: i32) -> (o: (i32, i32, i32, i32))
    requires
        near_panel(p),
        0 <= pad <= 22,
    ensures
        (o.0 as int, o.1 as int, o.2 as int, o.3 as int) == grow((r.0 as int, r.1 as int, r.2 as int, r.3 as int), p, pad as int),
{
    (
        if p.0 - pad < r.0 { p.0 - pad } else { r.0 },
        if p.1 - pad < r.1 { p.1 - pad } else { r.1 },
        if p.0 + pad > r.2 { p.0 + pad } else { r.2 },
        if p.1 + pad > r.3 { p.1 + pad } else { r.3 },
    )
}

fn grow_rect_opt(r: (i32, i32, i32, i32), p: Option<(i32, i32)>, pad: i32) -> (o: (i32, i32, i32, i32))
    requires
        near_panel_opt(p),
        0 <= pad <= 22,
    ensures
        (o.0 as int, o.1 as int, o.2 as int, o.3 as int) == grow_opt((r.0 as int, r.1 as int, r.2 as int, r.3 as int), p, pad as int),
{
    match p {
        Some(q) => grow_rect(r, q, pad),
        None => r,
    }
}

/// Records the new hand end points and returns the area to clear and redraw.
pub fn analog_hands_update(clock: &mut ClockState, sec: (i32, i32), min: (i32, i32), hour: (i32, i32)) -> (r: (i32, i32, i32, i32))
    requires
        near_panel(sec) && near_panel(min) && near_panel(hour),
        near_panel_opt(old(clock).hand_cache.sec),
        near_panel_opt(old(clock).hand_cache.min),
        near_panel_opt(old(clock).hand_cache.hour),
    ensures
        (r.0 as int, r.1 as int, r.2 as int, r.3 as int) == hands_rect_spec(old(clock).hand_cache, sec, min, hour),
        final(clock).hand_cache == (HandCache { sec: Some(sec), min: Some(min), hour: Some(hour) }),
        final(clock).edit == old(clock).edit,
        final(clock).base_secs == old(clock).base_secs,
        final(clock).base_ticks == old(clock).base_ticks,
        final(clock).watch_face_dirty == old(clock).watch_face_dirty,
{
    let c = clock.hand_cache;
    let r0: (i32, i32, i32, i32) = (233, 233, 233, 233);
    let r1 = grow_rect_opt(grow_rect_opt(grow_rect_opt(r0, c.sec, SEC_PAD), c.min, MIN_PAD), c.hour, HOUR_PAD);
    let r2 = grow_rect(grow_rect(grow_rect(r1, sec, SEC_PAD), min, MIN_PAD), hour, HOUR_PAD);
    let r3 = grow_rect(r2, (233, 233), DOT_PAD);
    clock.hand_cache = HandCache { sec: Some(sec), min: Some(min), hour: Some(hour) };
    r3
}

pub open spec fn clamp_px(v: int) -> int {
    if v < 0 { 0 } else if v > 465 { 465 } else { v }
}

/// A rectangle cut to the panel.
pub fn clamp_rect(r: (i32, i32, i32, i32)) -> (o: (i32, i32, i32, i32))
    ensures
        o.0 == clamp_px(r.0 as int) && o.1 == clamp_px(r.1 as int),
        o.2 == clamp_px(r.2 as int) && o.3 == clamp_px(r.3 as int),
{
    (clamp_i(r.0), clamp_i(r.1), clamp_i(r.2), clamp_i(r.3))
}

fn clamp_i(v: i32) -> (r: i32)
    ensures
        r == clamp_px(v as int),
{
    if v < 0 { 0 } else if v > 465 { 465 } else { v }
}

/// Bytes of rows `y0..y0 + n` of a full-screen image, columns `x0..x0 + w`, row by row.
pub open spec fn rect_bytes(img: Seq<u8>, x0: int, w: int, y0: int, n: nat) -> Seq<u8>
    decreases n,
{
    if n == 0 {
        Seq::empty()
    } else {
        let row = y0 + n - 1;
        let off = (row * 466 + x0) * 2;
        rect_bytes(img, x0, w, y0, (n - 1) as nat) + img.subrange(off, off + w * 2)
    }
}

/// The background pixels under the panel rectangle `x0..=x1, y0..=y1`, to restore it.
pub fn copy_bg_rect(bg: &Vec<u8>, x0: usize, y0: usize, x1: usize, y1: usize) -> (r: Vec<u8>)
    requires
        bg@.len() == PANEL_BYTES,
        x0 <= x1 < 466,
        y0 <= y1 < 466,
    ensures
        r@ == rect_bytes(bg@, x0 as int, (x1 - x0 + 1) as int, y0 as int, (y1 - y0 + 1) as nat),
{
    let w = x1 - x0 + 1;
    let mut buf: Vec<u8> = Vec::new();
    let mut row = y0;
    while row <= y1
        invariant
            bg@.len() == PANEL_BYTES,
            x0 <= x1 < 466,
            y0 <= row <= y1 + 1,
            y1 < 466,
            w == x1 - x0 + 1,
            buf@ == rect_bytes(bg@, x0 as int, w as int, y0 as int, (row - y0) as nat),
        decreases y1 + 1 - row,
    {
        let off = (row * PANEL_W + x0) * 2;
        assert(off + w * 2 <= PANEL_BYTES) by (nonlinear_arith)
            requires
                off == (row * 466 + x0) * 2,
                row < 466,
                x0 + w <= 466,
        ;
        let ghost before = buf@;
        let mut k: usize = 0;
        while k < w * 2
            invariant
                bg@.len() == PANEL_BYTES,
                off + w * 2 <= PANEL_BYTES,
                k <= w * 2,
                buf@ == before + bg@.subrange(off as int, off + k),
            decreases w * 2 - k,
        {
            buf.push(bg[off + k]);
            proof {
                assert(bg@.subrange(off as int, off + k + 1) =~= bg@.subrange(off as int, off + k).push(bg@[off + k]));
            }
            k = k + 1;
        }
        proof {
            let n = (row + 1 - y0) as nat;
            assert(rect_bytes(bg@, x0 as int, w as int, y0 as int, n) == rect_bytes(bg@, x0 as int, w as int, y0 as int, (n - 1) as nat) + bg@.subrange(off as int, off + w * 2));
        }
        row = row + 1;
    }
    buf
}

/// Digits of the editor as "HH:MM" text.
pub fn clock_edit_text(ed: &ClockEditState) -> (r: [u8; 5])
    requires
        forall|i: int| 0 <= i < 4 ==> #[trigger] ed.digits[i] <= 9,
    ensures
        r@ == seq![(48 + ed.digits[0]) as u8, (48 + ed.digits[1]) as u8, 58u8, (48 + ed.digits[2]) as u8, (48 + ed.digits[3]) as u8],
{
    assert(ed.digits[0] <= 9 && ed.digits[1] <= 9 && ed.digits[2] <= 9 && ed.digits[3] <= 9);
    let r = [48 + ed.digits[0], 48 + ed.digits[1], 58, 48 + ed.digits[2], 48 + ed.digits[3]];
    assert(r@ =~= seq![(48 + ed.digits[0]) as u8, (48 + ed.digits[1]) as u8, 58u8, (48 + ed.digits[2]) as u8, (48 + ed.digits[3]) as u8]);
    r
}

/// Left end of the line under the active digit: the five 10-pixel characters are
/// centred on the panel, and the colon is skipped.
pub fn edit_underline_x(ed: &ClockEditState) -> (r: i32)
    ensures
        ({
            let i = if ed.idx > 3 { 3int } else { ed.idx as int };
            r == 208 + 10 * (if i >= 2 { i + 1 } else { i })
        }),
{
    let idx: i32 = if ed.idx > 3 { 3 } else { ed.idx as i32 };
    let visual = if idx >= 2 { idx + 1 } else { idx };
    208 + visual * 10
}

/// Top of the line under the active digit: just below the centred 20-pixel text.
pub const EDIT_UNDERLINE_Y: i32 = 245;

} // verus!
