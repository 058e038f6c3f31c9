// Round Pong: the integer rules of the game (score, random draws, timing, radii and
// redraw rectangles). Ball and paddle positions are real-valued and handled by the
// caller; what they decide enters here as plain flags.
use vstd::prelude::*;
use crate::geometry::RESOLUTION;
use crate::snake::{lcg_next, lcg_step};

verus! {

pub const PONG_PADDLE_THICKNESS: i32 = 10;
pub const PONG_PADDLE_STROKE: u8 = 3;
pub const PONG_PADDLE_RADIUS_PAD: i32 = 0;
pub const PONG_BALL_RADIUS: i32 = 4;
pub const PONG_BALL_ATTACH_PAD: i32 = 1;
/// A hit is not counted this soon after the serve.
pub const PONG_BALL_GRACE_MS: u64 = 120;
/// Two hits are counted at least this far apart.
pub const PONG_BALL_BOUNCE_COOLDOWN_MS: u64 = 80;
pub const PONG_START_SCORE: u32 = 0;
/// Score at which the game is won.
pub const PONG_WIN_SCORE: u32 = 99;
/// Half-width, in whole degrees, of the random spread of the serve direction.
pub const PONG_BALL_START_JITTER_DEG: u32 = 5;
/// Half-width, in whole degrees, of the random spread of a bounce.
pub const PONG_BOUNCE_JITTER_DEG: u32 = 35;
/// Number of ball speeds a bounce picks from.
pub const PONG_BOUNCE_SPEED_COUNT: u32 = 5;
/// Extra pixels cleared around the ball's path.
pub const PONG_BALL_CLEAR_PAD: i32 = 2;

/// The integer part of the game state.
#[derive(Copy, Clone, Debug)]
pub struct PongState {
    pub ball_active: bool,
    pub last_update_ms: u64,
    pub start_ms: u64,
    pub last_bounce_ms: u64,
    /// Where the ball was drawn last, in pixels.
    pub ball_last_pos: Option<(i32, i32)>,
    pub rng: u32,
    pub text_visible: bool,
    pub game_over: bool,
    pub win: bool,
    pub score: u32,
}

pub fn new_pong_state() -> (r: PongState)
    ensures
        !r.ball_active && !r.text_visible && !r.game_over && !r.win,
        r.score == 0 && r.rng == 0 && r.ball_last_pos is None,
        r.last_update_ms == 0 && r.start_ms == 0 && r.last_bounce_ms == 0,
{
    PongState {
        ball_active: false,
        last_update_ms: 0,
        start_ms: 0,
        last_bounce_ms: 0,
        ball_last_pos: None,
        rng: 0,
        text_visible: false,
        game_over: false,
        win: false,
        score: 0,
    }
}

/// Radius of the circle the paddle moves on: half the panel, less the padding.
pub fn pong_play_radius() -> (r: i32)
    ensures
        r == RESOLUTION / 2 - PONG_PADDLE_RADIUS_PAD,
        r == 233,
{
    (RESOLUTION as i32 / 2) - PONG_PADDLE_RADIUS_PAD
}

/// Distance from the centre at which the ball rests against the paddle (at least 2).
pub fn pong_attach_radius(play_radius: i32) -> (r: i32)
    requires
        play_radius >= i32::MIN + 16,
    ensures
        r == (if play_radius - 16 > 2 { play_radius - 16 } else { 2 }),
{
    let v = play_radius - PONG_PADDLE_THICKNESS - (PONG_PADDLE_STROKE as i32 / 2) - PONG_BALL_RADIUS - PONG_BALL_ATTACH_PAD;
    if v > 2 { v } else { 2 }
}

/// Distance from the centre at which the ball meets the paddle's ring (at least 1).
pub fn pong_collision_radius(play_radius: i32) -> (r: i32)
    requires
        play_radius >= i32::MIN + 17,
    ensures
        r == (if play_radius - 17 > 1 { play_radius - 17 } else { 1 }),
{
    let v = play_radius - PONG_PADDLE_THICKNESS - (PONG_PADDLE_STROKE as i32 / 2) - PONG_BALL_RADIUS - 2;
    if v > 1 { v } else { 1 }
}

/// The generator's next state: a zero state is first seeded from the clock.
pub open spec fn rand_next(state: u32, now_ms: u64) -> u32 {
    let v = if state == 0 { ((now_ms as u32) ^ 0xA5A5_5A5Au32) } else { state };
    lcg_next(v)
}

/// Draws the next pseudo-random number; the generator keeps it as its state.
pub fn pong_rand_u32(p: &mut PongState, now_ms: u64) -> (r: u32)
    ensures
        r == rand_next(old(p).rng, now_ms),
        *final(p) == (PongState { rng: r, ..*old(p) }),
{
    let mut v = p.rng;
    if v == 0 {
        v = (now_ms as u32) ^ 0xA5A5_5A5A;
    }
    v = lcg_step(v);
    p.rng = v;
    v
}

/// Random offset in whole degrees, uniform over `-half..=half` in the draw `r`.
pub open spec fn jitter_deg(r: u32, half: u32) -> int {
    (r as int) % (2 * (half as int) + 1) - half
}

/// Serve: the ball leaves the paddle; the score and flags start over. Returns the
/// random offset of the serve direction in degrees.
pub fn pong_ball_start(p: &mut PongState, now_ms: u64) -> (jitter: i32)
    ensures
        jitter == jitter_deg(rand_next(old(p).rng, now_ms), PONG_BALL_START_JITTER_DEG),
        -5 <= jitter <= 5,
        *final(p) == (PongState {
            ball_active: true,
            game_over: false,
            win: false,
            score: PONG_START_SCORE,
            last_update_ms: now_ms,
            start_ms: now_ms,
            last_bounce_ms: 0,
            ball_last_pos: None,
            rng: rand_next(old(p).rng, now_ms),
            text_visible: old(p).text_visible,
        }),
{
    let r = pong_rand_u32(p, now_ms);
    let jitter = (r % (2 * PONG_BALL_START_JITTER_DEG + 1)) as i32 - PONG_BALL_START_JITTER_DEG as i32;
    p.ball_active = true;
    p.game_over = false;
    p.win = false;
    p.score = PONG_START_SCORE;
    p.last_update_ms = now_ms;
    p.start_ms = now_ms;
    p.last_bounce_ms = 0;
    p.ball_last_pos = None;
    jitter
}

/// Whether a hit at `now_ms` counts: past the grace time after the serve and past the
/// cool-down after the previous hit.
pub open spec fn hit_counts(p: PongState, now_ms: u64) -> bool {
    (if now_ms >= p.start_ms { now_ms - p.start_ms } else { 0 }) >= PONG_BALL_GRACE_MS
        && (if now_ms >= p.last_bounce_ms { now_ms - p.last_bounce_ms } else { 0 }) >= PONG_BALL_BOUNCE_COOLDOWN_MS
}

/// What happened when the ball reached the paddle's ring.
#[derive(Copy, Clone, Debug, PartialEq, Eq, Structural)]
pub enum PongContact {
    /// The paddle returned the ball: the new speed index and direction offset.
    Bounce { speed_idx: u32, jitter: i32 },
    /// The paddle missed: the game is over.
    Miss,
}

/// The state after a counted hit: one more point (at most 99); reaching 99 wins the
/// game, which ends it and resets the score.
pub open spec fn after_counted_hit(p: PongState, now_ms: u64) -> PongState {
    let s = if p.score + 1 > 99 { 99 } else { p.score + 1 };
    if s >= 99 {
        PongState { last_bounce_ms: now_ms, score: PONG_START_SCORE, win: true, game_over: false, ball_active: false, ..p }
    } else {
        PongState { last_bounce_ms: now_ms, score: s as u32, ..p }
    }
}

/// The ball reached the paddle's ring at `now_ms`; `within_paddle` tells whether the
/// paddle covered the point of impact. Updates score, flags and generator.
pub fn pong_contact(p: &mut PongState, now_ms: u64, within_paddle: bool) -> (r: PongContact)
    requires
        old(p).ball_active,
    ensures
        !within_paddle ==> r == PongContact::Miss
            && *final(p) == (PongState { game_over: true, ball_active: false, text_visible: false, ..*old(p) }),
        within_paddle ==> {
            let q = if hit_counts(*old(p), now_ms) { after_counted_hit(*old(p), now_ms) } else { *old(p) };
            let r1 = rand_next(q.rng, now_ms);
            let r2 = rand_next(r1, now_ms);
            &&& r == PongContact::Bounce { speed_idx: r1 % PONG_BOUNCE_SPEED_COUNT, jitter: jitter_deg(r2, PONG_BOUNCE_JITTER_DEG) as i32 }
            &&& *final(p) == (PongState { rng: r2, text_visible: if q.ball_active { q.text_visible } else { false }, ..q })
        },
{
    if !within_paddle {
        p.game_over = true;
        p.ball_active = false;
        p.text_visible = false;
        return PongContact::Miss;
    }
    let counts = now_ms.saturating_sub(p.start_ms) >= PONG_BALL_GRACE_MS
        && now_ms.saturating_sub(p.last_bounce_ms) >= PONG_BALL_BOUNCE_COOLDOWN_MS;
    if counts {
        let s = if p.score >= 98 { 99 } else { p.score + 1 };
        p.score = s;
        p.last_bounce_ms = now_ms;
        if s >= PONG_WIN_SCORE {
            p.ball_active = false;
            p.win = true;
            p.game_over = false;
            p.score = PONG_START_SCORE;
        }
    }
    let r1 = pong_rand_u32(p, now_ms);
    let speed_idx = r1 % PONG_BOUNCE_SPEED_COUNT;
    let r2 = pong_rand_u32(p, now_ms);
    let jitter = (r2 % (2 * PONG_BOUNCE_JITTER_DEG + 1)) as i32 - PONG_BOUNCE_JITTER_DEG as i32;
    if !p.ball_active {
        p.text_visible = false;
    }
    PongContact::Bounce { speed_idx, jitter }
}

/// Leaves the game: the ball is parked and scores and flags are cleared.
pub fn pong_reset_on_exit(p: &mut PongState)
    ensures
        *final(p) == (PongState {
            ball_active: false,
            last_update_ms: 0,
            ball_last_pos: None,
            text_visible: false,
            game_over: false,
            win: false,
            score: PONG_START_SCORE,
            ..*old(p)
        }),
{
    p.ball_last_pos = None;
    p.ball_active = false;
    p.last_update_ms = 0;
    p.text_visible = false;
    p.game_over = false;
    p.win = false;
    p.score = PONG_START_SCORE;
}

/// Text shown in the middle of the ring while the ball is not in play.
#[derive(Copy, Clone, Debug, PartialEq, Eq, Structural)]
pub enum PongBanner {
    YouWin,
    GameOver,
    PressToStart,
}

/// The banner for the current state, or none while the ball is in play.
pub fn pong_banner(p: &PongState) -> (r: Option<PongBanner>)
    ensures
        r == (if p.ball_active { None } else if p.win { Some(PongBanner::YouWin) } else if p.game_over {
            Some(PongBanner::GameOver)
        } else {
            Some(PongBanner::PressToStart)
        }),
{
    if p.ball_active {
        None
    } else if p.win {
        Some(PongBanner::YouWin)
    } else if p.game_over {
        Some(PongBanner::GameOver)
    } else {
        Some(PongBanner::PressToStart)
    }
}

/// Inclusive pixel rectangle `(x0, y0, x1, y1)`.
pub open spec fn clamp_px(v: int) -> int {
    if v < 0 { 0 } else if v > 465 { 465 } else { v }
}

pub open spec fn min_i(a: int, b: int) -> int {
    if a <= b { a } else { b }
}

pub open spec fn max_i(a: int, b: int) -> int {
    if a >= b { a } else { b }
}

/// Smallest rectangle holding both.
pub fn merge_rect(a: Option<(i32, i32, i32, i32)>, b: (i32, i32, i32, i32)) -> (r: (i32, i32, i32, i32))
    ensures
        match a {
            Some(x) => r == (min_i(x.0 as int, b.0 as int) as i32, min_i(x.1 as int, b.1 as int) as i32, max_i(
                x.2 as int,
                b.2 as int,
            ) as i32, max_i(x.3 as int, b.3 as int) as i32),
            None => r == b,
        },
{
    match a {
        Some(x) => (
            if x.0 <= b.0 { x.0 } else { b.0 },
            if x.1 <= b.1 { x.1 } else { b.1 },
            if x.2 >= b.2 { x.2 } else { b.2 },
            if x.3 >= b.3 { x.3 } else { b.3 },
        ),
        None => b,
    }
}

/// The screen area to blank between the ball's last drawn position and its new one,
/// padded by the clearing margin and cut to the panel.
pub fn ball_sweep_rect(last: (i32, i32), now: (i32, i32)) -> (r: (i32, i32, i32, i32))
    requires
        -1_000_000 <= last.0 <= 1_000_000,
        -1_000_000 <= last.1 <= 1_000_000,
        -1_000_000 <= now.0 <= 1_000_000,
        -1_000_000 <= now.1 <= 1_000_000,
    ensures
        r.0 == max_i(min_i(last.0 as int, now.0 as int) - 6, 0),
        r.1 == max_i(min_i(last.1 as int, now.1 as int) - 6, 0),
        r.2 == min_i(max_i(last.0 as int, now.0 as int) + 6, 465),
        r.3 == min_i(max_i(last.1 as int, now.1 as int) + 6, 465),
{
    let clear_r = PONG_BALL_RADIUS + PONG_BALL_CLEAR_PAD;
    let min_x = if last.0 <= now.0 { last.0 } else { now.0 };
    let max_x = if last.0 >= now.0 { last.0 } else { now.0 };
    let min_y = if last.1 <= now.1 { last.1 } else { now.1 };
    let max_y = if last.1 >= now.1 { last.1 } else { now.1 };
    let x0 = if min_x - clear_r > 0 { min_x - clear_r } else { 0 };
    let y0 = if min_y - clear_r > 0 { min_y - clear_r } else { 0 };
    let x1 = if max_x + clear_r < 465 { max_x + clear_r } else { 465 };
    let y1 = if max_y + clear_r < 465 { max_y + clear_r } else { 465 };
    (x0, y0, x1, y1)
}

/// The ball's square on screen, cut to the panel.
pub fn ball_rect(x: i32, y: i32) -> (r: (i32, i32, i32, i32))
    requires
        -1_000_000 <= x <= 1_000_000,
        -1_000_000 <= y <= 1_000_000,
    ensures
        r == (max_i(x - 4, 0) as i32, max_i(y - 4, 0) as i32, min_i(x + 4, 465) as i32, min_i(y + 4, 465) as i32),
{
    let r = PONG_BALL_RADIUS;
    (
        if x - r > 0 { x - r } else { 0 },
        if y - r > 0 { y - r } else { 0 },
        if x + r < 465 { x + r } else { 465 },
        if y + r < 465 { y + r } else { 465 },
    )
}

/// The panel is refreshed in rectangles that start on an even pixel and end on an odd
/// one: the rectangle is cut to the panel and widened to that grid.
pub fn even_flush_rect(b: (i32, i32, i32, i32)) -> (r: (u16, u16, u16, u16))
    ensures
        r.0 == clamp_px(b.0 as int) - clamp_px(b.0 as int) % 2,
        r.1 == clamp_px(b.1 as int) - clamp_px(b.1 as int) % 2,
        r.2 == min_i(clamp_px(b.2 as int) + 1 - clamp_px(b.2 as int) % 2, 465),
        r.3 == min_i(clamp_px(b.3 as int) + 1 - clamp_px(b.3 as int) % 2, 465),
        r.0 % 2 == 0 && r.1 % 2 == 0,
        r.0 <= clamp_px(b.0 as int) && r.1 <= clamp_px(b.1 as int),
        r.2 >= clamp_px(b.2 as int) && r.3 >= clamp_px(b.3 as int),
{
    let x0 = clamp_coord(b.0);
    let y0 = clamp_coord(b.1);
    let x1 = clamp_coord(b.2);
    let y1 = clamp_coord(b.3);
    let fx0 = x0 - x0 % 2;
    let fy0 = y0 - y0 % 2;
    let fx1 = if x1 + 1 - x1 % 2 < 465 { x1 + 1 - x1 % 2 } else { 465 };
    let fy1 = if y1 + 1 - y1 % 2 < 465 { y1 + 1 - y1 % 2 } else { 465 };
    (fx0 as u16, fy0 as u16, fx1 as u16, fy1 as u16)
}

fn clamp_coord(v: i32) -> (r: i32)
    ensures
        r == clamp_px(v as int),
{
    if v < 0 { 0 } else if v > 465 { 465 } else { v }
}

/// Score shown on screen, two digits.
pub fn pong_score_shown(p: &PongState) -> (r: u32)
    ensures
        r == p.score % 100,
{
    p.score % 100
}

/// Milliseconds the ball moves for at `now_ms`: the time since its last update, or 0
/// when it is not in play or no time passed. A nonzero step is recorded as the last update.
pub fn pong_step_time(p: &mut PongState, now_ms: u64) -> (dt: u64)
    ensures
        dt == (if !old(p).ball_active || now_ms <= old(p).last_update_ms { 0 } else { now_ms - old(p).last_update_ms }),
        dt == 0 ==> *final(p) == *old(p),
        dt != 0 ==> *final(p) == (PongState { last_update_ms: now_ms, ..*old(p) }),
{
    if !p.ball_active {
        return 0;
    }
    let dt = now_ms.saturating_sub(p.last_update_ms);
    if dt != 0 {
        p.last_update_ms = now_ms;
    }
    dt
}

/// The score never exceeds 99, however many hits are counted.
pub proof fn lemma_score_bounded(p: PongState, now_ms: u64)
    requires
        p.score <= 99,
    ensures
        after_counted_hit(p, now_ms).score <= 99,
        p.score >= 98 ==> after_counted_hit(p, now_ms).win && after_counted_hit(p, now_ms).score == 0,
        p.score < 98 ==> after_counted_hit(p, now_ms).score == p.score + 1,
{
}

} // verus!
