// Snake game logic: board geometry, movement, turning, apples and scoring.
use vstd::prelude::*;
use crate::geometry::{CENTER, RESOLUTION};

verus! {

pub const SNAKE_CELL_PX: i32 = 9;
pub const SNAKE_BOARD_PX: i32 = 324;
/// Cells per side of the board (board pixels / cell pixels).
pub const SNAKE_GRID: i16 = 36;
/// Number of cells on the board.
pub const SNAKE_MAX_LEN: usize = 1296;
pub const SNAKE_START_LEN: usize = 4;
pub const SNAKE_STEP_MS: u64 = 140;
pub const SCORE_TEXT_PAD: i32 = 12;
pub const STATUS_TEXT_PAD: i32 = 8;
pub const STATUS_TEXT_MAX_CHARS: i32 = 16;
/// Rotary steps that make one quarter turn of the snake.
pub const SNAKE_TURN_STEPS: i32 = 2;
/// Random placements tried before the board is scanned for a free cell.
pub const APPLE_RANDOM_TRIES: u32 = 64;

#[derive(Copy, Clone, Debug, PartialEq, Eq, Structural)]
pub enum Dir {
    Up,
    Right,
    Down,
    Left,
}

/// The whole game state. `body[0]` is the head; only `body[..len]` is part of the snake.
pub struct SnakeState {
    pub body: Vec<(i16, i16)>,
    pub len: usize,
    pub dir: Dir,
    pub started: bool,
    pub game_over: bool,
    pub win: bool,
    pub last_step_ms: u64,
    pub bg_drawn: bool,
    pub snake_drawn: bool,
    pub last_tail: Option<(i16, i16)>,
    pub text_visible: bool,
    pub needs_clear_all: bool,
    pub apple: Option<(i16, i16)>,
    pub last_apple: Option<(i16, i16)>,
    pub score: u32,
    pub rng: u32,
    pub pending_steps: i32,
}

/// A cell lies on the board.
pub open spec fn in_grid(c: (i16, i16)) -> bool {
    0 <= c.0 < 36 && 0 <= c.1 < 36
}

/// Two states agree on everything but the generator.
pub open spec fn same_but_rng(a: SnakeState, b: SnakeState) -> bool {
    &&& a.body == b.body
    &&& a.len == b.len
    &&& a.dir == b.dir
    &&& a.started == b.started
    &&& a.game_over == b.game_over
    &&& a.win == b.win
    &&& a.last_step_ms == b.last_step_ms
    &&& a.bg_drawn == b.bg_drawn
    &&& a.snake_drawn == b.snake_drawn
    &&& a.last_tail == b.last_tail
    &&& a.text_visible == b.text_visible
    &&& a.needs_clear_all == b.needs_clear_all
    &&& a.apple == b.apple
    &&& a.last_apple == b.last_apple
    &&& a.score == b.score
    &&& a.pending_steps == b.pending_steps
}

/// Position of a cell in row-major scan order.
pub open spec fn scan_index(c: (i16, i16)) -> int {
    c.1 * 36 + c.0
}

/// Every cell of the board is covered by `body`.
pub open spec fn board_full(body: Seq<(i16, i16)>) -> bool {
    forall|c: (i16, i16)| in_grid(c) ==> body.contains(c)
}

/// `c` is the first free cell of the board in row-major order.
pub open spec fn is_first_free(body: Seq<(i16, i16)>, c: (i16, i16)) -> bool {
    &&& in_grid(c)
    &&& !body.contains(c)
    &&& forall|d: (i16, i16)| in_grid(d) && scan_index(d) < scan_index(c) ==> body.contains(d)
}

/// One step of the linear congruential generator (wrapping u32 arithmetic).
pub open spec fn lcg_next(r: u32) -> u32 {
    let m = ((r as nat * 1664525nat) % 0x1_0000_0000nat) as u32;
    if m + 1013904223 > u32::MAX {
        (m + 1013904223 - 0x1_0000_0000) as u32
    } else {
        (m + 1013904223) as u32
    }
}

/// The cell picked from a generator value: low bits give x, the upper half gives y.
pub open spec fn cell_of(r: u32) -> (i16, i16) {
    ((r % 36) as i16, ((r / 65536) % 36) as i16)
}

/// Up to `tries` random placements: the first one off the snake, and the generator state after.
pub open spec fn random_tries(body: Seq<(i16, i16)>, rng: u32, tries: nat) -> (Option<(i16, i16)>, u32)
    decreases tries,
{
    if tries == 0 {
        (None, rng)
    } else {
        let r = lcg_next(rng);
        if !body.contains(cell_of(r)) {
            (Some(cell_of(r)), r)
        } else {
            random_tries(body, r, (tries - 1) as nat)
        }
    }
}

/// What placing an apple yields for a snake `body` of length `len`, starting from generator
/// state `rng`: the apple and the generator state afterwards.
pub open spec fn spawn_outcome(
    body: Seq<(i16, i16)>,
    len: nat,
    rng: u32,
    apple: Option<(i16, i16)>,
    rng_after: u32,
) -> bool {
    if len >= 1296 {
        apple is None && rng_after == rng
    } else {
        let (tried, r) = random_tries(body, rng, 64);
        &&& rng_after == r
        &&& tried is Some ==> apple == tried
        &&& tried is None ==> (match apple {
            Some(c) => is_first_free(body, c),
            None => board_full(body),
        })
    }
}

pub open spec fn dir_index(d: Dir) -> int {
    match d {
        Dir::Up => 0,
        Dir::Right => 1,
        Dir::Down => 2,
        Dir::Left => 3,
    }
}

pub open spec fn turn_cw(d: Dir) -> Dir {
    match d {
        Dir::Up => Dir::Right,
        Dir::Right => Dir::Down,
        Dir::Down => Dir::Left,
        Dir::Left => Dir::Up,
    }
}

pub open spec fn turn_ccw(d: Dir) -> Dir {
    match d {
        Dir::Up => Dir::Left,
        Dir::Left => Dir::Down,
        Dir::Down => Dir::Right,
        Dir::Right => Dir::Up,
    }
}

/// Column offset of one step in direction `d`.
pub open spec fn dir_dx(d: Dir) -> int {
    match d {
        Dir::Right => 1,
        Dir::Left => -1,
        _ => 0,
    }
}

/// Row offset of one step in direction `d`.
pub open spec fn dir_dy(d: Dir) -> int {
    match d {
        Dir::Up => -1,
        Dir::Down => 1,
        _ => 0,
    }
}

/// Quotient of the division by 2 rounded toward zero.
pub open spec fn half_toward_zero(x: int) -> int {
    if x >= 0 {
        x / 2
    } else {
        -((-x) / 2)
    }
}

/// The start position: a horizontal snake of four cells, head at the board centre, facing right.
pub open spec fn start_body() -> Seq<(i16, i16)> {
    seq![(18i16, 18i16), (17i16, 18i16), (16i16, 18i16), (15i16, 18i16)]
}

impl SnakeState {
    /// The cells of the snake, head first.
    pub open spec fn body_seq(&self) -> Seq<(i16, i16)> {
        self.body@.subrange(0, self.len as int)
    }

    /// The state is well formed: storage of the full board size, the snake on the
    /// board without overlapping itself, and the apple on a free cell.
    pub open spec fn wf(&self) -> bool {
        &&& self.body@.len() == SNAKE_MAX_LEN
        &&& self.len <= SNAKE_MAX_LEN
        &&& (self.started ==> self.len >= 1)
        &&& forall|i: int| 0 <= i < self.len ==> #[trigger] in_grid(self.body@[i])
        &&& forall|i: int, j: int|
            0 <= i < j < self.len ==> self.body@[i] != self.body@[j]
        &&& (self.apple matches Some(a) ==> in_grid(a) && !self.body_seq().contains(a))
    }

    /// The cell the head moves into on the next step.
    pub open spec fn next_head(&self) -> (i16, i16) {
        (
            (self.body@[0].0 + dir_dx(self.dir)) as i16,
            (self.body@[0].1 + dir_dy(self.dir)) as i16,
        )
    }

    /// A step is due: the game runs and the step interval has passed.
    pub open spec fn step_due(&self, now_ms: u64) -> bool {
        &&& self.started
        &&& !self.game_over
        &&& !self.win
        &&& now_ms - self.last_step_ms >= SNAKE_STEP_MS
    }

    /// The next head leaves the board or hits the snake.
    pub open spec fn step_collides(&self) -> bool {
        !in_grid(self.next_head()) || self.body_seq().contains(self.next_head())
    }

    /// The next head lands on the apple.
    pub open spec fn step_eats(&self) -> bool {
        self.apple == Some(self.next_head())
    }

    /// The initial state: empty snake, generator seeded with 1.
    pub fn new() -> (s: Self)
        ensures
            s.wf(),
            s.len == 0,
            !s.started,
            !s.game_over,
            !s.win,
            s.dir == Dir::Right,
            s.apple is None,
            s.rng == 1,
            s.score == 0,
            s.pending_steps == 0,
    {
        let mut body: Vec<(i16, i16)> = Vec::new();
        let mut i: usize = 0;
        while i < SNAKE_MAX_LEN
            invariant
                i <= SNAKE_MAX_LEN,
                body@.len() == i,
            decreases SNAKE_MAX_LEN - i,
        {
            body.push((0, 0));
            i = i + 1;
        }
        SnakeState {
            body,
            len: 0,
            dir: Dir::Right,
            started: false,
            game_over: false,
            win: false,
            last_step_ms: 0,
            bg_drawn: false,
            snake_drawn: false,
            last_tail: None,
            text_visible: false,
            needs_clear_all: false,
            apple: None,
            last_apple: None,
            score: 0,
            rng: 1,
            pending_steps: 0,
        }
    }
}

/// Top-left pixel of the board.
pub fn board_origin() -> (r: (i32, i32))
    ensures
        r == (71i32, 71i32),
{
    let x0 = (RESOLUTION as i32 - SNAKE_BOARD_PX) / 2;
    let y0 = (RESOLUTION as i32 - SNAKE_BOARD_PX) / 2;
    (x0, y0)
}

/// Top-left pixel of the cell at column `x`, row `y`.
pub fn cell_top_left(x: i16, y: i16) -> (r: (i32, i32))
    ensures
        r == ((71 + x * 9) as i32, (71 + y * 9) as i32),
{
    let (x0, y0) = board_origin();
    (x0 + (x as i32 * SNAKE_CELL_PX), y0 + (y as i32 * SNAKE_CELL_PX))
}

/// Vertical centre of the score text, just above the board (never above y = 12).
pub fn score_center_y() -> (r: i32)
    ensures
        r == (if 71 - SCORE_TEXT_PAD > 12 { 71 - SCORE_TEXT_PAD } else { 12 }),
        r == 59,
{
    let (_, y0) = board_origin();
    let v = y0 - SCORE_TEXT_PAD;
    if v > 12 {
        v
    } else {
        12
    }
}

fn clamp_i32(v: i32, lo: i32, hi: i32) -> (r: i32)
    requires
        lo <= hi,
    ensures
        r == (if v < lo { lo } else if v > hi { hi } else { v }),
{
    if v < lo {
        lo
    } else if v > hi {
        hi
    } else {
        v
    }
}

/// The block of cells (left, top, right, bottom, inclusive) that lies under the centred
/// status text and must be repainted with grass when the text is removed.
pub fn clear_status_text() -> (r: (i16, i16, i16, i16))
    ensures
        r == (8i16, 14i16, 27i16, 21i16),
        0 <= r.0 <= r.2 < SNAKE_GRID,
        0 <= r.1 <= r.3 < SNAKE_GRID,
{
    let text_w = STATUS_TEXT_MAX_CHARS * 10;
    let text_h = 20 * 2 + 6;
    let left = CENTER - (text_w / 2) - STATUS_TEXT_PAD;
    let top = CENTER - (text_h / 2) - STATUS_TEXT_PAD;
    let right = CENTER + (text_w / 2) + STATUS_TEXT_PAD;
    let bottom = CENTER + (text_h / 2) + STATUS_TEXT_PAD;

    let (x0, y0) = board_origin();
    let (x1, y1) = (x0 + SNAKE_BOARD_PX, y0 + SNAKE_BOARD_PX);
    let cl = clamp_i32(left, x0, x1 - 1);
    let ct = clamp_i32(top, y0, y1 - 1);
    let cr = clamp_i32(right, x0, x1 - 1);
    let cb = clamp_i32(bottom, y0, y1 - 1);

    let cell_left = clamp_i32((cl - x0) / SNAKE_CELL_PX, 0, SNAKE_GRID as i32 - 1) as i16;
    let cell_right = clamp_i32((cr - x0) / SNAKE_CELL_PX, 0, SNAKE_GRID as i32 - 1) as i16;
    let cell_top = clamp_i32((ct - y0) / SNAKE_CELL_PX, 0, SNAKE_GRID as i32 - 1) as i16;
    let cell_bottom = clamp_i32((cb - y0) / SNAKE_CELL_PX, 0, SNAKE_GRID as i32 - 1) as i16;
    (cell_left, cell_top, cell_right, cell_bottom)
}

/// Is `pos` one of the snake's cells?
pub fn snake_contains(state: &SnakeState, pos: (i16, i16)) -> (r: bool)
    requires
        state.body@.len() == SNAKE_MAX_LEN,
        state.len <= SNAKE_MAX_LEN,
    ensures
        r == state.body_seq().contains(pos),
{
    let mut i: usize = 0;
    while i < state.len
        invariant
            state.body@.len() == SNAKE_MAX_LEN,
            state.len <= SNAKE_MAX_LEN,
            i <= state.len,
            forall|j: int| 0 <= j < i ==> state.body@[j] != pos,
        decreases state.len - i,
    {
        let c = state.body[i];
        if c.0 == pos.0 && c.1 == pos.1 {
            assert(state.body_seq()[i as int] == pos);
            return true;
        }
        i = i + 1;
    }
    assert forall|k: int| 0 <= k < state.body_seq().len() implies state.body_seq()[k] != pos by {
        assert(state.body_seq()[k] == state.body@[k]);
    }
    false
}

/// Advance the generator and pick a cell from it.
pub fn random_cell(state: &mut SnakeState) -> (r: (i16, i16))
    ensures
        final(state).rng == lcg_next(old(state).rng),
        r == cell_of(final(state).rng),
        in_grid(r),
        same_but_rng(*final(state), *old(state)),
{
    state.rng = state.rng.wrapping_mul(1664525).wrapping_add(1013904223);
    let r = state.rng;
    let hi = r >> 16;
    assert(hi == r / 65536) by (bit_vector)
        requires
            hi == r >> 16,
    ;
    let x = (r % SNAKE_GRID as u32) as i16;
    let y = (hi % SNAKE_GRID as u32) as i16;
    (x, y)
}

proof fn lemma_random_tries_step(body: Seq<(i16, i16)>, rng: u32, tries: nat)
    requires
        tries > 0,
        body.contains(cell_of(lcg_next(rng))),
    ensures
        random_tries(body, rng, tries) == random_tries(body, lcg_next(rng), (tries - 1) as nat),
{
}

/// Advance a generator value by one step.
pub(crate) fn lcg_step(r: u32) -> (n: u32)
    ensures
        n == lcg_next(r),
{
    r.wrapping_mul(1664525).wrapping_add(1013904223)
}

/// The cell picked from a generator value.
fn cell_from(r: u32) -> (c: (i16, i16))
    ensures
        c == cell_of(r),
        in_grid(c),
{
    let hi = r >> 16;
    assert(hi == r / 65536) by (bit_vector)
        requires
            hi == r >> 16,
    ;
    ((r % SNAKE_GRID as u32) as i16, (hi % SNAKE_GRID as u32) as i16)
}

/// Up to 64 random placements starting from generator state `rng`.
fn random_apple_tries(state: &SnakeState, rng: u32) -> (r: (Option<(i16, i16)>, u32))
    requires
        state.body@.len() == SNAKE_MAX_LEN,
        state.len <= SNAKE_MAX_LEN,
    ensures
        r == random_tries(state.body_seq(), rng, 64),
        r.0 matches Some(c) ==> in_grid(c),
{
    let ghost body = state.body_seq();
    let mut cur = rng;
    let mut t: u32 = 0;
    while t < APPLE_RANDOM_TRIES
        invariant
            t <= APPLE_RANDOM_TRIES,
            state.body@.len() == SNAKE_MAX_LEN,
            state.len <= SNAKE_MAX_LEN,
            body == state.body_seq(),
            random_tries(body, rng, 64) == random_tries(body, cur, (64 - t) as nat),
        decreases APPLE_RANDOM_TRIES - t,
    {
        let before = cur;
        cur = lcg_step(cur);
        let c = cell_from(cur);
        if !snake_contains(state, c) {
            return (Some(c), cur);
        }
        proof {
            lemma_random_tries_step(body, before, (64 - t) as nat);
        }
        t = t + 1;
    }
    (None, cur)
}

/// The first cell in row-major order that the snake does not cover.
fn first_free_cell(state: &SnakeState) -> (r: Option<(i16, i16)>)
    requires
        state.body@.len() == SNAKE_MAX_LEN,
        state.len <= SNAKE_MAX_LEN,
    ensures
        r matches Some(c) ==> is_first_free(state.body_seq(), c),
        r is None ==> board_full(state.body_seq()),
{
    let ghost body = state.body_seq();
    let mut y: i16 = 0;
    while y < SNAKE_GRID
        invariant
            0 <= y <= SNAKE_GRID,
            state.body@.len() == SNAKE_MAX_LEN,
            state.len <= SNAKE_MAX_LEN,
            body == state.body_seq(),
            forall|d: (i16, i16)| #![trigger body.contains(d)] in_grid(d) && d.1 < y ==> body.contains(d),
        decreases SNAKE_GRID - y,
    {
        let mut x: i16 = 0;
        while x < SNAKE_GRID
            invariant
                0 <= x <= SNAKE_GRID,
                0 <= y < SNAKE_GRID,
                state.body@.len() == SNAKE_MAX_LEN,
                state.len <= SNAKE_MAX_LEN,
                body == state.body_seq(),
                forall|d: (i16, i16)| #![trigger body.contains(d)] in_grid(d) && d.1 < y ==> body.contains(d),
                forall|d: (i16, i16)| #![trigger body.contains(d)] in_grid(d) && d.1 == y && d.0 < x ==> body.contains(d),
            decreases SNAKE_GRID - x,
        {
            if !snake_contains(state, (x, y)) {
                assert forall|d: (i16, i16)| in_grid(d) && scan_index(d) < scan_index((x, y)) implies body.contains(d) by {
                    if d.1 >= y {
                        assert(d.1 == y);
                    }
                }
                return Some((x, y));
            }
            x = x + 1;
        }
        y = y + 1;
    }
    None
}

/// Pick a free cell for the apple: up to 64 random cells, then the first free cell in
/// row-major order; `None` when the snake fills the board.
pub fn spawn_apple(state: &mut SnakeState) -> (r: Option<(i16, i16)>)
    requires
        old(state).body@.len() == SNAKE_MAX_LEN,
        old(state).len <= SNAKE_MAX_LEN,
    ensures
        spawn_outcome(old(state).body_seq(), old(state).len as nat, old(state).rng, r, final(state).rng),
        r matches Some(c) ==> in_grid(c) && !old(state).body_seq().contains(c),
        same_but_rng(*final(state), *old(state)),
{
    if state.len as i16 >= SNAKE_GRID * SNAKE_GRID {
        return None;
    }
    let (tried, rng) = random_apple_tries(state, state.rng);
    state.rng = rng;
    match tried {
        Some(c) => {
            proof {
                lemma_random_tries_free(old(state).body_seq(), old(state).rng, 64);
            }
            Some(c)
        },
        None => first_free_cell(state),
    }
}

proof fn lemma_random_tries_free(body: Seq<(i16, i16)>, rng: u32, tries: nat)
    ensures
        random_tries(body, rng, tries).0 matches Some(c) ==> !body.contains(c),
    decreases tries,
{
    if tries > 0 {
        lemma_random_tries_free(body, lcg_next(rng), (tries - 1) as nat);
    }
}

/// Lay the start snake into the first cells of `body`: head at the centre, tail to the left.
fn write_start_body(body: &mut Vec<(i16, i16)>)
    requires
        old(body)@.len() == SNAKE_MAX_LEN,
    ensures
        final(body)@.len() == SNAKE_MAX_LEN,
        final(body)@.subrange(0, 4) == start_body(),
{
    let cx = SNAKE_GRID / 2;
    let cy = SNAKE_GRID / 2;
    let mut i: usize = 0;
    while i < SNAKE_START_LEN
        invariant
            i <= SNAKE_START_LEN,
            body@.len() == SNAKE_MAX_LEN,
            cx == 18,
            cy == 18,
            forall|j: int| 0 <= j < i ==> body@[j] == ((18 - j) as i16, 18i16),
        decreases SNAKE_START_LEN - i,
    {
        body.set(i, (cx - i as i16, cy));
        i = i + 1;
    }
    assert(body@.subrange(0, 4) =~= start_body());
}

/// Put the snake back to its start position and place a new apple.
fn reset_snake_state(state: &mut SnakeState, keep_bg: bool)
    requires
        old(state).body@.len() == SNAKE_MAX_LEN,
    ensures
        final(state).wf(),
        final(state).len == SNAKE_START_LEN,
        final(state).body_seq() == start_body(),
        final(state).dir == Dir::Right,
        !final(state).started,
        !final(state).game_over,
        !final(state).win,
        final(state).last_step_ms == 0,
        final(state).bg_drawn == keep_bg,
        !final(state).snake_drawn,
        final(state).last_tail is None,
        !final(state).text_visible,
        !final(state).needs_clear_all,
        final(state).last_apple is None,
        final(state).score == 0,
        final(state).pending_steps == 0,
        spawn_outcome(start_body(), 4, old(state).rng, final(state).apple, final(state).rng),
{
    state.len = SNAKE_START_LEN;
    write_start_body(&mut state.body);
    assert(state.body_seq() =~= start_body());
    state.dir = Dir::Right;
    state.started = false;
    state.game_over = false;
    state.win = false;
    state.last_step_ms = 0;
    state.bg_drawn = keep_bg;
    state.snake_drawn = false;
    state.last_tail = None;
    state.text_visible = false;
    state.needs_clear_all = false;
    state.last_apple = None;
    state.score = 0;
    let ghost before = *state;
    let apple = spawn_apple(state);
    state.apple = apple;
    state.pending_steps = 0;
    proof {
        lemma_start_body_wf();
        assert(state.body_seq() =~= start_body());
        assert(before.body_seq() =~= start_body());
        assert forall|p: int| 0 <= p < state.len implies #[trigger] in_grid(state.body@[p]) by {
            assert(state.body@[p] == start_body()[p]);
        }
        assert forall|p: int, q: int| 0 <= p < q < state.len implies state.body@[p] != state.body@[q] by {
            assert(state.body@[p] == start_body()[p]);
            assert(state.body@[q] == start_body()[q]);
        }
    }
}

/// Reset the game when leaving its page (the board is redrawn on the next visit).
pub fn snake_reset_on_exit(state: &mut SnakeState)
    requires
        old(state).body@.len() == SNAKE_MAX_LEN,
    ensures
        final(state).wf(),
        final(state).len == SNAKE_START_LEN,
        final(state).body_seq() == start_body(),
        final(state).dir == Dir::Right,
        !final(state).started,
        !final(state).game_over,
        !final(state).win,
        !final(state).bg_drawn,
        final(state).score == 0,
        final(state).last_step_ms == 0,
        final(state).pending_steps == 0,
        !final(state).snake_drawn,
        final(state).last_tail is None,
        !final(state).text_visible,
        !final(state).needs_clear_all,
        final(state).last_apple is None,
        spawn_outcome(start_body(), 4, old(state).rng, final(state).apple, final(state).rng),
{
    reset_snake_state(state, false);
}

/// Start a new game unless one is already running; the generator is mixed with the time.
pub fn snake_start(state: &mut SnakeState, now_ms: u64) -> (r: bool)
    requires
        old(state).body@.len() == SNAKE_MAX_LEN,
    ensures
        r == !(old(state).started && !old(state).game_over),
        !r ==> *final(state) == *old(state),
        r ==> final(state).wf(),
        r ==> final(state).started && !final(state).game_over && !final(state).win,
        r ==> final(state).len == SNAKE_START_LEN && final(state).body_seq() == start_body(),
        r ==> final(state).dir == Dir::Right && final(state).score == 0,
        r ==> final(state).last_step_ms == now_ms,
        r ==> final(state).bg_drawn == old(state).bg_drawn,
        r ==> final(state).text_visible == old(state).text_visible,
        r ==> spawn_outcome(start_body(), 4, old(state).rng ^ (now_ms as u32), final(state).apple, final(state).rng),
{
    if state.started && !state.game_over {
        return false;
    }
    let keep_bg = state.bg_drawn;
    let text_visible = state.text_visible;
    state.rng = state.rng ^ (now_ms as u32);
    reset_snake_state(state, keep_bg);
    state.text_visible = text_visible;
    state.started = true;
    state.last_step_ms = now_ms;
    true
}

/// The game is running.
pub fn snake_active(state: &SnakeState) -> (r: bool)
    ensures
        r == (state.started && !state.game_over && !state.win),
{
    state.started && !state.game_over && !state.win
}

fn rotate(dir: Dir, clockwise: bool) -> (r: Dir)
    ensures
        r == (if clockwise { turn_cw(dir) } else { turn_ccw(dir) }),
        dir_index(r) == (if clockwise { (dir_index(dir) + 1) % 4 } else { (dir_index(dir) + 3) % 4 }),
{
    if clockwise {
        match dir {
            Dir::Up => Dir::Right,
            Dir::Right => Dir::Down,
            Dir::Down => Dir::Left,
            Dir::Left => Dir::Up,
        }
    } else {
        match dir {
            Dir::Up => Dir::Left,
            Dir::Left => Dir::Down,
            Dir::Down => Dir::Right,
            Dir::Right => Dir::Up,
        }
    }
}

/// Accumulate rotary steps; every `SNAKE_TURN_STEPS` steps turn the snake a quarter
/// (clockwise for positive steps). Returns whether the direction changed.
pub fn snake_turn_steps(state: &mut SnakeState, delta_steps: i32) -> (r: bool)
    requires
        delta_steps != 0 ==> i32::MIN < old(state).pending_steps + delta_steps <= i32::MAX,
    ensures
        delta_steps == 0 ==> !r && *final(state) == *old(state),
        delta_steps != 0 ==> ({
            let total = old(state).pending_steps + delta_steps;
            let q = half_toward_zero(total);
            &&& final(state).pending_steps == total - 2 * q
            &&& dir_index(final(state).dir) == (dir_index(old(state).dir) + q) % 4
            &&& r == (final(state).dir != old(state).dir)
            &&& final(state).body == old(state).body
            &&& final(state).len == old(state).len
            &&& final(state).apple == old(state).apple
            &&& final(state).rng == old(state).rng
            &&& final(state).started == old(state).started
            &&& final(state).game_over == old(state).game_over
            &&& final(state).win == old(state).win
            &&& final(state).score == old(state).score
            &&& final(state).last_step_ms == old(state).last_step_ms
        }),
{
    if delta_steps == 0 {
        return false;
    }
    let ghost total = old(state).pending_steps + delta_steps;
    let old_dir = state.dir;
    let mut dir = state.dir;
    state.pending_steps = state.pending_steps + delta_steps;
    let ghost mut k: int = 0;
    while state.pending_steps >= SNAKE_TURN_STEPS || state.pending_steps <= -SNAKE_TURN_STEPS
        invariant
            total == state.pending_steps + 2 * k,
            total >= 0 ==> state.pending_steps >= 0,
            total < 0 ==> state.pending_steps <= 0,
            dir_index(dir) == (dir_index(old_dir) + k) % 4,
            old_dir == old(state).dir,
            state.dir == old(state).dir,
            state.body == old(state).body,
            state.len == old(state).len,
            state.apple == old(state).apple,
            state.rng == old(state).rng,
            state.started == old(state).started,
            state.game_over == old(state).game_over,
            state.win == old(state).win,
            state.score == old(state).score,
            state.last_step_ms == old(state).last_step_ms,
            i32::MIN < total <= i32::MAX,
        decreases (if state.pending_steps >= 0 { state.pending_steps as int } else { -state.pending_steps }),
    {
        let step_dir: i32 = if state.pending_steps > 0 { 1 } else { -1 };
        dir = rotate(dir, step_dir > 0);
        state.pending_steps = state.pending_steps - step_dir * SNAKE_TURN_STEPS;
        proof {
            k = k + step_dir;
        }
    }
    assert(k == half_toward_zero(total));
    let changed = dir != old_dir;
    state.dir = dir;
    proof {
        if !changed {
            assert(dir == old_dir);
        }
        if changed {
            assert(dir != old_dir);
        }
    }
    changed
}

/// Turn a quarter with a button press (clearing pending rotary steps).
pub fn snake_turn_button(state: &mut SnakeState, clockwise: bool) -> (r: bool)
    ensures
        final(state).dir == (if clockwise { turn_cw(old(state).dir) } else { turn_ccw(old(state).dir) }),
        final(state).pending_steps == 0,
        r,
        final(state).body == old(state).body,
        final(state).len == old(state).len,
        final(state).apple == old(state).apple,
        final(state).rng == old(state).rng,
        final(state).started == old(state).started,
        final(state).game_over == old(state).game_over,
        final(state).win == old(state).win,
        final(state).score == old(state).score,
        final(state).last_step_ms == old(state).last_step_ms,
{
    let old_dir = state.dir;
    state.pending_steps = 0;
    state.dir = rotate(state.dir, clockwise);
    state.dir != old_dir
}

/// Move the snake forward in place: every cell takes its predecessor's place and the
/// head goes to `next`; with `new_len == old_len + 1` the old tail stays (growth).
fn shift_body(body: &mut Vec<(i16, i16)>, old_len: usize, new_len: usize, next: (i16, i16))
    requires
        old(body)@.len() == SNAKE_MAX_LEN,
        1 <= old_len <= SNAKE_MAX_LEN,
        new_len <= SNAKE_MAX_LEN,
        new_len == old_len || new_len == old_len + 1,
    ensures
        final(body)@.len() == SNAKE_MAX_LEN,
        final(body)@.subrange(0, new_len as int) == seq![next] + old(body)@.subrange(0, old_len as int).take(new_len - 1),
{
    let ghost b0 = body@;
    let tail = body[old_len - 1];
    let mut i: usize = new_len;
    while i > 1
        invariant
            1 <= i <= new_len,
            new_len <= SNAKE_MAX_LEN,
            1 <= old_len <= SNAKE_MAX_LEN,
            new_len == old_len || new_len == old_len + 1,
            b0.len() == SNAKE_MAX_LEN,
            body@.len() == SNAKE_MAX_LEN,
            forall|j: int| 0 <= j < i ==> body@[j] == b0[j],
            forall|j: int| i <= j < new_len ==> body@[j] == b0[j - 1],
        decreases i,
    {
        i = i - 1;
        let src = if i - 1 < old_len {
            body[i - 1]
        } else {
            tail
        };
        body.set(i, src);
    }
    body.set(0, next);
    assert(body@.subrange(0, new_len as int) =~= seq![next] + b0.subrange(0, old_len as int).take(new_len - 1));
}

/// Advance the snake one cell when a step is due. Leaving the board or biting itself ends
/// the game; eating the apple grows the snake, scores a point and places a new apple (no
/// free cell left means a win). Returns whether anything changed.
#[verifier::spinoff_prover]
#[verifier::rlimit(40)]
pub fn snake_update(state: &mut SnakeState, now_ms: u64) -> (r: bool)
    requires
        old(state).wf(),
    ensures
        final(state).wf(),
        r == old(state).step_due(now_ms),
        !r ==> *final(state) == *old(state),
        r ==> final(state).last_step_ms == now_ms,
        r ==> final(state).dir == old(state).dir && final(state).pending_steps == old(state).pending_steps,
        r && old(state).step_collides() ==> {
            &&& final(state).game_over
            &&& !final(state).started
            &&& final(state).needs_clear_all
            &&& final(state).last_apple == old(state).apple
            &&& final(state).apple is None
            &&& final(state).body_seq() == old(state).body_seq()
            &&& final(state).score == old(state).score
            &&& final(state).win == old(state).win
            &&& final(state).rng == old(state).rng
        },
        r && !old(state).step_collides() ==> {
            let ate = old(state).step_eats();
            &&& final(state).len == (if ate { old(state).len + 1 } else { old(state).len as int })
            &&& final(state).body_seq() == seq![old(state).next_head()] + old(state).body_seq().take(
                final(state).len - 1,
            )
            &&& final(state).last_tail == (if ate { None } else { Some(old(state).body_seq().last()) })
            &&& final(state).game_over == old(state).game_over
            &&& !ate ==> {
                &&& final(state).apple == old(state).apple
                &&& final(state).score == old(state).score
                &&& final(state).rng == old(state).rng
                &&& final(state).win == old(state).win
                &&& final(state).started == old(state).started
            }
            &&& ate ==> {
                &&& final(state).score == (if old(state).score == u32::MAX { u32::MAX } else { (old(state).score + 1) as u32 })
                &&& spawn_outcome(final(state).body_seq(), final(state).len as nat, old(state).rng, final(state).apple, final(state).rng)
                &&& final(state).win == (final(state).apple is None)
                &&& final(state).started == (final(state).apple is Some)
            }
        },
{
    if !state.started || state.game_over || state.win {
        return false;
    }
    if now_ms.saturating_sub(state.last_step_ms) < SNAKE_STEP_MS {
        return false;
    }
    state.last_step_ms = now_ms;
    let (dx, dy): (i16, i16) = match state.dir {
        Dir::Up => (0, -1),
        Dir::Right => (1, 0),
        Dir::Down => (0, 1),
        Dir::Left => (-1, 0),
    };
    let head = state.body[0];
    assert(in_grid(state.body@[0]));
    let next = (head.0 + dx, head.1 + dy);
    assert(next == old(state).next_head());
    if next.0 < 0 || next.1 < 0 || next.0 >= SNAKE_GRID || next.1 >= SNAKE_GRID {
        state.game_over = true;
        state.started = false;
        state.needs_clear_all = true;
        state.last_apple = state.apple;
        state.apple = None;
        return true;
    }
    if snake_contains(state, next) {
        state.game_over = true;
        state.started = false;
        state.needs_clear_all = true;
        state.last_apple = state.apple;
        state.apple = None;
        return true;
    }
    let ate = match state.apple {
        Some(a) => a.0 == next.0 && a.1 == next.1,
        None => false,
    };
    assert(ate == old(state).step_eats());
    let old_len = state.len;
    let new_len = if ate {
        if old_len + 1 < SNAKE_MAX_LEN {
            old_len + 1
        } else {
            SNAKE_MAX_LEN
        }
    } else {
        old_len
    };
    if ate {
        // The apple is on a free cell, so the snake does not fill the board yet.
        assert(old_len < SNAKE_MAX_LEN) by {
            lemma_free_cell_bounds_len(old(state).body_seq(), next);
        }
    }
    let tail = state.body[old_len - 1];
    shift_body(&mut state.body, old_len, new_len, next);
    state.len = new_len;
    assert(state.body_seq() =~= seq![next] + old(state).body_seq().take(new_len - 1));
    state.last_tail = if ate {
        None
    } else {
        Some(tail)
    };
    proof {
        lemma_moved_body_wf(old(state).body_seq(), next, new_len as int);
        if !ate {
            assert(tail == old(state).body_seq().last());
        }
    }
    if ate {
        state.score = state.score.saturating_add(1);
        state.apple = spawn_apple(state);
        if state.apple.is_none() {
            state.win = true;
            state.started = false;
            state.needs_clear_all = true;
            state.last_apple = None;
        }
    } else {
        proof {
            if let Some(a) = state.apple {
                assert(a != next);
                assert(!old(state).body_seq().contains(a));
                assert(!state.body_seq().contains(a)) by {
                    if state.body_seq().contains(a) {
                        let k = choose|k: int| 0 <= k < state.body_seq().len() && state.body_seq()[k] == a;
                        assert(k >= 1);
                        assert(old(state).body_seq()[k - 1] == a);
                    }
                }
            }
        }
    }
    proof {
        assert forall|p: int, q: int| 0 <= p < q < state.len implies state.body@[p] != state.body@[q] by {
            assert(state.body@[p] == state.body_seq()[p]);
            assert(state.body@[q] == state.body_seq()[q]);
        }
        assert forall|p: int| 0 <= p < state.len implies #[trigger] in_grid(state.body@[p]) by {
            assert(state.body@[p] == state.body_seq()[p]);
        }
    }
    true
}

/// A cell that is on the board and not covered by a snake of distinct on-board cells
/// means the snake is shorter than the whole board.
proof fn lemma_free_cell_bounds_len(body: Seq<(i16, i16)>, free: (i16, i16))
    requires
        in_grid(free),
        !body.contains(free),
        forall|i: int| 0 <= i < body.len() ==> #[trigger] in_grid(body[i]),
        forall|i: int, j: int| 0 <= i < j < body.len() ==> body[i] != body[j],
    ensures
        body.len() < 1296,
{
    let cells = body.to_set();
    body.unique_seq_to_set();
    let grid = Set::new(|c: (i16, i16)| in_grid(c));
    assert(cells.subset_of(grid.remove(free)));
    lemma_grid_size();
    vstd::set_lib::lemma_len_subset(cells, grid.remove(free));
}

proof fn lemma_grid_size()
    ensures
        Set::new(|c: (i16, i16)| in_grid(c)).finite(),
        Set::new(|c: (i16, i16)| in_grid(c)).len() == 1296,
{
    let grid = Set::new(|c: (i16, i16)| in_grid(c));
    // Build the grid as the image of an injective map from 0..1296.
    let idx = vstd::set_lib::set_int_range(0, 1296);
    let f = |n: int| ((n % 36) as i16, (n / 36) as i16);
    assert forall|c: (i16, i16)| grid.contains(c) implies idx.map(f).contains(c) by {
        let n = c.1 * 36 + c.0;
        assert(idx.contains(n));
        assert(f(n) == c);
    }
    assert forall|c: (i16, i16)| idx.map(f).contains(c) implies grid.contains(c) by {
        let n = choose|n: int| idx.contains(n) && f(n) == c;
        assert(0 <= n % 36 < 36);
        assert(0 <= n / 36 < 36);
    }
    assert(grid =~= idx.map(f));
    vstd::set_lib::lemma_int_range(0, 1296);
    assert forall|a: int, b: int| idx.contains(a) && idx.contains(b) && f(a) == f(b) implies a == b by {
        assert(a == (a / 36) * 36 + a % 36);
        assert(b == (b / 36) * 36 + b % 36);
    }
    vstd::set_lib::lemma_map_size(idx, grid, f);
}

/// After a step into a free on-board cell the new body stays on the board without overlaps.
proof fn lemma_moved_body_wf(old_body: Seq<(i16, i16)>, next: (i16, i16), new_len: int)
    requires
        in_grid(next),
        !old_body.contains(next),
        forall|i: int| 0 <= i < old_body.len() ==> #[trigger] in_grid(old_body[i]),
        forall|i: int, j: int| 0 <= i < j < old_body.len() ==> old_body[i] != old_body[j],
        1 <= new_len <= old_body.len() + 1,
    ensures
        ({
            let nb = seq![next] + old_body.take(new_len - 1);
            &&& forall|i: int| 0 <= i < nb.len() ==> #[trigger] in_grid(nb[i])
            &&& forall|i: int, j: int| 0 <= i < j < nb.len() ==> nb[i] != nb[j]
        }),
{
    let nb = seq![next] + old_body.take(new_len - 1);
    assert forall|i: int| 0 <= i < nb.len() implies #[trigger] in_grid(nb[i]) by {
        if i > 0 {
            assert(nb[i] == old_body[i - 1]);
        }
    }
    assert forall|i: int, j: int| 0 <= i < j < nb.len() implies nb[i] != nb[j] by {
        assert(nb[j] == old_body[j - 1]);
        if i > 0 {
            assert(nb[i] == old_body[i - 1]);
        } else {
            assert(old_body[j - 1] != next);
        }
    }
}

/// A quarter turn clockwise followed by one counter-clockwise restores the direction;
/// four quarter turns in the same sense make a full circle.
pub proof fn lemma_turns(d: Dir)
    ensures
        turn_ccw(turn_cw(d)) == d,
        turn_cw(turn_ccw(d)) == d,
        turn_cw(turn_cw(turn_cw(turn_cw(d)))) == d,
        turn_ccw(turn_ccw(turn_ccw(turn_ccw(d)))) == d,
{
}

/// A step moves the head one cell on the board, whose rows grow toward the bottom of the
/// screen: up to the row above, down to the row below, right to the next column, left to
/// the previous one. A clockwise turn rotates the step a quarter turn clockwise on screen,
/// so a snake heading right turns to head down.
pub proof fn lemma_step_directions(s: SnakeState)
    requires
        s.wf(),
        s.len >= 1,
    ensures
        ({
            let (x, y) = s.body@[0];
            &&& s.dir == Dir::Up ==> s.next_head() == (x, (y - 1) as i16)
            &&& s.dir == Dir::Down ==> s.next_head() == (x, (y + 1) as i16)
            &&& s.dir == Dir::Right ==> s.next_head() == ((x + 1) as i16, y)
            &&& s.dir == Dir::Left ==> s.next_head() == ((x - 1) as i16, y)
        }),
        dir_dx(turn_cw(s.dir)) == -dir_dy(s.dir),
        dir_dy(turn_cw(s.dir)) == dir_dx(s.dir),
        turn_cw(Dir::Right) == Dir::Down,
{
    assert(in_grid(s.body@[0]));
}

/// The start position lies on the board, without overlaps.
proof fn lemma_start_body_wf()
    ensures
        forall|i: int| 0 <= i < start_body().len() ==> #[trigger] in_grid(start_body()[i]),
        forall|i: int, j: int| 0 <= i < j < start_body().len() ==> start_body()[i] != start_body()[j],
{
}

/// How a board cell is painted.
#[derive(Copy, Clone, Debug, PartialEq, Eq, Structural)]
pub enum CellPaint {
    /// The checkered grass of the empty board (light where `x + y` is even).
    Grass,
    Snake,
    Apple,
}

/// Text shown over the board while no game is running.
#[derive(Copy, Clone, Debug, PartialEq, Eq, Structural)]
pub enum SnakeBanner {
    Win,
    GameOver,
    Start,
}

/// Whether a grass cell is drawn in the light shade.
pub fn grass_is_light(x: i16, y: i16) -> (r: bool)
    ensures
        r == ((x + y) % 2 == 0),
{
    let sum = x as i32 + y as i32;
    let r = (sum & 1) == 0;
    assert(r == (sum % 2 == 0)) by (bit_vector)
        requires
            r == ((sum & 1) == 0),
    ;
    r
}

/// What to draw for one frame of the game, in drawing order: the empty board, the
/// cells that clear the previous snake, the status text area, the cells of this frame,
/// the banner and the four-digit score.
pub struct SnakeFrame {
    pub draw_board: bool,
    pub clear_cells: Vec<(i16, i16, CellPaint)>,
    pub clear_status: bool,
    pub cells: Vec<(i16, i16, CellPaint)>,
    pub banner: Option<SnakeBanner>,
    /// The score modulo 10000, shown with four digits.
    pub score: u32,
}

/// The cells `cs`, all painted `p`.
pub open spec fn painted(cs: Seq<(i16, i16)>, p: CellPaint) -> Seq<(i16, i16, CellPaint)> {
    Seq::new(cs.len(), |i: int| (cs[i].0, cs[i].1, p))
}

/// The cell `c` painted `p`, if there is one.
pub open spec fn painted_opt(c: Option<(i16, i16)>, p: CellPaint) -> Seq<(i16, i16, CellPaint)> {
    match c {
        Some(a) => seq![(a.0, a.1, p)],
        None => Seq::empty(),
    }
}

/// Cells that erase the previous snake and apple when the board must be cleared.
pub open spec fn frame_clear_cells(s: SnakeState) -> Seq<(i16, i16, CellPaint)> {
    if s.needs_clear_all {
        painted(s.body_seq(), CellPaint::Grass) + painted_opt(
            if s.last_apple is Some { s.last_apple } else { s.apple },
            CellPaint::Grass,
        )
    } else {
        Seq::empty()
    }
}

/// Cells of a running game: everything when the snake is not on screen yet, otherwise
/// only the erased tail, the new head and the apple.
pub open spec fn frame_cells(s: SnakeState) -> Seq<(i16, i16, CellPaint)> {
    if s.started && !s.game_over {
        if !s.snake_drawn {
            painted_opt(s.apple, CellPaint::Apple) + painted(s.body_seq(), CellPaint::Snake)
        } else {
            painted_opt(s.last_tail, CellPaint::Grass) + seq![(s.body@[0].0, s.body@[0].1, CellPaint::Snake)]
                + painted_opt(s.apple, CellPaint::Apple)
        }
    } else {
        Seq::empty()
    }
}

pub open spec fn frame_banner(s: SnakeState) -> Option<SnakeBanner> {
    if !s.started || s.game_over || s.win {
        Some(if s.win { SnakeBanner::Win } else if s.game_over { SnakeBanner::GameOver } else { SnakeBanner::Start })
    } else {
        None
    }
}

/// The drawing bookkeeping after a frame has been drawn.
pub open spec fn after_frame(s: SnakeState, t: SnakeState) -> bool {
    &&& t.bg_drawn == true
    &&& t.snake_drawn == (if s.needs_clear_all { false } else if s.started && !s.snake_drawn { true } else { s.snake_drawn })
    &&& t.last_tail is None
    &&& t.text_visible == (!s.started || s.game_over || s.win)
    &&& t.needs_clear_all == false
    &&& t.last_apple == (if s.needs_clear_all { None } else { s.last_apple })
    &&& t.body == s.body
    &&& t.len == s.len
    &&& t.dir == s.dir
    &&& t.started == s.started
    &&& t.game_over == s.game_over
    &&& t.win == s.win
    &&& t.last_step_ms == s.last_step_ms
    &&& t.apple == s.apple
    &&& t.score == s.score
    &&& t.rng == s.rng
    &&& t.pending_steps == s.pending_steps
}

fn push_painted(out: &mut Vec<(i16, i16, CellPaint)>, body: &Vec<(i16, i16)>, len: usize, p: CellPaint)
    requires
        len <= body@.len(),
    ensures
        final(out)@ == old(out)@ + painted(body@.subrange(0, len as int), p),
{
    let mut i: usize = 0;
    while i < len
        invariant
            i <= len,
            len <= body@.len(),
            out@ == old(out)@ + painted(body@.subrange(0, i as int), p),
        decreases len - i,
    {
        let c = body[i];
        out.push((c.0, c.1, p));
        proof {
            assert(painted(body@.subrange(0, i + 1), p) =~= painted(body@.subrange(0, i as int), p).push((c.0, c.1, p)));
        }
        i = i + 1;
    }
}

fn push_painted_opt(out: &mut Vec<(i16, i16, CellPaint)>, c: Option<(i16, i16)>, p: CellPaint)
    ensures
        final(out)@ == old(out)@ + painted_opt(c, p),
{
    match c {
        Some(a) => {
            out.push((a.0, a.1, p));
            assert(old(out)@.push((a.0, a.1, p)) =~= old(out)@ + seq![(a.0, a.1, p)]);
        },
        None => {
            assert(old(out)@ + Seq::<(i16, i16, CellPaint)>::empty() =~= old(out)@);
        },
    }
}

/// Plans the drawing of one frame and records on the state what will be on screen.
/// A state that was never set up is reset first.
pub fn play_snake(state: &mut SnakeState) -> (frame: SnakeFrame)
    requires
        old(state).body@.len() == SNAKE_MAX_LEN,
        old(state).len <= SNAKE_MAX_LEN,
    ensures
        ({
            let s = if old(state).len == 0 { frame_reset_state(*old(state), *final(state)) } else { *old(state) };
            &&& frame.draw_board == !s.bg_drawn
            &&& frame.clear_cells@ == frame_clear_cells(s)
            &&& frame.clear_status == (s.started && s.text_visible)
            &&& frame.cells@ == frame_cells(s)
            &&& frame.banner == frame_banner(s)
            &&& frame.score == s.score % 10000
            &&& after_frame(s, *final(state))
        }),
        old(state).len == 0 ==> final(state).body_seq() == start_body() && spawn_outcome(
            start_body(),
            4,
            old(state).rng,
            final(state).apple,
            final(state).rng,
        ),
        old(state).wf() ==> final(state).wf(),
{
    if state.len == 0 {
        reset_snake_state(state, false);
    }
    let ghost s = *state;
    let draw_bg = !state.bg_drawn;
    let draw_full = !state.snake_drawn;
    let clear_all = state.needs_clear_all;
    let started = state.started;
    let game_over = state.game_over;
    let win = state.win;

    let mut clear_cells: Vec<(i16, i16, CellPaint)> = Vec::new();
    if clear_all {
        push_painted(&mut clear_cells, &state.body, state.len, CellPaint::Grass);
        let prev = if state.last_apple.is_some() { state.last_apple } else { state.apple };
        push_painted_opt(&mut clear_cells, prev, CellPaint::Grass);
        assert(clear_cells@ =~= frame_clear_cells(s));
    } else {
        assert(clear_cells@ =~= frame_clear_cells(s));
    }

    let mut cells: Vec<(i16, i16, CellPaint)> = Vec::new();
    if started && !game_over {
        if draw_full {
            push_painted_opt(&mut cells, state.apple, CellPaint::Apple);
            push_painted(&mut cells, &state.body, state.len, CellPaint::Snake);
            assert(cells@ =~= frame_cells(s));
        } else {
            push_painted_opt(&mut cells, state.last_tail, CellPaint::Grass);
            let head = state.body[0];
            cells.push((head.0, head.1, CellPaint::Snake));
            push_painted_opt(&mut cells, state.apple, CellPaint::Apple);
            assert(cells@ =~= frame_cells(s));
        }
    } else {
        assert(cells@ =~= frame_cells(s));
    }

    let banner = if !started || game_over || win {
        Some(if win { SnakeBanner::Win } else if game_over { SnakeBanner::GameOver } else { SnakeBanner::Start })
    } else {
        None
    };
    let frame = SnakeFrame {
        draw_board: draw_bg,
        clear_cells,
        clear_status: started && state.text_visible,
        cells,
        banner,
        score: state.score % 10000,
    };

    state.bg_drawn = true;
    if started && draw_full {
        state.snake_drawn = true;
    }
    state.last_tail = None;
    state.text_visible = !started || game_over || win;
    if clear_all {
        state.needs_clear_all = false;
        state.snake_drawn = false;
        state.last_apple = None;
    }
    frame
}

/// The state that setting up a fresh game leaves before its first frame.
pub open spec fn frame_reset_state(old_state: SnakeState, t: SnakeState) -> SnakeState {
    SnakeState {
        body: t.body,
        len: SNAKE_START_LEN,
        dir: Dir::Right,
        started: false,
        game_over: false,
        win: false,
        last_step_ms: 0,
        bg_drawn: false,
        snake_drawn: false,
        last_tail: None,
        text_visible: false,
        needs_clear_all: false,
        apple: t.apple,
        last_apple: None,
        score: 0,
        rng: t.rng,
        pending_steps: 0,
    }
}

} // verus!
