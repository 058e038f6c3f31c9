// Receive side of the UART terminal page: bytes are collected into a line buffer,
// completed lines are wrapped at the screen width and only the newest rows are kept.
use vstd::prelude::*;

verus! {

/// Characters per terminal row.
pub const TERM_COLS: usize = 16;
/// Rows kept (and shown) by the terminal.
pub const TERM_ROWS: usize = 8;
/// Capacity of the pending-line buffer in bytes.
pub const TERM_LINE_BUF_CAP: usize = 256;

#[verifier::external_type_specification]
#[verifier::external_body]
pub struct ExHeaplessString<const N: usize>(heapless::String<N>);

#[verifier::external_type_specification]
#[verifier::external_body]
#[verifier::reject_recursive_types(T)]
pub struct ExHeaplessVec<T, const N: usize>(heapless::Vec<T, N>);

/// Bytes held by a terminal row.
pub uninterp spec fn row_bytes(s: heapless::String<16>) -> Seq<u8>;

/// Bytes held by the pending-line buffer.
pub uninterp spec fn pending_bytes(s: heapless::String<256>) -> Seq<u8>;

/// Rows held by the row list, oldest first, each as its bytes.
pub uninterp spec fn rows_content(v: heapless::Vec<heapless::String<16>, 8>) -> Seq<Seq<u8>>;

/// `heapless::String::<16>::new`: an empty row.
#[verifier::external_body]
fn row_new() -> (r: heapless::String<16>)
    ensures
        row_bytes(r) == Seq::<u8>::empty(),
{
    heapless::String::new()
}

/// `heapless::String::<16>::push` with an ASCII character: appends its byte when the
/// row holds fewer than 16 bytes, otherwise fails and leaves the row as it was.
#[verifier::external_body]
fn row_push(s: &mut heapless::String<16>, c: char) -> (r: Result<(), ()>)
    requires
        (c as u32) < 128,
    ensures
        row_bytes(*old(s)).len() < 16 ==> r is Ok && row_bytes(*final(s)) == row_bytes(*old(s)).push(c as u8),
        row_bytes(*old(s)).len() >= 16 ==> r is Err && row_bytes(*final(s)) == row_bytes(*old(s)),
{
    s.push(c)
}

/// `heapless::String::<256>::new`: an empty buffer.
#[verifier::external_body]
fn pending_new() -> (r: heapless::String<256>)
    ensures
        pending_bytes(r) == Seq::<u8>::empty(),
{
    heapless::String::new()
}

/// `str::len` of the buffer: the number of bytes it holds (at most its capacity).
#[verifier::external_body]
fn pending_len(s: &heapless::String<256>) -> (r: usize)
    ensures
        r == pending_bytes(*s).len(),
        r <= 256,
{
    s.len()
}

/// `heapless::String::<256>::push` with an ASCII character: appends its byte when the
/// buffer holds fewer than 256 bytes, otherwise fails and leaves it as it was.
#[verifier::external_body]
fn pending_push(s: &mut heapless::String<256>, c: char) -> (r: Result<(), ()>)
    requires
        (c as u32) < 128,
    ensures
        pending_bytes(*old(s)).len() < 256 ==> r is Ok && pending_bytes(*final(s)) == pending_bytes(*old(s)).push(c as u8),
        pending_bytes(*old(s)).len() >= 256 ==> r is Err && pending_bytes(*final(s)) == pending_bytes(*old(s)),
{
    s.push(c)
}

/// `heapless::String::<256>::clear`: the buffer becomes empty.
#[verifier::external_body]
fn pending_clear(s: &mut heapless::String<256>)
    ensures
        pending_bytes(*final(s)) == Seq::<u8>::empty(),
{
    s.clear()
}

/// `str::as_bytes` of the buffer, copied out: the bytes it holds, in order.
#[verifier::external_body]
fn pending_copy(s: &heapless::String<256>) -> (r: Vec<u8>)
    ensures
        r@ == pending_bytes(*s),
{
    s.as_bytes().to_vec()
}

/// `heapless::Vec::<_, 8>::new`: no rows.
#[verifier::external_body]
fn rows_new() -> (r: heapless::Vec<heapless::String<16>, 8>)
    ensures
        rows_content(r) == Seq::<Seq<u8>>::empty(),
{
    heapless::Vec::new()
}

/// `heapless::Vec::len`: the number of rows (at most 8).
#[verifier::external_body]
fn rows_len(v: &heapless::Vec<heapless::String<16>, 8>) -> (r: usize)
    ensures
        r == rows_content(*v).len(),
        r <= 8,
{
    v.len()
}

/// `heapless::Vec::is_full`: whether 8 rows are held.
#[verifier::external_body]
fn rows_is_full(v: &heapless::Vec<heapless::String<16>, 8>) -> (r: bool)
    ensures
        r == (rows_content(*v).len() == 8),
{
    v.is_full()
}

/// `heapless::Vec::remove(0)`: drops the oldest row (the list must not be empty).
#[verifier::external_body]
fn rows_remove_first(v: &mut heapless::Vec<heapless::String<16>, 8>)
    requires
        rows_content(*old(v)).len() > 0,
    ensures
        rows_content(*final(v)) == rows_content(*old(v)).drop_first(),
{
    let _ = v.remove(0);
}

/// `heapless::Vec::push`: appends the row when fewer than 8 are held, else fails and
/// leaves the list as it was.
#[verifier::external_body]
fn rows_push(v: &mut heapless::Vec<heapless::String<16>, 8>, line: heapless::String<16>) -> (r: bool)
    ensures
        rows_content(*old(v)).len() < 8 ==> r && rows_content(*final(v)) == rows_content(*old(v)).push(row_bytes(line)),
        rows_content(*old(v)).len() >= 8 ==> !r && rows_content(*final(v)) == rows_content(*old(v)),
{
    v.push(line).is_ok()
}

/// `heapless::Vec::clear`: no rows.
#[verifier::external_body]
fn rows_clear(v: &mut heapless::Vec<heapless::String<16>, 8>)
    ensures
        rows_content(*final(v)) == Seq::<Seq<u8>>::empty(),
{
    v.clear()
}

/// A received line split into rows of at most 16 bytes; an empty line is one empty row.
pub open spec fn wrap_line(b: Seq<u8>) -> Seq<Seq<u8>>
    decreases b.len(),
{
    if b.len() <= 16 {
        seq![b]
    } else {
        seq![b.take(16)] + wrap_line(b.skip(16))
    }
}

/// The last `n` items of `s` (all of them when there are fewer).
pub open spec fn keep_last<A>(s: Seq<A>, n: int) -> Seq<A> {
    if s.len() <= n { s } else { s.skip(s.len() - n) }
}

/// The rows after a line is completed: its rows are appended and the oldest dropped
/// so that no more than eight remain.
pub open spec fn flush_spec(rows: Seq<Seq<u8>>, pending: Seq<u8>) -> Seq<Seq<u8>> {
    keep_last(rows + wrap_line(pending), 8)
}

/// Concatenation of rows.
pub open spec fn join_rows(rows: Seq<Seq<u8>>) -> Seq<u8>
    decreases rows.len(),
{
    if rows.len() == 0 { Seq::empty() } else { rows[0] + join_rows(rows.drop_first()) }
}

pub struct TerminalState {
    lines: heapless::Vec<heapless::String<16>, 8>,
    line_buf: heapless::String<256>,
    dirty: bool,
    line_count: u8,
}

impl TerminalState {
    /// Rows on screen, oldest first.
    pub closed spec fn rows(&self) -> Seq<Seq<u8>> {
        rows_content(self.lines)
    }

    /// Bytes of the line being received.
    pub closed spec fn pending(&self) -> Seq<u8> {
        pending_bytes(self.line_buf)
    }

    /// The rows changed since the page last drew them.
    pub closed spec fn is_dirty(&self) -> bool {
        self.dirty
    }

    pub closed spec fn wf(&self) -> bool {
        &&& self.rows().len() <= 8
        &&& self.line_count == self.rows().len()
        &&& self.pending().len() <= 256
        &&& forall|i: int| 0 <= i < self.pending().len() ==> 0x20 <= #[trigger] self.pending()[i] <= 0x7e
        &&& forall|i: int| 0 <= i < self.rows().len() ==> #[trigger] self.rows()[i].len() <= 16
    }

    pub fn new() -> (r: Self)
        ensures
            r.wf(),
            r.rows() == Seq::<Seq<u8>>::empty(),
            r.pending() == Seq::<u8>::empty(),
            !r.is_dirty(),
    {
        TerminalState { lines: rows_new(), line_buf: pending_new(), dirty: false, line_count: 0 }
    }
}

/// The terminal after receiving `byte`: carriage returns and non-printable bytes are
/// dropped, a newline completes the line, and a byte that finds the buffer full first
/// completes the buffered line.
pub open spec fn push_byte_spec(rows: Seq<Seq<u8>>, pending: Seq<u8>, dirty: bool, byte: u8) -> (Seq<Seq<u8>>, Seq<u8>, bool) {
    if byte == 13 {
        (rows, pending, dirty)
    } else if byte == 10 {
        (flush_spec(rows, pending), Seq::empty(), true)
    } else if byte < 0x20 || byte > 0x7e {
        (rows, pending, dirty)
    } else if pending.len() >= 256 {
        (flush_spec(rows, pending), seq![byte], true)
    } else {
        (rows, pending.push(byte), dirty)
    }
}

proof fn lemma_keep_last_push<A>(s: Seq<A>, x: A)
    requires
        s.len() <= 8,
    ensures
        (if s.len() == 8 { s.drop_first().push(x) } else { s.push(x) }) == keep_last(s.push(x), 8),
{
    if s.len() == 8 {
        assert(s.drop_first().push(x) =~= s.push(x).skip(1));
    }
}

proof fn lemma_keep_last_step<A>(s: Seq<A>, chunks: Seq<A>, k: int)
    requires
        0 <= k < chunks.len(),
    ensures
        keep_last(keep_last(s + chunks.take(k), 8).push(chunks[k]), 8) == keep_last(s + chunks.take(k + 1), 8),
{
    let a = s + chunks.take(k);
    let b = s + chunks.take(k + 1);
    assert(b =~= a.push(chunks[k]));
    let ka = keep_last(a, 8);
    if a.len() > 8 {
        assert(keep_last(ka.push(chunks[k]), 8) =~= keep_last(a.push(chunks[k]), 8));
    }
}

proof fn lemma_wrap_rows_short(b: Seq<u8>)
    ensures
        forall|i: int| 0 <= i < wrap_line(b).len() ==> #[trigger] wrap_line(b)[i].len() <= 16,
        wrap_line(b).len() >= 1,
    decreases b.len(),
{
    if b.len() > 16 {
        lemma_wrap_rows_short(b.skip(16));
        assert forall|i: int| 0 <= i < wrap_line(b).len() implies #[trigger] wrap_line(b)[i].len() <= 16 by {
            if i > 0 {
                assert(wrap_line(b)[i] == wrap_line(b.skip(16))[i - 1]);
            }
        }
    }
}

/// Row `k` of the wrapped line is bytes `16k .. min(16k + 16, len)`.
proof fn lemma_wrap_row(b: Seq<u8>, k: int)
    requires
        b.len() > 0,
        0 <= k,
        16 * k < b.len(),
    ensures
        k < wrap_line(b).len(),
        wrap_line(b)[k] == b.subrange(16 * k, if 16 * k + 16 < b.len() { 16 * k + 16 } else { b.len() as int }),
        wrap_line(b).len() == (b.len() + 15) / 16,
    decreases b.len(),
{
    if b.len() > 16 {
        if k > 0 {
            lemma_wrap_row(b.skip(16), k - 1);
            assert(b.skip(16).subrange(16 * (k - 1), if 16 * (k - 1) + 16 < b.len() - 16 { 16 * (k - 1) + 16 } else { b.len() - 16 }) =~= b.subrange(16 * k, if 16 * k + 16 < b.len() { 16 * k + 16 } else { b.len() as int }));
        } else {
            lemma_wrap_row(b.skip(16), 0);
            assert(b.take(16) =~= b.subrange(0, 16));
        }
    } else {
        assert(b =~= b.subrange(0, b.len() as int));
    }
}

/// Wrapping a line into rows loses, adds and reorders no byte.
pub proof fn lemma_wrap_keeps_bytes(b: Seq<u8>)
    ensures
        join_rows(wrap_line(b)) == b,
    decreases b.len(),
{
    assert(join_rows(Seq::<Seq<u8>>::empty()) == Seq::<u8>::empty());
    if b.len() <= 16 {
        assert(wrap_line(b).drop_first() =~= Seq::<Seq<u8>>::empty());
        assert(b + Seq::<u8>::empty() =~= b);
    } else {
        lemma_wrap_keeps_bytes(b.skip(16));
        assert(wrap_line(b)[0] == b.take(16));
        assert(wrap_line(b).drop_first() =~= wrap_line(b.skip(16)));
        assert(b.take(16) + b.skip(16) =~= b);
    }
}

/// Completes the buffered line: its rows are appended, oldest rows dropped beyond eight.
fn flush_line_buf(term: &mut TerminalState)
    requires
        old(term).wf(),
    ensures
        final(term).wf(),
        final(term).rows() == flush_spec(old(term).rows(), old(term).pending()),
        final(term).pending() == Seq::<u8>::empty(),
        final(term).is_dirty(),
{
    let bytes = pending_copy(&term.line_buf);
    let buf_len = bytes.len();
    pending_clear(&mut term.line_buf);
    let ghost rows0 = rows_content(term.lines);
    let ghost b = bytes@;
    proof {
        lemma_wrap_rows_short(b);
    }
    if buf_len == 0 {
        proof {
            lemma_keep_last_push(rows0, Seq::<u8>::empty());
            assert(b =~= Seq::<u8>::empty());
            assert(wrap_line(b) =~= seq![Seq::<u8>::empty()]);
            assert(rows0 + wrap_line(b) =~= rows0.push(Seq::<u8>::empty()));
        }
        if rows_is_full(&term.lines) {
            rows_remove_first(&mut term.lines);
        }
        let _ = rows_push(&mut term.lines, row_new());
    } else {
        let ghost chunks = wrap_line(b);
        let nchunks: usize = (buf_len + 15) / 16;
        let mut k: usize = 0;
        proof {
            lemma_wrap_row(b, 0);
            assert(chunks.take(0) =~= Seq::<Seq<u8>>::empty());
            assert(rows0 + chunks.take(0) =~= rows0);
        }
        while k < nchunks
            invariant
                bytes@ == b,
                buf_len == b.len(),
                0 < buf_len <= 256,
                forall|i: int| 0 <= i < b.len() ==> #[trigger] b[i] < 128,
                chunks == wrap_line(b),
                nchunks == chunks.len(),
                nchunks == (buf_len + 15) / 16,
                k <= nchunks,
                pending_bytes(term.line_buf) == Seq::<u8>::empty(),
                rows_content(term.lines) == keep_last(rows0 + chunks.take(k as int), 8),
                rows_content(term.lines).len() <= 8,
                forall|i: int| 0 <= i < rows_content(term.lines).len() ==> #[trigger] rows_content(term.lines)[i].len() <= 16,
                forall|i: int| 0 <= i < rows0.len() ==> #[trigger] rows0[i].len() <= 16,
                forall|i: int| 0 <= i < chunks.len() ==> #[trigger] chunks[i].len() <= 16,
            decreases nchunks - k,
        {
            assert(16 * k < buf_len) by (nonlinear_arith)
                requires
                    k < nchunks,
                    nchunks == (buf_len + 15) / 16,
            {}
            let start: usize = k * TERM_COLS;
            let end: usize = if start + TERM_COLS < buf_len { start + TERM_COLS } else { buf_len };
            let mut line = row_new();
            let mut j: usize = start;
            while j < end
                invariant
                    start <= j <= end,
                    end <= buf_len,
                    end - start <= 16,
                    bytes@ == b,
                    buf_len == b.len(),
                    forall|i: int| 0 <= i < b.len() ==> #[trigger] b[i] < 128,
                    row_bytes(line) == b.subrange(start as int, j as int),
                decreases end - j,
            {
                let byte = bytes[j];
                let _ = row_push(&mut line, byte as char);
                proof {
                    assert(b.subrange(start as int, j + 1) =~= b.subrange(start as int, j as int).push(byte));
                }
                j = j + 1;
            }
            proof {
                lemma_wrap_row(b, k as int);
                assert(row_bytes(line) == chunks[k as int]);
                lemma_keep_last_step(rows0, chunks, k as int);
                lemma_keep_last_push(keep_last(rows0 + chunks.take(k as int), 8), chunks[k as int]);
            }
            if rows_is_full(&term.lines) {
                rows_remove_first(&mut term.lines);
            }
            let _ = rows_push(&mut term.lines, line);
            proof {
                let all = rows0 + chunks.take(k + 1);
                let s = keep_last(all, 8);
                assert(rows_content(term.lines) == s);
                assert forall|i: int| 0 <= i < s.len() implies #[trigger] s[i].len() <= 16 by {
                    let off = if all.len() <= 8 { 0 } else { all.len() - 8 };
                    assert(s[i] == all[i + off]);
                    if i + off < rows0.len() {
                        assert(all[i + off] == rows0[i + off]);
                    } else {
                        assert(all[i + off] == chunks[i + off - rows0.len()]);
                    }
                }
            }
            k = k + 1;
        }
        proof {
            assert(chunks.take(chunks.len() as int) =~= chunks);
        }
    }
    let n = rows_len(&term.lines);
    term.line_count = n as u8;
    term.dirty = true;
}

/// Receives one byte from the UART.
pub fn terminal_push_byte(term: &mut TerminalState, byte: u8)
    requires
        old(term).wf(),
    ensures
        final(term).wf(),
        (final(term).rows(), final(term).pending(), final(term).is_dirty())
            == push_byte_spec(old(term).rows(), old(term).pending(), old(term).is_dirty(), byte),
{
    if byte == 13 {
        return;
    }
    if byte == 10 {
        flush_line_buf(term);
        return;
    }
    if byte < 0x20 || byte > 0x7e {
        return;
    }
    if pending_len(&term.line_buf) >= TERM_LINE_BUF_CAP {
        flush_line_buf(term);
    }
    let _ = pending_push(&mut term.line_buf, byte as char);
    proof {
        assert(seq![byte] =~= Seq::<u8>::empty().push(byte));
    }
}

/// Whether rows changed since the flag was last taken.
pub fn terminal_dirty(term: &TerminalState) -> (r: bool)
    ensures
        r == term.is_dirty(),
{
    term.dirty
}

/// Returns whether rows changed and clears the flag.
pub fn terminal_take_dirty(term: &mut TerminalState) -> (r: bool)
    requires
        old(term).wf(),
    ensures
        r == old(term).is_dirty(),
        !final(term).is_dirty(),
        final(term).rows() == old(term).rows(),
        final(term).pending() == old(term).pending(),
        final(term).wf(),
{
    let was = term.dirty;
    term.dirty = false;
    was
}

/// Number of rows held, at most eight.
pub fn terminal_line_count(term: &TerminalState) -> (r: usize)
    requires
        term.wf(),
    ensures
        r == term.rows().len(),
        r <= TERM_ROWS,
{
    term.line_count as usize
}

/// Hands the rows (oldest first) to `f`, which draws them.
pub fn terminal_with_lines<F: FnOnce(&heapless::Vec<heapless::String<16>, 8>)>(term: &TerminalState, f: F)
    requires
        forall|v: &heapless::Vec<heapless::String<16>, 8>| #[trigger] f.requires((v,)),
{
    f(&term.lines);
}

/// Drops all rows and the pending line and clears the flag.
pub fn terminal_reset(term: &mut TerminalState)
    ensures
        final(term).wf(),
        final(term).rows() == Seq::<Seq<u8>>::empty(),
        final(term).pending() == Seq::<u8>::empty(),
        !final(term).is_dirty(),
{
    rows_clear(&mut term.lines);
    pending_clear(&mut term.line_buf);
    term.line_count = 0;
    term.dirty = false;
}

/// Left edge of the terminal box on the panel.
pub const TERM_X: i32 = 73;
/// Top edge of the terminal box on the panel.
pub const TERM_Y: i32 = 73;
pub const TERM_W: u16 = 320;
pub const TERM_H: u16 = 320;
/// Height of a row: the 20-pixel font drawn twice as large.
pub const LINE_H: i32 = 40;

/// What the terminal page remembers between frames.
#[derive(Copy, Clone, Debug, PartialEq, Eq, Structural)]
pub struct TermPageState {
    /// Rows drawn by the last frame.
    pub last_drawn_count: u8,
    /// The page has been drawn since it was entered.
    pub initialized: bool,
}

/// How a frame of the terminal page is drawn.
#[derive(Copy, Clone, Debug, PartialEq, Eq, Structural)]
pub enum TermRenderMode {
    /// First frame on the page: blank the whole panel, then draw every row.
    Initial,
    /// Rows scrolled (or nothing new): blank the box, then draw every row.
    Redraw,
    /// Only rows `first_row..end_row` are new: draw just those.
    Incremental { first_row: usize, end_row: usize },
}

/// A frame of the terminal page: how to draw, and the region to send to the panel
/// as `(x0, y0, x1, y1)`.
#[derive(Copy, Clone, Debug)]
pub struct TermRenderPlan {
    pub mode: TermRenderMode,
    pub flush: (u16, u16, u16, u16),
}

pub fn new_term_page_state() -> (r: TermPageState)
    ensures
        r.last_drawn_count == 0,
        !r.initialized,
{
    TermPageState { last_drawn_count: 0, initialized: false }
}

/// Leaving the page: the next visit starts with a full redraw.
pub fn reset_on_exit(page: &mut TermPageState)
    ensures
        final(page).last_drawn_count == 0,
        !final(page).initialized,
{
    page.initialized = false;
    page.last_drawn_count = 0;
}

/// The plan for a frame with `total` rows held, when `last` rows were drawn before.
pub open spec fn term_plan_spec(initialized: bool, total: int, last: int) -> TermRenderPlan {
    let scrolled = total == 8 && last == 8;
    let new_lines = if total > last && !scrolled { total - last } else { 0 };
    let full_box = (73u16, 73u16, 393u16, 393u16);
    if !initialized {
        TermRenderPlan { mode: TermRenderMode::Initial, flush: full_box }
    } else if scrolled || new_lines == 0 {
        TermRenderPlan { mode: TermRenderMode::Redraw, flush: full_box }
    } else {
        TermRenderPlan {
            mode: TermRenderMode::Incremental { first_row: last as usize, end_row: total as usize },
            flush: (73u16, (73 + last * 40) as u16, 393u16, (73 + total * 40) as u16),
        }
    }
}

/// Plans a frame of the terminal page: takes the terminal's change flag, picks full or
/// incremental drawing, and records the rows drawn.
pub fn render(page: &mut TermPageState, term: &mut TerminalState) -> (plan: TermRenderPlan)
    requires
        old(term).wf(),
        old(page).last_drawn_count <= 8,
    ensures
        plan == term_plan_spec(old(page).initialized, old(term).rows().len() as int, old(page).last_drawn_count as int),
        final(page).initialized,
        final(page).last_drawn_count == old(term).rows().len(),
        final(term).wf(),
        final(term).rows() == old(term).rows(),
        final(term).pending() == old(term).pending(),
        !final(term).is_dirty(),
{
    let _ = terminal_take_dirty(term);
    let is_initial = !page.initialized;
    let total = terminal_line_count(term);
    let last = page.last_drawn_count as usize;
    let scroll_occurred = total == TERM_ROWS && last == TERM_ROWS;
    let new_lines = if total > last && !scroll_occurred { total - last } else { 0 };
    let full_box: (u16, u16, u16, u16) = (73, 73, 393, 393);
    let plan = if is_initial {
        TermRenderPlan { mode: TermRenderMode::Initial, flush: full_box }
    } else if scroll_occurred || new_lines == 0 {
        TermRenderPlan { mode: TermRenderMode::Redraw, flush: full_box }
    } else {
        let y0 = (TERM_Y + last as i32 * LINE_H) as u16;
        let y1 = (TERM_Y + total as i32 * LINE_H) as u16;
        TermRenderPlan { mode: TermRenderMode::Incremental { first_row: last, end_row: total }, flush: (73, y0, 393, y1) }
    };
    page.initialized = true;
    page.last_drawn_count = total as u8;
    plan
}

/// However bytes arrive, the terminal never holds more than eight rows of sixteen bytes.
pub proof fn lemma_rows_bounded(rows: Seq<Seq<u8>>, pending: Seq<u8>)
    requires
        rows.len() <= 8,
        forall|i: int| 0 <= i < rows.len() ==> #[trigger] rows[i].len() <= 16,
    ensures
        flush_spec(rows, pending).len() <= 8,
        forall|i: int| 0 <= i < flush_spec(rows, pending).len() ==> #[trigger] flush_spec(rows, pending)[i].len() <= 16,
{
    lemma_wrap_rows_short(pending);
    let all = rows + wrap_line(pending);
    let s = flush_spec(rows, pending);
    assert forall|i: int| 0 <= i < s.len() implies #[trigger] s[i].len() <= 16 by {
        let off = if all.len() <= 8 { 0 } else { all.len() - 8 };
        assert(s[i] == all[i + off]);
        if i + off >= rows.len() {
            assert(all[i + off] == wrap_line(pending)[i + off - rows.len()]);
        }
    }
}

} // verus!
