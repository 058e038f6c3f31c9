// The panel's frame buffer: one RGB565 value per pixel, row by row. Drawing goes into
// the buffer; rectangles of it are then sent to the panel, widened to the 2x2 pixel
// tiles the panel controller refreshes.
use vstd::prelude::*;

verus! {

/// A request that does not fit the panel.
#[derive(Copy, Clone, Debug, PartialEq, Eq, Structural)]
pub enum FbError {
    OutOfBounds,
}

pub struct Framebuffer {
    w: u16,
    h: u16,
    px: Vec<u16>,
}

impl View for Framebuffer {
    type V = Seq<u16>;

    closed spec fn view(&self) -> Seq<u16> {
        self.px@
    }
}

/// Inclusive rectangle test.
pub open spec fn in_rect(x: int, y: int, r: (int, int, int, int)) -> bool {
    r.0 <= x <= r.2 && r.1 <= y <= r.3
}

proof fn lemma_index_unique(w: int, x1: int, y1: int, x2: int, y2: int)
    requires
        w > 0,
        0 <= x1 < w,
        0 <= x2 < w,
        0 <= y1,
        0 <= y2,
        y1 * w + x1 == y2 * w + x2,
    ensures
        x1 == x2 && y1 == y2,
{
    if y1 < y2 {
        assert(y1 * w + w <= y2 * w) by (nonlinear_arith)
            requires
                y1 < y2,
                w > 0,
        ;
    } else if y2 < y1 {
        assert(y2 * w + w <= y1 * w) by (nonlinear_arith)
            requires
                y2 < y1,
                w > 0,
        ;
    }
}

proof fn lemma_index_in_range(w: int, h: int, x: int, y: int)
    requires
        0 <= x < w,
        0 <= y < h,
    ensures
        0 <= y * w + x < w * h,
{
    assert(y * w + x < w * h) by (nonlinear_arith)
        requires
            0 <= x < w,
            0 <= y < h,
    ;
    assert(0 <= y * w) by (nonlinear_arith)
        requires
            0 <= y,
            0 <= x < w,
    ;
}

impl Framebuffer {
    pub closed spec fn width(&self) -> int {
        self.w as int
    }

    pub closed spec fn height(&self) -> int {
        self.h as int
    }

    pub open spec fn wf(&self) -> bool {
        &&& self@.len() == self.width() * self.height()
        &&& self@.len() <= usize::MAX
    }

    /// The value of pixel `(x, y)`.
    pub open spec fn pixel(&self, x: int, y: int) -> u16 {
        self@[y * self.width() + x]
    }

    /// A black buffer of `w` by `h` pixels.
    pub fn new(w: u16, h: u16) -> (r: Self)
        requires
            w * h <= usize::MAX,
        ensures
            r.wf(),
            r.width() == w && r.height() == h,
            forall|i: int| 0 <= i < r@.len() ==> #[trigger] r@[i] == 0,
    {
        let n = (w as usize) * (h as usize);
        let mut px: Vec<u16> = Vec::new();
        let mut i: usize = 0;
        while i < n
            invariant
                i <= n,
                px@.len() == i,
                forall|j: int| 0 <= j < i ==> #[trigger] px@[j] == 0,
            decreases n - i,
        {
            px.push(0);
            i = i + 1;
        }
        Framebuffer { w, h, px }
    }

    pub fn width_px(&self) -> (r: u16)
        ensures
            r == self.width(),
    {
        self.w
    }

    pub fn height_px(&self) -> (r: u16)
        ensures
            r == self.height(),
    {
        self.h
    }

    /// Paints row `y`, columns `x0..=x1`.
    fn fill_row(&mut self, y: usize, x0: usize, x1: usize, color: u16)
        requires
            old(self).wf(),
            x0 <= x1 < old(self).width(),
            y < old(self).height(),
        ensures
            final(self).wf(),
            final(self).width() == old(self).width() && final(self).height() == old(self).height(),
            forall|x: int, yy: int|
                0 <= x < final(self).width() && 0 <= yy < final(self).height() ==> #[trigger] final(self).pixel(x, yy)
                    == (if yy == y && x0 <= x <= x1 { color } else { old(self).pixel(x, yy) }),
    {
        let w = self.w as usize;
        let ghost ow = self.width();
        let ghost oh = self.height();
        let ghost start = self@;
        proof {
            lemma_index_in_range(ow, oh, x1 as int, y as int);
        }
        let base = y * w;
        let mut x = x0;
        while x <= x1
            invariant
                self.wf(),
                self.width() == ow && self.height() == oh,
                w == ow,
                base == y * ow,
                x0 <= x <= x1 + 1,
                x1 < ow,
                y < oh,
                base + x1 < self@.len(),
                forall|i: int| 0 <= i < self@.len() ==> #[trigger] self@[i] == (if base + x0 <= i < base + x { color } else { start[i] }),
            decreases x1 + 1 - x,
        {
            self.px.set(base + x, color);
            x = x + 1;
        }
        proof {
            assert forall|xx: int, yy: int| 0 <= xx < ow && 0 <= yy < oh implies #[trigger] self.pixel(xx, yy) == (if yy == y
                && x0 <= xx <= x1 { color } else { start[yy * ow + xx] }) by {
                lemma_index_in_range(ow, oh, xx, yy);
                let i = yy * ow + xx;
                if base + x0 <= i < base + x {
                    lemma_index_unique(ow, xx, yy, i - base, y as int);
                } else if yy == y && x0 <= xx <= x1 {
                    assert(i == base + xx);
                }
            }
        }
    }

    /// Paints the rectangle between corners `(x0, y0)` and `(x1, y1)` (in either order),
    /// cut to the buffer.
    pub fn fill_rect_fb(&mut self, x0: i32, y0: i32, x1: i32, y1: i32, color: u16)
        requires
            old(self).wf(),
        ensures
            final(self).wf(),
            final(self).width() == old(self).width() && final(self).height() == old(self).height(),
            forall|x: int, y: int|
                0 <= x < final(self).width() && 0 <= y < final(self).height() ==> #[trigger] final(self).pixel(x, y) == (if in_rect(
                    x,
                    y,
                    (min_i(x0 as int, x1 as int), min_i(y0 as int, y1 as int), max_i(x0 as int, x1 as int), max_i(y0 as int, y1 as int)),
                ) { color } else { old(self).pixel(x, y) }),
    {
        let w = self.w as i32;
        let h = self.h as i32;
        if w == 0 || h == 0 {
            return;
        }
        let lx = if x0 <= x1 { x0 } else { x1 };
        let hx = if x0 <= x1 { x1 } else { x0 };
        let ly = if y0 <= y1 { y0 } else { y1 };
        let hy = if y0 <= y1 { y1 } else { y0 };
        let cx0 = if lx < 0 { 0 } else { lx };
        let cy0 = if ly < 0 { 0 } else { ly };
        let cx1 = if hx > w - 1 { w - 1 } else { hx };
        let cy1 = if hy > h - 1 { h - 1 } else { hy };
        if cx0 > cx1 || cy0 > cy1 {
            return;
        }
        let ghost start = *self;
        let mut y = cy0;
        while y <= cy1
            invariant
                self.wf(),
                self.width() == start.width() && self.height() == start.height(),
                w == start.width() && h == start.height(),
                0 <= cx0 <= cx1 < w,
                0 <= cy0 <= y <= cy1 + 1,
                cy1 < h,
                forall|x: int, yy: int|
                    0 <= x < w && 0 <= yy < h ==> #[trigger] self.pixel(x, yy) == (if cy0 <= yy < y && cx0 <= x <= cx1 {
                        color
                    } else {
                        start.pixel(x, yy)
                    }),
            decreases cy1 + 1 - y,
        {
            let ghost before = *self;
            self.fill_row(y as usize, cx0 as usize, cx1 as usize, color);
            proof {
                assert forall|x: int, yy: int| 0 <= x < w && 0 <= yy < h implies #[trigger] self.pixel(x, yy) == (if cy0 <= yy
                    < y + 1 && cx0 <= x <= cx1 { color } else { start.pixel(x, yy) }) by {
                    assert(self.pixel(x, yy) == (if yy == y && cx0 <= x <= cx1 { color } else { before.pixel(x, yy) }));
                }
            }
            y = y + 1;
        }
    }

    /// Copies a `w` by `h` image of big-endian RGB565 bytes into the buffer at `(x, y)`.
    /// Fails, changing nothing, when the data has the wrong length or the image does
    /// not fit.
    pub fn write_rect_fb(&mut self, x: u16, y: u16, w: u16, h: u16, data: &[u8]) -> (r: Result<(), FbError>)
        requires
            old(self).wf(),
        ensures
            final(self).wf(),
            final(self).width() == old(self).width() && final(self).height() == old(self).height(),
            r is Ok <==> (data@.len() == w * h * 2 && x < old(self).width() && y < old(self).height() && x + w
                <= old(self).width() && y + h <= old(self).height()),
            r is Err ==> final(self)@ == old(self)@,
            r is Ok ==> forall|xx: int, yy: int|
                0 <= xx < final(self).width() && 0 <= yy < final(self).height() ==> #[trigger] final(self).pixel(xx, yy) == (if x
                    <= xx < x + w && y <= yy < y + h {
                    be_word(data@, ((yy - y) * w + (xx - x)) * 2)
                } else {
                    old(self).pixel(xx, yy)
                }),
    {
        let fw = self.w as usize;
        let fh = self.h as usize;
        let wu = w as usize;
        let hu = h as usize;
        assert((w as u64) * (h as u64) <= 65535 * 65535) by (nonlinear_arith)
            requires
                w <= 65535,
                h <= 65535,
        ;
        let need: u64 = (w as u64) * (h as u64) * 2;
        if data.len() as u64 != need {
            return Err(FbError::OutOfBounds);
        }
        let xu = x as usize;
        let yu = y as usize;
        if xu >= fw || yu >= fh {
            return Err(FbError::OutOfBounds);
        }
        if xu + wu > fw || yu + hu > fh {
            return Err(FbError::OutOfBounds);
        }
        let ghost start = *self;
        let dl = data.len();
        let mut row: usize = 0;
        while row < hu
            invariant
                dl == data@.len(),
                self.wf(),
                self.width() == fw && self.height() == fh,
                start.width() == fw && start.height() == fh,
                data@.len() == wu * hu * 2,
                xu + wu <= fw,
                yu + hu <= fh,
                row <= hu,
                forall|xx: int, yy: int|
                    0 <= xx < fw && 0 <= yy < fh ==> #[trigger] self.pixel(xx, yy) == (if xu <= xx < xu + wu && yu <= yy < yu
                        + row {
                        be_word(data@, ((yy - yu) * wu + (xx - xu)) * 2)
                    } else {
                        start.pixel(xx, yy)
                    }),
            decreases hu - row,
        {
            let ghost before = *self;
            assert(row * wu * 2 + wu * 2 <= wu * hu * 2) by (nonlinear_arith)
                requires
                    row < hu,
            ;
            assert(row * wu * 2 <= data@.len());
            self.copy_row(xu, yu + row, data, row * wu * 2, wu);
            proof {
                assert forall|xx: int, yy: int| 0 <= xx < fw && 0 <= yy < fh implies #[trigger] self.pixel(xx, yy) == (if xu <= xx
                    < xu + wu && yu <= yy < yu + row + 1 {
                    be_word(data@, ((yy - yu) * wu + (xx - xu)) * 2)
                } else {
                    start.pixel(xx, yy)
                }) by {
                    if yy == yu + row && xu <= xx < xu + wu {
                        assert(((yy - yu) * wu + (xx - xu)) * 2 == row * wu * 2 + (xx - xu) * 2) by (nonlinear_arith)
                            requires
                                yy == yu + row,
                        ;
                    }
                }
            }
            row = row + 1;
        }
        Ok(())
    }

    /// Copies `n` pixels of big-endian bytes starting at `data[off]` into row `y` from `x`.
    fn copy_row(&mut self, x: usize, y: usize, data: &[u8], off: usize, n: usize)
        requires
            old(self).wf(),
            x + n <= old(self).width(),
            y < old(self).height(),
            off + n * 2 <= data@.len(),
        ensures
            final(self).wf(),
            final(self).width() == old(self).width() && final(self).height() == old(self).height(),
            forall|xx: int, yy: int|
                0 <= xx < final(self).width() && 0 <= yy < final(self).height() ==> #[trigger] final(self).pixel(xx, yy)
                    == (if yy == y && x <= xx < x + n { be_word(data@, off + (xx - x) * 2) } else { old(self).pixel(xx, yy) }),
    {
        let fw = self.w as usize;
        let ghost ow = self.width();
        let ghost oh = self.height();
        let ghost start = self@;
        proof {
            if n > 0 {
                lemma_index_in_range(ow, oh, (x + n - 1) as int, y as int);
            }
        }
        let dl = data.len();
        assert(y * ow <= ow * oh) by (nonlinear_arith)
            requires
                y < oh,
                ow >= 0,
        ;
        let base = y * fw;
        proof {
            if n > 0 {
                assert(base + x + n - 1 < self@.len());
            }
        }
        let mut k: usize = 0;
        while k < n
            invariant
                self.wf(),
                self.width() == ow && self.height() == oh,
                fw == ow,
                base == y * ow,
                x + n <= ow,
                y < oh,
                off + n * 2 <= data@.len(),
                dl == data@.len(),
                n > 0 ==> base + x + n - 1 < self@.len(),
                k <= n,
                forall|i: int| 0 <= i < self@.len() ==> #[trigger] self@[i] == (if base + x <= i < base + x + k {
                    be_word(data@, off + (i - base - x) * 2)
                } else {
                    start[i]
                }),
            decreases n - k,
        {
            proof {
                lemma_index_in_range(ow, oh, (x + k) as int, y as int);
            }
            let hi = data[off + 2 * k] as u16;
            let lo = data[off + 2 * k + 1] as u16;
            let v = hi * 256 + lo;
            self.px.set(base + x + k, v);
            k = k + 1;
        }
        proof {
            assert forall|xx: int, yy: int| 0 <= xx < ow && 0 <= yy < oh implies #[trigger] self.pixel(xx, yy) == (if yy == y
                && x <= xx < x + n { be_word(data@, off + (xx - x) * 2) } else { start[yy * ow + xx] }) by {
                lemma_index_in_range(ow, oh, xx, yy);
                let i = yy * ow + xx;
                if base + x <= i < base + x + n {
                    lemma_index_unique(ow, xx, yy, i - base, y as int);
                } else if yy == y && x <= xx < x + n {
                    assert(i == base + xx);
                }
            }
        }
    }

    /// Paints single pixels; those off the buffer are skipped. Returns the smallest
    /// rectangle holding the painted pixels, if any.
    pub fn draw_pixels(&mut self, pixels: &[(i32, i32, u16)]) -> (r: Option<(u16, u16, u16, u16)>)
        requires
            old(self).wf(),
        ensures
            final(self).wf(),
            final(self).width() == old(self).width() && final(self).height() == old(self).height(),
            final(self)@ == pixels_applied(old(self)@, old(self).width(), old(self).height(), pixels@),
            r == dirty_of(old(self).width(), old(self).height(), pixels@),
    {
        let fw = self.w as i32;
        let fh = self.h as i32;
        let ghost ow = self.width();
        let ghost oh = self.height();
        let ghost start = self@;
        let mut dirty: Option<(u16, u16, u16, u16)> = None;
        let mut i: usize = 0;
        while i < pixels.len()
            invariant
                self.wf(),
                self.width() == ow && self.height() == oh,
                fw == ow && fh == oh,
                i <= pixels@.len(),
                self@ == pixels_applied(start, ow, oh, pixels@.take(i as int)),
                dirty == dirty_of(ow, oh, pixels@.take(i as int)),
            decreases pixels@.len() - i,
        {
            let (px, py, c) = pixels[i];
            proof {
                assert(pixels@.take(i + 1).drop_last() =~= pixels@.take(i as int));
                assert(pixels@.take(i + 1).last() == pixels@[i as int]);
            }
            if 0 <= px && px < fw && 0 <= py && py < fh {
                proof {
                    lemma_index_in_range(ow, oh, px as int, py as int);
                }
                let idx = (py as usize) * (fw as usize) + (px as usize);
                self.px.set(idx, c);
                let (x, y) = (px as u16, py as u16);
                dirty = match dirty {
                    Some((a, b, cc, d)) => Some((
                        if x < a { x } else { a },
                        if y < b { y } else { b },
                        if x > cc { x } else { cc },
                        if y > d { y } else { d },
                    )),
                    None => Some((x, y, x, y)),
                };
            }
            i = i + 1;
        }
        proof {
            assert(pixels@.take(pixels@.len() as int) =~= pixels@);
        }
        dirty
    }

    /// The rows `y0..=y1`, columns `x0..=x1` as big-endian bytes, row by row, as sent to
    /// the panel.
    pub fn rect_be_bytes(&self, x0: u16, y0: u16, x1: u16, y1: u16) -> (r: Vec<u8>)
        requires
            self.wf(),
            x0 <= x1 < self.width(),
            y0 <= y1 < self.height(),
        ensures
            r@ == fb_rect_bytes(self@, self.width(), x0 as int, x1 as int, y0 as int, (y1 - y0 + 1) as nat),
    {
        let fw = self.w as usize;
        let ghost ow = self.width();
        let ghost oh = self.height();
        let mut out: Vec<u8> = Vec::new();
        let mut y = y0 as usize;
        while y <= y1 as usize
            invariant
                self.wf(),
                fw == ow && self.height() == oh && self.width() == ow,
                x0 <= x1 < ow,
                y0 <= y <= y1 + 1,
                y1 < oh,
                out@ == fb_rect_bytes(self@, ow, x0 as int, x1 as int, y0 as int, (y - y0) as nat),
            decreases y1 + 1 - y,
        {
            let ghost before = out@;
            let mut x = x0 as usize;
            while x <= x1 as usize
                invariant
                    self.wf(),
                    fw == ow && self.height() == oh && self.width() == ow,
                    x0 <= x <= x1 + 1,
                    x1 < ow,
                    y < oh,
                    out@ == before + row_be_bytes(self@, ow, x0 as int, x as int, y as int),
                decreases x1 + 1 - x,
            {
                proof {
                    lemma_index_in_range(ow, oh, x as int, y as int);
                }
                let v = self.px[y * fw + x];
                out.push((v / 256) as u8);
                out.push((v % 256) as u8);
                proof {
                    assert(row_be_bytes(self@, ow, x0 as int, x + 1, y as int) =~= row_be_bytes(self@, ow, x0 as int, x as int, y as int).push(
                        (v / 256) as u8,
                    ).push((v % 256) as u8));
                }
                x = x + 1;
            }
            proof {
                let n = (y + 1 - y0) as nat;
                assert(fb_rect_bytes(self@, ow, x0 as int, x1 as int, y0 as int, n) == fb_rect_bytes(self@, ow, x0 as int, x1 as int, y0 as int, (n - 1) as nat)
                    + row_be_bytes(self@, ow, x0 as int, x1 + 1, y as int));
            }
            y = y + 1;
        }
        out
    }
}

/// Fixed quantities of a Bresenham walk from `(x0, y0)` to `(x1, y1)`.
pub struct LineWalk {
    pub x0: int,
    pub y0: int,
    pub x1: int,
    pub y1: int,
}

impl LineWalk {
    pub open spec fn a(self) -> int {
        if self.x1 >= self.x0 { self.x1 - self.x0 } else { self.x0 - self.x1 }
    }

    pub open spec fn b(self) -> int {
        if self.y1 >= self.y0 { self.y1 - self.y0 } else { self.y0 - self.y1 }
    }

    pub open spec fn sx(self) -> int {
        if self.x0 < self.x1 { 1 } else { -1 }
    }

    pub open spec fn sy(self) -> int {
        if self.y0 < self.y1 { 1 } else { -1 }
    }

    /// Steps taken along x and y to reach `(x, y)`.
    pub open spec fn i(self, x: int) -> int {
        (x - self.x0) * self.sx()
    }

    pub open spec fn j(self, y: int) -> int {
        (y - self.y0) * self.sy()
    }

    /// `(x, y, err)` is a position of the walk: between the ends, with the error term
    /// that the steps so far produce.
    pub open spec fn on_walk(self, x: int, y: int, err: int) -> bool {
        &&& 0 <= self.i(x) <= self.a()
        &&& 0 <= self.j(y) <= self.b()
        &&& err == self.a() * (1 + self.j(y)) - self.b() * (1 + self.i(x))
        &&& -3 * self.b() <= 2 * err <= 3 * self.a()
    }

    /// One step of the walk: along x when `2 err >= -b`, along y when `2 err <= a`.
    pub open spec fn step(self, x: int, y: int, err: int) -> (int, int, int) {
        let e2 = 2 * err;
        let (x2, err2) = if e2 >= -self.b() { (x + self.sx(), err - self.b()) } else { (x, err) };
        let (y2, err3) = if e2 <= self.a() { (y + self.sy(), err2 + self.a()) } else { (y, err2) };
        (x2, y2, err3)
    }

    /// Steps left to the end.
    pub open spec fn remaining(self, x: int, y: int) -> int {
        (self.a() - self.i(x)) + (self.b() - self.j(y))
    }
}

/// The step directions are unit signs, and the spans are the distances along them.
proof fn lemma_sign_facts(w: LineWalk)
    ensures
        w.sx() * w.sx() == 1 && w.sy() * w.sy() == 1,
        w.a() == (w.x1 - w.x0) * w.sx(),
        w.b() == (w.y1 - w.y0) * w.sy(),
{
    if w.x0 < w.x1 {
        assert(w.sx() == 1);
    } else {
        assert(w.sx() == -1);
        assert(w.a() == (w.x1 - w.x0) * -1);
    }
    if w.y0 < w.y1 {
        assert(w.sy() == 1);
    } else {
        assert(w.sy() == -1);
        assert(w.b() == (w.y1 - w.y0) * -1);
    }
}

/// A step keeps the walk on track and brings it one step closer to the end.
pub proof fn lemma_walk_step(w: LineWalk, x: int, y: int, err: int)
    requires
        w.on_walk(x, y, err),
        !(x == w.x1 && y == w.y1),
    ensures
        ({
            let (x2, y2, e2) = w.step(x, y, err);
            &&& w.on_walk(x2, y2, e2)
            &&& w.remaining(x2, y2) < w.remaining(x, y)
        }),
{
    lemma_sign_facts(w);
    let a = w.a();
    let b = w.b();
    let i = w.i(x);
    let j = w.j(y);
    let sx = w.sx();
    let sy = w.sy();
    assert(x == w.x1 <==> i == a) by (nonlinear_arith)
        requires
            i == (x - w.x0) * sx,
            a == (w.x1 - w.x0) * sx,
            sx * sx == 1,
    ;
    assert(y == w.y1 <==> j == b) by (nonlinear_arith)
        requires
            j == (y - w.y0) * sy,
            b == (w.y1 - w.y0) * sy,
            sy * sy == 1,
    ;
    let xs = 2 * err >= -b;
    let ys = 2 * err <= a;
    assert(xs ==> i < a) by (nonlinear_arith)
        requires
            err == a * (1 + j) - b * (1 + i),
            0 <= i <= a,
            0 <= j <= b,
            !(i == a && j == b),
            xs == (2 * err >= -b),
    ;
    assert(ys ==> j < b) by (nonlinear_arith)
        requires
            err == a * (1 + j) - b * (1 + i),
            0 <= i <= a,
            0 <= j <= b,
            !(i == a && j == b),
            ys == (2 * err <= a),
    ;
    assert(xs || ys) by (nonlinear_arith)
        requires
            err == a * (1 + j) - b * (1 + i),
            0 <= i <= a,
            0 <= j <= b,
            xs == (2 * err >= -b),
            ys == (2 * err <= a),
            a >= 0,
            b >= 0,
    ;
    let (x2, y2, e3) = w.step(x, y, err);
    let i2 = if xs { i + 1 } else { i };
    let j2 = if ys { j + 1 } else { j };
    assert((x2 - w.x0) * sx == i2) by (nonlinear_arith)
        requires
            x2 == (if xs { x + sx } else { x }),
            i == (x - w.x0) * sx,
            sx * sx == 1,
            i2 == (if xs { i + 1 } else { i }),
    ;
    assert((y2 - w.y0) * sy == j2) by (nonlinear_arith)
        requires
            y2 == (if ys { y + sy } else { y }),
            j == (y - w.y0) * sy,
            sy * sy == 1,
            j2 == (if ys { j + 1 } else { j }),
    ;
    assert(w.i(x2) == i2 && w.j(y2) == j2);
    assert(e3 == a * (1 + j2) - b * (1 + i2)) by (nonlinear_arith)
        requires
            e3 == err - (if xs { b } else { 0 }) + (if ys { a } else { 0 }),
            err == a * (1 + j) - b * (1 + i),
            i2 == (if xs { i + 1 } else { i }),
            j2 == (if ys { j + 1 } else { j }),
    ;
    assert(-3 * b <= 2 * e3 <= 3 * a) by (nonlinear_arith)
        requires
            e3 == err - (if xs { b } else { 0 }) + (if ys { a } else { 0 }),
            xs == (2 * err >= -b),
            ys == (2 * err <= a),
            a >= 0,
            b >= 0,
            -3 * b <= 2 * err <= 3 * a,
    ;
}

/// The points the walk visits from `(x, y)`, ending with `(x1, y1)`.
pub open spec fn walk_points(w: LineWalk, x: int, y: int, err: int) -> Seq<(int, int)>
    decreases w.remaining(x, y),
    when w.on_walk(x, y, err)
{
    if x == w.x1 && y == w.y1 {
        seq![(x, y)]
    } else {
        let (x2, y2, e2) = w.step(x, y, err);
        proof {
            lemma_walk_step(w, x, y, err);
        }
        seq![(x, y)] + walk_points(w, x2, y2, e2)
    }
}

/// The square painted for a point of a line drawn `span` pixels wide, cut to the
/// buffer, as `(x_start, y_start, x_end, y_end)`; none when the point is too far off.
pub open spec fn stroke_block(p: (int, int), w: int, h: int, span: int) -> Option<(int, int, int, int)> {
    let half = span / 2;
    if -half <= p.0 < w + half && -half <= p.1 < h + half {
        Some((
            max_i(p.0 - half, 0),
            max_i(p.1 - half, 0),
            min_i(p.0 + (span - half - 1), w - 1),
            min_i(p.1 + (span - half - 1), h - 1),
        ))
    } else {
        None
    }
}

/// The buffer after painting block `b` (rows `b.1..=b.3`, columns `b.0..=b.2`).
pub open spec fn paint_block(fb: Seq<u16>, w: int, b: (int, int, int, int), c: u16) -> Seq<u16> {
    Seq::new(fb.len(), |i: int| if in_rect(i % w, i / w, b) { c } else { fb[i] })
}

/// Grows a bounding box by a block.
pub open spec fn grow_box(bb: Option<(int, int, int, int)>, b: (int, int, int, int)) -> Option<(int, int, int, int)> {
    match bb {
        Some(r) => Some((min_i(r.0, b.0), min_i(r.1, b.1), max_i(r.2, b.2), max_i(r.3, b.3))),
        None => Some(b),
    }
}

/// Painting the blocks of the given points in order: the buffer and the bounding box
/// of the painted blocks.
pub open spec fn paint_points(
    fb: Seq<u16>,
    bb: Option<(int, int, int, int)>,
    w: int,
    h: int,
    span: int,
    c: u16,
    pts: Seq<(int, int)>,
) -> (Seq<u16>, Option<(int, int, int, int)>)
    decreases pts.len(),
{
    if pts.len() == 0 {
        (fb, bb)
    } else {
        let (fb2, bb2) = match stroke_block(pts[0], w, h, span) {
            Some(b) => (paint_block(fb, w, b, c), grow_box(bb, b)),
            None => (fb, bb),
        };
        paint_points(fb2, bb2, w, h, span, c, pts.drop_first())
    }
}

pub open spec fn box_u16(bb: Option<(int, int, int, int)>) -> Option<(u16, u16, u16, u16)> {
    match bb {
        Some(r) => Some((r.0 as u16, r.1 as u16, r.2 as u16, r.3 as u16)),
        None => None,
    }
}

/// Endpoints of a line whose walk stays in `i32`: the doubled error term reaches three
/// times a span, so each span is at most a third of `i32::MAX`.
pub open spec fn line_in_range(x0: i32, y0: i32, x1: i32, y1: i32) -> bool {
    &&& -0x2AAA_AAAA <= x1 - x0 <= 0x2AAA_AAAA
    &&& -0x2AAA_AAAA <= y1 - y0 <= 0x2AAA_AAAA
}

impl Framebuffer {
    /// Paints block `b` (which lies on the buffer).
    fn fill_block(&mut self, bx0: i32, by0: i32, bx1: i32, by1: i32, color: u16)
        requires
            old(self).wf(),
            old(self).width() > 0,
            0 <= bx0,
            0 <= by0,
            bx1 < old(self).width(),
            by1 < old(self).height(),
        ensures
            final(self).wf(),
            final(self).width() == old(self).width() && final(self).height() == old(self).height(),
            final(self)@ == paint_block(old(self)@, old(self).width(), (bx0 as int, by0 as int, bx1 as int, by1 as int), color),
    {
        let ghost start = *self;
        let ghost ow = self.width();
        let ghost oh = self.height();
        if bx0 <= bx1 {
            let mut y = by0;
            while y <= by1
                invariant
                    self.wf(),
                    self.width() == ow && self.height() == oh,
                    0 <= bx0 <= bx1 < ow,
                    0 <= by0,
                    by1 < oh,
                    by0 <= y <= by1 + 1 || (by0 > by1 && y == by0),
                    forall|x: int, yy: int|
                        0 <= x < ow && 0 <= yy < oh ==> #[trigger] self.pixel(x, yy) == (if by0 <= yy < y && bx0 <= x <= bx1 {
                            color
                        } else {
                            start.pixel(x, yy)
                        }),
                decreases by1 + 1 - y,
            {
                let ghost before = *self;
                self.fill_row(y as usize, bx0 as usize, bx1 as usize, color);
                proof {
                    assert forall|x: int, yy: int| 0 <= x < ow && 0 <= yy < oh implies #[trigger] self.pixel(x, yy) == (if by0
                        <= yy < y + 1 && bx0 <= x <= bx1 { color } else { start.pixel(x, yy) }) by {
                        assert(self.pixel(x, yy) == (if yy == y && bx0 <= x <= bx1 { color } else { before.pixel(x, yy) }));
                    }
                }
                y = y + 1;
            }
        }
        proof {
            let b = (bx0 as int, by0 as int, bx1 as int, by1 as int);
            let target = paint_block(start@, ow, b, color);
            assert forall|i: int| 0 <= i < self@.len() implies #[trigger] self@[i] == target[i] by {
                let x = i % ow;
                let yy = i / ow;
                vstd::arithmetic::div_mod::lemma_fundamental_div_mod(i, ow);
                assert(0 <= x < ow);
                assert(0 <= yy < oh) by (nonlinear_arith)
                    requires
                        i == ow * yy + x,
                        0 <= x < ow,
                        0 <= i < ow * oh,
                        ow > 0,
                {
                }
                assert(i == yy * ow + x) by (nonlinear_arith)
                    requires
                        i == ow * yy + x,
                ;
                assert(self.pixel(x, yy) == self@[i]);
            }
            assert(self@ =~= target);
        }
    }

    /// Draws a line `stroke` pixels wide (at least 1) from `(x0, y0)` to `(x1, y1)` with
    /// Bresenham's walk, painting a square at each point and skipping what falls off the
    /// buffer. Returns the rectangle of painted pixels, if any.
    pub fn draw_line_fb(&mut self, x0: i32, y0: i32, x1: i32, y1: i32, color: u16, stroke: u8) -> (r: Option<(u16, u16, u16, u16)>)
        requires
            old(self).wf(),
            line_in_range(x0, y0, x1, y1),
        ensures
            final(self).wf(),
            final(self).width() == old(self).width() && final(self).height() == old(self).height(),
            (old(self).width() == 0 || old(self).height() == 0) ==> r is None && final(self)@ == old(self)@,
            (old(self).width() > 0 && old(self).height() > 0) ==> ({
                let walk = LineWalk { x0: x0 as int, y0: y0 as int, x1: x1 as int, y1: y1 as int };
                let span = if stroke == 0 { 1int } else { stroke as int };
                let (fb, bb) = paint_points(
                    old(self)@,
                    None,
                    old(self).width(),
                    old(self).height(),
                    span,
                    color,
                    walk_points(walk, x0 as int, y0 as int, walk.a() - walk.b()),
                );
                &&& final(self)@ == fb
                &&& r == box_u16(bb)
            }),
    {
        let w = self.w as i32;
        let h = self.h as i32;
        if w == 0 || h == 0 {
            return None;
        }
        let ghost walk = LineWalk { x0: x0 as int, y0: y0 as int, x1: x1 as int, y1: y1 as int };
        let ghost ow = self.width();
        let ghost oh = self.height();
        let ghost start = self@;
        let dx: i32 = if x1 >= x0 { x1 - x0 } else { x0 - x1 };
        let sx: i32 = if x0 < x1 { 1 } else { -1 };
        let dy: i32 = if y1 >= y0 { y0 - y1 } else { y1 - y0 };
        let sy: i32 = if y0 < y1 { 1 } else { -1 };
        let mut err: i32 = dx + dy;
        let span: i32 = if stroke == 0 { 1 } else { stroke as i32 };
        let half: i32 = span / 2;
        let mut x = x0;
        let mut y = y0;
        let mut bbox: Option<(i32, i32, i32, i32)> = None;
        let ghost pts = walk_points(walk, x0 as int, y0 as int, walk.a() - walk.b());
        let ghost span_i = span as int;
        proof {
            assert(walk.on_walk(x0 as int, y0 as int, walk.a() - walk.b())) by {
                lemma_sign_facts(walk);
                let sxv = walk.sx();
                let syv = walk.sy();
                assert((x0 - x0) * sxv == 0 && (y0 - y0) * syv == 0) by (nonlinear_arith);
                assert(walk.i(x0 as int) == 0);
                assert(walk.j(y0 as int) == 0);
                let av = walk.a();
                let bv = walk.b();
                assert(av * (1 + 0) - bv * (1 + 0) == av - bv) by (nonlinear_arith);
            }
        }
        let ghost mut done: Seq<(int, int)> = Seq::empty();
        loop
            invariant_except_break
                pts == done + walk_points(walk, x as int, y as int, err as int),
                paint_points(start, None, ow, oh, span_i, color, pts) == paint_points(
                    self@,
                    match bbox {
                        Some(b) => Some((b.0 as int, b.1 as int, b.2 as int, b.3 as int)),
                        None => None,
                    },
                    ow,
                    oh,
                    span_i,
                    color,
                    walk_points(walk, x as int, y as int, err as int),
                ),
            invariant
                self.wf(),
                self.width() == ow && self.height() == oh,
                w == ow && h == oh,
                w > 0 && h > 0,
                line_in_range(x0, y0, x1, y1),
                walk == (LineWalk { x0: x0 as int, y0: y0 as int, x1: x1 as int, y1: y1 as int }),
                dx == walk.a() && dy == -walk.b() && sx == walk.sx() && sy == walk.sy(),
                1 <= span <= 255,
                span_i == span,
                half == span / 2,
                walk.on_walk(x as int, y as int, err as int),
                bbox matches Some(b) ==> 0 <= b.0 && 0 <= b.1 && -1 <= b.2 < w && -1 <= b.3 < h,
            ensures
                paint_points(start, None, ow, oh, span_i, color, pts) == (
                    self@,
                    match bbox {
                        Some(b) => Some((b.0 as int, b.1 as int, b.2 as int, b.3 as int)),
                        None => None,
                    },
                ),
                self.wf(),
                self.width() == ow && self.height() == oh,
                bbox matches Some(b) ==> 0 <= b.0 && 0 <= b.1 && -1 <= b.2 < w && -1 <= b.3 < h,
            decreases walk.remaining(x as int, y as int),
        {
            proof {
                lemma_sign_facts(walk);
                assert(walk.a() <= 0x2AAA_AAAA && walk.b() <= 0x2AAA_AAAA);
            }
            let ghost before_fb = self@;
            let ghost before_bb = match bbox {
                Some(b) => Some((b.0 as int, b.1 as int, b.2 as int, b.3 as int)),
                None => None,
            };
            if x >= -half && x < w + half && y >= -half && y < h + half {
                let start_x = if x - half > 0 { x - half } else { 0 };
                let start_y = if y - half > 0 { y - half } else { 0 };
                let end_x = if x + (span - half - 1) < w - 1 { x + (span - half - 1) } else { w - 1 };
                let end_y = if y + (span - half - 1) < h - 1 { y + (span - half - 1) } else { h - 1 };
                self.fill_block(start_x, start_y, end_x, end_y, color);
                bbox = match bbox {
                    Some((a, b, c, d)) => Some((
                        if start_x < a { start_x } else { a },
                        if start_y < b { start_y } else { b },
                        if end_x > c { end_x } else { c },
                        if end_y > d { end_y } else { d },
                    )),
                    None => Some((start_x, start_y, end_x, end_y)),
                };
                proof {
                    assert(stroke_block((x as int, y as int), ow, oh, span_i) == Some(
                        (start_x as int, start_y as int, end_x as int, end_y as int),
                    ));
                }
            } else {
                proof {
                    assert(stroke_block((x as int, y as int), ow, oh, span_i) is None);
                }
            }
            let ghost after_bb = match bbox {
                Some(b) => Some((b.0 as int, b.1 as int, b.2 as int, b.3 as int)),
                None => None,
            };
            proof {
                let rest = walk_points(walk, x as int, y as int, err as int);
                assert(rest.len() > 0 && rest[0] == (x as int, y as int)) by {
                    if !(x == x1 && y == y1) {
                        lemma_walk_step(walk, x as int, y as int, err as int);
                    }
                }
                assert(paint_points(before_fb, before_bb, ow, oh, span_i, color, rest) == paint_points(
                    self@,
                    after_bb,
                    ow,
                    oh,
                    span_i,
                    color,
                    rest.drop_first(),
                ));
            }
            if x == x1 && y == y1 {
                proof {
                    let rest = walk_points(walk, x as int, y as int, err as int);
                    assert(rest == seq![(x as int, y as int)]);
                    assert(rest.drop_first() =~= Seq::<(int, int)>::empty());
                    assert(paint_points(self@, after_bb, ow, oh, span_i, color, Seq::<(int, int)>::empty()) == (self@, after_bb));
                }
                break;
            }
            let ghost (nx, ny, ne) = walk.step(x as int, y as int, err as int);
            proof {
                lemma_walk_step(walk, x as int, y as int, err as int);
                let rest = walk_points(walk, x as int, y as int, err as int);
                assert(rest == seq![(x as int, y as int)] + walk_points(walk, nx, ny, ne));
                assert(rest.drop_first() =~= walk_points(walk, nx, ny, ne));
                assert(rest[0] == (x as int, y as int));
                done = done.push((x as int, y as int));
                assert(pts =~= done + walk_points(walk, nx, ny, ne));
                lemma_sign_facts(walk);
                assert(i32::MIN <= nx <= i32::MAX) by (nonlinear_arith)
                    requires
                        walk.on_walk(nx, ny, ne),
                        walk.i(nx) == (nx - x0) * walk.sx(),
                        walk.sx() == 1 || walk.sx() == -1,
                        walk.a() == (x1 - x0) * walk.sx(),
                        i32::MIN <= x0 <= i32::MAX,
                        i32::MIN <= x1 <= i32::MAX,
                {
                }
                assert(i32::MIN <= ny <= i32::MAX) by (nonlinear_arith)
                    requires
                        walk.on_walk(nx, ny, ne),
                        walk.j(ny) == (ny - y0) * walk.sy(),
                        walk.sy() == 1 || walk.sy() == -1,
                        walk.b() == (y1 - y0) * walk.sy(),
                        i32::MIN <= y0 <= i32::MAX,
                        i32::MIN <= y1 <= i32::MAX,
                {
                }
            }
            let e2 = 2 * err;
            if e2 >= dy {
                err = err + dy;
                x = x + sx;
            }
            if e2 <= dx {
                err = err + dx;
                y = y + sy;
            }
            proof {
                assert((x as int, y as int, err as int) == (nx, ny, ne));
            }
        }
        match bbox {
            Some((a, b, c, d)) => Some((a as u16, b as u16, c as u16, d as u16)),
            None => None,
        }
    }
}

/// The part of the area `ax.., ay..` of `aw` by `ah` pixels that lies on a `w` by `h`
/// buffer, as an inclusive rectangle; none when they do not overlap.
pub fn clip_area(ax: i32, ay: i32, aw: u32, ah: u32, w: u16, h: u16) -> (r: Option<(u16, u16, u16, u16)>)
    ensures
        ({
            let x0 = max_i(ax as int, 0);
            let y0 = max_i(ay as int, 0);
            let x1 = min_i(ax + aw - 1, w - 1);
            let y1 = min_i(ay + ah - 1, h - 1);
            r == (if x0 <= x1 && y0 <= y1 { Some((x0 as u16, y0 as u16, x1 as u16, y1 as u16)) } else { None })
        }),
{
    let x0: i64 = if (ax as i64) > 0 { ax as i64 } else { 0 };
    let y0: i64 = if (ay as i64) > 0 { ay as i64 } else { 0 };
    let ex: i64 = ax as i64 + aw as i64 - 1;
    let ey: i64 = ay as i64 + ah as i64 - 1;
    let x1: i64 = if ex < w as i64 - 1 { ex } else { w as i64 - 1 };
    let y1: i64 = if ey < h as i64 - 1 { ey } else { h as i64 - 1 };
    if x0 <= x1 && y0 <= y1 {
        Some((x0 as u16, y0 as u16, x1 as u16, y1 as u16))
    } else {
        None
    }
}

/// The pixel value of the big-endian byte pair at `i`.
pub open spec fn be_word(data: Seq<u8>, i: int) -> u16 {
    (data[i] * 256 + data[i + 1]) as u16
}

pub open spec fn min_i(a: int, b: int) -> int {
    if a <= b { a } else { b }
}

pub open spec fn max_i(a: int, b: int) -> int {
    if a >= b { a } else { b }
}

/// The buffer after painting the given pixels in order, skipping those off it.
pub open spec fn pixels_applied(fb: Seq<u16>, w: int, h: int, pixels: Seq<(i32, i32, u16)>) -> Seq<u16>
    decreases pixels.len(),
{
    if pixels.len() == 0 {
        fb
    } else {
        let prev = pixels_applied(fb, w, h, pixels.drop_last());
        let (x, y, c) = pixels.last();
        if 0 <= x < w && 0 <= y < h { prev.update(y * w + x, c) } else { prev }
    }
}

/// The smallest rectangle holding the given pixels that are on the buffer.
pub open spec fn dirty_of(w: int, h: int, pixels: Seq<(i32, i32, u16)>) -> Option<(u16, u16, u16, u16)>
    decreases pixels.len(),
{
    if pixels.len() == 0 {
        None
    } else {
        let prev = dirty_of(w, h, pixels.drop_last());
        let (x, y, c) = pixels.last();
        if 0 <= x < w && 0 <= y < h {
            let (ux, uy) = (x as u16, y as u16);
            match prev {
                Some((a, b, cc, d)) => Some((
                    if ux < a { ux } else { a },
                    if uy < b { uy } else { b },
                    if ux > cc { ux } else { cc },
                    if uy > d { uy } else { d },
                )),
                None => Some((ux, uy, ux, uy)),
            }
        } else {
            prev
        }
    }
}

/// Big-endian bytes of row `y`, columns `x0..x_end`.
pub open spec fn row_be_bytes(fb: Seq<u16>, w: int, x0: int, x_end: int, y: int) -> Seq<u8>
    decreases x_end - x0,
{
    if x_end <= x0 {
        Seq::empty()
    } else {
        let v = fb[y * w + x_end - 1];
        row_be_bytes(fb, w, x0, x_end - 1, y).push((v / 256) as u8).push((v % 256) as u8)
    }
}

/// Big-endian bytes of rows `y0..y0 + n`, columns `x0..=x1`.
pub open spec fn fb_rect_bytes(fb: Seq<u16>, w: int, x0: int, x1: int, y0: int, n: nat) -> Seq<u8>
    decreases n,
{
    if n == 0 {
        Seq::empty()
    } else {
        fb_rect_bytes(fb, w, x0, x1, y0, (n - 1) as nat) + row_be_bytes(fb, w, x0, x1 + 1, y0 + n - 1)
    }
}

/// The window actually refreshed for the rectangle `x0..=x1, y0..=y1` on a `w` by `h`
/// panel: corners moved outward to even/odd coordinates, cut to the panel. Nothing for
/// an empty rectangle or one starting off the panel.
pub fn even_window(x0: u16, y0: u16, x1: u16, y1: u16, w: u16, h: u16) -> (r: Option<(u16, u16, u16, u16)>)
    ensures
        (x0 > x1 || y0 > y1 || x0 >= w || y0 >= h) ==> r is None,
        !(x0 > x1 || y0 > y1 || x0 >= w || y0 >= h) ==> r == Some((
            (x0 - x0 % 2) as u16,
            (y0 - y0 % 2) as u16,
            min_i(x1 + 1 - x1 % 2, w - 1) as u16,
            min_i(y1 + 1 - y1 % 2, h - 1) as u16,
        )),
{
    if x0 > x1 || y0 > y1 || x0 >= w || y0 >= h {
        return None;
    }
    let ax0 = x0 - x0 % 2;
    let ay0 = y0 - y0 % 2;
    let ox1: u32 = x1 as u32 + 1 - (x1 % 2) as u32;
    let oy1: u32 = y1 as u32 + 1 - (y1 % 2) as u32;
    let ax1 = if ox1 > (w - 1) as u32 { w - 1 } else { ox1 as u16 };
    let ay1 = if oy1 > (h - 1) as u32 { h - 1 } else { oy1 as u16 };
    Some((ax0, ay0, ax1, ay1))
}


/// The two big-endian bytes of a pixel decoded by `be_word` are the bytes it came from.
proof fn lemma_be_word_bytes(data: Seq<u8>, i: int)
    requires
        0 <= i,
        i + 1 < data.len(),
    ensures
        ({
            let v = be_word(data, i);
            (v / 256) as u8 == data[i] && (v % 256) as u8 == data[i + 1]
        }),
{
    let hi = data[i] as int;
    let lo = data[i + 1] as int;
    assert(0 <= hi * 256 + lo <= 65535) by (nonlinear_arith)
        requires
            0 <= hi <= 255,
            0 <= lo <= 255,
    ;
    let v = be_word(data, i);
    assert(v == hi * 256 + lo);
    vstd::arithmetic::div_mod::lemma_fundamental_div_mod_converse(v as int, 256, hi, lo);
}

/// Bytes of the first `k` pixels of image row `r` of a rectangle at `(x, y)`, `w` wide,
/// whose pixels were written from `data`.
proof fn lemma_written_row(fb: Seq<u16>, width: int, x: int, y: int, w: int, h: int, data: Seq<u8>, r: int, k: int)
    requires
        0 <= x,
        0 <= y,
        0 <= r < h,
        0 <= k <= w,
        x + w <= width,
        data.len() == w * h * 2,
        forall|xx: int, yy: int|
            x <= xx < x + w && y <= yy < y + h ==> #[trigger] fb[yy * width + xx] == be_word(data, ((yy - y) * w + (xx - x)) * 2),
    ensures
        row_be_bytes(fb, width, x, x + k, y + r) == data.subrange(r * w * 2, r * w * 2 + 2 * k),
    decreases k,
{
    let base = r * w * 2;
    assert(base + 2 * w <= w * h * 2) by (nonlinear_arith)
        requires
            0 <= r < h,
            w >= 0,
            base == r * w * 2,
    ;
    if k > 0 {
        lemma_written_row(fb, width, x, y, w, h, data, r, k - 1);
        let xx = x + k - 1;
        let yy = y + r;
        let i = ((yy - y) * w + (xx - x)) * 2;
        assert(i == base + 2 * (k - 1)) by (nonlinear_arith)
            requires
                i == ((yy - y) * w + (xx - x)) * 2,
                yy - y == r,
                xx - x == k - 1,
                base == r * w * 2,
        ;
        assert(fb[yy * width + xx] == be_word(data, i));
        assert(yy * width + x + k - 1 == yy * width + xx);
        lemma_be_word_bytes(data, i);
        assert(data.subrange(base, base + 2 * k) =~= data.subrange(base, base + 2 * (k - 1)).push(data[i]).push(data[i + 1]));
    }
}

/// The first `n` rows, as bytes, of a rectangle whose pixels were written from `data`.
proof fn lemma_written_rows(fb: Seq<u16>, width: int, x: int, y: int, w: int, h: int, data: Seq<u8>, n: nat)
    requires
        0 <= x,
        0 <= y,
        w >= 1,
        n <= h,
        x + w <= width,
        data.len() == w * h * 2,
        forall|xx: int, yy: int|
            x <= xx < x + w && y <= yy < y + h ==> #[trigger] fb[yy * width + xx] == be_word(data, ((yy - y) * w + (xx - x)) * 2),
    ensures
        fb_rect_bytes(fb, width, x, x + w - 1, y, n) == data.subrange(0, n * w * 2),
    decreases n,
{
    if n == 0 {
        assert(n * w * 2 == 0) by (nonlinear_arith)
            requires
                n == 0,
        ;
        assert(data.subrange(0, n * w * 2) =~= Seq::<u8>::empty());
    } else {
        lemma_written_rows(fb, width, x, y, w, h, data, (n - 1) as nat);
        lemma_written_row(fb, width, x, y, w, h, data, n - 1, w);
        assert((n - 1) * w * 2 + 2 * w == n * w * 2) by (nonlinear_arith);
        assert(fb_rect_bytes(fb, width, x, x + w - 1, y, n) == fb_rect_bytes(fb, width, x, x + w - 1, y, (n - 1) as nat)
            + row_be_bytes(fb, width, x, x + w, y + (n - 1)));
        assert(n * w * 2 <= w * h * 2) by (nonlinear_arith)
            requires
                n <= h,
                w >= 1,
        ;
        assert(data.subrange(0, n * w * 2) =~= data.subrange(0, (n - 1) * w * 2) + data.subrange(
            (n - 1) * w * 2,
            (n - 1) * w * 2 + 2 * w,
        ));
    }
}

/// Reading back what was written: once `write_rect_fb` has put a `w` by `h` image at
/// `(x, y)`, the bytes `rect_be_bytes` gives for that rectangle are the image's bytes.
pub proof fn lemma_write_then_read(fb: Framebuffer, x: int, y: int, w: int, h: int, data: Seq<u8>)
    requires
        fb.wf(),
        0 <= x,
        0 <= y,
        w >= 1,
        h >= 1,
        x + w <= fb.width(),
        y + h <= fb.height(),
        data.len() == w * h * 2,
        forall|xx: int, yy: int|
            x <= xx < x + w && y <= yy < y + h ==> #[trigger] fb.pixel(xx, yy) == be_word(data, ((yy - y) * w + (xx - x)) * 2),
    ensures
        fb_rect_bytes(fb@, fb.width(), x, x + w - 1, y, h as nat) == data,
{
    assert forall|xx: int, yy: int| x <= xx < x + w && y <= yy < y + h implies #[trigger] fb@[yy * fb.width() + xx] == be_word(
        data,
        ((yy - y) * w + (xx - x)) * 2,
    ) by {
        assert(fb.pixel(xx, yy) == fb@[yy * fb.width() + xx]);
    }
    lemma_written_rows(fb@, fb.width(), x, y, w, h, data, h as nat);
    assert(data.subrange(0, h * w * 2) =~= data) by {
        assert(h * w * 2 == w * h * 2) by (nonlinear_arith);
    }
}

} // verus!
