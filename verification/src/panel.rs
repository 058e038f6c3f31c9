// Command framing for the CO5300 AMOLED controller: address windows, the bounds a
// solid fill or an image blit must respect, and the repeated colour pattern that is
// streamed for a fill.
use vstd::prelude::*;
use crate::framebuffer::FbError;

verus! {

/// Opcode that starts a pixel write.
pub const RAMWR_OPCODE: u8 = 0x2C;
/// Opcode that continues a pixel write.
pub const RAMWRC_OPCODE: u8 = 0x3C;
/// Column offset of the visible area in the controller's memory.
pub const PANEL_X_OFFSET: u16 = 6;
/// Row offset of the visible area in the controller's memory.
pub const PANEL_Y_OFFSET: u16 = 0;

/// The two bytes of `v`, high byte first.
pub open spec fn be_pair(v: int) -> (u8, u8) {
    ((v / 256) as u8, (v % 256) as u8)
}

/// The column (CASET) and row (RASET) arguments for the window `x0..=x1, y0..=y1` of a
/// `w` by `h` panel whose visible area starts at `(x_off, y_off)` in the controller's
/// memory: start and end, each high byte first. Fails for an empty window or one that
/// leaves the panel.
pub fn panel_window(x0: u16, y0: u16, x1: u16, y1: u16, w: u16, h: u16, x_off: u16, y_off: u16) -> (r: Result<([u8; 4], [u8; 4]), FbError>)
    requires
        w + x_off <= u16::MAX + 1,
        h + y_off <= u16::MAX + 1,
    ensures
        r is Err <==> (x0 > x1 || y0 > y1 || x1 >= w || y1 >= h),
        r matches Ok((ca, ra)) ==> {
            &&& (ca[0], ca[1]) == be_pair(x0 + x_off) && (ca[2], ca[3]) == be_pair(x1 + x_off)
            &&& (ra[0], ra[1]) == be_pair(y0 + y_off) && (ra[2], ra[3]) == be_pair(y1 + y_off)
        },
{
    if x0 > x1 || y0 > y1 || x1 >= w || y1 >= h {
        return Err(FbError::OutOfBounds);
    }
    let x0p = x0 + x_off;
    let x1p = x1 + x_off;
    let y0p = y0 + y_off;
    let y1p = y1 + y_off;
    let ca = [(x0p / 256) as u8, (x0p % 256) as u8, (x1p / 256) as u8, (x1p % 256) as u8];
    let ra = [(y0p / 256) as u8, (y0p % 256) as u8, (y1p / 256) as u8, (y1p % 256) as u8];
    Ok((ca, ra))
}

/// The bottom-right corner of the `w` by `h` rectangle at `(x, y)` on a `pw` by `ph`
/// panel: nothing to do for an empty rectangle, an error when it leaves the panel.
pub fn rect_end(x: u16, y: u16, w: u16, h: u16, pw: u16, ph: u16) -> (r: Result<Option<(u16, u16)>, FbError>)
    ensures
        (w == 0 || h == 0) ==> r == Ok::<Option<(u16, u16)>, FbError>(None),
        (w != 0 && h != 0) ==> (r is Err <==> (x >= pw || y >= ph || x + w > pw || y + h > ph)),
        (w != 0 && h != 0) ==> (r is Ok ==> r == Ok::<Option<(u16, u16)>, FbError>(Some(((x + w - 1) as u16, (y + h - 1) as u16)))),
{
    if w == 0 || h == 0 {
        return Ok(None);
    }
    if x >= pw || y >= ph {
        return Err(FbError::OutOfBounds);
    }
    if x as u32 + w as u32 > pw as u32 || y as u32 + h as u32 > ph as u32 {
        return Err(FbError::OutOfBounds);
    }
    Ok(Some(((x as u32 + w as u32 - 1) as u16, (y as u32 + h as u32 - 1) as u16)))
}

/// As `rect_end`, for an image of big-endian RGB565 bytes, which must hold exactly
/// `w * h` pixels.
pub fn blit_end(x: u16, y: u16, w: u16, h: u16, pw: u16, ph: u16, data_len: usize) -> (r: Result<Option<(u16, u16)>, FbError>)
    ensures
        (w == 0 || h == 0) ==> r == Ok::<Option<(u16, u16)>, FbError>(None),
        (w != 0 && h != 0) ==> (r is Err <==> (x >= pw || y >= ph || x + w > pw || y + h > ph || data_len != w * h * 2)),
        (w != 0 && h != 0) ==> (r is Ok ==> r == Ok::<Option<(u16, u16)>, FbError>(Some(((x + w - 1) as u16, (y + h - 1) as u16)))),
{
    let r = rect_end(x, y, w, h, pw, ph);
    match r {
        Ok(Some(_)) => {
            let w64 = w as u64;
            let h64 = h as u64;
            assert(w64 * h64 <= 0xFFFF_FFFF) by (nonlinear_arith)
                requires
                    w64 <= 0xFFFF,
                    h64 <= 0xFFFF,
            ;
            let wh: u64 = w64 * h64;
            if data_len as u64 != wh * 2 {
                Err(FbError::OutOfBounds)
            } else {
                r
            }
        },
        _ => r,
    }
}

/// `n` bytes repeating the big-endian bytes of `color`, as streamed for a solid fill.
pub fn fill_pattern(color: u16, n: usize) -> (r: Vec<u8>)
    ensures
        r@.len() == n,
        forall|k: int| 0 <= k < n ==> #[trigger] r@[k] == (if k % 2 == 0 { be_pair(color as int).0 } else { be_pair(color as int).1 }),
{
    let hi: u8 = (color / 256) as u8;
    let lo: u8 = (color % 256) as u8;
    let mut out: Vec<u8> = Vec::new();
    let mut k: usize = 0;
    while k < n
        invariant
            k <= n,
            out@.len() == k,
            hi == be_pair(color as int).0 && lo == be_pair(color as int).1,
            forall|j: int| 0 <= j < k ==> #[trigger] out@[j] == (if j % 2 == 0 { hi } else { lo }),
        decreases n - k,
    {
        if k % 2 == 0 {
            out.push(hi);
        } else {
            out.push(lo);
        }
        k = k + 1;
    }
    out
}

/// The opcode of a chunk of a pixel write: the first starts it, the others continue.
pub fn chunk_opcode(first: bool) -> (r: u8)
    ensures
        r == (if first { RAMWR_OPCODE } else { RAMWRC_OPCODE }),
{
    if first { RAMWR_OPCODE } else { RAMWRC_OPCODE }
}

} // verus!
