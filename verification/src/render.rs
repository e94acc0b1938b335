//! The integer parts of the renderer: decoding half-block cells, and the
//! overlays drawn into an RGB8 pixel buffer (crosshair, gun, muzzle flash,
//! minimap).
use vstd::prelude::*;
use crate::world::{World, in_grid, I_WATER, I_GRASS, I_TRUNK, I_LEAVES, I_BRICK, I_WOOD, I_CONCRETE, I_GLASS, I_STONE, I_PLAZA};

verus! {

/// One terminal cell of the half-block renderer: the upper pixel's colour
/// (foreground) and the lower pixel's (background).
#[derive(Clone, Copy, PartialEq, Eq, Structural, Debug)]
pub struct HalfBlockCell {
    pub r_fg: u8,
    pub g_fg: u8,
    pub b_fg: u8,
    pub r_bg: u8,
    pub g_bg: u8,
    pub b_bg: u8,
}

/// The `k`-th cell of a half-block buffer (6 bytes per cell); black where
/// the buffer is too short to hold the whole cell.
pub open spec fn halfblock_at(cells: Seq<u8>, k: int) -> HalfBlockCell {
    let i = 6 * k;
    if i + 5 >= cells.len() {
        HalfBlockCell { r_fg: 0, g_fg: 0, b_fg: 0, r_bg: 0, g_bg: 0, b_bg: 0 }
    } else {
        HalfBlockCell {
            r_fg: cells[i],
            g_fg: cells[i + 1],
            b_fg: cells[i + 2],
            r_bg: cells[i + 3],
            g_bg: cells[i + 4],
            b_bg: cells[i + 5],
        }
    }
}

/// Splits a half-block buffer into `cols * rows` cells, row by row.
pub fn decode_halfblock(cells: &[u8], cols: u32, rows: u32) -> (out: Vec<HalfBlockCell>)
    requires
        cols * rows * 6 <= u32::MAX,
    ensures
        out@ == Seq::new((cols * rows) as nat, |k: int| halfblock_at(cells@, k)),
        out@.len() == cols * rows,
        forall|k: int|
            0 <= k < cols * rows && 6 * k + 5 < cells@.len() ==> {
                let c = #[trigger] out@[k];
                &&& c.r_fg == cells@[6 * k] && c.g_fg == cells@[6 * k + 1] && c.b_fg == cells@[6
                    * k + 2]
                &&& c.r_bg == cells@[6 * k + 3] && c.g_bg == cells@[6 * k + 4] && c.b_bg
                    == cells@[6 * k + 5]
            },
        forall|k: int|
            0 <= k < cols * rows && 6 * k + 5 >= cells@.len() ==> #[trigger] out@[k]
                == (HalfBlockCell { r_fg: 0, g_fg: 0, b_fg: 0, r_bg: 0, g_bg: 0, b_bg: 0 }),
{
    let mut out: Vec<HalfBlockCell> = Vec::new();
    let mut cy: u32 = 0;
    while cy < rows
        invariant
            0 <= cy <= rows,
            cols * rows * 6 <= u32::MAX,
            out@ =~= Seq::new((cy * cols) as nat, |k: int| halfblock_at(cells@, k)),
        decreases rows - cy,
    {
        let mut cx: u32 = 0;
        while cx < cols
            invariant
                0 <= cx <= cols,
                0 <= cy < rows,
                cols * rows * 6 <= u32::MAX,
                out@ =~= Seq::new((cy * cols + cx) as nat, |k: int| halfblock_at(cells@, k)),
            decreases cols - cx,
        {
            proof {
                assert(cy * cols + cx < cols * rows) by (nonlinear_arith)
                    requires
                        cx < cols,
                        cy < rows,
                ;
            }
            let idx = ((cy * cols + cx) * 6) as usize;
            if idx + 5 >= cells.len() {
                out.push(HalfBlockCell { r_fg: 0, g_fg: 0, b_fg: 0, r_bg: 0, g_bg: 0, b_bg: 0 });
            } else {
                out.push(
                    HalfBlockCell {
                        r_fg: cells[idx],
                        g_fg: cells[idx + 1],
                        b_fg: cells[idx + 2],
                        r_bg: cells[idx + 3],
                        g_bg: cells[idx + 4],
                        b_bg: cells[idx + 5],
                    },
                );
            }
            cx += 1;
        }
        proof {
            assert(cy * cols + cols == (cy + 1) * cols) by (nonlinear_arith);
        }
        cy += 1;
    }
    proof {
        assert(rows * cols == cols * rows) by (nonlinear_arith);
    }
    out
}

// ---------------------------------------------------------------------------
// pixels of an RGB8 buffer
// ---------------------------------------------------------------------------

/// Position of the first byte of pixel `(x, y)` in a buffer `rw` pixels wide.
pub open spec fn pixel_index(rw: int, x: int, y: int) -> int {
    (y * rw + x) * 3
}

/// The colour of pixel `(x, y)`.
pub open spec fn pixel(b: Seq<u8>, rw: int, x: int, y: int) -> (u8, u8, u8) {
    let i = pixel_index(rw, x, y);
    (b[i], b[i + 1], b[i + 2])
}

/// The pixels of the `rw x rh` frame that a colouring rule touches get its
/// colour, all others keep theirs, and the bytes after the frame stay as
/// they were.
pub open spec fn painted(
    old_b: Seq<u8>,
    new_b: Seq<u8>,
    rw: int,
    rh: int,
    paint: spec_fn(int, int) -> Option<(u8, u8, u8)>,
) -> bool {
    &&& new_b.len() == old_b.len()
    &&& forall|x: int, y: int|
        0 <= x < rw && 0 <= y < rh ==> #[trigger] pixel(new_b, rw, x, y) == match paint(x, y) {
            Some(c) => c,
            None => pixel(old_b, rw, x, y),
        }
    &&& forall|i: int| rw * rh * 3 <= i < old_b.len() ==> #[trigger] new_b[i] == old_b[i]
}

/// Distinct pixels of the frame own disjoint bytes, all inside the frame.
proof fn lemma_pixels_apart(rw: int, rh: int, x: int, y: int)
    requires
        0 <= x < rw,
        0 <= y < rh,
    ensures
        0 <= pixel_index(rw, x, y),
        pixel_index(rw, x, y) + 3 <= rw * rh * 3,
        forall|a: int, b: int|
            0 <= a < rw && 0 <= b < rh && !(a == x && b == y) ==> (#[trigger] pixel_index(rw, a, b)
                + 3 <= pixel_index(rw, x, y) || pixel_index(rw, x, y) + 3 <= pixel_index(rw, a, b)),
{
    assert(0 <= y * rw + x < rw * rh) by (nonlinear_arith)
        requires
            0 <= x < rw,
            0 <= y < rh,
    ;
    assert forall|a: int, b: int|
        0 <= a < rw && 0 <= b < rh && !(a == x && b == y) implies (#[trigger] pixel_index(
        rw,
        a,
        b,
    ) + 3 <= pixel_index(rw, x, y) || pixel_index(rw, x, y) + 3 <= pixel_index(rw, a, b)) by {
        assert(b * rw + a != y * rw + x) by (nonlinear_arith)
            requires
                0 <= x < rw,
                0 <= a < rw,
                !(a == x && b == y),
        {
            if b == y {
            } else if b < y {
                assert(b * rw + rw <= y * rw) by (nonlinear_arith)
                    requires
                        b < y,
                        rw > 0,
                ;
            } else {
                assert(y * rw + rw <= b * rw) by (nonlinear_arith)
                    requires
                        y < b,
                        rw > 0,
                ;
            }
        }
    }
}

/// Sets pixel `(x, y)` of the `rw x rh` frame to `c`.
pub fn put_pixel(buf: &mut Vec<u8>, rw: usize, rh: usize, x: usize, y: usize, c: (u8, u8, u8))
    requires
        rw * rh * 3 <= old(buf)@.len(),
        x < rw,
        y < rh,
    ensures
        painted(
            old(buf)@,
            final(buf)@,
            rw as int,
            rh as int,
            |a: int, b: int|
                if a == x && b == y {
                    Some(c)
                } else {
                    None
                },
        ),
{
    let len = buf.len();
    proof {
        lemma_pixels_apart(rw as int, rh as int, x as int, y as int);
        assert((y * rw + x) * 3 + 2 < rw * rh * 3);
        assert(0 <= y * rw) by (nonlinear_arith);
    }
    let ghost ob = buf@;
    let idx = (y * rw + x) * 3;
    buf.set(idx, c.0);
    buf.set(idx + 1, c.1);
    buf.set(idx + 2, c.2);
    proof {
        assert forall|a: int, b: int| 0 <= a < rw && 0 <= b < rh implies #[trigger] pixel(
            buf@,
            rw as int,
            a,
            b,
        ) == (if a == x && b == y {
            c
        } else {
            pixel(ob, rw as int, a, b)
        }) by {
            assert(pixel_index(rw as int, a, b) + 3 <= rw * rh * 3) by {
                lemma_pixels_apart(rw as int, rh as int, a, b);
            }
        }
    }
}

/// Sets pixel `(sx, sy)` to `c` when it lies inside the `rw x rh` frame.
pub fn plot(buf: &mut Vec<u8>, rw: usize, rh: usize, sx: i64, sy: i64, c: (u8, u8, u8))
    requires
        rw * rh * 3 <= old(buf)@.len(),
        rw <= i64::MAX,
        rh <= i64::MAX,
    ensures
        painted(
            old(buf)@,
            final(buf)@,
            rw as int,
            rh as int,
            |a: int, b: int|
                if a == sx && b == sy {
                    Some(c)
                } else {
                    None
                },
        ),
{
    if sx < 0 || sy < 0 || sx >= rw as i64 || sy >= rh as i64 {
        return;
    }
    put_pixel(buf, rw, rh, sx as usize, sy as usize, c);
}

/// The crosshair's colour at offset `(dx, dy)` from the centre of the frame.
pub open spec fn crosshair_color(dx: int, dy: int) -> Option<(u8, u8, u8)> {
    if (dx == -2 && dy == 0) || (dx == 2 && dy == 0) || (dx == 0 && dy == -2) || (dx == 0 && dy
        == 2) {
        Some((0u8, 255u8, 220u8))
    } else if (dx == -1 && dy == 0) || (dx == 1 && dy == 0) || (dx == 0 && dy == -1) || (dx == 0
        && dy == 1) {
        Some((40u8, 200u8, 160u8))
    } else if dx == 0 && dy == 0 {
        Some((0u8, 255u8, 255u8))
    } else {
        None
    }
}

/// The crosshair is a plus sign with arms of length 2, the same seen in any
/// mirror or turned a quarter: the centre is cyan (0, 255, 255), the points at
/// distance 1 teal (40, 200, 160), those at distance 2 bright (0, 255, 220),
/// and nothing off the two axes or further out is drawn.
pub proof fn lemma_crosshair_shape(dx: int, dy: int)
    ensures
        crosshair_color(dx, dy) == crosshair_color(-dx, dy),
        crosshair_color(dx, dy) == crosshair_color(dx, -dy),
        crosshair_color(dx, dy) == crosshair_color(dy, dx),
        crosshair_color(dx, dy) is Some <==> ((dx == 0 || dy == 0) && -2 <= dx + dy <= 2),
        crosshair_color(0, 0) == Some((0u8, 255u8, 255u8)),
        crosshair_color(1, 0) == Some((40u8, 200u8, 160u8)),
        crosshair_color(2, 0) == Some((0u8, 255u8, 220u8)),
{
}

/// Draws the crosshair: a bright plus sign of arm length 2 with a dimmer
/// inner ring and a cyan centre, at the middle of the frame.
pub fn draw_crosshair(buf: &mut Vec<u8>, rw: usize, rh: usize)
    requires
        rw * rh * 3 <= old(buf)@.len(),
        rw <= i64::MAX,
        rh <= i64::MAX,
    ensures
        painted(
            old(buf)@,
            final(buf)@,
            rw as int,
            rh as int,
            |x: int, y: int| crosshair_color(x - rw as int / 2, y - rh as int / 2),
        ),
{
    let cx = rw as i64 / 2;
    let cy = rh as i64 / 2;
    plot(buf, rw, rh, cx - 2, cy, (0, 255, 220));
    plot(buf, rw, rh, cx + 2, cy, (0, 255, 220));
    plot(buf, rw, rh, cx, cy - 2, (0, 255, 220));
    plot(buf, rw, rh, cx, cy + 2, (0, 255, 220));
    plot(buf, rw, rh, cx - 1, cy, (40, 200, 160));
    plot(buf, rw, rh, cx + 1, cy, (40, 200, 160));
    plot(buf, rw, rh, cx, cy - 1, (40, 200, 160));
    plot(buf, rw, rh, cx, cy + 1, (40, 200, 160));
    plot(buf, rw, rh, cx, cy, (0, 255, 255));
}

/// Top row of the gun sprite (26 rows tall, at the bottom of the frame).
pub open spec fn gun_top(rh: int) -> int {
    if rh - 26 > 0 {
        rh - 26
    } else {
        0
    }
}

/// The gun viewmodel's colour at `(sx, sy)`: a 13 x 26 sprite centred at
/// the bottom of the frame, with a narrow slide on top of a wider receiver
/// and grip.
pub open spec fn gun_color(rw: int, rh: int, sx: int, sy: int) -> Option<(u8, u8, u8)> {
    let gx0 = rw / 2 - 6;
    let gy0 = gun_top(rh);
    let gx1 = gx0 + 12;
    let gy1 = rh - 1;
    if !(gx0 <= sx <= gx1 && gy0 <= sy <= gy1) {
        None
    } else {
        let in_slide = sx >= gx0 + 3 && sx <= gx0 + 9 && sy <= gy0 + 8;
        let inset: int = if sy >= gy1 - 9 {
            3
        } else {
            1
        };
        let in_body = !in_slide && sx >= gx0 + inset && sx <= gx1 - inset && sy > gy0 + 6;
        if in_slide {
            Some(
                if sy == gy0 {
                    (140u8, 122u8, 96u8)
                } else if sy == gy0 + 1 {
                    (110u8, 98u8, 82u8)
                } else {
                    (64u8, 58u8, 52u8)
                },
            )
        } else if in_body {
            Some(
                if sx < gx0 + inset + 2 || sx > gx1 - inset - 2 {
                    (44u8, 38u8, 34u8)
                } else if (sy - gy0) % 4 == 2 {
                    (74u8, 64u8, 56u8)
                } else {
                    (68u8, 60u8, 52u8)
                },
            )
        } else {
            None
        }
    }
}

/// The gun sprite is the same seen in a mirror about its middle column
/// `rw / 2`, spans the 13 columns around it and the rows from `gun_top(rh)` to
/// the bottom, and its slide's top row is the light (140, 122, 96).
pub proof fn lemma_gun_shape(rw: int, rh: int, k: int, sy: int)
    ensures
        gun_color(rw, rh, rw / 2 - 6 + k, sy) == gun_color(rw, rh, rw / 2 + 6 - k, sy),
        gun_color(rw, rh, rw / 2 - 6 + k, sy) is Some ==> 0 <= k <= 12 && gun_top(rh) <= sy
            < rh,
        0 <= rh - 26 && 3 <= k <= 9 ==> gun_color(rw, rh, rw / 2 - 6 + k, rh - 26) == Some(
            (140u8, 122u8, 96u8),
        ),
{
}

/// The colour of the gun sprite at `(sx, sy)`, for a point of its box.
fn gun_pixel(rw: i64, rh: i64, sx: i64, sy: i64) -> (c: Option<(u8, u8, u8)>)
    requires
        12 <= rw <= i64::MAX,
        0 <= rh <= i64::MAX,
        rw / 2 - 6 <= sx <= rw / 2 + 6,
        gun_top(rh as int) <= sy <= rh - 1,
    ensures
        c == gun_color(rw as int, rh as int, sx as int, sy as int),
{
    let gw: i64 = 13;
    let gx0 = (rw / 2) - gw / 2;
    let gy0 = if rh - 26 > 0 {
        rh - 26
    } else {
        0
    };
    let gx1 = gx0 + gw - 1;
    let gy1 = rh - 1;
    let in_slide = sx >= gx0 + 3 && sx <= gx0 + gw - 4 && sy <= gy0 + 8;
    let inset: i64 = if sy >= gy1 - 9 {
        3
    } else {
        1
    };
    let in_body = !in_slide && sx >= gx0 + inset && sx <= gx1 - inset && sy > gy0 + 6;
    if in_slide {
        if sy == gy0 {
            Some((140, 122, 96))
        } else if sy == gy0 + 1 {
            Some((110, 98, 82))
        } else {
            Some((64, 58, 52))
        }
    } else if in_body {
        let edge = sx < gx0 + inset + 2 || sx > gx1 - inset - 2;
        if edge {
            Some((44, 38, 34))
        } else if (sy - gy0) % 4 == 2 {
            Some((74, 64, 56))
        } else {
            Some((68, 60, 52))
        }
    } else {
        None
    }
}

/// Draws the gun viewmodel at the bottom centre of the frame.
pub fn draw_gun(buf: &mut Vec<u8>, rw: usize, rh: usize)
    requires
        rw * rh * 3 <= old(buf)@.len(),
        12 <= rw <= i64::MAX,
        rh <= i64::MAX,
    ensures
        painted(
            old(buf)@,
            final(buf)@,
            rw as int,
            rh as int,
            |x: int, y: int| gun_color(rw as int, rh as int, x, y),
        ),
{
    let ghost ob = buf@;
    let rwi = rw as i64;
    let rhi = rh as i64;
    let gx0 = rwi / 2 - 6;
    let gx1 = gx0 + 12;
    let gy0 = if rhi - 26 > 0 {
        rhi - 26
    } else {
        0
    };
    let gy1 = rhi - 1;
    let mut sy = gy0;
    while sy <= gy1
        invariant
            gy0 == gun_top(rh as int),
            gy1 == rh - 1,
            gx0 == rw / 2 - 6,
            gx1 == gx0 + 12,
            rwi == rw,
            rhi == rh,
            12 <= rw <= i64::MAX,
            rh <= i64::MAX,
            gy0 <= sy <= gy1 + 1,
            rw * rh * 3 <= ob.len(),
            painted(
                ob,
                buf@,
                rw as int,
                rh as int,
                |x: int, y: int|
                    if y < sy {
                        gun_color(rw as int, rh as int, x, y)
                    } else {
                        None
                    },
            ),
        decreases gy1 + 1 - sy,
    {
        let mut sx = gx0;
        while sx <= gx1
            invariant
                gy0 == gun_top(rh as int),
                gy1 == rh - 1,
                gx0 == rw / 2 - 6,
                gx1 == gx0 + 12,
                rwi == rw,
                rhi == rh,
                12 <= rw <= i64::MAX,
                rh <= i64::MAX,
                gy0 <= sy <= gy1,
                gx0 <= sx <= gx1 + 1,
                rw * rh * 3 <= ob.len(),
                painted(
                    ob,
                    buf@,
                    rw as int,
                    rh as int,
                    |x: int, y: int|
                        if y < sy || (y == sy && x < sx) {
                            gun_color(rw as int, rh as int, x, y)
                        } else {
                            None
                        },
                ),
            decreases gx1 + 1 - sx,
        {
            let ghost before = buf@;
            match gun_pixel(rwi, rhi, sx, sy) {
                Some(c) => {
                    put_pixel(buf, rw, rh, sx as usize, sy as usize, c);
                },
                None => {},
            }
            sx += 1;
        }
        sy += 1;
    }
}

/// The muzzle flash's colour at `(x, y)`: a disc of radius `rad` centred on
/// the middle of the gun's top row, white-hot in its inner third (by squared
/// distance) and orange outside.
pub open spec fn flash_color(rw: int, rh: int, rad: int, x: int, y: int) -> Option<(u8, u8, u8)> {
    let mcx = rw / 2;
    let my = gun_top(rh);
    let d = (x - mcx) * (x - mcx) + (y - my) * (y - my);
    if mcx - rad <= x <= mcx + rad && my - rad <= y <= my + rad && d <= rad * rad {
        Some(
            if d < (rad * rad) / 3 {
                (255u8, 244u8, 190u8)
            } else {
                (255u8, 150u8, 60u8)
            },
        )
    } else {
        None
    }
}

/// The muzzle flash is a disc of radius `rad` centred at `(rw / 2,
/// gun_top(rh))`, the same seen in any mirror through its centre or turned a
/// quarter: a point is lit exactly when it lies within the radius, pale yellow
/// (255, 244, 190) in the inner third of the squared radius and orange
/// (255, 150, 60) outside it.
pub proof fn lemma_flash_shape(rw: int, rh: int, rad: int, a: int, b: int)
    requires
        0 <= rad,
    ensures
        ({
            let (cx, cy) = (rw / 2, gun_top(rh));
            &&& flash_color(rw, rh, rad, cx + a, cy + b) == flash_color(rw, rh, rad, cx - a, cy + b)
            &&& flash_color(rw, rh, rad, cx + a, cy + b) == flash_color(rw, rh, rad, cx + a, cy - b)
            &&& flash_color(rw, rh, rad, cx + a, cy + b) == flash_color(rw, rh, rad, cx + b, cy + a)
            &&& (flash_color(rw, rh, rad, cx + a, cy + b) is Some <==> a * a + b * b <= rad * rad)
            &&& (a * a + b * b < (rad * rad) / 3 ==> flash_color(rw, rh, rad, cx + a, cy + b)
                == Some((255u8, 244u8, 190u8)))
            &&& ((rad * rad) / 3 <= a * a + b * b <= rad * rad ==> flash_color(
                rw,
                rh,
                rad,
                cx + a,
                cy + b,
            ) == Some((255u8, 150u8, 60u8)))
        }),
{
    let (cx, cy) = (rw / 2, gun_top(rh));
    assert((-a) * (-a) == a * a) by (nonlinear_arith);
    assert((-b) * (-b) == b * b) by (nonlinear_arith);
    assert(a * a + b * b <= rad * rad ==> -rad <= a <= rad && -rad <= b <= rad) by (nonlinear_arith)
        requires
            0 <= rad,
    ;
}

/// The flash colour for a point of the disc's bounding box.
fn flash_pixel(rad: i64, dx: i64, dy: i64) -> (c: Option<(u8, u8, u8)>)
    requires
        -2_000_000_000 <= rad <= 2_000_000_000,
        -rad <= dx <= rad,
        -rad <= dy <= rad,
    ensures
        ({
            let d = dx * dx + dy * dy;
            c == if d <= rad * rad {
                Some(
                    if d < (rad * rad) / 3 {
                        (255u8, 244u8, 190u8)
                    } else {
                        (255u8, 150u8, 60u8)
                    },
                )
            } else {
                None
            }
        }),
{
    proof {
        assert(dx * dx <= rad * rad) by (nonlinear_arith)
            requires
                -rad <= dx <= rad,
        ;
        assert(dy * dy <= rad * rad) by (nonlinear_arith)
            requires
                -rad <= dy <= rad,
        ;
        assert(rad * rad <= 4_000_000_000_000_000_000) by (nonlinear_arith)
            requires
                -2_000_000_000 <= rad <= 2_000_000_000,
        ;
        assert(0 <= dx * dx) by (nonlinear_arith);
        assert(0 <= dy * dy) by (nonlinear_arith);
        assert(0 <= rad * rad) by (nonlinear_arith);
    }
    let d = dx * dx + dy * dy;
    if d > rad * rad {
        return None;
    }
    let hot = d < rad * rad / 3;
    if hot {
        Some((255, 244, 190))
    } else {
        Some((255, 150, 60))
    }
}

/// Draws the muzzle flash of radius `rad` over the gun's muzzle.
pub fn draw_muzzle_flash(buf: &mut Vec<u8>, rw: usize, rh: usize, rad: i64)
    requires
        rw * rh * 3 <= old(buf)@.len(),
        rw <= i64::MAX,
        rh <= i64::MAX,
        -2_000_000_000 <= rad <= 2_000_000_000,
        gun_top(rh as int) + 2_000_000_001 <= i64::MAX,
        rw / 2 + 2_000_000_001 <= i64::MAX,
    ensures
        painted(
            old(buf)@,
            final(buf)@,
            rw as int,
            rh as int,
            |x: int, y: int| flash_color(rw as int, rh as int, rad as int, x, y),
        ),
{
    let ghost ob = buf@;
    let rwi = rw as i64;
    let rhi = rh as i64;
    let mcx = rwi / 2;
    let my = if rhi - 26 > 0 {
        rhi - 26
    } else {
        0
    };
    let mut sy = my - rad;
    while sy <= my + rad
        invariant
            mcx == rw / 2,
            my == gun_top(rh as int),
            rwi == rw,
            rhi == rh,
            rw <= i64::MAX,
            rh <= i64::MAX,
            -2_000_000_000 <= rad <= 2_000_000_000,
            gun_top(rh as int) + 2_000_000_001 <= i64::MAX,
            rw / 2 + 2_000_000_001 <= i64::MAX,
            my - rad <= sy,
            rad >= 0 ==> sy <= my + rad + 1,
            rw * rh * 3 <= ob.len(),
            painted(
                ob,
                buf@,
                rw as int,
                rh as int,
                |x: int, y: int|
                    if y < sy {
                        flash_color(rw as int, rh as int, rad as int, x, y)
                    } else {
                        None
                    },
            ),
        decreases my + rad + 1 - sy,
    {
        let mut sx = mcx - rad;
        while sx <= mcx + rad
            invariant
                mcx == rw / 2,
                my == gun_top(rh as int),
                rwi == rw,
                rhi == rh,
                rw <= i64::MAX,
                rh <= i64::MAX,
                -2_000_000_000 <= rad <= 2_000_000_000,
                gun_top(rh as int) + 2_000_000_001 <= i64::MAX,
                rw / 2 + 2_000_000_001 <= i64::MAX,
                my - rad <= sy <= my + rad,
                mcx - rad <= sx <= mcx + rad + 1,
                rw * rh * 3 <= ob.len(),
                painted(
                    ob,
                    buf@,
                    rw as int,
                    rh as int,
                    |x: int, y: int|
                        if y < sy || (y == sy && x < sx) {
                            flash_color(rw as int, rh as int, rad as int, x, y)
                        } else {
                            None
                        },
                ),
            decreases mcx + rad + 1 - sx,
        {
            if !(sx < 0 || sy < 0 || sx >= rwi || sy >= rhi) {
                match flash_pixel(rad, sx - mcx, sy - my) {
                    Some(c) => {
                        put_pixel(buf, rw, rh, sx as usize, sy as usize, c);
                    },
                    None => {},
                }
            }
            sx += 1;
        }
        sy += 1;
    }
}

// ---------------------------------------------------------------------------
// minimap
// ---------------------------------------------------------------------------

/// Minimap colour of a column whose layer 1 holds `b`.
pub open spec fn minimap_rgb(b: u8) -> (u8, u8, u8) {
    if b == I_WATER {
        (40u8, 90u8, 170u8)
    } else if b == I_GRASS {
        (70u8, 140u8, 50u8)
    } else if b == I_TRUNK || b == I_LEAVES {
        (30u8, 110u8, 40u8)
    } else if b == I_BRICK {
        (170u8, 90u8, 70u8)
    } else if b == I_WOOD {
        (115u8, 82u8, 55u8)
    } else if b == I_CONCRETE {
        (140u8, 135u8, 128u8)
    } else if b == I_GLASS {
        (100u8, 140u8, 190u8)
    } else if b == I_STONE || b == I_PLAZA {
        (150u8, 150u8, 148u8)
    } else {
        (20u8, 20u8, 30u8)
    }
}

/// Computes `minimap_rgb(b)`.
pub fn minimap_color(b: u8) -> (c: (u8, u8, u8))
    ensures
        c == minimap_rgb(b),
        b == I_WATER ==> c == (40u8, 90u8, 170u8),
        b == I_GRASS ==> c == (70u8, 140u8, 50u8),
        b == I_TRUNK || b == I_LEAVES ==> c == (30u8, 110u8, 40u8),
        b == I_BRICK ==> c == (170u8, 90u8, 70u8),
        b == I_WOOD ==> c == (115u8, 82u8, 55u8),
        b == I_CONCRETE ==> c == (140u8, 135u8, 128u8),
        b == I_GLASS ==> c == (100u8, 140u8, 190u8),
        b == I_STONE || b == I_PLAZA ==> c == (150u8, 150u8, 148u8),
        b == 0 ==> c == (20u8, 20u8, 30u8),
{
    if b == I_WATER {
        (40, 90, 170)
    } else if b == I_GRASS {
        (70, 140, 50)
    } else if b == I_TRUNK || b == I_LEAVES {
        (30, 110, 40)
    } else if b == I_BRICK {
        (170, 90, 70)
    } else if b == I_WOOD {
        (115, 82, 55)
    } else if b == I_CONCRETE {
        (140, 135, 128)
    } else if b == I_GLASS {
        (100, 140, 190)
    } else if b == I_STONE || b == I_PLAZA {
        (150, 150, 148)
    } else {
        (20, 20, 30)
    }
}

/// The minimap tile `(dx, dy)` (0 ..= 21 each) sits at pixel
/// `(2 + dx, 2 + dy)`; it is drawn when that pixel's column is inside the
/// frame and its row's first bytes are inside the buffer.
pub open spec fn minimap_drawn(rw: int, len: int, dx: int, dy: int) -> bool {
    0 <= dx < 22 && 0 <= dy < 22 && 2 + dx < rw && (2 + dy) * 3 + 2 < len
}

/// The colour of minimap tile `(dx, dy)` around the column `(px, py)`: green
/// for the player in the middle, the block colour of layer 1 inside the
/// world, and a dark blue outside.
pub open spec fn minimap_tile(w: World, px: int, py: int, dx: int, dy: int) -> (u8, u8, u8) {
    let wx = px + dx - 11;
    let wy = py + dy - 11;
    if dx == 11 && dy == 11 {
        (0u8, 255u8, 0u8)
    } else if 0 <= wx < 80 && 0 <= wy < 80 {
        minimap_rgb(w.cell(wx, wy, 1))
    } else {
        (15u8, 15u8, 25u8)
    }
}

/// Byte `i` belongs to a drawn minimap tile.
pub open spec fn in_minimap_tile(rw: int, len: int, i: int) -> bool {
    exists|dx: int, dy: int|
        minimap_drawn(rw, len, dx, dy) && pixel_index(rw, 2 + dx, 2 + dy) <= i < pixel_index(
            rw,
            2 + dx,
            2 + dy,
        ) + 3
}

/// Writes the three bytes of pixel `(x, y)`.
fn set_rgb(buf: &mut Vec<u8>, rw: usize, x: usize, y: usize, c: (u8, u8, u8))
    requires
        x < rw,
        pixel_index(rw as int, x as int, y as int) + 2 < old(buf)@.len(),
    ensures
        final(buf)@ == old(buf)@.update(pixel_index(rw as int, x as int, y as int), c.0).update(
            pixel_index(rw as int, x as int, y as int) + 1,
            c.1,
        ).update(pixel_index(rw as int, x as int, y as int) + 2, c.2),
{
    let len = buf.len();
    proof {
        assert(0 <= y * rw) by (nonlinear_arith);
    }
    let idx = (y * rw + x) * 3;
    buf.set(idx, c.0);
    buf.set(idx + 1, c.1);
    buf.set(idx + 2, c.2);
}

/// Draws the 22 x 22 minimap of the columns around `(px, py)` in the top
/// left corner (tiles at pixels 2 ..= 23).
pub fn draw_minimap_tiles(buf: &mut Vec<u8>, rw: usize, px: i32, py: i32, w: &World)
    requires
        w.wf(),
        i32::MIN + 11 <= px <= i32::MAX - 21,
        i32::MIN + 11 <= py <= i32::MAX - 21,
        forall|dx: int, dy: int|
            minimap_drawn(rw as int, old(buf)@.len() as int, dx, dy) ==> #[trigger] pixel_index(
                rw as int,
                2 + dx,
                2 + dy,
            ) + 2 < old(buf)@.len(),
    ensures
        final(buf)@.len() == old(buf)@.len(),
        forall|dx: int, dy: int|
            minimap_drawn(rw as int, old(buf)@.len() as int, dx, dy) ==> #[trigger] pixel(
                final(buf)@,
                rw as int,
                2 + dx,
                2 + dy,
            ) == minimap_tile(*w, px as int, py as int, dx, dy),
        forall|i: int|
            0 <= i < old(buf)@.len() && !in_minimap_tile(rw as int, old(buf)@.len() as int, i)
                ==> #[trigger] final(buf)@[i] == old(buf)@[i],
{
    let ghost ob = buf@;
    let len = buf.len();
    let mut dy: usize = 0;
    while dy < 22
        invariant
            0 <= dy <= 22,
            w.wf(),
            buf@.len() == len,
            len == ob.len(),
            i32::MIN + 11 <= px <= i32::MAX - 21,
            i32::MIN + 11 <= py <= i32::MAX - 21,
            forall|a: int, b: int|
                minimap_drawn(rw as int, len as int, a, b) ==> #[trigger] pixel_index(
                    rw as int,
                    2 + a,
                    2 + b,
                ) + 2 < len,
            forall|a: int, b: int|
                minimap_drawn(rw as int, len as int, a, b) && b < dy ==> #[trigger] pixel(
                    buf@,
                    rw as int,
                    2 + a,
                    2 + b,
                ) == minimap_tile(*w, px as int, py as int, a, b),
            forall|i: int|
                0 <= i < len && !(exists|a: int, b: int|
                    minimap_drawn(rw as int, len as int, a, b) && b < dy && pixel_index(
                        rw as int,
                        2 + a,
                        2 + b,
                    ) <= i < pixel_index(rw as int, 2 + a, 2 + b) + 3) ==> #[trigger] buf@[i]
                    == ob[i],
        decreases 22 - dy,
    {
        let mut dx: usize = 0;
        while dx < 22
            invariant
                0 <= dx <= 22,
                0 <= dy < 22,
                w.wf(),
                buf@.len() == len,
                len == ob.len(),
                i32::MIN + 11 <= px <= i32::MAX - 21,
                i32::MIN + 11 <= py <= i32::MAX - 21,
                forall|a: int, b: int|
                    minimap_drawn(rw as int, len as int, a, b) ==> #[trigger] pixel_index(
                        rw as int,
                        2 + a,
                        2 + b,
                    ) + 2 < len,
                forall|a: int, b: int|
                    minimap_drawn(rw as int, len as int, a, b) && (b < dy || (b == dy && a < dx))
                        ==> #[trigger] pixel(buf@, rw as int, 2 + a, 2 + b) == minimap_tile(
                        *w,
                        px as int,
                        py as int,
                        a,
                        b,
                    ),
                forall|i: int|
                    0 <= i < len && !(exists|a: int, b: int|
                        minimap_drawn(rw as int, len as int, a, b) && (b < dy || (b == dy && a
                            < dx)) && pixel_index(rw as int, 2 + a, 2 + b) <= i < pixel_index(
                            rw as int,
                            2 + a,
                            2 + b,
                        ) + 3) ==> #[trigger] buf@[i] == ob[i],
            decreases 22 - dx,
        {
            let wx = px + dx as i32 - 11;
            let wy = py + dy as i32 - 11;
            let bx = 2 + dx;
            let by = 2 + dy;
            if !(bx >= rw || by * 3 + 2 >= len) {
                let c = if dx == 11 && dy == 11 {
                    (0u8, 255u8, 0u8)
                } else if wx >= 0 && wx < 80 && wy >= 0 && wy < 80 {
                    minimap_color(w.at(wx, wy, 1))
                } else {
                    (15u8, 15u8, 25u8)
                };
                let ghost before = buf@;
                proof {
                    assert(minimap_drawn(rw as int, len as int, dx as int, dy as int));
                }
                set_rgb(buf, rw, bx, by, c);
                proof {
                    lemma_pixels_apart(rw as int, 24, bx as int, by as int);
                    assert(c == minimap_tile(*w, px as int, py as int, dx as int, dy as int));
                    assert forall|a: int, b: int|
                        minimap_drawn(rw as int, len as int, a, b) && (b < dy || (b == dy && a
                            <= dx)) implies #[trigger] pixel(buf@, rw as int, 2 + a, 2 + b)
                        == minimap_tile(*w, px as int, py as int, a, b) by {
                        if !(a == dx && b == dy) {
                            assert(pixel_index(rw as int, 2 + a, 2 + b) + 3 <= pixel_index(
                                rw as int,
                                bx as int,
                                by as int,
                            ) || pixel_index(rw as int, bx as int, by as int) + 3 <= pixel_index(
                                rw as int,
                                2 + a,
                                2 + b,
                            ));
                            assert(pixel(buf@, rw as int, 2 + a, 2 + b) == pixel(
                                before,
                                rw as int,
                                2 + a,
                                2 + b,
                            ));
                        }
                    }
                }
            }
            dx += 1;
        }
        dy += 1;
    }
}

/// Marks pixel `(bx, by)` of the minimap with `c` when it lies in the
/// minimap's box (pixels 2 ..= 23 each way): the view direction and the
/// dots of other actors.
pub fn plot_minimap(buf: &mut Vec<u8>, rw: usize, bx: i32, by: i32, c: (u8, u8, u8))
    requires
        (2 <= bx < 24 && 2 <= by < 24) ==> pixel_index(rw as int, bx as int, by as int) + 2 < old(buf)@.len(),
    ensures
        final(buf)@ == if 2 <= bx < 24 && 2 <= by < 24 {
            old(buf)@.update(pixel_index(rw as int, bx as int, by as int), c.0).update(
                pixel_index(rw as int, bx as int, by as int) + 1,
                c.1,
            ).update(pixel_index(rw as int, bx as int, by as int) + 2, c.2)
        } else {
            old(buf)@
        },
{
    if bx >= 2 && bx < 24 && by >= 2 && by < 24 {
        let len = buf.len();
        proof {
            assert(0 <= by * rw) by (nonlinear_arith)
                requires
                    0 <= by,
            ;
        }
        let idx = (by as usize * rw + bx as usize) * 3;
        buf.set(idx, c.0);
        buf.set(idx + 1, c.1);
        buf.set(idx + 2, c.2);
    }
}

} // verus!
