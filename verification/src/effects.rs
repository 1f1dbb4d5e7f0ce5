//! The pet's face and mood on the canvas: pupils that follow the cursor and the pixels
//! that the typing heat tints.
use vstd::prelude::*;
use crate::raster::{paint_block, painted_block, block_fits, block_in_range, lemma_div_mod_of_cell, lemma_cell_of_index, side_as_i32, lemma_side_as_i32};

verus! {

/// The eye background colour, as canvas bytes (blue, green, red, alpha).
pub open spec fn eye_background() -> Seq<u8> {
    seq![102u8, 160u8, 217u8, 255u8]
}

/// The pupil colour, as canvas bytes.
pub open spec fn pupil_color() -> Seq<u8> {
    seq![0u8, 0u8, 0u8, 255u8]
}

/// Left edge of the left eye, in sprite pixels.
pub open spec fn left_eye_x() -> int {
    12
}

/// Left edge of the right eye, in sprite pixels.
pub open spec fn right_eye_x() -> int {
    18
}

/// Top of both eyes, in sprite pixels.
pub open spec fn eye_y() -> int {
    9
}

/// One eye at sprite column `ex`: its background block, then the pupil block moved by
/// (`sx`, `sy`) screen pixels; each block is 2 sprite pixels wide, scaled by `s`.
pub open spec fn eye_drawn(canvas: Seq<u8>, cw: int, pos_x: int, pos_y: int, s: int, ex: int, sx: int, sy: int) -> Seq<u8> {
    let bg = painted_block(canvas, cw, pos_x + ex * s, pos_y + eye_y() * s, 2 * s, eye_background());
    painted_block(bg, cw, pos_x + ex * s + sx, pos_y + eye_y() * s + sy, 2 * s, pupil_color())
}

/// Both eyes of the pet whose sprite corner is at (`pos_x`, `pos_y`), left eye first.
pub open spec fn eyes_drawn(canvas: Seq<u8>, cw: int, pos_x: int, pos_y: int, s: int, sx: int, sy: int) -> Seq<u8> {
    let left = eye_drawn(canvas, cw, pos_x, pos_y, s, left_eye_x(), sx, sy);
    eye_drawn(left, cw, pos_x, pos_y, s, right_eye_x(), sx, sy)
}

/// The blocks of one eye can be painted: their coordinates fit in `i32` and their byte
/// offsets in `usize`.
pub open spec fn eye_fits(cw: int, pos_x: int, pos_y: int, s: int, ex: int, sx: int, sy: int) -> bool {
    let bx = pos_x + ex * s;
    let by = pos_y + eye_y() * s;
    &&& i32::MIN <= bx <= i32::MAX && i32::MIN <= by <= i32::MAX
    &&& i32::MIN <= bx + sx <= i32::MAX && i32::MIN <= by + sy <= i32::MAX
    &&& block_fits(cw, bx, by, 2 * s) && block_in_range(bx, by, 2 * s)
    &&& block_fits(cw, bx + sx, by + sy, 2 * s) && block_in_range(bx + sx, by + sy, 2 * s)
}

/// What `draw_eyes` needs of its arguments.
pub open spec fn eyes_args_ok(cw: int, pos_x: int, pos_y: int, scale: int, sx: int, sy: int) -> bool {
    &&& 20 * scale <= i32::MAX
    &&& eye_fits(cw, pos_x, pos_y, scale, left_eye_x(), sx, sy)
    &&& eye_fits(cw, pos_x, pos_y, scale, right_eye_x(), sx, sy)
}

/// Paints both eyes of the pet whose sprite corner is at (`pos_x`, `pos_y`) and whose
/// sprite is scaled by `scale`: for each eye the background block, then the pupil block
/// moved by (`sx`, `sy`) towards the cursor.
pub fn draw_eyes(canvas: &mut [u8], cw: usize, pos_x: i32, pos_y: i32, scale: u32, sx: i32, sy: i32)
    requires
        eyes_args_ok(cw as int, pos_x as int, pos_y as int, scale as int, sx as int, sy as int),
    ensures
        final(canvas)@ == eyes_drawn(old(canvas)@, cw as int, pos_x as int, pos_y as int, scale as int, sx as int, sy as int),
{
    let eye_bg: [u8; 4] = [102, 160, 217, 255];
    let pupil: [u8; 4] = [0, 0, 0, 255];
    assert(eye_bg@ == eye_background());
    assert(pupil@ == pupil_color());
    let s = scale as i32;
    let ps = 2 * s;
    let py = 9 * s;
    let lx = 12 * s;
    let rx = 18 * s;
    let bases: [i32; 2] = [lx, rx];
    let mut k: usize = 0;
    let ghost c0 = canvas@;
    while k < 2
        invariant
            k <= 2,
            bases@ == seq![lx, rx],
            s == scale, ps == 2 * s, py == 9 * s, lx == 12 * s, rx == 18 * s,
            eyes_args_ok(cw as int, pos_x as int, pos_y as int, scale as int, sx as int, sy as int),
            eye_bg@ == eye_background(),
            pupil@ == pupil_color(),
            k == 0 ==> canvas@ == c0,
            k == 1 ==> canvas@ == eye_drawn(c0, cw as int, pos_x as int, pos_y as int, s as int, left_eye_x(), sx as int, sy as int),
            k == 2 ==> canvas@ == eyes_drawn(c0, cw as int, pos_x as int, pos_y as int, s as int, sx as int, sy as int),
        decreases 2 - k,
    {
        let base_x = bases[k];
        paint_block(canvas, cw, pos_x + base_x, pos_y + py, ps, eye_bg);
        paint_block(canvas, cw, pos_x + base_x + sx, pos_y + py + sy, ps, pupil);
        k += 1;
    }
}

} // verus!

verus! {

/// A pixel of these blue, green and red values is part of the cat's orange body.
pub open spec fn spec_is_body_color(b: int, g: int, r: int) -> bool {
    r > 140 && g > 50 && g < 180 && b < r / 2
}

/// Whether a pixel of these blue, green and red values is part of the cat's orange body.
pub fn is_body_color(b: u8, g: u8, r: u8) -> (res: bool)
    ensures
        res == spec_is_body_color(b as int, g as int, r as int),
{
    let b = b as i32;
    let g = g as i32;
    let r = r as i32;
    r > 140 && g > 50 && g < 180 && b < r / 2
}

/// The tinted rectangle: columns [x1, x2) and rows [y1, y2) of the canvas, from the pet's
/// corner (`pos_x`, `pos_y`) and display size, clipped to the left, top and right edges
/// of a canvas `cw` pixels wide. The display size is taken as an `i32` and the canvas width
/// is compared as one (see `side_as_i32`). Rows below the canvas are left to the length
/// check.
pub open spec fn tint_rect(cw: int, pos_x: int, pos_y: int, disp_w: int, disp_h: int) -> (int, int, int, int) {
    let w = (disp_w as u32) as i32 as int;
    let h = (disp_h as u32) as i32 as int;
    let ew = side_as_i32(cw as usize);
    let x1 = if pos_x > 0 { pos_x } else { 0 };
    let right = if pos_x + w < ew { pos_x + w } else { ew };
    let x2 = if right > 0 { right } else { 0 };
    let y1 = if pos_y > 0 { pos_y } else { 0 };
    let y2 = if pos_y + h > 0 { pos_y + h } else { 0 };
    (x1, x2, y1, y2)
}

/// Byte offset `i` starts a pixel that the typing heat tints: a pixel of the tinted
/// rectangle that lies wholly in the canvas, is not transparent and has the body colour.
pub open spec fn is_tint_target(canvas: Seq<u8>, cw: int, pos_x: int, pos_y: int, disp_w: int, disp_h: int, i: int) -> bool {
    let (x1, x2, y1, y2) = tint_rect(cw, pos_x, pos_y, disp_w, disp_h);
    let q = i / 4;
    &&& cw > 0
    &&& 0 <= i
    &&& i % 4 == 0
    &&& x1 <= q % cw < x2
    &&& y1 <= q / cw < y2
    &&& i + 4 <= canvas.len()
    &&& canvas[i + 3] != 0
    &&& spec_is_body_color(canvas[i] as int, canvas[i + 1] as int, canvas[i + 2] as int)
}

/// What `tint_targets` needs of its arguments: the far edges of the pet, with the display
/// size taken as an `i32`, are `i32` coordinates; and where the tinted rectangle is not
/// empty, the byte offset just past its last pixel fits in `usize`.
pub open spec fn tint_args_ok(cw: int, pos_x: int, pos_y: int, disp_w: int, disp_h: int) -> bool {
    let (x1, x2, y1, y2) = tint_rect(cw, pos_x, pos_y, disp_w, disp_h);
    &&& i32::MIN <= pos_x + (disp_w as u32) as i32 <= i32::MAX
    &&& i32::MIN <= pos_y + (disp_h as u32) as i32 <= i32::MAX
    &&& (x1 < x2 && y1 < y2) ==> ((y2 - 1) * cw + x2) * 4 <= usize::MAX
}

proof fn lemma_index_order(qx: int, qy: int, x: int, y: int, cw: int)
    requires
        0 <= qx < cw,
        0 <= x < cw,
        0 <= qy,
        0 <= y,
        qy < y || (qy == y && qx < x),
    ensures
        qy * cw + qx < y * cw + x,
{
    if qy < y {
        assert(qy * cw + cw <= y * cw) by (nonlinear_arith)
            requires qy < y, cw >= 0;
    }
}

/// The byte offsets of the pixels that the typing heat tints, in the order in which they
/// are tinted: row by row, left to right. The blend itself is done by the caller.
pub fn tint_targets(canvas: &[u8], cw: usize, pos_x: i32, pos_y: i32, disp_w: u32, disp_h: u32) -> (res: Vec<usize>)
    requires
        tint_args_ok(cw as int, pos_x as int, pos_y as int, disp_w as int, disp_h as int),
    ensures
        forall|a: int, b: int| 0 <= a < b < res@.len() ==> res@[a] < res@[b],
        forall|i: usize|
            res@.contains(i) <==> is_tint_target(
                canvas@,
                cw as int,
                pos_x as int,
                pos_y as int,
                disp_w as int,
                disp_h as int,
                i as int,
            ),
        forall|k: int| 0 <= k < res@.len() ==> is_tint_target(
                canvas@,
                cw as int,
                pos_x as int,
                pos_y as int,
                disp_w as int,
                disp_h as int,
                res@[k] as int,
            ),
{
    let ghost (icw, ipx, ipy, iw, ih) = (cw as int, pos_x as int, pos_y as int, disp_w as int, disp_h as int);
    let ghost (gx1, gx2, gy1, gy2) = tint_rect(icw, ipx, ipy, iw, ih);
    let x1: i32 = if pos_x > 0 { pos_x } else { 0 };
    let x_end = pos_x + (disp_w as i32);
    let side_w = cw as i32;
    let ew: i32 = if side_w < 0 { 0 } else { side_w };
    let right: i32 = if x_end < ew { x_end } else { ew };
    let x2: i32 = if right > 0 { right } else { 0 };
    let y1: i32 = if pos_y > 0 { pos_y } else { 0 };
    let y_end = pos_y + (disp_h as i32);
    let y2: i32 = if y_end > 0 { y_end } else { 0 };
    proof {
        lemma_side_as_i32(cw);
    }
    let len = canvas.len();
    let mut res: Vec<usize> = Vec::new();
    let mut y: i32 = y1;
    while y < y2
        invariant
            gx1 == x1 && gx2 == x2 && gy1 == y1 && gy2 == y2,
            tint_rect(icw, ipx, ipy, iw, ih) == (gx1, gx2, gy1, gy2),
            icw == cw && ipx == pos_x && ipy == pos_y && iw == disp_w && ih == disp_h,
            tint_args_ok(icw, ipx, ipy, iw, ih),
            0 <= x1, x2 <= cw, 0 <= y1,
            y1 <= y,
            y1 <= y2 ==> y <= y2,
            len == canvas@.len(),
            forall|a: int, b: int| 0 <= a < b < res@.len() ==> res@[a] < res@[b],
            forall|k: int| 0 <= k < res@.len() ==> is_tint_target(canvas@, icw, ipx, ipy, iw, ih, res@[k] as int)
                && (res@[k] as int / 4) / icw < y,
            forall|i: int|
                is_tint_target(canvas@, icw, ipx, ipy, iw, ih, i) && (i / 4) / icw < y ==> res@.contains(i as usize),
        decreases y2 - y,
    {
        let mut x: i32 = x1;
        proof {
            assert forall|i: int|
                is_tint_target(canvas@, icw, ipx, ipy, iw, ih, i)
                    && ((i / 4) / icw < y || ((i / 4) / icw == y && (i / 4) % icw < x)) implies res@.contains(i as usize) by {
                if (i / 4) / icw == y {
                    assert((i / 4) % icw >= x1);
                }
            }
        }
        while x < x2
            invariant
                gx1 == x1 && gx2 == x2 && gy1 == y1 && gy2 == y2,
            tint_rect(icw, ipx, ipy, iw, ih) == (gx1, gx2, gy1, gy2),
                icw == cw && ipx == pos_x && ipy == pos_y && iw == disp_w && ih == disp_h,
                tint_args_ok(icw, ipx, ipy, iw, ih),
                0 <= x1, x2 <= cw, 0 <= y1,
                y1 <= y < y2,
                x1 <= x,
                x1 <= x2 ==> x <= x2,
                len == canvas@.len(),
                forall|a: int, b: int| 0 <= a < b < res@.len() ==> res@[a] < res@[b],
                forall|k: int| 0 <= k < res@.len() ==> is_tint_target(canvas@, icw, ipx, ipy, iw, ih, res@[k] as int)
                    && ((res@[k] as int / 4) / icw < y || ((res@[k] as int / 4) / icw == y && (res@[k] as int / 4) % icw < x)),
                forall|i: int|
                    is_tint_target(canvas@, icw, ipx, ipy, iw, ih, i)
                        && ((i / 4) / icw < y || ((i / 4) / icw == y && (i / 4) % icw < x)) ==> res@.contains(i as usize),
            decreases x2 - x,
        {
            proof {
                assert(((y as int) * (cw as int) + (x as int)) * 4 + 4 <= ((y2 - 1) * cw + x2) * 4) by (nonlinear_arith)
                    requires y <= y2 - 1, x < x2, cw >= 0;
                assert(0 <= (y as int) * (cw as int)) by (nonlinear_arith) requires y >= 0, cw >= 0;
            }
            let i = (y as usize * cw + x as usize) * 4;
            let ghost q = (y as int) * (cw as int) + (x as int);
            proof {
                lemma_div_mod_of_cell(x as int, y as int, cw as int);
                assert(i as int / 4 == q);
            }
            let ghost before = res@;
            if i + 4 <= len && canvas[i + 3] != 0 && is_body_color(canvas[i], canvas[i + 1], canvas[i + 2]) {
                proof {
                    assert forall|k: int| 0 <= k < res@.len() implies res@[k] < i by {
                        let qk = res@[k] as int / 4;
                        lemma_cell_of_index(qk, cw as int);
                        lemma_index_order(qk % (cw as int), qk / (cw as int), x as int, y as int, cw as int);
                    }
                }
                assert(is_tint_target(canvas@, icw, ipx, ipy, iw, ih, i as int));
                res.push(i);
                assert(res@[res@.len() - 1] == i);
            }
            proof {
                assert forall|j: int|
                    is_tint_target(canvas@, icw, ipx, ipy, iw, ih, j)
                        && ((j / 4) / icw < y || ((j / 4) / icw == y && (j / 4) % icw < x + 1)) implies res@.contains(j as usize) by {
                    let qj = j / 4;
                    lemma_cell_of_index(qj, cw as int);
                    if qj / icw == y && qj % icw == x {
                        assert(qj == q);
                        assert(j == i);
                        assert(res@[res@.len() - 1] == i);
                    } else {
                        assert(before.contains(j as usize));
                        let k = choose|k: int| 0 <= k < before.len() && before[k] == j as usize;
                        assert(res@[k] == j as usize);
                    }
                }
            }
            x += 1;
        }
        y += 1;
    }
    res
}

} // verus!

verus! {

fn block_valid(cw: usize, x: i128, y: i128, size: i128) -> (r: bool)
    requires
        -0x1_0000_0000 <= x <= 0x1_0000_0000,
        -0x1_0000_0000 <= y <= 0x1_0000_0000,
        0 <= size <= 0x1_0000_0000,
    ensures
        r == (block_fits(cw as int, x as int, y as int, size as int) && block_in_range(x as int, y as int, size as int)),
{
    let in_range = size <= 0 || (x + size - 1 <= i32::MAX as i128 && y + size - 1 <= i32::MAX as i128);
    if size <= 0 || x + size <= 0 || y + size <= 0 {
        return in_range;
    }
    proof {
        assert((y + size - 1) * (cw as int) <= 0x2_0000_0000 * 0xffff_ffff_ffff_ffff) by (nonlinear_arith)
            requires 0 <= y + size - 1 <= 0x2_0000_0000, 0 <= cw <= 0xffff_ffff_ffff_ffff;
        assert((y + size - 1) * (cw as int) >= 0) by (nonlinear_arith)
            requires 0 <= y + size - 1, 0 <= cw;
    }
    let last = ((y + size - 1) * cw as i128 + (x + size - 1)) * 4 + 4;
    in_range && last <= usize::MAX as i128
}

/// Whether `draw_eyes` may be called with these arguments (see `eyes_args_ok`).
pub fn eyes_args_valid(cw: usize, pos_x: i32, pos_y: i32, scale: u32, sx: i32, sy: i32) -> (r: bool)
    ensures
        r == eyes_args_ok(cw as int, pos_x as int, pos_y as int, scale as int, sx as int, sy as int),
{
    if scale as u64 * 20 > i32::MAX as u64 {
        return false;
    }
    let s = scale as i128;
    let size = 2 * s;
    let by = pos_y as i128 + 9 * s;
    let mut ok = true;
    let mut k: usize = 0;
    let exs: [i128; 2] = [12, 18];
    let lo = i32::MIN as i128;
    let hi = i32::MAX as i128;
    while k < 2
        invariant
            k <= 2,
            exs@ == seq![12i128, 18i128],
            20 * scale <= i32::MAX,
            s == scale, size == 2 * s, by == pos_y + 9 * s,
            lo == i32::MIN, hi == i32::MAX,
            ok == (forall|j: int| 0 <= j < k ==> eye_fits(cw as int, pos_x as int, pos_y as int, scale as int, #[trigger] exs@[j] as int, sx as int, sy as int)),
        decreases 2 - k,
    {
        let bx = pos_x as i128 + exs[k] * s;
        let coords = lo <= bx && bx <= hi && lo <= by && by <= hi && lo <= bx + sx as i128 && bx + sx as i128 <= hi
            && lo <= by + sy as i128 && by + sy as i128 <= hi;
        let fits = coords && block_valid(cw, bx, by, size) && block_valid(cw, bx + sx as i128, by + sy as i128, size);
        proof {
            assert(fits == eye_fits(cw as int, pos_x as int, pos_y as int, scale as int, exs@[k as int] as int, sx as int, sy as int));
        }
        ok = ok && fits;
        k += 1;
    }
    proof {
        assert(exs@[0] == 12 && exs@[1] == 18);
    }
    ok
}

/// Whether `tint_targets` may be called with these arguments (see `tint_args_ok`).
pub fn tint_args_valid(cw: usize, pos_x: i32, pos_y: i32, disp_w: u32, disp_h: u32) -> (r: bool)
    ensures
        r == tint_args_ok(cw as int, pos_x as int, pos_y as int, disp_w as int, disp_h as int),
{
    let x_end = pos_x as i128 + (disp_w as i32) as i128;
    let y_end = pos_y as i128 + (disp_h as i32) as i128;
    let lo = i32::MIN as i128;
    let hi = i32::MAX as i128;
    if !(lo <= x_end && x_end <= hi && lo <= y_end && y_end <= hi) {
        return false;
    }
    let x1: i128 = if pos_x > 0 { pos_x as i128 } else { 0 };
    let side_w = cw as i32;
    let ew: i128 = if side_w < 0 { 0 } else { side_w as i128 };
    let right: i128 = if x_end < ew { x_end } else { ew };
    let x2: i128 = if right > 0 { right } else { 0 };
    let y1: i128 = if pos_y > 0 { pos_y as i128 } else { 0 };
    let y2: i128 = if y_end > 0 { y_end } else { 0 };
    if !(x1 < x2 && y1 < y2) {
        return true;
    }
    proof {
        lemma_side_as_i32(cw);
        assert((y2 - 1) * (cw as int) <= 0x8000_0000 * 0xffff_ffff_ffff_ffff) by (nonlinear_arith)
            requires 0 <= y2 - 1 <= 0x8000_0000, 0 <= cw <= 0xffff_ffff_ffff_ffff;
        assert((y2 - 1) * (cw as int) >= 0) by (nonlinear_arith)
            requires 0 <= y2 - 1, 0 <= cw;
    }
    ((y2 - 1) * cw as i128 + x2) * 4 <= usize::MAX as i128
}

} // verus!

verus! {

/// The body colour is a band of orange with no upper bound on red: red above 140, green
/// strictly between 50 and 180, and blue at most half of red, less one (blue below red
/// halved and rounded down).
pub proof fn law_body_color_band(b: u8, g: u8, r: u8)
    ensures
        spec_is_body_color(b as int, g as int, r as int) <==> (r > 140 && 50 < g && g < 180 && 2 * b + 2 <= r),
{
}

/// Every opaque body-coloured pixel that lies in the canvas, inside the pet's rectangle, is
/// tinted, however saturated its red.
pub proof fn law_opaque_body_pixels_are_tinted(
    canvas: Seq<u8>,
    cw: usize,
    pos_x: i32,
    pos_y: i32,
    disp_w: u32,
    disp_h: u32,
    x: int,
    y: int,
)
    requires
        cw > 0,
        disp_w <= i32::MAX,
        disp_h <= i32::MAX,
        cw <= i32::MAX,
        0 <= x < cw,
        0 <= y,
        pos_x <= x < pos_x + disp_w,
        pos_y <= y < pos_y + disp_h,
        (y * cw + x) * 4 + 4 <= canvas.len(),
        canvas[(y * cw + x) * 4 + 3] != 0,
        canvas[(y * cw + x) * 4 + 2] > 140,
        50 < canvas[(y * cw + x) * 4 + 1] < 180,
        2 * canvas[(y * cw + x) * 4] + 2 <= canvas[(y * cw + x) * 4 + 2],
    ensures
        is_tint_target(canvas, cw as int, pos_x as int, pos_y as int, disp_w as int, disp_h as int, (y * cw + x) * 4),
{
    let i = (y * cw + x) * 4;
    lemma_side_as_i32(cw);
    lemma_div_mod_of_cell(x, y, cw as int);
    assert(i / 4 == y * cw + x);
    assert(i % 4 == 0);
    assert(0 <= y * cw) by (nonlinear_arith) requires 0 <= y, cw > 0;
    assert((disp_w as i32) as int == disp_w as int);
    assert((disp_h as i32) as int == disp_h as int);
}

} // verus!
