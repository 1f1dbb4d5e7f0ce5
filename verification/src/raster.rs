//! Drawing on a canvas of 4-byte pixels laid out row after row.
use vstd::prelude::*;

verus! {

/// The canvas after the four bytes at `i` were replaced by `color`.
pub open spec fn with_pixel(canvas: Seq<u8>, i: int, color: Seq<u8>) -> Seq<u8> {
    Seq::new(canvas.len(), |p: int| if i <= p < i + 4 { color[p - i] } else { canvas[p] })
}

/// Writes one pixel (four bytes) at byte offset `i`.
fn write_pixel(canvas: &mut [u8], i: usize, color: [u8; 4])
    requires
        i + 4 <= old(canvas)@.len(),
    ensures
        final(canvas)@ == with_pixel(old(canvas)@, i as int, color@),
{
    canvas[i] = color[0];
    canvas[i + 1] = color[1];
    canvas[i + 2] = color[2];
    canvas[i + 3] = color[3];
    assert(canvas@ =~= with_pixel(old(canvas)@, i as int, color@));
}

/// Block cell (`dx`, `dy`) of a block whose corner is at (`x`, `y`) lands on pixel `q` of
/// a canvas `cw` pixels wide: it has no negative coordinate, and its row-major index is `q`.
/// A column at or past `cw` runs on into the next row, as the index computation does.
pub open spec fn cell_hits(cw: int, x: int, y: int, dx: int, dy: int, q: int) -> bool {
    &&& x + dx >= 0
    &&& y + dy >= 0
    &&& (y + dy) * cw + (x + dx) == q
}

/// Pixel `q` is covered by one of the cells of the `size` by `size` block that come before
/// cell (`col`, `row`) in row-major order.
pub open spec fn block_covers_before(cw: int, x: int, y: int, size: int, row: int, col: int, q: int) -> bool {
    exists|dx: int, dy: int|
        #![trigger cell_hits(cw, x, y, dx, dy, q)]
        0 <= dx < size && 0 <= dy < size && (dy < row || (dy == row && dx < col))
            && cell_hits(cw, x, y, dx, dy, q)
}

/// Pixel `q` is covered by the `size` by `size` block whose corner is at (`x`, `y`).
pub open spec fn block_covers(cw: int, x: int, y: int, size: int, q: int) -> bool {
    block_covers_before(cw, x, y, size, size, 0, q)
}

/// The canvas with every pixel that the block covers, and that lies wholly in the
/// canvas, set to `color`; every other byte as it was.
pub open spec fn painted_block(canvas: Seq<u8>, cw: int, x: int, y: int, size: int, color: Seq<u8>) -> Seq<u8> {
    Seq::new(
        canvas.len(),
        |p: int|
            if block_covers(cw, x, y, size, p / 4) && (p / 4) * 4 + 4 <= canvas.len() {
                color[p % 4]
            } else {
                canvas[p]
            },
    )
}

/// The byte offsets that painting the block computes fit in `usize`.
pub open spec fn block_fits(cw: int, x: int, y: int, size: int) -> bool {
    size <= 0 || x + size <= 0 || y + size <= 0
        || ((y + size - 1) * cw + (x + size - 1)) * 4 + 4 <= usize::MAX
}

/// The coordinates that painting the block computes fit in `i32`.
pub open spec fn block_in_range(x: int, y: int, size: int) -> bool {
    size <= 0 || (x + size - 1 <= i32::MAX && y + size - 1 <= i32::MAX)
}

} // verus!

verus! {

/// The canvas with the cells of the block before cell (`col`, `row`) painted.
pub open spec fn painted_before(
    canvas: Seq<u8>,
    cw: int,
    x: int,
    y: int,
    size: int,
    row: int,
    col: int,
    color: Seq<u8>,
) -> Seq<u8> {
    Seq::new(
        canvas.len(),
        |p: int|
            if block_covers_before(cw, x, y, size, row, col, p / 4) && (p / 4) * 4 + 4 <= canvas.len() {
                color[p % 4]
            } else {
                canvas[p]
            },
    )
}

proof fn lemma_covers_step(cw: int, x: int, y: int, size: int, row: int, col: int, q: int)
    requires
        0 <= row < size,
        0 <= col < size,
    ensures
        block_covers_before(cw, x, y, size, row, col + 1, q) <==> (block_covers_before(
            cw,
            x,
            y,
            size,
            row,
            col,
            q,
        ) || cell_hits(cw, x, y, col, row, q)),
{
    if block_covers_before(cw, x, y, size, row, col + 1, q) {
        let (dx, dy) = choose|dx: int, dy: int|
            #![trigger cell_hits(cw, x, y, dx, dy, q)]
            0 <= dx < size && 0 <= dy < size && (dy < row || (dy == row && dx < col + 1))
                && cell_hits(cw, x, y, dx, dy, q);
        if !(dx == col && dy == row) {
            assert(cell_hits(cw, x, y, dx, dy, q));
        }
    }
    if block_covers_before(cw, x, y, size, row, col, q) {
        let (dx, dy) = choose|dx: int, dy: int|
            #![trigger cell_hits(cw, x, y, dx, dy, q)]
            0 <= dx < size && 0 <= dy < size && (dy < row || (dy == row && dx < col))
                && cell_hits(cw, x, y, dx, dy, q);
        assert(cell_hits(cw, x, y, dx, dy, q));
    }
    if cell_hits(cw, x, y, col, row, q) {
        assert(cell_hits(cw, x, y, col, row, q));
    }
}

proof fn lemma_covers_next_row(cw: int, x: int, y: int, size: int, row: int, q: int)
    requires
        0 <= row < size,
    ensures
        block_covers_before(cw, x, y, size, row, size, q) <==> block_covers_before(
            cw,
            x,
            y,
            size,
            row + 1,
            0,
            q,
        ),
{
    if block_covers_before(cw, x, y, size, row, size, q) {
        let (dx, dy) = choose|dx: int, dy: int|
            #![trigger cell_hits(cw, x, y, dx, dy, q)]
            0 <= dx < size && 0 <= dy < size && (dy < row || (dy == row && dx < size))
                && cell_hits(cw, x, y, dx, dy, q);
        assert(cell_hits(cw, x, y, dx, dy, q));
    }
    if block_covers_before(cw, x, y, size, row + 1, 0, q) {
        let (dx, dy) = choose|dx: int, dy: int|
            #![trigger cell_hits(cw, x, y, dx, dy, q)]
            0 <= dx < size && 0 <= dy < size && (dy < row + 1 || (dy == row + 1 && dx < 0))
                && cell_hits(cw, x, y, dx, dy, q);
        assert(cell_hits(cw, x, y, dx, dy, q));
    }
}

/// Painting one more cell of the block: the cell's pixel is written when it lies wholly
/// in the canvas, and nothing else changes.
proof fn lemma_paint_step(
    canvas: Seq<u8>,
    cw: int,
    x: int,
    y: int,
    size: int,
    row: int,
    col: int,
    color: Seq<u8>,
)
    requires
        0 <= row < size,
        0 <= col < size,
        color.len() == 4,
    ensures
        ({
            let q0 = (y + row) * cw + (x + col);
            let before = painted_before(canvas, cw, x, y, size, row, col, color);
            let after = painted_before(canvas, cw, x, y, size, row, col + 1, color);
            if x + col >= 0 && y + row >= 0 && q0 * 4 + 4 <= canvas.len() {
                after == with_pixel(before, q0 * 4, color)
            } else {
                after == before
            }
        }),
{
    let q0 = (y + row) * cw + (x + col);
    let before = painted_before(canvas, cw, x, y, size, row, col, color);
    let after = painted_before(canvas, cw, x, y, size, row, col + 1, color);
    if x + col >= 0 && y + row >= 0 && q0 * 4 + 4 <= canvas.len() {
        assert forall|p: int| 0 <= p < canvas.len() implies after[p] == with_pixel(
            before,
            q0 * 4,
            color,
        )[p] by {
            lemma_covers_step(cw, x, y, size, row, col, p / 4);
            if q0 * 4 <= p < q0 * 4 + 4 {
                assert(p / 4 == q0);
                assert(cell_hits(cw, x, y, col, row, p / 4));
            } else {
                assert(p / 4 != q0);
            }
        }
        assert(after =~= with_pixel(before, q0 * 4, color));
    } else {
        assert forall|p: int| 0 <= p < canvas.len() implies after[p] == before[p] by {
            lemma_covers_step(cw, x, y, size, row, col, p / 4);
            if cell_hits(cw, x, y, col, row, p / 4) {
                assert(p / 4 == q0);
            }
        }
        assert(after =~= before);
    }
}

proof fn lemma_paint_next_row(
    canvas: Seq<u8>,
    cw: int,
    x: int,
    y: int,
    size: int,
    row: int,
    color: Seq<u8>,
)
    requires
        0 <= row < size,
    ensures
        painted_before(canvas, cw, x, y, size, row, size, color) == painted_before(
            canvas,
            cw,
            x,
            y,
            size,
            row + 1,
            0,
            color,
        ),
{
    let a = painted_before(canvas, cw, x, y, size, row, size, color);
    let b = painted_before(canvas, cw, x, y, size, row + 1, 0, color);
    assert forall|p: int| 0 <= p < canvas.len() implies a[p] == b[p] by {
        lemma_covers_next_row(cw, x, y, size, row, p / 4);
    }
    assert(painted_before(canvas, cw, x, y, size, row, size, color) =~= painted_before(
        canvas,
        cw,
        x,
        y,
        size,
        row + 1,
        0,
        color,
    ));
}

/// Fills a `size` by `size` block whose corner is at (`x`, `y`) with `color`, on a canvas
/// `cw` pixels wide. Cells with a negative coordinate are skipped, and so is a pixel that
/// would not lie wholly in the canvas.
pub fn paint_block(canvas: &mut [u8], cw: usize, x: i32, y: i32, size: i32, color: [u8; 4])
    requires
        block_fits(cw as int, x as int, y as int, size as int),
        block_in_range(x as int, y as int, size as int),
    ensures
        final(canvas)@ == painted_block(old(canvas)@, cw as int, x as int, y as int, size as int, color@),
{
    let ghost old_canvas = canvas@;
    proof {
        assert(painted_before(old_canvas, cw as int, x as int, y as int, size as int, 0, 0, color@)
            =~= old_canvas);
    }
    let mut dy: i32 = 0;
    while dy < size
        invariant
            0 <= dy,
            size > 0 ==> dy <= size,
            size <= 0 ==> dy == 0,
            block_fits(cw as int, x as int, y as int, size as int),
            block_in_range(x as int, y as int, size as int),
            canvas@ == painted_before(old_canvas, cw as int, x as int, y as int, size as int, dy as int, 0, color@),
        decreases size - dy,
    {
        let mut dx: i32 = 0;
        while dx < size
            invariant
                0 <= dx <= size,
                0 <= dy < size,
                block_fits(cw as int, x as int, y as int, size as int),
                block_in_range(x as int, y as int, size as int),
                canvas@ == painted_before(
                    old_canvas,
                    cw as int,
                    x as int,
                    y as int,
                    size as int,
                    dy as int,
                    dx as int,
                    color@,
                ),
            decreases size - dx,
        {
            let px = x + dx;
            let py = y + dy;
            proof {
                lemma_paint_step(old_canvas, cw as int, x as int, y as int, size as int, dy as int, dx as int, color@);
            }
            if px >= 0 && py >= 0 {
                proof {
                    assert((py as int) * (cw as int) <= (y + size - 1) * (cw as int)) by (nonlinear_arith)
                        requires 0 <= py <= y + size - 1, cw >= 0;
                }
                let i = (py as usize * cw + px as usize) * 4;
                if i + 4 <= canvas.len() {
                    write_pixel(canvas, i, color);
                }
            }
            dx += 1;
        }
        proof {
            lemma_paint_next_row(old_canvas, cw as int, x as int, y as int, size as int, dy as int, color@);
        }
        dy += 1;
    }
}

} // verus!

verus! {

/// The source column, and row, that destination cell `d` of a span `dn` long samples
/// from a source span `sn` long: nearest below, kept inside the source.
pub open spec fn scaled_coord(d: int, sn: int, dn: int) -> int {
    let c = d * sn / dn;
    if c < sn - 1 { c } else { sn - 1 }
}

/// Byte offset in the source of the pixel that destination cell (`dx`, `dy`) samples.
pub open spec fn scaled_source_offset(sw: int, sh: int, dw: int, dh: int, dx: int, dy: int) -> int {
    (scaled_coord(dy, sh, dh) * sw + scaled_coord(dx, sw, dw)) * 4
}

/// Canvas pixel `q` receives a source pixel from a blit of a `dw` by `dh` destination
/// rectangle at (`dst_x`, `dst_y`): it lies in the `cw` by `ch` canvas (whose sides are
/// compared as `i32`, see `side_as_i32`) and in the rectangle, and both the sampled source
/// pixel and the canvas pixel lie wholly in their buffers.
pub open spec fn blit_writes(
    canvas_len: int,
    cw: int,
    ch: int,
    src_len: int,
    sw: int,
    sh: int,
    dst_x: int,
    dst_y: int,
    dw: int,
    dh: int,
    q: int,
) -> bool {
    let cx = q % cw;
    let cy = q / cw;
    &&& cw > 0
    &&& 0 <= q
    &&& cx < side_as_i32(cw as usize)
    &&& cy < side_as_i32(ch as usize)
    &&& 0 <= cx - dst_x < dw
    &&& 0 <= cy - dst_y < dh
    &&& 0 <= scaled_source_offset(sw, sh, dw, dh, cx - dst_x, cy - dst_y)
    &&& scaled_source_offset(sw, sh, dw, dh, cx - dst_x, cy - dst_y) + 4 <= src_len
    &&& q * 4 + 4 <= canvas_len
}

/// The canvas after a nearest-neighbour blit of the `sw` by `sh` source, scaled to
/// `dw` by `dh`, at (`dst_x`, `dst_y`) of the `cw` by `ch` canvas.
pub open spec fn blitted(
    canvas: Seq<u8>,
    cw: int,
    ch: int,
    src: Seq<u8>,
    sw: int,
    sh: int,
    dst_x: int,
    dst_y: int,
    dw: int,
    dh: int,
) -> Seq<u8> {
    Seq::new(
        canvas.len(),
        |p: int|
            {
                let q = p / 4;
                if blit_writes(canvas.len() as int, cw, ch, src.len() as int, sw, sh, dst_x, dst_y, dw, dh, q) {
                    src[scaled_source_offset(sw, sh, dw, dh, q % cw - dst_x, q / cw - dst_y) + p % 4]
                } else {
                    canvas[p]
                }
            },
    )
}

/// Part of the destination rectangle lies in the canvas, whose sides are compared as `i32`.
pub open spec fn rect_meets_canvas(cw: int, ch: int, x: int, y: int, w: int, h: int) -> bool {
    let ew = side_as_i32(cw as usize);
    let eh = side_as_i32(ch as usize);
    w > 0 && h > 0 && x < ew && x + w > 0 && y < eh && y + h > 0
}

/// Some destination row lies in the canvas, whose height is compared as an `i32`.
pub open spec fn rows_meet_canvas(ch: int, y: int, h: int) -> bool {
    h > 0 && y < side_as_i32(ch as usize) && y + h > 0
}

/// What `blit_scaled` needs of its arguments: the destination rows, and (where some row
/// lies in the canvas) the destination columns, are `i32` coordinates; and where part of the
/// rectangle lies in the canvas, the source has pixels to sample and the byte offsets fit
/// in `usize`.
pub open spec fn blit_args_ok(cw: int, ch: int, sw: int, sh: int, dst_x: int, dst_y: int, dw: int, dh: int) -> bool {
    &&& dh <= i32::MAX + 1 && dst_y + dh <= i32::MAX + 1
    &&& rows_meet_canvas(ch, dst_y, dh) ==> (dw <= i32::MAX + 1 && dst_x + dw <= i32::MAX + 1)
    &&& rect_meets_canvas(cw, ch, dst_x, dst_y, dw, dh) ==> {
        &&& sw > 0 && sh > 0
        &&& dw * sw <= usize::MAX && dh * sh <= usize::MAX
        &&& sw * sh * 4 <= usize::MAX
        &&& cw * ch * 4 <= usize::MAX
    }
}

/// The canvas with the blit done for the destination cells before (`col`, `row`) in
/// row-major order.
pub open spec fn blitted_before(
    canvas: Seq<u8>,
    cw: int,
    ch: int,
    src: Seq<u8>,
    sw: int,
    sh: int,
    dst_x: int,
    dst_y: int,
    dw: int,
    dh: int,
    row: int,
    col: int,
) -> Seq<u8> {
    Seq::new(
        canvas.len(),
        |p: int|
            {
                let q = p / 4;
                let dx = q % cw - dst_x;
                let dy = q / cw - dst_y;
                if blit_writes(canvas.len() as int, cw, ch, src.len() as int, sw, sh, dst_x, dst_y, dw, dh, q)
                    && (dy < row || (dy == row && dx < col)) {
                    src[scaled_source_offset(sw, sh, dw, dh, dx, dy) + p % 4]
                } else {
                    canvas[p]
                }
            },
    )
}

pub proof fn lemma_div_mod_of_cell(cx: int, cy: int, cw: int)
    requires
        0 <= cx < cw,
        0 <= cy,
    ensures
        (cy * cw + cx) / cw == cy,
        (cy * cw + cx) % cw == cx,
{
    vstd::arithmetic::div_mod::lemma_fundamental_div_mod_converse(cy * cw + cx, cw, cy, cx);
}

pub proof fn lemma_cell_of_index(q: int, cw: int)
    requires
        0 <= q,
        0 < cw,
    ensures
        q == (q / cw) * cw + q % cw,
        0 <= q % cw < cw,
        0 <= q / cw,
{
    vstd::arithmetic::div_mod::lemma_fundamental_div_mod(q, cw);
    vstd::arithmetic::div_mod::lemma_div_pos_is_pos(q, cw);
    vstd::arithmetic::mul::lemma_mul_is_commutative(cw, q / cw);
}

} // verus!

verus! {

proof fn lemma_blit_cell(
    canvas: Seq<u8>,
    cw: int,
    ch: int,
    src: Seq<u8>,
    sw: int,
    sh: int,
    dst_x: int,
    dst_y: int,
    dw: int,
    dh: int,
    row: int,
    col: int,
)
    requires
        0 <= row < dh,
        0 <= col < dw,
        0 <= cw <= usize::MAX,
        0 <= ch <= usize::MAX,
    ensures
        ({
            let cx = dst_x + col;
            let cy = dst_y + row;
            let q0 = cy * cw + cx;
            let si = scaled_source_offset(sw, sh, dw, dh, col, row);
            let before = blitted_before(canvas, cw, ch, src, sw, sh, dst_x, dst_y, dw, dh, row, col);
            let after = blitted_before(canvas, cw, ch, src, sw, sh, dst_x, dst_y, dw, dh, row, col + 1);
            if 0 <= cx < side_as_i32(cw as usize) && 0 <= cy < side_as_i32(ch as usize) && 0 <= si && si + 4 <= src.len() && q0 * 4 + 4 <= canvas.len() {
                after == with_pixel(before, q0 * 4, src.subrange(si, si + 4))
            } else {
                after == before
            }
        }),
{
    let cx = dst_x + col;
    let cy = dst_y + row;
    let q0 = cy * cw + cx;
    let si = scaled_source_offset(sw, sh, dw, dh, col, row);
    let before = blitted_before(canvas, cw, ch, src, sw, sh, dst_x, dst_y, dw, dh, row, col);
    let after = blitted_before(canvas, cw, ch, src, sw, sh, dst_x, dst_y, dw, dh, row, col + 1);
    let writes = 0 <= cx < side_as_i32(cw as usize) && 0 <= cy < side_as_i32(ch as usize) && 0 <= si && si + 4
        <= src.len() && q0 * 4 + 4 <= canvas.len();
    lemma_side_as_i32(cw as usize);
    lemma_side_as_i32(ch as usize);
    assert forall|p: int| 0 <= p < canvas.len() implies after[p] == (if writes {
        with_pixel(before, q0 * 4, src.subrange(si, si + 4))[p]
    } else {
        before[p]
    }) by {
        let q = p / 4;
        if cw > 0 {
            lemma_cell_of_index(q, cw);
            if q % cw - dst_x == col && q / cw - dst_y == row {
                assert(q == q0);
            }
            if 0 <= cx < side_as_i32(cw as usize) && 0 <= cy < side_as_i32(ch as usize) {
                lemma_div_mod_of_cell(cx, cy, cw);
                assert(q0 >= 0) by (nonlinear_arith)
                    requires q0 == cy * cw + cx, cy >= 0, cw > 0, cx >= 0;
                if q0 * 4 <= p < q0 * 4 + 4 {
                    assert(q == q0);
                    assert(p % 4 == p - q0 * 4);
                }
            }
        }
    }
    if writes {
        assert(after =~= with_pixel(before, q0 * 4, src.subrange(si, si + 4)));
    } else {
        assert(after =~= before);
    }
}

proof fn lemma_blit_row_done(
    canvas: Seq<u8>,
    cw: int,
    ch: int,
    src: Seq<u8>,
    sw: int,
    sh: int,
    dst_x: int,
    dst_y: int,
    dw: int,
    dh: int,
    row: int,
    col: int,
)
    requires
        0 <= row,
        dw <= col || (row + dst_y < 0 || row + dst_y >= side_as_i32(ch as usize)),
        0 <= col,
    ensures
        blitted_before(canvas, cw, ch, src, sw, sh, dst_x, dst_y, dw, dh, row, col) == blitted_before(
            canvas,
            cw,
            ch,
            src,
            sw,
            sh,
            dst_x,
            dst_y,
            dw,
            dh,
            row + 1,
            0,
        ),
{
    let a = blitted_before(canvas, cw, ch, src, sw, sh, dst_x, dst_y, dw, dh, row, col);
    let b = blitted_before(canvas, cw, ch, src, sw, sh, dst_x, dst_y, dw, dh, row + 1, 0);
    assert forall|p: int| 0 <= p < canvas.len() implies a[p] == b[p] by {
        let q = p / 4;
        if cw > 0 {
            lemma_cell_of_index(q, cw);
        }
    }
    assert(a =~= b);
}

/// Copies the source pixel at byte offset `si` onto the canvas pixel at byte offset `di`.
fn copy_pixel(canvas: &mut [u8], di: usize, src: &[u8], si: usize)
    requires
        di + 4 <= old(canvas)@.len(),
        si + 4 <= src@.len(),
    ensures
        final(canvas)@ == with_pixel(old(canvas)@, di as int, src@.subrange(si as int, si + 4)),
{
    canvas[di] = src[si];
    canvas[di + 1] = src[si + 1];
    canvas[di + 2] = src[si + 2];
    canvas[di + 3] = src[si + 3];
    assert(canvas@ =~= with_pixel(old(canvas)@, di as int, src@.subrange(si as int, si + 4)));
}

/// Draws the `sw` by `sh` source scaled to `dw` by `dh` at (`dst_x`, `dst_y`) of a `cw` by
/// `ch` canvas, sampling the nearest source pixel below. Destination pixels outside the canvas
/// are skipped, and so is a pixel whose source or destination would not lie wholly in its
/// buffer.
pub fn blit_scaled(
    canvas: &mut [u8],
    cw: usize,
    ch: usize,
    src: &[u8],
    sw: usize,
    sh: usize,
    dst_x: i32,
    dst_y: i32,
    dw: usize,
    dh: usize,
)
    requires
        blit_args_ok(cw as int, ch as int, sw as int, sh as int, dst_x as int, dst_y as int, dw as int, dh as int),
    ensures
        final(canvas)@ == blitted(
            old(canvas)@,
            cw as int,
            ch as int,
            src@,
            sw as int,
            sh as int,
            dst_x as int,
            dst_y as int,
            dw as int,
            dh as int,
        ),
{
    let ghost c0 = canvas@;
    let ghost (icw, ich, isw, ish, ix, iy, idw, idh) = (
        cw as int,
        ch as int,
        sw as int,
        sh as int,
        dst_x as int,
        dst_y as int,
        dw as int,
        dh as int,
    );
    proof {
        assert(blitted_before(c0, icw, ich, src@, isw, ish, ix, iy, idw, idh, 0, 0) =~= c0) by {
            assert forall|p: int| 0 <= p < c0.len() implies blitted_before(c0, icw, ich, src@, isw, ish, ix, iy, idw, idh, 0, 0)[p] == c0[p] by {
                if icw > 0 {
                    lemma_cell_of_index(p / 4, icw);
                }
            }
        }
    }
    let mut dy: usize = 0;
    while dy < dh
        invariant
            dy <= dh,
            blit_args_ok(icw, ich, isw, ish, ix, iy, idw, idh),
            icw == cw && ich == ch && isw == sw && ish == sh && ix == dst_x && iy == dst_y && idw == dw && idh == dh,
            canvas@ == blitted_before(c0, icw, ich, src@, isw, ish, ix, iy, idw, idh, dy as int, 0),
        decreases dh - dy,
    {
        let cy = dst_y + dy as i32;
        if !(cy < 0 || cy >= ch as i32) {
            assert(rows_meet_canvas(ich, iy, idh));
            let mut dx: usize = 0;
            while dx < dw
                invariant
                    dx <= dw,
                    dy < dh,
                    0 <= cy < side_as_i32(ch),
                    cy == dst_y + dy,
                    blit_args_ok(icw, ich, isw, ish, ix, iy, idw, idh),
                    icw == cw && ich == ch && isw == sw && ish == sh && ix == dst_x && iy == dst_y && idw == dw && idh == dh,
                    canvas@ == blitted_before(c0, icw, ich, src@, isw, ish, ix, iy, idw, idh, dy as int, dx as int),
                decreases dw - dx,
            {
                let cx = dst_x + dx as i32;
                proof {
                    lemma_blit_cell(c0, icw, ich, src@, isw, ish, ix, iy, idw, idh, dy as int, dx as int);
                }
                if !(cx < 0 || cx >= cw as i32) {
                    proof {
                        assert(rect_meets_canvas(icw, ich, ix, iy, idw, idh));
                        lemma_side_as_i32(cw);
                        lemma_side_as_i32(ch);
                        assert(dx * sw <= dw * sw) by (nonlinear_arith) requires dx < dw;
                        assert(dy * sh <= dh * sh) by (nonlinear_arith) requires dy < dh;
                    }
                    let a = dx * sw / dw;
                    let sx = if a < sw - 1 { a } else { sw - 1 };
                    let b = dy * sh / dh;
                    let sy = if b < sh - 1 { b } else { sh - 1 };
                    proof {
                        assert(sy * sw + sx < sh * sw) by (nonlinear_arith)
                            requires sy < sh, sx < sw;
                        assert((cy as int) * cw + cx < ch * cw) by (nonlinear_arith)
                            requires cy < ch, cx < cw;
                        assert(sw * sh == sh * sw) by (nonlinear_arith);
                        assert(cw * ch == ch * cw) by (nonlinear_arith);
                    }
                    let si = (sy * sw + sx) * 4;
                    let di = (cy as usize * cw + cx as usize) * 4;
                    if si + 4 <= src.len() && di + 4 <= canvas.len() {
                        copy_pixel(canvas, di, src, si);
                    }
                }
                dx += 1;
            }
            proof {
                lemma_blit_row_done(c0, icw, ich, src@, isw, ish, ix, iy, idw, idh, dy as int, dx as int);
            }
        } else {
            proof {
                lemma_blit_row_done(c0, icw, ich, src@, isw, ish, ix, iy, idw, idh, dy as int, 0);
            }
        }
        dy += 1;
    }
    proof {
        let a = blitted_before(c0, icw, ich, src@, isw, ish, ix, iy, idw, idh, dh as int, 0);
        let b = blitted(c0, icw, ich, src@, isw, ish, ix, iy, idw, idh);
        assert forall|p: int| 0 <= p < c0.len() implies a[p] == b[p] by {
            if icw > 0 {
                lemma_cell_of_index(p / 4, icw);
            }
        }
        assert(a =~= b);
    }
}

} // verus!

verus! {

/// Canvas pixel `q` of a `w` by `h` canvas is covered by an `fw` by `fh` sprite drawn
/// unscaled with its corner at (`x`, `y`).
pub open spec fn sprite_covers(w: int, h: int, fw: int, fh: int, x: int, y: int, q: int) -> bool {
    &&& w > 0
    &&& 0 <= q
    &&& q / w < h
    &&& 0 <= q % w - x < fw
    &&& 0 <= q / w - y < fh
}

/// The canvas with the `fw` by `fh` sprite `frame` drawn unscaled at (`x`, `y`), clipped to
/// the `w` by `h` canvas.
pub open spec fn sprite_drawn(canvas: Seq<u8>, w: int, h: int, frame: Seq<u8>, fw: int, fh: int, x: int, y: int) -> Seq<u8> {
    Seq::new(
        canvas.len(),
        |p: int|
            {
                let q = p / 4;
                if sprite_covers(w, h, fw, fh, x, y, q) {
                    frame[((q / w - y) * fw + (q % w - x)) * 4 + p % 4]
                } else {
                    canvas[p]
                }
            },
    )
}

/// The canvas with the first `rows` rows of a window `cols` pixels wide copied: canvas
/// cell (`dst_x` + i, `dst_y` + j) takes sprite cell (`sx0` + i, `sy0` + j).
pub open spec fn window_copied(
    canvas: Seq<u8>,
    w: int,
    frame: Seq<u8>,
    fw: int,
    dst_x: int,
    dst_y: int,
    sx0: int,
    sy0: int,
    cols: int,
    rows: int,
) -> Seq<u8> {
    Seq::new(
        canvas.len(),
        |p: int|
            {
                let q = p / 4;
                if w > 0 && 0 <= q && dst_y <= q / w < dst_y + rows && dst_x <= q % w < dst_x + cols {
                    frame[((q / w - dst_y + sy0) * fw + (q % w - dst_x + sx0)) * 4 + p % 4]
                } else {
                    canvas[p]
                }
            },
    )
}

/// Copies `n` bytes of `src` from offset `s` onto the canvas at offset `dst`.
fn copy_span(canvas: &mut [u8], dst: usize, src: &[u8], s: usize, n: usize)
    requires
        dst + n <= old(canvas)@.len(),
        s + n <= src@.len(),
    ensures
        final(canvas)@ == Seq::new(
            old(canvas)@.len(),
            |p: int| if dst <= p < dst + n { src@[s + p - dst] } else { old(canvas)@[p] },
        ),
{
    let ghost c0 = canvas@;
    let canvas_len = canvas.len();
    let src_len = src.len();
    let mut k: usize = 0;
    while k < n
        invariant
            k <= n,
            dst + n <= canvas_len,
            s + n <= src_len,
            dst + n <= c0.len(),
            canvas@.len() == c0.len(),
            canvas_len == c0.len(),
            src_len == src@.len(),
            s + n <= src@.len(),
            canvas@ == Seq::new(
                c0.len(),
                |p: int| if dst <= p < dst + k { src@[s + p - dst] } else { c0[p] },
            ),
        decreases n - k,
    {
        canvas[dst + k] = src[s + k];
        k += 1;
        assert(canvas@ =~= Seq::new(
            c0.len(),
            |p: int| if dst <= p < dst + k { src@[s + p - dst] } else { c0[p] },
        ));
    }
}

proof fn lemma_window_row(
    canvas: Seq<u8>,
    w: int,
    frame: Seq<u8>,
    fw: int,
    dst_x: int,
    dst_y: int,
    sx0: int,
    sy0: int,
    cols: int,
    r: int,
)
    requires
        w > 0,
        0 <= dst_x,
        0 < cols,
        dst_x + cols <= w,
        0 <= dst_y,
        0 <= r,
    ensures
        ({
            let dst = ((dst_y + r) * w + dst_x) * 4;
            let s = ((r + sy0) * fw + sx0) * 4;
            let before = window_copied(canvas, w, frame, fw, dst_x, dst_y, sx0, sy0, cols, r);
            window_copied(canvas, w, frame, fw, dst_x, dst_y, sx0, sy0, cols, r + 1) == Seq::new(
                before.len(),
                |p: int| if dst <= p < dst + cols * 4 { frame[s + p - dst] } else { before[p] },
            )
        }),
{
    let dst = ((dst_y + r) * w + dst_x) * 4;
    let s = ((r + sy0) * fw + sx0) * 4;
    let before = window_copied(canvas, w, frame, fw, dst_x, dst_y, sx0, sy0, cols, r);
    let after = window_copied(canvas, w, frame, fw, dst_x, dst_y, sx0, sy0, cols, r + 1);
    let spliced = Seq::new(
        before.len(),
        |p: int| if dst <= p < dst + cols * 4 { frame[s + p - dst] } else { before[p] },
    );
    assert forall|p: int| 0 <= p < canvas.len() implies after[p] == spliced[p] by {
        let q = p / 4;
        lemma_cell_of_index(q, w);
        let cx = q % w;
        let cy = q / w;
        if dst <= p < dst + cols * 4 {
            let cx2 = dst_x + (q - ((dst_y + r) * w + dst_x));
            assert(0 <= cx2 < w);
            assert(q == (dst_y + r) * w + cx2);
            lemma_div_mod_of_cell(cx2, dst_y + r, w);
            assert(cy == dst_y + r && cx == cx2);
            assert(((cy - dst_y + sy0) * fw + (cx - dst_x + sx0)) * 4 + p % 4 == s + p - dst) by (nonlinear_arith)
                requires
                    cy == dst_y + r,
                    s == ((r + sy0) * fw + sx0) * 4,
                    dst == ((dst_y + r) * w + dst_x) * 4,
                    q == (dst_y + r) * w + cx,
                    p == q * 4 + p % 4,
            ;
        } else {
            if cy == dst_y + r && dst_x <= cx < dst_x + cols {
                assert(q == (dst_y + r) * w + cx);
                assert(false);
            }
        }
    }
    assert(after =~= spliced);
}

} // verus!

verus! {

/// What drawing a sprite needs of its arguments: sizes that fit in `i32`, a canvas and a
/// frame whose lengths match their sizes, and corner coordinates that can be negated.
pub open spec fn sprite_args_ok(
    canvas_len: int,
    width: int,
    height: int,
    frame_len: int,
    fw: int,
    fh: int,
    x: int,
    y: int,
) -> bool {
    &&& width <= i32::MAX && height <= i32::MAX
    &&& fw <= i32::MAX && fh <= i32::MAX
    &&& canvas_len == width * height * 4
    &&& frame_len == fw * fh * 4
    &&& x > i32::MIN && y > i32::MIN
}

proof fn lemma_window_is_sprite(
    canvas: Seq<u8>,
    w: int,
    h: int,
    frame: Seq<u8>,
    fw: int,
    fh: int,
    x: int,
    y: int,
    dst_x: int,
    dst_y: int,
    sx0: int,
    sy0: int,
    cols: int,
    rows: int,
)
    requires
        dst_x == if x > 0 { x } else { 0 },
        dst_y == if y > 0 { y } else { 0 },
        sx0 == if -x > 0 { -x } else { 0 },
        sy0 == if -y > 0 { -y } else { 0 },
        ({
            let m = if fw - sx0 < w - dst_x { fw - sx0 } else { w - dst_x };
            cols == if m > 0 { m } else { 0 }
        }),
        ({
            let m = if fh - sy0 < h - dst_y { fh - sy0 } else { h - dst_y };
            rows == if m > 0 { m } else { 0 }
        }),
    ensures
        window_copied(canvas, w, frame, fw, dst_x, dst_y, sx0, sy0, cols, rows) == sprite_drawn(
            canvas,
            w,
            h,
            frame,
            fw,
            fh,
            x,
            y,
        ),
{
    let a = window_copied(canvas, w, frame, fw, dst_x, dst_y, sx0, sy0, cols, rows);
    let b = sprite_drawn(canvas, w, h, frame, fw, fh, x, y);
    assert forall|p: int| 0 <= p < canvas.len() implies a[p] == b[p] by {
        let q = p / 4;
        if w > 0 && 0 <= q {
            lemma_cell_of_index(q, w);
        }
    }
    assert(a =~= b);
}

/// Draws the pet's body frame, `fw` by `fh`, with its corner at (`x`, `y`) of the
/// `width` by `height` canvas. At its own height the frame is copied row by row, clipped
/// to the canvas; at any other height `body_h` it is scaled to `fw` by `body_h` with
/// `blit_scaled`.
pub fn draw_sprite(
    canvas: &mut [u8],
    width: u32,
    height: u32,
    frame: &[u8],
    fw: u32,
    fh: u32,
    x: i32,
    y: i32,
    body_h: i32,
)
    requires
        sprite_args_ok(
            old(canvas)@.len() as int,
            width as int,
            height as int,
            frame@.len() as int,
            fw as int,
            fh as int,
            x as int,
            y as int,
        ),
        body_h >= 0,
        body_h != fh ==> blit_args_ok(
            width as int,
            height as int,
            fw as int,
            fh as int,
            x as int,
            y as int,
            fw as int,
            body_h as int,
        ),
    ensures
        body_h == fh ==> final(canvas)@ == sprite_drawn(
            old(canvas)@,
            width as int,
            height as int,
            frame@,
            fw as int,
            fh as int,
            x as int,
            y as int,
        ),
        body_h != fh ==> final(canvas)@ == blitted(
            old(canvas)@,
            width as int,
            height as int,
            frame@,
            fw as int,
            fh as int,
            x as int,
            y as int,
            fw as int,
            body_h as int,
        ),
{
    if body_h != fh as i32 {
        blit_scaled(canvas, width as usize, height as usize, frame, fw as usize, fh as usize, x, y, fw as usize, body_h as usize);
        return;
    }
    let ghost c0 = canvas@;
    let src_x_off: i32 = if -x > 0 { -x } else { 0 };
    let src_y_off: i32 = if -y > 0 { -y } else { 0 };
    let dst_x: i32 = if x > 0 { x } else { 0 };
    let dst_y: i32 = if y > 0 { y } else { 0 };
    let a = fw as i32 - src_x_off;
    let b = width as i32 - dst_x;
    let m = if a < b { a } else { b };
    let copy_w: i32 = if m > 0 { m } else { 0 };
    let a2 = fh as i32 - src_y_off;
    let b2 = height as i32 - dst_y;
    let m2 = if a2 < b2 { a2 } else { b2 };
    let copy_h: i32 = if m2 > 0 { m2 } else { 0 };
    let ghost (iw, ifw, ix0, iy0, isx, isy, icols) = (
        width as int,
        fw as int,
        dst_x as int,
        dst_y as int,
        src_x_off as int,
        src_y_off as int,
        copy_w as int,
    );
    proof {
        assert(window_copied(c0, iw, frame@, ifw, ix0, iy0, isx, isy, icols, 0) =~= c0);
    }
    let frame_len = frame.len();
    let canvas_len = canvas.len();
    let mut row: i32 = 0;
    if copy_w > 0 {
        while row < copy_h
            invariant
                0 <= row <= copy_h,
                copy_w > 0,
                dst_x + copy_w <= width,
                src_x_off + copy_w <= fw,
                copy_h > 0 ==> dst_y + copy_h <= height,
                copy_h > 0 ==> src_y_off + copy_h <= fh,
                0 <= dst_x && 0 <= dst_y && 0 <= src_x_off && 0 <= src_y_off,
                fh <= i32::MAX && height <= i32::MAX,
                c0.len() == width * height * 4,
                frame@.len() == fw * fh * 4,
                frame_len == frame@.len(),
                canvas_len == c0.len(),
                iw == width && ifw == fw && ix0 == dst_x && iy0 == dst_y && isx == src_x_off
                    && isy == src_y_off && icols == copy_w,
                canvas@ == window_copied(c0, iw, frame@, ifw, ix0, iy0, isx, isy, icols, row as int),
            decreases copy_h - row,
        {
            let sr = (row + src_y_off) as usize;
            let dr = (dst_y + row) as usize;
            proof {
                assert(sr * (fw as int) + fw <= (fh as int) * (fw as int)) by (nonlinear_arith)
                    requires sr < fh;
                assert(dr * (width as int) + width <= (height as int) * (width as int)) by (nonlinear_arith)
                    requires dr < height;
                assert((fh as int) * (fw as int) == (fw as int) * (fh as int)) by (nonlinear_arith);
                assert((height as int) * (width as int) == (width as int) * (height as int)) by (nonlinear_arith);
                lemma_window_row(c0, iw, frame@, ifw, ix0, iy0, isx, isy, icols, row as int);
            }
            let src_i = (sr * fw as usize + src_x_off as usize) * 4;
            let dst_i = (dr * width as usize + dst_x as usize) * 4;
            copy_span(canvas, dst_i, frame, src_i, copy_w as usize * 4);
            row += 1;
        }
    }
    proof {
        if copy_w > 0 {
            assert(row == copy_h);
        } else {
            assert(window_copied(c0, iw, frame@, ifw, ix0, iy0, isx, isy, icols, copy_h as int) =~= c0);
        }
        lemma_window_is_sprite(
            c0,
            iw,
            height as int,
            frame@,
            ifw,
            fh as int,
            x as int,
            y as int,
            ix0,
            iy0,
            isx,
            isy,
            icols,
            copy_h as int,
        );
    }
}

} // verus!

verus! {

/// Scaling a frame to its own size samples every pixel in place: a blit at native size
/// draws exactly what the unscaled copy of `draw_sprite` draws, on a canvas whose sides fit
/// in `i32` as `draw_sprite` asks.
pub proof fn law_blit_at_native_size_is_copy(
    canvas: Seq<u8>,
    w: int,
    h: int,
    frame: Seq<u8>,
    fw: int,
    fh: int,
    x: int,
    y: int,
)
    requires
        0 <= w <= i32::MAX,
        0 <= h <= i32::MAX,
        fw >= 0,
        fh >= 0,
        canvas.len() == w * h * 4,
        frame.len() == fw * fh * 4,
    ensures
        blitted(canvas, w, h, frame, fw, fh, x, y, fw, fh) == sprite_drawn(canvas, w, h, frame, fw, fh, x, y),
{
    lemma_side_as_i32(w as usize);
    lemma_side_as_i32(h as usize);
    let a = blitted(canvas, w, h, frame, fw, fh, x, y, fw, fh);
    let b = sprite_drawn(canvas, w, h, frame, fw, fh, x, y);
    assert forall|p: int| 0 <= p < canvas.len() implies a[p] == b[p] by {
        let q = p / 4;
        if w > 0 && q >= 0 {
            lemma_cell_of_index(q, w);
            let cx = q % w;
            let cy = q / w;
            let dx = cx - x;
            let dy = cy - y;
            if 0 <= dx < fw && 0 <= dy < fh && cy < h {
                vstd::arithmetic::div_mod::lemma_div_multiples_vanish(dx, fw);
                vstd::arithmetic::div_mod::lemma_div_multiples_vanish(dy, fh);
                vstd::arithmetic::mul::lemma_mul_is_commutative(dx, fw);
                vstd::arithmetic::mul::lemma_mul_is_commutative(dy, fh);
                assert(scaled_coord(dx, fw, fw) == dx);
                assert(scaled_coord(dy, fh, fh) == dy);
                assert((dy * fw + dx) * 4 + 4 <= fw * fh * 4) by (nonlinear_arith)
                    requires 0 <= dy < fh, 0 <= dx < fw;
                assert(0 <= (dy * fw + dx) * 4) by (nonlinear_arith)
                    requires 0 <= dy, 0 <= dx, 0 <= fw;
                assert(q * 4 + 4 <= w * h * 4) by (nonlinear_arith)
                    requires q == cy * w + cx, 0 <= cy < h, 0 <= cx < w;
            }
        }
    }
    assert(a =~= b);
}

} // verus!

verus! {

/// `a * b * 4` fits in `usize`.
pub open spec fn fits_times4(a: int, b: int) -> bool {
    a * b * 4 <= usize::MAX
}

fn product_fits_times4(a: usize, b: usize) -> (r: bool)
    ensures
        r == fits_times4(a as int, b as int),
{
    proof {
        assert((a as int) * (b as int) <= 0xffff_ffff_ffff_ffff * 0xffff_ffff_ffff_ffff) by (nonlinear_arith)
            requires a <= 0xffff_ffff_ffff_ffff, b <= 0xffff_ffff_ffff_ffff;
        assert((a as int) * (b as int) >= 0) by (nonlinear_arith) requires a >= 0, b >= 0;
    }
    let p = (a as u128) * (b as u128);
    match p.checked_mul(4) {
        Some(q) => q <= usize::MAX as u128,
        None => false,
    }
}

fn product_fits(a: usize, b: usize) -> (r: bool)
    ensures
        r == (a * b <= usize::MAX),
{
    proof {
        assert((a as int) * (b as int) <= 0xffff_ffff_ffff_ffff * 0xffff_ffff_ffff_ffff) by (nonlinear_arith)
            requires a <= 0xffff_ffff_ffff_ffff, b <= 0xffff_ffff_ffff_ffff;
        assert((a as int) * (b as int) >= 0) by (nonlinear_arith) requires a >= 0, b >= 0;
    }
    (a as u128) * (b as u128) <= usize::MAX as u128
}

/// Whether `blit_scaled` may be called with these arguments (see `blit_args_ok`).
pub fn blit_args_valid(cw: usize, ch: usize, sw: usize, sh: usize, dst_x: i32, dst_y: i32, dw: usize, dh: usize) -> (r: bool)
    ensures
        r == blit_args_ok(cw as int, ch as int, sw as int, sh as int, dst_x as int, dst_y as int, dw as int, dh as int),
{
    let x = dst_x as i128;
    let y = dst_y as i128;
    let side_w = cw as i32;
    let side_h = ch as i32;
    let ew: i128 = if side_w < 0 { 0 } else { side_w as i128 };
    let eh: i128 = if side_h < 0 { 0 } else { side_h as i128 };
    let max = i32::MAX as i128;
    let rows_meet = dh > 0 && y < eh && y + dh as i128 > 0;
    let meets = rows_meet && dw > 0 && x < ew && x + dw as i128 > 0;
    let rows_ok = dh as i128 <= max + 1 && y + dh as i128 <= max + 1;
    let cols_ok = !rows_meet || (dw as i128 <= max + 1 && x + dw as i128 <= max + 1);
    let sizes_ok = !meets || (sw > 0 && sh > 0 && product_fits(dw, sw) && product_fits(dh, sh)
        && product_fits_times4(sw, sh) && product_fits_times4(cw, ch));
    rows_ok && cols_ok && sizes_ok
}

/// Whether `draw_sprite` may be called with these arguments (see `sprite_args_ok`, and
/// `blit_args_ok` for a body that is not at full height).
pub fn sprite_args_valid(
    canvas_len: usize,
    width: u32,
    height: u32,
    frame_len: usize,
    fw: u32,
    fh: u32,
    x: i32,
    y: i32,
    body_h: i32,
) -> (r: bool)
    ensures
        r == (sprite_args_ok(canvas_len as int, width as int, height as int, frame_len as int, fw as int, fh as int, x as int, y as int)
            && body_h >= 0
            && (body_h != fh ==> blit_args_ok(width as int, height as int, fw as int, fh as int, x as int, y as int, fw as int, body_h as int))),
{
    proof {
        assert((width as int) * (height as int) <= 0xffff_ffff * 0xffff_ffff) by (nonlinear_arith)
            requires width <= 0xffff_ffff, height <= 0xffff_ffff;
        assert((fw as int) * (fh as int) <= 0xffff_ffff * 0xffff_ffff) by (nonlinear_arith)
            requires fw <= 0xffff_ffff, fh <= 0xffff_ffff;
        assert((width as int) * (height as int) >= 0) by (nonlinear_arith) requires width >= 0, height >= 0;
        assert((fw as int) * (fh as int) >= 0) by (nonlinear_arith) requires fw >= 0, fh >= 0;
    }
    let max = i32::MAX as u32;
    let sizes_ok = width <= max && height <= max && fw <= max && fh <= max;
    let lens_ok = (width as u128) * (height as u128) * 4 == canvas_len as u128
        && (fw as u128) * (fh as u128) * 4 == frame_len as u128;
    let base_ok = sizes_ok && lens_ok && x > i32::MIN && y > i32::MIN && body_h >= 0;
    if !base_ok {
        return false;
    }
    if body_h != fh as i32 {
        blit_args_valid(width as usize, height as usize, fw as usize, fh as usize, x, y, fw as usize, body_h as usize)
    } else {
        true
    }
}

} // verus!

verus! {

/// Painting the same block twice changes nothing after the first time.
pub proof fn law_paint_block_idempotent(canvas: Seq<u8>, cw: int, x: int, y: int, size: int, color: Seq<u8>)
    ensures
        painted_block(painted_block(canvas, cw, x, y, size, color), cw, x, y, size, color) == painted_block(
            canvas,
            cw,
            x,
            y,
            size,
            color,
        ),
{
    let once = painted_block(canvas, cw, x, y, size, color);
    let twice = painted_block(once, cw, x, y, size, color);
    assert(twice =~= once);
}

/// A blit never touches a canvas pixel outside its destination rectangle, nor a byte past
/// the `cw` by `ch` canvas.
pub proof fn law_blit_outside_unchanged(
    canvas: Seq<u8>,
    cw: int,
    ch: int,
    src: Seq<u8>,
    sw: int,
    sh: int,
    dst_x: int,
    dst_y: int,
    dw: int,
    dh: int,
    cx: int,
    cy: int,
    c: int,
)
    requires
        0 <= cx < cw <= usize::MAX,
        0 <= cy,
        0 <= ch <= usize::MAX,
        !(dst_x <= cx < dst_x + dw && dst_y <= cy < dst_y + dh) || cy >= ch,
        0 <= c < 4,
        0 <= (cy * cw + cx) * 4 + c < canvas.len(),
    ensures
        blitted(canvas, cw, ch, src, sw, sh, dst_x, dst_y, dw, dh)[(cy * cw + cx) * 4 + c] == canvas[(cy * cw + cx) * 4 + c],
{
    let p = (cy * cw + cx) * 4 + c;
    assert(p / 4 == cy * cw + cx);
    lemma_div_mod_of_cell(cx, cy, cw);
    lemma_side_as_i32(ch as usize);
}

/// A blit that writes nothing past the canvas's pixels: no byte at or past `cw * ch * 4`
/// changes.
pub proof fn law_blit_stays_in_canvas(
    canvas: Seq<u8>,
    cw: int,
    ch: int,
    src: Seq<u8>,
    sw: int,
    sh: int,
    dst_x: int,
    dst_y: int,
    dw: int,
    dh: int,
    p: int,
)
    requires
        0 <= cw <= usize::MAX,
        0 <= ch <= usize::MAX,
        cw * ch * 4 <= p < canvas.len(),
    ensures
        blitted(canvas, cw, ch, src, sw, sh, dst_x, dst_y, dw, dh)[p] == canvas[p],
{
    lemma_side_as_i32(ch as usize);
    let q = p / 4;
    if cw > 0 {
        lemma_cell_of_index(q, cw);
        assert(q >= cw * ch);
        if q / cw < ch {
            assert((q / cw) * cw + q % cw < ch * cw) by (nonlinear_arith)
                requires q / cw < ch, q % cw < cw, q / cw >= 0;
            assert(ch * cw == cw * ch) by (nonlinear_arith);
        }
    }
}

/// A blit of a canvas-sized source onto the whole canvas at the origin copies the source,
/// for a canvas whose sides fit in `i32` (a wider one is compared as a narrower `i32`).
pub proof fn law_full_blit_is_copy(canvas: Seq<u8>, cw: int, ch: int, src: Seq<u8>)
    requires
        0 < cw <= i32::MAX,
        0 < ch <= i32::MAX,
        src.len() == cw * ch * 4,
        canvas.len() == cw * ch * 4,
    ensures
        blitted(canvas, cw, ch, src, cw, ch, 0, 0, cw, ch) == src,
{
    lemma_side_as_i32(cw as usize);
    lemma_side_as_i32(ch as usize);
    let b = blitted(canvas, cw, ch, src, cw, ch, 0, 0, cw, ch);
    assert forall|p: int| 0 <= p < canvas.len() implies b[p] == src[p] by {
        let q = p / 4;
        lemma_cell_of_index(q, cw);
        let cx = q % cw;
        let cy = q / cw;
        vstd::arithmetic::div_mod::lemma_div_multiples_vanish(cx, cw);
        vstd::arithmetic::div_mod::lemma_div_multiples_vanish(cy, ch);
        vstd::arithmetic::mul::lemma_mul_is_commutative(cx, cw);
        vstd::arithmetic::mul::lemma_mul_is_commutative(cy, ch);
        assert(q < cw * ch);
        assert(cy < ch) by (nonlinear_arith)
            requires q == cy * cw + cx, q < cw * ch, 0 <= cx, cw > 0;
        assert(scaled_coord(cx, cw, cw) == cx);
        assert(scaled_coord(cy, ch, ch) == cy);
        assert((cy * cw + cx) * 4 + 4 <= cw * ch * 4) by (nonlinear_arith)
            requires 0 <= cy < ch, 0 <= cx < cw;
    }
    assert(b =~= src);
}

} // verus!

verus! {

/// The number of columns (or rows) that a canvas side `n` gives when compared as an `i32`:
/// `n as i32`, or none when that is negative.
pub open spec fn side_as_i32(n: usize) -> int {
    let v = n as i32;
    if v < 0 { 0 } else { v as int }
}

/// A side compared as an `i32` never exceeds the side itself, and is the side when it fits.
pub proof fn lemma_side_as_i32(n: usize)
    ensures
        0 <= side_as_i32(n) <= n,
        n <= i32::MAX ==> side_as_i32(n) == n,
{
    assert((n as i32) >= 0 ==> ((n as i32) as u64) <= (n as u64)) by (bit_vector);
    assert(n <= 0x7fff_ffff ==> (n as i32) as u64 == n as u64) by (bit_vector);
}

} // verus!
