//! The sprite sheet: rows of 32 by 32 frames, how many frames a row holds, and how a row
//! becomes display-ready animation frames.
use vstd::prelude::*;

verus! {

/// Width of one frame of the sprite sheet, in sheet pixels.
pub const FRAME_W: u32 = 32;

/// Height of one frame of the sprite sheet, in sheet pixels.
pub const FRAME_H: u32 = 32;

/// An RGBA image: `width` by `height` pixels of four bytes (red, green, blue, alpha),
/// row after row.
pub struct RgbaImage {
    pub width: u32,
    pub height: u32,
    pub pixels: Vec<u8>,
}

impl RgbaImage {
    /// The pixel buffer holds exactly `width` by `height` pixels.
    pub open spec fn wf(&self) -> bool {
        self.pixels@.len() == self.width * self.height * 4
    }

    /// Byte offset of channel `c` of pixel (`x`, `y`).
    pub open spec fn offset(&self, x: int, y: int, c: int) -> int {
        (y * self.width + x) * 4 + c
    }

    /// Alpha of pixel (`x`, `y`).
    pub open spec fn alpha(&self, x: int, y: int) -> u8 {
        self.pixels@[self.offset(x, y, 3)]
    }

    /// The frame in column `col` of sheet row `row` has a pixel that is not fully transparent.
    pub open spec fn frame_nonempty(&self, row: int, col: int) -> bool {
        exists|x: int, y: int|
            0 <= x < FRAME_W && 0 <= y < FRAME_H && #[trigger] self.alpha(col * FRAME_W + x, row * FRAME_H + y) > 0
    }

    /// Number of whole frames across the sheet.
    pub open spec fn columns(&self) -> int {
        (self.width / FRAME_W) as int
    }

    /// The frames of row `row` are read left to right and stop at the first empty one:
    /// `n` frames, each non-empty, followed by an empty frame or the sheet's right edge.
    pub open spec fn leading_frames(&self, row: int, n: int) -> bool {
        &&& 0 <= n <= self.columns()
        &&& forall|c: int| 0 <= c < n ==> #[trigger] self.frame_nonempty(row, c)
        &&& n < self.columns() ==> !self.frame_nonempty(row, n)
    }

    /// The frame in column `col` of row `row` shows a pixel that is not fully transparent in
    /// its first pixel column, above the sheet's bottom edge.
    pub open spec fn first_column_shows(&self, row: int, col: int) -> bool {
        exists|y: int|
            0 <= y < FRAME_H && row * FRAME_H + y < self.height && #[trigger] self.alpha(col * FRAME_W, row * FRAME_H + y) > 0
    }

    /// Scanning row `row` for frames stays inside the sheet: the sheet has no whole column,
    /// or the row lies within the sheet's height, or (for a row cut off by the bottom edge)
    /// every frame of it is found non-empty in its first pixel column before the scan would
    /// pass the bottom edge.
    pub open spec fn row_readable(&self, row: int) -> bool {
        ||| self.columns() == 0
        ||| (row + 1) * FRAME_H <= self.height
        ||| forall|c: int| 0 <= c < self.columns() ==> #[trigger] self.first_column_shows(row, c)
    }
}

/// Whether the frame in column `col` of sheet row `row` has a pixel that is not fully
/// transparent; the pixels are looked at column by column, top to bottom.
fn frame_has_content(sheet: &RgbaImage, row: u32, col: u32) -> (res: bool)
    requires
        sheet.wf(),
        col < sheet.columns(),
        (row + 1) * FRAME_H <= sheet.height || sheet.first_column_shows(row as int, col as int),
    ensures
        res == sheet.frame_nonempty(row as int, col as int),
{
    proof {
        assert((col as int) * 32 + 32 <= sheet.width) by (nonlinear_arith)
            requires col < sheet.width / 32;
    }
    let plen = sheet.pixels.len();
    let ghost whole = (row + 1) * FRAME_H <= sheet.height;
    let mut x: u32 = 0;
    while x < FRAME_W
        invariant
            sheet.wf(),
            plen == sheet.pixels@.len(),
            x <= FRAME_W,
            (col as int) * 32 + 32 <= sheet.width,
            whole == ((row + 1) * FRAME_H <= sheet.height),
            whole || sheet.first_column_shows(row as int, col as int),
            !whole ==> x == 0,
            forall|xx: int, yy: int| 0 <= xx < x && 0 <= yy < FRAME_H ==> #[trigger] sheet.alpha(col * FRAME_W + xx, row * FRAME_H + yy) == 0,
        decreases FRAME_W - x,
    {
        let mut y: u32 = 0;
        while y < FRAME_H
            invariant
                sheet.wf(),
                plen == sheet.pixels@.len(),
                x < FRAME_W,
                y <= FRAME_H,
                (col as int) * 32 + 32 <= sheet.width,
                whole == ((row + 1) * FRAME_H <= sheet.height),
                whole || sheet.first_column_shows(row as int, col as int),
                !whole ==> x == 0,
                forall|xx: int, yy: int| 0 <= xx < x && 0 <= yy < FRAME_H ==> #[trigger] sheet.alpha(col * FRAME_W + xx, row * FRAME_H + yy) == 0,
                forall|yy: int| 0 <= yy < y ==> #[trigger] sheet.alpha(col * FRAME_W + x, row * FRAME_H + yy) == 0,
            decreases FRAME_H - y,
        {
            proof {
                if !whole {
                    let y0 = choose|y0: int|
                        0 <= y0 < FRAME_H && row * FRAME_H + y0 < sheet.height && #[trigger] sheet.alpha(col * FRAME_W, row * FRAME_H + y0) > 0;
                    assert(sheet.alpha(col * FRAME_W + 0, row * FRAME_H + y0) > 0);
                    assert(y <= y0);
                }
            }
            let px = col * FRAME_W + x;
            let py = row * FRAME_H + y;
            proof {
                assert((py as int) * (sheet.width as int) + (px as int) < (sheet.height as int) * (sheet.width as int)) by (nonlinear_arith)
                    requires py < sheet.height, px < sheet.width;
                assert((sheet.height as int) * (sheet.width as int) == (sheet.width as int) * (sheet.height as int)) by (nonlinear_arith);
            }
            let i = (py as usize * sheet.width as usize + px as usize) * 4 + 3;
            if sheet.pixels[i] > 0 {
                assert(sheet.alpha(col * FRAME_W + x, row * FRAME_H + y) > 0);
                return true;
            }
            y += 1;
        }
        proof {
            if !whole {
                let y0 = choose|y0: int|
                    0 <= y0 < FRAME_H && row * FRAME_H + y0 < sheet.height && #[trigger] sheet.alpha(col * FRAME_W, row * FRAME_H + y0) > 0;
                assert(sheet.alpha(col * FRAME_W + 0, row * FRAME_H + y0) > 0);
                assert(false);
            }
        }
        x += 1;
    }
    false
}

/// Counts the frames of sheet row `row`: left to right, up to the first empty frame or the
/// sheet's right edge.
pub fn count_frames_in_row(sheet: &RgbaImage, row: u32) -> (n: u32)
    requires
        sheet.wf(),
        sheet.row_readable(row as int),
    ensures
        sheet.leading_frames(row as int, n as int),
{
    let max_cols = sheet.width / FRAME_W;
    let mut col: u32 = 0;
    while col < max_cols
        invariant
            sheet.wf(),
            sheet.row_readable(row as int),
            max_cols == sheet.columns(),
            col <= max_cols,
            forall|c: int| 0 <= c < col ==> #[trigger] sheet.frame_nonempty(row as int, c),
        decreases max_cols - col,
    {
        if !frame_has_content(sheet, row, col) {
            return col;
        }
        col += 1;
    }
    col
}

} // verus!

verus! {

/// Frame (`col`, `row`) of the sheet cut out as a 32 by 32 RGBA image.
pub open spec fn cropped_frame(sheet: RgbaImage, row: int, col: int) -> Seq<u8> {
    Seq::new(
        (FRAME_W * FRAME_H * 4) as nat,
        |k: int|
            {
                let q = k / 4;
                sheet.pixels@[sheet.offset(col * FRAME_W + q % (FRAME_W as int), row * FRAME_H + q / (FRAME_W as int), k % 4)]
            },
    )
}

/// Cuts frame (`col`, `row`) out of the sheet.
fn crop_frame(sheet: &RgbaImage, row: u32, col: u32) -> (out: Vec<u8>)
    requires
        sheet.wf(),
        (col + 1) * FRAME_W <= sheet.width,
        (row + 1) * FRAME_H <= sheet.height,
    ensures
        out@ == cropped_frame(*sheet, row as int, col as int),
{
    let plen = sheet.pixels.len();
    let mut out: Vec<u8> = Vec::new();
    let mut py: u32 = 0;
    while py < FRAME_H
        invariant
            sheet.wf(),
            plen == sheet.pixels@.len(),
            (col + 1) * FRAME_W <= sheet.width,
            (row + 1) * FRAME_H <= sheet.height,
            py <= FRAME_H,
            out@.len() == py * FRAME_W * 4,
            forall|k: int| 0 <= k < out@.len() ==> out@[k] == cropped_frame(*sheet, row as int, col as int)[k],
        decreases FRAME_H - py,
    {
        let mut px: u32 = 0;
        while px < FRAME_W
            invariant
                sheet.wf(),
                plen == sheet.pixels@.len(),
                (col + 1) * FRAME_W <= sheet.width,
                (row + 1) * FRAME_H <= sheet.height,
                py < FRAME_H,
                px <= FRAME_W,
                out@.len() == (py * FRAME_W + px) * 4,
                forall|k: int| 0 <= k < out@.len() ==> out@[k] == cropped_frame(*sheet, row as int, col as int)[k],
            decreases FRAME_W - px,
        {
            let x = col * FRAME_W + px;
            let y = row * FRAME_H + py;
            proof {
                assert((y as int) * (sheet.width as int) + (x as int) < (sheet.height as int) * (sheet.width as int)) by (nonlinear_arith)
                    requires y < sheet.height, x < sheet.width;
                assert((sheet.height as int) * (sheet.width as int) == (sheet.width as int) * (sheet.height as int)) by (nonlinear_arith);
            }
            let i = (y as usize * sheet.width as usize + x as usize) * 4;
            let ghost before = out@;
            let ghost base = before.len() as int;
            out.push(sheet.pixels[i]);
            out.push(sheet.pixels[i + 1]);
            out.push(sheet.pixels[i + 2]);
            out.push(sheet.pixels[i + 3]);
            proof {
                assert forall|k: int| 0 <= k < out@.len() implies out@[k] == cropped_frame(*sheet, row as int, col as int)[k] by {
                    if k >= base {
                        let q = k / 4;
                        assert(q == py * 32 + px);
                        assert(q % 32 == px);
                        assert(q / 32 == py);
                    } else {
                        assert(out@[k] == before[k]);
                    }
                }
            }
            px += 1;
        }
        py += 1;
    }
    assert(out@ =~= cropped_frame(*sheet, row as int, col as int));
    out
}

/// A colour channel `c` weighted by alpha `a`, rounded down.
pub open spec fn premul(c: u8, a: u8) -> u8 {
    (c as int * a as int / 255) as u8
}

/// RGBA pixels turned into premultiplied BGRA pixels, as the canvas holds them; a trailing
/// partial pixel is dropped.
pub open spec fn premultiplied_bgra(rgba: Seq<u8>) -> Seq<u8> {
    Seq::new(
        ((rgba.len() / 4) * 4) as nat,
        |k: int|
            {
                let i = (k / 4) * 4;
                let a = rgba[i + 3];
                if k % 4 == 0 {
                    premul(rgba[i + 2], a)
                } else if k % 4 == 1 {
                    premul(rgba[i + 1], a)
                } else if k % 4 == 2 {
                    premul(rgba[i], a)
                } else {
                    a
                }
            },
    )
}

fn premul_channel(c: u8, a: u8) -> (r: u8)
    ensures
        r == premul(c, a),
{
    proof {
        assert((c as int) * (a as int) <= 255 * 255) by (nonlinear_arith)
            requires c <= 255, a <= 255;
        assert((c as int) * (a as int) >= 0) by (nonlinear_arith)
            requires c >= 0, a >= 0;
    }
    (c as u16 * a as u16 / 255) as u8
}

/// Turns RGBA pixels into premultiplied BGRA pixels: each colour channel is weighted by
/// the pixel's alpha (rounded down) and blue and red trade places.
pub fn premultiply_bgra(rgba: &[u8]) -> (out: Vec<u8>)
    ensures
        out@ == premultiplied_bgra(rgba@),
{
    let len = rgba.len();
    let n = len / 4;
    let mut out: Vec<u8> = Vec::new();
    let mut j: usize = 0;
    while j < n
        invariant
            len == rgba@.len(),
            n == rgba@.len() / 4,
            j <= n,
            out@.len() == j * 4,
            forall|k: int| 0 <= k < out@.len() ==> out@[k] == premultiplied_bgra(rgba@)[k],
        decreases n - j,
    {
        let i = j * 4;
        let a = rgba[i + 3];
        let ghost before = out@;
        out.push(premul_channel(rgba[i + 2], a));
        out.push(premul_channel(rgba[i + 1], a));
        out.push(premul_channel(rgba[i], a));
        out.push(a);
        proof {
            assert forall|k: int| 0 <= k < out@.len() implies out@[k] == premultiplied_bgra(rgba@)[k] by {
                if k >= i {
                    assert(k / 4 == j);
                } else {
                    assert(out@[k] == before[k]);
                }
            }
        }
        j += 1;
    }
    assert(out@ =~= premultiplied_bgra(rgba@));
    out
}

/// The pixels that the `image` crate's `DynamicImage::resize_exact` with
/// `FilterType::Nearest` makes of a `width` by `height` RGBA image at `new_width` by
/// `new_height`.
pub uninterp spec fn nearest_resize(pixels: Seq<u8>, width: u32, height: u32, new_width: u32, new_height: u32) -> Seq<u8>;

/// Resizes an RGBA image with the `image` crate: `DynamicImage::resize_exact` with
/// `FilterType::Nearest`, then `into_rgba8` and `into_raw`. Trusted to give the pixels
/// named by `nearest_resize`, `new_width` by `new_height` of them, as the crate's source
/// shows; the sampling itself is not stated.
#[verifier::external_body]
fn resize_nearest(pixels: Vec<u8>, width: u32, height: u32, new_width: u32, new_height: u32) -> (out: Vec<u8>)
    requires
        pixels@.len() == width * height * 4,
        width * new_height * 4 <= usize::MAX,
        new_width * new_height * 4 <= usize::MAX,
    ensures
        out@ == nearest_resize(pixels@, width, height, new_width, new_height),
        out@.len() == new_width * new_height * 4,
{
    let image = image::RgbaImage::from_raw(width, height, pixels).unwrap();
    let resized = image::DynamicImage::from(image).resize_exact(new_width, new_height, image::imageops::FilterType::Nearest);
    resized.into_rgba8().into_raw()
}

/// The frames of one animation, each a premultiplied BGRA image at display size.
pub struct Frames {
    pub right: Vec<Vec<u8>>,
}

/// Frame `col` of sheet row `row`, ready for the canvas: cut out, resized to
/// `disp_w` by `disp_h` by the `image` crate, then premultiplied as BGRA.
pub open spec fn anim_frame(sheet: RgbaImage, row: int, col: int, disp_w: u32, disp_h: u32) -> Seq<u8> {
    premultiplied_bgra(nearest_resize(cropped_frame(sheet, row, col), FRAME_W, FRAME_H, disp_w, disp_h))
}

/// The first `count` frames of sheet row `row` can be cut out.
pub open spec fn frames_readable(sheet: RgbaImage, row: int, count: int) -> bool {
    count == 0 || (count * FRAME_W <= sheet.width && (row + 1) * FRAME_H <= sheet.height)
}

/// The display size leaves the resized frames, and the resize's work buffers, within
/// `usize`.
pub open spec fn display_size_ok(disp_w: int, disp_h: int) -> bool {
    &&& FRAME_W * disp_h * 4 <= usize::MAX
    &&& disp_w * disp_h * 4 <= usize::MAX
}

/// Loads the first `count` frames of sheet row `row` at display size `disp_w` by `disp_h`.
pub fn load_anim(sheet: &RgbaImage, row: u32, count: u32, disp_w: u32, disp_h: u32) -> (frames: Frames)
    requires
        sheet.wf(),
        frames_readable(*sheet, row as int, count as int),
        display_size_ok(disp_w as int, disp_h as int),
    ensures
        frames.right@.len() == count,
        forall|c: int| 0 <= c < count ==> #[trigger] frames.right@[c]@ == anim_frame(*sheet, row as int, c, disp_w, disp_h),
        forall|c: int| 0 <= c < count ==> #[trigger] frames.right@[c]@.len() == disp_w * disp_h * 4,
{
    let mut right: Vec<Vec<u8>> = Vec::new();
    let mut col: u32 = 0;
    while col < count
        invariant
            sheet.wf(),
            frames_readable(*sheet, row as int, count as int),
            display_size_ok(disp_w as int, disp_h as int),
            col <= count,
            right@.len() == col,
            forall|c: int| 0 <= c < col ==> #[trigger] right@[c]@ == anim_frame(*sheet, row as int, c, disp_w, disp_h),
            forall|c: int| 0 <= c < col ==> #[trigger] right@[c]@.len() == disp_w * disp_h * 4,
        decreases count - col,
    {
        proof {
            assert((col as int + 1) * 32 <= (count as int) * 32) by (nonlinear_arith)
                requires col < count;
        }
        let cropped = crop_frame(sheet, row, col);
        let resized = resize_nearest(cropped, FRAME_W, FRAME_H, disp_w, disp_h);
        let frame = premultiply_bgra(resized.as_slice());
        proof {
            assert(((disp_w * disp_h * 4) as int / 4) * 4 == disp_w * disp_h * 4) by (nonlinear_arith);
        }
        right.push(frame);
        col += 1;
    }
    Frames { right }
}

} // verus!

verus! {

impl RgbaImage {
    /// Whether the pixel buffer holds exactly `width` by `height` pixels.
    pub fn is_wf(&self) -> (r: bool)
        ensures
            r == self.wf(),
    {
        proof {
            assert((self.width as int) * (self.height as int) <= 0xffff_ffff * 0xffff_ffff) by (nonlinear_arith)
                requires self.width <= 0xffff_ffff, self.height <= 0xffff_ffff;
            assert((self.width as int) * (self.height as int) >= 0) by (nonlinear_arith)
                requires self.width >= 0, self.height >= 0;
        }
        (self.width as u128) * (self.height as u128) * 4 == self.pixels.len() as u128
    }

    /// Whether row `row` of frames can be scanned for frames (see `row_readable`).
    pub fn can_read_row(&self, row: u32) -> (r: bool)
        requires
            self.wf(),
        ensures
            r == self.row_readable(row as int),
    {
        let cols = self.width / FRAME_W;
        let top = row as u64 * 32;
        if cols == 0 || top + 32 <= self.height as u64 {
            return true;
        }
        if top >= self.height as u64 {
            proof {
                assert(!self.first_column_shows(row as int, 0));
            }
            return false;
        }
        let limit = (self.height as u64 - top) as u32;
        let plen = self.pixels.len();
        proof {
            assert((cols as int) * 32 <= self.width) by (nonlinear_arith)
                requires cols == self.width / 32;
        }
        let mut c: u32 = 0;
        while c < cols
            invariant
                self.wf(),
                plen == self.pixels@.len(),
                cols == self.columns(),
                (cols as int) * 32 <= self.width,
                top == row * FRAME_H,
                top + limit == self.height,
                0 < limit < 32,
                c <= cols,
                forall|cc: int| 0 <= cc < c ==> #[trigger] self.first_column_shows(row as int, cc),
            decreases cols - c,
        {
            let mut y: u32 = 0;
            let mut found = false;
            while y < limit && !found
                invariant
                    self.wf(),
                    plen == self.pixels@.len(),
                    (cols as int) * 32 <= self.width,
                    c < cols,
                    top == row * FRAME_H,
                    top + limit == self.height,
                    0 < limit < 32,
                    y <= limit,
                    found ==> self.first_column_shows(row as int, c as int),
                    !found ==> forall|yy: int| 0 <= yy < y ==> #[trigger] self.alpha(c * FRAME_W, row * FRAME_H + yy) == 0,
                decreases limit - y + (if found { 0int } else { 1int }),
            {
                let px = c * FRAME_W;
                let py = top as u32 + y;
                proof {
                    assert((py as int) * (self.width as int) + (px as int) < (self.height as int) * (self.width as int)) by (nonlinear_arith)
                        requires py < self.height, px < self.width;
                    assert((self.height as int) * (self.width as int) == (self.width as int) * (self.height as int)) by (nonlinear_arith);
                }
                let i = (py as usize * self.width as usize + px as usize) * 4 + 3;
                if self.pixels[i] > 0 {
                    assert(self.alpha(c * FRAME_W, row * FRAME_H + y) > 0);
                    found = true;
                } else {
                    y += 1;
                }
            }
            if !found {
                proof {
                    assert forall|yy: int| 0 <= yy < FRAME_H && row * FRAME_H + yy < self.height implies !(#[trigger] self.alpha(c * FRAME_W, row * FRAME_H + yy) > 0) by {
                        assert(yy < y);
                    }
                    assert(!self.first_column_shows(row as int, c as int));
                    assert(self.columns() > 0);
                    assert((row + 1) * FRAME_H > self.height);
                }
                return false;
            }
            c += 1;
        }
        true
    }

    /// Whether the first `count` frames of row `row` can be cut out (see `frames_readable`).
    pub fn can_read_frames(&self, row: u32, count: u32) -> (r: bool)
        ensures
            r == frames_readable(*self, row as int, count as int),
    {
        count == 0 || ((count as u64) * 32 <= self.width as u64
            && (row as u64 + 1) * 32 <= self.height as u64)
    }
}

/// Whether frames can be loaded at display size `disp_w` by `disp_h` (see
/// `display_size_ok`).
pub fn display_size_valid(disp_w: u32, disp_h: u32) -> (r: bool)
    ensures
        r == display_size_ok(disp_w as int, disp_h as int),
{
    proof {
        assert((disp_w as int) * (disp_h as int) <= 0xffff_ffff * 0xffff_ffff) by (nonlinear_arith)
            requires disp_w <= 0xffff_ffff, disp_h <= 0xffff_ffff;
        assert((disp_w as int) * (disp_h as int) >= 0) by (nonlinear_arith) requires disp_w >= 0, disp_h >= 0;
    }
    32u128 * (disp_h as u128) * 4 <= usize::MAX as u128
        && (disp_w as u128) * (disp_h as u128) * 4 <= usize::MAX as u128
}

} // verus!

verus! {

/// Premultiplied BGRA pixels keep each pixel's alpha, and no colour channel exceeds it.
pub proof fn law_premultiplied_colors_within_alpha(rgba: Seq<u8>, k: int)
    requires
        0 <= k < premultiplied_bgra(rgba).len(),
    ensures
        premultiplied_bgra(rgba)[k] <= premultiplied_bgra(rgba)[(k / 4) * 4 + 3],
        premultiplied_bgra(rgba)[(k / 4) * 4 + 3] == rgba[(k / 4) * 4 + 3],
{
    let i = (k / 4) * 4;
    let a = rgba[i + 3];
    assert forall|c: u8| #[trigger] premul(c, a) <= a by {
        assert((c as int) * (a as int) / 255 <= a as int) by (nonlinear_arith)
            requires 0 <= c <= 255, 0 <= a <= 255;
        assert((c as int) * (a as int) / 255 >= 0) by (nonlinear_arith)
            requires 0 <= c <= 255, 0 <= a <= 255;
    }
    assert(((i + 3) / 4) * 4 == i);
}

} // verus!

verus! {

/// The pixels of cell (`col`, `row`) have the same alpha in both sheets.
pub open spec fn same_cell(a: RgbaImage, b: RgbaImage, row: int, col: int) -> bool {
    forall|x: int, y: int|
        0 <= x < FRAME_W && 0 <= y < FRAME_H ==> #[trigger] b.alpha(col * FRAME_W + x, row * FRAME_H + y) == a.alpha(
            col * FRAME_W + x,
            row * FRAME_H + y,
        )
}

/// The two sheets have the same alpha everywhere outside cell (`col`, `row`).
pub open spec fn same_outside_cell(a: RgbaImage, b: RgbaImage, row: int, col: int) -> bool {
    forall|x: int, y: int|
        !(col * FRAME_W <= x < col * FRAME_W + FRAME_W && row * FRAME_H <= y < row * FRAME_H + FRAME_H)
            ==> #[trigger] b.alpha(x, y) == a.alpha(x, y)
}

proof fn lemma_same_cell_same_content(a: RgbaImage, b: RgbaImage, row: int, col: int)
    requires
        same_cell(a, b, row, col),
    ensures
        a.frame_nonempty(row, col) == b.frame_nonempty(row, col),
{
    if a.frame_nonempty(row, col) {
        let (x, y) = choose|x: int, y: int|
            0 <= x < FRAME_W && 0 <= y < FRAME_H && #[trigger] a.alpha(col * FRAME_W + x, row * FRAME_H + y) > 0;
        assert(b.alpha(col * FRAME_W + x, row * FRAME_H + y) > 0);
    }
    if b.frame_nonempty(row, col) {
        let (x, y) = choose|x: int, y: int|
            0 <= x < FRAME_W && 0 <= y < FRAME_H && #[trigger] b.alpha(col * FRAME_W + x, row * FRAME_H + y) > 0;
        assert(a.alpha(col * FRAME_W + x, row * FRAME_H + y) > 0);
    }
}

proof fn lemma_other_cells_unchanged(a: RgbaImage, b: RgbaImage, row: int, col: int, c: int)
    requires
        same_outside_cell(a, b, row, col),
        c != col,
    ensures
        a.frame_nonempty(row, c) == b.frame_nonempty(row, c),
{
    assert forall|x: int, y: int| 0 <= x < FRAME_W && 0 <= y < FRAME_H implies #[trigger] b.alpha(
        c * FRAME_W + x,
        row * FRAME_H + y,
    ) == a.alpha(c * FRAME_W + x, row * FRAME_H + y) by {
        if c < col {
            assert(c * FRAME_W + x < col * FRAME_W) by (nonlinear_arith)
                requires c < col, x < 32;
        } else {
            assert(c * FRAME_W + x >= col * FRAME_W + FRAME_W) by (nonlinear_arith)
                requires c > col, x >= 0;
        }
        assert(b.alpha(c * FRAME_W + x, row * FRAME_H + y) == a.alpha(c * FRAME_W + x, row * FRAME_H + y));
    }
    lemma_same_cell_same_content(a, b, row, c);
}

/// A row has one frame count: the number of leading non-empty frames is unique.
pub proof fn law_frame_count_unique(sheet: RgbaImage, row: int, n: int, m: int)
    requires
        sheet.leading_frames(row, n),
        sheet.leading_frames(row, m),
    ensures
        n == m,
{
    if n < m {
        assert(sheet.frame_nonempty(row, n));
    } else if m < n {
        assert(sheet.frame_nonempty(row, m));
    }
}

/// Clearing counted frame `k` (making all its pixels transparent) cuts the count to `k`.
pub proof fn law_clearing_a_counted_frame(sheet: RgbaImage, cleared: RgbaImage, row: int, n: int, k: int)
    requires
        sheet.leading_frames(row, n),
        0 <= k < n,
        cleared.width == sheet.width,
        same_outside_cell(sheet, cleared, row, k),
        forall|x: int, y: int| 0 <= x < FRAME_W && 0 <= y < FRAME_H ==> #[trigger] cleared.alpha(k * FRAME_W + x, row * FRAME_H + y) == 0,
    ensures
        cleared.leading_frames(row, k),
{
    assert forall|c: int| 0 <= c < k implies #[trigger] cleared.frame_nonempty(row, c) by {
        lemma_other_cells_unchanged(sheet, cleared, row, k, c);
        assert(sheet.frame_nonempty(row, c));
    }
    if cleared.frame_nonempty(row, k) {
        let (x, y) = choose|x: int, y: int|
            0 <= x < FRAME_W && 0 <= y < FRAME_H && #[trigger] cleared.alpha(k * FRAME_W + x, row * FRAME_H + y) > 0;
        assert(cleared.alpha(k * FRAME_W + x, row * FRAME_H + y) == 0);
    }
}

/// A frame after the first empty one does not count, whatever it holds: changing it keeps
/// the count.
pub proof fn law_frames_after_the_gap_do_not_count(sheet: RgbaImage, changed: RgbaImage, row: int, n: int, c: int)
    requires
        sheet.leading_frames(row, n),
        c > n,
        changed.width == sheet.width,
        same_outside_cell(sheet, changed, row, c),
    ensures
        changed.leading_frames(row, n),
{
    assert forall|cc: int| 0 <= cc < n implies #[trigger] changed.frame_nonempty(row, cc) by {
        lemma_other_cells_unchanged(sheet, changed, row, c, cc);
        assert(sheet.frame_nonempty(row, cc));
    }
    if n < changed.columns() {
        lemma_other_cells_unchanged(sheet, changed, row, c, n);
    }
}

/// The frames that `load_anim` gives are premultiplied: no colour channel exceeds its
/// pixel's alpha.
pub proof fn law_loaded_frames_are_premultiplied(sheet: RgbaImage, row: int, col: int, disp_w: u32, disp_h: u32, k: int)
    requires
        0 <= k < anim_frame(sheet, row, col, disp_w, disp_h).len(),
    ensures
        anim_frame(sheet, row, col, disp_w, disp_h)[k] <= anim_frame(sheet, row, col, disp_w, disp_h)[(k / 4) * 4 + 3],
{
    law_premultiplied_colors_within_alpha(nearest_resize(cropped_frame(sheet, row, col), FRAME_W, FRAME_H, disp_w, disp_h), k);
}

} // verus!
