use crate::array2::{grid_at, lemma_grid_ext, lemma_grid_index_bounds, Array2};
use vstd::prelude::*;

verus! {

/// A pixel: one `u16` sample for each of the red, green and blue channels.
#[derive(Clone, Copy, Debug, PartialEq, Eq, Structural)]
pub struct Rgb {
    pub red: u16,
    pub green: u16,
    pub blue: u16,
}

/// A decoded RGB image: `width * height` pixels in row-major order, each
/// sample ranging over `0..=denominator`.
pub struct RgbImage {
    pub pixels: Vec<Rgb>,
    pub width: u32,
    pub height: u32,
    pub denominator: u16,
}

impl RgbImage {
    /// The pixel at column `col` and row `row`.
    pub open spec fn pixel_at(&self, col: int, row: int) -> Rgb {
        grid_at(self.pixels@, self.width as int, col, row)
    }
}

/// `n` rounded down to an even number.
pub open spec fn even_floor(n: int) -> int {
    if n % 2 != 0 {
        n - 1
    } else {
        n
    }
}

/// What `process_input` returns for `raw`: a grid of the even dimensions
/// `even_floor(width)` x `even_floor(height)` whose every cell holds the pixel
/// of `raw` at the same column and row, together with the image's denominator.
pub open spec fn is_trimmed_image(raw: &RgbImage, out: (Array2<Rgb>, u16)) -> bool {
    &&& out.0.wf()
    &&& out.0.width == even_floor(raw.width as int)
    &&& out.0.height == even_floor(raw.height as int)
    &&& forall|c: int, r: int|
        #![trigger out.0.cell(c, r)]
        out.0.in_bounds(c, r) ==> out.0.cell(c, r) == raw.pixel_at(c, r)
    &&& out.1 == raw.denominator
}

/// Drops the last column of an image of odd width and the last row of an
/// image of odd height, keeping every other pixel where it was, and returns
/// the trimmed grid with the image's denominator.
pub fn process_input(raw_img: RgbImage) -> (out: (Array2<Rgb>, u16))
    requires
        raw_img.pixels@.len() == raw_img.width * raw_img.height,
    ensures
        is_trimmed_image(&raw_img, out),
{
    let ghost raw = raw_img;
    let mut img_w: u32 = raw_img.width;
    let mut img_h: u32 = raw_img.height;
    let denom = raw_img.denominator;
    if raw_img.width % 2 != 0 {
        img_w = img_w - 1;
    }
    if raw_img.height % 2 != 0 {
        img_h = img_h - 1;
    }
    let w = raw_img.width as usize;
    let h = raw_img.height as usize;
    let tw = img_w as usize;
    let th = img_h as usize;
    let converted = Array2::from_row_major(w, h, raw_img.pixels).unwrap();
    let mut trimmed: Vec<Rgb> = Vec::new();
    let mut row: usize = 0;
    while row < h
        invariant
            converted.wf(),
            converted.width == w,
            converted.height == h,
            converted.data@ == raw.pixels@,
            w == raw.width,
            tw <= w,
            th <= h,
            row <= h,
            row <= th ==> trimmed@.len() == row * tw,
            row >= th ==> trimmed@.len() == th * tw,
            forall|c: int, r: int|
                #![trigger grid_at(trimmed@, tw as int, c, r)]
                0 <= c < tw && 0 <= r < row && r < th ==> grid_at(trimmed@, tw as int, c, r)
                    == converted.cell(c, r),
        decreases h - row,
    {
        let mut col: usize = 0;
        while col < w
            invariant
                converted.wf(),
                converted.width == w,
                converted.height == h,
                tw <= w,
                th <= h,
                row < h,
                col <= w,
                trimmed@.len() == (if row < th {
                    row * tw + (if col < tw { col } else { tw })
                } else {
                    th * tw
                }),
                forall|c: int, r: int|
                    #![trigger grid_at(trimmed@, tw as int, c, r)]
                    0 <= c < tw && 0 <= r < th && (r < row || (r == row && c < col)) ==> grid_at(
                        trimmed@,
                        tw as int,
                        c,
                        r,
                    ) == converted.cell(c, r),
            decreases w - col,
        {
            if col < tw && row < th {
                let pixel: Rgb = *converted.get(col, row).unwrap();
                let ghost before = trimmed@;
                trimmed.push(pixel);
                proof {
                    assert forall|c: int, r: int|
                        #![trigger grid_at(trimmed@, tw as int, c, r)]
                        0 <= c < tw && 0 <= r < th && (r < row || (r == row && c < col + 1))
                            implies grid_at(trimmed@, tw as int, c, r) == converted.cell(c, r) by {
                        if r < row {
                            lemma_grid_index_bounds(tw as int, row as int, c, r);
                            assert(grid_at(trimmed@, tw as int, c, r) == grid_at(before, tw as int, c, r));
                        } else if c < col {
                            assert(grid_at(trimmed@, tw as int, c, r) == grid_at(before, tw as int, c, r));
                        }
                    }
                }
            }
            col = col + 1;
        }
        proof {
            if row < th {
                assert(row * tw + tw == (row + 1) * tw) by (nonlinear_arith);
            }
        }
        row = row + 1;
    }
    assert(th * tw == tw * th) by (nonlinear_arith);
    let trimmed_img = Array2::from_row_major(tw, th, trimmed).expect("trimmed pixel count");
    let out = (trimmed_img, denom);
    proof {
        assert forall|c: int, r: int|
            #![trigger out.0.cell(c, r)]
            out.0.in_bounds(c, r) implies out.0.cell(c, r) == raw.pixel_at(c, r) by {
            assert(grid_at(trimmed@, tw as int, c, r) == converted.cell(c, r));
        }
    }
    out
}

/// The four pixels of the 2x2 block of `component_val` whose result goes to
/// column `i` and row `j` of the half-size grid, in the order top-left,
/// top-right, bottom-left, bottom-right.
pub open spec fn block_pixels<T>(component_val: &Array2<T>, i: int, j: int) -> (T, T, T, T) {
    (
        component_val.cell(2 * i, 2 * j),
        component_val.cell(2 * i + 1, 2 * j),
        component_val.cell(2 * i, 2 * j + 1),
        component_val.cell(2 * i + 1, 2 * j + 1),
    )
}

/// `out` is a result of `block_ops` on `component_val` with `f`: a grid of
/// half the width and half the height (rounded down) whose cell `(i, j)` holds
/// what `f` returns for the block of pixels whose top-left corner is at
/// column `2 * i` and row `2 * j`.
pub open spec fn is_block_result<T, B, F: Fn(T, T, T, T) -> B>(
    component_val: &Array2<T>,
    f: F,
    out: &Array2<B>,
) -> bool {
    &&& out.wf()
    &&& out.width == component_val.width / 2
    &&& out.height == component_val.height / 2
    &&& forall|i: int, j: int|
        #![trigger out.cell(i, j)]
        out.in_bounds(i, j) ==> call_ensures(f, block_pixels(component_val, i, j), out.cell(i, j))
}

/// `f` gives one result for each argument tuple.
pub open spec fn deterministic<T, B, F: Fn(T, T, T, T) -> B>(f: F) -> bool {
    forall|args: (T, T, T, T), v1: B, v2: B|
        call_ensures(f, args, v1) && call_ensures(f, args, v2) ==> v1 == v2
}

/// Walks the grid in 2x2 blocks and combines the four pixels of each block
/// (top-left, top-right, bottom-left, bottom-right) with `f`, storing the
/// result at the block's position in a grid of half the width and half the
/// height. A trailing odd column or row belongs to no block. `init` is the
/// value the result grid is created with before the blocks are stored.
pub fn block_ops<T: Copy, B: Copy, F: Fn(T, T, T, T) -> B>(
    component_val: &Array2<T>,
    init: B,
    f: F,
) -> (out: Array2<B>)
    requires
        component_val.wf(),
        forall|a: T, b: T, c: T, d: T| call_requires(f, (a, b, c, d)),
    ensures
        is_block_result(component_val, f, &out),
{
    let w = component_val.width;
    let h = component_val.height;
    proof {
        assert(component_val.data@.len() == component_val.data.len());
        assert((w / 2) * (h / 2) <= w * h) by (nonlinear_arith);
    }
    let bw = w / 2;
    let bh = h / 2;
    let mut block_val = Array2::new(bw, bh, init);
    let mut j: usize = 0;
    while j < bh
        invariant
            component_val.wf(),
            w == component_val.width,
            h == component_val.height,
            bw == w / 2,
            bh == h / 2,
            j <= bh,
            forall|a: T, b: T, c: T, d: T| call_requires(f, (a, b, c, d)),
            block_val.wf(),
            block_val.width == bw,
            block_val.height == bh,
            forall|x: int, y: int|
                #![trigger block_val.cell(x, y)]
                block_val.in_bounds(x, y) && y < j ==> call_ensures(
                    f,
                    block_pixels(component_val, x, y),
                    block_val.cell(x, y),
                ),
        decreases bh - j,
    {
        let row = 2 * j;
        let mut i: usize = 0;
        while i < bw
            invariant
                component_val.wf(),
                w == component_val.width,
                h == component_val.height,
                bw == w / 2,
                bh == h / 2,
                j < bh,
                row == 2 * j,
                i <= bw,
                forall|a: T, b: T, c: T, d: T| call_requires(f, (a, b, c, d)),
                block_val.wf(),
                block_val.width == bw,
                block_val.height == bh,
                forall|x: int, y: int|
                    #![trigger block_val.cell(x, y)]
                    block_val.in_bounds(x, y) && (y < j || (y == j && x < i)) ==> call_ensures(
                        f,
                        block_pixels(component_val, x, y),
                        block_val.cell(x, y),
                    ),
            decreases bw - i,
        {
            let col = 2 * i;
            let p1 = *component_val.get(col, row).unwrap();
            let p2 = *component_val.get(col + 1, row).unwrap();
            let p3 = *component_val.get(col, row + 1).unwrap();
            let p4 = *component_val.get(col + 1, row + 1).unwrap();
            let v = f(p1, p2, p3, p4);
            block_val.set(i, j, v);
            i = i + 1;
        }
        j = j + 1;
    }
    block_val
}

/// The compression pipeline as far as it goes: the decoded image trimmed to
/// even dimensions, with its denominator.
pub fn compress(raw_img: RgbImage) -> (out: (Array2<Rgb>, u16))
    requires
        raw_img.pixels@.len() == raw_img.width * raw_img.height,
    ensures
        is_trimmed_image(&raw_img, out),
{
    process_input(raw_img)
}

/// Trimming yields even dimensions that are each at most one less than the
/// image's own.
pub proof fn lemma_trimmed_dims(raw: &RgbImage, out: (Array2<Rgb>, u16))
    requires
        is_trimmed_image(raw, out),
    ensures
        out.0.width % 2 == 0,
        out.0.height % 2 == 0,
        out.0.width <= raw.width <= out.0.width + 1,
        out.0.height <= raw.height <= out.0.height + 1,
{
}

/// An image whose width and height are both even comes out of trimming with
/// all of its pixels, in the same order.
pub proof fn lemma_trim_keeps_even_image(raw: &RgbImage, out: (Array2<Rgb>, u16))
    requires
        raw.pixels@.len() == raw.width * raw.height,
        raw.width % 2 == 0,
        raw.height % 2 == 0,
        is_trimmed_image(raw, out),
    ensures
        out.0.width == raw.width,
        out.0.height == raw.height,
        out.0.data@ == raw.pixels@,
{
    assert forall|c: int, r: int|
        #![trigger grid_at(out.0.data@, raw.width as int, c, r)]
        0 <= c < raw.width && 0 <= r < raw.height implies grid_at(
            out.0.data@,
            raw.width as int,
            c,
            r,
        ) == grid_at(raw.pixels@, raw.width as int, c, r) by {
        assert(out.0.in_bounds(c, r));
        assert(out.0.cell(c, r) == raw.pixel_at(c, r));
    }
    lemma_grid_ext(out.0.data@, raw.pixels@, raw.width as int, raw.height as int);
}

/// Trimming is idempotent: trimming the image that a first trimming produced
/// gives back the same grid and denominator.
pub proof fn lemma_trim_idempotent(
    raw: &RgbImage,
    out: (Array2<Rgb>, u16),
    again: &RgbImage,
    out2: (Array2<Rgb>, u16),
)
    requires
        is_trimmed_image(raw, out),
        again.pixels@ == out.0.data@,
        again.width == out.0.width,
        again.height == out.0.height,
        again.denominator == out.1,
        is_trimmed_image(again, out2),
    ensures
        out2.0.width == out.0.width,
        out2.0.height == out.0.height,
        out2.0.data@ == out.0.data@,
        out2.1 == out.1,
{
    lemma_trim_keeps_even_image(again, out2);
}

/// A trailing odd column or row never changes what `block_ops` computes: for
/// a closure with one result per argument tuple, the blocks of an image and
/// of the same image trimmed to even dimensions are the same grid.
pub proof fn lemma_block_ignores_trailing_edge<T, B, F: Fn(T, T, T, T) -> B>(
    img: &Array2<T>,
    trimmed: &Array2<T>,
    f: F,
    out: &Array2<B>,
    out_trimmed: &Array2<B>,
)
    requires
        img.wf(),
        trimmed.wf(),
        trimmed.width == even_floor(img.width as int),
        trimmed.height == even_floor(img.height as int),
        forall|c: int, r: int|
            #![trigger trimmed.cell(c, r)]
            trimmed.in_bounds(c, r) ==> trimmed.cell(c, r) == img.cell(c, r),
        deterministic(f),
        is_block_result(img, f, out),
        is_block_result(trimmed, f, out_trimmed),
    ensures
        out.width == out_trimmed.width,
        out.height == out_trimmed.height,
        out.data@ == out_trimmed.data@,
{
    assert forall|i: int, j: int|
        #![trigger grid_at(out.data@, out.width as int, i, j)]
        0 <= i < out.width && 0 <= j < out.height implies grid_at(out.data@, out.width as int, i, j)
        == grid_at(out_trimmed.data@, out.width as int, i, j) by {
        assert(out.in_bounds(i, j));
        assert(out_trimmed.in_bounds(i, j));
        assert(trimmed.in_bounds(2 * i, 2 * j));
        assert(trimmed.in_bounds(2 * i + 1, 2 * j + 1));
        assert(trimmed.cell(2 * i, 2 * j) == img.cell(2 * i, 2 * j));
        assert(trimmed.cell(2 * i + 1, 2 * j) == img.cell(2 * i + 1, 2 * j));
        assert(trimmed.cell(2 * i, 2 * j + 1) == img.cell(2 * i, 2 * j + 1));
        assert(trimmed.cell(2 * i + 1, 2 * j + 1) == img.cell(2 * i + 1, 2 * j + 1));
        assert(block_pixels(trimmed, i, j) == block_pixels(img, i, j));
        assert(out.cell(i, j) == out_trimmed.cell(i, j));
    }
    lemma_grid_ext(out.data@, out_trimmed.data@, out.width as int, out.height as int);
}

} // verus!
