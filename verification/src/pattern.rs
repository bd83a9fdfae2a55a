//! The pattern generator: fills a flat pixel buffer with a checkerboard
//! of cells, colored by cell parity. Even cells take a caller-chosen or
//! freshly sampled random color; odd cells take a fixed near-black one.

use rand::Rng;
use vstd::arithmetic::div_mod::lemma_add_mod_noop;
use vstd::prelude::*;

use crate::color::compose_color;
use crate::color::pack_rgb;

verus! {

/// In row-major order, every pixel of a row before row `y` lies below
/// the start of row `y`.
proof fn lemma_row_major_below(i: int, j: int, y: int, width: int)
    by (nonlinear_arith)
    requires
        0 <= i < width,
        0 <= j < y,
    ensures
        j * width + i < y * width,
{
}

/// Every flat index of the buffer is the index of exactly one pixel:
/// `k` decomposes as `y * width + x` with `x = k % width` a column and
/// `y = k / width` a row. With the fill functions' contracts this says
/// that one call writes every element of the buffer.
pub proof fn lemma_flat_index_is_a_pixel(k: int, width: int, height: int)
    requires
        0 < width,
        0 <= k < width * height,
    ensures
        k == (k / width) * width + (k % width),
        0 <= k % width < width,
        0 <= k / width < height,
{
    assert(k / width >= 0 && 0 <= k % width < width && k == (k / width) * width + (k % width))
        by (nonlinear_arith)
        requires
            0 < width,
            0 <= k,
    ;
    assert(k / width < height) by (nonlinear_arith)
        requires
            0 < width,
            k < width * height,
            k == (k / width) * width + (k % width),
            0 <= k % width,
            0 <= k / width,
    ;
}

/// The checkerboard parity of the cell that holds pixel `(x, y)` at
/// cell side `scale`: 0 for even cells, 1 for odd ones.
pub open spec fn cell_parity(x: int, y: int, scale: int) -> int
    recommends
        0 <= x,
        0 <= y,
        1 <= scale,
{
    (x / scale + y / scale) % 2
}

/// Computes the checkerboard parity of pixel `(x, y)` at cell side
/// `scale`.
pub fn parity(x: usize, y: usize, scale: usize) -> (p: usize)
    requires
        scale >= 1,
    ensures
        p == cell_parity(x as int, y as int, scale as int),
        p <= 1,
{
    let a = (x / scale) % 2;
    let b = (y / scale) % 2;
    proof {
        lemma_add_mod_noop(x as int / scale as int, y as int / scale as int, 2);
    }
    (a + b) % 2
}

/// The near-black color of odd cells.
pub open spec fn odd_cell_color() -> u32 {
    pack_rgb(20, 20, 20)
}

/// The rand crate's thread-local generator, used as the source of the
/// random cell colors.
#[verifier::external_type_specification]
#[verifier::external_body]
pub struct ExThreadRng(rand::rngs::ThreadRng);

/// Relies on rand::Rng::gen_range: a sample from a non-empty integer
/// range lies in that range, here `0..255`.
#[verifier::external_body]
fn random_channel(rng: &mut rand::rngs::ThreadRng) -> (v: u32)
    ensures
        v < 255,
{
    rng.gen_range(0..255)
}

/// Samples one color: three uniformly random channels, packed. Every
/// outcome is a valid 24-bit color.
pub fn get_random_color(rng: &mut rand::rngs::ThreadRng) -> (color: u32)
    ensures
        color < 0x1000000,
{
    let r = random_channel(rng);
    let g = random_channel(rng);
    let b = random_channel(rng);
    compose_color(r, g, b)
}

/// Fills the whole buffer with the checkerboard: odd cells get the
/// fixed near-black color, even cells each get a freshly sampled random
/// color. Every element is overwritten: whatever the buffer held
/// before, afterwards every element is a valid 24-bit color.
pub fn fill_with_check_pattern(
    pixels: &mut Vec<u32>,
    scale: &usize,
    height: usize,
    width: usize,
    rng: &mut rand::rngs::ThreadRng,
)
    requires
        *scale >= 1,
        old(pixels).len() == width * height,
    ensures
        final(pixels).len() == width * height,
        forall|x: int, y: int|
            0 <= x < width && 0 <= y < height ==> #[trigger] final(pixels)@[y * width + x]
                < 0x1000000,
        forall|x: int, y: int|
            0 <= x < width && 0 <= y < height && cell_parity(x, y, *scale as int) != 0
                ==> #[trigger] final(pixels)@[y * width + x] == odd_cell_color(),
{
    let mut y: usize = 0;
    while y < height
        invariant
            y <= height,
            *scale >= 1,
            pixels.len() == width * height,
            forall|i: int, j: int|
                0 <= i < width && 0 <= j < y ==> #[trigger] pixels@[j * width + i] < 0x1000000,
            forall|i: int, j: int|
                0 <= i < width && 0 <= j < y && cell_parity(i, j, *scale as int) != 0
                    ==> #[trigger] pixels@[j * width + i] == odd_cell_color(),
        decreases height - y,
    {
        let mut x: usize = 0;
        while x < width
            invariant
                y < height,
                x <= width,
                *scale >= 1,
                pixels.len() == width * height,
                forall|i: int, j: int|
                    0 <= i < width && 0 <= j < y ==> #[trigger] pixels@[j * width + i]
                        < 0x1000000,
                forall|i: int, j: int|
                    0 <= i < width && 0 <= j < y && cell_parity(i, j, *scale as int) != 0
                        ==> #[trigger] pixels@[j * width + i] == odd_cell_color(),
                forall|i: int|
                    0 <= i < x ==> #[trigger] pixels@[y * width + i] < 0x1000000,
                forall|i: int|
                    0 <= i < x && cell_parity(i, y as int, *scale as int) != 0
                        ==> #[trigger] pixels@[y * width + i] == odd_cell_color(),
            decreases width - x,
        {
            proof {
                assert(y * width + x < width * height) by (nonlinear_arith)
                    requires
                        0 <= x < width,
                        0 <= y < height,
                ;
            }
            let ghost prev = pixels@;
            let p = parity(x, y, *scale);
            let idx = y * width + x;
            pixels[idx] = if p == 0 {
                get_random_color(rng)
            } else {
                compose_color(20, 20, 20)
            };
            proof {
                assert forall|i: int, j: int| 0 <= i < width && 0 <= j < y implies #[trigger] pixels@[j
                    * width + i] == prev[j * width + i] by {
                    lemma_row_major_below(i, j, y as int, width as int);
                }
            }
            x = x + 1;
        }
        y = y + 1;
    }
}

/// Fills the whole buffer with a fully deterministic checkerboard:
/// even cells get `even_color`, odd cells get `odd_color`. Every
/// element's final value is pinned by its cell parity alone.
pub fn fill_checkerboard(
    pixels: &mut Vec<u32>,
    scale: usize,
    height: usize,
    width: usize,
    even_color: u32,
    odd_color: u32,
)
    requires
        scale >= 1,
        old(pixels).len() == width * height,
    ensures
        final(pixels).len() == width * height,
        forall|x: int, y: int|
            0 <= x < width && 0 <= y < height ==> #[trigger] final(pixels)@[y * width + x] == (
            if cell_parity(x, y, scale as int) == 0 {
                even_color
            } else {
                odd_color
            }),
{
    let mut y: usize = 0;
    while y < height
        invariant
            y <= height,
            scale >= 1,
            pixels.len() == width * height,
            forall|i: int, j: int|
                0 <= i < width && 0 <= j < y ==> #[trigger] pixels@[j * width + i] == (
                if cell_parity(i, j, scale as int) == 0 {
                    even_color
                } else {
                    odd_color
                }),
        decreases height - y,
    {
        let mut x: usize = 0;
        while x < width
            invariant
                y < height,
                x <= width,
                scale >= 1,
                pixels.len() == width * height,
                forall|i: int, j: int|
                    0 <= i < width && 0 <= j < y ==> #[trigger] pixels@[j * width + i] == (
                    if cell_parity(i, j, scale as int) == 0 {
                        even_color
                    } else {
                        odd_color
                    }),
                forall|i: int|
                    0 <= i < x ==> #[trigger] pixels@[y * width + i] == (if cell_parity(
                        i,
                        y as int,
                        scale as int,
                    ) == 0 {
                        even_color
                    } else {
                        odd_color
                    }),
            decreases width - x,
        {
            proof {
                assert(y * width + x < width * height) by (nonlinear_arith)
                    requires
                        0 <= x < width,
                        0 <= y < height,
                ;
            }
            let ghost prev = pixels@;
            let p = parity(x, y, scale);
            let idx = y * width + x;
            pixels[idx] = if p == 0 {
                even_color
            } else {
                odd_color
            };
            proof {
                assert forall|i: int, j: int| 0 <= i < width && 0 <= j < y implies #[trigger] pixels@[j
                    * width + i] == prev[j * width + i] by {
                    lemma_row_major_below(i, j, y as int, width as int);
                }
            }
            x = x + 1;
        }
        y = y + 1;
    }
}

} // verus!
