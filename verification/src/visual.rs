//! Integer image measures of the model-free visual person detector: per-pixel
//! colour distance and brightness, and the grid of edge-dense cells it groups
//! into person candidates.

use vstd::prelude::*;

verus! {

/// Side of a grid cell, in frame pixels.
pub const EDGE_CELL_SIZE: usize = 12;

/// Byte `c` of pixel (x, y) in a 4-byte-per-pixel image `width` pixels wide.
pub open spec fn channel(rgba: Seq<u8>, width: nat, x: nat, y: nat, c: nat) -> u8 {
    rgba[((y * width + x) * 4 + c) as int]
}

/// Whether pixel (x, y) of an RGBA image lies inside the buffer.
pub open spec fn pixel_in_buffer(len: nat, width: nat, x: nat, y: nat) -> bool {
    (y * width + x) * 4 + 2 < len
}

/// The red, green and blue bytes of pixel (x, y).
pub fn pixel_rgb(rgba: &[u8], width: usize, x: usize, y: usize) -> (rgb: [u8; 3])
    requires
        pixel_in_buffer(rgba@.len(), width as nat, x as nat, y as nat),
    ensures
        rgb[0] == channel(rgba@, width as nat, x as nat, y as nat, 0),
        rgb[1] == channel(rgba@, width as nat, x as nat, y as nat, 1),
        rgb[2] == channel(rgba@, width as nat, x as nat, y as nat, 2),
{
    assert(rgba@.len() == rgba.len());
    let index = (y * width + x) * 4;
    [rgba[index], rgba[index + 1], rgba[index + 2]]
}

/// Absolute difference of two bytes.
pub open spec fn byte_diff(a: u8, b: u8) -> nat {
    if a >= b { (a - b) as nat } else { (b - a) as nat }
}

/// Manhattan distance between two colours.
pub open spec fn colour_distance(left: [u8; 3], right: [u8; 3]) -> nat {
    byte_diff(left[0], right[0]) + byte_diff(left[1], right[1]) + byte_diff(left[2], right[2])
}

/// Sum of the per-channel absolute differences of two colours.
pub fn rgb_distance(left: [u8; 3], right: [u8; 3]) -> (d: u16)
    ensures
        d == colour_distance(left, right),
{
    abs_diff(left[0], right[0]) + abs_diff(left[1], right[1]) + abs_diff(left[2], right[2])
}

fn abs_diff(a: u8, b: u8) -> (d: u16)
    ensures
        d == byte_diff(a, b),
{
    if a >= b { (a - b) as u16 } else { (b - a) as u16 }
}

/// The colour of pixel (x, y).
pub open spec fn colour(rgba: Seq<u8>, width: nat, x: nat, y: nat) -> [u8; 3] {
    [channel(rgba, width, x, y, 0), channel(rgba, width, x, y, 1), channel(rgba, width, x, y, 2)]
}

/// Edge strength at (x, y): the larger colour distance to the right and lower
/// neighbours, zero on the last column and row.
pub open spec fn edge_strength(rgba: Seq<u8>, width: nat, height: nat, x: nat, y: nat) -> nat {
    if x + 1 >= width || y + 1 >= height {
        0
    } else {
        let here = colour(rgba, width, x, y);
        let right = colour_distance(here, colour(rgba, width, x + 1, y));
        let down = colour_distance(here, colour(rgba, width, x, y + 1));
        if right >= down { right } else { down }
    }
}

/// Every pixel of a `width` x `height` image lies inside a buffer of this length.
pub open spec fn image_in_buffer(len: nat, width: nat, height: nat) -> bool {
    width * height * 4 <= len
}

proof fn lemma_pixel_in_image(len: nat, width: nat, height: nat, x: nat, y: nat)
    requires
        image_in_buffer(len, width, height),
        x < width,
        y < height,
    ensures
        pixel_in_buffer(len, width, x, y),
{
    assert((y * width + x) * 4 + 2 < width * height * 4) by (nonlinear_arith)
        requires x < width, y < height;
}

/// Local edge strength of pixel (x, y).
pub fn local_edge_score(rgba: &[u8], width: usize, height: usize, x: usize, y: usize) -> (score:
    u16)
    requires
        x + 1 < width && y + 1 < height ==> pixel_in_buffer(
            rgba@.len(),
            width as nat,
            x as nat,
            (y + 1) as nat,
        ),
    ensures
        score == edge_strength(rgba@, width as nat, height as nat, x as nat, y as nat),
{
    if width == 0 || x >= width - 1 || height == 0 || y >= height - 1 {
        return 0;
    }
    assert(pixel_in_buffer(rgba@.len(), width as nat, x as nat, y as nat)) by (nonlinear_arith)
        requires
            pixel_in_buffer(rgba@.len(), width as nat, x as nat, (y + 1) as nat);
    assert(pixel_in_buffer(rgba@.len(), width as nat, (x + 1) as nat, y as nat)) by (nonlinear_arith)
        requires
            pixel_in_buffer(rgba@.len(), width as nat, x as nat, (y + 1) as nat),
            x + 1 < width;
    let current = pixel_rgb(rgba, width, x, y);
    let right = pixel_rgb(rgba, width, x + 1, y);
    let down = pixel_rgb(rgba, width, x, y + 1);
    let to_right = rgb_distance(current, right);
    let to_down = rgb_distance(current, down);
    if to_right >= to_down { to_right } else { to_down }
}

/// Absolute value of an integer.
pub open spec fn magnitude(v: int) -> int {
    if v >= 0 { v } else { -v }
}

/// The edge score of a pixel that has a right and a lower neighbour is the larger of its
/// two colour distances (sum of the absolute red, green and blue byte differences): it
/// is at least the distance to the right neighbour, at least the distance to the lower
/// neighbour, and equal to one of them. So a purely vertical or purely horizontal edge
/// is always seen.
pub proof fn lemma_edge_score_is_larger_distance(
    rgba: Seq<u8>,
    width: nat,
    height: nat,
    x: nat,
    y: nat,
)
    requires
        x + 1 < width,
        y + 1 < height,
    ensures
        ({
            let here: int = ((y * width + x) * 4) as int;
            let right: int = here + 4;
            let below: int = here + width * 4;
            let to_right = magnitude(rgba[here] as int - rgba[right] as int) + magnitude(
                rgba[here + 1] as int - rgba[right + 1] as int,
            ) + magnitude(rgba[here + 2] as int - rgba[right + 2] as int);
            let to_below = magnitude(rgba[here] as int - rgba[below] as int) + magnitude(
                rgba[here + 1] as int - rgba[below + 1] as int,
            ) + magnitude(rgba[here + 2] as int - rgba[below + 2] as int);
            let score = edge_strength(rgba, width, height, x, y) as int;
            &&& score >= to_right
            &&& score >= to_below
            &&& (score == to_right || score == to_below)
        }),
{
    let here = (y * width + x) * 4;
    assert((y * width + (x + 1)) * 4 == here + 4) by (nonlinear_arith)
        requires here == (y * width + x) * 4;
    assert(((y + 1) * width + x) * 4 == here + width * 4) by (nonlinear_arith)
        requires here == (y * width + x) * 4;
}

/// Perceived brightness of a colour: (30 R + 59 G + 11 B) / 100.
pub open spec fn luma(rgb: [u8; 3]) -> nat {
    (rgb[0] as nat * 30 + rgb[1] as nat * 59 + rgb[2] as nat * 11) / 100
}

/// Brightness of pixel (x, y).
pub fn pixel_brightness(rgba: &[u8], width: usize, x: usize, y: usize) -> (b: u8)
    requires
        pixel_in_buffer(rgba@.len(), width as nat, x as nat, y as nat),
    ensures
        b == luma(colour(rgba@, width as nat, x as nat, y as nat)),
{
    let rgb = pixel_rgb(rgba, width, x, y);
    let weighted = rgb[0] as u16 * 30 + rgb[1] as u16 * 59 + rgb[2] as u16 * 11;
    (weighted / 100) as u8
}

/// A sample counts as a hit when it sits on a strong edge (above 75) and is
/// neither near-black nor near-white (brightness 18..=238).
pub open spec fn is_edge_hit(rgba: Seq<u8>, width: nat, height: nat, x: nat, y: nat) -> bool {
    edge_strength(rgba, width, height, x, y) > 75 && 18 <= luma(colour(rgba, width, x, y)) <= 238
}

/// (samples, hits) over the columns x, x + 3, ... below `x_end` of row `y`.
pub open spec fn row_tally(
    rgba: Seq<u8>,
    width: nat,
    height: nat,
    y: nat,
    x: nat,
    x_end: nat,
) -> (nat, nat)
    decreases x_end + 3 - x,
{
    if x >= x_end {
        (0, 0)
    } else {
        let rest = row_tally(rgba, width, height, y, x + 3, x_end);
        (rest.0 + 1, rest.1 + if is_edge_hit(rgba, width, height, x, y) { 1nat } else { 0 })
    }
}

/// (samples, hits) over rows y, y + 3, ... below `y_end` of columns from `x_start`.
pub open spec fn block_tally(
    rgba: Seq<u8>,
    width: nat,
    height: nat,
    y: nat,
    y_end: nat,
    x_start: nat,
    x_end: nat,
) -> (nat, nat)
    decreases y_end + 3 - y,
{
    if y >= y_end {
        (0, 0)
    } else {
        let row = row_tally(rgba, width, height, y, x_start, x_end);
        let rest = block_tally(rgba, width, height, y + 3, y_end, x_start, x_end);
        (row.0 + rest.0, row.1 + rest.1)
    }
}

/// Number of cells needed to cover `len` pixels.
pub open spec fn cells_for(len: nat) -> nat {
    (len + 11) / 12
}

/// Whether grid cell (gx, gy) is edge-dense: its samples (every third pixel of every
/// third row, the cell's right and bottom edges clipped at the frame's last column and
/// row) include hits in more than 18% of them.
pub open spec fn cell_active(rgba: Seq<u8>, width: nat, height: nat, gx: nat, gy: nat) -> bool {
    let x0 = gx * 12;
    let y0 = gy * 12;
    let x1 = if (gx + 1) * 12 < width - 1 { (gx + 1) * 12 } else { (width - 1) as nat };
    let y1 = if (gy + 1) * 12 < height - 1 { (gy + 1) * 12 } else { (height - 1) as nat };
    let t = block_tally(rgba, width, height, y0, y1, x0, x1);
    t.0 > 0 && t.1 * 50 > t.0 * 9
}

proof fn lemma_row_tally_bound(rgba: Seq<u8>, width: nat, height: nat, y: nat, x: nat, x_end: nat)
    ensures
        row_tally(rgba, width, height, y, x, x_end).1 <= row_tally(rgba, width, height, y, x, x_end).0,
        row_tally(rgba, width, height, y, x, x_end).0 <= (if x < x_end { x_end - x } else { 0 }),
    decreases x_end + 3 - x,
{
    if x < x_end {
        lemma_row_tally_bound(rgba, width, height, y, x + 3, x_end);
    }
}

fn count_row(
    rgba: &[u8],
    width: usize,
    height: usize,
    y: usize,
    x_start: usize,
    x_end: usize,
) -> (t: (usize, usize))
    requires
        image_in_buffer(rgba@.len(), width as nat, height as nat),
        y < height,
        x_end < width,
    ensures
        t.0 == row_tally(rgba@, width as nat, height as nat, y as nat, x_start as nat, x_end as nat).0,
        t.1 == row_tally(rgba@, width as nat, height as nat, y as nat, x_start as nat, x_end as nat).1,
{
    let mut samples: usize = 0;
    let mut hits: usize = 0;
    let mut x = x_start;
    proof {
        lemma_row_tally_bound(rgba@, width as nat, height as nat, y as nat, x_start as nat, x_end as nat);
        assert(rgba@.len() == rgba.len());
        assert(width * 4 <= width * height * 4) by (nonlinear_arith) requires y < height;
    }
    while x < x_end
        invariant
            image_in_buffer(rgba@.len(), width as nat, height as nat),
            y < height,
            x_end < width,
            x_start <= x,
            width * 4 <= usize::MAX,
            samples + row_tally(rgba@, width as nat, height as nat, y as nat, x as nat, x_end as nat).0
                == row_tally(rgba@, width as nat, height as nat, y as nat, x_start as nat, x_end as nat).0,
            hits + row_tally(rgba@, width as nat, height as nat, y as nat, x as nat, x_end as nat).1
                == row_tally(rgba@, width as nat, height as nat, y as nat, x_start as nat, x_end as nat).1,
            row_tally(rgba@, width as nat, height as nat, y as nat, x_start as nat, x_end as nat).0 <= x_end,
            row_tally(rgba@, width as nat, height as nat, y as nat, x as nat, x_end as nat).1
                <= row_tally(rgba@, width as nat, height as nat, y as nat, x as nat, x_end as nat).0,
            row_tally(rgba@, width as nat, height as nat, y as nat, x_start as nat, x_end as nat).1
                <= row_tally(rgba@, width as nat, height as nat, y as nat, x_start as nat, x_end as nat).0,
        decreases x_end + 3 - x,
    {
        proof {
            lemma_pixel_in_image(rgba@.len(), width as nat, height as nat, x as nat, y as nat);
            if x + 1 < width && y + 1 < height {
                lemma_pixel_in_image(rgba@.len(), width as nat, height as nat, x as nat, (y + 1) as nat);
            }
            lemma_row_tally_bound(rgba@, width as nat, height as nat, y as nat, (x + 3) as nat, x_end as nat);
        }
        let edge = local_edge_score(rgba, width, height, x, y);
        let brightness = pixel_brightness(rgba, width, x, y);
        if edge > 75 && 18 <= brightness && brightness <= 238 {
            hits = hits + 1;
        }
        samples = samples + 1;
        x = x + 3;
    }
    (samples, hits)
}

fn count_block(
    rgba: &[u8],
    width: usize,
    height: usize,
    y_start: usize,
    y_end: usize,
    x_start: usize,
    x_end: usize,
) -> (t: (usize, usize))
    requires
        image_in_buffer(rgba@.len(), width as nat, height as nat),
        y_end < height,
        x_end < width,
    ensures
        t.0 == block_tally(rgba@, width as nat, height as nat, y_start as nat, y_end as nat, x_start as nat, x_end as nat).0,
        t.1 == block_tally(rgba@, width as nat, height as nat, y_start as nat, y_end as nat, x_start as nat, x_end as nat).1,
{
    let ghost total = block_tally(rgba@, width as nat, height as nat, y_start as nat, y_end as nat, x_start as nat, x_end as nat);
    let mut samples: usize = 0;
    let mut hits: usize = 0;
    let mut y = y_start;
    proof {
        lemma_block_tally_bound(rgba@, width as nat, height as nat, y_start as nat, y_end as nat, x_start as nat, x_end as nat);
        assert(rgba@.len() == rgba.len());
        assert(y_end * x_end <= width * height * 4) by (nonlinear_arith)
            requires y_end < height, x_end < width;
        assert((if y_start < y_end { y_end - y_start } else { 0 }) * x_end <= y_end * x_end) by (nonlinear_arith);
        assert(height * 4 <= width * height * 4) by (nonlinear_arith) requires x_end < width;
    }
    while y < y_end
        invariant
            image_in_buffer(rgba@.len(), width as nat, height as nat),
            y_end < height,
            x_end < width,
            y_start <= y,
            total == block_tally(rgba@, width as nat, height as nat, y_start as nat, y_end as nat, x_start as nat, x_end as nat),
            samples + block_tally(rgba@, width as nat, height as nat, y as nat, y_end as nat, x_start as nat, x_end as nat).0 == total.0,
            hits + block_tally(rgba@, width as nat, height as nat, y as nat, y_end as nat, x_start as nat, x_end as nat).1 == total.1,
            total.0 <= y_end * x_end,
            total.1 <= total.0,
            y_end * x_end <= usize::MAX,
            height * 4 <= usize::MAX,
        decreases y_end + 3 - y,
    {
        let row = count_row(rgba, width, height, y, x_start, x_end);
        proof {
            lemma_block_tally_bound(rgba@, width as nat, height as nat, (y + 3) as nat, y_end as nat, x_start as nat, x_end as nat);
        }
        samples = samples + row.0;
        hits = hits + row.1;
        y = y + 3;
    }
    (samples, hits)
}

proof fn lemma_block_tally_bound(
    rgba: Seq<u8>,
    width: nat,
    height: nat,
    y: nat,
    y_end: nat,
    x_start: nat,
    x_end: nat,
)
    ensures
        block_tally(rgba, width, height, y, y_end, x_start, x_end).1 <= block_tally(rgba, width, height, y, y_end, x_start, x_end).0,
        block_tally(rgba, width, height, y, y_end, x_start, x_end).0 <= (if y < y_end { y_end - y } else { 0 }) * x_end,
    decreases y_end + 3 - y,
{
    if y < y_end {
        lemma_row_tally_bound(rgba, width, height, y, x_start, x_end);
        lemma_block_tally_bound(rgba, width, height, y + 3, y_end, x_start, x_end);
        let row = row_tally(rgba, width, height, y, x_start, x_end);
        let rest = block_tally(rgba, width, height, y + 3, y_end, x_start, x_end);
        let r: nat = if y + 3 < y_end { (y_end - y - 3) as nat } else { 0 };
        assert(row.0 + rest.0 <= (y_end - y) * x_end) by (nonlinear_arith)
            requires row.0 <= x_end, rest.0 <= r * x_end, r + 1 <= y_end - y, y < y_end;
    }
}

proof fn lemma_cell_index(i: nat, gw: nat, gy: nat, gx: nat)
    requires
        gw > 0,
        gx < gw,
        i == gy * gw + gx,
    ensures
        i % gw == gx,
        i / gw == gy,
{
    vstd::arithmetic::div_mod::lemma_fundamental_div_mod_converse(i as int, gw as int, gy as int, gx as int);
}

/// Marks the edge-dense cells of a frame, row by row over a grid of 12-pixel cells.
/// `None` when a dimension is zero or the buffer does not hold exactly the frame.
pub fn active_edge_cells(rgba: &[u8], frame_width: u32, frame_height: u32) -> (cells: Option<
    Vec<bool>,
>)
    ensures
        (frame_width == 0 || frame_height == 0 || rgba@.len() != frame_width * frame_height * 4)
            <==> cells is None,
        cells matches Some(grid) ==> {
            let gw = cells_for(frame_width as nat);
            let gh = cells_for(frame_height as nat);
            &&& grid@.len() == gw * gh
            &&& forall|i: int|
                0 <= i < grid@.len() ==> #[trigger] grid@[i] == cell_active(
                    rgba@,
                    frame_width as nat,
                    frame_height as nat,
                    (i % gw as int) as nat,
                    (i / gw as int) as nat,
                )
        },
{
    if frame_width == 0 || frame_height == 0 {
        return None;
    }
    assert((frame_width as u128) * (frame_height as u128) <= 0x1_0000_0000 * 0x1_0000_0000)
        by (nonlinear_arith)
        requires frame_width <= 0xffff_ffff, frame_height <= 0xffff_ffff;
    assert(rgba@.len() == rgba.len());
    if (rgba.len() as u128) != (frame_width as u128) * (frame_height as u128) * 4 {
        return None;
    }
    let width = frame_width as usize;
    let height = frame_height as usize;
    let grid_width = width / EDGE_CELL_SIZE + if width % EDGE_CELL_SIZE == 0 { 0 } else { 1 };
    let grid_height = height / EDGE_CELL_SIZE + if height % EDGE_CELL_SIZE == 0 { 0 } else { 1 };
    assert(grid_width == cells_for(width as nat));
    assert(grid_height == cells_for(height as nat));
    assert(grid_width * grid_height <= width * height) by (nonlinear_arith)
        requires
            grid_width <= width,
            grid_height <= height;
    assert(width * 4 <= width * height * 4) by (nonlinear_arith) requires height > 0;
    assert(height * 4 <= width * height * 4) by (nonlinear_arith) requires width > 0;
    let mut cells: Vec<bool> = Vec::new();
    let mut gy: usize = 0;
    while gy < grid_height
        invariant
            width == frame_width,
            height == frame_height,
            width > 0,
            height > 0,
            rgba@.len() == width * height * 4,
            grid_width == cells_for(width as nat),
            grid_height == cells_for(height as nat),
            grid_width * grid_height <= width * height,
            width * 4 <= usize::MAX,
            height * 4 <= usize::MAX,
            gy <= grid_height,
            cells@.len() == gy * grid_width,
            forall|i: int|
                0 <= i < cells@.len() ==> #[trigger] cells@[i] == cell_active(
                    rgba@,
                    width as nat,
                    height as nat,
                    (i % grid_width as int) as nat,
                    (i / grid_width as int) as nat,
                ),
        decreases grid_height - gy,
    {
        let mut gx: usize = 0;
        while gx < grid_width
            invariant
                width == frame_width,
                height == frame_height,
                width > 0,
                height > 0,
                rgba@.len() == width * height * 4,
                grid_width == cells_for(width as nat),
                grid_height == cells_for(height as nat),
                grid_width * grid_height <= width * height,
                width * 4 <= usize::MAX,
                height * 4 <= usize::MAX,
                gy < grid_height,
                gx <= grid_width,
                cells@.len() == gy * grid_width + gx,
                forall|i: int|
                    0 <= i < cells@.len() ==> #[trigger] cells@[i] == cell_active(
                        rgba@,
                        width as nat,
                        height as nat,
                        (i % grid_width as int) as nat,
                        (i / grid_width as int) as nat,
                    ),
            decreases grid_width - gx,
        {
            let x0 = gx * EDGE_CELL_SIZE;
            let y0 = gy * EDGE_CELL_SIZE;
            assert((gx + 1) * 12 <= width + 11) by (nonlinear_arith)
                requires gx < grid_width, grid_width == (width + 11) / 12;
            assert((gy + 1) * 12 <= height + 11) by (nonlinear_arith)
                requires gy < grid_height, grid_height == (height + 11) / 12;
            let x_right = (gx + 1) * EDGE_CELL_SIZE;
            let y_bottom = (gy + 1) * EDGE_CELL_SIZE;
            let x1 = if x_right < width - 1 { x_right } else { width - 1 };
            let y1 = if y_bottom < height - 1 { y_bottom } else { height - 1 };
            proof {
                assert(image_in_buffer(rgba@.len(), width as nat, height as nat));
            }
            let tally = count_block(rgba, width, height, y0, y1, x0, x1);
            let active = tally.0 > 0 && (tally.1 as u128) * 50 > (tally.0 as u128) * 9;
            let ghost before = cells@;
            proof {
                assert(gy * grid_width + gx + 1 <= grid_width * grid_height) by (nonlinear_arith)
                    requires gx < grid_width, gy < grid_height;
            }
            cells.push(active);
            proof {
                assert forall|i: int| 0 <= i < cells@.len() implies #[trigger] cells@[i]
                    == cell_active(
                    rgba@,
                    width as nat,
                    height as nat,
                    (i % grid_width as int) as nat,
                    (i / grid_width as int) as nat,
                ) by {
                    if i == before.len() {
                        lemma_cell_index(i as nat, grid_width as nat, gy as nat, gx as nat);
                    } else {
                        assert(cells@[i] == before[i]);
                    }
                }
            }
            gx = gx + 1;
        }
        assert(gy * grid_width + grid_width == (gy + 1) * grid_width) by (nonlinear_arith);
        gy = gy + 1;
    }
    assert(gy * grid_width == grid_width * grid_height) by (nonlinear_arith) requires gy == grid_height;
    Some(cells)
}

/// A sample is a hit exactly when its edge score exceeds 75 and its brightness
/// (30 R + 59 G + 11 B) / 100, from the pixel's own bytes, lies in 18..=238.
pub proof fn lemma_edge_hit_rule(rgba: Seq<u8>, width: nat, height: nat, x: nat, y: nat)
    ensures
        ({
            let at: int = ((y * width + x) * 4) as int;
            let brightness = (rgba[at] as int * 30 + rgba[at + 1] as int * 59 + rgba[at + 2] as int
                * 11) / 100;
            is_edge_hit(rgba, width, height, x, y) <==> (edge_strength(rgba, width, height, x, y)
                > 75 && 18 <= brightness && brightness <= 238)
        }),
{
}

proof fn lemma_row_tally_uniform(
    rgba: Seq<u8>,
    width: nat,
    height: nat,
    y: nat,
    x: nat,
    x_end: nat,
    hit: bool,
)
    requires
        forall|xx: nat| x <= xx < x_end ==> is_edge_hit(rgba, width, height, xx, y) == hit,
    ensures
        row_tally(rgba, width, height, y, x, x_end).1 == (if hit {
            row_tally(rgba, width, height, y, x, x_end).0
        } else {
            0
        }),
        x < x_end ==> row_tally(rgba, width, height, y, x, x_end).0 > 0,
    decreases x_end + 3 - x,
{
    if x < x_end {
        lemma_row_tally_uniform(rgba, width, height, y, x + 3, x_end, hit);
        assert(is_edge_hit(rgba, width, height, x, y) == hit);
    }
}

proof fn lemma_block_tally_uniform(
    rgba: Seq<u8>,
    width: nat,
    height: nat,
    y: nat,
    y_end: nat,
    x_start: nat,
    x_end: nat,
    hit: bool,
)
    requires
        forall|xx: nat, yy: nat|
            x_start <= xx < x_end && y <= yy < y_end ==> is_edge_hit(rgba, width, height, xx, yy)
                == hit,
    ensures
        block_tally(rgba, width, height, y, y_end, x_start, x_end).1 == (if hit {
            block_tally(rgba, width, height, y, y_end, x_start, x_end).0
        } else {
            0
        }),
        x_start < x_end && y < y_end ==> block_tally(rgba, width, height, y, y_end, x_start, x_end).0
            > 0,
    decreases y_end + 3 - y,
{
    if y < y_end {
        lemma_row_tally_uniform(rgba, width, height, y, x_start, x_end, hit);
        lemma_block_tally_uniform(rgba, width, height, y + 3, y_end, x_start, x_end, hit);
    }
}

/// A grid cell whose pixels (up to the frame's last column and row) are all hits is
/// active, and one with no hit at all is not: cell (gx, gy) covers columns
/// 12 gx .. min(12 gx + 12, width - 1) and rows 12 gy .. min(12 gy + 12, height - 1).
pub proof fn lemma_cell_activity_follows_hits(
    rgba: Seq<u8>,
    width: nat,
    height: nat,
    gx: nat,
    gy: nat,
    hit: bool,
)
    requires
        12 * gx + 1 < width,
        12 * gy + 1 < height,
        forall|x: nat, y: nat|
            12 * gx <= x < 12 * gx + 12 && x + 1 < width && 12 * gy <= y < 12 * gy + 12 && y + 1
                < height ==> is_edge_hit(rgba, width, height, x, y) == hit,
    ensures
        cell_active(rgba, width, height, gx, gy) == hit,
{
    let x0 = gx * 12;
    let y0 = gy * 12;
    let x1 = if (gx + 1) * 12 < width - 1 { (gx + 1) * 12 } else { (width - 1) as nat };
    let y1 = if (gy + 1) * 12 < height - 1 { (gy + 1) * 12 } else { (height - 1) as nat };
    lemma_block_tally_uniform(rgba, width, height, y0, y1, x0, x1, hit);
    let t = block_tally(rgba, width, height, y0, y1, x0, x1);
    if hit {
        assert(t.1 * 50 > t.0 * 9) by (nonlinear_arith)
            requires t.1 == t.0, t.0 > 0;
    }
}

} // verus!
