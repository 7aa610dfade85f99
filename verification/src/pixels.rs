//! Byte-exact pixel conversions: nearest-neighbour resampling of 32-bit frames
//! and the BGRA to RGBA channel order change done after native capture.

use vstd::prelude::*;

verus! {

/// The source coordinate sampled for destination coordinate `dst` when a line of
/// `src_len` pixels is resampled to `dst_len` pixels: the source pixel under the
/// centre of the destination pixel, clamped to the last source pixel.
pub open spec fn nearest_source(dst: nat, dst_len: nat, src_len: nat) -> nat {
    let raw = ((2 * dst + 1) * src_len) / (2 * (if dst_len == 0 { 1 } else { dst_len }));
    let last: nat = if src_len == 0 { 0 } else { (src_len - 1) as nat };
    if raw < last { raw } else { last }
}

/// Destination coordinates of flat byte index `i` in a 4-byte-per-pixel image `width` wide:
/// (row, column, channel).
pub open spec fn pixel_of(i: nat, width: nat) -> (nat, nat, nat) {
    ((i / 4) / width, (i / 4) % width, i % 4)
}

proof fn lemma_pixel_of(i: nat, width: nat, y: nat, x: nat, c: nat)
    requires
        width > 0,
        x < width,
        c < 4,
        i == 4 * (y * width + x) + c,
    ensures
        pixel_of(i, width) == (y, x, c),
{
    let p = y * width + x;
    vstd::arithmetic::div_mod::lemma_fundamental_div_mod_converse(i as int, 4, p as int, c as int);
    vstd::arithmetic::div_mod::lemma_fundamental_div_mod_converse(
        p as int,
        width as int,
        y as int,
        x as int,
    );
}

fn nearest_source_exec(dst: usize, dst_len: usize, src_len: usize) -> (s: usize)
    requires
        dst < dst_len,
        (2 * dst + 1) * src_len <= usize::MAX,
        2 * dst_len <= usize::MAX,
    ensures
        s == nearest_source(dst as nat, dst_len as nat, src_len as nat),
{
    let denominator: usize = if dst_len == 0 { 2 } else { 2 * dst_len };
    let raw = ((2 * dst + 1) * src_len) / denominator;
    let last: usize = if src_len == 0 { 0 } else { src_len - 1 };
    if raw < last { raw } else { last }
}

/// The output byte at flat index `i` of `scale_bgra_to_rgba`.
pub open spec fn scaled_rgba_byte(
    bgra: Seq<u8>,
    src_width: nat,
    src_height: nat,
    src_pitch: nat,
    dst_width: nat,
    dst_height: nat,
    i: nat,
) -> u8 {
    let (y, x, c) = pixel_of(i, dst_width);
    let base = nearest_source(y, dst_height, src_height) * src_pitch + nearest_source(
        x,
        dst_width,
        src_width,
    ) * 4;
    if c == 0 {
        bgra[base + 2int]
    } else if c == 1 {
        bgra[base + 1int]
    } else if c == 2 {
        bgra[base as int]
    } else {
        255
    }
}

/// Every source pixel that `scale_bgra_to_rgba` reads lies inside the buffer.
pub open spec fn bgra_reads_in_bounds(
    len: nat,
    src_width: nat,
    src_height: nat,
    src_pitch: nat,
    dst_width: nat,
    dst_height: nat,
) -> bool {
    forall|y: nat, x: nat|
        y < dst_height && x < dst_width ==> #[trigger] nearest_source(y, dst_height, src_height)
            * src_pitch + #[trigger] nearest_source(x, dst_width, src_width) * 4 + 2 < len
}

/// Everything `scale_bgra_to_rgba` needs of its arguments: the output size and the
/// coordinate arithmetic fit in `usize`, and every source pixel it reads is in the buffer.
pub open spec fn bgra_scale_ok(
    len: nat,
    src_width: nat,
    src_height: nat,
    src_pitch: nat,
    dst_width: nat,
    dst_height: nat,
) -> bool {
    &&& dst_width * dst_height * 4 <= usize::MAX
    &&& 2 * dst_width <= usize::MAX
    &&& 2 * dst_height <= usize::MAX
    &&& (dst_width == 0 || (2 * dst_width - 1) * src_width <= usize::MAX)
    &&& (dst_height == 0 || (2 * dst_height - 1) * src_height <= usize::MAX)
    &&& bgra_reads_in_bounds(len, src_width, src_height, src_pitch, dst_width, dst_height)
}

proof fn lemma_nearest_source_monotone(a: nat, b: nat, dst_len: nat, src_len: nat)
    requires
        a <= b,
    ensures
        nearest_source(a, dst_len, src_len) <= nearest_source(b, dst_len, src_len),
{
    let d: int = 2 * (if dst_len == 0 { 1 } else { dst_len }) as int;
    assert((2 * a + 1) * src_len <= (2 * b + 1) * src_len) by (nonlinear_arith)
        requires a <= b;
    vstd::arithmetic::div_mod::lemma_div_is_ordered(
        ((2 * a + 1) * src_len) as int,
        ((2 * b + 1) * src_len) as int,
        d,
    );
}

/// The reads stay in the buffer exactly when the last pixel read (bottom row, right
/// column) does.
proof fn lemma_reads_in_bounds_by_corner(
    len: nat,
    src_width: nat,
    src_height: nat,
    src_pitch: nat,
    dst_width: nat,
    dst_height: nat,
)
    requires
        dst_width > 0,
        dst_height > 0,
    ensures
        bgra_reads_in_bounds(len, src_width, src_height, src_pitch, dst_width, dst_height) <==> (
        nearest_source((dst_height - 1) as nat, dst_height, src_height) * src_pitch
            + nearest_source((dst_width - 1) as nat, dst_width, src_width) * 4 + 2 < len),
{
    let ly = (dst_height - 1) as nat;
    let lx = (dst_width - 1) as nat;
    let cy = nearest_source(ly, dst_height, src_height);
    let cx = nearest_source(lx, dst_width, src_width);
    if cy * src_pitch + cx * 4 + 2 < len {
        assert forall|y: nat, x: nat| y < dst_height && x < dst_width implies #[trigger] nearest_source(
            y,
            dst_height,
            src_height,
        ) * src_pitch + #[trigger] nearest_source(x, dst_width, src_width) * 4 + 2 < len by {
            let ny = nearest_source(y, dst_height, src_height);
            let nx = nearest_source(x, dst_width, src_width);
            lemma_nearest_source_monotone(y, ly, dst_height, src_height);
            lemma_nearest_source_monotone(x, lx, dst_width, src_width);
            assert(ny * src_pitch <= cy * src_pitch) by (nonlinear_arith)
                requires ny <= cy;
        }
    }
    if bgra_reads_in_bounds(len, src_width, src_height, src_pitch, dst_width, dst_height) {
        assert(nearest_source(ly, dst_height, src_height) * src_pitch + nearest_source(
            lx,
            dst_width,
            src_width,
        ) * 4 + 2 < len);
    }
}

/// Whether `scale_bgra_to_rgba` can resample a buffer of `len` bytes with these sizes.
pub fn can_scale_bgra(
    len: usize,
    src_width: usize,
    src_height: usize,
    src_pitch: usize,
    dst_width: usize,
    dst_height: usize,
) -> (ok: bool)
    ensures
        ok == bgra_scale_ok(
            len as nat,
            src_width as nat,
            src_height as nat,
            src_pitch as nat,
            dst_width as nat,
            dst_height as nat,
        ),
{
    let max = usize::MAX as u128;
    assert((dst_width as u128) * (dst_height as u128) <= 0xffff_ffff_ffff_ffff * 0xffff_ffff_ffff_ffffu128)
        by (nonlinear_arith)
        requires dst_width <= 0xffff_ffff_ffff_ffffu128, dst_height <= 0xffff_ffff_ffff_ffffu128;
    let area = (dst_width as u128) * (dst_height as u128);
    if area > max / 4 || (dst_width as u128) * 2 > max || (dst_height as u128) * 2 > max {
        return false;
    }
    if dst_width > 0 {
        let span = (dst_width as u128) * 2 - 1;
        assert(span * (src_width as u128) <= 0xffff_ffff_ffff_ffff * 0xffff_ffff_ffff_ffffu128)
            by (nonlinear_arith)
            requires span <= 0xffff_ffff_ffff_ffffu128, src_width <= 0xffff_ffff_ffff_ffffu128;
        if span * (src_width as u128) > max {
            return false;
        }
    }
    if dst_height > 0 {
        let span = (dst_height as u128) * 2 - 1;
        assert(span * (src_height as u128) <= 0xffff_ffff_ffff_ffff * 0xffff_ffff_ffff_ffffu128)
            by (nonlinear_arith)
            requires span <= 0xffff_ffff_ffff_ffffu128, src_height <= 0xffff_ffff_ffff_ffffu128;
        if span * (src_height as u128) > max {
            return false;
        }
    }
    if dst_width == 0 || dst_height == 0 {
        return true;
    }
    proof {
        lemma_reads_in_bounds_by_corner(
            len as nat,
            src_width as nat,
            src_height as nat,
            src_pitch as nat,
            dst_width as nat,
            dst_height as nat,
        );
    }
    let cy = nearest_source_exec(dst_height - 1, dst_height, src_height);
    let cx = nearest_source_exec(dst_width - 1, dst_width, src_width);
    assert((cy as u128) * (src_pitch as u128) <= 0xffff_ffff_ffff_ffff * 0xffff_ffff_ffff_ffffu128)
        by (nonlinear_arith)
        requires cy <= 0xffff_ffff_ffff_ffffu128, src_pitch <= 0xffff_ffff_ffff_ffffu128;
    let row = (cy as u128) * (src_pitch as u128);
    if row >= len as u128 {
        return false;
    }
    row + (cx as u128) * 4 + 2 < len as u128
}

/// Resamples a BGRA frame with rows `src_pitch` bytes apart to `dst_width` x
/// `dst_height` RGBA pixels (nearest neighbour, fully opaque).
pub fn scale_bgra_to_rgba(
    bgra: &[u8],
    src_width: usize,
    src_height: usize,
    src_pitch: usize,
    dst_width: usize,
    dst_height: usize,
) -> (rgba: Vec<u8>)
    requires
        dst_width * dst_height * 4 <= usize::MAX,
        2 * dst_width <= usize::MAX,
        2 * dst_height <= usize::MAX,
        dst_width == 0 || (2 * dst_width - 1) * src_width <= usize::MAX,
        dst_height == 0 || (2 * dst_height - 1) * src_height <= usize::MAX,
        bgra_reads_in_bounds(
            bgra@.len(),
            src_width as nat,
            src_height as nat,
            src_pitch as nat,
            dst_width as nat,
            dst_height as nat,
        ),
    ensures
        rgba@.len() == dst_width * dst_height * 4,
        forall|i: int|
            0 <= i < rgba@.len() ==> #[trigger] rgba@[i] == scaled_rgba_byte(
                bgra@,
                src_width as nat,
                src_height as nat,
                src_pitch as nat,
                dst_width as nat,
                dst_height as nat,
                i as nat,
            ),
{
    let mut rgba: Vec<u8> = Vec::new();
    let mut y: usize = 0;
    while y < dst_height
        invariant
            y <= dst_height,
            dst_width * dst_height * 4 <= usize::MAX,
            2 * dst_width <= usize::MAX,
            2 * dst_height <= usize::MAX,
            dst_width == 0 || (2 * dst_width - 1) * src_width <= usize::MAX,
            dst_height == 0 || (2 * dst_height - 1) * src_height <= usize::MAX,
            bgra_reads_in_bounds(
                bgra@.len(),
                src_width as nat,
                src_height as nat,
                src_pitch as nat,
                dst_width as nat,
                dst_height as nat,
            ),
            rgba@.len() == 4 * (y * dst_width),
            forall|i: int|
                0 <= i < rgba@.len() ==> #[trigger] rgba@[i] == scaled_rgba_byte(
                    bgra@,
                    src_width as nat,
                    src_height as nat,
                    src_pitch as nat,
                    dst_width as nat,
                    dst_height as nat,
                    i as nat,
                ),
        decreases dst_height - y,
    {
        assert((2 * y + 1) * src_height <= usize::MAX) by (nonlinear_arith)
            requires y < dst_height, (2 * dst_height - 1) * src_height <= usize::MAX;
        let sy = nearest_source_exec(y, dst_height, src_height);
        let mut x: usize = 0;
        while x < dst_width
            invariant
                y < dst_height,
                x <= dst_width,
                dst_width * dst_height * 4 <= usize::MAX,
                2 * dst_width <= usize::MAX,
                dst_width == 0 || (2 * dst_width - 1) * src_width <= usize::MAX,
                sy == nearest_source(y as nat, dst_height as nat, src_height as nat),
                bgra_reads_in_bounds(
                    bgra@.len(),
                    src_width as nat,
                    src_height as nat,
                    src_pitch as nat,
                    dst_width as nat,
                    dst_height as nat,
                ),
                rgba@.len() == 4 * (y * dst_width + x),
                forall|i: int|
                    0 <= i < rgba@.len() ==> #[trigger] rgba@[i] == scaled_rgba_byte(
                        bgra@,
                        src_width as nat,
                        src_height as nat,
                        src_pitch as nat,
                        dst_width as nat,
                        dst_height as nat,
                        i as nat,
                    ),
            decreases dst_width - x,
        {
            assert((2 * x + 1) * src_width <= usize::MAX) by (nonlinear_arith)
                requires x < dst_width, (2 * dst_width - 1) * src_width <= usize::MAX;
            let sx = nearest_source_exec(x, dst_width, src_width);
            let ghost sxn = nearest_source(x as nat, dst_width as nat, src_width as nat);
            assert(nearest_source(y as nat, dst_height as nat, src_height as nat) * src_pitch
                + nearest_source(x as nat, dst_width as nat, src_width as nat) * 4 + 2
                < bgra@.len());
            assert(bgra@.len() == bgra.len());
            assert(sy * src_pitch + sx * 4 + 2 < bgra.len());
            let base = sy * src_pitch + sx * 4;
            let ghost p = y * dst_width + x;
            assert(4 * (p + 1) <= dst_width * dst_height * 4) by (nonlinear_arith)
                requires p == y * dst_width + x, x < dst_width, y < dst_height;
            let ghost before = rgba@;
            rgba.push(bgra[base + 2]);
            rgba.push(bgra[base + 1]);
            rgba.push(bgra[base]);
            rgba.push(255u8);
            proof {
                assert forall|i: int| 0 <= i < rgba@.len() implies #[trigger] rgba@[i]
                    == scaled_rgba_byte(
                    bgra@,
                    src_width as nat,
                    src_height as nat,
                    src_pitch as nat,
                    dst_width as nat,
                    dst_height as nat,
                    i as nat,
                ) by {
                    if i >= before.len() {
                        let c = (i - before.len()) as nat;
                        lemma_pixel_of(i as nat, dst_width as nat, y as nat, x as nat, c);
                    } else {
                        assert(rgba@[i] == before[i]);
                    }
                }
            }
            x = x + 1;
        }
        assert(4 * (y * dst_width + dst_width) == 4 * ((y + 1) * dst_width)) by (nonlinear_arith);
        y = y + 1;
    }
    proof {
        assert(y * dst_width * 4 == dst_width * dst_height * 4) by (nonlinear_arith)
            requires y == dst_height;
    }
    rgba
}

fn nearest_source_wide(dst: u64, dst_len: u64, src_len: u64) -> (s: u64)
    requires
        dst < dst_len,
        dst_len <= u32::MAX,
        src_len <= u32::MAX,
    ensures
        s == nearest_source(dst as nat, dst_len as nat, src_len as nat),
        src_len > 0 ==> s < src_len,
{
    assert((2 * (dst as u128) + 1) * (src_len as u128) <= 0x1_0000_0000 * 0x1_0000_0000 * 2)
        by (nonlinear_arith)
        requires dst < dst_len, dst_len <= 0xffff_ffff, src_len <= 0xffff_ffff;
    let numerator: u128 = (2 * (dst as u128) + 1) * (src_len as u128);
    let raw: u128 = numerator / (2 * (dst_len as u128));
    let last: u64 = if src_len == 0 { 0 } else { src_len - 1 };
    if raw < last as u128 { raw as u64 } else { last }
}

/// The output byte at flat index `i` of `resize_rgba_nearest`.
pub open spec fn resized_rgba_byte(
    rgba: Seq<u8>,
    source_width: nat,
    source_height: nat,
    target_width: nat,
    target_height: nat,
    i: nat,
) -> u8 {
    let (y, x, c) = pixel_of(i, target_width);
    rgba[((nearest_source(y, target_height, source_height) * source_width + nearest_source(
        x,
        target_width,
        source_width,
    )) * 4 + c) as int]
}

/// Nearest-neighbour resize of an RGBA frame. An empty vector comes back when a
/// size is zero or the buffer does not hold exactly `width * height` pixels.
pub fn resize_rgba_nearest(rgba: &[u8], source_size: [u32; 2], target_size: [u32; 2]) -> (resized:
    Vec<u8>)
    requires
        target_size[0] * target_size[1] * 4 <= usize::MAX,
    ensures
        (source_size[0] == 0 || source_size[1] == 0 || target_size[0] == 0 || target_size[1] == 0
            || rgba@.len() != source_size[0] * source_size[1] * 4) ==> resized@.len() == 0,
        !(source_size[0] == 0 || source_size[1] == 0 || target_size[0] == 0 || target_size[1] == 0
            || rgba@.len() != source_size[0] * source_size[1] * 4) ==> {
            &&& resized@.len() == target_size[0] * target_size[1] * 4
            &&& forall|i: int|
                0 <= i < resized@.len() ==> #[trigger] resized@[i] == resized_rgba_byte(
                    rgba@,
                    source_size[0] as nat,
                    source_size[1] as nat,
                    target_size[0] as nat,
                    target_size[1] as nat,
                    i as nat,
                )
        },
{
    let source_width = source_size[0];
    let source_height = source_size[1];
    let target_width = target_size[0];
    let target_height = target_size[1];
    if source_width == 0 || source_height == 0 || target_width == 0 || target_height == 0 {
        return Vec::new();
    }
    let ghost expected_len = source_width as nat * source_height as nat * 4;
    let len = rgba.len();
    assert(len == rgba@.len());
    assert((source_width as u128) * (source_height as u128) <= 0x1_0000_0000 * 0x1_0000_0000)
        by (nonlinear_arith)
        requires source_width <= 0xffff_ffff, source_height <= 0xffff_ffff;
    if (len as u128) != (source_width as u128) * (source_height as u128) * 4 {
        return Vec::new();
    }
    let sw = source_width as usize;
    let tw = target_width as usize;
    let th = target_height as usize;
    let mut resized: Vec<u8> = Vec::new();
    let mut ty: usize = 0;
    while ty < th
        invariant
            ty <= th,
            sw == source_width,
            tw == target_width,
            th == target_height,
            source_width > 0,
            source_height > 0,
            target_width > 0,
            rgba@.len() == source_width * source_height * 4,
            target_width * target_height * 4 <= usize::MAX,
            resized@.len() == 4 * (ty * tw),
            forall|i: int|
                0 <= i < resized@.len() ==> #[trigger] resized@[i] == resized_rgba_byte(
                    rgba@,
                    source_width as nat,
                    source_height as nat,
                    target_width as nat,
                    target_height as nat,
                    i as nat,
                ),
        decreases th - ty,
    {
        let sy = nearest_source_wide(ty as u64, target_height as u64, source_height as u64);
        let mut tx: usize = 0;
        while tx < tw
            invariant
                ty < th,
                tx <= tw,
                sw == source_width,
                tw == target_width,
                th == target_height,
                source_width > 0,
                source_height > 0,
                rgba@.len() == source_width * source_height * 4,
                target_width * target_height * 4 <= usize::MAX,
                sy == nearest_source(ty as nat, target_height as nat, source_height as nat),
                sy < source_height,
                resized@.len() == 4 * (ty * tw + tx),
                forall|i: int|
                    0 <= i < resized@.len() ==> #[trigger] resized@[i] == resized_rgba_byte(
                        rgba@,
                        source_width as nat,
                        source_height as nat,
                        target_width as nat,
                        target_height as nat,
                        i as nat,
                    ),
            decreases tw - tx,
        {
            let sx = nearest_source_wide(tx as u64, target_width as u64, source_width as u64);
            assert((sy * sw + sx) * 4 + 4 <= source_width * source_height * 4) by (nonlinear_arith)
                requires sy < source_height, sx < source_width, sw == source_width;
            assert(rgba@.len() == rgba.len());
            let source_index = (sy as usize * sw + sx as usize) * 4;
            let ghost p = ty * tw + tx;
            assert(4 * (p + 1) <= target_width * target_height * 4) by (nonlinear_arith)
                requires p == ty * tw + tx, tx < tw, ty < th, tw == target_width, th == target_height;
            let ghost before = resized@;
            resized.push(rgba[source_index]);
            resized.push(rgba[source_index + 1]);
            resized.push(rgba[source_index + 2]);
            resized.push(rgba[source_index + 3]);
            proof {
                assert forall|i: int| 0 <= i < resized@.len() implies #[trigger] resized@[i]
                    == resized_rgba_byte(
                    rgba@,
                    source_width as nat,
                    source_height as nat,
                    target_width as nat,
                    target_height as nat,
                    i as nat,
                ) by {
                    if i >= before.len() {
                        let c = (i - before.len()) as nat;
                        lemma_pixel_of(i as nat, tw as nat, ty as nat, tx as nat, c);
                    } else {
                        assert(resized@[i] == before[i]);
                    }
                }
            }
            tx = tx + 1;
        }
        assert(4 * (ty * tw + tw) == 4 * ((ty + 1) * tw)) by (nonlinear_arith);
        ty = ty + 1;
    }
    proof {
        assert(ty * tw * 4 == target_width * target_height * 4) by (nonlinear_arith)
            requires ty == th, tw == target_width, th == target_height;
    }
    resized
}

/// The byte at index `i` after BGRA pixels are turned into opaque RGBA pixels in place;
/// a trailing partial pixel is left as it was.
pub open spec fn rgba_from_bgra_byte(bgra: Seq<u8>, i: int) -> u8 {
    let whole = (bgra.len() / 4) * 4;
    if i >= whole {
        bgra[i]
    } else if i % 4 == 0 {
        bgra[i + 2]
    } else if i % 4 == 2 {
        bgra[i - 2]
    } else if i % 4 == 3 {
        255
    } else {
        bgra[i]
    }
}

/// Swaps the blue and red channels of every whole 4-byte pixel and makes it opaque.
pub fn bgra_to_rgba_in_place(pixels: &mut Vec<u8>)
    ensures
        final(pixels)@.len() == old(pixels)@.len(),
        forall|i: int|
            0 <= i < old(pixels)@.len() ==> #[trigger] final(pixels)@[i] == rgba_from_bgra_byte(
                old(pixels)@,
                i,
            ),
{
    let ghost original = pixels@;
    let whole = (pixels.len() / 4) * 4;
    let mut p: usize = 0;
    while p < whole
        invariant
            whole == (original.len() / 4) * 4,
            p <= whole,
            p % 4 == 0,
            pixels@.len() == original.len(),
            forall|i: int| 0 <= i < p ==> #[trigger] pixels@[i] == rgba_from_bgra_byte(original, i),
            forall|i: int| p <= i < original.len() ==> #[trigger] pixels@[i] == original[i],
        decreases whole - p,
    {
        let ghost before = pixels@;
        let blue = pixels[p];
        let red = pixels[p + 2];
        pixels.set(p, red);
        pixels.set(p + 2, blue);
        pixels.set(p + 3, 255u8);
        proof {
            assert forall|i: int| 0 <= i < p + 4 implies #[trigger] pixels@[i]
                == rgba_from_bgra_byte(original, i) by {
                if i >= p {
                    assert(i < whole);
                    assert(i % 4 == i - p) by {
                        vstd::arithmetic::div_mod::lemma_fundamental_div_mod_converse(
                            i,
                            4,
                            (p / 4) as int,
                            i - p,
                        );
                    }
                } else {
                    assert(pixels@[i] == before[i]);
                }
            }
        }
        p = p + 4;
    }
}

proof fn lemma_nearest_same_size(t: nat, n: nat)
    requires
        t < n,
    ensures
        nearest_source(t, n, n) == t,
{
    let num = ((2 * t + 1) * n) as int;
    let den = (2 * n) as int;
    assert(num == (t as int) * den + n) by (nonlinear_arith)
        requires num == (2 * t + 1) * n, den == 2 * n;
    vstd::arithmetic::div_mod::lemma_fundamental_div_mod_converse(num, den, t as int, n as int);
}

/// Resizing a frame to its own size gives back the same bytes.
pub proof fn lemma_resize_same_size_is_identity(rgba: Seq<u8>, width: nat, height: nat)
    requires
        width > 0,
        height > 0,
        rgba.len() == width * height * 4,
    ensures
        forall|i: int|
            0 <= i < rgba.len() ==> #[trigger] resized_rgba_byte(rgba, width, height, width, height, i as nat)
                == rgba[i],
{
    assert forall|i: int| 0 <= i < rgba.len() implies #[trigger] resized_rgba_byte(
        rgba,
        width,
        height,
        width,
        height,
        i as nat,
    ) == rgba[i] by {
        let (y, x, c) = pixel_of(i as nat, width);
        let p = i / 4;
        vstd::arithmetic::div_mod::lemma_fundamental_div_mod(i, 4);
        vstd::arithmetic::div_mod::lemma_fundamental_div_mod(p, width as int);
        vstd::arithmetic::div_mod::lemma_mod_pos_bound(p, width as int);
        vstd::arithmetic::div_mod::lemma_mod_pos_bound(i, 4);
        assert(p >= 0);
        assert(y < height) by (nonlinear_arith)
            requires
                p == width * y + x,
                x >= 0,
                i == 4 * p + c,
                c >= 0,
                i < width * height * 4,
                width > 0;
        lemma_nearest_same_size(x, width);
        lemma_nearest_same_size(y, height);
        assert((y * width + x) * 4 + c == i) by (nonlinear_arith)
            requires p == width * y + x, i == 4 * p + c;
    }
}

/// Grey level of pixel (x, y) of the synthetic smoke-test frame: a light figure (body
/// block and head block) on a dark background.
pub open spec fn smoke_level(x: nat, y: nat) -> u8 {
    let in_body = 278 <= x <= 362 && 80 <= y <= 312;
    let in_head = 300 <= x <= 340 && 40 <= y <= 86;
    if in_body || in_head { 210 } else { 24 }
}

/// Byte `i` of the synthetic smoke-test frame (640 x 360, opaque grey).
pub open spec fn smoke_byte(i: nat) -> u8 {
    let (y, x, c) = pixel_of(i, 640);
    if c < 3 { smoke_level(x, y) } else { 255 }
}

/// Width and height of the synthetic smoke-test frame.
pub const SMOKE_FRAME_SIZE: [u32; 2] = [640, 360];

/// The RGBA pixels of the synthetic frame used when the GPU smoke test cannot capture
/// the screen.
pub fn synthetic_smoke_rgba() -> (rgba: Vec<u8>)
    ensures
        rgba@.len() == 640 * 360 * 4,
        forall|i: int| 0 <= i < rgba@.len() ==> #[trigger] rgba@[i] == smoke_byte(i as nat),
{
    let mut rgba: Vec<u8> = Vec::new();
    let mut y: usize = 0;
    while y < 360
        invariant
            y <= 360,
            rgba@.len() == 4 * (y * 640),
            forall|i: int| 0 <= i < rgba@.len() ==> #[trigger] rgba@[i] == smoke_byte(i as nat),
        decreases 360 - y,
    {
        let mut x: usize = 0;
        while x < 640
            invariant
                y < 360,
                x <= 640,
                rgba@.len() == 4 * (y * 640 + x),
                forall|i: int| 0 <= i < rgba@.len() ==> #[trigger] rgba@[i] == smoke_byte(i as nat),
            decreases 640 - x,
        {
            let in_body = 278 <= x && x <= 362 && 80 <= y && y <= 312;
            let in_head = 300 <= x && x <= 340 && 40 <= y && y <= 86;
            let value: u8 = if in_body || in_head { 210 } else { 24 };
            let ghost before = rgba@;
            rgba.push(value);
            rgba.push(value);
            rgba.push(value);
            rgba.push(255u8);
            proof {
                assert forall|i: int| 0 <= i < rgba@.len() implies #[trigger] rgba@[i] == smoke_byte(
                    i as nat,
                ) by {
                    if i >= before.len() {
                        lemma_pixel_of(i as nat, 640, y as nat, x as nat, (i - before.len()) as nat);
                    } else {
                        assert(rgba@[i] == before[i]);
                    }
                }
            }
            x = x + 1;
        }
        y = y + 1;
    }
    rgba
}

/// Which source pixel along one axis the centre of destination pixel `dst` falls on
/// when `src_len` pixels are resampled to `dst_len`: floor((2 dst + 1) src_len /
/// (2 dst_len)), clamped to the last source pixel.
pub open spec fn centre_sample(dst: int, dst_len: int, src_len: int) -> int {
    let under = ((2 * dst + 1) * src_len) / (2 * dst_len);
    if under < src_len - 1 { under } else { src_len - 1 }
}

proof fn lemma_centre_sample(dst: nat, dst_len: nat, src_len: nat)
    requires
        dst < dst_len,
        src_len > 0,
    ensures
        nearest_source(dst, dst_len, src_len) as int == centre_sample(
            dst as int,
            dst_len as int,
            src_len as int,
        ),
{
}

/// Resampling a captured BGRA frame: output pixel (x, y) of a `dst_width` x `dst_height`
/// frame comes from the source pixel under its centre, row
/// floor((2y + 1) src_height / (2 dst_height)) and column
/// floor((2x + 1) src_width / (2 dst_width)), each clamped to the last one, read at
/// `row * src_pitch + column * 4`; blue and red trade places and alpha is 255. Top rows
/// come from top rows, and the sampled row never decreases as y grows.
pub proof fn lemma_scale_samples_pixel_centres(
    bgra: Seq<u8>,
    src_width: nat,
    src_height: nat,
    src_pitch: nat,
    dst_width: nat,
    dst_height: nat,
    x: nat,
    y: nat,
    c: nat,
)
    requires
        src_width > 0,
        src_height > 0,
        x < dst_width,
        y < dst_height,
        c < 4,
    ensures
        ({
            let row = centre_sample(y as int, dst_height as int, src_height as int);
            let column = centre_sample(x as int, dst_width as int, src_width as int);
            let at = row * src_pitch + column * 4;
            scaled_rgba_byte(
                bgra,
                src_width,
                src_height,
                src_pitch,
                dst_width,
                dst_height,
                (y * dst_width + x) * 4 + c,
            ) == if c == 3 {
                255u8
            } else {
                bgra[at + 2 - c]
            }
        }),
        forall|lower: nat|
            lower <= y ==> centre_sample(lower as int, dst_height as int, src_height as int)
                <= centre_sample(y as int, dst_height as int, src_height as int),
{
    lemma_pixel_of((y * dst_width + x) * 4 + c, dst_width, y, x, c);
    lemma_centre_sample(y, dst_height, src_height);
    lemma_centre_sample(x, dst_width, src_width);
    assert forall|lower: nat| lower <= y implies centre_sample(
        lower as int,
        dst_height as int,
        src_height as int,
    ) <= centre_sample(y as int, dst_height as int, src_height as int) by {
        lemma_nearest_source_monotone(lower, y, dst_height, src_height);
        lemma_centre_sample(lower, dst_height, src_height);
    }
}

/// Copying a frame at its own size (rows 4 * width bytes apart) keeps every pixel in
/// place: only blue and red trade places, and alpha becomes 255.
pub proof fn lemma_scale_same_size_is_copy(bgra: Seq<u8>, width: nat, height: nat, x: nat, y: nat, c: nat)
    requires
        x < width,
        y < height,
        c < 4,
    ensures
        scaled_rgba_byte(bgra, width, height, 4 * width, width, height, (y * width + x) * 4 + c)
            == if c == 3 {
            255u8
        } else {
            bgra[(y * width + x) * 4 + 2 - c]
        },
{
    lemma_pixel_of((y * width + x) * 4 + c, width, y, x, c);
    lemma_nearest_same_size(x, width);
    lemma_nearest_same_size(y, height);
    assert(y * (4 * width) + x * 4 == (y * width + x) * 4) by (nonlinear_arith);
}

/// Resizing an RGBA frame: target pixel (x, y) is the source pixel under its centre, row
/// floor((2y + 1) source_height / (2 target_height)) and column
/// floor((2x + 1) source_width / (2 target_width)), each clamped to the last one; rows
/// and columns follow the same rule.
pub proof fn lemma_resize_samples_pixel_centres(
    rgba: Seq<u8>,
    source_width: nat,
    source_height: nat,
    target_width: nat,
    target_height: nat,
    x: nat,
    y: nat,
    c: nat,
)
    requires
        source_width > 0,
        source_height > 0,
        x < target_width,
        y < target_height,
        c < 4,
    ensures
        ({
            let row = centre_sample(y as int, target_height as int, source_height as int);
            let column = centre_sample(x as int, target_width as int, source_width as int);
            resized_rgba_byte(
                rgba,
                source_width,
                source_height,
                target_width,
                target_height,
                (y * target_width + x) * 4 + c,
            ) == rgba[(row * source_width + column) * 4 + c]
        }),
{
    lemma_pixel_of((y * target_width + x) * 4 + c, target_width, y, x, c);
    lemma_centre_sample(y, target_height, source_height);
    lemma_centre_sample(x, target_width, source_width);
}

} // verus!
