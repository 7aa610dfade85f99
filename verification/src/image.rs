//! Width and height from the first bytes of PNG and JPEG files.

use vstd::prelude::*;

verus! {

/// Big-endian 16-bit value at `at`.
pub open spec fn be16(bytes: Seq<u8>, at: int) -> nat {
    bytes[at] as nat * 256 + bytes[at + 1] as nat
}

/// Big-endian 32-bit value at `at`.
pub open spec fn be32(bytes: Seq<u8>, at: int) -> nat {
    bytes[at] as nat * 16777216 + bytes[at + 1] as nat * 65536 + bytes[at + 2] as nat * 256
        + bytes[at + 3] as nat
}

/// The eight-byte PNG file signature.
pub open spec fn png_signature() -> Seq<u8> {
    seq![0x89u8, 0x50u8, 0x4eu8, 0x47u8, 0x0du8, 0x0au8, 0x1au8, 0x0au8]
}

/// Width and height of a PNG file: the IHDR fields at bytes 16..24 after the signature.
pub open spec fn png_dimensions(bytes: Seq<u8>) -> Option<(nat, nat)> {
    if bytes.len() < 24 || bytes.subrange(0, 8) != png_signature() {
        None
    } else {
        Some((be32(bytes, 16), be32(bytes, 20)))
    }
}

fn read_be16(bytes: &[u8], at: usize) -> (v: u32)
    requires
        at + 2 <= bytes@.len(),
    ensures
        v == be16(bytes@, at as int),
{
    (bytes[at] as u32) * 256 + bytes[at + 1] as u32
}

fn read_be32(bytes: &[u8], at: usize) -> (v: u32)
    requires
        at + 4 <= bytes@.len(),
    ensures
        v == be32(bytes@, at as int),
{
    (bytes[at] as u32) * 16777216 + (bytes[at + 1] as u32) * 65536 + (bytes[at + 2] as u32) * 256
        + bytes[at + 3] as u32
}

/// Reads `[width, height]` from a PNG header, or `None` when the bytes are not one.
pub fn png_size(bytes: &[u8]) -> (size: Option<[u32; 2]>)
    ensures
        match png_dimensions(bytes@) {
            None => size is None,
            Some((w, h)) => size matches Some(s) && s[0] == w && s[1] == h,
        },
{
    if bytes.len() < 24 {
        return None;
    }
    if bytes[0] != 0x89u8 || bytes[1] != 0x50u8 || bytes[2] != 0x4eu8 || bytes[3] != 0x47u8
        || bytes[4] != 0x0du8 || bytes[5] != 0x0au8 || bytes[6] != 0x1au8 || bytes[7] != 0x0au8 {
        proof {
            let head = bytes@.subrange(0, 8);
            assert(head != png_signature()) by {
                if head == png_signature() {
                    assert(head[0] == bytes@[0]);
                    assert(head[1] == bytes@[1]);
                    assert(head[2] == bytes@[2]);
                    assert(head[3] == bytes@[3]);
                    assert(head[4] == bytes@[4]);
                    assert(head[5] == bytes@[5]);
                    assert(head[6] == bytes@[6]);
                    assert(head[7] == bytes@[7]);
                }
            }
        }
        return None;
    }
    assert(bytes@.subrange(0, 8) =~= png_signature());
    Some([read_be32(bytes, 16), read_be32(bytes, 20)])
}

/// First index at or after `i` that holds 0xff (or the length when none does).
pub open spec fn skip_to_ff(bytes: Seq<u8>, i: nat) -> nat
    decreases bytes.len() - i,
{
    if i >= bytes.len() || bytes[i as int] == 0xff {
        i
    } else {
        skip_to_ff(bytes, i + 1)
    }
}

/// First index at or after `i` that does not hold 0xff (or the length when none does).
pub open spec fn skip_fill(bytes: Seq<u8>, i: nat) -> nat
    decreases bytes.len() - i,
{
    if i >= bytes.len() || bytes[i as int] != 0xff {
        i
    } else {
        skip_fill(bytes, i + 1)
    }
}

/// Markers that stand alone, without a length field.
pub open spec fn is_standalone_marker(marker: u8) -> bool {
    marker == 0xd8 || marker == 0xd9 || marker == 0x01
}

/// Start-of-frame markers: baseline, extended, progressive and lossless, Huffman or arithmetic.
pub open spec fn is_start_of_frame(marker: u8) -> bool {
    marker == 0xc0 || marker == 0xc1 || marker == 0xc2 || marker == 0xc3 || marker == 0xc5
        || marker == 0xc6 || marker == 0xc7 || marker == 0xc9 || marker == 0xca || marker == 0xcb
        || marker == 0xcd || marker == 0xce || marker == 0xcf
}

/// Walks JPEG segments from `index`: skips to the next marker, steps over standalone
/// markers and over length-prefixed segments, and stops at the first start-of-frame
/// segment with its (width, height). Stops with `None` when fewer than ten bytes
/// remain at a segment boundary or a segment runs past the end.
pub open spec fn jpeg_scan(bytes: Seq<u8>, index: nat) -> Option<(nat, nat)>
    decreases bytes.len() - index,
{
    if !(index + 9 < bytes.len()) {
        None
    } else {
        let m = skip_fill(bytes, skip_to_ff(bytes, index));
        proof {
            lemma_skip_to_ff_ge(bytes, index);
            lemma_skip_fill_ge(bytes, skip_to_ff(bytes, index));
        }
        if m >= bytes.len() {
            None
        } else {
            let marker = bytes[m as int];
            let j = m + 1;
            if is_standalone_marker(marker) {
                jpeg_scan(bytes, j)
            } else if j + 2 > bytes.len() {
                None
            } else {
                let length = be16(bytes, j as int);
                if length < 2 || j + length > bytes.len() {
                    None
                } else if is_start_of_frame(marker) {
                    if j + 7 > bytes.len() {
                        None
                    } else {
                        Some((be16(bytes, j + 5int), be16(bytes, j + 3int)))
                    }
                } else {
                    jpeg_scan(bytes, j + length)
                }
            }
        }
    }
}

/// The marker search lands at or after its start, on a 0xff byte unless it ran off the end.
pub proof fn lemma_skip_to_ff_ge(bytes: Seq<u8>, i: nat)
    ensures
        skip_to_ff(bytes, i) >= i,
        skip_to_ff(bytes, i) < bytes.len() ==> bytes[skip_to_ff(bytes, i) as int] == 0xff,
        i <= bytes.len() ==> skip_to_ff(bytes, i) <= bytes.len(),
    decreases bytes.len() - i,
{
    if i < bytes.len() && bytes[i as int] != 0xff {
        lemma_skip_to_ff_ge(bytes, i + 1);
    }
}

/// Skipping fill bytes lands at or after its start and never past the end.
pub proof fn lemma_skip_fill_ge(bytes: Seq<u8>, i: nat)
    ensures
        skip_fill(bytes, i) >= i,
        i <= bytes.len() ==> skip_fill(bytes, i) <= bytes.len(),
    decreases bytes.len() - i,
{
    if i < bytes.len() && bytes[i as int] == 0xff {
        lemma_skip_fill_ge(bytes, i + 1);
    }
}

/// Width and height of a JPEG file: it must start with the SOI marker, and the
/// segment walk from byte 2 must reach a start-of-frame segment.
pub open spec fn jpeg_dimensions(bytes: Seq<u8>) -> Option<(nat, nat)> {
    if bytes.len() < 4 || bytes[0] != 0xff || bytes[1] != 0xd8 {
        None
    } else {
        jpeg_scan(bytes, 2)
    }
}

/// Reads `[width, height]` from a JPEG start-of-frame segment, or `None`.
pub fn jpeg_size(bytes: &[u8]) -> (size: Option<[u32; 2]>)
    ensures
        match jpeg_dimensions(bytes@) {
            None => size is None,
            Some((w, h)) => size matches Some(s) && s[0] == w && s[1] == h,
        },
{
    let len = bytes.len();
    assert(len == bytes@.len());
    if len < 4 || bytes[0] != 0xffu8 || bytes[1] != 0xd8u8 {
        return None;
    }
    let ghost b = bytes@;
    let mut index: usize = 2;
    while len - index > 9
        invariant
            len == b.len(),
            b == bytes@,
            index <= len,
            jpeg_scan(b, index as nat) == jpeg_dimensions(b),
        decreases len - index,
    {
        let ghost start = index as nat;
        while index < len && bytes[index] != 0xffu8
            invariant
                len == b.len(),
                b == bytes@,
                start <= index <= len,
                skip_to_ff(b, start) == skip_to_ff(b, index as nat),
            decreases len - index,
        {
            index = index + 1;
        }
        let ghost after_fill_start = index as nat;
        assert(skip_to_ff(b, start) == index);
        while index < len && bytes[index] == 0xffu8
            invariant
                len == b.len(),
                b == bytes@,
                after_fill_start <= index <= len,
                skip_fill(b, after_fill_start) == skip_fill(b, index as nat),
            decreases len - index,
        {
            index = index + 1;
        }
        assert(skip_fill(b, skip_to_ff(b, start)) == index);
        if index >= len {
            return None;
        }
        let marker = bytes[index];
        index = index + 1;
        if marker == 0xd8u8 || marker == 0xd9u8 || marker == 0x01u8 {
            continue;
        }
        if len - index < 2 {
            return None;
        }
        let length = read_be16(bytes, index) as usize;
        if length < 2 || length > len - index {
            return None;
        }
        if marker == 0xc0u8 || marker == 0xc1u8 || marker == 0xc2u8 || marker == 0xc3u8
            || marker == 0xc5u8 || marker == 0xc6u8 || marker == 0xc7u8 || marker == 0xc9u8
            || marker == 0xcau8 || marker == 0xcbu8 || marker == 0xcdu8 || marker == 0xceu8
            || marker == 0xcfu8 {
            if len - index < 7 {
                return None;
            }
            let height = read_be16(bytes, index + 3);
            let width = read_be16(bytes, index + 5);
            return Some([width, height]);
        }
        index = index + length;
    }
    None
}

/// Big-endian bytes of a 32-bit value.
pub open spec fn be32_bytes(v: u32) -> Seq<u8> {
    seq![(v / 16777216) as u8, ((v / 65536) % 256) as u8, ((v / 256) % 256) as u8, (v % 256) as u8]
}

/// Big-endian bytes of a 16-bit value.
pub open spec fn be16_bytes(v: u16) -> Seq<u8> {
    seq![(v / 256) as u8, (v % 256) as u8]
}

/// The first 24 bytes of a PNG file of the given size: signature, IHDR length and
/// type, width and height.
pub open spec fn png_header(width: u32, height: u32) -> Seq<u8> {
    png_signature() + seq![0u8, 0u8, 0u8, 13u8, 0x49u8, 0x48u8, 0x44u8, 0x52u8] + be32_bytes(width)
        + be32_bytes(height)
}

proof fn lemma_be32_roundtrip(v: u32)
    ensures
        be32(be32_bytes(v), 0) == v,
{
    assert((v / 16777216) * 16777216 + ((v / 65536) % 256) * 65536 + ((v / 256) % 256) * 256 + v
        % 256 == v) by (bit_vector);
    assert(v / 16777216 < 256) by (bit_vector);
}

proof fn lemma_be16_roundtrip(v: u16)
    ensures
        be16(be16_bytes(v), 0) == v,
{
    assert((v / 256) * 256 + v % 256 == v) by (bit_vector);
    assert(v / 256 < 256) by (bit_vector);
}

/// A PNG header written for any width and height is read back as that width and
/// height, whatever follows it.
pub proof fn lemma_png_header_roundtrip(width: u32, height: u32, rest: Seq<u8>)
    ensures
        png_dimensions(png_header(width, height) + rest) == Some((width as nat, height as nat)),
{
    let bytes = png_header(width, height) + rest;
    lemma_be32_roundtrip(width);
    lemma_be32_roundtrip(height);
    assert(bytes.subrange(0, 8) =~= png_signature());
    assert(be32(bytes, 16) == be32(be32_bytes(width), 0));
    assert(be32(bytes, 20) == be32(be32_bytes(height), 0));
}

/// A JPEG stream that opens with SOI followed by a baseline start-of-frame segment
/// (length 17, 8-bit precision, then height, width and ten component bytes).
pub open spec fn jpeg_sof0_header(width: u16, height: u16, components: Seq<u8>) -> Seq<u8> {
    seq![0xffu8, 0xd8u8, 0xffu8, 0xc0u8, 0x00u8, 0x11u8, 0x08u8] + be16_bytes(height) + be16_bytes(
        width,
    ) + components
}

/// The size written into a leading baseline start-of-frame segment is the size read back.
pub proof fn lemma_jpeg_sof0_roundtrip(width: u16, height: u16, components: Seq<u8>, rest: Seq<u8>)
    requires
        components.len() == 10,
    ensures
        jpeg_dimensions(jpeg_sof0_header(width, height, components) + rest) == Some(
            (width as nat, height as nat),
        ),
{
    let bytes = jpeg_sof0_header(width, height, components) + rest;
    lemma_be16_roundtrip(width);
    lemma_be16_roundtrip(height);
    assert(bytes[2] == 0xff);
    assert(bytes[3] == 0xc0);
    assert(skip_to_ff(bytes, 2) == 2);
    assert(skip_fill(bytes, 3) == 3);
    assert(skip_fill(bytes, 2) == 3);
    assert(be16(bytes, 4) == 17);
    assert(be16(bytes, 7) == be16(be16_bytes(height), 0));
    assert(be16(bytes, 9) == be16(be16_bytes(width), 0));
}

/// A length-prefixed JPEG segment: 0xff, the marker, the big-endian length (the payload
/// plus the two length bytes), then the payload.
pub open spec fn jpeg_segment(marker: u8, payload: Seq<u8>) -> Seq<u8> {
    seq![0xffu8, marker] + be16_bytes((payload.len() + 2) as u16) + payload
}

/// A baseline start-of-frame segment: length 17, 8-bit precision, height, width and ten
/// component bytes.
pub open spec fn sof0_segment(width: u16, height: u16, components: Seq<u8>) -> Seq<u8> {
    seq![0xffu8, 0xc0u8, 0x00u8, 0x11u8, 0x08u8] + be16_bytes(height) + be16_bytes(width)
        + components
}

/// Segments before the frame header are stepped over by their length: after SOI, any
/// segment that is neither a start-of-frame nor a stand-alone marker, whatever its
/// payload holds (an embedded thumbnail's frame header included), is skipped whole, and
/// the size comes from the start-of-frame segment that follows it.
pub proof fn lemma_jpeg_skips_segment_before_frame(
    marker: u8,
    payload: Seq<u8>,
    width: u16,
    height: u16,
    components: Seq<u8>,
    rest: Seq<u8>,
)
    requires
        marker != 0xff,
        !is_start_of_frame(marker),
        !is_standalone_marker(marker),
        payload.len() + 2 <= 0xffff,
        components.len() == 10,
    ensures
        jpeg_dimensions(
            seq![0xffu8, 0xd8u8] + jpeg_segment(marker, payload) + sof0_segment(
                width,
                height,
                components,
            ) + rest,
        ) == Some((width as nat, height as nat)),
{
    let segment = jpeg_segment(marker, payload);
    let frame = sof0_segment(width, height, components);
    let bytes = seq![0xffu8, 0xd8u8] + segment + frame + rest;
    let length = (payload.len() + 2) as u16;
    let k: int = 2 + segment.len() as int;
    lemma_be16_roundtrip(length);
    lemma_be16_roundtrip(width);
    lemma_be16_roundtrip(height);
    assert(segment.len() == payload.len() + 4);
    assert(frame.len() == 19);
    assert(bytes.len() == k + 19 + rest.len());
    assert(bytes[0] == 0xff);
    assert(bytes[1] == 0xd8);
    assert(bytes[2] == 0xff);
    assert(bytes[3] == marker);
    assert(skip_to_ff(bytes, 2) == 2);
    assert(skip_fill(bytes, 3) == 3);
    assert(skip_fill(bytes, 2) == 3);
    assert(bytes[4] == be16_bytes(length)[0]);
    assert(bytes[5] == be16_bytes(length)[1]);
    assert(be16(bytes, 4) == be16(be16_bytes(length), 0));
    assert(bytes[k] == 0xff);
    assert(bytes[k + 1] == 0xc0);
    assert(bytes[k + 2] == 0x00);
    assert(bytes[k + 3] == 0x11);
    assert(bytes[k + 5] == be16_bytes(height)[0]);
    assert(bytes[k + 6] == be16_bytes(height)[1]);
    assert(bytes[k + 7] == be16_bytes(width)[0]);
    assert(bytes[k + 8] == be16_bytes(width)[1]);
    assert(skip_to_ff(bytes, k as nat) == k);
    assert(skip_fill(bytes, (k + 1) as nat) == k + 1);
    assert(skip_fill(bytes, k as nat) == k + 1);
    assert(be16(bytes, k + 2) == 17);
    assert(be16(bytes, k + 5) == be16(be16_bytes(height), 0));
    assert(be16(bytes, k + 7) == be16(be16_bytes(width), 0));
    assert(jpeg_scan(bytes, k as nat) == Some((width as nat, height as nat)));
}

} // verus!
