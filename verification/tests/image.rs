use autoaim::image::{jpeg_size, png_size};

fn png_bytes(width: u32, height: u32) -> Vec<u8> {
    let mut bytes = vec![0x89, b'P', b'N', b'G', b'\r', b'\n', 0x1a, b'\n'];
    bytes.extend_from_slice(&13u32.to_be_bytes());
    bytes.extend_from_slice(b"IHDR");
    bytes.extend_from_slice(&width.to_be_bytes());
    bytes.extend_from_slice(&height.to_be_bytes());
    bytes.extend_from_slice(&[8, 6, 0, 0, 0]);
    bytes
}

#[test]
fn png_size_reads_ihdr_dimensions() {
    assert_eq!(png_size(&png_bytes(1920, 1080)), Some([1920, 1080]));
    assert_eq!(png_size(&png_bytes(70000, 3)), Some([70000, 3]));
}

#[test]
fn png_size_rejects_short_or_foreign_bytes() {
    let bytes = png_bytes(10, 20);
    assert_eq!(png_size(&bytes[..23]), None);
    let mut wrong = bytes.clone();
    wrong[1] = b'Q';
    assert_eq!(png_size(&wrong), None);
    assert_eq!(png_size(b""), None);
}

fn sof0(width: u16, height: u16) -> Vec<u8> {
    let mut bytes = vec![0xff, 0xc0, 0x00, 0x11, 0x08];
    bytes.extend_from_slice(&height.to_be_bytes());
    bytes.extend_from_slice(&width.to_be_bytes());
    bytes.extend_from_slice(&[3, 1, 0x22, 0, 2, 0x11, 1, 3, 0x11, 1]);
    bytes
}

#[test]
fn jpeg_size_reads_start_of_frame_after_other_segments() {
    let mut bytes = vec![0xff, 0xd8];
    // An APP0 segment of length 16 comes first.
    bytes.extend_from_slice(&[0xff, 0xe0, 0x00, 0x10]);
    bytes.extend_from_slice(b"JFIF\0\x01\x01\0\0\x01\0\x01\0\0");
    bytes.extend_from_slice(&sof0(640, 480));
    assert_eq!(jpeg_size(&bytes), Some([640, 480]));
}

#[test]
fn jpeg_size_skips_fill_bytes_and_standalone_markers() {
    let mut bytes = vec![0xff, 0xd8, 0xff, 0xff, 0xff, 0x01];
    let mut frame = sof0(300, 200);
    frame[1] = 0xc2;
    bytes.extend_from_slice(&frame);
    assert_eq!(jpeg_size(&bytes), Some([300, 200]));
}

#[test]
fn jpeg_size_rejects_bad_starts_and_truncated_segments() {
    assert_eq!(jpeg_size(&[0xff, 0xd9, 0, 0]), None);
    assert_eq!(jpeg_size(&[0xff, 0xd8]), None);
    let mut bytes = vec![0xff, 0xd8];
    bytes.extend_from_slice(&[0xff, 0xe0, 0x00, 0x40, 0, 0, 0, 0, 0, 0, 0, 0]);
    assert_eq!(jpeg_size(&bytes), None);
    // A segment length below two is refused.
    let mut short = vec![0xff, 0xd8, 0xff, 0xe0, 0x00, 0x01];
    short.extend_from_slice(&sof0(8, 8));
    assert_eq!(jpeg_size(&short), None);
}
