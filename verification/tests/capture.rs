use autoaim::capture::{
    capture_status, drops_capturer, live_preview_size, parse_capture_backend, rgba_base64, scaled_frame_size, CaptureBackend, CaptureError,
};

#[test]
fn scaled_frame_size_preserves_aspect_ratio() {
    assert_eq!(
        scaled_frame_size([1920, 1080], [960, 540]).unwrap(),
        [960, 540]
    );
    assert_eq!(
        scaled_frame_size([1920, 1080], [640, 640]).unwrap(),
        [640, 360]
    );
}

#[test]
fn scaled_frame_size_rejects_empty_screen() {
    assert_eq!(
        scaled_frame_size([0, 1080], [640, 640]),
        Err(CaptureError::InvalidScreenSize([0, 1080]))
    );
    assert_eq!(
        scaled_frame_size([1920, 0], [640, 640]),
        Err(CaptureError::InvalidScreenSize([1920, 0]))
    );
}

#[test]
fn scaled_frame_size_never_upscales_and_treats_zero_bound_as_one() {
    assert_eq!(scaled_frame_size([800, 600], [1920, 1080]).unwrap(), [800, 600]);
    assert_eq!(scaled_frame_size([1920, 1080], [0, 0]).unwrap(), [1, 1]);
    // Height is the tighter bound: 1080 -> 360 scales the width by one third.
    assert_eq!(scaled_frame_size([1920, 1080], [1000, 360]).unwrap(), [640, 360]);
    // A very wide screen keeps at least one row.
    assert_eq!(scaled_frame_size([4000, 1], [100, 100]).unwrap(), [100, 1]);
    // Rounding to nearest: 1000 * 333 / 1001 = 332.67 -> 333.
    assert_eq!(scaled_frame_size([1001, 1000], [333, 900]).unwrap(), [333, 333]);
}

#[test]
fn capture_error_messages_match_display_text() {
    assert_eq!(
        CaptureError::InvalidScreenSize([1920, 0]).message(),
        "invalid screen size: 1920x0"
    );
    assert_eq!(CaptureError::NativeCallFailed("GetDC").message(), "GetDC failed");
    assert_eq!(
        CaptureError::BackendUnavailable("capture thread stopped").message(),
        "capture thread stopped"
    );
    assert_eq!(
        CaptureError::UnsupportedPlatform("only on Windows").message(),
        "only on Windows"
    );
    assert_eq!(CaptureError::CaptureTimedOut.message(), "screen capture timed out");
}

#[test]
fn capture_backend_names_round_trip() {
    assert_eq!(CaptureBackend::Gdi.as_str(), "gdi");
    assert_eq!(
        CaptureBackend::DesktopDuplication.as_str(),
        "desktop_duplication"
    );
    for backend in [CaptureBackend::Gdi, CaptureBackend::DesktopDuplication] {
        assert_eq!(parse_capture_backend(backend.as_str()), backend);
    }
    assert_eq!(parse_capture_backend("anything else"), CaptureBackend::Gdi);
    assert_eq!(parse_capture_backend("DESKTOP_DUPLICATION"), CaptureBackend::Gdi);
}

#[test]
fn rgba_base64_uses_standard_padded_alphabet() {
    assert_eq!(rgba_base64(b""), "");
    assert_eq!(rgba_base64(b"M"), "TQ==");
    assert_eq!(rgba_base64(b"Ma"), "TWE=");
    assert_eq!(rgba_base64(b"Man"), "TWFu");
    assert_eq!(rgba_base64(&[0xfb, 0xff, 0xfe, 0x00]), "+//+AA==");
    assert_eq!(rgba_base64(&[0, 0, 0, 255]), "AAAA/w==");
}

#[test]
fn live_preview_fits_640_by_360() {
    assert_eq!(live_preview_size([1920, 1080]), [640, 360]);
    assert_eq!(live_preview_size([640, 360]), [640, 360]);
    assert_eq!(live_preview_size([320, 200]), [320, 200]);
    assert_eq!(live_preview_size([1080, 1920]), [203, 360]);
    assert_eq!(live_preview_size([0, 10]), [640, 360]);
}

#[test]
fn stalled_or_missing_sessions_drop_the_capturer() {
    assert!(drops_capturer(&CaptureError::CaptureTimedOut));
    assert!(drops_capturer(&CaptureError::BackendUnavailable("capture thread stopped")));
    assert!(!drops_capturer(&CaptureError::NativeCallFailed("BitBlt")));
    assert!(!drops_capturer(&CaptureError::InvalidScreenSize([0, 0])));
    assert!(!drops_capturer(&CaptureError::UnsupportedPlatform("windows only")));
}

#[test]
fn capture_status_names_backend_and_sizes() {
    assert_eq!(
        capture_status(CaptureBackend::DesktopDuplication, [1920, 1080], [2560, 1440]),
        "native Windows capture [desktop_duplication]: 1920x1080 preview from 2560x1440 screen"
    );
}
