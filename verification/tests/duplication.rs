use autoaim::capture::CaptureError;
use autoaim::duplication::DuplicationState;
use autoaim::pixels::can_scale_bgra;

#[test]
fn capturer_is_reopened_for_a_new_screen() {
    let mut state = DuplicationState::new();
    assert!(state.needs_capturer([1920, 1080]));
    state.capturer_opened([1920, 1080], 1920, 1080);
    assert!(!state.needs_capturer([1920, 1080]));
    assert!(state.needs_capturer([2560, 1440]));
    state.reset();
    assert!(state.needs_capturer([1920, 1080]));
    assert_eq!(state.src_width, 0);
}

#[test]
fn cached_frame_stands_in_until_the_size_changes() {
    let mut state = DuplicationState::new();
    state.capturer_opened([2, 1], 2, 1);
    state.use_frame_size([2, 1]);
    assert_eq!(state.wait_attempts(), 8);
    assert_eq!(state.no_new_frame(), None);
    assert_eq!(
        state.attempts_exhausted(),
        Err(CaptureError::BackendUnavailable(
            "desktop duplication timed out while waiting for a frame"
        ))
    );

    let bgra = [1u8, 2, 3, 0, 10, 20, 30, 0];
    let pitch = state.frame_pitch(bgra.len());
    assert_eq!(pitch, 8);
    assert!(can_scale_bgra(bgra.len(), 2, 1, pitch, 2, 1));
    let rgba = state.frame_arrived(&bgra, pitch, [2, 1]);
    assert_eq!(rgba, vec![3, 2, 1, 255, 30, 20, 10, 255]);
    assert_eq!(state.wait_attempts(), 1);
    assert_eq!(state.no_new_frame(), Some(rgba.clone()));
    assert_eq!(state.attempts_exhausted(), Ok(rgba.clone()));

    state.use_frame_size([2, 1]);
    assert_eq!(state.no_new_frame(), Some(rgba));
    state.use_frame_size([1, 1]);
    assert_eq!(state.no_new_frame(), None);
    assert_eq!(state.wait_attempts(), 8);
}

#[test]
fn failed_read_closes_the_session() {
    let mut state = DuplicationState::new();
    state.capturer_opened([4, 4], 4, 4);
    assert_eq!(
        state.read_failed(),
        CaptureError::BackendUnavailable("desktop duplication failed to capture frame")
    );
    assert!(!state.has_capturer);
    assert_eq!(state.screen_size, None);
}

#[test]
fn scaling_needs_every_read_inside_the_buffer() {
    // A 4x2 display with 16-byte rows: the last byte read is the red of the last
    // pixel, at 16 + 12 + 2 = 30; its alpha byte is never read.
    assert!(can_scale_bgra(32, 4, 2, 16, 4, 2));
    assert!(can_scale_bgra(31, 4, 2, 16, 4, 2));
    assert!(!can_scale_bgra(30, 4, 2, 16, 4, 2));
    // Halving reads the second row and the odd columns, so the same corner.
    assert!(can_scale_bgra(31, 4, 2, 16, 2, 1));
    assert!(!can_scale_bgra(30, 4, 2, 16, 2, 1));
    // Shrinking to one pixel reads row 1, column 2: 16 + 8 + 2 = 26.
    assert!(can_scale_bgra(27, 4, 2, 16, 1, 1));
    assert!(!can_scale_bgra(26, 4, 2, 16, 1, 1));
    assert!(can_scale_bgra(0, 4, 2, 16, 0, 5));
    assert!(!can_scale_bgra(0, 4, 2, 16, 1, 1));
    assert!(!can_scale_bgra(usize::MAX, 1, 1, 4, usize::MAX, 2));
}
