//! Decisions of a long-lived desktop duplication capture session: when the native
//! capturer must be rebuilt, how long to wait for a first frame, and which frame to
//! hand out when the display has not changed.
//!
//! The session object itself (display enumeration and the capturer) lives with the
//! platform code, which reports what happened and performs what is decided here.

use vstd::prelude::*;

use crate::capture::CaptureError;
use crate::pixels::{bgra_scale_ok, scale_bgra_to_rgba, scaled_rgba_byte};

verus! {

/// What the session remembers between frames.
pub struct DuplicationState {
    /// The screen the capturer was opened for, while one is open.
    pub screen_size: Option<[u32; 2]>,
    /// The output size the cached frame was made at.
    pub frame_size: Option<[u32; 2]>,
    /// Width of the display in source pixels.
    pub src_width: usize,
    /// Height of the display in source pixels.
    pub src_height: usize,
    /// Whether a native capturer is open.
    pub has_capturer: bool,
    /// The last frame handed out, reused while the display reports no change.
    pub last_rgba: Option<Vec<u8>>,
}

/// Attempts at reading a frame before giving up when no earlier frame is cached.
pub const FIRST_FRAME_ATTEMPTS: u32 = 8;

impl DuplicationState {
    /// Whether the state is the empty one of a closed session.
    pub open spec fn is_closed(&self) -> bool {
        &&& self.screen_size is None
        &&& self.frame_size is None
        &&& self.src_width == 0
        &&& self.src_height == 0
        &&& !self.has_capturer
        &&& self.last_rgba is None
    }

    /// A cached frame always has the size that frames are currently made at, so a
    /// frame of an earlier size is never handed out.
    pub open spec fn cache_matches_size(&self) -> bool {
        self.last_rgba matches Some(last) ==> self.frame_size matches Some(size) && last@.len()
            == size[0] * size[1] * 4
    }

    /// A session with no capturer open.
    pub fn new() -> (state: Self)
        ensures
            state.is_closed(),
    {
        DuplicationState {
            screen_size: None,
            frame_size: None,
            src_width: 0,
            src_height: 0,
            has_capturer: false,
            last_rgba: None,
        }
    }

    /// Forgets the capturer and the cached frame.
    pub fn reset(&mut self)
        ensures
            final(self).is_closed(),
    {
        self.screen_size = None;
        self.frame_size = None;
        self.src_width = 0;
        self.src_height = 0;
        self.has_capturer = false;
        self.last_rgba = None;
    }

    /// Whether a capturer must be opened (after a reset) before capturing `screen_size`:
    /// none is open, or it was opened for another screen.
    pub fn needs_capturer(&self, screen_size: [u32; 2]) -> (needed: bool)
        ensures
            needed == !(self.has_capturer && self.screen_size == Some(screen_size)),
    {
        if !self.has_capturer {
            return true;
        }
        match self.screen_size {
            Some(size) => {
                if size[0] == screen_size[0] && size[1] == screen_size[1] {
                    assert(size =~= screen_size);
                }
                !(size[0] == screen_size[0] && size[1] == screen_size[1])
            },
            None => true,
        }
    }

    /// Records a capturer freshly opened for `screen_size` on a display of the given
    /// source size; nothing else is kept from before.
    pub fn capturer_opened(&mut self, screen_size: [u32; 2], src_width: usize, src_height: usize)
        ensures
            final(self).screen_size == Some(screen_size),
            final(self).frame_size is None,
            final(self).src_width == src_width,
            final(self).src_height == src_height,
            final(self).has_capturer,
            final(self).last_rgba is None,
    {
        self.reset();
        self.src_width = src_width;
        self.src_height = src_height;
        self.has_capturer = true;
        self.screen_size = Some(screen_size);
    }

    /// Switches to producing frames of `frame_size`; a cached frame of another size
    /// is dropped.
    pub fn use_frame_size(&mut self, frame_size: [u32; 2])
        ensures
            final(self).frame_size == Some(frame_size),
            old(self).frame_size == Some(frame_size) ==> final(self).last_rgba == old(
                self,
            ).last_rgba,
            old(self).frame_size != Some(frame_size) ==> final(self).last_rgba is None,
            final(self).screen_size == old(self).screen_size,
            final(self).src_width == old(self).src_width,
            final(self).src_height == old(self).src_height,
            final(self).has_capturer == old(self).has_capturer,
            old(self).cache_matches_size() ==> final(self).cache_matches_size(),
    {
        let same = match self.frame_size {
            Some(size) => {
                if size[0] == frame_size[0] && size[1] == frame_size[1] {
                    assert(size =~= frame_size);
                }
                size[0] == frame_size[0] && size[1] == frame_size[1]
            },
            None => false,
        };
        if !same {
            self.frame_size = Some(frame_size);
            self.last_rgba = None;
        }
    }

    /// How many reads to try: one when a cached frame can stand in, else eight.
    pub fn wait_attempts(&self) -> (attempts: u32)
        ensures
            attempts == if self.last_rgba is Some { 1u32 } else { 8u32 },
    {
        if self.last_rgba.is_some() {
            1
        } else {
            FIRST_FRAME_ATTEMPTS
        }
    }

    /// Bytes between two rows of a display frame of `frame_len` bytes.
    pub fn frame_pitch(&self, frame_len: usize) -> (pitch: usize)
        ensures
            pitch as int == frame_len as int / (if self.src_height == 0 { 1int } else { self.src_height as int }),
    {
        let rows: usize = if self.src_height == 0 { 1 } else { self.src_height };
        frame_len / rows
    }

    /// A new display frame arrived: it is resampled to `frame_size` RGBA pixels,
    /// cached, and handed out.
    pub fn frame_arrived(&mut self, bgra: &[u8], pitch: usize, frame_size: [u32; 2]) -> (rgba:
        Vec<u8>)
        requires
            bgra_scale_ok(
                bgra@.len(),
                old(self).src_width as nat,
                old(self).src_height as nat,
                pitch as nat,
                frame_size[0] as nat,
                frame_size[1] as nat,
            ),
        ensures
            rgba@.len() == frame_size[0] * frame_size[1] * 4,
            forall|i: int|
                0 <= i < rgba@.len() ==> #[trigger] rgba@[i] == scaled_rgba_byte(
                    bgra@,
                    old(self).src_width as nat,
                    old(self).src_height as nat,
                    pitch as nat,
                    frame_size[0] as nat,
                    frame_size[1] as nat,
                    i as nat,
                ),
            final(self).last_rgba matches Some(last) && last@ == rgba@,
            old(self).frame_size == Some(frame_size) ==> final(self).cache_matches_size(),
            final(self).screen_size == old(self).screen_size,
            final(self).frame_size == old(self).frame_size,
            final(self).src_width == old(self).src_width,
            final(self).src_height == old(self).src_height,
            final(self).has_capturer == old(self).has_capturer,
    {
        let rgba = scale_bgra_to_rgba(
            bgra,
            self.src_width,
            self.src_height,
            pitch,
            frame_size[0] as usize,
            frame_size[1] as usize,
        );
        let kept = rgba.clone();
        assert(kept@ =~= rgba@);
        self.last_rgba = Some(kept);
        rgba
    }

    /// The display has no new frame yet: the cached frame, if there is one, stands in.
    pub fn no_new_frame(&self) -> (rgba: Option<Vec<u8>>)
        ensures
            match self.last_rgba {
                Some(last) => rgba matches Some(r) && r@ == last@,
                None => rgba is None,
            },
    {
        match &self.last_rgba {
            Some(last) => {
                let copy = last.clone();
                assert(copy@ =~= last@);
                Some(copy)
            },
            None => None,
        }
    }

    /// Reading a frame failed: the session is closed so the next capture reopens it.
    pub fn read_failed(&mut self) -> (error: CaptureError)
        ensures
            final(self).is_closed(),
            error == CaptureError::BackendUnavailable("desktop duplication failed to capture frame"),
    {
        self.reset();
        CaptureError::BackendUnavailable("desktop duplication failed to capture frame")
    }

    /// Every attempt found no new frame: the cached frame if there is one, else a timeout.
    pub fn attempts_exhausted(&self) -> (result: Result<Vec<u8>, CaptureError>)
        ensures
            match self.last_rgba {
                Some(last) => result matches Ok(r) && r@ == last@,
                None => result == Err::<Vec<u8>, CaptureError>(
                    CaptureError::BackendUnavailable(
                        "desktop duplication timed out while waiting for a frame",
                    ),
                ),
            },
    {
        match self.no_new_frame() {
            Some(rgba) => Ok(rgba),
            None => Err(
                CaptureError::BackendUnavailable(
                    "desktop duplication timed out while waiting for a frame",
                ),
            ),
        }
    }
}

} // verus!
