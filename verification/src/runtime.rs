//! Runtime detector stand-ins.

use vstd::prelude::*;

verus! {

/// The detector used when no native inference is wired in: it places one
/// synthetic person in the middle of the screen. Its detections are screen-space
/// floating-point boxes and are computed by the application around this library.
#[derive(Clone, Copy, Debug)]
pub struct MockNativeDetector;

impl Default for MockNativeDetector {
    fn default() -> (detector: Self)
        ensures
            detector == MockNativeDetector,
    {
        MockNativeDetector
    }
}

} // verus!
