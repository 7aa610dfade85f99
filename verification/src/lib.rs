//! Verified core of the AutoAim review tooling: capture geometry and capture
//! session decisions, pixel conversion, image header parsing, the integer side of
//! person detection, dataset framing and hygiene checks, the IPC vocabulary,
//! telemetry and updater report parsing, and the small state machines and texts
//! of the review-only live view.

use vstd::prelude::*;

pub mod capture;
pub mod components;
pub mod duplication;
pub mod image;
pub mod infer;
pub mod ipc;
pub mod jsonl;
pub mod live;
pub mod pixels;
pub mod runtime;
pub mod telemetry;
pub mod text;
pub mod update;
pub mod validate;
pub mod visual;

verus! {

} // verus!
