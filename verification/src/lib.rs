//! Verified core of the Hailo-10H inference sidecar: request and profile
//! validation, tag vocabulary assembly, YOLO output checks and NMS selection,
//! WAV header checks, the device-handle residency state machine, and the
//! token stream's read loop.
use vstd::prelude::*;

pub mod text;
pub mod error;
pub mod model_dir;
pub mod profile;
pub mod json;
pub mod order;
pub mod tags;
pub mod hailort;
pub mod engine;
pub mod yolo;
pub mod device;
pub mod requests;
pub mod media;
pub mod startup;
pub mod stream;

verus! {

} // verus!
