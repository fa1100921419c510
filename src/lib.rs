//! Maps raw keyboard, mouse and gamepad input onto application-defined actions.
//!
//! Intensities are fixed-point numbers: [`UNIT`] stands for a full press (1.0).
use vstd::prelude::*;

pub mod input_code;
pub mod events;
pub mod direction;
pub mod input;
pub mod laws;

pub use input_code::{AxisSign, InputCode, MouseButton};
pub use events::{DeviceEvent, GamepadEvent, ScrollDelta, WindowEvent};
pub use direction::{clamp_len, isqrt};
pub use input::{ActionRecord, InputMap};

verus! {

/// The fixed-point value of a full press: intensities, scales and thresholds
/// are all expressed in thousandths.
pub const UNIT: u32 = 1000;

} // verus!
