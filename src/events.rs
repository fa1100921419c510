use vstd::prelude::*;
use crate::input_code::{InputCode, MouseButton};

verus! {

/// A scroll amount, in lines or in pixels; both in thousandths.
#[derive(Clone, Copy, Debug, PartialEq, Eq, Structural)]
pub enum ScrollDelta {
    Lines(i32, i32),
    Pixels(i32, i32),
}

/// Raw device input that is not tied to a window.
#[derive(Clone, Copy, Debug, PartialEq, Eq, Structural)]
pub enum DeviceEvent {
    /// Raw mouse motion, in thousandths of the device's unit.
    MouseMotion { dx: i32, dy: i32 },
    MouseWheel { delta: ScrollDelta },
    Other,
}

/// Input delivered to a window.
#[derive(Clone, Debug)]
pub enum WindowEvent {
    /// The cursor's new position, in thousandths of a pixel.
    CursorMoved { x: i64, y: i64 },
    MouseInput { pressed: bool, button: MouseButton },
    /// A key changed state; `text` is what it typed, if anything.
    KeyboardInput { key: InputCode, text: Option<String>, pressed: bool },
    Other,
}

/// A gamepad event; `id` names the gamepad, values are in thousandths.
#[derive(Clone, Copy, Debug, PartialEq, Eq, Structural)]
pub enum GamepadEvent {
    ButtonPressed { button: u32, id: usize },
    ButtonReleased { button: u32, id: usize },
    /// An analog button moved to `value`, from 0 to `UNIT`.
    ButtonChanged { button: u32, value: u32, id: usize },
    /// An axis moved to `position`, from `-UNIT` to `UNIT`.
    AxisChanged { axis: u32, position: i32, id: usize },
    Other,
}

} // verus!
