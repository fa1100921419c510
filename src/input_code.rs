use vstd::prelude::*;

verus! {

/// One direction of a two-way physical axis.
#[derive(Clone, Copy, Debug, PartialEq, Eq, Hash, Structural)]
pub enum AxisSign {
    Pos,
    Neg,
}

/// A mouse button.
#[derive(Clone, Copy, Debug, PartialEq, Eq, Hash, Structural)]
pub enum MouseButton {
    Left,
    Right,
    Middle,
    Back,
    Forward,
    Other(u16),
}

/// Identifies one physical signal source. Intensities are never negative, so
/// every two-way axis appears as two half-axis codes, one per [`AxisSign`].
/// Gamepad codes exist in a form for any gamepad and a form scoped to one
/// gamepad id; both are updated by every gamepad event.
#[derive(Clone, Copy, Debug, PartialEq, Eq, Hash, Structural)]
pub enum InputCode {
    /// A keyboard key, by its physical key code.
    Key(u32),
    /// A key the platform could not identify, by its native scan code.
    NativeKey(u32),
    Mouse(MouseButton),
    MouseMoveX(AxisSign),
    MouseMoveY(AxisSign),
    /// Vertical scrolling.
    MouseScroll(AxisSign),
    /// Horizontal scrolling.
    MouseScrollX(AxisSign),
    /// A button of any gamepad.
    GamepadButton(u32),
    /// A button of the gamepad with the given id.
    GamepadButtonOn(u32, usize),
    /// Half of an axis of any gamepad.
    GamepadAxis(u32, AxisSign),
    /// Half of an axis of the gamepad with the given id.
    GamepadAxisOn(u32, AxisSign, usize),
}

impl InputCode {
    pub fn keycode(code: u32) -> (r: InputCode)
        ensures
            r == InputCode::Key(code),
    {
        InputCode::Key(code)
    }

    pub fn mouse_button(button: MouseButton) -> (r: InputCode)
        ensures
            r == InputCode::Mouse(button),
    {
        InputCode::Mouse(button)
    }

    pub fn gamepad_button(button: u32) -> (r: InputCode)
        ensures
            r == InputCode::GamepadButton(button),
    {
        InputCode::GamepadButton(button)
    }

    pub fn gamepad_axis_pos(axis: u32) -> (r: InputCode)
        ensures
            r == InputCode::GamepadAxis(axis, AxisSign::Pos),
    {
        InputCode::GamepadAxis(axis, AxisSign::Pos)
    }

    pub fn gamepad_axis_neg(axis: u32) -> (r: InputCode)
        ensures
            r == InputCode::GamepadAxis(axis, AxisSign::Neg),
    {
        InputCode::GamepadAxis(axis, AxisSign::Neg)
    }

    pub open spec fn spec_with_gamepad_id(self, id: usize) -> InputCode {
        match self {
            InputCode::GamepadButton(b) => InputCode::GamepadButtonOn(b, id),
            InputCode::GamepadButtonOn(b, _) => InputCode::GamepadButtonOn(b, id),
            InputCode::GamepadAxis(a, s) => InputCode::GamepadAxisOn(a, s, id),
            InputCode::GamepadAxisOn(a, s, _) => InputCode::GamepadAxisOn(a, s, id),
            _ => self,
        }
    }

    /// The same gamepad code scoped to the gamepad `id`; other codes are
    /// returned unchanged.
    pub fn set_gamepad_id(self, id: usize) -> (r: InputCode)
        ensures
            r == self.spec_with_gamepad_id(id),
    {
        match self {
            InputCode::GamepadButton(b) => InputCode::GamepadButtonOn(b, id),
            InputCode::GamepadButtonOn(b, _) => InputCode::GamepadButtonOn(b, id),
            InputCode::GamepadAxis(a, s) => InputCode::GamepadAxisOn(a, s, id),
            InputCode::GamepadAxisOn(a, s, _) => InputCode::GamepadAxisOn(a, s, id),
            _ => self,
        }
    }
}

} // verus!
