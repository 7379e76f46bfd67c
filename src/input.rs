//! Joypad button states, set from keyboard or gamepad events and read by
//! the engine's input-state callback.
use vstd::prelude::*;

verus! {

/// Number of joypad buttons tracked, one per device id.
pub const JOYPAD_BUTTONS: usize = 16;

/// Pressed (1) or released (0) state of each joypad button.
pub struct ButtonState {
    pressed: Vec<i16>,
}

impl View for ButtonState {
    type V = Seq<i16>;

    closed spec fn view(&self) -> Seq<i16> {
        self.pressed@
    }
}

impl ButtonState {
    /// Every button released.
    pub fn new() -> (r: ButtonState)
        ensures
            r@ == Seq::new(JOYPAD_BUTTONS as nat, |i: int| 0i16),
    {
        let mut pressed: Vec<i16> = Vec::new();
        let mut i: usize = 0;
        while i < JOYPAD_BUTTONS
            invariant
                i <= JOYPAD_BUTTONS,
                pressed@ == Seq::new(i as nat, |k: int| 0i16),
            decreases JOYPAD_BUTTONS - i,
        {
            pressed.push(0);
            i = i + 1;
            assert(pressed@ =~= Seq::new(i as nat, |k: int| 0i16));
        }
        ButtonState { pressed }
    }

    /// Records that button `device_id` went down or up; an id without a
    /// button is ignored.
    pub fn set_button(&mut self, device_id: usize, is_pressed: bool)
        ensures
            final(self)@ == (if device_id < old(self)@.len() {
                old(self)@.update(device_id as int, if is_pressed {
                    1i16
                } else {
                    0i16
                })
            } else {
                old(self)@
            }),
    {
        if device_id < self.pressed.len() {
            self.pressed[device_id] = if is_pressed {
                1
            } else {
                0
            };
        }
    }

    /// State of button `device_id`: 1 when pressed, 0 when released or when
    /// the id has no button.
    pub fn state(&self, device_id: usize) -> (r: i16)
        ensures
            r == (if device_id < self@.len() {
                self@[device_id as int]
            } else {
                0i16
            }),
    {
        if device_id < self.pressed.len() {
            self.pressed[device_id]
        } else {
            0
        }
    }
}

} // verus!
