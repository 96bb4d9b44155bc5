use vstd::prelude::*;

verus! {

/// Degrees the rotary handle turns for one step of the wheel.
pub const DEGREES_PER_STEP: i16 = 15;

/// The angle `set_rotation_degrees` stores for `degrees`: above a full turn
/// it is reduced modulo 360, below zero one full turn is added.
pub open spec fn normalized(degrees: int) -> int {
    if degrees > 360 {
        degrees % 360
    } else if degrees < 0 {
        360 + degrees
    } else {
        degrees
    }
}

/// State of the physical device: where its rotary handle points.
pub struct DeviceInfo {
    pub rotation_degrees: i16,
}

impl Default for DeviceInfo {
    fn default() -> (r: Self)
        ensures
            r.rotation_degrees == 0,
    {
        DeviceInfo { rotation_degrees: 0 }
    }
}

impl DeviceInfo {
    /// Stores `degrees` as the handle's angle, normalized.
    pub fn set_rotation_degrees(&mut self, degrees: i16)
        ensures
            final(self).rotation_degrees == normalized(degrees as int),
    {
        self.rotation_degrees = if degrees > 360 {
            degrees % 360
        } else if degrees < 0 {
            360 + degrees
        } else {
            degrees
        };
    }
}

/// Turns the handle of `device` by `steps` wheel steps of
/// `DEGREES_PER_STEP` each.
pub fn get_handle_rotation(device: &mut DeviceInfo, steps: i16)
    requires
        i16::MIN <= old(device).rotation_degrees + steps * DEGREES_PER_STEP <= i16::MAX,
    ensures
        final(device).rotation_degrees == normalized(
            old(device).rotation_degrees + steps * DEGREES_PER_STEP,
        ),
{
    let degrees = (device.rotation_degrees as i32 + steps as i32 * DEGREES_PER_STEP as i32) as i16;
    device.set_rotation_degrees(degrees);
}

} // verus!
