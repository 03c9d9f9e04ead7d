//! Which way up the device is, and the turn that makes a picture upright.

use crate::text;
use vstd::arithmetic::div_mod::*;
use vstd::prelude::*;

verus! {

/// A turn, as degrees from 0 up to a full one.
pub fn turned(degrees: i64) -> (d: i32)
    requires
        -0x1_0000_0000 <= degrees <= 0x1_0000_0000,
    ensures
        d == degrees as int % 360,
        0 <= d < 360,
{
    // Whole turns that make the sum positive.
    let positive: u64 = (degrees + 360 * 11_930_465) as u64;
    (positive % 360) as i32
}

/// Degrees the device is turned clockwise from its natural orientation, as
/// the sensor service names it; None for "undefined" (lying flat).
pub open spec fn degrees_named(orientation: Seq<char>) -> Option<i32> {
    if orientation == "normal"@ {
        Some(0)
    } else if orientation == "left-up"@ {
        Some(90)
    } else if orientation == "bottom-up"@ {
        Some(180)
    } else if orientation == "right-up"@ {
        Some(270)
    } else {
        None
    }
}

pub fn degrees(orientation: &str) -> (d: Option<i32>)
    ensures
        d == degrees_named(orientation@),
{
    if text::same(orientation, "normal") {
        Some(0)
    } else if text::same(orientation, "left-up") {
        Some(90)
    } else if text::same(orientation, "bottom-up") {
        Some(180)
    } else if text::same(orientation, "right-up") {
        Some(270)
    } else {
        None
    }
}

/// The turn that makes a picture upright. A front camera sees the device's
/// turn mirrored.
pub open spec fn upright_turn(sensor: int, front: bool, device: int) -> int {
    if front {
        (sensor - device) % 360
    } else {
        (sensor + device) % 360
    }
}

/// Degrees to turn a camera's buffers clockwise so the picture is upright for
/// someone holding the device `device` degrees clockwise from natural.
pub fn upright(sensor: i32, front: bool, device: i32) -> (d: i32)
    requires
        front ==> i32::MIN <= sensor - device <= i32::MAX,
        !front ==> i32::MIN <= sensor + device <= i32::MAX,
    ensures
        d == upright_turn(sensor as int, front, device as int),
        0 <= d < 360,
{
    let (s, t) = (sensor as i64, device as i64);
    turned(if front { s - t } else { s + t })
}

/// A whole turn of the device changes nothing, a device held naturally leaves
/// the sensor's own turn, and what a back camera sees of a turn a front
/// camera sees of the opposite one.
pub proof fn law_upright(sensor: int, front: bool, device: int)
    ensures
        upright_turn(sensor, front, device + 360) == upright_turn(sensor, front, device),
        upright_turn(sensor, front, 0) == sensor % 360,
        upright_turn(sensor, front, -device) == upright_turn(sensor, !front, device),
{
    lemma_mod_multiples_vanish(1, sensor + device, 360);
    lemma_mod_multiples_vanish(-1, sensor - device, 360);
}

/// Turning the device on turns the picture on by as much.
pub proof fn law_turns_add_up(sensor: int, device: int, more: int)
    ensures
        upright_turn(upright_turn(sensor, false, device), false, more) == upright_turn(sensor, false, device + more),
        upright_turn(upright_turn(sensor, true, device), true, more) == upright_turn(sensor, true, device + more),
{
    let (a, b) = (sensor + device, sensor - device);
    lemma_fundamental_div_mod(a, 360);
    lemma_fundamental_div_mod(b, 360);
    lemma_mod_multiples_vanish(a / 360, a % 360 + more, 360);
    lemma_mod_multiples_vanish(b / 360, b % 360 - more, 360);
}

/// The display's turn, from the device's: the picture turns with the screen
/// where the compositor has turned that to follow the device.
#[derive(Debug, Clone, Copy, PartialEq, Eq, Structural)]
pub struct Display {
    /// Degrees the device is turned.
    pub device: i32,
    /// The screen is wider than high when the device is upright; not known
    /// until it was.
    pub natural_landscape: Option<bool>,
    /// Degrees the screen is turned.
    pub rotation: i32,
}

impl Display {
    /// The device stands on one of its natural edges.
    pub open spec fn stands(self) -> bool {
        self.device as int % 180 == 0
    }

    /// What is known once the screen was seen: until the device has been
    /// seen upright, it counts as a phone, which is portrait.
    pub open spec fn seen(self, landscape: bool) -> Display {
        let natural = if self.stands() {
            Some(landscape)
        } else {
            self.natural_landscape
        };
        let rotated = landscape != match natural {
            Some(n) => n,
            None => false,
        };
        Display {
            device: self.device,
            natural_landscape: natural,
            rotation: if rotated && !self.stands() {
                self.device
            } else {
                0
            },
        }
    }

    /// The screen was seen, wider than high or not. Returns whether its turn
    /// has changed.
    pub fn update(&mut self, landscape: bool) -> (changed: bool)
        ensures
            *final(self) == old(self).seen(landscape),
            changed == (final(self).rotation != old(self).rotation),
    {
        let stands: bool = turned(self.device as i64 * 2) == 0;
        if stands {
            self.natural_landscape = Some(landscape);
        }
        let natural: bool = match self.natural_landscape {
            Some(n) => n,
            None => false,
        };
        let rotation: i32 = if landscape != natural && !stands { self.device } else { 0 };
        let changed: bool = rotation != self.rotation;
        self.rotation = rotation;
        changed
    }
}

/// A back camera's picture turns on with the device and a front camera's
/// against it.
pub proof fn law_cameras_turn_with_their_side(sensor: int, device: int)
    ensures
        (upright_turn(sensor, false, device) - sensor - device) % 360 == 0,
        (upright_turn(sensor, true, device) - sensor + device) % 360 == 0,
        0 <= upright_turn(sensor, false, device) < 360,
        0 <= upright_turn(sensor, true, device) < 360,
{
}

/// The device's edges are named clockwise, a quarter turn each.
pub proof fn law_edges_are_a_quarter_turn_apart()
    ensures
        degrees_named("normal"@) == Some(0i32),
        degrees_named("left-up"@) == Some(90i32),
        degrees_named("bottom-up"@) == Some(180i32),
        degrees_named("right-up"@) == Some(270i32),
        degrees_named("undefined"@) is None,
{
    reveal_strlit("normal");
    reveal_strlit("left-up");
    reveal_strlit("bottom-up");
    reveal_strlit("right-up");
    reveal_strlit("undefined");
    assert("left-up"@.len() == 7 && "normal"@.len() == 6 && "bottom-up"@.len() == 9 && "right-up"@.len() == 8 && "undefined"@.len()
        == 9);
    assert("undefined"@[0] != "bottom-up"@[0]);
}

/// Once the device was seen upright, a screen of the shape it had then is not
/// turned, and one of the other shape is turned as the device, where that
/// does not stand on a natural edge; its natural shape stays known.
pub proof fn law_screen_turns_with_the_device(d: Display, landscape: bool, device: i32)
    requires
        d.stands(),
        device as int % 180 != 0,
    ensures
        ({
            let upright = d.seen(landscape);
            let held = Display { device, ..upright };
            &&& upright.rotation == 0 && upright.device == d.device
            &&& held.seen(landscape).rotation == 0
            &&& held.seen(!landscape).rotation == device
            &&& held.seen(!landscape).seen(landscape).rotation == 0
            &&& held.seen(!landscape).natural_landscape == Some(landscape)
        }),
{
}

/// A device that was never seen upright counts as a phone.
pub proof fn law_unseen_devices_are_phones(d: Display)
    requires
        d.natural_landscape is None,
        !d.stands(),
    ensures
        d.seen(true).rotation == d.device,
        d.seen(false).rotation == 0,
        d.seen(true).natural_landscape is None,
{
}

} // verus!
