use vstd::prelude::*;
use crate::color::Color;

verus! {

/// One breakpoint of a fan curve: a temperature in hundredths of a degree
/// and the fan speed to hold at that temperature.
#[derive(Clone, Copy, Debug, PartialEq, Eq, Structural)]
pub struct TempRpm {
    pub temp: u16,
    pub rpm: u16,
}

/// Desired behavior of one fan channel: a fixed duty cycle in thousandths
/// (`0..=1000` for 0%..100%), a fixed speed target, or a curve over a sensor
/// with six ordered breakpoints.
#[derive(Clone, Copy, Debug)]
#[verifier::ext_equal]
pub enum Fan {
    Pwm(i64),
    Rpm(u16),
    Curve(usize, [TempRpm; 6]),
}

/// An ordered run of LED colors; index 0 is the first physical LED. The
/// strip grows on demand and never shrinks; new slots are black.
#[derive(Clone, Debug)]
#[verifier::ext_equal]
pub struct Strip {
    pub colors: Vec<Color>,
}

impl Strip {
    /// Every stored color is well formed.
    pub open spec fn wf(self) -> bool {
        forall|i: int| 0 <= i < self.colors@.len() ==> (#[trigger] self.colors@[i]).wf()
    }
}

} // verus!
