//! The settings of one PWM output, with the values that stand in for what
//! is left open.

use vstd::prelude::*;

verus! {

/// The duty of an output for which none is given: switched off.
pub const DEFAULT_DUTY: u32 = 0;

/// The PWM frequency of an output for which none is given, in hertz.
pub const DEFAULT_FREQUENCY_HZ: u32 = 10_000;

/// The duty resolution of an output for which none is given, in bits.
pub const DEFAULT_RESOLUTION_BITS: u32 = 8;

/// The settings with which one PWM output is brought up.
#[derive(Clone, Copy, Debug, PartialEq, Eq)]
pub struct PwmSettings {
    /// The duty that the output starts with.
    pub duty: u32,
    /// The PWM frequency, in hertz.
    pub frequency_hz: u32,
    /// The duty resolution, in bits.
    pub resolution_bits: u32,
}

/// `given`, or `default` where nothing is given.
pub open spec fn given_or(given: Option<u32>, default: u32) -> u32 {
    match given {
        Some(value) => value,
        None => default,
    }
}

impl PwmSettings {
    /// The settings for what is given, each value that is left open taken
    /// from the defaults.
    pub fn resolve(
        duty: Option<u32>,
        frequency_hz: Option<u32>,
        resolution_bits: Option<u32>,
    ) -> (settings: PwmSettings)
        ensures
            settings.duty == given_or(duty, DEFAULT_DUTY),
            settings.frequency_hz == given_or(frequency_hz, DEFAULT_FREQUENCY_HZ),
            settings.resolution_bits == given_or(resolution_bits, DEFAULT_RESOLUTION_BITS),
    {
        PwmSettings {
            duty: match duty {
                Some(value) => value,
                None => DEFAULT_DUTY,
            },
            frequency_hz: match frequency_hz {
                Some(value) => value,
                None => DEFAULT_FREQUENCY_HZ,
            },
            resolution_bits: match resolution_bits {
                Some(value) => value,
                None => DEFAULT_RESOLUTION_BITS,
            },
        }
    }
}

} // verus!
