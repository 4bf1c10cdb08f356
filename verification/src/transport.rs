//! Message types exchanged between the board and the monitor-and-control host.
//!
//! Real-valued fields travel on the wire as IEEE-754 single-precision bit
//! patterns, four little-endian bytes each.  The control core never does
//! arithmetic on them as machine floats: it carries the raw 32-bit pattern and
//! interprets it, where it must, with exact integer logic (see `fbits`).
use vstd::prelude::*;

verus! {

/// An IEEE-754 single-precision value carried as its raw bit pattern.
#[derive(Clone, Copy, Debug, PartialEq, Eq, Structural)]
pub struct F32Bits {
    pub bits: u32,
}

/// Voltage and current of one monitored supply rail, in volts and amps.
#[derive(Clone, Copy, Debug, PartialEq, Eq, Structural)]
pub struct Power {
    pub voltage: F32Bits,
    pub current: F32Bits,
}

/// Snapshot of every monitored quantity, served in reply to a monitor request.
#[derive(Clone, Copy, Debug, PartialEq, Eq, Structural)]
pub struct MonitorPayload {
    /// IF1 detector power in dBm.
    pub if1_power: F32Bits,
    /// IF2 detector power in dBm.
    pub if2_power: F32Bits,
    /// Controller die temperature in degrees Celsius.
    pub ic_temp: F32Bits,
    /// Voltage and current of the LNA1 rail.
    pub lna1_power: Power,
    /// Voltage and current of the LNA2 rail.
    pub lna2_power: Power,
    /// Voltage and current of the analog rail.
    pub analog_power: Power,
}

/// Setpoint changes a host may request, each applied atomically.
#[derive(Clone, Copy, Debug, PartialEq, Eq, Structural)]
pub enum Action {
    /// Set the IF "good" power threshold in dBm.
    SetIfLevel(F32Bits),
    /// Switch the LNA1 regulator on or off.
    Lna1Power(bool),
    /// Switch the LNA2 regulator on or off.
    Lna2Power(bool),
    /// Set the attenuation in dB, expected within 0.0 to 31.5.
    SetAtten(F32Bits),
    /// Enable or disable the calibration tone on channel 1.
    SetCal1(bool),
    /// Enable or disable the calibration tone on channel 2.
    SetCal2(bool),
}

/// Requests from the host to the board.
#[derive(Clone, Copy, Debug, PartialEq, Eq, Structural)]
pub enum Command {
    /// Ask for the latest monitor snapshot.
    Monitor,
    /// Apply one setpoint change.
    Control(Action),
}

/// Replies from the board to the host.
#[derive(Clone, Copy, Debug, PartialEq, Eq, Structural)]
pub enum Response {
    /// The snapshot produced for a monitor request.
    Monitor(MonitorPayload),
    /// Acknowledgement of a control request.
    Ack,
}

impl Default for F32Bits {
    /// The all-zero pattern, which is positive zero.
    fn default() -> (r: Self)
        ensures
            r.bits == 0,
    {
        F32Bits { bits: 0 }
    }
}

impl Default for Power {
    fn default() -> (r: Self)
        ensures
            r.voltage.bits == 0,
            r.current.bits == 0,
    {
        Power { voltage: F32Bits { bits: 0 }, current: F32Bits { bits: 0 } }
    }
}

impl MonitorPayload {
    /// The neutral snapshot every field starts from at power-up.
    pub open spec fn spec_zeroed() -> MonitorPayload {
        MonitorPayload {
            if1_power: F32Bits { bits: 0 },
            if2_power: F32Bits { bits: 0 },
            ic_temp: F32Bits { bits: 0 },
            lna1_power: Power { voltage: F32Bits { bits: 0 }, current: F32Bits { bits: 0 } },
            lna2_power: Power { voltage: F32Bits { bits: 0 }, current: F32Bits { bits: 0 } },
            analog_power: Power { voltage: F32Bits { bits: 0 }, current: F32Bits { bits: 0 } },
        }
    }
}

impl Default for MonitorPayload {
    fn default() -> (r: Self)
        ensures
            r == MonitorPayload::spec_zeroed(),
    {
        MonitorPayload {
            if1_power: F32Bits { bits: 0 },
            if2_power: F32Bits { bits: 0 },
            ic_temp: F32Bits { bits: 0 },
            lna1_power: Power { voltage: F32Bits { bits: 0 }, current: F32Bits { bits: 0 } },
            lna2_power: Power { voltage: F32Bits { bits: 0 }, current: F32Bits { bits: 0 } },
            analog_power: Power { voltage: F32Bits { bits: 0 }, current: F32Bits { bits: 0 } },
        }
    }
}

} // verus!
