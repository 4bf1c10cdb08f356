//! Driver for a dual-channel six-bit step attenuator on a shared serial bus.
//!
//! The two chips share one data line and are committed together: both latch
//! enables are pulled low, the six-bit setting is shifted out once, and both
//! latches are raised to commit the same attenuation to both channels.  If
//! the shift fails the latches are never raised, so the chips keep their
//! previous setting — the update is atomic.
//!
//! The driver is generic over small capability traits so the same verified
//! logic runs against the board's pins and bus or against the bench
//! stand-ins below.
use vstd::prelude::*;

use crate::fbits::{half_steps_from_db, spec_half_steps};
use crate::transport::F32Bits;

verus! {

/// A digital output line owned exclusively by its driver.
pub trait OutPin {
    type Error;

    spec fn is_high(&self) -> bool;

    fn set_low(&mut self) -> (r: Result<(), Self::Error>)
        ensures
            r is Ok ==> !final(self).is_high(),
    ;

    fn set_high(&mut self) -> (r: Result<(), Self::Error>)
        ensures
            r is Ok ==> final(self).is_high(),
    ;
}

/// A synchronous serial bus that shifts bytes out; a failed transaction
/// shifts nothing.
pub trait ShiftBus {
    spec fn sent(&self) -> Seq<u8>;

    fn send(&mut self, b: u8) -> (r: Result<(), ()>)
        ensures
            r is Ok ==> final(self).sent() == old(self).sent().push(b),
            r is Err ==> final(self).sent() == old(self).sent(),
    ;
}

/// A two-state calibration-tone output: a fixed-duty waveform that is either
/// running or stopped.
pub trait ToneOutput {
    type Error;

    spec fn tone_on(&self) -> bool;

    fn set_tone(&mut self, on: bool) -> (r: Result<(), Self::Error>)
        ensures
            r is Ok ==> final(self).tone_on() == on,
    ;
}

/// Failure modes of one attenuation update, kept distinct so the caller can
/// tell a bus fault from a latch-line fault.
#[derive(Debug)]
pub enum Error<LEE> {
    /// The serial shift failed; nothing was latched.
    SpiError,
    /// Driving a latch-enable line failed.
    LeError(LEE),
}

/// Register value that realizes a half-step count: the attenuator chip
/// encodes `63 - h` in its six data bits (63 means 0 dB, 0 means full
/// attenuation), and any out-of-range count is masked into the six-bit
/// space.
pub fn register_for_half_steps(h: u8) -> (r: u8)
    ensures
        r == 63 - (h as int % 64),
        h <= 63 ==> r == 63 - h,
{
    let m: u8 = h % 64;
    63 - m
}

/// The six-bit register value a requested level produces.
pub open spec fn spec_atten_register(bits: u32) -> int {
    63 - spec_half_steps(bits) % 64
}

/// Law: for a request within the attenuator's range — non-negative, at most
/// 31.5 dB, so its doubled magnitude is at most 63 half-steps — the register
/// value is exactly 63 minus the nearest half-step of twice the request,
/// already within the six-bit space, so the mask changes nothing.
pub proof fn lemma_register_in_range(bits: u32)
    requires
        !crate::fbits::f32_is_nan(bits),
        crate::fbits::f32_sign(bits) == 0,
        crate::fbits::f32_mag149(bits) <= 63 * vstd::arithmetic::power2::pow2(148),
    ensures
        spec_atten_register(bits) == 63 - crate::fbits::spec_twice_round(bits),
        0 <= spec_atten_register(bits) <= 63,
{
    crate::fbits::lemma_atten_quantization(bits);
}

/// Both channels of the step attenuator, behind their shared bus and the two
/// latch-enable lines.
pub struct DualHMC624A<LE1, LE2, SPI> {
    le1: LE1,
    le2: LE2,
    spi: SPI,
}

impl<LE1, LE2, SPI, LEE> DualHMC624A<LE1, LE2, SPI> where
    SPI: ShiftBus,
    LE1: OutPin<Error = LEE>,
    LE2: OutPin<Error = LEE>,
 {
    /// Every byte ever shifted out on the attenuator bus, oldest first.
    pub closed spec fn shifted(&self) -> Seq<u8> {
        self.spi.sent()
    }

    pub closed spec fn le1_high(&self) -> bool {
        self.le1.is_high()
    }

    pub closed spec fn le2_high(&self) -> bool {
        self.le2.is_high()
    }

    pub fn new(spi: SPI, le1: LE1, le2: LE2) -> (r: Self)
        ensures
            r.shifted() == spi.sent(),
            r.le1_high() == le1.is_high(),
            r.le2_high() == le2.is_high(),
    {
        Self { le1, le2, spi }
    }

    /// Set both channels to the requested attenuation in dB (half-dB steps,
    /// 0 to 31.5).  On success exactly the level's register value was
    /// shifted and both latches are high.  If the shift fails, nothing was
    /// shifted and the latches were left low, so the previous setting stays
    /// committed; in every failure mode the bus never carries a byte other
    /// than the level's own register value.
    pub fn set_attenuation(&mut self, atten: F32Bits) -> (r: Result<(), Error<LEE>>)
        ensures
            r is Ok ==> {
                &&& final(self).shifted() == old(self).shifted().push(
                    spec_atten_register(atten.bits) as u8,
                )
                &&& final(self).le1_high()
                &&& final(self).le2_high()
            },
            (r matches Err(e) && e is SpiError) ==> {
                &&& final(self).shifted() == old(self).shifted()
                &&& !final(self).le1_high()
                &&& !final(self).le2_high()
            },
            r is Err ==> (final(self).shifted() == old(self).shifted() || final(self).shifted()
                == old(self).shifted().push(spec_atten_register(atten.bits) as u8)),
    {
        // Round the request to its half-step count and invert into the
        // chip's register encoding.
        let half_steps = half_steps_from_db(atten.bits);
        let setting = register_for_half_steps(half_steps);
        // Latch enables low so the chips accept shifted data.
        match self.le1.set_low() {
            Ok(_) => (),
            Err(e) => {
                return Err(Error::LeError(e));
            },
        }
        match self.le2.set_low() {
            Ok(_) => (),
            Err(e) => {
                return Err(Error::LeError(e));
            },
        }
        // Shift the six-bit setting out to both chips.
        match self.spi.send(setting) {
            Ok(_) => (),
            Err(_) => {
                return Err(Error::SpiError);
            },
        }
        // Latch enables high to commit the new setting on both channels.
        match self.le1.set_high() {
            Ok(_) => (),
            Err(e) => {
                return Err(Error::LeError(e));
            },
        }
        match self.le2.set_high() {
            Ok(_) => (),
            Err(e) => {
                return Err(Error::LeError(e));
            },
        }
        Ok(())
    }

    /// Take the driver apart again, handing back the bus and both latch
    /// lines — the bench teardown used to inspect what was shifted.
    pub fn release(self) -> (r: (SPI, LE1, LE2))
        ensures
            r.0.sent() == self.shifted(),
            r.1.is_high() == self.le1_high(),
            r.2.is_high() == self.le2_high(),
    {
        (self.spi, self.le1, self.le2)
    }
}

// ---------------------------------------------------------------------------
// Bench stand-ins, used by the tests in place of the board's hardware.
// ---------------------------------------------------------------------------

/// A recorded output line; `fail` makes every drive attempt report an error
/// and leave the line untouched.
pub struct SimPin {
    pub high: bool,
    pub fail: bool,
}

impl OutPin for SimPin {
    type Error = ();

    open spec fn is_high(&self) -> bool {
        self.high
    }

    fn set_low(&mut self) -> (r: Result<(), ()>) {
        if self.fail {
            Err(())
        } else {
            self.high = false;
            Ok(())
        }
    }

    fn set_high(&mut self) -> (r: Result<(), ()>) {
        if self.fail {
            Err(())
        } else {
            self.high = true;
            Ok(())
        }
    }
}

/// A recorded serial bus; `fail` makes every transaction report an error
/// and send nothing.
pub struct SimBus {
    pub sent: Vec<u8>,
    pub fail: bool,
}

impl ShiftBus for SimBus {
    open spec fn sent(&self) -> Seq<u8> {
        self.sent@
    }

    fn send(&mut self, b: u8) -> (r: Result<(), ()>) {
        if self.fail {
            Err(())
        } else {
            self.sent.push(b);
            Ok(())
        }
    }
}

/// A recorded calibration-tone output; `fail` makes every switch attempt
/// report an error and leave the waveform as it was.
pub struct SimTone {
    pub on: bool,
    pub fail: bool,
}

impl ToneOutput for SimTone {
    type Error = ();

    open spec fn tone_on(&self) -> bool {
        self.on
    }

    fn set_tone(&mut self, on: bool) -> (r: Result<(), ()>) {
        if self.fail {
            Err(())
        } else {
            self.on = on;
            Ok(())
        }
    }
}

} // verus!
