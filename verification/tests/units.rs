//! The conversion library and the attenuator: exact unit conversions,
//! half-step quantization, commit atomicity, and the bit-pattern ordering.
use fem_core::atten::{DualHMC624A, Error, SimBus, SimPin, register_for_half_steps};
use fem_core::convert::{
    adc_counts_to_microvolts, die_temp_millicelsius, if_power_millidbm, rail_current_microamps,
};
use fem_core::fbits::{atten_request_in_range, f32_ge, half_steps_from_db};
use fem_core::transport::F32Bits;

fn fb(x: f32) -> F32Bits {
    F32Bits { bits: x.to_bits() }
}

fn fresh_driver() -> DualHMC624A<SimPin, SimPin, SimBus> {
    DualHMC624A::new(
        SimBus { sent: Vec::new(), fail: false },
        SimPin { high: false, fail: false },
        SimPin { high: false, fail: false },
    )
}

#[test]
fn adc_scaling_is_exact() {
    assert_eq!(adc_counts_to_microvolts(0), 0);
    // 1024 counts is exactly a quarter of full scale: 0.825 V.
    assert_eq!(adc_counts_to_microvolts(1024), 825_000);
    assert_eq!(adc_counts_to_microvolts(2048), 1_650_000);
    // 4095 counts: floor(4095 * 3300000 / 4096).
    assert_eq!(adc_counts_to_microvolts(4095), 3_299_194);
    // Out-of-range counts clamp at the reference.
    assert_eq!(adc_counts_to_microvolts(4096), 3_300_000);
    assert_eq!(adc_counts_to_microvolts(u16::MAX), 3_300_000);
}

#[test]
fn die_temperature_at_calibration_point_is_exactly_27() {
    // V = 0.706 is the datasheet's calibration point: exactly 27.000 C.
    assert_eq!(die_temp_millicelsius(706_000), 27_000);
}

#[test]
fn die_temperature_slope() {
    // 1.721 mV below the calibration point is exactly one degree up.
    assert_eq!(die_temp_millicelsius(706_000 - 1_721), 28_000);
    // And above it, one degree down.
    assert_eq!(die_temp_millicelsius(706_000 + 1_721), 26_000);
    assert_eq!(die_temp_millicelsius(0), 27_000 + 410_226);
}

#[test]
fn if_power_formula() {
    // V = 1.0: 1/0.0215 - 47 + 20 dBm, which is 19.511 dBm in milli-dBm
    // with the fraction truncated.
    assert_eq!(if_power_millidbm(1_000_000), 19_511);
    // V = 0 leaves only the intercept and the tap correction.
    assert_eq!(if_power_millidbm(0), -27_000);
}

#[test]
fn rail_current_scaling() {
    // 1 ohm sense: the shunt reading is the current.
    assert_eq!(rail_current_microamps(50_000, 1000), 50_000);
    // 0.2 ohm sense: five times the shunt reading.
    assert_eq!(rail_current_microamps(50_000, 200), 250_000);
}

#[test]
fn register_encoding_is_inverted_six_bit() {
    assert_eq!(register_for_half_steps(0), 0x3F);
    assert_eq!(register_for_half_steps(63), 0x00);
    assert_eq!(register_for_half_steps(32), 0x1F);
    // Out-of-range counts mask into the six-bit space.
    assert_eq!(register_for_half_steps(64), 0x3F);
    assert_eq!(register_for_half_steps(255), 0x00);
}

#[test]
fn quantization_to_half_steps() {
    assert_eq!(half_steps_from_db(0.0f32.to_bits()), 0);
    assert_eq!(half_steps_from_db(31.5f32.to_bits()), 63);
    assert_eq!(half_steps_from_db(10.0f32.to_bits()), 20);
    assert_eq!(half_steps_from_db(0.5f32.to_bits()), 1);
    // Rounding to the nearest half step, ties to even: 16.25 dB doubles to
    // 32.5, which rounds to 32, that is 16.0 dB.
    assert_eq!(half_steps_from_db(16.25f32.to_bits()), 32);
    assert_eq!(half_steps_from_db(16.2f32.to_bits()), 32);
    assert_eq!(half_steps_from_db(16.3f32.to_bits()), 33);
    // Requests that round to the same half step are interchangeable.
    assert_eq!(half_steps_from_db(10.1f32.to_bits()), half_steps_from_db(10.2f32.to_bits()));
    assert_eq!(half_steps_from_db(10.1f32.to_bits()), 20);
    // Negative and invalid requests floor at zero; oversize ones saturate.
    assert_eq!(half_steps_from_db((-3.0f32).to_bits()), 0);
    assert_eq!(half_steps_from_db(f32::NAN.to_bits()), 0);
    assert_eq!(half_steps_from_db(f32::INFINITY.to_bits()), 255);
    assert_eq!(half_steps_from_db(1.0e9f32.to_bits()), 255);
    // A subnormal request is far below one half step.
    assert_eq!(half_steps_from_db(1), 0);
}

#[test]
fn set_attenuation_register_scenarios() {
    // 31.5 dB -> register 0x00; 0.0 dB -> 0x3F; 16.25 dB rounds to 16.0,
    // 32 half-steps, register 63 - 32 = 31 = 0x1F.
    for (db, reg) in [(31.5f32, 0x00u8), (0.0, 0x3F), (16.25, 0x1F), (10.0, 0x2B)] {
        let mut driver = fresh_driver();
        driver.set_attenuation(fb(db)).unwrap();
        let (bus, le1, le2) = driver.release();
        assert_eq!(bus.sent, vec![reg], "for request {db} dB");
        assert!(le1.high && le2.high);
    }
}

#[test]
fn equivalent_requests_shift_identical_registers() {
    let mut d1 = fresh_driver();
    let mut d2 = fresh_driver();
    d1.set_attenuation(fb(16.2)).unwrap();
    d2.set_attenuation(fb(16.25)).unwrap();
    assert_eq!(d1.release().0.sent, d2.release().0.sent);
}

#[test]
fn failed_shift_never_raises_latches() {
    let mut driver = DualHMC624A::new(
        SimBus { sent: Vec::new(), fail: false },
        SimPin { high: true, fail: false },
        SimPin { high: true, fail: false },
    );
    // Commit a first setting successfully.
    driver.set_attenuation(fb(10.0)).unwrap();
    // Now make the bus fail and ask for a different setting.
    let (mut bus, le1, le2) = driver.release();
    assert!(le1.high && le2.high);
    bus.fail = true;
    let mut driver = DualHMC624A::new(bus, le1, le2);
    match driver.set_attenuation(fb(20.0)) {
        Err(Error::SpiError) => (),
        other => panic!("expected the bus fault to surface, got {other:?}"),
    }
    let (bus, le1, le2) = driver.release();
    // Nothing new was shifted and the latches were left low: the previous
    // setting is still the one committed.
    assert_eq!(bus.sent, vec![register_for_half_steps(20)]);
    assert!(!le1.high && !le2.high);
}

#[test]
fn failed_latch_line_aborts_before_shifting() {
    let mut driver = DualHMC624A::new(
        SimBus { sent: Vec::new(), fail: false },
        SimPin { high: true, fail: true },
        SimPin { high: true, fail: false },
    );
    match driver.set_attenuation(fb(5.0)) {
        Err(Error::LeError(())) => (),
        other => panic!("expected the latch fault to surface, got {other:?}"),
    }
    let (bus, _, _) = driver.release();
    assert!(bus.sent.is_empty());
}

#[test]
fn attenuation_range_check() {
    assert!(atten_request_in_range(0.0f32.to_bits()));
    assert!(atten_request_in_range(31.5f32.to_bits()));
    assert!(atten_request_in_range(15.25f32.to_bits()));
    // Negative zero is zero, so it is in range.
    assert!(atten_request_in_range((-0.0f32).to_bits()));
    assert!(!atten_request_in_range(31.501f32.to_bits()));
    assert!(!atten_request_in_range((-0.5f32).to_bits()));
    assert!(!atten_request_in_range(f32::NAN.to_bits()));
    assert!(!atten_request_in_range(f32::INFINITY.to_bits()));
}

#[test]
fn bit_pattern_ordering_matches_float_ordering() {
    let cases = [
        (-10.0f32, -10.0f32),
        (-9.99, -10.0),
        (-10.01, -10.0),
        (0.0, -0.0),
        (-0.0, 0.0),
        (1.5, 2.5),
        (-1.5, -2.5),
        (f32::INFINITY, 1.0e30),
        (f32::NEG_INFINITY, -1.0e30),
        (0.0, 1.0e-40),
    ];
    for (a, b) in cases {
        assert_eq!(f32_ge(a.to_bits(), b.to_bits()), a >= b, "for {a} >= {b}");
    }
    assert!(!f32_ge(f32::NAN.to_bits(), 0.0f32.to_bits()));
    assert!(!f32_ge(0.0f32.to_bits(), f32::NAN.to_bits()));
}
