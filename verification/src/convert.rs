//! Conversion library: sensor counts to physical units, in exact integer
//! arithmetic over micro- and milli-units.
//!
//! The formulas come from the converter and sensor datasheets and are fixed:
//! a 12-bit converter referenced to 3.3 V, the die-temperature line
//! `T = 27.0 - (V - 0.706) / 0.001721`, and the IF detector line
//! `P = V / 0.0215 - 47.0 + 20.0` (slope and intercept plus the fixed 20 dB
//! coupler tap).  Each function states its result exactly, with truncating
//! division, over microvolts in and milli-units out.
use vstd::prelude::*;

use vstd::arithmetic::div_mod::lemma_div_is_ordered;
use vstd::arithmetic::mul::lemma_mul_inequality;

verus! {

/// Full-scale reference of the converter, in microvolts.
pub const ADC_REF_MICROVOLT: u32 = 3_300_000;

/// Scale a raw 12-bit conversion to microvolts: `counts / 4096` of the 3.3 V
/// reference, clamped to the reference itself for out-of-range counts.
pub fn adc_counts_to_microvolts(counts: u16) -> (uv: u32)
    ensures
        counts < 4096 ==> uv == (counts as int * 3_300_000) / 4096,
        counts >= 4096 ==> uv == 3_300_000,
        uv <= 3_300_000,
{
    if counts >= 4096 {
        ADC_REF_MICROVOLT
    } else {
        let wide: u64 = (counts as u64) * 3_300_000;
        let uv: u64 = wide / 4096;
        proof {
            lemma_mul_inequality(counts as int, 4096, 3_300_000);
            lemma_div_is_ordered(wide as int, 4096int * 3_300_000, 4096);
        }
        uv as u32
    }
}

/// Die temperature in millidegrees Celsius from the sensor voltage in
/// microvolts: the datasheet line `27.0 - (V - 0.706) / 0.001721`, evaluated
/// exactly with the fraction truncated toward zero.
pub fn die_temp_millicelsius(uv: u32) -> (t: i32)
    requires
        uv <= 3_300_000,
    ensures
        uv >= 706_000 ==> t == 27_000 - ((uv - 706_000) * 1000) / 1721,
        uv < 706_000 ==> t == 27_000 + ((706_000 - uv) * 1000) / 1721,
{
    if uv >= 706_000 {
        let d: u64 = ((uv - 706_000) as u64) * 1000;
        let q: u64 = d / 1721;
        proof {
            lemma_mul_inequality((uv - 706_000) as int, 2_594_000, 1000);
            lemma_div_is_ordered(d as int, 2_594_000_000, 1721);
        }
        27_000i32 - (q as i32)
    } else {
        let d: u64 = ((706_000 - uv) as u64) * 1000;
        let q: u64 = d / 1721;
        proof {
            lemma_mul_inequality((706_000 - uv) as int, 706_000, 1000);
            lemma_div_is_ordered(d as int, 706_000_000, 1721);
        }
        27_000i32 + (q as i32)
    }
}

/// IF detector power in milli-dBm from the detector voltage in microvolts:
/// the line `V / 0.0215 - 47.0 + 20.0`, which over milli-dBm is exactly
/// `2 * uv / 43 - 27000`, with the fraction truncated toward zero.
pub fn if_power_millidbm(uv: u32) -> (p: i32)
    requires
        uv <= 3_300_000,
    ensures
        p == (uv * 2) / 43 - 27_000,
{
    let d: u64 = (uv as u64) * 2;
    let q: u64 = d / 43;
    proof {
        lemma_div_is_ordered(d as int, 6_600_000, 43);
    }
    (q as i32) - 27_000
}

/// Rail current in microamps from the measured shunt voltage and the rail's
/// sense resistance: `I = V / R`, exactly, with truncation.  The two LNA
/// rails sense across 1 ohm, the analog rail across 0.2 ohm.
pub fn rail_current_microamps(shunt_uv: u32, rsense_milliohm: u32) -> (ua: u64)
    requires
        rsense_milliohm > 0,
    ensures
        ua == (shunt_uv * 1000) / (rsense_milliohm as int),
{
    ((shunt_uv as u64) * 1000) / (rsense_milliohm as u64)
}

} // verus!
