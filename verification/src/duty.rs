//! Conversion from a servo pulse width in microseconds to the duty count
//! the PWM hardware takes, shared by the PAD link and the local PCA9685.

use vstd::prelude::*;

use vstd::arithmetic::div_mod::lemma_div_is_ordered;

verus! {

/// The duty count for a pulse width: the width as a fraction of the PWM
/// period (60 Hz refresh), scaled to the hardware's full count of 4095 and
/// rounded down. No clamping is applied; for every 16-bit width the result
/// stays below full scale anyway.
pub open spec fn spec_duty(microseconds: u16) -> int {
    (microseconds * 60 * 4095) / 1000000
}

/// Compute the duty count of a pulse width.
pub fn microseconds_to_analog_value(microseconds: u16) -> (duty: u16)
    ensures
        duty == spec_duty(microseconds),
        duty <= 16101,
{
    let per_second: u64 = (microseconds as u64) * 60;
    let scaled: u64 = per_second * 4095;
    let wide: u64 = scaled / 1000000;
    proof {
        lemma_div_is_ordered(scaled as int, 16101949500, 1000000);
    }
    wide as u16
}

/// The duty count never decreases as the pulse widens.
pub proof fn lemma_duty_monotonic(p1: u16, p2: u16)
    requires
        p1 <= p2,
    ensures
        spec_duty(p1) <= spec_duty(p2),
{
    lemma_div_is_ordered(p1 * 60 * 4095, p2 * 60 * 4095, 1000000);
}

} // verus!
