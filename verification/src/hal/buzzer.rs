//! Buzzer driven as a square wave.
use vstd::prelude::*;

verus! {

/// Half period of a tone in nanoseconds, rounded down.
pub open spec fn half_period(freq_hz: u32) -> int {
    500_000_000int / freq_hz as int
}

/// Half period of a tone in nanoseconds; none for the frequency 0, which is a
/// silent rest.
pub fn half_period_ns(freq_hz: u32) -> (r: Option<u64>)
    ensures
        r is None <==> freq_hz == 0,
        r is Some ==> r->0 == half_period(freq_hz),
{
    if freq_hz == 0 {
        None
    } else {
        proof {
            let f = freq_hz as int;
            let half = 500_000_000int / f;
            assert(0 <= half <= 500_000_000) by (nonlinear_arith)
                requires
                    half == 500_000_000int / f,
                    f >= 1,
            ;
        }
        Some(500_000_000 / freq_hz as u64)
    }
}

/// Two half periods at the frequency fill a second, and with a nanosecond more each they
/// would not fit.
pub proof fn law_half_periods_fill_a_second(freq_hz: u32)
    requires
        freq_hz > 0,
    ensures
        2 * freq_hz * half_period(freq_hz) <= 1_000_000_000 < 2 * freq_hz * (half_period(freq_hz)
            + 1),
{
    let f = freq_hz as int;
    let half = half_period(freq_hz);
    vstd::arithmetic::div_mod::lemma_fundamental_div_mod(500_000_000, f);
    assert(2 * f * half <= 1_000_000_000 < 2 * f * (half + 1)) by (nonlinear_arith)
        requires
            500_000_000 == f * half + 500_000_000int % f,
            0 <= 500_000_000int % f < f,
    ;
}

} // verus!
