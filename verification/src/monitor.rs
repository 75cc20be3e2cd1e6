//! A detected display and its brightness reading.
use vstd::prelude::*;

verus! {

/// A display that ddcutil reported, with the brightness it last reported
/// (VCP feature 0x10) or the fallback used when it does not answer.
#[derive(Debug, Clone)]
pub struct Monitor {
    pub display_id: u32,
    /// Stable identity across replugs (ddcutil's display number is not).
    pub edid_key: String,
    pub name: String,
    pub value: u8,
    pub max_value: u8,
    pub supports_brightness: bool,
}

/// The brightness `value` out of `max` as a percentage, rounded down and
/// stored in a `u8` (so a value above `max` wraps, as the cast does); 0 when
/// `max` is 0.
pub open spec fn percent_of(value: u8, max: u8) -> u8 {
    if max == 0 {
        0
    } else {
        ((value as nat * 100) / (max as nat)) as u8
    }
}

impl Monitor {
    /// The current brightness as a percentage of the monitor's maximum.
    pub fn percent(&self) -> (p: u8)
        ensures
            p == percent_of(self.value, self.max_value),
    {
        if self.max_value == 0 {
            0
        } else {
            ((self.value as u32 * 100) / self.max_value as u32) as u8
        }
    }
}

/// A reading at or below the maximum is at most 100 percent.
pub proof fn lemma_percent_at_most_100(value: u8, max: u8)
    requires
        value <= max,
    ensures
        percent_of(value, max) <= 100,
{
    if max > 0 {
        assert((value as nat * 100) / (max as nat) <= 100) by (nonlinear_arith)
            requires
                value <= max,
                max > 0,
        ;
    }
}

/// A reading of `level` out of 100 is `level` percent.
pub proof fn lemma_percent_of_level_out_of_100(level: u8)
    ensures
        percent_of(level, 100) == level,
{
}

/// A reading at the maximum is 100 percent.
pub proof fn lemma_percent_at_max(max: u8)
    requires
        max > 0,
    ensures
        percent_of(max, max) == 100,
{
    assert((max as nat * 100) / (max as nat) == 100) by (nonlinear_arith)
        requires
            max > 0,
    ;
}

} // verus!
