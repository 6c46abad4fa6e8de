use vstd::prelude::*;

verus! {

/// A ratio of one whole, in parts per million.
pub const RATIO_ONE: u32 = 1000000;

/// What a device is allowed to do, and the commands that switch it.
///
/// Prices are in the unit of `PricePoint::price`; `ratio_min` and `ratio_max` are
/// fractions of a window in parts per million; `window` is a duration in seconds.
#[derive(Clone, Debug)]
pub struct Device {
    pub threshold: Option<i64>,
    pub ratio_min: Option<u32>,
    pub ratio_max: Option<u32>,
    pub window: Option<u64>,
    pub cmd_on: Vec<String>,
    pub cmd_off: Vec<String>,
}

/// Why a device's constraints were refused.
#[derive(Clone, Copy, Debug, PartialEq, Eq, Structural)]
pub enum ConstraintError {
    /// A window was given without either ratio.
    WindowWithoutRatio,
    /// `ratio_max` was given without a threshold.
    RatioMaxWithoutThreshold,
    /// Both ratios were given and `ratio_min` exceeds `ratio_max`.
    RatioMinAboveMax,
    /// A ratio lies outside `[0, 1]`.
    RatioOutOfRange,
    /// `cmd_on` or `cmd_off` has no program.
    EmptyCommand,
}

pub open spec fn ratio_in_range(r: Option<u32>) -> bool {
    match r {
        Some(v) => v <= RATIO_ONE,
        None => true,
    }
}

pub open spec fn window_without_ratio(d: &Device) -> bool {
    d.window.is_some() && d.ratio_min.is_none() && d.ratio_max.is_none()
}

pub open spec fn ratio_max_without_threshold(d: &Device) -> bool {
    d.threshold.is_none() && d.ratio_max.is_some()
}

pub open spec fn ratio_min_above_max(d: &Device) -> bool {
    d.ratio_min.is_some() && d.ratio_max.is_some() && d.ratio_min.unwrap() > d.ratio_max.unwrap()
}

/// The consistency rules between threshold, ratios and window, checked in this order.
pub open spec fn constraint_check(d: &Device) -> Result<(), ConstraintError> {
    if window_without_ratio(d) {
        Err(ConstraintError::WindowWithoutRatio)
    } else if ratio_max_without_threshold(d) {
        Err(ConstraintError::RatioMaxWithoutThreshold)
    } else if ratio_min_above_max(d) {
        Err(ConstraintError::RatioMinAboveMax)
    } else {
        Ok(())
    }
}

/// A device that the scheduler can run: ratios within `[0, 1]`, consistent
/// constraints and a program in each command.
pub open spec fn valid_device(d: &Device) -> bool {
    ratio_in_range(d.ratio_min) && ratio_in_range(d.ratio_max) && constraint_check(d) is Ok
        && d.cmd_on@.len() > 0 && d.cmd_off@.len() > 0
}

/// Checks the consistency rules between threshold, ratios and window.
pub fn validate_constraints(d: &Device) -> (r: Result<(), ConstraintError>)
    ensures
        r == constraint_check(d),
{
    if d.window.is_some() && d.ratio_min.is_none() && d.ratio_max.is_none() {
        Err(ConstraintError::WindowWithoutRatio)
    } else if d.threshold.is_none() && d.ratio_max.is_some() {
        Err(ConstraintError::RatioMaxWithoutThreshold)
    } else {
        match (d.ratio_min, d.ratio_max) {
            (Some(lo), Some(hi)) if lo > hi => Err(ConstraintError::RatioMinAboveMax),
            _ => Ok(()),
        }
    }
}

/// Checks a whole device: ratio ranges first, then the consistency rules, then
/// that each command names a program.
pub fn validate_device(d: &Device) -> (r: Result<(), ConstraintError>)
    ensures
        r is Ok <==> valid_device(d),
        !(ratio_in_range(d.ratio_min) && ratio_in_range(d.ratio_max)) ==> r == Err::<(), ConstraintError>(ConstraintError::RatioOutOfRange),
        ratio_in_range(d.ratio_min) && ratio_in_range(d.ratio_max) && constraint_check(d) is Err ==> r == constraint_check(d),
        ratio_in_range(d.ratio_min) && ratio_in_range(d.ratio_max) && constraint_check(d) is Ok
            && (d.cmd_on@.len() == 0 || d.cmd_off@.len() == 0) ==> r == Err::<(), ConstraintError>(ConstraintError::EmptyCommand),
{
    let min_ok = match d.ratio_min {
        Some(v) => v <= RATIO_ONE,
        None => true,
    };
    let max_ok = match d.ratio_max {
        Some(v) => v <= RATIO_ONE,
        None => true,
    };
    if !(min_ok && max_ok) {
        return Err(ConstraintError::RatioOutOfRange);
    }
    let c = validate_constraints(d);
    if c.is_err() {
        return c;
    }
    if d.cmd_on.len() == 0 || d.cmd_off.len() == 0 {
        return Err(ConstraintError::EmptyCommand);
    }
    Ok(())
}

/// The command that puts a device in the given state.
pub fn command_for(d: &Device, enabled: bool) -> (r: &Vec<String>)
    ensures
        r == (if enabled { &d.cmd_on } else { &d.cmd_off }),
{
    if enabled {
        &d.cmd_on
    } else {
        &d.cmd_off
    }
}

} // verus!
