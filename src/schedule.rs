use vstd::prelude::*;
use crate::device::{Device, command_for};
use crate::price::{GridPackage, PricePoint, adjustable, adjusted};
use crate::series::{PriceSeries, SeriesError, chronological};
use crate::solver::{enabled_at, satisfy_constraints};

verus! {

/// Where a day's cycle stands.
#[derive(Clone, Copy, Debug, PartialEq, Eq, Structural)]
pub enum Phase {
    Fetching,
    Adjusting,
    Solving,
    Executing,
    Done,
}

pub open spec fn phase_after(phase: Phase, simulation: bool) -> Phase {
    match phase {
        Phase::Fetching => Phase::Adjusting,
        Phase::Adjusting => Phase::Solving,
        Phase::Solving => Phase::Executing,
        Phase::Executing => if simulation {
            Phase::Done
        } else {
            Phase::Fetching
        },
        Phase::Done => Phase::Done,
    }
}

/// The phase that follows once the current one has completed: a simulation
/// ends after its first day, a live run goes on to fetch the next day.
pub fn next_phase(phase: Phase, simulation: bool) -> (r: Phase)
    ensures
        r == phase_after(phase, simulation),
{
    match phase {
        Phase::Fetching => Phase::Adjusting,
        Phase::Adjusting => Phase::Solving,
        Phase::Solving => Phase::Executing,
        Phase::Executing => if simulation {
            Phase::Done
        } else {
            Phase::Fetching
        },
        Phase::Done => Phase::Done,
    }
}

/// How many days after today's local midnight the first day starts: a
/// simulation plans the current day, a live run starts at the next midnight.
pub fn first_day_offset(simulation: bool) -> (r: u64)
    ensures
        r == (if simulation { 0u64 } else { 1u64 }),
{
    if simulation {
        0
    } else {
        1
    }
}

/// What to do about a slot when its turn comes.
#[derive(Clone, Copy, Debug, PartialEq, Eq, Structural)]
pub enum SlotTiming {
    /// Handle the slot at once.
    Now,
    /// Sleep this many seconds, then handle the slot.
    Wait(u64),
    /// The slot's instant has passed: leave it out.
    Skip,
}

pub open spec fn timing_of(simulation: bool, slot: int, now: int) -> SlotTiming {
    if simulation {
        SlotTiming::Now
    } else if slot < now {
        SlotTiming::Skip
    } else {
        SlotTiming::Wait((slot - now) as u64)
    }
}

/// A simulation never waits; a live run waits for the slot's instant, or skips
/// the slot once that instant has passed.
pub fn slot_timing(simulation: bool, slot: i64, now: i64) -> (r: SlotTiming)
    ensures
        r == timing_of(simulation, slot as int, now as int),
{
    if simulation {
        SlotTiming::Now
    } else if slot < now {
        SlotTiming::Skip
    } else {
        SlotTiming::Wait((slot as i128 - now as i128) as u64)
    }
}

/// The command to run for a device in a slot: none in a simulation, else the
/// one that puts it in the decided state.
pub fn device_command(device: &Device, enabled: bool, simulation: bool) -> (r: Option<&Vec<String>>)
    ensures
        simulation ==> r is None,
        !simulation ==> r == Some(if enabled { &device.cmd_on } else { &device.cmd_off }),
{
    if simulation {
        None
    } else {
        Some(command_for(device, enabled))
    }
}

/// Why the market's answer cannot be used.
#[derive(Clone, Copy, Debug, PartialEq, Eq, Structural)]
pub enum FetchError {
    /// The answer's success flag was false.
    Unsuccessful,
    /// The answer held no usable series.
    Series(SeriesError),
}

/// Turns the market's answer into a day's series, refusing a false success
/// flag first, then anything that is not a non-empty chronological series.
pub fn accept_prices(success: bool, points: Vec<PricePoint>) -> (r: Result<PriceSeries, FetchError>)
    ensures
        !success ==> r == Err::<PriceSeries, FetchError>(FetchError::Unsuccessful),
        success && points@.len() == 0 ==> r == Err::<PriceSeries, FetchError>(FetchError::Series(SeriesError::Empty)),
        r is Ok <==> success && points@.len() > 0 && chronological(points@),
        r is Ok ==> r.unwrap()@ == points@ && r.unwrap().wf(),
{
    if !success {
        return Err(FetchError::Unsuccessful);
    }
    match PriceSeries::from_points(points) {
        Ok(series) => Ok(series),
        Err(e) => Err(FetchError::Series(e)),
    }
}

/// A day's adjusted prices and, for each device in order, its decision in
/// every slot. Fixed for the rest of the day once made.
pub struct DayPlan {
    pub prices: PriceSeries,
    pub enabled: Vec<Vec<bool>>,
}

/// The plan owed for a day: the prices with grid rates added, and each
/// device's decisions over those prices.
pub open spec fn plans_day(plan: &DayPlan, raw: Seq<PricePoint>, package: GridPackage, devices: Seq<Device>) -> bool {
    &&& plan.prices.wf()
    &&& plan.prices@.len() == raw.len()
    &&& forall|i: int| 0 <= i < raw.len() ==> #[trigger] plan.prices@[i] == adjusted(raw[i], package)
    &&& plan.enabled@.len() == devices.len()
    &&& forall|d: int| 0 <= d < devices.len() ==> (#[trigger] plan.enabled@[d])@.len() == raw.len()
    &&& forall|d: int, i: int| 0 <= d < devices.len() && 0 <= i < raw.len()
        ==> #[trigger] plan.enabled@[d]@[i] == enabled_at(plan.prices@, &devices[d], i)
}

/// Adjusts a day's prices and decides every device over them, in the given
/// order, before anything is run. `None` when some adjusted price does not fit
/// in an `i64`.
pub fn plan_day(raw: &PriceSeries, package: &GridPackage, devices: &Vec<Device>) -> (r: Option<DayPlan>)
    requires
        raw.wf(),
    ensures
        r is Some <==> forall|i: int| 0 <= i < raw@.len() ==> adjustable(#[trigger] raw@[i].price as int, *package),
        r is Some ==> plans_day(&r.unwrap(), raw@, *package, devices@),
{
    let prices = match raw.with_grid_rates(package) {
        Some(p) => p,
        None => return None,
    };
    let mut enabled: Vec<Vec<bool>> = Vec::new();
    let mut d: usize = 0;
    while d < devices.len()
        invariant
            prices.wf(),
            prices@.len() == raw@.len(),
            d <= devices@.len(),
            enabled@.len() == d,
            forall|k: int| 0 <= k < d ==> (#[trigger] enabled@[k])@.len() == raw@.len(),
            forall|k: int, i: int| 0 <= k < d && 0 <= i < raw@.len()
                ==> #[trigger] enabled@[k]@[i] == enabled_at(prices@, &devices@[k], i),
        decreases devices@.len() - d,
    {
        let mask = satisfy_constraints(&prices, &devices[d]);
        enabled.push(mask);
        d = d + 1;
    }
    Some(DayPlan { prices, enabled })
}

impl DayPlan {
    /// Whether device `device` is on in slot `slot`.
    pub fn is_enabled(&self, device: usize, slot: usize) -> (r: bool)
        requires
            device < self.enabled@.len(),
            slot < self.enabled@[device as int]@.len(),
        ensures
            r == self.enabled@[device as int]@[slot as int],
    {
        self.enabled[device][slot]
    }
}

/// A simulation runs one day: after its slots it is done, and it never waits
/// for a slot nor skips one. (That it runs no command is `device_command`'s.)
pub proof fn simulation_runs_one_day(slot: int, now: int)
    ensures
        phase_after(Phase::Executing, true) == Phase::Done,
        phase_after(Phase::Done, true) == Phase::Done,
        timing_of(true, slot, now) == SlotTiming::Now,
{
}

} // verus!
