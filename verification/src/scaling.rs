//! The core scaling decision, a pure function of the numbers of the moment.

use crate::config::ScalingConfig;
use crate::real64::Real64;
use vstd::prelude::*;

verus! {

/// What the autoscaler should do this tick.
#[derive(Debug, Clone, Copy, PartialEq, Eq, Structural)]
pub enum ScaleAction {
    Up,
    Down,
    Hold,
}

impl ScalingConfig {
    /// The number of instances that must be running while `floor` is scheduled:
    /// `floor`, but never fewer than `min_instances`.
    pub open spec fn effective_floor(self, floor: u32) -> u32 {
        if floor >= self.min_instances {
            floor
        } else {
            self.min_instances
        }
    }

    /// Whether the reading calls for one more instance, and there may be one.
    pub open spec fn overloaded(self, current: u32, reading: Option<Real64>) -> bool {
        reading matches Some(value) && value.exceeds(self.scale_up_threshold) && current
            < self.max_instances
    }

    /// Whether the reading calls for one instance less, and one may go.
    pub open spec fn underused(self, current: u32, reading: Option<Real64>, floor: u32) -> bool {
        reading matches Some(value) && self.scale_down_threshold.exceeds(value) && current
            > self.effective_floor(floor)
    }

    /// The decision: catching up to the floor comes before the readings, and
    /// adding an instance before removing one.
    pub open spec fn decision(self, current: u32, reading: Option<Real64>, floor: u32) -> ScaleAction {
        if current < self.effective_floor(floor) || self.overloaded(current, reading) {
            ScaleAction::Up
        } else if self.underused(current, reading, floor) {
            ScaleAction::Down
        } else {
            ScaleAction::Hold
        }
    }
}

/// The core scaling decision. Callers are responsible for cooldown enforcement:
/// this function only answers "given these numbers right now, what should
/// happen?".
///
/// `floor` is what [`current_scheduled_floor`](crate::schedule::current_scheduled_floor)
/// returned this tick (or `scaling.min_instances` if there is no schedule);
/// catching up to the floor always takes priority over the reactive comparison.
/// Without a reading (no traffic yet, or a metric that is not measured) it holds.
pub fn decide_scale_action(
    current_instances: u32,
    metric_value: Option<Real64>,
    floor: u32,
    scaling: &ScalingConfig,
) -> (action: ScaleAction)
    ensures
        action == scaling.decision(current_instances, metric_value, floor),
{
    let effective_floor: u32 = if floor >= scaling.min_instances {
        floor
    } else {
        scaling.min_instances
    };
    if current_instances < effective_floor {
        return ScaleAction::Up;
    }
    match metric_value {
        None => ScaleAction::Hold,
        Some(value) => {
            if value.gt(scaling.scale_up_threshold) && current_instances < scaling.max_instances {
                ScaleAction::Up
            } else if value.lt(scaling.scale_down_threshold) && current_instances
                > effective_floor {
                ScaleAction::Down
            } else {
                ScaleAction::Hold
            }
        },
    }
}

/// An instance is added if, and only if, there are fewer than the floor or than
/// `min_instances`, or the reading lies above the upper threshold and there are
/// fewer than `max_instances`.
pub proof fn law_when_to_add(
    current: u32,
    reading: Option<Real64>,
    floor: u32,
    scaling: &ScalingConfig,
    action: ScaleAction,
)
    requires
        call_ensures(decide_scale_action, (current, reading, floor, scaling), action),
    ensures
        action == ScaleAction::Up <==> {
            ||| current < floor
            ||| current < scaling.min_instances
            ||| reading matches Some(value) && value.exceeds(scaling.scale_up_threshold) && current
                < scaling.max_instances
        },
{
}

/// An instance is removed if, and only if, there are more than the floor and than
/// `min_instances`, the reading lies below the lower threshold, and it does not
/// call for one more.
pub proof fn law_when_to_remove(
    current: u32,
    reading: Option<Real64>,
    floor: u32,
    scaling: &ScalingConfig,
    action: ScaleAction,
)
    requires
        call_ensures(decide_scale_action, (current, reading, floor, scaling), action),
    ensures
        action == ScaleAction::Down <==> {
            &&& current > floor
            &&& current > scaling.min_instances
            &&& reading matches Some(value) && scaling.scale_down_threshold.exceeds(value) && !(
            value.exceeds(scaling.scale_up_threshold) && current < scaling.max_instances)
        },
{
}

/// Above the upper threshold every number of instances below `max_instances`
/// grows.
pub proof fn law_overload_adds(scaling: ScalingConfig, current: u32, value: Real64, floor: u32)
    requires
        value.exceeds(scaling.scale_up_threshold),
        current < scaling.max_instances,
    ensures
        scaling.decision(current, Some(value), floor) == ScaleAction::Up,
{
}

/// Below the lower threshold, and not above the upper one, every number of
/// instances above the floor and `min_instances` shrinks.
pub proof fn law_idleness_removes(scaling: ScalingConfig, current: u32, value: Real64, floor: u32)
    requires
        scaling.scale_down_threshold.exceeds(value),
        !value.exceeds(scaling.scale_up_threshold),
        current > floor,
        current > scaling.min_instances,
    ensures
        scaling.decision(current, Some(value), floor) == ScaleAction::Down,
{
}

/// The number of instances that must be running is the larger one of the floor
/// and `min_instances`.
pub proof fn law_effective_floor_is_larger(scaling: ScalingConfig, floor: u32)
    ensures
        scaling.effective_floor(floor) >= floor,
        scaling.effective_floor(floor) >= scaling.min_instances,
        scaling.effective_floor(floor) == floor || scaling.effective_floor(floor)
            == scaling.min_instances,
{
}

/// Below the floor the answer is to add an instance, whatever the reading says.
pub proof fn law_floor_comes_first(
    scaling: ScalingConfig,
    current: u32,
    reading: Option<Real64>,
    floor: u32,
)
    requires
        current < scaling.effective_floor(floor),
    ensures
        scaling.decision(current, reading, floor) == ScaleAction::Up,
{
}

/// One step of a decision never takes the number of instances below the floor.
pub proof fn law_never_below_floor(
    scaling: ScalingConfig,
    current: u32,
    reading: Option<Real64>,
    floor: u32,
)
    ensures
        scaling.decision(current, reading, floor) == ScaleAction::Down ==> current - 1
            >= scaling.effective_floor(floor),
{
}

/// One step of a decision never takes the number of instances above
/// `max_instances`, unless the floor itself asks for more.
pub proof fn law_never_above_max(
    scaling: ScalingConfig,
    current: u32,
    reading: Option<Real64>,
    floor: u32,
)
    ensures
        scaling.decision(current, reading, floor) == ScaleAction::Up ==> current + 1
            <= scaling.max_instances || current + 1 <= scaling.effective_floor(floor),
{
}

/// Without a reading nothing happens once the floor is reached.
pub proof fn law_no_reading_holds(scaling: ScalingConfig, current: u32, floor: u32)
    requires
        current >= scaling.effective_floor(floor),
    ensures
        scaling.decision(current, None, floor) == ScaleAction::Hold,
{
}

/// Between the thresholds nothing happens once the floor is reached.
pub proof fn law_dead_zone_holds(scaling: ScalingConfig, current: u32, value: Real64, floor: u32)
    requires
        current >= scaling.effective_floor(floor),
        !value.exceeds(scaling.scale_up_threshold),
        !scaling.scale_down_threshold.exceeds(value),
    ensures
        scaling.decision(current, Some(value), floor) == ScaleAction::Hold,
{
}

/// In a valid configuration no reading is both above the upper threshold and
/// below the lower one.
pub proof fn law_thresholds_exclusive(scaling: ScalingConfig, value: Real64)
    requires
        scaling.valid(),
    ensures
        !(value.exceeds(scaling.scale_up_threshold) && scaling.scale_down_threshold.exceeds(value)),
{
}

} // verus!
