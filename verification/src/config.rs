//! A service definition, and the rules that it has to meet.

pub use crate::scaling::{decide_scale_action, ScaleAction};
pub use crate::schedule::{current_scheduled_floor, parse_hhmm, ScheduleConfig, ScheduleEntry};

use crate::real64::Real64;
use vstd::prelude::*;

verus! {

/// A whole service definition.
#[derive(Debug, Clone)]
pub struct ServiceConfig {
    pub service: ServiceMeta,
    pub resources: Resources,
    pub scaling: ScalingConfig,
}

/// What to run and where.
#[derive(Debug, Clone)]
pub struct ServiceMeta {
    /// Human-readable name, also used as the docker container name prefix.
    pub name: String,
    /// Fully qualified container image, e.g. "ghcr.io/org/app:latest".
    pub image: String,
    /// Port the app listens on *inside* the container.
    pub port: u16,
    /// HTTP path used for health checks, e.g. "/healthz".
    pub health_check: String,
    /// Port the proxy listens on for this service (public facing).
    pub listen_port: u16,
}

/// Limits on one container.
#[derive(Debug, Clone)]
pub struct Resources {
    /// Fractional CPUs, e.g. "0.5" -> 50% of one core.
    pub cpu_limit: Option<String>,
    /// e.g. "512m", "1g".
    pub memory_limit: Option<String>,
}

/// When to add and when to remove instances.
#[derive(Debug, Clone)]
pub struct ScalingConfig {
    pub min_instances: u32,
    pub max_instances: u32,
    pub metric: ScalingMetric,
    pub scale_up_threshold: Real64,
    pub scale_down_threshold: Real64,
    pub cooldown_secs: u64,
    pub schedule: Option<ScheduleConfig>,
}

/// The reading that the thresholds are compared with.
#[derive(Debug, Clone, Copy, PartialEq, Eq, Structural)]
pub enum ScalingMetric {
    P95LatencyMs,
    Cpu,
    ActiveConnections,
    RequestsPerSecond,
}

impl Default for Resources {
    fn default() -> (resources: Self)
        ensures
            resources.cpu_limit is None,
            resources.memory_limit is None,
    {
        Resources { cpu_limit: None, memory_limit: None }
    }
}

/// The public port of a service that names none.
pub fn default_listen_port() -> (port: u16)
    ensures
        port == 8080,
{
    8080
}

/// The cooldown, in seconds, of a service that names none.
pub fn default_cooldown() -> (secs: u64)
    ensures
        secs == 60,
{
    60
}

/// Why a service definition is refused.
#[derive(Debug, Clone)]
pub enum ConfigError {
    /// `min_instances` is 0.
    NoInstances,
    /// `max_instances` is below `min_instances`.
    MaxBelowMin,
    /// `scale_up_threshold` is not above `scale_down_threshold`.
    ThresholdOrder,
    /// This schedule time is not "HH:MM".
    ScheduleTime(String),
}

impl ConfigError {
    /// What the message of the error says.
    pub open spec fn text(self) -> Seq<char> {
        match self {
            ConfigError::NoInstances =>
                "min_instances must be >= 1 (need at least one replica to serve traffic)"@,
            ConfigError::MaxBelowMin => "max_instances must be >= min_instances"@,
            ConfigError::ThresholdOrder =>
                "scale_up_threshold must be greater than scale_down_threshold"@,
            ConfigError::ScheduleTime(at) => "invalid schedule time '"@ + at@
                + "', expected HH:MM"@,
        }
    }

    /// The message of the error.
    pub fn message(&self) -> (text: String)
        ensures
            text@ == self.text(),
    {
        match self {
            ConfigError::NoInstances =>
                "min_instances must be >= 1 (need at least one replica to serve traffic)".to_owned(),
            ConfigError::MaxBelowMin => "max_instances must be >= min_instances".to_owned(),
            ConfigError::ThresholdOrder =>
                "scale_up_threshold must be greater than scale_down_threshold".to_owned(),
            ConfigError::ScheduleTime(at) => {
                let mut text = "invalid schedule time '".to_owned();
                text.append(at.as_str());
                text.append("', expected HH:MM");
                text
            },
        }
    }
}

/// Whether the time of schedule entry `i` is malformed.
pub open spec fn malformed(schedule: ScheduleConfig, i: int) -> bool {
    0 <= i < schedule.entries@.len() && crate::schedule::hhmm(schedule.entries@[i].at@) is None
}

impl ScalingConfig {
    /// Whether at least one instance is asked for.
    pub open spec fn has_instances(self) -> bool {
        self.min_instances >= 1
    }

    /// Whether the bounds on the number of instances are in order.
    pub open spec fn bounds_in_order(self) -> bool {
        self.max_instances >= self.min_instances
    }

    /// Whether the upper threshold lies above the lower one.
    pub open spec fn thresholds_in_order(self) -> bool {
        self.scale_up_threshold.exceeds(self.scale_down_threshold)
    }

    /// Whether every time of the schedule is well formed.
    pub open spec fn schedule_well_formed(self) -> bool {
        self.schedule matches Some(schedule) ==> forall|i: int| !#[trigger] malformed(schedule, i)
    }

    /// The rules for scaling, all of them.
    pub open spec fn valid(self) -> bool {
        &&& self.has_instances()
        &&& self.bounds_in_order()
        &&& self.thresholds_in_order()
        &&& self.schedule_well_formed()
    }

    /// Whether `error` is the first rule that the configuration breaks, and at
    /// the first schedule entry that breaks it.
    pub open spec fn first_broken(self, error: ConfigError) -> bool {
        match error {
            ConfigError::NoInstances => !self.has_instances(),
            ConfigError::MaxBelowMin => self.has_instances() && !self.bounds_in_order(),
            ConfigError::ThresholdOrder => self.has_instances() && self.bounds_in_order()
                && !self.thresholds_in_order(),
            ConfigError::ScheduleTime(at) => {
                &&& self.has_instances()
                &&& self.bounds_in_order()
                &&& self.thresholds_in_order()
                &&& self.schedule matches Some(schedule)
                &&& exists|i: int|
                    {
                        &&& #[trigger] malformed(schedule, i)
                        &&& at@ == schedule.entries@[i].at@
                        &&& forall|j: int| j < i ==> !#[trigger] malformed(schedule, j)
                    }
            },
        }
    }
}

impl ServiceConfig {
    /// Checks the rules that a service definition has to meet.
    pub fn validate(&self) -> (verdict: Result<(), ConfigError>)
        ensures
            verdict is Ok <==> self.scaling.valid(),
            verdict matches Err(error) ==> self.scaling.first_broken(error),
    {
        if self.scaling.min_instances < 1 {
            return Err(ConfigError::NoInstances);
        }
        if self.scaling.max_instances < self.scaling.min_instances {
            return Err(ConfigError::MaxBelowMin);
        }
        if !self.scaling.scale_up_threshold.gt(self.scaling.scale_down_threshold) {
            return Err(ConfigError::ThresholdOrder);
        }
        if let Some(schedule) = &self.scaling.schedule {
            let mut i: usize = 0;
            while i < schedule.entries.len()
                invariant
                    self.scaling.has_instances(),
                    self.scaling.bounds_in_order(),
                    self.scaling.thresholds_in_order(),
                    self.scaling.schedule == Some(*schedule),
                    i <= schedule.entries@.len(),
                    forall|j: int| j < i ==> !#[trigger] malformed(*schedule, j),
                decreases schedule.entries@.len() - i,
            {
                if parse_hhmm(schedule.entries[i].at.as_str()).is_none() {
                    assert(malformed(self.scaling.schedule->Some_0, i as int));
                    return Err(ConfigError::ScheduleTime(schedule.entries[i].at.clone()));
                }
                i = i + 1;
            }
        }
        Ok(())
    }
}

/// Which definitions are accepted: those that ask for at least one instance and for
/// no fewer at most than at least, whose upper threshold is the larger one, and whose
/// schedule names times of day only.
pub proof fn law_what_is_accepted(config: &ServiceConfig, verdict: Result<(), ConfigError>)
    requires
        call_ensures(ServiceConfig::validate, (config,), verdict),
    ensures
        verdict is Ok <==> {
            &&& config.scaling.min_instances >= 1
            &&& config.scaling.max_instances >= config.scaling.min_instances
            &&& config.scaling.scale_up_threshold.exceeds(config.scaling.scale_down_threshold)
            &&& config.scaling.schedule matches Some(schedule) ==> forall|i: int|
                0 <= i < schedule.entries@.len() ==> crate::schedule::hhmm(
                    (#[trigger] schedule.entries@[i]).at@,
                ) is Some
        },
{
    if let Some(schedule) = config.scaling.schedule {
        if config.scaling.schedule_well_formed() {
            assert forall|i: int| 0 <= i < schedule.entries@.len() implies crate::schedule::hhmm(
                (#[trigger] schedule.entries@[i]).at@,
            ) is Some by {
                assert(!malformed(schedule, i));
            }
        } else {
            let i: int = choose|i: int| malformed(schedule, i);
            assert(crate::schedule::hhmm(schedule.entries@[i].at@) is None);
        }
    }
}

/// Which rule is reported: the first one that is broken, in this order, and of the
/// times the first one of the schedule.
pub proof fn law_what_is_reported(config: &ServiceConfig, error: ConfigError)
    requires
        call_ensures(ServiceConfig::validate, (config,), Err(error)),
    ensures
        config.scaling.min_instances == 0 <==> error is NoInstances,
        config.scaling.min_instances >= 1 && config.scaling.max_instances
            < config.scaling.min_instances <==> error is MaxBelowMin,
        config.scaling.min_instances >= 1 && config.scaling.max_instances
            >= config.scaling.min_instances && !config.scaling.scale_up_threshold.exceeds(
            config.scaling.scale_down_threshold,
        ) <==> error is ThresholdOrder,
        error matches ConfigError::ScheduleTime(at) ==> {
            &&& config.scaling.schedule matches Some(schedule)
            &&& exists|i: int|
                0 <= i < schedule.entries@.len() && at@ == (#[trigger] schedule.entries@[i]).at@
                    && crate::schedule::hhmm(at@) is None && forall|j: int|
                    0 <= j < i ==> crate::schedule::hhmm(
                        (#[trigger] schedule.entries@[j]).at@,
                    ) is Some
        },
{
    if let ConfigError::ScheduleTime(at) = error {
        let schedule: ScheduleConfig = config.scaling.schedule->Some_0;
        let i: int = choose|i: int|
            {
                &&& #[trigger] malformed(schedule, i)
                &&& at@ == schedule.entries@[i].at@
                &&& forall|j: int| j < i ==> !#[trigger] malformed(schedule, j)
            };
        assert forall|j: int| 0 <= j < i implies crate::schedule::hhmm(
            (#[trigger] schedule.entries@[j]).at@,
        ) is Some by {
            assert(!malformed(schedule, j));
        }
        assert(at@ == schedule.entries@[i].at@);
    }
}

/// What the messages say.
pub proof fn law_what_messages_say(error: &ConfigError, text: String)
    requires
        call_ensures(ConfigError::message, (error,), text),
    ensures
        error is NoInstances ==> text@
            == "min_instances must be >= 1 (need at least one replica to serve traffic)"@,
        error is MaxBelowMin ==> text@ == "max_instances must be >= min_instances"@,
        error is ThresholdOrder ==> text@
            == "scale_up_threshold must be greater than scale_down_threshold"@,
        error matches ConfigError::ScheduleTime(at) ==> text@ == "invalid schedule time '"@ + at@
            + "', expected HH:MM"@,
{
}

} // verus!
