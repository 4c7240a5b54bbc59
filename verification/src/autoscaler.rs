//! The control loop's decisions: every tick it looks at the schedule floor and
//! the live reading, and says whether an instance is added, removed, or neither.
//!
//! Adding and removing take time and can fail. [`ScaleUp`] and [`ScaleDown`] hold
//! what is under way; the pool changes only when it is complete.

use crate::config::{ScalingConfig, ServiceMeta};
use crate::health::{HealthWait, SCALE_UP_CHECKS};
use crate::metrics::MetricsRegistry;
use crate::orchestrator::Instance;
use crate::proxy::BackendPool;
use crate::real64::Real64;
use crate::scaling::{decide_scale_action, ScaleAction};
use crate::schedule::current_scheduled_floor;
use chrono::Timelike;
use vstd::prelude::*;

verus! {

/// How often the control loop runs, in seconds.
pub const TICK_INTERVAL_SECS: u64 = 5;

/// Nanoseconds in a second.
pub const SECOND_NS: u128 = 1_000_000_000;

/// `chrono::Local::now`, read off with `Timelike::hour` and `Timelike::minute`:
/// the time of day by the local clock, which has 24 hours of 60 minutes. Which
/// time it is, is up to the machine. Its clock is expected not to stand before
/// 1970, and its time zone to name a local time less than a day from UTC.
#[verifier::external_body]
fn local_hour_and_minute() -> (time: (u32, u32))
    ensures
        time.0 < 24,
        time.1 < 60,
{
    let now = chrono::Local::now();
    (now.hour(), now.minute())
}

/// Minutes since midnight.
pub fn minutes_of_day(hour: u32, minute: u32) -> (minutes: u32)
    requires
        hour * 60 + minute <= u32::MAX,
    ensures
        minutes == hour * 60 + minute,
{
    hour * 60 + minute
}

/// The current local time, in minutes since midnight.
pub fn local_now_minutes() -> (minutes: u32)
    ensures
        minutes < crate::schedule::DAY_MINUTES,
{
    let (hour, minute) = local_hour_and_minute();
    minutes_of_day(hour, minute)
}

impl ScalingConfig {
    /// The floor in effect at minute `now`: the scheduled one, or `min_instances`
    /// without a schedule.
    pub open spec fn floor_at(self, now: u32) -> u32 {
        match self.schedule {
            Some(schedule) => match crate::schedule::scheduled_floor(schedule.entries@, now) {
                Some(floor) => floor,
                None => self.min_instances,
            },
            None => self.min_instances,
        }
    }

    /// The number of instances that must be running at minute `now`.
    pub open spec fn required_at(self, now: u32) -> u32 {
        self.effective_floor(self.floor_at(now))
    }
}

/// The number of backends as the decision counts them: in 32 bits.
pub open spec fn counted(backends: Seq<Instance>) -> u32 {
    (backends.len() % 0x1_0000_0000) as u32
}

/// The autoscaler of one service.
#[derive(Debug)]
pub struct Autoscaler {
    /// What a new instance runs.
    pub service: ServiceMeta,
    /// When to add and when to remove instances.
    pub scaling: ScalingConfig,
    /// When the number of instances last changed, by the steady clock; `None`
    /// before the first change. Guards against scaling more than once per `cooldown_secs`, in either direction:
    /// this is what stops the classic "scale up, latency drops, scale down
    /// immediately, latency spikes again" flapping loop.
    pub last_scale_ns: Option<u128>,
}

impl Autoscaler {
    /// Whether no cooldown is in effect at `now`: nothing has changed yet, or the
    /// last change lies at least `cooldown_secs` back. A clock that has run
    /// backwards counts as standing still.
    pub open spec fn cooled_down(self, now: u128) -> bool {
        match self.last_scale_ns {
            Some(last) => {
                ||| now - last >= self.scaling.cooldown_secs * SECOND_NS
                ||| self.scaling.cooldown_secs == 0
            },
            None => true,
        }
    }

    /// What a tick decides. Catching up to the floor always bypasses the
    /// cooldown: waiting it out would defeat the point of scheduling.
    pub open spec fn tick_action(
        self,
        current: u32,
        reading: Option<Real64>,
        now_minutes: u32,
        now: u128,
    ) -> ScaleAction {
        if current < self.scaling.required_at(now_minutes) {
            ScaleAction::Up
        } else if !self.cooled_down(now) {
            ScaleAction::Hold
        } else {
            self.scaling.decision(current, reading, self.scaling.floor_at(now_minutes))
        }
    }

    /// A new autoscaler. No cooldown is in effect at first, so a schedule floor can
    /// be caught up to immediately on startup rather than waiting.
    pub fn new(service: ServiceMeta, scaling: ScalingConfig) -> (autoscaler: Autoscaler)
        ensures
            autoscaler.service == service,
            autoscaler.scaling == scaling,
            autoscaler.last_scale_ns is None,
    {
        Autoscaler { service, scaling, last_scale_ns: None }
    }

    /// The floor in effect at minute `now_minutes`.
    fn floor(&self, now_minutes: u32) -> (floor: u32)
        ensures
            floor == self.scaling.floor_at(now_minutes),
    {
        match &self.scaling.schedule {
            Some(schedule) => match current_scheduled_floor(schedule, now_minutes) {
                Some(floor) => floor,
                None => self.scaling.min_instances,
            },
            None => self.scaling.min_instances,
        }
    }

    /// Whether no cooldown is in effect at `now_ns`.
    fn is_cooled_down(&self, now_ns: u128) -> (cooled: bool)
        ensures
            cooled == self.cooled_down(now_ns),
    {
        match self.last_scale_ns {
            Some(last) => {
                let elapsed: u128 = if now_ns >= last { now_ns - last } else { 0 };
                elapsed >= self.scaling.cooldown_secs as u128 * SECOND_NS
            },
            None => true,
        }
    }

    /// Decides what a tick does, given the number of backends, the reading and
    /// the time.
    pub fn decide(
        &self,
        current: u32,
        metric_value: Option<Real64>,
        now_minutes: u32,
        now_ns: u128,
    ) -> (action: ScaleAction)
        ensures
            action == self.tick_action(current, metric_value, now_minutes, now_ns),
    {
        let floor: u32 = self.floor(now_minutes);
        let required: u32 = if floor >= self.scaling.min_instances {
            floor
        } else {
            self.scaling.min_instances
        };
        if current < required {
            ScaleAction::Up
        } else if !self.is_cooled_down(now_ns) {
            ScaleAction::Hold
        } else {
            decide_scale_action(current, metric_value, floor, &self.scaling)
        }
    }

    /// One tick: reads the metrics, decides, and, when an instance has to go,
    /// chooses which.
    pub fn tick(
        &self,
        pool: &BackendPool,
        metrics: &MetricsRegistry,
        now_minutes: u32,
        now_ns: u128,
    ) -> (plan: TickPlan)
        ensures
            exists|reading: Option<Real64>|
                {
                    &&& #[trigger] metrics@.is_reading(self.scaling.metric, now_ns, reading)
                    &&& plan.carries_out(
                        self.tick_action(counted(pool@), reading, now_minutes, now_ns),
                        pool@,
                        metrics@,
                    )
                },
    {
        let backends: Vec<Instance> = pool.get();
        let current: u32 = (backends.len() as u64 % 0x1_0000_0000) as u32;
        let reading: Option<Real64> = metrics.value_for(self.scaling.metric, now_ns);
        assert(metrics@.is_reading(self.scaling.metric, now_ns, reading));
        match self.decide(current, reading, now_minutes, now_ns) {
            ScaleAction::Up => TickPlan::Grow,
            ScaleAction::Hold => TickPlan::Rest,
            ScaleAction::Down => match choose_victim(&backends, metrics) {
                Some(down) => TickPlan::Shrink(down),
                None => TickPlan::Rest,
            },
        }
    }

    /// Takes in a newly spawned instance: its metrics start, and it is given a
    /// short window to become healthy.
    pub fn begin_scale_up(&self, instance: Instance, metrics: &mut MetricsRegistry) -> (up: ScaleUp)
        ensures
            up.instance == instance,
            up.wait@ == crate::health::WaitView::begun(Some(SCALE_UP_CHECKS as nat)),
            final(metrics)@ == old(metrics)@.with_added(instance.container_id@),
    {
        metrics.track(instance.container_id.as_str());
        ScaleUp { instance, wait: HealthWait::new(SCALE_UP_CHECKS) }
    }

    /// Completes adding an instance once its wait is over, healthy or not: it joins
    /// the pool, and the cooldown begins. Returns the number of instances in the pool.
    pub fn finish_scale_up(&mut self, up: ScaleUp, pool: &mut BackendPool, now_ns: u128) -> (replicas:
        usize)
        requires
            up.wait@.is_over(),
        ensures
            final(pool)@ == old(pool)@.push(up.instance),
            replicas == final(pool)@.len(),
            final(self).last_scale_ns == Some(now_ns),
            final(self).service == old(self).service,
            final(self).scaling == old(self).scaling,
    {
        let mut current: Vec<Instance> = pool.get();
        current.push(up.instance);
        pool.set(current);
        self.last_scale_ns = Some(now_ns);
        pool.len()
    }

    /// Completes removing an instance that has been stopped: its metrics go, the
    /// pool is what remains, and the cooldown begins. Returns the number of
    /// instances in the pool.
    pub fn finish_scale_down(
        &mut self,
        down: ScaleDown,
        pool: &mut BackendPool,
        metrics: &mut MetricsRegistry,
        now_ns: u128,
    ) -> (replicas: usize)
        ensures
            final(pool)@ == down.remaining@,
            final(metrics)@ == old(metrics)@.with_removed(down.victim.container_id@),
            replicas == down.remaining@.len(),
            final(self).last_scale_ns == Some(now_ns),
            final(self).service == old(self).service,
            final(self).scaling == old(self).scaling,
    {
        metrics.untrack(down.victim.container_id.as_str());
        pool.set(down.remaining);
        self.last_scale_ns = Some(now_ns);
        pool.len()
    }
}

/// An instance that is being added: it runs, and is waited for.
#[derive(Debug)]
pub struct ScaleUp {
    pub instance: Instance,
    pub wait: HealthWait,
}

/// An instance that is being removed, and the backends without it.
#[derive(Debug)]
pub struct ScaleDown {
    pub victim: Instance,
    pub remaining: Vec<Instance>,
}

/// What a tick has decided.
#[derive(Debug)]
pub enum TickPlan {
    /// Spawn an instance.
    Grow,
    /// Stop this instance.
    Shrink(ScaleDown),
    /// Leave things as they are.
    Rest,
}

/// Whether backend `i` handles the fewest requests, and is the first to do so.
pub open spec fn least_active(
    backends: Seq<Instance>,
    metrics: crate::metrics::RegistryView,
    i: int,
) -> bool {
    &&& 0 <= i < backends.len()
    &&& forall|j: int|
        0 <= j < backends.len() ==> metrics.active_at(backends[i].container_id@)
            <= metrics.active_at((#[trigger] backends[j]).container_id@)
    &&& forall|j: int|
        0 <= j < i ==> metrics.active_at(backends[i].container_id@) < metrics.active_at(
            (#[trigger] backends[j]).container_id@,
        )
}

/// Having another id than the given one.
pub open spec fn other_than(id: Seq<char>) -> spec_fn(Instance) -> bool {
    |backend: Instance| backend.container_id@ != id
}

/// The backends without those that have a given id.
pub open spec fn without(backends: Seq<Instance>, id: Seq<char>) -> Seq<Instance> {
    backends.filter(other_than(id))
}

impl ScaleDown {
    /// Whether the victim is the backend that handles the fewest requests, and
    /// all others remain.
    pub open spec fn spares_busy(
        self,
        backends: Seq<Instance>,
        metrics: crate::metrics::RegistryView,
    ) -> bool {
        &&& exists|i: int| #[trigger]
            least_active(backends, metrics, i) && self.victim == backends[i]
        &&& self.remaining@ == without(backends, self.victim.container_id@)
    }
}

impl TickPlan {
    /// Whether the plan is what an action comes to.
    pub open spec fn carries_out(
        self,
        action: ScaleAction,
        backends: Seq<Instance>,
        metrics: crate::metrics::RegistryView,
    ) -> bool {
        match action {
            ScaleAction::Up => self is Grow,
            ScaleAction::Hold => self is Rest,
            ScaleAction::Down => self matches TickPlan::Shrink(down) && down.spares_busy(
                backends,
                metrics,
            ),
        }
    }
}

/// Chooses the instance to stop: whichever is currently handling the fewest
/// active requests, so that stopping it interrupts as few clients as possible.
pub fn choose_victim(backends: &Vec<Instance>, metrics: &MetricsRegistry) -> (down: Option<
    ScaleDown,
>)
    ensures
        down is None <==> backends@.len() == 0,
        down matches Some(down) ==> down.spares_busy(backends@, metrics@),
{
    if backends.len() == 0 {
        return None;
    }
    let mut best: usize = 0;
    let mut fewest: u64 = metrics.active_for(backends[0].container_id.as_str());
    let mut i: usize = 1;
    while i < backends.len()
        invariant
            best < i <= backends@.len(),
            fewest == metrics@.active_at(backends@[best as int].container_id@),
            forall|j: int|
                0 <= j < i ==> fewest <= metrics@.active_at(
                    (#[trigger] backends@[j]).container_id@,
                ),
            forall|j: int|
                0 <= j < best ==> fewest < metrics@.active_at(
                    (#[trigger] backends@[j]).container_id@,
                ),
        decreases backends@.len() - i,
    {
        let active: u64 = metrics.active_for(backends[i].container_id.as_str());
        if active < fewest {
            best = i;
            fewest = active;
        }
        i = i + 1;
    }
    assert(least_active(backends@, metrics@, best as int));
    let victim: Instance = backends[best].clone();
    let remaining: Vec<Instance> = remaining_without(backends, &victim.container_id);
    Some(ScaleDown { victim, remaining })
}

/// The backends that do not have a given id.
fn remaining_without(backends: &Vec<Instance>, id: &String) -> (remaining: Vec<Instance>)
    ensures
        remaining@ == without(backends@, id@),
{
    let mut remaining: Vec<Instance> = Vec::new();
    let mut i: usize = 0;
    proof {
        reveal(Seq::filter);
        assert(backends@.take(0) =~= Seq::<Instance>::empty());
    }
    while i < backends.len()
        invariant
            i <= backends@.len(),
            remaining@ == backends@.take(i as int).filter(other_than(id@)),
        decreases backends@.len() - i,
    {
        proof {
            reveal(Seq::filter);
            assert(backends@.take(i + 1).drop_last() =~= backends@.take(i as int));
        }
        if backends[i].container_id != *id {
            remaining.push(backends[i].clone());
        }
        i = i + 1;
    }
    assert(backends@.take(i as int) =~= backends@);
    remaining
}

} // verus!
