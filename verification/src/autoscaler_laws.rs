//! What holds of the control loop as a whole.

use crate::autoscaler::{Autoscaler, ScaleDown, TickPlan, SECOND_NS};
use crate::metrics::RegistryView;
use crate::orchestrator::Instance;
use crate::real64::Real64;
use crate::scaling::ScaleAction;
use vstd::prelude::*;

verus! {

/// Catching up to the floor does not wait for the cooldown, nor for a reading.
pub proof fn law_catching_up_bypasses_cooldown(
    autoscaler: Autoscaler,
    current: u32,
    reading: Option<Real64>,
    now_minutes: u32,
    now: u128,
)
    requires
        current < autoscaler.scaling.required_at(now_minutes),
    ensures
        autoscaler.tick_action(current, reading, now_minutes, now) == ScaleAction::Up,
{
}

/// Once the floor is reached, nothing happens within `cooldown_secs` after a
/// change, in either direction and whatever the reading.
pub proof fn law_no_flapping(
    autoscaler: Autoscaler,
    current: u32,
    reading: Option<Real64>,
    now_minutes: u32,
    last: u128,
    now: u128,
)
    requires
        current >= autoscaler.scaling.required_at(now_minutes),
        autoscaler.last_scale_ns == Some(last),
        now - last < autoscaler.scaling.cooldown_secs * SECOND_NS,
        autoscaler.scaling.cooldown_secs > 0,
    ensures
        autoscaler.tick_action(current, reading, now_minutes, now) == ScaleAction::Hold,
{
}

/// After the cooldown, and once the floor is reached, a tick decides by the
/// reading alone.
pub proof fn law_reactive_after_cooldown(
    autoscaler: Autoscaler,
    current: u32,
    reading: Option<Real64>,
    now_minutes: u32,
    now: u128,
)
    requires
        current >= autoscaler.scaling.required_at(now_minutes),
        autoscaler.cooled_down(now),
    ensures
        autoscaler.tick_action(current, reading, now_minutes, now)
            == autoscaler.scaling.decision(
            current,
            reading,
            autoscaler.scaling.floor_at(now_minutes),
        ),
{
}

/// No cooldown is in effect until the first change, whatever is configured: a tick
/// does what the decision says.
pub proof fn law_no_cooldown_at_start(
    autoscaler: Autoscaler,
    current: u32,
    reading: Option<Real64>,
    now_minutes: u32,
    now: u128,
)
    requires
        autoscaler.last_scale_ns is None,
    ensures
        autoscaler.cooled_down(now),
        autoscaler.tick_action(current, reading, now_minutes, now)
            == autoscaler.scaling.decision(
            current,
            reading,
            autoscaler.scaling.floor_at(now_minutes),
        ),
{
}

/// Whether no two backends have the same container id.
pub open spec fn distinct(backends: Seq<Instance>) -> bool {
    forall|i: int, j: int|
        0 <= i < j < backends.len() ==> (#[trigger] backends[i]).container_id@ != (
        #[trigger] backends[j]).container_id@
}

/// Removing an instance removes that one and no other: the rest stays, in its
/// order, and stays distinct.
pub proof fn law_scale_down_removes_one(
    backends: Seq<Instance>,
    metrics: RegistryView,
    down: ScaleDown,
)
    requires
        distinct(backends),
        down.spares_busy(backends, metrics),
    ensures
        backends.contains(down.victim),
        exists|i: int|
            0 <= i < backends.len() && backends[i] == down.victim && down.remaining@
                == #[trigger] backends.remove(i),
        down.remaining@.len() == backends.len() - 1,
        distinct(down.remaining@),
{
    let i: int = choose|i: int| #[trigger]
        crate::autoscaler::least_active(backends, metrics, i) && down.victim == backends[i];
    lemma_without_one(backends, i);
    assert(down.remaining@ == backends.remove(i));
    assert forall|a: int, b: int| 0 <= a < b < down.remaining@.len() implies (
    #[trigger] down.remaining@[a]).container_id@ != (#[trigger] down.remaining@[b]).container_id@ by {
        let x: int = if a < i { a } else { a + 1 };
        let y: int = if b < i { b } else { b + 1 };
        assert(down.remaining@[a] == backends[x]);
        assert(down.remaining@[b] == backends[y]);
    }
}

/// Filtering out the id of one backend among distinct ones takes out its place.
proof fn lemma_without_one(backends: Seq<Instance>, i: int)
    requires
        distinct(backends),
        0 <= i < backends.len(),
    ensures
        crate::autoscaler::without(backends, backends[i].container_id@) == backends.remove(i),
    decreases backends.len(),
{
    let id: Seq<char> = backends[i].container_id@;
    let before: Seq<Instance> = backends.drop_last();
    reveal(Seq::filter);
    if i == backends.len() - 1 {
        lemma_without_none(before, id);
        assert(backends.remove(i) =~= before);
    } else {
        assert(before[i] == backends[i]);
        assert(distinct(before)) by {
            assert forall|a: int, b: int| 0 <= a < b < before.len() implies (
            #[trigger] before[a]).container_id@ != (#[trigger] before[b]).container_id@ by {
                assert(before[a] == backends[a] && before[b] == backends[b]);
            }
        }
        lemma_without_one(before, i);
        assert(backends[i].container_id@ != backends[backends.len() - 1].container_id@);
        assert(backends.remove(i) =~= before.remove(i).push(backends.last()));
    }
}

/// Filtering out an id that no backend has changes nothing.
proof fn lemma_without_none(backends: Seq<Instance>, id: Seq<char>)
    requires
        forall|j: int| 0 <= j < backends.len() ==> (#[trigger] backends[j]).container_id@ != id,
    ensures
        crate::autoscaler::without(backends, id) == backends,
    decreases backends.len(),
{
    reveal(Seq::filter);
    if backends.len() > 0 {
        let before: Seq<Instance> = backends.drop_last();
        assert forall|j: int| 0 <= j < before.len() implies (#[trigger] before[j]).container_id@
            != id by {
            assert(before[j] == backends[j]);
        }
        lemma_without_none(before, id);
        assert(backends[backends.len() - 1].container_id@ != id);
        assert(backends =~= before.push(backends.last()));
    } else {
        assert(crate::autoscaler::without(backends, id) =~= backends);
    }
}

/// A pool at or above the floor stays there: what remains after a tick that
/// removes an instance is still at least the floor.
pub proof fn law_pool_stays_above_floor(
    autoscaler: Autoscaler,
    backends: Seq<Instance>,
    metrics: RegistryView,
    reading: Option<Real64>,
    now_minutes: u32,
    now: u128,
    plan: TickPlan,
)
    requires
        distinct(backends),
        backends.len() <= u32::MAX,
        plan.carries_out(
            autoscaler.tick_action(
                crate::autoscaler::counted(backends),
                reading,
                now_minutes,
                now,
            ),
            backends,
            metrics,
        ),
    ensures
        plan matches TickPlan::Shrink(down) ==> down.remaining@.len()
            >= autoscaler.scaling.required_at(now_minutes),
        backends.len() < autoscaler.scaling.required_at(now_minutes) ==> plan is Grow,
{
    if let TickPlan::Shrink(down) = plan {
        law_scale_down_removes_one(backends, metrics, down);
    }
}

/// A pool grows by a tick only up to `max_instances`, or to the floor where that
/// is higher.
pub proof fn law_pool_stays_below_maximum(
    autoscaler: Autoscaler,
    backends: Seq<Instance>,
    metrics: RegistryView,
    reading: Option<Real64>,
    now_minutes: u32,
    now: u128,
    plan: TickPlan,
)
    requires
        backends.len() <= u32::MAX,
        plan.carries_out(
            autoscaler.tick_action(
                crate::autoscaler::counted(backends),
                reading,
                now_minutes,
                now,
            ),
            backends,
            metrics,
        ),
    ensures
        plan is Grow ==> backends.len() + 1 <= autoscaler.scaling.max_instances || backends.len()
            + 1 <= autoscaler.scaling.required_at(now_minutes),
{
}

/// Whether the metrics cover the backends of the pool and nothing else.
pub open spec fn covers(metrics: RegistryView, backends: Seq<Instance>) -> bool {
    forall|id: Seq<char>| #[trigger]
        metrics.backends.contains_key(id) <==> exists|i: int|
            0 <= i < backends.len() && (#[trigger] backends[i]).container_id@ == id
}

/// The metrics follow the pool as it grows.
pub proof fn law_metrics_follow_growth(
    metrics: RegistryView,
    backends: Seq<Instance>,
    instance: Instance,
)
    requires
        covers(metrics, backends),
    ensures
        covers(metrics.with_added(instance.container_id@), backends.push(instance)),
{
    let grown: Seq<Instance> = backends.push(instance);
    let after: RegistryView = metrics.with_added(instance.container_id@);
    assert forall|id: Seq<char>| #[trigger] after.backends.contains_key(id) <==> exists|i: int|
        0 <= i < grown.len() && (#[trigger] grown[i]).container_id@ == id by {
        if after.backends.contains_key(id) {
            if metrics.backends.contains_key(id) {
                let i: int = choose|i: int|
                    0 <= i < backends.len() && (#[trigger] backends[i]).container_id@ == id;
                assert(grown[i].container_id@ == id);
            } else {
                assert(grown[backends.len() as int].container_id@ == id);
            }
        }
        if exists|i: int| 0 <= i < grown.len() && (#[trigger] grown[i]).container_id@ == id {
            let i: int = choose|i: int|
                0 <= i < grown.len() && (#[trigger] grown[i]).container_id@ == id;
            if i < backends.len() {
                assert(backends[i].container_id@ == id);
                assert(metrics.backends.contains_key(id));
            }
        }
    }
}

/// The metrics follow the pool as it shrinks.
pub proof fn law_metrics_follow_shrinkage(
    metrics: RegistryView,
    backends: Seq<Instance>,
    down: ScaleDown,
)
    requires
        covers(metrics, backends),
        down.remaining@ == crate::autoscaler::without(backends, down.victim.container_id@),
    ensures
        covers(metrics.with_removed(down.victim.container_id@), down.remaining@),
{
    let gone: Seq<char> = down.victim.container_id@;
    let stays = crate::autoscaler::other_than(gone);
    let left: Seq<Instance> = down.remaining@;
    let after: RegistryView = metrics.with_removed(gone);
    assert forall|id: Seq<char>| #[trigger] after.backends.contains_key(id) <==> exists|i: int|
        0 <= i < left.len() && (#[trigger] left[i]).container_id@ == id by {
        if after.backends.contains_key(id) {
            assert(metrics.backends.contains_key(id));
            let i: int = choose|i: int|
                0 <= i < backends.len() && (#[trigger] backends[i]).container_id@ == id;
            assert(stays(backends[i]));
            backends.lemma_filter_contains(stays, i);
            let k: int = choose|k: int| 0 <= k < left.len() && left[k] == backends[i];
            assert(left[k].container_id@ == id);
        }
        if exists|i: int| 0 <= i < left.len() && (#[trigger] left[i]).container_id@ == id {
            let k: int = choose|k: int|
                0 <= k < left.len() && (#[trigger] left[k]).container_id@ == id;
            backends.lemma_filter_pred(stays, k);
            assert(left.contains(left[k]));
            backends.lemma_filter_contains_rev(stays, left[k]);
            let i: int = choose|i: int| 0 <= i < backends.len() && backends[i] == left[k];
            assert(backends[i].container_id@ == id);
            assert(metrics.backends.contains_key(id));
        }
    }
}

/// Which floor a service has at a time: that of its schedule, and `min_instances`
/// without one or with an empty one; and never fewer instances than `min_instances`
/// must be running.
pub proof fn law_floor_of_a_service(scaling: crate::config::ScalingConfig, now_minutes: u32)
    ensures
        scaling.schedule is None ==> scaling.floor_at(now_minutes) == scaling.min_instances,
        scaling.schedule matches Some(schedule) ==> match crate::schedule::scheduled_floor(
            schedule.entries@,
            now_minutes,
        ) {
            Some(floor) => scaling.floor_at(now_minutes) == floor,
            None => scaling.floor_at(now_minutes) == scaling.min_instances,
        },
        scaling.required_at(now_minutes) >= scaling.floor_at(now_minutes),
        scaling.required_at(now_minutes) >= scaling.min_instances,
        scaling.required_at(now_minutes) == scaling.floor_at(now_minutes)
            || scaling.required_at(now_minutes) == scaling.min_instances,
{
}

/// Backends are counted one by one, as far as 32 bits go.
pub proof fn law_backends_are_counted(backends: Seq<Instance>)
    requires
        backends.len() <= u32::MAX,
    ensures
        crate::autoscaler::counted(backends) == backends.len(),
{
}

/// When a cooldown is in effect: while less than `cooldown_secs` seconds have passed
/// since the last change, and not before the first one.
pub proof fn law_when_cooling_down(autoscaler: Autoscaler, last: u128, now: u128)
    ensures
        autoscaler.last_scale_ns is None ==> autoscaler.cooled_down(now),
        autoscaler.last_scale_ns == Some(last) && now >= last ==> (autoscaler.cooled_down(now)
            <==> now - last >= autoscaler.scaling.cooldown_secs * 1_000_000_000),
        autoscaler.last_scale_ns == Some(last) && now < last ==> (autoscaler.cooled_down(now)
            <==> autoscaler.scaling.cooldown_secs == 0),
{
}

/// What a tick decides. An instance is added if there are fewer than the floor or
/// than `min_instances`, or if no cooldown is in effect, the reading lies above the
/// upper threshold and there are fewer than `max_instances`. One is removed if no
/// cooldown is in effect, there are more than the floor and than `min_instances`, the
/// reading lies below the lower threshold, and it does not call for one more. Nothing
/// happens otherwise. `floor` is the one in effect.
pub proof fn law_what_ticks_decide(
    autoscaler: &Autoscaler,
    current: u32,
    reading: Option<Real64>,
    now_minutes: u32,
    now: u128,
    action: ScaleAction,
    floor: u32,
)
    requires
        call_ensures(
            Autoscaler::decide,
            (autoscaler, current, reading, now_minutes, now),
            action,
        ),
        floor == autoscaler.scaling.floor_at(now_minutes),
    ensures
        action == ScaleAction::Up <==> {
            ||| current < floor
            ||| current < autoscaler.scaling.min_instances
            ||| autoscaler.cooled_down(now) && reading is Some && reading->Some_0.exceeds(
                autoscaler.scaling.scale_up_threshold,
            ) && current < autoscaler.scaling.max_instances
        },
        action == ScaleAction::Down <==> {
            &&& autoscaler.cooled_down(now)
            &&& current > floor
            &&& current > autoscaler.scaling.min_instances
            &&& reading is Some
            &&& autoscaler.scaling.scale_down_threshold.exceeds(reading->Some_0)
            &&& !(reading->Some_0.exceeds(autoscaler.scaling.scale_up_threshold) && current
                < autoscaler.scaling.max_instances)
        },
        action == autoscaler.tick_action(current, reading, now_minutes, now),
{
}

/// What a tick does: it spawns an instance when it decides to add one, stops one when
/// it decides to remove one, and does neither otherwise, by the number of backends in
/// the pool and the reading of the configured metric.
pub proof fn law_what_ticks_do(
    autoscaler: &Autoscaler,
    pool: &crate::proxy::BackendPool,
    metrics: &crate::metrics::MetricsRegistry,
    now_minutes: u32,
    now: u128,
    plan: TickPlan,
    floor: u32,
) -> (reading: Option<Real64>)
    requires
        call_ensures(Autoscaler::tick, (autoscaler, pool, metrics, now_minutes, now), plan),
        pool@.len() <= u32::MAX,
        floor == autoscaler.scaling.floor_at(now_minutes),
    ensures
        metrics@.is_reading(autoscaler.scaling.metric, now, reading),
        plan is Grow <==> {
            ||| pool@.len() < floor
            ||| pool@.len() < autoscaler.scaling.min_instances
            ||| autoscaler.cooled_down(now) && reading is Some && reading->Some_0.exceeds(
                autoscaler.scaling.scale_up_threshold,
            ) && pool@.len() < autoscaler.scaling.max_instances
        },
        plan is Shrink <==> {
            &&& autoscaler.cooled_down(now)
            &&& pool@.len() > floor
            &&& pool@.len() > autoscaler.scaling.min_instances
            &&& reading is Some
            &&& autoscaler.scaling.scale_down_threshold.exceeds(reading->Some_0)
            &&& !(reading->Some_0.exceeds(autoscaler.scaling.scale_up_threshold) && pool@.len()
                < autoscaler.scaling.max_instances)
        },
        plan matches TickPlan::Shrink(down) ==> down.spares_busy(pool@, metrics@),
{
    choose|reading: Option<Real64>|
        {
            &&& #[trigger] metrics@.is_reading(autoscaler.scaling.metric, now, reading)
            &&& plan.carries_out(
                autoscaler.tick_action(
                    crate::autoscaler::counted(pool@),
                    reading,
                    now_minutes,
                    now,
                ),
                pool@,
                metrics@,
            )
        }
}

/// Who goes: a backend that has no more in flight than any other, and less than every
/// one before it; and all backends with another id remain, in their order.
pub proof fn law_who_goes(backends: Seq<Instance>, metrics: RegistryView, down: ScaleDown) -> (place:
    int)
    requires
        down.spares_busy(backends, metrics),
    ensures
        0 <= place < backends.len(),
        backends[place] == down.victim,
        forall|i: int|
            0 <= i < backends.len() ==> metrics.active_at(down.victim.container_id@)
                <= metrics.active_at((#[trigger] backends[i]).container_id@),
        forall|i: int|
            0 <= i < place ==> metrics.active_at(down.victim.container_id@) < metrics.active_at(
                (#[trigger] backends[i]).container_id@,
            ),
        down.remaining@ == backends.filter(
            |backend: Instance| backend.container_id@ != down.victim.container_id@,
        ),
{
    assert(crate::autoscaler::other_than(down.victim.container_id@) =~= (|backend: Instance|
        backend.container_id@ != down.victim.container_id@));
    choose|i: int| #[trigger]
        crate::autoscaler::least_active(backends, metrics, i) && down.victim == backends[i]
}

/// Whoever is chosen to go is chosen like that, and somebody is as long as there are
/// backends.
pub proof fn law_somebody_is_chosen(
    backends: Vec<Instance>,
    metrics: &crate::metrics::MetricsRegistry,
    down: Option<ScaleDown>,
)
    requires
        call_ensures(crate::autoscaler::choose_victim, (&backends, metrics), down),
    ensures
        down is None <==> backends@.len() == 0,
        down matches Some(down) ==> down.spares_busy(backends@, metrics@),
{
}

/// The time of day in minutes: sixty for every hour, and the minutes.
pub proof fn law_minutes_of_day(hour: u32, minute: u32, minutes: u32)
    requires
        hour < 24,
        minute < 60,
        call_ensures(crate::autoscaler::minutes_of_day, (hour, minute), minutes),
    ensures
        minutes == hour * 60 + minute,
{
}

/// A new autoscaler runs the service by the rules that it is given, and has changed
/// nothing yet.
pub proof fn law_what_an_autoscaler_begins_with(
    service: crate::config::ServiceMeta,
    scaling: crate::config::ScalingConfig,
    autoscaler: Autoscaler,
)
    requires
        call_ensures(Autoscaler::new, (service, scaling), autoscaler),
    ensures
        autoscaler.service == service,
        autoscaler.scaling == scaling,
        autoscaler.last_scale_ns is None,
{
}

/// A spawned instance has its metrics join, and is given ten checks.
pub proof fn law_how_growth_begins(
    autoscaler: &Autoscaler,
    instance: Instance,
    metrics: &mut crate::metrics::MetricsRegistry,
    up: crate::autoscaler::ScaleUp,
)
    requires
        call_ensures(Autoscaler::begin_scale_up, (autoscaler, instance, metrics), up),
    ensures
        up.instance == instance,
        up.wait@.step == crate::health::WaitStep::Check,
        up.wait@.left == Some(10nat),
        final(metrics)@ == old(metrics)@.with_added(instance.container_id@),
{
}

/// An instance that has been waited for joins the pool behind the others, and the
/// cooldown begins.
pub proof fn law_how_growth_ends(
    autoscaler: &mut Autoscaler,
    up: crate::autoscaler::ScaleUp,
    pool: &mut crate::proxy::BackendPool,
    now: u128,
    replicas: usize,
)
    requires
        call_ensures(Autoscaler::finish_scale_up, (autoscaler, up, pool, now), replicas),
    ensures
        final(pool)@ == old(pool)@.push(up.instance),
        replicas == old(pool)@.len() + 1,
        final(autoscaler).last_scale_ns == Some(now),
        final(autoscaler).scaling == old(autoscaler).scaling,
        final(autoscaler).service == old(autoscaler).service,
{
}

/// An instance that has been stopped leaves the pool and the metrics, and the cooldown
/// begins.
pub proof fn law_how_shrinkage_ends(
    autoscaler: &mut Autoscaler,
    down: ScaleDown,
    pool: &mut crate::proxy::BackendPool,
    metrics: &mut crate::metrics::MetricsRegistry,
    now: u128,
    replicas: usize,
)
    requires
        call_ensures(
            Autoscaler::finish_scale_down,
            (autoscaler, down, pool, metrics, now),
            replicas,
        ),
    ensures
        final(pool)@ == down.remaining@,
        replicas == down.remaining@.len(),
        final(metrics)@ == old(metrics)@.with_removed(down.victim.container_id@),
        final(autoscaler).last_scale_ns == Some(now),
        final(autoscaler).scaling == old(autoscaler).scaling,
        final(autoscaler).service == old(autoscaler).service,
{
}

} // verus!
