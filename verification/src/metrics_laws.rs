//! What holds of the metrics registry as a whole.

use crate::config::ScalingMetric;
use crate::metrics::{RegistryView, LATENCY_WINDOW, RPS_WINDOW_NS, RPS_WINDOW_SECS};
use crate::real64::Real64;
use crate::store::BackendView;
use vstd::prelude::*;

verus! {

/// A backend that joins starts at zero.
pub proof fn law_join_starts_at_zero(registry: RegistryView, id: Seq<char>)
    requires
        !registry.backends.contains_key(id),
    ensures
        registry.with_added(id).backends.contains_key(id),
        registry.with_added(id).active_at(id) == 0,
        registry.with_added(id).backends[id].latencies.len() == 0,
        registry.with_added(id).backends[id].times.len() == 0,
{
}

/// Joining twice is joining once: the figures of a backend are not reset.
pub proof fn law_join_twice(registry: RegistryView, id: Seq<char>)
    ensures
        registry.with_added(id).with_added(id) == registry.with_added(id),
{
}

/// Leaving undoes joining: no figures are left behind.
pub proof fn law_leave_undoes_join(registry: RegistryView, id: Seq<char>)
    requires
        !registry.backends.contains_key(id),
    ensures
        registry.with_added(id).with_removed(id).backends == registry.backends,
        registry.with_removed(id) == registry,
{
    assert(registry.with_added(id).with_removed(id).backends =~= registry.backends);
    assert(registry.with_removed(id) =~= registry);
}

/// The end of a request undoes its start; that there has been traffic is all that
/// is left of it.
pub proof fn law_end_undoes_begin(registry: RegistryView, id: Seq<char>)
    ensures
        registry.begun(id).ended(registry.guard_target(id)) == registry.noted(id),
{
    assert(registry.begun(id).ended(registry.guard_target(id)) =~= registry.noted(id));
}

/// Requests of one backend may end in any order, and before or after requests
/// of other backends.
pub proof fn law_ends_commute(registry: RegistryView, a: Seq<char>, b: Seq<char>)
    ensures
        registry.begun(a).begun(b).ended(registry.guard_target(a)) == registry.begun(b).noted(a),
        registry.begun(a).begun(b).ended(registry.guard_target(b)) == registry.begun(a).noted(b),
{
    assert(registry.begun(a).begun(b).ended(registry.guard_target(a)) =~= registry.begun(b).noted(
        a,
    ));
    assert(registry.begun(a).begun(b).ended(registry.guard_target(b)) =~= registry.begun(a).noted(
        b,
    ));
}

/// Whether every registration in a registry has a number below the next one.
pub open spec fn numbered(registry: RegistryView) -> bool {
    forall|id: Seq<char>| #[trigger]
        registry.backends.contains_key(id) ==> registry.backends[id].registration
            < registry.next_registration
}

/// Whether `later` can come from `registry`: registrations are numbered, and a
/// backend has the registration that it had, or a later one.
pub open spec fn continues(registry: RegistryView, later: RegistryView) -> bool {
    &&& numbered(later)
    &&& registry.next_registration <= later.next_registration
    &&& forall|id: Seq<char>| #[trigger]
        later.backends.contains_key(id) ==> {
            ||| registry.backends.contains_key(id) && later.backends[id].registration
                == registry.backends[id].registration
            ||| later.backends[id].registration >= registry.next_registration
        }
}

/// Every operation keeps registrations numbered, keeps the numbers of the
/// registrations that there are, and never reuses one, as long as numbers last.
pub proof fn law_numbering_is_kept(
    registry: RegistryView,
    id: Seq<char>,
    target: crate::metrics::GuardTarget,
    latency: u64,
    now: u128,
)
    requires
        numbered(registry),
    ensures
        registry.next_registration < u64::MAX ==> continues(registry, registry.with_added(id)),
        continues(registry, registry.with_removed(id)),
        continues(registry, registry.begun(id)),
        continues(registry, registry.ended(target)),
        continues(registry, registry.recorded(id, latency, now)),
{
}

/// What comes from what came from a registry comes from that registry.
pub proof fn law_histories_join(first: RegistryView, second: RegistryView, third: RegistryView)
    requires
        continues(first, second),
        continues(second, third),
    ensures
        continues(first, third),
{
}

/// A guard never counts for a later registration: when a backend has left, the
/// end of a request to it changes nothing, whatever has happened since, and also
/// when it has joined again.
pub proof fn law_stale_guard_counts_for_nothing(
    registry: RegistryView,
    id: Seq<char>,
    later: RegistryView,
)
    requires
        numbered(registry),
        continues(registry.with_removed(id), later),
    ensures
        later.ended(registry.guard_target(id)) == later,
{
}

/// What happens at one backend leaves the figures of the others alone.
pub proof fn law_other_backends_untouched(
    registry: RegistryView,
    id: Seq<char>,
    registration: u64,
    latency: u64,
    now: u128,
    other: Seq<char>,
)
    requires
        other != id,
    ensures
        registry.with_added(id).backends.contains_key(other) == registry.backends.contains_key(
            other,
        ),
        registry.with_removed(id).backends.contains_key(other) == registry.backends.contains_key(
            other,
        ),
        registry.backends.contains_key(other) ==> {
            &&& registry.with_added(id).backends[other] == registry.backends[other]
            &&& registry.with_removed(id).backends[other] == registry.backends[other]
            &&& registry.begun(id).backends[other] == registry.backends[other]
            &&& registry.ended(Some((id, registration))).backends[other]
                == registry.backends[other]
            &&& registry.recorded(id, latency, now).backends[other] == registry.backends[other]
        },
{
}

/// A request that starts adds one to the requests in flight. Left out is a
/// backend whose count is already the largest number.
pub proof fn law_start_adds_one(registry: RegistryView, id: Seq<char>)
    requires
        registry.is_finite(),
        registry.backends.contains_key(id),
        registry.active_at(id) < usize::MAX,
    ensures
        registry.begun(id).active_at(id) == registry.active_at(id) + 1,
        registry.begun(id).active_total() == registry.active_total() + 1,
{
    let begun: RegistryView = registry.begun(id);
    let figure = crate::metrics::active_figure();
    crate::figures::lemma_total_without(registry.backends, figure, id);
    crate::figures::lemma_total_without(begun.backends, figure, id);
    assert(begun.backends.remove(id) =~= registry.backends.remove(id));
}

/// The end of a request takes one off the requests in flight.
pub proof fn law_end_takes_one_off(registry: RegistryView, id: Seq<char>)
    requires
        registry.is_finite(),
        registry.backends.contains_key(id),
        registry.active_at(id) > 0,
    ensures
        registry.ended(registry.guard_target(id)).active_at(id) == registry.active_at(id) - 1,
        registry.ended(registry.guard_target(id)).active_total() == registry.active_total() - 1,
{
    let ended: RegistryView = registry.ended(registry.guard_target(id));
    let figure = crate::metrics::active_figure();
    crate::figures::lemma_total_without(registry.backends, figure, id);
    crate::figures::lemma_total_without(ended.backends, figure, id);
    assert(ended.backends.remove(id) =~= registry.backends.remove(id));
}

/// The state of a registry has one reading at a time for each metric.
pub proof fn law_reading_is_unique(
    registry: RegistryView,
    metric: ScalingMetric,
    now: u128,
    a: Option<Real64>,
    b: Option<Real64>,
)
    requires
        registry.is_reading(metric, now, a),
        registry.is_reading(metric, now, b),
    ensures
        a == b,
{
    match metric {
        _ if !registry.requested => {},
        ScalingMetric::P95LatencyMs => {
            if a is Some && b is Some {
                let x: u64 = choose|sample: u64| #[trigger]
                    registry.is_p95(sample) && a->Some_0.is_count(sample as nat);
                let y: u64 = choose|sample: u64| #[trigger]
                    registry.is_p95(sample) && b->Some_0.is_count(sample as nat);
                law_p95_unique(registry, x, y);
                crate::real64::law_count_is_unique(a->Some_0, b->Some_0, x as nat);
            } else if a is Some {
                let x: u64 = choose|sample: u64| #[trigger]
                    registry.is_p95(sample) && a->Some_0.is_count(sample as nat);
                assert(registry.is_p95(x));
            } else if b is Some {
                let y: u64 = choose|sample: u64| #[trigger]
                    registry.is_p95(sample) && b->Some_0.is_count(sample as nat);
                assert(registry.is_p95(y));
            }
        },
        ScalingMetric::ActiveConnections => {
            crate::real64::law_count_is_unique(
                a->Some_0,
                b->Some_0,
                (registry.active_total() % 0x1_0000_0000_0000_0000) as nat,
            );
        },
        ScalingMetric::RequestsPerSecond => {
            crate::real64::law_quotient_is_unique(
                a->Some_0,
                b->Some_0,
                (registry.request_total(now) % 0x1_0000_0000_0000_0000) as nat,
                RPS_WINDOW_SECS as nat,
            );
        },
        ScalingMetric::Cpu => {},
    }
}

/// A registry is finite: one without backends is, and every operation keeps it so.
pub proof fn law_registry_stays_finite(
    registry: RegistryView,
    id: Seq<char>,
    target: crate::metrics::GuardTarget,
    latency: u64,
    now: u128,
)
    ensures
        registry.backends == Map::<Seq<char>, BackendView>::empty() ==> registry.is_finite(),
        registry.is_finite() ==> {
            &&& registry.with_added(id).is_finite()
            &&& registry.with_removed(id).is_finite()
            &&& registry.begun(id).is_finite()
            &&& registry.ended(target).is_finite()
            &&& registry.recorded(id, latency, now).is_finite()
        },
{
}

/// Without traffic there is no reading, whatever the metric: a registry starts
/// without, and backends that join or leave are no traffic.
pub proof fn law_no_reading_without_traffic(
    registry: RegistryView,
    id: Seq<char>,
    metric: ScalingMetric,
    now: u128,
    reading: Option<Real64>,
)
    requires
        !registry.requested,
    ensures
        registry.is_reading(metric, now, reading) <==> reading is None,
        !registry.with_added(id).requested,
        !registry.with_removed(id).requested,
{
}

/// A request to a registered backend is traffic, and traffic is never forgotten.
pub proof fn law_traffic_is_noticed(
    registry: RegistryView,
    id: Seq<char>,
    target: crate::metrics::GuardTarget,
    latency: u64,
    now: u128,
)
    ensures
        registry.backends.contains_key(id) ==> registry.begun(id).requested && registry.recorded(
            id,
            latency,
            now,
        ).requested,
        registry.requested ==> {
            &&& registry.with_added(id).requested
            &&& registry.with_removed(id).requested
            &&& registry.begun(id).requested
            &&& registry.ended(target).requested
            &&& registry.recorded(id, latency, now).requested
        },
{
}

/// Whether no backend holds more latency samples than the window allows.
pub open spec fn windows_bounded(registry: RegistryView) -> bool {
    forall|id: Seq<char>| #[trigger]
        registry.backends.contains_key(id) ==> registry.backends[id].latencies.len()
            <= LATENCY_WINDOW
}

/// No backend ever holds more latency samples than the window allows: every
/// operation keeps it so, and a registry without backends starts so.
pub proof fn law_windows_stay_bounded(
    registry: RegistryView,
    id: Seq<char>,
    target: crate::metrics::GuardTarget,
    latency: u64,
    now: u128,
)
    requires
        windows_bounded(registry),
    ensures
        windows_bounded(registry.with_added(id)),
        windows_bounded(registry.with_removed(id)),
        windows_bounded(registry.begun(id)),
        windows_bounded(registry.ended(target)),
        windows_bounded(registry.recorded(id, latency, now)),
{
}

/// The window holds the most recent samples: the newest one is always among
/// them, and what it displaces is the oldest.
pub proof fn law_window_keeps_most_recent(latencies: Seq<u64>, latency: u64)
    requires
        latencies.len() <= LATENCY_WINDOW,
    ensures
        ({
            let kept = crate::metrics::with_latency(latencies, latency);
            let all = latencies.push(latency);
            &&& kept.last() == latency
            &&& kept == all.skip(all.len() - kept.len())
            &&& kept.len() == if latencies.len() < LATENCY_WINDOW {
                latencies.len() + 1
            } else {
                LATENCY_WINDOW as nat
            }
        }),
{
    let all: Seq<u64> = latencies.push(latency);
    assert(all.skip(0) =~= all);
}

/// Whether request times are in order, and none lies after `now`.
pub open spec fn in_order(times: Seq<u128>, now: u128) -> bool {
    &&& forall|i: int, j: int| 0 <= i <= j < times.len() ==> times[i] <= times[j]
    &&& forall|i: int| 0 <= i < times.len() ==> #[trigger] times[i] <= now
}

/// Right after a request at `now`, a backend remembers exactly the requests of
/// the window before `now`, that one included, and in their order, provided that
/// its clock never ran backwards.
pub proof fn law_remembered_requests_lie_in_window(figures: BackendView, latency: u64, now: u128)
    requires
        in_order(figures.times, now),
    ensures
        ({
            let all = figures.times.push(now);
            let kept = figures.with_request(latency, now).times;
            let dropped = all.len() - kept.len();
            &&& 0 <= dropped
            &&& kept == all.skip(dropped)
            &&& kept.last() == now
            &&& in_order(kept, now)
            &&& forall|i: int|
                dropped <= i < all.len() ==> now - #[trigger] all[i] <= RPS_WINDOW_NS
            &&& forall|i: int| 0 <= i < dropped ==> now - #[trigger] all[i] > RPS_WINDOW_NS
        }),
{
    let all: Seq<u128> = figures.times.push(now);
    lemma_trimmed(all, now);
    let kept: Seq<u128> = crate::metrics::trimmed(all, now);
    let dropped: int = all.len() - kept.len();
    assert(all[all.len() - 1] == now);
    assert(dropped < all.len());
    assert(kept.last() == all[all.len() - 1]);
}

/// Trimming drops the times before the window, and no others.
proof fn lemma_trimmed(times: Seq<u128>, now: u128)
    requires
        in_order(times, now),
    ensures
        ({
            let kept = crate::metrics::trimmed(times, now);
            let dropped = times.len() - kept.len();
            &&& 0 <= dropped
            &&& kept == times.skip(dropped)
            &&& forall|i: int|
                dropped <= i < times.len() ==> now - #[trigger] times[i] <= RPS_WINDOW_NS
            &&& forall|i: int| 0 <= i < dropped ==> now - #[trigger] times[i] > RPS_WINDOW_NS
        }),
    decreases times.len(),
{
    if times.len() > 0 && now - times[0] > RPS_WINDOW_NS {
        let rest: Seq<u128> = times.skip(1);
        lemma_trimmed(rest, now);
        let kept: Seq<u128> = crate::metrics::trimmed(rest, now);
        let dropped: int = times.len() - kept.len();
        assert(kept =~= times.skip(dropped)) by {
            assert(rest.skip(dropped - 1) =~= times.skip(dropped));
        }
        assert forall|i: int| dropped <= i < times.len() implies now - #[trigger] times[i]
            <= RPS_WINDOW_NS by {
            assert(rest[i - 1] == times[i]);
        }
        assert forall|i: int| 0 <= i < dropped implies now - #[trigger] times[i]
            > RPS_WINDOW_NS by {
            if i > 0 {
                assert(rest[i - 1] == times[i]);
            }
        }
    } else {
        assert(times.skip(0) =~= times);
    }
}

/// What a backend forgets when it answers a request at `now` counts for no rate
/// any more: at every later time the same number of requests lies in the window
/// as if nothing had been forgotten.
pub proof fn law_forgotten_requests_do_not_count(
    figures: BackendView,
    latency: u64,
    now: u128,
    later: u128,
)
    requires
        now <= later,
    ensures
        crate::metrics::recent(figures.with_request(latency, now).times, later)
            == crate::metrics::recent(figures.times.push(now), later),
{
    lemma_trimmed_recent(figures.times.push(now), now, later);
}

/// Whether a backend has answered nothing within the window before `now`.
pub open spec fn idle(figures: BackendView, now: u128) -> bool {
    forall|i: int|
        0 <= i < figures.times.len() ==> now - #[trigger] figures.times[i] > RPS_WINDOW_NS
}

/// The rate falls to zero once every backend has been idle for longer than the
/// window.
pub proof fn law_idle_backends_have_no_rate(registry: RegistryView, now: u128, number: Real64)
    requires
        forall|id: Seq<char>| #[trigger]
            registry.backends.contains_key(id) ==> idle(registry.backends[id], now),
        registry.is_rate_reading(now, number),
    ensures
        registry.request_total(now) == 0,
        number.value() == 0,
{
    lemma_idle_total(registry.backends, now);
    crate::real64::law_zero_quotient(number, RPS_WINDOW_SECS as nat);
}

proof fn lemma_idle_total(backends: Map<Seq<char>, BackendView>, now: u128)
    requires
        backends.dom().finite(),
        forall|id: Seq<char>| #[trigger]
            backends.contains_key(id) ==> idle(backends[id], now),
    ensures
        crate::figures::total(backends, crate::metrics::request_figure(now)) == 0,
    decreases backends.dom().len(),
{
    if backends.dom().len() > 0 {
        let id: Seq<char> = backends.dom().choose();
        assert(backends.dom().contains(id));
        assert(backends.contains_key(id));
        assert forall|other: Seq<char>| #[trigger]
            backends.remove(id).contains_key(other) implies idle(backends.remove(id)[other], now) by {
            assert(backends.contains_key(other));
        }
        lemma_idle_total(backends.remove(id), now);
        lemma_none_recent(backends[id].times, now);
    }
}

proof fn lemma_none_recent(times: Seq<u128>, now: u128)
    requires
        forall|i: int| 0 <= i < times.len() ==> now - #[trigger] times[i] > RPS_WINDOW_NS,
    ensures
        crate::metrics::recent(times, now) == 0,
    decreases times.len(),
{
    if times.len() > 0 {
        assert(times.last() == times[times.len() - 1]);
        assert forall|i: int| 0 <= i < times.drop_last().len() implies now
            - #[trigger] times.drop_last()[i] > RPS_WINDOW_NS by {
            assert(times.drop_last()[i] == times[i]);
        }
        lemma_none_recent(times.drop_last(), now);
    }
}

/// Trimming leaves the number of times in every later window alone.
proof fn lemma_trimmed_recent(times: Seq<u128>, now: u128, later: u128)
    requires
        now <= later,
    ensures
        crate::metrics::recent(crate::metrics::trimmed(times, now), later)
            == crate::metrics::recent(times, later),
    decreases times.len(),
{
    if times.len() > 0 && now - times[0] > RPS_WINDOW_NS {
        lemma_trimmed_recent(times.skip(1), now, later);
        lemma_recent_first(times, later);
    }
}

/// The first time can be counted first.
proof fn lemma_recent_first(times: Seq<u128>, now: u128)
    requires
        times.len() > 0,
    ensures
        crate::metrics::recent(times, now) == crate::metrics::recent(times.skip(1), now)
            + if now - times[0] <= RPS_WINDOW_NS {
            1nat
        } else {
            0
        },
    decreases times.len(),
{
    if times.len() > 1 {
        lemma_recent_first(times.drop_last(), now);
        assert(times.drop_last().skip(1) =~= times.skip(1).drop_last());
    } else {
        assert(times.drop_last() =~= times.skip(1));
        assert(times.skip(1).len() == 0);
    }
}

/// There is only one 95th percentile.
pub proof fn law_p95_unique(registry: RegistryView, a: u64, b: u64)
    requires
        registry.is_p95(a),
        registry.is_p95(b),
    ensures
        a == b,
{
    if a < b {
        lemma_more_below(registry.backends, a + 1, b as int);
    } else if b < a {
        lemma_more_below(registry.backends, b + 1, a as int);
    }
}

/// The 95th percentile is one of the samples.
pub proof fn law_p95_is_a_sample(registry: RegistryView, latency: u64)
    requires
        registry.is_p95(latency),
    ensures
        exists|id: Seq<char>| #[trigger]
            registry.backends.contains_key(id) && registry.backends[id].latencies.contains(latency),
{
    if forall|id: Seq<char>| #[trigger]
        registry.backends.contains_key(id) ==> !registry.backends[id].latencies.contains(latency) {
        lemma_none_between(registry.backends, latency);
        assert(false);
    }
}

/// A larger bound has at least as many samples below it.
proof fn lemma_more_below(backends: Map<Seq<char>, BackendView>, low: int, high: int)
    requires
        backends.dom().finite(),
        low <= high,
    ensures
        crate::figures::total(backends, crate::metrics::below_figure(low))
            <= crate::figures::total(backends, crate::metrics::below_figure(high)),
    decreases backends.dom().len(),
{
    if backends.dom().len() > 0 {
        let id: Seq<char> = backends.dom().choose();
        assert(backends.dom().contains(id));
        lemma_more_below(backends.remove(id), low, high);
        lemma_row_more_below(backends[id].latencies, low, high);
    }
}

proof fn lemma_row_more_below(samples: Seq<u64>, low: int, high: int)
    requires
        low <= high,
    ensures
        crate::figures::below(samples, low) <= crate::figures::below(samples, high),
    decreases samples.len(),
{
    if samples.len() > 0 {
        lemma_row_more_below(samples.drop_last(), low, high);
    }
}

/// A value that is no sample separates nothing.
proof fn lemma_none_between(backends: Map<Seq<char>, BackendView>, latency: u64)
    requires
        backends.dom().finite(),
        forall|id: Seq<char>| #[trigger]
            backends.contains_key(id) ==> !backends[id].latencies.contains(latency),
    ensures
        crate::figures::total(backends, crate::metrics::below_figure(latency as int))
            == crate::figures::total(backends, crate::metrics::below_figure(latency + 1)),
    decreases backends.dom().len(),
{
    if backends.dom().len() > 0 {
        let id: Seq<char> = backends.dom().choose();
        assert(backends.dom().contains(id));
        assert(backends.contains_key(id));
        assert forall|other: Seq<char>| #[trigger]
            backends.remove(id).contains_key(other) implies !backends.remove(
            id,
        )[other].latencies.contains(latency) by {
            assert(backends.contains_key(other));
        }
        lemma_none_between(backends.remove(id), latency);
        lemma_row_none_between(backends[id].latencies, latency);
    }
}

proof fn lemma_row_none_between(samples: Seq<u64>, latency: u64)
    requires
        !samples.contains(latency),
    ensures
        crate::figures::below(samples, latency as int) == crate::figures::below(
            samples,
            latency + 1,
        ),
    decreases samples.len(),
{
    if samples.len() > 0 {
        assert(samples[samples.len() - 1] != latency);
        assert(!samples.drop_last().contains(latency)) by {
            if samples.drop_last().contains(latency) {
                let i: int = choose|i: int|
                    0 <= i < samples.drop_last().len() && samples.drop_last()[i] == latency;
                assert(samples[i] == latency);
            }
        }
        lemma_row_none_between(samples.drop_last(), latency);
    }
}

/// An answered request leaves its latency and its time at its backend: behind the
/// earlier ones, of which the oldest latency goes when there would be more than 200,
/// and the oldest times go that lie more than a minute back, up to the first that
/// does not. It changes nothing else there, and nothing elsewhere.
pub proof fn law_answered_request_is_kept(
    registry: RegistryView,
    id: Seq<char>,
    latency: u64,
    now: u128,
)
    requires
        registry.backends.contains_key(id),
    ensures
        ({
            let after = registry.recorded(id, latency, now);
            let before = registry.backends[id];
            let figures = after.backends[id];
            let times = before.times.push(now);
            let dropped = times.len() - figures.times.len();
            &&& after.backends.dom() == registry.backends.dom()
            &&& after.next_registration == registry.next_registration
            &&& after.requested
            &&& forall|other: Seq<char>| #[trigger]
                registry.backends.contains_key(other) && other != id ==> after.backends[other]
                    == registry.backends[other]
            &&& figures.registration == before.registration
            &&& figures.active == before.active
            &&& figures.latencies.last() == latency
            &&& before.latencies.len() < 200 ==> figures.latencies == before.latencies.push(latency)
            &&& before.latencies.len() >= 200 ==> figures.latencies == before.latencies.push(
                latency,
            ).skip(1)
            &&& 0 <= dropped < times.len()
            &&& figures.times == times.skip(dropped)
            &&& figures.times.last() == now
            &&& now - figures.times[0] <= 60_000_000_000
            &&& forall|i: int| 0 <= i < dropped ==> now - #[trigger] times[i] > 60_000_000_000
        }),
{
    let times: Seq<u128> = registry.backends[id].times.push(now);
    assert(registry.recorded(id, latency, now).backends.dom() =~= registry.backends.dom());
    assert(times[times.len() - 1] == now);
    lemma_trimmed_prefix(times, now);
}

/// Trimming drops times from the front that lie before the window, up to the first
/// that does not.
proof fn lemma_trimmed_prefix(times: Seq<u128>, now: u128)
    requires
        times.len() > 0,
        times[times.len() - 1] == now,
    ensures
        ({
            let kept = crate::metrics::trimmed(times, now);
            let dropped = times.len() - kept.len();
            &&& 0 <= dropped < times.len()
            &&& kept == times.skip(dropped)
            &&& now - kept[0] <= RPS_WINDOW_NS
            &&& forall|i: int| 0 <= i < dropped ==> now - #[trigger] times[i] > RPS_WINDOW_NS
        }),
    decreases times.len(),
{
    if now - times[0] > RPS_WINDOW_NS {
        let rest: Seq<u128> = times.skip(1);
        assert(rest[rest.len() - 1] == now);
        lemma_trimmed_prefix(rest, now);
        let kept: Seq<u128> = crate::metrics::trimmed(rest, now);
        let dropped: int = times.len() - kept.len();
        assert(rest.skip(dropped - 1) =~= times.skip(dropped));
        assert forall|i: int| 0 <= i < dropped implies now - #[trigger] times[i]
            > RPS_WINDOW_NS by {
            if i > 0 {
                assert(rest[i - 1] == times[i]);
            }
        }
    } else {
        assert(times.skip(0) =~= times);
    }
}

/// A request that starts adds one to what its backend has in flight, and changes
/// nothing else. Behind the largest number comes zero.
pub proof fn law_started_request_is_in_flight(registry: RegistryView, id: Seq<char>)
    requires
        registry.backends.contains_key(id),
    ensures
        ({
            let after = registry.begun(id);
            let before = registry.backends[id];
            let figures = after.backends[id];
            &&& after.backends.dom() == registry.backends.dom()
            &&& after.next_registration == registry.next_registration
            &&& after.requested
            &&& forall|other: Seq<char>| #[trigger]
                registry.backends.contains_key(other) && other != id ==> after.backends[other]
                    == registry.backends[other]
            &&& before.active < usize::MAX ==> figures.active == before.active + 1
            &&& before.active == usize::MAX ==> figures.active == 0
            &&& figures.registration == before.registration
            &&& figures.latencies == before.latencies
            &&& figures.times == before.times
            &&& registry.guard_target(id) == Some((id, before.registration))
        }),
{
    assert(registry.begun(id).backends.dom() =~= registry.backends.dom());
}

/// A request that ends takes one off what its backend has in flight, and changes
/// nothing else; it changes nothing at all if the backend is no longer there, or
/// there under another registration.
pub proof fn law_ended_request_is_not_in_flight(
    registry: RegistryView,
    id: Seq<char>,
    registration: u64,
)
    ensures
        ({
            let after = registry.ended(Some((id, registration)));
            let before = registry.backends[id];
            let figures = after.backends[id];
            &&& registry.backends.contains_key(id) && before.registration == registration ==> {
                &&& after.backends.dom() == registry.backends.dom()
                &&& after.next_registration == registry.next_registration
                &&& after.requested == registry.requested
                &&& forall|other: Seq<char>| #[trigger]
                    registry.backends.contains_key(other) && other != id ==> after.backends[other]
                        == registry.backends[other]
                &&& before.active > 0 ==> figures.active == before.active - 1
                &&& before.active == 0 ==> figures.active == usize::MAX
                &&& figures.registration == before.registration
                &&& figures.latencies == before.latencies
                &&& figures.times == before.times
            }
            &&& !registry.backends.contains_key(id) || before.registration != registration
                ==> after == registry
        }),
        registry.ended(None) == registry,
{
    assert(registry.backends.contains_key(id) && registry.backends[id].registration == registration
        ==> registry.ended(Some((id, registration))).backends.dom() =~= registry.backends.dom());
}

/// A backend that joins gets the next registration and nothing in flight, no latency
/// and no time; the others stay, and a backend that is there already stays as it is.
pub proof fn law_what_joining_does(registry: RegistryView, id: Seq<char>)
    ensures
        ({
            let after = registry.with_added(id);
            let figures = after.backends[id];
            &&& registry.backends.contains_key(id) ==> after == registry
            &&& !registry.backends.contains_key(id) ==> {
                &&& after.backends.dom() == registry.backends.dom().insert(id)
                &&& forall|other: Seq<char>| #[trigger]
                    registry.backends.contains_key(other) ==> after.backends[other]
                        == registry.backends[other]
                &&& figures.registration == registry.next_registration
                &&& figures.active == 0
                &&& figures.latencies == Seq::<u64>::empty()
                &&& figures.times == Seq::<u128>::empty()
                &&& registry.next_registration < u64::MAX ==> after.next_registration
                    == registry.next_registration + 1
                &&& after.requested == registry.requested
            }
        }),
{
    assert(!registry.backends.contains_key(id) ==> registry.with_added(id).backends.dom()
        =~= registry.backends.dom().insert(id));
}

/// A backend that leaves is gone, and nothing else changes.
pub proof fn law_what_leaving_does(registry: RegistryView, id: Seq<char>)
    ensures
        ({
            let after = registry.with_removed(id);
            &&& after.backends.dom() == registry.backends.dom().remove(id)
            &&& forall|other: Seq<char>| #[trigger]
                registry.backends.contains_key(other) && other != id ==> after.backends[other]
                    == registry.backends[other]
            &&& after.next_registration == registry.next_registration
            &&& after.requested == registry.requested
        }),
{
    assert(registry.with_removed(id).backends.dom() =~= registry.backends.dom().remove(id));
}

/// What happens at a backend that is not registered changes nothing.
pub proof fn law_unregistered_backend_is_ignored(
    registry: RegistryView,
    id: Seq<char>,
    latency: u64,
    now: u128,
)
    requires
        !registry.backends.contains_key(id),
    ensures
        registry.begun(id) == registry,
        registry.guard_target(id) is None,
        registry.recorded(id, latency, now) == registry,
        registry.active_at(id) == 0,
{
}

/// What is read of one backend is what it has in flight.
pub proof fn law_active_reading_of_one(
    registry: &crate::metrics::MetricsRegistry,
    id: &str,
    active: u64,
)
    requires
        call_ensures(crate::metrics::MetricsRegistry::active_for, (registry, id), active),
    ensures
        registry@.backends.contains_key(id@) ==> active == registry@.backends[id@].active,
        !registry@.backends.contains_key(id@) ==> active == 0,
{
}

/// Sums over all backends: nothing for none, and with one more backend what that one
/// has: its requests in flight, its latencies, those of them below a bound, and its
/// requests of the last minute.
pub proof fn law_sums_grow_by_backend(
    registry: RegistryView,
    id: Seq<char>,
    figures: BackendView,
    bound: int,
    now: u128,
)
    requires
        registry.backends.dom().finite(),
        !registry.backends.contains_key(id),
    ensures
        registry.backends == Map::<Seq<char>, BackendView>::empty() ==> {
            &&& registry.active_total() == 0
            &&& registry.sample_total() == 0
            &&& registry.samples_below(bound) == 0
            &&& registry.request_total(now) == 0
        },
        ({
            let more = RegistryView { backends: registry.backends.insert(id, figures), ..registry };
            &&& more.active_total() == registry.active_total() + figures.active
            &&& more.sample_total() == registry.sample_total() + figures.latencies.len()
            &&& more.samples_below(bound) == registry.samples_below(bound)
                + figures.latencies.filter(|latency: u64| latency < bound).len()
            &&& more.request_total(now) == registry.request_total(now) + figures.times.filter(
                |time: u128| now - time <= 60_000_000_000,
            ).len()
        }),
{
    let more: Map<Seq<char>, BackendView> = registry.backends.insert(id, figures);
    assert(more.remove(id) =~= registry.backends);
    assert(more.contains_key(id));
    crate::figures::lemma_total_without(more, crate::metrics::active_figure(), id);
    crate::figures::lemma_total_without(more, crate::metrics::sample_figure(), id);
    crate::figures::lemma_total_without(more, crate::metrics::below_figure(bound), id);
    crate::figures::lemma_total_without(more, crate::metrics::request_figure(now), id);
    crate::figures::law_below_counts(figures.latencies, bound);
    lemma_recent_counts(figures.times, now);
}

/// Requests within the window are counted one by one.
proof fn lemma_recent_counts(times: Seq<u128>, now: u128)
    ensures
        crate::metrics::recent(times, now) == times.filter(
            |time: u128| now - time <= 60_000_000_000,
        ).len(),
    decreases times.len(),
{
    reveal(Seq::filter);
    if times.len() > 0 {
        lemma_recent_counts(times.drop_last(), now);
    }
}

/// Which latency is the 95th percentile: at least 95 of every 100 latencies are no
/// larger, and fewer than 95 of every 100 are smaller. There is none if, and only if,
/// there are no latencies.
pub proof fn law_p95_splits_latencies(
    registry: &crate::metrics::MetricsRegistry,
    latency: Option<u64>,
)
    requires
        call_ensures(crate::metrics::MetricsRegistry::p95_sample, (registry,), latency),
    ensures
        latency is None <==> registry@.sample_total() == 0,
        latency matches Some(sample) ==> {
            &&& 100 * registry@.samples_below(sample + 1) >= 95 * registry@.sample_total()
            &&& 100 * registry@.samples_below(sample as int) < 95 * registry@.sample_total()
        },
{
}

/// The same, of every state of a registry.
pub proof fn law_p95_splits_samples(registry: RegistryView, latency: u64)
    ensures
        registry.is_p95(latency) <==> {
            &&& registry.backends.dom().finite()
            &&& registry.sample_total() > 0
            &&& 100 * registry.samples_below(latency + 1) >= 95 * registry.sample_total()
            &&& 100 * registry.samples_below(latency as int) < 95 * registry.sample_total()
        },
{
}

/// What is read for each metric: nothing before the first request, and nothing for
/// CPU; the 95th percentile of the latencies, or nothing if there are none; the
/// number of requests in flight; and the requests of the last minute, over 60.
pub proof fn law_what_is_read(
    registry: &crate::metrics::MetricsRegistry,
    metric: ScalingMetric,
    now: u128,
    reading: Option<Real64>,
)
    requires
        call_ensures(
            crate::metrics::MetricsRegistry::value_for,
            (registry, metric, now),
            reading,
        ),
    ensures
        !registry@.requested || metric == ScalingMetric::Cpu ==> reading is None,
        registry@.requested && metric == ScalingMetric::P95LatencyMs ==> {
            &&& reading is None <==> registry@.sample_total() == 0
            &&& reading is Some ==> exists|sample: u64| #[trigger]
                reading->Some_0.is_count(sample as nat) && 100 * registry@.samples_below(sample + 1)
                    >= 95 * registry@.sample_total() && 100 * registry@.samples_below(
                    sample as int,
                ) < 95 * registry@.sample_total()
        },
        registry@.requested && metric == ScalingMetric::ActiveConnections ==> {
            &&& reading is Some
            &&& registry@.active_total() <= u64::MAX ==> reading->Some_0.is_count(
                registry@.active_total(),
            )
        },
        registry@.requested && metric == ScalingMetric::RequestsPerSecond ==> {
            &&& reading is Some
            &&& registry@.request_total(now) <= u64::MAX ==> reading->Some_0.is_quotient(
                registry@.request_total(now),
                60,
            )
        },
{
    if registry@.requested && metric == ScalingMetric::P95LatencyMs && reading is Some {
        let sample: u64 = choose|sample: u64| #[trigger]
            registry@.is_p95(sample) && reading->Some_0.is_count(sample as nat);
        assert(reading->Some_0.is_count(sample as nat));
    }
}

/// What a backend has in flight is what its figures say, and nothing if it is not
/// registered.
pub proof fn law_in_flight_at_backend(registry: RegistryView, id: Seq<char>)
    ensures
        registry.backends.contains_key(id) ==> registry.active_at(id)
            == registry.backends[id].active,
        !registry.backends.contains_key(id) ==> registry.active_at(id) == 0,
{
}

/// What is read as a rate is the requests of the last minute, over 60, and what is read
/// as requests in flight is their number.
pub proof fn law_rates_and_counts(
    registry: &crate::metrics::MetricsRegistry,
    now: u128,
    rate: Real64,
    active: u64,
    latency: Option<Real64>,
)
    requires
        call_ensures(
            crate::metrics::MetricsRegistry::requests_per_second,
            (registry, now),
            rate,
        ),
        call_ensures(
            crate::metrics::MetricsRegistry::active_connections_total,
            (registry,),
            active,
        ),
        call_ensures(crate::metrics::MetricsRegistry::p95_latency_ms, (registry,), latency),
        registry@.request_total(now) <= u64::MAX,
        registry@.active_total() <= u64::MAX,
    ensures
        rate.is_quotient(registry@.request_total(now), 60),
        active == registry@.active_total(),
        latency is None <==> registry@.sample_total() == 0,
        latency is Some ==> exists|sample: u64| #[trigger]
            latency->Some_0.is_count(sample as nat) && registry@.is_p95(sample),
{
    if latency is Some {
        let sample: u64 = choose|sample: u64| #[trigger]
            registry@.is_p95(sample) && latency->Some_0.is_count(sample as nat);
        assert(latency->Some_0.is_count(sample as nat));
    }
}

/// Tracking a backend has it join.
pub proof fn law_tracking_joins(registry: &mut crate::metrics::MetricsRegistry, id: &str)
    requires
        call_ensures(crate::metrics::MetricsRegistry::track, (registry, id), ()),
    ensures
        final(registry)@ == old(registry)@.with_added(id@),
{
}

/// Untracking a backend has it leave.
pub proof fn law_untracking_leaves(registry: &mut crate::metrics::MetricsRegistry, id: &str)
    requires
        call_ensures(crate::metrics::MetricsRegistry::untrack, (registry, id), ()),
    ensures
        final(registry)@ == old(registry)@.with_removed(id@),
{
}

/// Beginning a request starts it at its backend, and hands out a guard for it.
pub proof fn law_beginning_starts(
    registry: &mut crate::metrics::MetricsRegistry,
    id: &str,
    guard: crate::metrics::ActiveGuard,
)
    requires
        call_ensures(crate::metrics::MetricsRegistry::begin_active, (registry, id), guard),
    ensures
        final(registry)@ == old(registry)@.begun(id@),
        guard.target() == old(registry)@.guard_target(id@),
{
}

/// Handing a guard back ends its request.
pub proof fn law_handing_back_ends(
    registry: &mut crate::metrics::MetricsRegistry,
    guard: crate::metrics::ActiveGuard,
)
    requires
        call_ensures(crate::metrics::MetricsRegistry::end_active, (registry, guard), ()),
    ensures
        final(registry)@ == old(registry)@.ended(guard.target()),
{
}

/// Recording a latency keeps it as it is, whatever it is, with the time of its answer.
/// Left out are latencies of more milliseconds than 64 bits hold.
pub proof fn law_recording_keeps_latency(
    registry: &mut crate::metrics::MetricsRegistry,
    id: &str,
    elapsed_ms: u128,
    now: u128,
)
    requires
        call_ensures(
            crate::metrics::MetricsRegistry::record_latency,
            (registry, id, elapsed_ms, now),
            (),
        ),
        elapsed_ms <= u64::MAX,
    ensures
        final(registry)@ == old(registry)@.recorded(id@, elapsed_ms as u64, now),
        old(registry)@.backends.contains_key(id@) ==> final(registry)@.backends[id@].latencies.last()
            == elapsed_ms,
{
    if registry@.backends.contains_key(id@) {
        law_answered_request_is_kept(registry@, id@, elapsed_ms as u64, now);
    }
}

} // verus!
