//! Per-backend metrics the autoscaler reads from.

use crate::config::ScalingMetric;
use crate::figures::sort_samples;
use crate::real64::Real64;
use crate::store::{
    get, ids, insert_if_vacant, new_map, remove, value, BackendStats, BackendView,
};
use dashmap::DashMap;
use std::collections::hash_map::RandomState;
use std::collections::VecDeque;
use vstd::prelude::*;

verus! {

/// How many recent latency samples to keep per backend for the p95
/// calculation. Small enough to be cheap, large enough to smooth out noise.
pub const LATENCY_WINDOW: usize = 200;

/// How far back to count requests for requests-per-second, in seconds.
pub const RPS_WINDOW_SECS: u32 = 60;

/// The same, in nanoseconds.
pub const RPS_WINDOW_NS: u128 = 60_000_000_000;

/// The latencies that are kept after one more: the oldest goes when there are
/// too many.
pub open spec fn with_latency(latencies: Seq<u64>, latency: u64) -> Seq<u64> {
    let all = latencies.push(latency);
    if all.len() > LATENCY_WINDOW {
        all.skip(1)
    } else {
        all
    }
}

/// The times that are left when the oldest ones are dropped for as long as they
/// lie further back than the window.
pub open spec fn trimmed(times: Seq<u128>, now: u128) -> Seq<u128>
    decreases times.len(),
{
    if times.len() > 0 && now - times[0] > RPS_WINDOW_NS {
        trimmed(times.skip(1), now)
    } else {
        times
    }
}

/// How many of the times lie within the window before `now`.
pub open spec fn recent(times: Seq<u128>, now: u128) -> nat
    decreases times.len(),
{
    if times.len() == 0 {
        0
    } else {
        recent(times.drop_last(), now) + if now - times.last() <= RPS_WINDOW_NS {
            1nat
        } else {
            0
        }
    }
}

impl BackendView {
    /// The figures that a new registration starts with.
    pub open spec fn fresh(registration: u64) -> BackendView {
        BackendView {
            registration,
            active: 0,
            latencies: Seq::empty(),
            times: Seq::empty(),
        }
    }

    /// The figures with another number of requests in flight.
    pub open spec fn with_active(self, active: usize) -> BackendView {
        BackendView { active, ..self }
    }

    /// The figures after one more answered request.
    pub open spec fn with_request(self, latency: u64, now: u128) -> BackendView {
        BackendView {
            latencies: with_latency(self.latencies, latency),
            times: trimmed(self.times.push(now), now),
            ..self
        }
    }
}

impl BackendStats {
    /// Starts at zero.
    fn fresh(registration: u64) -> (stats: BackendStats)
        ensures
            stats@ == BackendView::fresh(registration),
    {
        BackendStats {
            registration,
            active: 0,
            recent_latencies_ms: VecDeque::new(),
            recent_request_times: VecDeque::new(),
        }
    }

    /// Counts one answered request.
    fn note_request(&mut self, latency: u64, now: u128)
        ensures
            final(self)@ == old(self)@.with_request(latency, now),
    {
        self.recent_latencies_ms.push_back(latency);
        if self.recent_latencies_ms.len() > LATENCY_WINDOW {
            let ghost all = self.recent_latencies_ms@;
            let _oldest = self.recent_latencies_ms.pop_front();
            assert(self.recent_latencies_ms@ =~= all.skip(1));
        }
        self.recent_request_times.push_back(now);
        let ghost all = self.recent_request_times@;
        let ghost latencies = self.recent_latencies_ms@;
        while self.recent_request_times.len() > 0 && now > self.recent_request_times[0] && now
            - self.recent_request_times[0] > RPS_WINDOW_NS
            invariant
                self.recent_latencies_ms@ == latencies,
                self.registration == old(self).registration,
                self.active == old(self).active,
                trimmed(self.recent_request_times@, now) == trimmed(all, now),
            decreases self.recent_request_times@.len(),
        {
            let ghost times = self.recent_request_times@;
            let _oldest = self.recent_request_times.pop_front();
            assert(self.recent_request_times@ =~= times.skip(1));
        }
    }
}

/// The state of a registry.
#[verifier::ext_equal]
pub struct RegistryView {
    /// The figures of the registered backends, by container id.
    pub backends: Map<Seq<char>, BackendView>,
    /// The number that the next registration gets.
    pub next_registration: u64,
    /// Whether there has been any request to a registered backend.
    pub requested: bool,
}

/// What an [`ActiveGuard`] counts for: a backend, and the number of its
/// registration.
pub type GuardTarget = Option<(Seq<char>, u64)>;

impl RegistryView {
    /// A backend is registered, unless it is already.
    pub open spec fn with_added(self, id: Seq<char>) -> RegistryView {
        if self.backends.contains_key(id) {
            self
        } else {
            RegistryView {
                backends: self.backends.insert(id, BackendView::fresh(self.next_registration)),
                next_registration: self.next_registration.wrapping_add(1),
                ..self
            }
        }
    }

    /// A backend's figures are dropped.
    pub open spec fn with_removed(self, id: Seq<char>) -> RegistryView {
        RegistryView { backends: self.backends.remove(id), ..self }
    }

    /// What a request that starts now counts for.
    pub open spec fn guard_target(self, id: Seq<char>) -> GuardTarget {
        if self.backends.contains_key(id) {
            Some((id, self.backends[id].registration))
        } else {
            None
        }
    }

    /// A request to a backend has started.
    pub open spec fn begun(self, id: Seq<char>) -> RegistryView {
        if self.backends.contains_key(id) {
            let figures = self.backends[id];
            RegistryView {
                backends: self.backends.insert(
                    id,
                    figures.with_active(figures.active.wrapping_add(1)),
                ),
                requested: true,
                ..self
            }
        } else {
            self
        }
    }

    /// There has been a request to a backend, of which nothing else is left.
    pub open spec fn noted(self, id: Seq<char>) -> RegistryView {
        RegistryView { requested: self.requested || self.backends.contains_key(id), ..self }
    }

    /// Whether a guard still counts for a registered backend.
    pub open spec fn counts(self, target: GuardTarget) -> bool {
        target matches Some((id, registration)) && self.backends.contains_key(id)
            && self.backends[id].registration == registration
    }

    /// A request is over. A guard of an earlier registration counts for nothing.
    pub open spec fn ended(self, target: GuardTarget) -> RegistryView {
        if self.counts(target) {
            let id = target->Some_0.0;
            let figures = self.backends[id];
            RegistryView {
                backends: self.backends.insert(
                    id,
                    figures.with_active(figures.active.wrapping_sub(1)),
                ),
                ..self
            }
        } else {
            self
        }
    }

    /// A backend has answered a request.
    pub open spec fn recorded(self, id: Seq<char>, latency: u64, now: u128) -> RegistryView {
        if self.backends.contains_key(id) {
            RegistryView {
                backends: self.backends.insert(
                    id,
                    self.backends[id].with_request(latency, now),
                ),
                requested: true,
                ..self
            }
        } else {
            self
        }
    }

    /// Requests in flight at one backend; none at an unregistered one.
    pub open spec fn active_at(self, id: Seq<char>) -> usize {
        if self.backends.contains_key(id) {
            self.backends[id].active
        } else {
            0
        }
    }

    /// Whether there are finitely many backends. Every registry is finite; the
    /// sums below are sums over finitely many backends.
    pub open spec fn is_finite(self) -> bool {
        self.backends.dom().finite()
    }

    /// Requests in flight at all backends.
    pub open spec fn active_total(self) -> nat {
        crate::figures::total(self.backends, active_figure())
    }

    /// Requests at all backends within the window before `now`.
    pub open spec fn request_total(self, now: u128) -> nat {
        crate::figures::total(self.backends, request_figure(now))
    }

    /// Latency samples at all backends.
    pub open spec fn sample_total(self) -> nat {
        crate::figures::total(self.backends, sample_figure())
    }

    /// Latency samples below `bound` at all backends.
    pub open spec fn samples_below(self, bound: int) -> nat {
        crate::figures::total(self.backends, below_figure(bound))
    }

    /// Whether `latency` is the 95th percentile of the latency samples of all
    /// backends: the sample at the position that 95 % of their number, rounded
    /// up, gives.
    pub open spec fn is_p95(self, latency: u64) -> bool {
        &&& self.is_finite()
        &&& self.sample_total() > 0
        &&& self.samples_below(latency as int) < p95_position(self.sample_total())
            <= self.samples_below(latency + 1)
    }
}

impl RegistryView {
    /// Whether a reading is the 95th percentile of the latencies, or is missing
    /// for want of samples.
    pub open spec fn is_p95_reading(self, reading: Option<Real64>) -> bool {
        match reading {
            None => self.is_finite() && self.sample_total() == 0,
            Some(number) => exists|sample: u64| #[trigger]
                self.is_p95(sample) && number.is_count(sample as nat),
        }
    }

    /// Whether a reading is the number of requests in flight.
    pub open spec fn is_active_reading(self, number: Real64) -> bool {
        &&& self.is_finite()
        &&& number.is_count((self.active_total() % 0x1_0000_0000_0000_0000) as nat)
    }

    /// Whether a reading at `now` is the number of requests within the window,
    /// over its length.
    pub open spec fn is_rate_reading(self, now: u128, number: Real64) -> bool {
        &&& self.is_finite()
        &&& number.is_quotient(
            (self.request_total(now) % 0x1_0000_0000_0000_0000) as nat,
            RPS_WINDOW_SECS as nat,
        )
    }

    /// Whether a reading at `now` is the one that a scaling metric asks for. There
    /// is none before the first request, and CPU is not measured.
    pub open spec fn is_reading(
        self,
        metric: ScalingMetric,
        now: u128,
        reading: Option<Real64>,
    ) -> bool {
        if !self.requested {
            reading is None
        } else {
            match metric {
                ScalingMetric::P95LatencyMs => self.is_p95_reading(reading),
                ScalingMetric::ActiveConnections => reading matches Some(number)
                    && self.is_active_reading(number),
                ScalingMetric::RequestsPerSecond => reading matches Some(number)
                    && self.is_rate_reading(now, number),
                ScalingMetric::Cpu => reading is None,
            }
        }
    }
}

/// 95 % of a number of samples, rounded up.
pub open spec fn p95_position(samples: nat) -> nat {
    (samples * 95 + 99) / 100
}

/// The number of requests in flight.
pub open spec fn active_figure() -> spec_fn(BackendView) -> nat {
    |figures: BackendView| figures.active as nat
}

/// The number of requests within the window before `now`.
pub open spec fn request_figure(now: u128) -> spec_fn(BackendView) -> nat {
    |figures: BackendView| recent(figures.times, now)
}

/// The number of latency samples.
pub open spec fn sample_figure() -> spec_fn(BackendView) -> nat {
    |figures: BackendView| figures.latencies.len()
}

/// The number of latency samples below `bound`.
pub open spec fn below_figure(bound: int) -> spec_fn(BackendView) -> nat {
    |figures: BackendView| crate::figures::below(figures.latencies, bound)
}

/// Counts one request at one backend, from its start until it is handed back
/// with [`MetricsRegistry::end_active`]. Hold this for the *entire* request
/// lifetime, including response body streaming: that is what makes a handful of
/// slow, large downloads show up as sustained load.
#[derive(Debug)]
pub struct ActiveGuard {
    container_id: String,
    registration: Option<u64>,
}

impl ActiveGuard {
    /// What the guard counts for.
    pub closed spec fn target(self) -> GuardTarget {
        match self.registration {
            Some(number) => Some((self.container_id@, number)),
            None => None,
        }
    }
}

/// The metrics of all backends of a service.
pub struct MetricsRegistry {
    backends: DashMap<String, BackendStats, RandomState>,
    next_registration: u64,
    requested: bool,
}

impl View for MetricsRegistry {
    type V = RegistryView;

    closed spec fn view(&self) -> RegistryView {
        RegistryView {
            backends: Map::new(
                |id: Seq<char>| crate::store::entries(self.backends).contains_key(id),
                |id: Seq<char>| crate::store::entries(self.backends)[id]@,
            ),
            next_registration: self.next_registration,
            requested: self.requested,
        }
    }
}

impl MetricsRegistry {
    /// A registry without backends.
    pub fn new() -> (registry: MetricsRegistry)
        ensures
            registry@.backends == Map::<Seq<char>, BackendView>::empty(),
            registry@.next_registration == 0,
            !registry@.requested,
    {
        let registry = MetricsRegistry {
            backends: new_map(),
            next_registration: 0,
            requested: false,
        };
        assert(registry@.backends =~= Map::<Seq<char>, BackendView>::empty());
        registry
    }

    /// Register a backend so its metrics start at zero. Call this right
    /// after adding an instance to the `BackendPool`.
    pub fn track(&mut self, container_id: &str)
        ensures
            final(self)@ == old(self)@.with_added(container_id@),
    {
        if get(&self.backends, container_id).is_none() {
            let number: u64 = self.next_registration;
            insert_if_vacant(
                &mut self.backends,
                container_id.to_owned(),
                BackendStats::fresh(number),
            );
            self.next_registration = number.wrapping_add(1);
        }
        assert(self@ =~= old(self)@.with_added(container_id@));
    }

    /// Drop a backend's metrics. Call this right after removing an instance
    /// from the `BackendPool` (e.g. the autoscaler scaling down).
    pub fn untrack(&mut self, container_id: &str)
        ensures
            final(self)@ == old(self)@.with_removed(container_id@),
    {
        let _removed = remove(&mut self.backends, container_id);
        assert(self@ =~= old(self)@.with_removed(container_id@));
    }

    /// Marks the start of a request to `container_id`. Keep the returned
    /// guard until the response is fully sent.
    pub fn begin_active(&mut self, container_id: &str) -> (guard: ActiveGuard)
        ensures
            guard.target() == old(self)@.guard_target(container_id@),
            final(self)@ == old(self)@.begun(container_id@),
    {
        match remove(&mut self.backends, container_id) {
            Some((id, mut stats)) => {
                let number: u64 = stats.registration;
                stats.active = stats.active.wrapping_add(1);
                insert_if_vacant(&mut self.backends, id, stats);
                self.requested = true;
                assert(self@ =~= old(self)@.begun(container_id@));
                ActiveGuard { container_id: container_id.to_owned(), registration: Some(number) }
            },
            None => {
                assert(self@ =~= old(self)@);
                ActiveGuard { container_id: container_id.to_owned(), registration: None }
            },
        }
    }

    /// Marks the end of the request that `guard` was given out for.
    pub fn end_active(&mut self, guard: ActiveGuard)
        ensures
            final(self)@ == old(self)@.ended(guard.target()),
    {
        if let Some(number) = guard.registration {
            if let Some((id, mut stats)) = remove(&mut self.backends, guard.container_id.as_str()) {
                if stats.registration == number {
                    stats.active = stats.active.wrapping_sub(1);
                }
                insert_if_vacant(&mut self.backends, id, stats);
            }
        }
        assert(self@ =~= old(self)@.ended(guard.target()));
    }

    /// Records time-to-first-byte for one request (used for the p95
    /// latency metric) and counts it toward requests-per-second. `elapsed_ms`
    /// is the latency in whole milliseconds, of which the low 64 bits are kept;
    /// `now_ns` is the reading of a steady clock in nanoseconds.
    pub fn record_latency(&mut self, container_id: &str, elapsed_ms: u128, now_ns: u128)
        ensures
            final(self)@ == old(self)@.recorded(
                container_id@,
                (elapsed_ms % 0x1_0000_0000_0000_0000) as u64,
                now_ns,
            ),
    {
        let latency: u64 = (elapsed_ms % 0x1_0000_0000_0000_0000) as u64;
        if let Some((id, mut stats)) = remove(&mut self.backends, container_id) {
            stats.note_request(latency, now_ns);
            insert_if_vacant(&mut self.backends, id, stats);
            self.requested = true;
        }
        assert(self@ =~= old(self)@.recorded(container_id@, latency, now_ns));
    }

    /// Requests in flight at one backend.
    pub fn active_for(&self, container_id: &str) -> (active: u64)
        ensures
            active == self@.active_at(container_id@),
    {
        match get(&self.backends, container_id) {
            Some(reference) => value(&reference).active as u64,
            None => 0,
        }
    }

    /// The ids of all backends, in no particular order.
    fn listed(&self) -> (listed: Vec<String>)
        ensures
            crate::figures::lists(self@.backends, texts(listed@)),
    {
        let listed: Vec<String> = ids(&self.backends);
        proof {
            let keys: Seq<Seq<char>> = texts(listed@);
            assert forall|id: Seq<char>| #[trigger] self@.backends.contains_key(id)
                <==> keys.contains(id) by {
                if self@.backends.contains_key(id) {
                    assert(crate::store::entries(self.backends).contains_key(id));
                    let i: int = choose|i: int|
                        0 <= i < listed@.len() && #[trigger] listed@[i]@ == id;
                    assert(keys[i] == id);
                }
                if keys.contains(id) {
                    let i: int = choose|i: int| 0 <= i < keys.len() && keys[i] == id;
                    assert(listed@[i]@ == id);
                }
            }
            assert forall|i: int, j: int| 0 <= i < keys.len() && 0 <= j < keys.len() && i != j
                implies keys[i] != keys[j] by {
                assert(listed@[i]@ == keys[i] && listed@[j]@ == keys[j]);
            }
        }
        listed
    }

    /// Requests in flight at all backends. The sum wraps at 64 bits.
    pub fn active_connections_total(&self) -> (total: u64)
        ensures
            self@.is_finite(),
            total == self@.active_total() % 0x1_0000_0000_0000_0000,
    {
        let listed: Vec<String> = self.listed();
        let ghost keys = texts(listed@);
        let mut total: u64 = 0;
        let mut i: usize = 0;
        assert(keys.take(0) =~= Seq::<Seq<char>>::empty());
        while i < listed.len()
            invariant
                crate::figures::lists(self@.backends, keys),
                keys == texts(listed@),
                i <= listed@.len(),
                total == crate::figures::listed_total(
                    self@.backends,
                    keys.take(i as int),
                    active_figure(),
                ) % 0x1_0000_0000_0000_0000,
            decreases listed@.len() - i,
        {
            proof {
                assert(keys[i as int] == listed@[i as int]@);
                assert(keys.contains(keys[i as int]));
                assert(keys.take(i + 1).drop_last() =~= keys.take(i as int));
            }
            total = total.wrapping_add(self.active_for(listed[i].as_str()));
            i = i + 1;
        }
        proof {
            assert(keys.take(i as int) =~= keys);
            crate::figures::lemma_listed_total(self@.backends, keys, active_figure());
        }
        total
    }

    /// Requests at all backends within the window before `now_ns`. The sum wraps at
    /// 64 bits.
    fn recent_requests(&self, now_ns: u128) -> (total: u64)
        ensures
            self@.is_finite(),
            total == self@.request_total(now_ns) % 0x1_0000_0000_0000_0000,
    {
        let listed: Vec<String> = self.listed();
        let ghost keys = texts(listed@);
        let mut total: u64 = 0;
        let mut i: usize = 0;
        assert(keys.take(0) =~= Seq::<Seq<char>>::empty());
        while i < listed.len()
            invariant
                crate::figures::lists(self@.backends, keys),
                keys == texts(listed@),
                i <= listed@.len(),
                total == crate::figures::listed_total(
                    self@.backends,
                    keys.take(i as int),
                    request_figure(now_ns),
                ) % 0x1_0000_0000_0000_0000,
            decreases listed@.len() - i,
        {
            proof {
                assert(keys[i as int] == listed@[i as int]@);
                assert(keys.contains(keys[i as int]));
                assert(self@.backends.contains_key(keys[i as int]));
                assert(keys.take(i + 1).drop_last() =~= keys.take(i as int));
            }
            if let Some(reference) = get(&self.backends, listed[i].as_str()) {
                let count: usize = count_recent(&value(&reference).recent_request_times, now_ns);
                total = total.wrapping_add(count as u64);
            }
            i = i + 1;
        }
        proof {
            assert(keys.take(i as int) =~= keys);
            crate::figures::lemma_listed_total(self@.backends, keys, request_figure(now_ns));
        }
        total
    }

    /// All latency samples of all backends, in no particular order.
    fn samples(&self) -> (all: Vec<u64>)
        ensures
            self@.is_finite(),
            all@.len() == self@.sample_total(),
            forall|bound: int| #[trigger]
                crate::figures::below(all@, bound) == self@.samples_below(bound),
    {
        let listed: Vec<String> = self.listed();
        let ghost keys = texts(listed@);
        let mut all: Vec<u64> = Vec::new();
        let mut i: usize = 0;
        assert(keys.take(0) =~= Seq::<Seq<char>>::empty());
        while i < listed.len()
            invariant
                crate::figures::lists(self@.backends, keys),
                keys == texts(listed@),
                i <= listed@.len(),
                all@.len() == crate::figures::listed_total(
                    self@.backends,
                    keys.take(i as int),
                    sample_figure(),
                ),
                forall|bound: int| #[trigger]
                    crate::figures::below(all@, bound) == crate::figures::listed_total(
                        self@.backends,
                        keys.take(i as int),
                        below_figure(bound),
                    ),
            decreases listed@.len() - i,
        {
            proof {
                assert(keys[i as int] == listed@[i as int]@);
                assert(keys.contains(keys[i as int]));
                assert(self@.backends.contains_key(keys[i as int]));
                assert(keys.take(i + 1).drop_last() =~= keys.take(i as int));
            }
            if let Some(reference) = get(&self.backends, listed[i].as_str()) {
                let stats: &BackendStats = value(&reference);
                let ghost before = all@;
                append_samples(&mut all, &stats.recent_latencies_ms);
                proof {
                    assert forall|bound: int| #[trigger]
                        crate::figures::below(all@, bound) == crate::figures::listed_total(
                            self@.backends,
                            keys.take(i + 1),
                            below_figure(bound),
                        ) by {
                        crate::figures::lemma_below_concat(
                            before,
                            stats.recent_latencies_ms@,
                            bound,
                        );
                        assert(crate::figures::below(before, bound)
                            == crate::figures::listed_total(
                            self@.backends,
                            keys.take(i as int),
                            below_figure(bound),
                        ));
                    }
                }
            }
            i = i + 1;
        }
        proof {
            assert(keys.take(i as int) =~= keys);
            crate::figures::lemma_listed_total(self@.backends, keys, sample_figure());
            assert forall|bound: int| #[trigger]
                crate::figures::below(all@, bound) == self@.samples_below(bound) by {
                crate::figures::lemma_listed_total(self@.backends, keys, below_figure(bound));
            }
        }
        all
    }

    /// The 95th percentile of the recent latencies, or `None` before the first one.
    pub fn p95_sample(&self) -> (latency: Option<u64>)
        ensures
            self@.is_finite(),
            latency is None <==> self@.sample_total() == 0,
            latency matches Some(sample) ==> self@.is_p95(sample),
    {
        let all: Vec<u64> = self.samples();
        if all.len() == 0 {
            return None;
        }
        let sorted: Vec<u64> = sort_samples(all);
        let position: u128 = (sorted.len() as u128 * 95 + 99) / 100;
        let index: usize = (position - 1) as usize;
        let sample: u64 = sorted[index];
        proof {
            crate::figures::lemma_below_ascending(sorted@, index as int, sample as int);
            crate::figures::lemma_below_ascending(sorted@, index as int, sample + 1);
        }
        Some(sample)
    }

    /// The 95th percentile of the recent latencies as a reading.
    pub fn p95_latency_ms(&self) -> (latency: Option<Real64>)
        ensures
            self@.is_p95_reading(latency),
    {
        match self.p95_sample() {
            Some(sample) => {
                let number = Real64::from_count(sample);
                assert(self@.is_p95(sample) && number.is_count(sample as nat));
                Some(number)
            },
            None => None,
        }
    }

    /// Requests per second over the window before `now_ns`.
    pub fn requests_per_second(&self, now_ns: u128) -> (rate: Real64)
        ensures
            self@.is_rate_reading(now_ns, rate),
    {
        Real64::quotient(self.recent_requests(now_ns), RPS_WINDOW_SECS)
    }

    /// Fetches whatever value corresponds to a service's configured scaling
    /// metric. Returns `None` when there is no data yet (no traffic) or the metric
    /// isn't measured (CPU). The autoscaler treats `None` as "hold".
    pub fn value_for(&self, metric: ScalingMetric, now_ns: u128) -> (reading: Option<Real64>)
        ensures
            self@.is_reading(metric, now_ns, reading),
    {
        if !self.requested {
            return None;
        }
        match metric {
            ScalingMetric::P95LatencyMs => self.p95_latency_ms(),
            ScalingMetric::ActiveConnections => Some(
                Real64::from_count(self.active_connections_total()),
            ),
            ScalingMetric::RequestsPerSecond => Some(self.requests_per_second(now_ns)),
            ScalingMetric::Cpu => None,
        }
    }
}

/// The texts of a list of strings.
pub open spec fn texts(strings: Seq<String>) -> Seq<Seq<char>> {
    strings.map_values(|string: String| string@)
}

/// Counts the times within the window before `now`.
fn count_recent(times: &VecDeque<u128>, now: u128) -> (count: usize)
    ensures
        count == recent(times@, now),
{
    let mut count: usize = 0;
    let mut i: usize = 0;
    while i < times.len()
        invariant
            count <= i <= times@.len(),
            count == recent(times@.take(i as int), now),
        decreases times@.len() - i,
    {
        assert(times@.take(i + 1).drop_last() =~= times@.take(i as int));
        if now <= times[i] || now - times[i] <= RPS_WINDOW_NS {
            count = count + 1;
        }
        i = i + 1;
    }
    assert(times@.take(i as int) =~= times@);
    count
}

/// Appends the samples of one backend.
fn append_samples(all: &mut Vec<u64>, samples: &VecDeque<u64>)
    ensures
        final(all)@ == old(all)@ + samples@,
{
    let mut i: usize = 0;
    assert(all@ =~= old(all)@ + samples@.take(0));
    while i < samples.len()
        invariant
            i <= samples@.len(),
            all@ == old(all)@ + samples@.take(i as int),
        decreases samples@.len() - i,
    {
        all.push(samples[i]);
        i = i + 1;
        assert(all@ =~= old(all)@ + samples@.take(i as int));
    }
    assert(samples@.take(i as int) =~= samples@);
}

} // verus!
