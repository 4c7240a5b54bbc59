use loadwright::config::ScalingMetric;
use loadwright::figures::sort_samples;
use loadwright::metrics::{MetricsRegistry, LATENCY_WINDOW, RPS_WINDOW_NS, RPS_WINDOW_SECS};

const SECOND: u128 = 1_000_000_000;

fn value_at(registry: &MetricsRegistry, metric: ScalingMetric, now: u128) -> Option<f64> {
    registry.value_for(metric, now).map(|reading| f64::from_bits(reading.to_bits()))
}

fn value(registry: &MetricsRegistry, metric: ScalingMetric) -> Option<f64> {
    value_at(registry, metric, SECOND)
}

const METRICS: [ScalingMetric; 4] = [
    ScalingMetric::P95LatencyMs,
    ScalingMetric::ActiveConnections,
    ScalingMetric::RequestsPerSecond,
    ScalingMetric::Cpu,
];

#[test]
fn the_window_is_the_same_in_both_units() {
    assert_eq!(RPS_WINDOW_NS, RPS_WINDOW_SECS as u128 * SECOND);
}

#[test]
fn an_empty_registry() {
    let registry = MetricsRegistry::new();
    assert_eq!(registry.active_for("a"), 0);
    assert_eq!(registry.active_connections_total(), 0);
    assert_eq!(registry.p95_sample(), None);
    for metric in METRICS {
        assert_eq!(value(&registry, metric), None);
    }
}

#[test]
fn nothing_reads_without_traffic() {
    let mut registry = MetricsRegistry::new();
    registry.track("a");
    let ghost = registry.begin_active("ghost");
    registry.record_latency("ghost", 5, SECOND);
    registry.end_active(ghost);
    for metric in METRICS {
        assert_eq!(value(&registry, metric), None);
    }
}

#[test]
fn traffic_is_not_forgotten() {
    let mut registry = MetricsRegistry::new();
    registry.track("a");
    let guard = registry.begin_active("a");
    assert_eq!(value(&registry, ScalingMetric::ActiveConnections), Some(1.0));
    assert_eq!(value(&registry, ScalingMetric::RequestsPerSecond), Some(0.0));
    assert_eq!(value(&registry, ScalingMetric::P95LatencyMs), None);
    assert_eq!(value(&registry, ScalingMetric::Cpu), None);
    registry.end_active(guard);
    assert_eq!(value(&registry, ScalingMetric::ActiveConnections), Some(0.0));
    registry.untrack("a");
    assert_eq!(value(&registry, ScalingMetric::ActiveConnections), Some(0.0));
}

#[test]
fn requests_in_flight_are_counted_per_backend() {
    let mut registry = MetricsRegistry::new();
    registry.track("a");
    registry.track("b");
    let first = registry.begin_active("a");
    let second = registry.begin_active("a");
    let third = registry.begin_active("b");
    assert_eq!(registry.active_for("a"), 2);
    assert_eq!(registry.active_for("b"), 1);
    assert_eq!(registry.active_connections_total(), 3);
    assert_eq!(value(&registry, ScalingMetric::ActiveConnections), Some(3.0));
    registry.end_active(first);
    registry.end_active(third);
    assert_eq!(registry.active_for("a"), 1);
    assert_eq!(registry.active_for("b"), 0);
    registry.end_active(second);
    assert_eq!(registry.active_connections_total(), 0);
}

#[test]
fn tracking_twice_keeps_the_figures() {
    let mut registry = MetricsRegistry::new();
    registry.track("a");
    let guard = registry.begin_active("a");
    registry.record_latency("a", 40, SECOND);
    registry.track("a");
    assert_eq!(registry.active_for("a"), 1);
    assert_eq!(registry.p95_sample(), Some(40));
    registry.end_active(guard);
    assert_eq!(registry.active_for("a"), 0);
}

#[test]
fn untracked_backends_have_no_figures() {
    let mut registry = MetricsRegistry::new();
    let guard = registry.begin_active("ghost");
    registry.record_latency("ghost", 40, SECOND);
    assert_eq!(registry.active_for("ghost"), 0);
    assert_eq!(registry.p95_sample(), None);
    registry.track("ghost");
    registry.end_active(guard);
    assert_eq!(registry.active_for("ghost"), 0);
    registry.record_latency("ghost", 40, SECOND);
    registry.untrack("ghost");
    assert_eq!(registry.p95_sample(), None);
    registry.untrack("ghost");
    assert_eq!(registry.active_connections_total(), 0);
}

#[test]
fn a_guard_never_counts_for_a_later_registration() {
    let mut registry = MetricsRegistry::new();
    registry.track("a");
    let stale = registry.begin_active("a");
    registry.untrack("a");
    registry.track("a");
    let live = registry.begin_active("a");
    registry.end_active(stale);
    assert_eq!(registry.active_for("a"), 1);
    registry.end_active(live);
    assert_eq!(registry.active_for("a"), 0);
}

#[test]
fn p95_over_several_backends() {
    let mut registry = MetricsRegistry::new();
    registry.track("a");
    registry.track("b");
    for latency in 1..=20u128 {
        let backend = if latency % 3 == 0 { "a" } else { "b" };
        registry.record_latency(backend, latency, SECOND);
    }
    assert_eq!(registry.p95_sample(), Some(19));
    assert_eq!(value(&registry, ScalingMetric::P95LatencyMs), Some(19.0));
    registry.record_latency("a", 21, SECOND);
    assert_eq!(registry.p95_sample(), Some(20));
}

#[test]
fn p95_of_one_sample_is_that_sample() {
    let mut registry = MetricsRegistry::new();
    registry.track("a");
    registry.record_latency("a", 7, SECOND);
    assert_eq!(registry.p95_sample(), Some(7));
    assert_eq!(registry.p95_latency_ms().unwrap().to_bits(), 7.0f64.to_bits());
}

#[test]
fn p95_position_agrees_with_floating_point() {
    for samples in 1..=200_000usize {
        let position = (samples as u128 * 95 + 99) / 100;
        let index = (((samples as f64) * 0.95).ceil() as usize).saturating_sub(1).min(samples - 1);
        assert_eq!(position as usize - 1, index, "{samples} samples");
    }
}

#[test]
fn p95_by_sorting_for_every_window_size() {
    let mut registry = MetricsRegistry::new();
    registry.track("a");
    let mut kept: Vec<u64> = Vec::new();
    for i in 0..300u64 {
        let latency = (i * 7919) % 1013;
        registry.record_latency("a", latency as u128, SECOND);
        kept.push(latency);
        if kept.len() > LATENCY_WINDOW {
            kept.remove(0);
        }
        let mut sorted = kept.clone();
        sorted.sort_unstable();
        let index = (((sorted.len() as f64) * 0.95).ceil() as usize)
            .saturating_sub(1)
            .min(sorted.len() - 1);
        assert_eq!(registry.p95_sample(), Some(sorted[index]));
    }
}

#[test]
fn the_latency_window_forgets_the_oldest() {
    let mut registry = MetricsRegistry::new();
    registry.track("a");
    for _ in 0..LATENCY_WINDOW {
        registry.record_latency("a", 1000, SECOND);
    }
    assert_eq!(registry.p95_sample(), Some(1000));
    for _ in 0..LATENCY_WINDOW {
        registry.record_latency("a", 1, SECOND);
    }
    assert_eq!(registry.p95_sample(), Some(1));
}

#[test]
fn latencies_keep_their_low_bits() {
    let mut registry = MetricsRegistry::new();
    registry.track("a");
    registry.record_latency("a", (1u128 << 64) + 5, SECOND);
    assert_eq!(registry.p95_sample(), Some(5));
}

#[test]
fn requests_per_second_counts_the_window() {
    let mut registry = MetricsRegistry::new();
    registry.track("a");
    registry.track("b");
    for i in 0..6u128 {
        registry.record_latency("a", 1, (i + 1) * SECOND);
    }
    let rate = f64::from_bits(registry.requests_per_second(6 * SECOND).to_bits());
    assert_eq!(rate, 6.0 / 60.0);
    registry.record_latency("b", 1, 6 * SECOND);
    let rate = |registry: &MetricsRegistry, now| {
        value_at(registry, ScalingMetric::RequestsPerSecond, now)
    };
    assert_eq!(rate(&registry, 6 * SECOND), Some(7.0 / 60.0));
    // The first request is exactly one window old and still counts.
    assert_eq!(rate(&registry, SECOND + RPS_WINDOW_NS), Some(7.0 / 60.0));
    registry.record_latency("a", 1, SECOND + RPS_WINDOW_NS);
    assert_eq!(rate(&registry, SECOND + RPS_WINDOW_NS), Some(8.0 / 60.0));
    // Now it is older than the window.
    assert_eq!(rate(&registry, SECOND + RPS_WINDOW_NS + 1), Some(7.0 / 60.0));
    registry.record_latency("a", 1, SECOND + RPS_WINDOW_NS + 1);
    assert_eq!(rate(&registry, SECOND + RPS_WINDOW_NS + 1), Some(8.0 / 60.0));
    registry.untrack("b");
    assert_eq!(rate(&registry, SECOND + RPS_WINDOW_NS + 1), Some(7.0 / 60.0));
}

#[test]
fn the_rate_of_an_idle_backend_falls_to_zero() {
    let mut registry = MetricsRegistry::new();
    registry.track("a");
    registry.record_latency("a", 1, SECOND);
    let last = SECOND + RPS_WINDOW_NS;
    assert_eq!(registry.requests_per_second(last).to_bits(), (1.0f64 / 60.0).to_bits());
    assert_eq!(registry.requests_per_second(last + 1).to_bits(), 0.0f64.to_bits());
    assert_eq!(value_at(&registry, ScalingMetric::RequestsPerSecond, last + 1), Some(0.0));
}

#[test]
fn a_clock_that_runs_backwards_drops_nothing() {
    let mut registry = MetricsRegistry::new();
    registry.track("a");
    registry.record_latency("a", 1, 100 * SECOND);
    registry.record_latency("a", 1, SECOND);
    assert_eq!(value(&registry, ScalingMetric::RequestsPerSecond), Some(2.0 / 60.0));
}

#[test]
fn many_backends() {
    let mut registry = MetricsRegistry::new();
    let mut guards = Vec::new();
    for i in 0..50u32 {
        let id = format!("backend-{i}");
        registry.track(&id);
        registry.record_latency(&id, i as u128, SECOND);
        for _ in 0..i {
            guards.push(registry.begin_active(&id));
        }
    }
    assert_eq!(registry.active_connections_total(), 49 * 50 / 2);
    assert_eq!(registry.p95_sample(), Some(47));
    for guard in guards {
        registry.end_active(guard);
    }
    assert_eq!(registry.active_connections_total(), 0);
}

#[test]
fn sorting() {
    assert_eq!(sort_samples(vec![]), vec![]);
    assert_eq!(sort_samples(vec![3, 1, 2, 3, 0]), vec![0, 1, 2, 3, 3]);
    let mut samples: Vec<u64> = (0..1000u64).map(|i| (i * 7919) % 257).collect();
    let sorted = sort_samples(samples.clone());
    samples.sort_unstable();
    assert_eq!(sorted, samples);
}
