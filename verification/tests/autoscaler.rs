use loadwright::autoscaler::{
    choose_victim, local_now_minutes, minutes_of_day, Autoscaler, TickPlan, SECOND_NS,
    TICK_INTERVAL_SECS,
};
use loadwright::config::{
    ScaleAction, ScalingConfig, ScalingMetric, ScheduleConfig, ScheduleEntry, ServiceMeta,
};
use loadwright::health::{HealthWait, WaitStep, PAUSE_MS, SCALE_UP_CHECKS};
use loadwright::metrics::MetricsRegistry;
use loadwright::orchestrator::Instance;
use loadwright::proxy::BackendPool;
use loadwright::real64::Real64;
use loadwright::startup::{listen_address, Startup};

const START: u128 = 1000 * SECOND_NS;

fn real64(value: f64) -> Real64 {
    Real64::from_bits(value.to_bits())
}

fn instance(id: &str) -> Instance {
    Instance { container_id: id.to_string(), host_port: 1000, container_port: 8080 }
}

fn service() -> ServiceMeta {
    ServiceMeta {
        name: "exam-portal".to_string(),
        image: "portal".to_string(),
        port: 8080,
        health_check: "/healthz".to_string(),
        listen_port: 9000,
    }
}

fn scaling(metric: ScalingMetric) -> ScalingConfig {
    ScalingConfig {
        min_instances: 1,
        max_instances: 10,
        metric,
        scale_up_threshold: real64(800.0),
        scale_down_threshold: real64(200.0),
        cooldown_secs: 60,
        schedule: None,
    }
}

fn scheduled() -> ScalingConfig {
    let mut scaling = scaling(ScalingMetric::P95LatencyMs);
    scaling.schedule = Some(ScheduleConfig {
        entries: vec![
            ScheduleEntry { at: "08:55".to_string(), instances: 6 },
            ScheduleEntry { at: "10:30".to_string(), instances: 1 },
        ],
    });
    scaling
}

fn set_up(ids: &[&str]) -> (BackendPool, MetricsRegistry) {
    let mut pool = BackendPool::new();
    let mut metrics = MetricsRegistry::new();
    pool.set(ids.iter().map(|id| instance(id)).collect());
    for id in ids {
        metrics.track(id);
    }
    (pool, metrics)
}

#[test]
fn no_cooldown_at_start() {
    let autoscaler = Autoscaler::new(service(), scaling(ScalingMetric::P95LatencyMs));
    assert_eq!(autoscaler.last_scale_ns, None);
    assert_eq!(autoscaler.decide(3, Some(real64(900.0)), 0, START), ScaleAction::Up);
    assert_eq!(autoscaler.decide(3, Some(real64(100.0)), 0, START), ScaleAction::Down);
    assert_eq!(TICK_INTERVAL_SECS, 5);
}

#[test]
fn no_cooldown_at_start_however_long_it_is() {
    for cooldown_secs in [0, 90_000, u64::MAX] {
        let mut long = scaling(ScalingMetric::P95LatencyMs);
        long.cooldown_secs = cooldown_secs;
        let autoscaler = Autoscaler::new(service(), long);
        assert_eq!(autoscaler.decide(3, Some(real64(900.0)), 0, 0), ScaleAction::Up);
        assert_eq!(autoscaler.decide(3, Some(real64(100.0)), 0, START), ScaleAction::Down);
    }
}

#[test]
fn cooldown_holds_in_either_direction() {
    let (mut pool, mut metrics) = set_up(&["a", "b"]);
    let mut autoscaler = Autoscaler::new(service(), scaling(ScalingMetric::P95LatencyMs));
    let mut up = autoscaler.begin_scale_up(instance("c"), &mut metrics);
    up.wait = up.wait.checked(true);
    assert_eq!(autoscaler.finish_scale_up(up, &mut pool, START + SECOND_NS), 3);
    let soon = START + 60 * SECOND_NS;
    assert_eq!(autoscaler.decide(3, Some(real64(900.0)), 0, soon), ScaleAction::Hold);
    assert_eq!(autoscaler.decide(3, Some(real64(100.0)), 0, soon), ScaleAction::Hold);
    let later = START + 61 * SECOND_NS;
    assert_eq!(autoscaler.decide(3, Some(real64(900.0)), 0, later), ScaleAction::Up);
    assert_eq!(autoscaler.decide(3, Some(real64(100.0)), 0, later), ScaleAction::Down);
    assert_eq!(autoscaler.decide(3, Some(real64(900.0)), 0, 0), ScaleAction::Hold);
}

#[test]
fn catching_up_to_the_floor_bypasses_the_cooldown() {
    let mut autoscaler = Autoscaler::new(service(), scheduled());
    autoscaler.last_scale_ns = Some(START);
    assert_eq!(autoscaler.decide(5, None, 8 * 60 + 56, START), ScaleAction::Up);
    assert_eq!(autoscaler.decide(6, Some(real64(900.0)), 8 * 60 + 56, START), ScaleAction::Hold);
    assert_eq!(autoscaler.decide(0, None, 11 * 60, START), ScaleAction::Up);
}

#[test]
fn an_empty_schedule_leaves_the_minimum() {
    let mut empty = scaling(ScalingMetric::P95LatencyMs);
    empty.min_instances = 2;
    empty.schedule = Some(ScheduleConfig { entries: vec![] });
    let autoscaler = Autoscaler::new(service(), empty);
    assert_eq!(autoscaler.decide(1, None, 0, START), ScaleAction::Up);
    assert_eq!(autoscaler.decide(2, Some(real64(1.0)), 0, START), ScaleAction::Hold);
}

#[test]
fn a_tick_reads_the_configured_metric() {
    let (pool, mut metrics) = set_up(&["a", "b"]);
    let mut busy = scaling(ScalingMetric::ActiveConnections);
    busy.scale_up_threshold = real64(2.0);
    busy.scale_down_threshold = real64(1.0);
    let autoscaler = Autoscaler::new(service(), busy);
    let mut guards = vec![metrics.begin_active("a"), metrics.begin_active("b")];
    assert!(matches!(autoscaler.tick(&pool, &metrics, 0, START), TickPlan::Rest));
    guards.push(metrics.begin_active("b"));
    assert!(matches!(autoscaler.tick(&pool, &metrics, 0, START), TickPlan::Grow));
    for guard in guards {
        metrics.end_active(guard);
    }
    assert!(matches!(autoscaler.tick(&pool, &metrics, 0, START), TickPlan::Shrink(_)));
    let cpu = Autoscaler::new(service(), scaling(ScalingMetric::Cpu));
    assert!(matches!(cpu.tick(&pool, &metrics, 0, START), TickPlan::Rest));
    let latency = Autoscaler::new(service(), scaling(ScalingMetric::P95LatencyMs));
    assert!(matches!(latency.tick(&pool, &metrics, 0, START), TickPlan::Rest));
    metrics.record_latency("a", 801, START);
    assert!(matches!(latency.tick(&pool, &metrics, 0, START), TickPlan::Grow));
}

#[test]
fn a_rate_that_rounds_to_the_threshold_is_not_below_it() {
    let (pool, mut metrics) = set_up(&["a", "b"]);
    let mut rate = scaling(ScalingMetric::RequestsPerSecond);
    rate.scale_up_threshold = real64(5.0);
    rate.scale_down_threshold = real64(0.1);
    for _ in 0..6 {
        metrics.record_latency("a", 1, START);
    }
    let autoscaler = Autoscaler::new(service(), rate);
    assert!(matches!(autoscaler.tick(&pool, &metrics, 0, START), TickPlan::Rest));
}

#[test]
fn scaling_down_stops_the_least_active() {
    let (mut pool, mut metrics) = set_up(&["a", "b", "c"]);
    let mut autoscaler = Autoscaler::new(service(), scaling(ScalingMetric::P95LatencyMs));
    let _busy = metrics.begin_active("a");
    metrics.record_latency("a", 1, START);
    let TickPlan::Shrink(down) = autoscaler.tick(&pool, &metrics, 0, START) else {
        panic!("not down");
    };
    assert_eq!(down.victim, instance("b"));
    assert_eq!(down.remaining, vec![instance("a"), instance("c")]);
    assert_eq!(autoscaler.finish_scale_down(down, &mut pool, &mut metrics, START), 2);
    assert_eq!(pool.get(), vec![instance("a"), instance("c")]);
    assert_eq!(autoscaler.last_scale_ns, Some(START));
    metrics.record_latency("b", 500, START);
    assert_eq!(metrics.p95_sample(), Some(1));
}

#[test]
fn nobody_is_chosen_from_an_empty_pool() {
    let metrics = MetricsRegistry::new();
    assert!(choose_victim(&vec![], &metrics).is_none());
}

#[test]
fn the_first_of_equals_is_chosen() {
    let (pool, mut metrics) = set_up(&["a", "b", "c"]);
    let _first = metrics.begin_active("a");
    let _second = metrics.begin_active("b");
    let _third = metrics.begin_active("c");
    let down = choose_victim(&pool.get(), &metrics).unwrap();
    assert_eq!(down.victim, instance("a"));
    assert_eq!(down.remaining.len(), 2);
}

#[test]
fn scaling_up_adds_at_the_end() {
    let (mut pool, mut metrics) = set_up(&["a"]);
    let mut autoscaler = Autoscaler::new(service(), scaling(ScalingMetric::P95LatencyMs));
    let mut up = autoscaler.begin_scale_up(instance("b"), &mut metrics);
    assert_eq!(up.wait.step(), WaitStep::Check);
    for _ in 0..SCALE_UP_CHECKS {
        up.wait = up.wait.checked(false).paused();
    }
    assert_eq!(up.wait.step(), WaitStep::GiveUp);
    metrics.record_latency("b", 3, START);
    assert_eq!(metrics.p95_sample(), Some(3));
    assert_eq!(autoscaler.finish_scale_up(up, &mut pool, START + 7), 2);
    assert_eq!(pool.get(), vec![instance("a"), instance("b")]);
    assert_eq!(autoscaler.last_scale_ns, Some(START + 7));
}

#[test]
fn the_local_time_lies_within_the_day() {
    assert!(local_now_minutes() < 1440);
    assert_eq!(minutes_of_day(23, 59), 1439);
    assert_eq!(minutes_of_day(0, 0), 0);
}

#[test]
fn a_wait_checks_and_pauses_until_the_limit() {
    let mut wait = HealthWait::new(SCALE_UP_CHECKS);
    let mut checks = 0;
    let mut pauses = 0;
    loop {
        match wait.step() {
            WaitStep::Check => {
                checks += 1;
                wait = wait.checked(false);
            }
            WaitStep::Pause => {
                pauses += 1;
                wait = wait.paused();
            }
            WaitStep::Ready => panic!("never healthy"),
            WaitStep::GiveUp => break,
        }
    }
    assert_eq!(checks, 10);
    assert_eq!(pauses, 10);
    assert_eq!(pauses * PAUSE_MS, 5000);
    assert_eq!(wait.checked(true).step(), WaitStep::GiveUp);
}

#[test]
fn a_wait_without_limit_ends_only_when_healthy() {
    let mut wait = HealthWait::until_healthy();
    for _ in 0..1000 {
        assert_eq!(wait.step(), WaitStep::Check);
        wait = wait.checked(false);
        assert_eq!(wait.step(), WaitStep::Pause);
        wait = wait.paused();
    }
    wait = wait.checked(true);
    assert_eq!(wait.step(), WaitStep::Ready);
}

#[test]
fn a_healthy_answer_ends_the_wait() {
    let wait = HealthWait::new(2).checked(false).paused();
    assert_eq!(wait.step(), WaitStep::Check);
    let wait = wait.paused();
    assert_eq!(wait.step(), WaitStep::Check);
    let wait = wait.checked(true);
    assert_eq!(wait.step(), WaitStep::Ready);
    assert_eq!(wait.checked(false).paused().step(), WaitStep::Ready);
    assert_eq!(HealthWait::new(0).step(), WaitStep::GiveUp);
}

#[test]
fn service_begins_with_the_minimum() {
    let mut pool = BackendPool::new();
    let mut metrics = MetricsRegistry::new();
    let mut three = scaling(ScalingMetric::P95LatencyMs);
    three.min_instances = 3;
    let mut startup = Startup::new(&three);
    let mut count = 0;
    while startup.needs_instance() {
        count += 1;
        let id = format!("i{count}");
        let wait = HealthWait::until_healthy().checked(true);
        assert_eq!(startup.add_instance(instance(&id), wait, &mut pool, &mut metrics), count);
    }
    assert_eq!(pool.get(), vec![instance("i1"), instance("i2"), instance("i3")]);
    let _guard = metrics.begin_active("i3");
    assert_eq!(metrics.active_for("i3"), 1);
}

#[test]
fn the_proxy_listens_everywhere() {
    assert_eq!(listen_address(9000), "0.0.0.0:9000");
}
