use loadwright::config::{
    current_scheduled_floor, decide_scale_action, default_cooldown, default_listen_port,
    parse_hhmm, ConfigError, Resources, ScaleAction, ScalingConfig, ScalingMetric, ScheduleConfig,
    ScheduleEntry, ServiceConfig, ServiceMeta,
};
use loadwright::real64::Real64;

const SAMPLE: &str = r#"
[service]
name = "exam-portal"
image = "ghcr.io/university/exam-portal:latest"
port = 8080
health_check = "/healthz"

[resources]
cpu_limit = "0.5"
memory_limit = "512m"

[scaling]
min_instances = 1
max_instances = 10
metric = "p95_latency_ms"
scale_up_threshold = 800
scale_down_threshold = 200
cooldown_secs = 60

[scaling.schedule]
entries = [
  { at = "08:55", instances = 6 },
  { at = "10:30", instances = 1 },
]
"#;

fn real64(value: f64) -> Real64 {
    Real64::from_bits(value.to_bits())
}

fn text(table: &toml::Table, key: &str) -> String {
    table[key].as_str().unwrap().to_string()
}

fn number(table: &toml::Table, key: &str) -> i64 {
    table[key].as_integer().unwrap()
}

fn threshold(table: &toml::Table, key: &str) -> Real64 {
    match table[key].as_float() {
        Some(value) => real64(value),
        None => real64(number(table, key) as f64),
    }
}

fn schedule_of(scaling: &toml::Table) -> Option<ScheduleConfig> {
    let schedule = scaling.get("schedule")?.as_table().unwrap();
    let mut entries = Vec::new();
    for entry in schedule["entries"].as_array().unwrap() {
        let entry = entry.as_table().unwrap();
        entries.push(ScheduleEntry {
            at: text(entry, "at"),
            instances: number(entry, "instances") as u32,
        });
    }
    Some(ScheduleConfig { entries })
}

fn metric_of(name: &str) -> ScalingMetric {
    match name {
        "p95_latency_ms" => ScalingMetric::P95LatencyMs,
        "cpu" => ScalingMetric::Cpu,
        "active_connections" => ScalingMetric::ActiveConnections,
        "requests_per_second" => ScalingMetric::RequestsPerSecond,
        other => panic!("unknown metric {other}"),
    }
}

fn from_str(raw: &str) -> Result<ServiceConfig, ConfigError> {
    let root: toml::Table = toml::from_str(raw).unwrap();
    let service = root["service"].as_table().unwrap();
    let scaling = root["scaling"].as_table().unwrap();
    let resources = match root.get("resources") {
        Some(resources) => {
            let resources = resources.as_table().unwrap();
            Resources {
                cpu_limit: Some(text(resources, "cpu_limit")),
                memory_limit: Some(text(resources, "memory_limit")),
            }
        }
        None => Resources::default(),
    };
    let config = ServiceConfig {
        service: ServiceMeta {
            name: text(service, "name"),
            image: text(service, "image"),
            port: number(service, "port") as u16,
            health_check: text(service, "health_check"),
            listen_port: match service.get("listen_port") {
                Some(port) => port.as_integer().unwrap() as u16,
                None => default_listen_port(),
            },
        },
        resources,
        scaling: ScalingConfig {
            min_instances: number(scaling, "min_instances") as u32,
            max_instances: number(scaling, "max_instances") as u32,
            metric: metric_of(&text(scaling, "metric")),
            scale_up_threshold: threshold(scaling, "scale_up_threshold"),
            scale_down_threshold: threshold(scaling, "scale_down_threshold"),
            cooldown_secs: match scaling.get("cooldown_secs") {
                Some(secs) => secs.as_integer().unwrap() as u64,
                None => default_cooldown(),
            },
            schedule: schedule_of(scaling),
        },
    };
    config.validate()?;
    Ok(config)
}

#[test]
fn parses_sample_config() {
    let cfg = from_str(SAMPLE).unwrap();
    assert_eq!(cfg.service.name, "exam-portal");
    assert_eq!(cfg.scaling.metric, ScalingMetric::P95LatencyMs);
    assert_eq!(cfg.scaling.schedule.unwrap().entries.len(), 2);
}

#[test]
fn rejects_bad_thresholds() {
    let bad = SAMPLE.replace("scale_up_threshold = 800", "scale_up_threshold = 100");
    assert!(from_str(&bad).is_err());
}

#[test]
fn each_broken_rule_has_its_message() {
    let zero = SAMPLE.replace("min_instances = 1", "min_instances = 0");
    assert_eq!(
        from_str(&zero).unwrap_err().message(),
        "min_instances must be >= 1 (need at least one replica to serve traffic)"
    );
    let few = SAMPLE.replace("min_instances = 1", "min_instances = 11");
    assert_eq!(
        from_str(&few).unwrap_err().message(),
        "max_instances must be >= min_instances"
    );
    let equal = SAMPLE.replace("scale_up_threshold = 800", "scale_up_threshold = 200");
    assert_eq!(
        from_str(&equal).unwrap_err().message(),
        "scale_up_threshold must be greater than scale_down_threshold"
    );
    let late = SAMPLE.replace("10:30", "25:30");
    assert_eq!(
        from_str(&late).unwrap_err().message(),
        "invalid schedule time '25:30', expected HH:MM"
    );
}

#[test]
fn the_first_broken_rule_is_reported() {
    let both = SAMPLE
        .replace("min_instances = 1", "min_instances = 0")
        .replace("08:55", "noon");
    assert!(matches!(from_str(&both), Err(ConfigError::NoInstances)));
    let times = SAMPLE.replace("08:55", "first").replace("10:30", "second");
    match from_str(&times) {
        Err(ConfigError::ScheduleTime(at)) => assert_eq!(at, "first"),
        other => panic!("unexpected {other:?}"),
    }
}

#[test]
fn thresholds_that_are_no_numbers_are_refused() {
    let mut cfg = from_str(SAMPLE).unwrap();
    cfg.scaling.scale_up_threshold = real64(f64::NAN);
    assert!(matches!(cfg.validate(), Err(ConfigError::ThresholdOrder)));
    cfg.scaling.scale_up_threshold = real64(f64::INFINITY);
    assert!(cfg.validate().is_ok());
    cfg.scaling.scale_down_threshold = real64(f64::NAN);
    assert!(matches!(cfg.validate(), Err(ConfigError::ThresholdOrder)));
}

#[test]
fn defaults() {
    assert_eq!(default_listen_port(), 8080);
    assert_eq!(default_cooldown(), 60);
    assert!(Resources::default().cpu_limit.is_none());
    assert!(Resources::default().memory_limit.is_none());
}

#[test]
fn hhmm_parsing() {
    assert_eq!(parse_hhmm("08:55"), Some(8 * 60 + 55));
    assert_eq!(parse_hhmm("23:59"), Some(23 * 60 + 59));
    assert_eq!(parse_hhmm("24:00"), None);
    assert_eq!(parse_hhmm("nonsense"), None);
}

#[test]
fn hhmm_edge_cases() {
    assert_eq!(parse_hhmm("00:00"), Some(0));
    assert_eq!(parse_hhmm("08:60"), None);
    for malformed in [
        "", ":", "8:05", "08:5", "8:", ":05", "+8:05", "08:+5", "008:05", "08:055", "08:05:1",
        " 8:05", "08:05 ", "-8:05", "08.05", "0805", "08:0x", "x8:05", "\u{0660}8:05",
    ] {
        assert_eq!(parse_hhmm(malformed), None, "{malformed}");
    }
}

#[test]
fn every_minute_of_the_day_is_read_back() {
    for hour in 0..24u32 {
        for minute in 0..60u32 {
            let at = format!("{hour:02}:{minute:02}");
            assert_eq!(parse_hhmm(&at), Some(hour * 60 + minute));
        }
    }
}

fn entry(at: &str, instances: u32) -> ScheduleEntry {
    ScheduleEntry { at: at.into(), instances }
}

fn sample_schedule() -> ScheduleConfig {
    ScheduleConfig {
        entries: vec![
            ScheduleEntry { at: "08:55".into(), instances: 6 },
            ScheduleEntry { at: "10:30".into(), instances: 1 },
        ],
    }
}

#[test]
fn schedule_floor_before_first_entry_uses_last_entry_of_day() {
    // 3am: nothing has fired yet today, so yesterday's 10:30 entry
    // (the last one in the list) is still considered in effect.
    let floor = current_scheduled_floor(&sample_schedule(), 3 * 60);
    assert_eq!(floor, Some(1));
}

#[test]
fn schedule_floor_during_prewarm_window() {
    // 9:10am: past 08:55, before 10:30 -> the pre-warm floor of 6 applies.
    let floor = current_scheduled_floor(&sample_schedule(), 9 * 60 + 10);
    assert_eq!(floor, Some(6));
}

#[test]
fn schedule_floor_after_scale_down_entry() {
    let floor = current_scheduled_floor(&sample_schedule(), 11 * 60);
    assert_eq!(floor, Some(1));
}

#[test]
fn schedule_floor_empty_schedule_is_none() {
    let empty = ScheduleConfig { entries: vec![] };
    assert_eq!(current_scheduled_floor(&empty, 9 * 60), None);
}

#[test]
fn schedule_floor_goes_by_time_not_by_position() {
    let schedule = ScheduleConfig { entries: vec![entry("10:30", 1), entry("08:55", 6)] };
    assert_eq!(current_scheduled_floor(&schedule, 3 * 60), Some(1));
    assert_eq!(current_scheduled_floor(&schedule, 8 * 60 + 54), Some(1));
    assert_eq!(current_scheduled_floor(&schedule, 8 * 60 + 55), Some(6));
    assert_eq!(current_scheduled_floor(&schedule, 10 * 60 + 29), Some(6));
    assert_eq!(current_scheduled_floor(&schedule, 10 * 60 + 30), Some(1));
}

#[test]
fn schedule_floor_of_the_same_minute_is_the_later_entry() {
    let schedule = ScheduleConfig { entries: vec![entry("09:00", 2), entry("09:00", 3)] };
    assert_eq!(current_scheduled_floor(&schedule, 9 * 60), Some(3));
    assert_eq!(current_scheduled_floor(&schedule, 8 * 60), Some(3));
}

#[test]
fn schedule_floor_counts_a_malformed_time_as_midnight() {
    let schedule = ScheduleConfig { entries: vec![entry("noon", 4), entry("12:00", 2)] };
    assert_eq!(current_scheduled_floor(&schedule, 0), Some(4));
    assert_eq!(current_scheduled_floor(&schedule, 12 * 60), Some(2));
}

#[test]
fn schedule_floor_holds_overnight_and_between_entries() {
    let schedule = sample_schedule();
    for minute in 0..8 * 60 + 55 {
        assert_eq!(
            current_scheduled_floor(&schedule, minute),
            current_scheduled_floor(&schedule, 23 * 60 + 59)
        );
    }
    for minute in 8 * 60 + 55..10 * 60 + 30 {
        assert_eq!(current_scheduled_floor(&schedule, minute), Some(6));
    }
}

fn sample_scaling() -> ScalingConfig {
    ScalingConfig {
        min_instances: 1,
        max_instances: 10,
        metric: ScalingMetric::P95LatencyMs,
        scale_up_threshold: real64(800.0),
        scale_down_threshold: real64(200.0),
        cooldown_secs: 60,
        schedule: None,
    }
}

#[test]
fn decide_catches_up_to_floor_regardless_of_metric() {
    // Only 1 instance running, but the schedule says we should have 6 —
    // scale up even though latency looks fine.
    let action = decide_scale_action(1, Some(real64(50.0)), 6, &sample_scaling());
    assert_eq!(action, ScaleAction::Up);
}

#[test]
fn decide_scales_up_on_high_latency() {
    let action = decide_scale_action(2, Some(real64(900.0)), 1, &sample_scaling());
    assert_eq!(action, ScaleAction::Up);
}

#[test]
fn decide_respects_max_instances() {
    let action = decide_scale_action(10, Some(real64(900.0)), 1, &sample_scaling());
    assert_eq!(action, ScaleAction::Hold);
}

#[test]
fn decide_scales_down_on_low_latency() {
    let action = decide_scale_action(4, Some(real64(50.0)), 1, &sample_scaling());
    assert_eq!(action, ScaleAction::Down);
}

#[test]
fn decide_wont_scale_down_below_floor() {
    let action = decide_scale_action(1, Some(real64(50.0)), 1, &sample_scaling());
    assert_eq!(action, ScaleAction::Hold);
}

#[test]
fn decide_holds_with_no_metric_data() {
    let action = decide_scale_action(2, None, 1, &sample_scaling());
    assert_eq!(action, ScaleAction::Hold);
}

#[test]
fn decide_holds_in_dead_zone_between_thresholds() {
    let action = decide_scale_action(3, Some(real64(400.0)), 1, &sample_scaling());
    assert_eq!(action, ScaleAction::Hold);
}

#[test]
fn decide_holds_on_the_thresholds_and_without_a_number() {
    assert_eq!(decide_scale_action(3, Some(real64(800.0)), 1, &sample_scaling()), ScaleAction::Hold);
    assert_eq!(decide_scale_action(3, Some(real64(200.0)), 1, &sample_scaling()), ScaleAction::Hold);
    assert_eq!(
        decide_scale_action(3, Some(real64(f64::NAN)), 1, &sample_scaling()),
        ScaleAction::Hold
    );
}

#[test]
fn decide_keeps_min_instances_under_a_lower_floor() {
    let mut scaling = sample_scaling();
    scaling.min_instances = 3;
    assert_eq!(decide_scale_action(2, None, 0, &scaling), ScaleAction::Up);
    assert_eq!(decide_scale_action(3, Some(real64(1.0)), 0, &scaling), ScaleAction::Hold);
    assert_eq!(decide_scale_action(4, Some(real64(1.0)), 0, &scaling), ScaleAction::Down);
}

#[test]
fn decide_follows_a_floor_above_the_maximum() {
    assert_eq!(decide_scale_action(10, Some(real64(1.0)), 12, &sample_scaling()), ScaleAction::Up);
    assert_eq!(decide_scale_action(12, Some(real64(900.0)), 12, &sample_scaling()), ScaleAction::Hold);
}
