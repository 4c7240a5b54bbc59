use loadwright::config::{Resources, ServiceMeta};
use loadwright::limits::{read_cpus, read_memory};
use loadwright::orchestrator::{
    clone_instances, is_success, list_instances, plan_container, service_filters, started_instance,
    ContainerSummary, Instance, Label, PortMapping, MANAGED_LABEL, SERVICE_LABEL, STOP_GRACE_SECS,
};

fn instance(id: &str, host_port: u16) -> Instance {
    Instance { container_id: id.to_string(), host_port, container_port: 8080 }
}

fn service() -> ServiceMeta {
    ServiceMeta {
        name: "exam-portal".to_string(),
        image: "ghcr.io/university/exam-portal:latest".to_string(),
        port: 8080,
        health_check: "/healthz".to_string(),
        listen_port: 9000,
    }
}

fn resources(cpu_limit: Option<&str>, memory_limit: Option<&str>) -> Resources {
    Resources {
        cpu_limit: cpu_limit.map(|limit| limit.to_string()),
        memory_limit: memory_limit.map(|limit| limit.to_string()),
    }
}

fn label(key: &str, value: &str) -> Label {
    Label { key: key.to_string(), value: value.to_string() }
}

#[test]
fn base_url_names_the_host_port() {
    assert_eq!(instance("a", 32891).base_url(), "http://127.0.0.1:32891");
    assert_eq!(instance("a", 0).base_url(), "http://127.0.0.1:0");
    assert_eq!(instance("a", 65535).base_url(), "http://127.0.0.1:65535");
    assert_eq!(instance("a", 100).base_url(), "http://127.0.0.1:100");
}

#[test]
fn health_url_appends_the_path() {
    assert_eq!(instance("a", 32891).health_url("/healthz"), "http://127.0.0.1:32891/healthz");
}

#[test]
fn success_is_the_two_hundreds() {
    assert!(!is_success(199));
    assert!(is_success(200));
    assert!(is_success(299));
    assert!(!is_success(300));
    assert!(!is_success(503));
}

#[test]
fn container_plan() {
    let plan = plan_container(&service(), &Resources::default(), 32891);
    assert_eq!(plan.name, "loadwright-exam-portal-32891");
    assert_eq!(plan.image, "ghcr.io/university/exam-portal:latest");
    assert_eq!(plan.container_port, "8080/tcp");
    assert_eq!(plan.host_ip, "127.0.0.1");
    assert_eq!(plan.host_port, "32891");
    assert_eq!(plan.labels.len(), 2);
    assert_eq!(plan.labels[0].key, "loadwright.managed");
    assert_eq!(plan.labels[0].value, "true");
    assert_eq!(plan.labels[1].key, "loadwright.service");
    assert_eq!(plan.labels[1].value, "exam-portal");
    assert_eq!(plan.nano_cpus, None);
    assert_eq!(plan.memory, None);
    assert_eq!(MANAGED_LABEL, "loadwright.managed");
    assert_eq!(SERVICE_LABEL, "loadwright.service");
    assert_eq!(STOP_GRACE_SECS, 10);
}

#[test]
fn container_names_differ_by_host_port() {
    let a = plan_container(&service(), &Resources::default(), 1);
    let b = plan_container(&service(), &Resources::default(), 11);
    assert_ne!(a.name, b.name);
}

#[test]
fn planned_containers_are_limited() {
    let plan = plan_container(&service(), &resources(Some("0.5"), Some("512m")), 1);
    assert_eq!(plan.nano_cpus, Some(500_000_000));
    assert_eq!(plan.memory, Some(512 * 1024 * 1024));
    let plan = plan_container(&service(), &resources(Some("half"), Some("1g")), 1);
    assert_eq!(plan.nano_cpus, None);
    assert_eq!(plan.memory, Some(1 << 30));
}

#[test]
fn cpu_limits() {
    assert_eq!(read_cpus("2"), Some(2_000_000_000));
    assert_eq!(read_cpus("1.25"), Some(1_250_000_000));
    assert_eq!(read_cpus("0.000000001"), Some(1));
    assert_eq!(read_cpus("007.50"), Some(7_500_000_000));
    assert_eq!(read_cpus("9223372036"), Some(9_223_372_036_000_000_000));
    assert_eq!(read_cpus("9223372036.854775807"), Some(i64::MAX));
    for refused in [
        "", ".", "1.", ".5", "1.2.3", "-1", "+1", "1,5", "0.0000000001", "1e3", "9223372037",
        "9223372036.854775808", "99999999999999999999",
    ] {
        assert_eq!(read_cpus(refused), None, "{refused}");
    }
}

#[test]
fn memory_limits() {
    assert_eq!(read_memory("0"), Some(0));
    assert_eq!(read_memory("4096"), Some(4096));
    assert_eq!(read_memory("7b"), Some(7));
    assert_eq!(read_memory("3k"), Some(3 * 1024));
    assert_eq!(read_memory("512m"), Some(536_870_912));
    assert_eq!(read_memory("512M"), Some(536_870_912));
    assert_eq!(read_memory("1g"), Some(1_073_741_824));
    assert_eq!(read_memory("9223372036854775807"), Some(i64::MAX));
    for refused in [
        "", "m", "1.5g", "1mb", "-1m", "1 m", "1t", "9223372036854775808", "8589934592g",
        "99999999999999999999b",
    ] {
        assert_eq!(read_memory(refused), None, "{refused}");
    }
}

#[test]
fn planned_containers_are_found_by_their_labels() {
    let plan = plan_container(&service(), &Resources::default(), 32891);
    let filters = service_filters("exam-portal");
    assert_eq!(filters, vec!["loadwright.managed=true", "loadwright.service=exam-portal"]);
    for filter in filters {
        assert!(plan.labels.iter().any(|label| format!("{}={}", label.key, label.value) == filter));
    }
    let found = ContainerSummary {
        id: Some("a".to_string()),
        labels: plan.labels,
        ports: Some(vec![PortMapping { private_port: 8080, public_port: Some(32891) }]),
    };
    assert_eq!(list_instances(&vec![found], "exam-portal"), vec![instance("a", 32891)]);
}

#[test]
fn a_started_container_is_an_instance() {
    assert_eq!(
        started_instance(&service(), 32891, "abc".to_string()),
        Instance { container_id: "abc".to_string(), host_port: 32891, container_port: 8080 }
    );
}

fn listed(id: Option<&str>, ports: Option<Vec<(u16, Option<u16>)>>) -> ContainerSummary {
    ContainerSummary {
        id: id.map(|id| id.to_string()),
        labels: vec![label("loadwright.service", "exam-portal"), label("loadwright.managed", "true")],
        ports: ports.map(|ports| {
            ports
                .into_iter()
                .map(|(private_port, public_port)| PortMapping { private_port, public_port })
                .collect()
        }),
    }
}

#[test]
fn listing_keeps_containers_with_an_id_and_a_published_port() {
    let containers = vec![
        listed(Some("a"), Some(vec![(8080, Some(1000))])),
        listed(None, Some(vec![(8080, Some(1001))])),
        listed(Some("c"), None),
        listed(Some("d"), Some(vec![(8080, None)])),
        listed(Some("e"), Some(vec![(9090, None), (8080, Some(1004)), (8081, Some(1005))])),
        listed(Some("f"), Some(vec![])),
    ];
    assert_eq!(list_instances(&containers, "exam-portal"), vec![instance("a", 1000), instance("e", 1004)]);
    assert_eq!(list_instances(&vec![], "exam-portal"), vec![]);
}

#[test]
fn listing_leaves_unrelated_containers_alone() {
    let port = Some(vec![(8080, Some(1000))]);
    let mut unmanaged = listed(Some("a"), port.clone());
    unmanaged.labels = vec![label("loadwright.service", "exam-portal")];
    let mut disowned = listed(Some("b"), port.clone());
    disowned.labels =
        vec![label("loadwright.managed", "false"), label("loadwright.service", "exam-portal")];
    let mut other = listed(Some("c"), port.clone());
    other.labels = vec![label("loadwright.managed", "true"), label("loadwright.service", "shop")];
    let mut bare = listed(Some("d"), port.clone());
    bare.labels = vec![];
    let ours = listed(Some("e"), port);
    let containers = vec![unmanaged, disowned, other, bare, ours];
    assert_eq!(list_instances(&containers, "exam-portal"), vec![instance("e", 1000)]);
    assert_eq!(list_instances(&containers, "shop"), vec![instance("c", 1000)]);
}

#[test]
fn copies_are_equal() {
    let instances = vec![instance("a", 1), instance("b", 2)];
    assert_eq!(clone_instances(&instances), instances);
    assert_eq!(instances[1].clone(), instances[1]);
}
