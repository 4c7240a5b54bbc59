use loadwright::metrics::MetricsRegistry;
use loadwright::orchestrator::Instance;
use loadwright::proxy::{
    build_target_url, dispatch, filtered_headers, open_request, plan_forward, settle, BackendPool,
    Dispatch, Header, LoadBalancer, RoundRobin, Settlement, Upstream,
};

fn instance(id: &str, host_port: u16) -> Instance {
    Instance { container_id: id.to_string(), host_port, container_port: 8080 }
}

fn three() -> Vec<Instance> {
    vec![instance("a", 1), instance("b", 2), instance("c", 3)]
}

#[test]
fn round_robin_cycles_in_order() {
    let mut balancer = RoundRobin::default();
    let backends = three();
    let picks: Vec<String> =
        (0..7).map(|_| balancer.pick(&backends).unwrap().container_id).collect();
    assert_eq!(picks, vec!["a", "b", "c", "a", "b", "c", "a"]);
}

#[test]
fn round_robin_of_nothing_is_nothing() {
    let mut balancer = RoundRobin::default();
    assert_eq!(balancer.pick(&[]), None);
    assert_eq!(balancer.counter, 0);
}

#[test]
fn round_robin_follows_a_changing_pool() {
    let mut balancer = RoundRobin { counter: 5 };
    let backends = three();
    assert_eq!(balancer.pick(&backends).unwrap().container_id, "c");
    assert_eq!(balancer.pick(&backends[..2]).unwrap().container_id, "a");
}

#[test]
fn round_robin_counter_wraps() {
    let mut balancer = RoundRobin { counter: usize::MAX };
    let backends = three();
    assert_eq!(balancer.pick(&backends), Some(backends[usize::MAX % 3].clone()));
    assert_eq!(balancer.counter, 0);
}

#[test]
fn pool_holds_what_was_set() {
    let mut pool = BackendPool::new();
    assert_eq!(pool.len(), 0);
    assert_eq!(pool.get(), vec![]);
    pool.set(three());
    assert_eq!(pool.len(), 3);
    assert_eq!(pool.get(), three());
    pool.set(vec![]);
    assert_eq!(pool.len(), 0);
}

#[test]
fn target_urls() {
    let backend = instance("a", 32891);
    assert_eq!(
        build_target_url(&backend, Some("/cards?id=7")),
        "http://127.0.0.1:32891/cards?id=7"
    );
    assert_eq!(build_target_url(&backend, None), "http://127.0.0.1:32891/");
}

fn header(name: &str, value: &str) -> Header {
    Header { name: name.to_string(), value: value.as_bytes().to_vec() }
}

fn pairs(headers: &[Header]) -> Vec<(String, Vec<u8>)> {
    headers.iter().map(|header| (header.name.clone(), header.value.clone())).collect()
}

#[test]
fn hop_by_hop_headers_stay_behind() {
    let headers = vec![
        header("host", "portal.example"),
        header("accept", "text/html"),
        header("connection", "keep-alive"),
        header("cookie", "a=1"),
        header("cookie", "b=2"),
        header("content-length", "12"),
        header("keep-alive", "timeout=5"),
        header("proxy-authenticate", "Basic"),
        header("proxy-authorization", "Basic"),
        header("te", "trailers"),
        header("trailer", "expires"),
        header("transfer-encoding", "chunked"),
        header("upgrade", "websocket"),
        header("x-host", "kept"),
    ];
    let expected = vec![
        header("accept", "text/html"),
        header("cookie", "a=1"),
        header("cookie", "b=2"),
        header("x-host", "kept"),
    ];
    assert_eq!(pairs(&filtered_headers(&headers)), pairs(&expected));
    let outbound = plan_forward(&instance("a", 5), Some("/x"), &headers);
    assert_eq!(outbound.url, "http://127.0.0.1:5/x");
    assert_eq!(pairs(&outbound.headers), pairs(&expected));
}

#[test]
fn no_backend_is_unavailable() {
    let mut metrics = MetricsRegistry::new();
    match dispatch(None, &mut metrics) {
        Dispatch::Refuse(reply) => {
            assert_eq!(reply.status, 503);
            assert_eq!(reply.body, "no healthy backends available");
        }
        other => panic!("unexpected {other:?}"),
    }
    let pool = BackendPool::new();
    let mut balancer = RoundRobin::default();
    assert!(matches!(open_request(&pool, &mut balancer, &mut metrics), Dispatch::Refuse(_)));
}

#[test]
fn requests_go_where_the_balancer_says() {
    let mut metrics = MetricsRegistry::new();
    let mut pool = BackendPool::new();
    pool.set(three());
    let mut balancer = RoundRobin { counter: 4 };
    for expected in ["b", "c", "a", "b"] {
        match open_request(&pool, &mut balancer, &mut metrics) {
            Dispatch::Forward(backend, _) => assert_eq!(backend.container_id, expected),
            other => panic!("unexpected {other:?}"),
        }
    }
    assert_eq!(balancer.counter, 8);
}

#[test]
fn an_answered_request_is_in_flight_until_it_is_sent() {
    let mut metrics = MetricsRegistry::new();
    metrics.track("a");
    let mut pool = BackendPool::new();
    pool.set(vec![instance("a", 1)]);
    let mut balancer = RoundRobin::default();
    let Dispatch::Forward(backend, guard) = open_request(&pool, &mut balancer, &mut metrics) else {
        panic!("refused");
    };
    assert_eq!(backend, instance("a", 1));
    assert_eq!(metrics.active_for("a"), 1);
    let outcome = Upstream::Answered { elapsed_ms: 12, now_ns: 1 };
    let Settlement::Relay(guard) = settle(&backend, guard, outcome, &mut metrics) else {
        panic!("not relayed");
    };
    assert_eq!(metrics.active_for("a"), 1);
    assert_eq!(metrics.p95_sample(), Some(12));
    metrics.end_active(guard);
    assert_eq!(metrics.active_for("a"), 0);
}

#[test]
fn a_failed_request_leaves_no_trace() {
    let mut metrics = MetricsRegistry::new();
    metrics.track("a");
    let Dispatch::Forward(backend, guard) = dispatch(Some(instance("a", 1)), &mut metrics) else {
        panic!("refused");
    };
    match settle(&backend, guard, Upstream::Failed, &mut metrics) {
        Settlement::Reply(reply) => {
            assert_eq!(reply.status, 502);
            assert_eq!(reply.body, "upstream request failed");
        }
        other => panic!("unexpected {other:?}"),
    }
    assert_eq!(metrics.active_for("a"), 0);
    assert_eq!(metrics.p95_sample(), None);
}
