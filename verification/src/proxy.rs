//! The data plane's decisions: which backend a request goes to, what is
//! forwarded, and what is answered when nothing can be.

pub use crate::metrics::{ActiveGuard, MetricsRegistry};

use crate::orchestrator::{clone_instances, Instance};
use vstd::prelude::*;

verus! {

/// Picks a backend from the current pool. Implementations must be cheap
/// and non-blocking since this runs on the hot path for every request.
pub trait LoadBalancer: Send + Sync + Sized {
    /// Whether the strategy may pick `picked` from `backends`, and be `after`
    /// afterwards.
    spec fn may_pick(
        self,
        backends: Seq<Instance>,
        picked: Option<Instance>,
        after: Self,
    ) -> bool;

    /// Picks one of `backends`, or none.
    fn pick(&mut self, backends: &[Instance]) -> (picked: Option<Instance>)
        ensures
            old(self).may_pick(backends@, picked, *final(self)),
            picked matches Some(instance) ==> backends@.contains(instance),
    ;
}

/// Simple round robin: cycles through the pool in order.
#[derive(Debug, Clone)]
pub struct RoundRobin {
    /// Picks made so far; wraps around.
    pub counter: usize,
}

impl Default for RoundRobin {
    fn default() -> (balancer: Self)
        ensures
            balancer.counter == 0,
    {
        RoundRobin { counter: 0 }
    }
}

impl RoundRobin {
    /// The position of the backend whose turn it is after `picks` picks.
    pub open spec fn position(picks: int, backends: nat) -> int {
        picks % (backends as int)
    }
}

impl LoadBalancer for RoundRobin {
    /// The backend whose turn it is, if there is any.
    open spec fn may_pick(
        self,
        backends: Seq<Instance>,
        picked: Option<Instance>,
        after: Self,
    ) -> bool {
        if backends.len() == 0 {
            picked is None && after.counter == self.counter
        } else {
            &&& picked == Some(
                backends[RoundRobin::position(self.counter as int, backends.len())],
            )
            &&& after.counter == self.counter.wrapping_add(1)
        }
    }

    fn pick(&mut self, backends: &[Instance]) -> (picked: Option<Instance>)
    {
        if backends.len() == 0 {
            return None;
        }
        let turn: usize = self.counter;
        self.counter = turn.wrapping_add(1);
        let index: usize = turn % backends.len();
        Some(backends[index].clone())
    }
}

/// Round robin is fair: over as many picks in a row as there are backends, each
/// backend is picked exactly once. Left out are runs in which the counter wraps
/// around.
pub proof fn law_round_robin_is_fair(counter: usize, backends: nat, backend: nat) -> (turn: nat)
    requires
        backend < backends,
        counter + backends <= usize::MAX,
    ensures
        turn < backends,
        RoundRobin::position(counter + turn, backends) == backend,
        forall|other: nat|
            other < backends && #[trigger] RoundRobin::position(counter + other, backends)
                == backend ==> other == turn,
{
    let n: int = backends as int;
    let c: int = counter as int;
    let turn: nat = ((backend - c % n + n) % n) as nat;
    vstd::arithmetic::div_mod::lemma_fundamental_div_mod(c, n);
    vstd::arithmetic::div_mod::lemma_mod_division_less_than_divisor(c, n);
    vstd::arithmetic::div_mod::lemma_mod_division_less_than_divisor(backend - c % n + n, n);
    let q: int = c / n;
    let r: int = c % n;
    let raw: int = backend - r + n;
    if raw >= n {
        vstd::arithmetic::div_mod::lemma_fundamental_div_mod_converse(raw, n, 1, raw - n);
        assert(c + turn == n * q + backend);
        assert(n * q == q * n) by (nonlinear_arith);
        vstd::arithmetic::div_mod::lemma_fundamental_div_mod_converse(
            c + turn,
            n,
            q,
            backend as int,
        );
    } else {
        vstd::arithmetic::div_mod::lemma_fundamental_div_mod_converse(raw, n, 0, raw);
        assert(c + turn == n * q + n + backend);
        assert((q + 1) * n == n * q + n) by (nonlinear_arith);
        vstd::arithmetic::div_mod::lemma_fundamental_div_mod_converse(
            c + turn,
            n,
            q + 1,
            backend as int,
        );
    }
    assert forall|other: nat|
        other < backends && #[trigger] RoundRobin::position(counter + other, backends)
            == backend implies other == turn by {
        vstd::arithmetic::div_mod::lemma_fundamental_div_mod(c + other, n);
        vstd::arithmetic::div_mod::lemma_fundamental_div_mod(c + turn, n);
        let a: int = (c + other) / n;
        let b: int = (c + turn) / n;
        assert(other - turn == n * a - n * b);
        assert(n * a - n * b == n * (a - b)) by (nonlinear_arith);
        assert(a - b == 0) by (nonlinear_arith)
            requires
                -n < n * (a - b) < n,
                n > 0,
        ;
    }
    turn
}

/// Round robin refuses nothing while there are backends.
pub proof fn law_round_robin_always_picks(
    before: RoundRobin,
    backends: Seq<Instance>,
    picked: Option<Instance>,
    after: RoundRobin,
)
    requires
        backends.len() > 0,
        before.may_pick(backends, picked, after),
    ensures
        picked matches Some(instance) && backends.contains(instance),
{
}

/// The healthy backends of one service. The autoscaler sets it after spawning or
/// stopping instances; the proxy only ever reads from it.
pub struct BackendPool {
    inner: Vec<Instance>,
}

impl View for BackendPool {
    type V = Seq<Instance>;

    closed spec fn view(&self) -> Seq<Instance> {
        self.inner@
    }
}

impl BackendPool {
    /// A pool without backends.
    pub fn new() -> (pool: BackendPool)
        ensures
            pool@ == Seq::<Instance>::empty(),
    {
        BackendPool { inner: Vec::new() }
    }

    /// Replaces the backends.
    pub fn set(&mut self, backends: Vec<Instance>)
        ensures
            final(self)@ == backends@,
    {
        self.inner = backends;
    }

    /// The backends.
    pub fn get(&self) -> (backends: Vec<Instance>)
        ensures
            backends@ == self@,
    {
        clone_instances(&self.inner)
    }

    /// The number of backends.
    pub fn len(&self) -> (len: usize)
        ensures
            len == self@.len(),
    {
        self.inner.len()
    }
}

/// The address that a request for `path_and_query` is forwarded to.
pub open spec fn target_url(backend: Instance, path_and_query: Option<Seq<char>>) -> Seq<char> {
    backend.url() + match path_and_query {
        Some(path_and_query) => path_and_query,
        None => "/"@,
    }
}

/// Builds the address that a request is forwarded to from the path and query of
/// its own; without one, the root is asked for.
pub fn build_target_url(backend: &Instance, path_and_query: Option<&str>) -> (url: String)
    ensures
        url@ == target_url(
            *backend,
            match path_and_query {
                Some(path_and_query) => Some(path_and_query@),
                None => None,
            },
        ),
{
    let mut url = backend.base_url();
    match path_and_query {
        Some(path_and_query) => url.append(path_and_query),
        None => url.append("/"),
    }
    url
}

/// A header of a request: its name, in lower case, and its value.
#[derive(Debug)]
pub struct Header {
    pub name: String,
    pub value: Vec<u8>,
}

/// A header as mathematical values.
#[verifier::ext_equal]
pub struct HeaderView {
    pub name: Seq<char>,
    pub value: Seq<u8>,
}

impl View for Header {
    type V = HeaderView;

    open spec fn view(&self) -> HeaderView {
        HeaderView { name: self.name@, value: self.value@ }
    }
}

/// Several headers as mathematical values.
pub open spec fn header_views(headers: Seq<Header>) -> Seq<HeaderView> {
    headers.map_values(|header: Header| header@)
}

/// Headers that belong to one connection, and must not be forwarded: the
/// hop-by-hop headers of HTTP, `host`, which names the backend on the next leg and
/// not the original one, and `content-length`, since the body is streamed anew.
pub open spec fn is_hop_header(name: Seq<char>) -> bool {
    ||| name == "host"@
    ||| name == "connection"@
    ||| name == "content-length"@
    ||| name == "keep-alive"@
    ||| name == "proxy-authenticate"@
    ||| name == "proxy-authorization"@
    ||| name == "te"@
    ||| name == "trailer"@
    ||| name == "transfer-encoding"@
    ||| name == "upgrade"@
}

/// The headers that are forwarded, in their order.
pub open spec fn forwarded(headers: Seq<HeaderView>) -> Seq<HeaderView> {
    headers.filter(|header: HeaderView| !is_hop_header(header.name))
}

/// Whether a header stays behind.
fn hop_header(name: &String) -> (hop: bool)
    ensures
        hop == is_hop_header(name@),
{
    *name == "host".to_owned()
        || *name == "connection".to_owned()
        || *name == "content-length".to_owned()
        || *name == "keep-alive".to_owned()
        || *name == "proxy-authenticate".to_owned()
        || *name == "proxy-authorization".to_owned()
        || *name == "te".to_owned()
        || *name == "trailer".to_owned()
        || *name == "transfer-encoding".to_owned()
        || *name == "upgrade".to_owned()
}

/// Strips hop-by-hop headers that shouldn't be forwarded as-is.
pub fn filtered_headers(headers: &Vec<Header>) -> (kept: Vec<Header>)
    ensures
        header_views(kept@) == forwarded(header_views(headers@)),
{
    let mut kept: Vec<Header> = Vec::new();
    let ghost all = header_views(headers@);
    let ghost keep = |header: HeaderView| !is_hop_header(header.name);
    let mut i: usize = 0;
    proof {
        assert(all.take(0) =~= Seq::<HeaderView>::empty());
        reveal(Seq::filter);
        assert(header_views(kept@) =~= all.take(0).filter(keep));
    }
    while i < headers.len()
        invariant
            all == header_views(headers@),
            keep == (|header: HeaderView| !is_hop_header(header.name)),
            i <= headers@.len(),
            header_views(kept@) == all.take(i as int).filter(keep),
        decreases headers@.len() - i,
    {
        let header: &Header = &headers[i];
        let ghost before = header_views(kept@);
        proof {
            reveal(Seq::filter);
            assert(all.take(i + 1).drop_last() =~= all.take(i as int));
            assert(all.take(i + 1).last() == header@);
        }
        if !hop_header(&header.name) {
            kept.push(Header { name: header.name.clone(), value: header.value.clone() });
            assert(header_views(kept@) =~= before.push(header@));
        }
        i = i + 1;
    }
    assert(all.take(i as int) =~= all);
    kept
}

/// A request as it goes out to a backend.
#[derive(Debug)]
pub struct Outbound {
    pub url: String,
    pub headers: Vec<Header>,
}

/// Works out what is sent to `backend` for a request; its method and its body
/// are passed on as they are.
pub fn plan_forward(
    backend: &Instance,
    path_and_query: Option<&str>,
    headers: &Vec<Header>,
) -> (outbound: Outbound)
    ensures
        outbound.url@ == target_url(
            *backend,
            match path_and_query {
                Some(path_and_query) => Some(path_and_query@),
                None => None,
            },
        ),
        header_views(outbound.headers@) == forwarded(header_views(headers@)),
{
    Outbound {
        url: build_target_url(backend, path_and_query),
        headers: filtered_headers(headers),
    }
}

/// An answer that the proxy gives itself.
#[derive(Debug)]
pub struct ErrorReply {
    pub status: u16,
    pub body: String,
}

impl ErrorReply {
    /// Whether this is the answer when there is no backend.
    pub open spec fn is_unavailable(self) -> bool {
        self.status == 503 && self.body@ == "no healthy backends available"@
    }

    /// Whether this is the answer when the backend failed.
    pub open spec fn is_bad_gateway(self) -> bool {
        self.status == 502 && self.body@ == "upstream request failed"@
    }
}

/// What to do with a request that has come in.
#[derive(Debug)]
pub enum Dispatch {
    /// Answer it.
    Refuse(ErrorReply),
    /// Forward it to a backend, which counts it as in flight.
    Forward(Instance, ActiveGuard),
}

/// Starts a request, given the backend that was picked for it.
pub fn dispatch(picked: Option<Instance>, metrics: &mut MetricsRegistry) -> (next: Dispatch)
    ensures
        match picked {
            None => {
                &&& next matches Dispatch::Refuse(reply)
                &&& reply.is_unavailable()
                &&& final(metrics)@ == old(metrics)@
            },
            Some(instance) => {
                &&& next matches Dispatch::Forward(backend, guard)
                &&& backend == instance
                &&& guard.target() == old(metrics)@.guard_target(instance.container_id@)
                &&& final(metrics)@ == old(metrics)@.begun(instance.container_id@)
            },
        },
{
    match picked {
        None => Dispatch::Refuse(
            ErrorReply { status: 503, body: "no healthy backends available".to_owned() },
        ),
        Some(backend) => {
            let guard = metrics.begin_active(backend.container_id.as_str());
            Dispatch::Forward(backend, guard)
        },
    }
}

/// Picks a backend for a request and starts it: the request goes to the backend
/// that the balancer picks, and is refused if it picks none.
pub fn open_request<L: LoadBalancer>(
    pool: &BackendPool,
    balancer: &mut L,
    metrics: &mut MetricsRegistry,
) -> (next: Dispatch)
    ensures
        exists|picked: Option<Instance>|
            {
                &&& #[trigger] old(balancer).may_pick(pool@, picked, *final(balancer))
                &&& match picked {
                    None => {
                        &&& next matches Dispatch::Refuse(reply)
                        &&& reply.is_unavailable()
                        &&& final(metrics)@ == old(metrics)@
                    },
                    Some(instance) => {
                        &&& pool@.contains(instance)
                        &&& next matches Dispatch::Forward(backend, guard)
                        &&& backend == instance
                        &&& guard.target() == old(metrics)@.guard_target(instance.container_id@)
                        &&& final(metrics)@ == old(metrics)@.begun(instance.container_id@)
                    },
                }
            },
{
    let backends: Vec<Instance> = pool.get();
    let picked: Option<Instance> = balancer.pick(backends.as_slice());
    let ghost choice = picked;
    let next: Dispatch = dispatch(picked, metrics);
    assert(old(balancer).may_pick(pool@, choice, *balancer));
    next
}

/// What became of a forwarded request.
#[derive(Debug)]
pub enum Upstream {
    /// The headers of the answer arrived after `elapsed_ms`, at `now_ns`.
    Answered { elapsed_ms: u128, now_ns: u128 },
    /// There was no answer.
    Failed,
}

/// What to do with the client of a forwarded request.
#[derive(Debug)]
pub enum Settlement {
    /// Stream the backend's answer. The guard is kept until the client has
    /// received the body, not just until the headers went out.
    Relay(ActiveGuard),
    /// Answer it.
    Reply(ErrorReply),
}

/// Settles a forwarded request. Latency is time-to-first-byte: it is recorded
/// once the headers of the answer are there.
pub fn settle(
    backend: &Instance,
    guard: ActiveGuard,
    outcome: Upstream,
    metrics: &mut MetricsRegistry,
) -> (settlement: Settlement)
    ensures
        match outcome {
            Upstream::Answered { elapsed_ms, now_ns } => {
                &&& settlement == Settlement::Relay(guard)
                &&& final(metrics)@ == old(metrics)@.recorded(
                    backend.container_id@,
                    (elapsed_ms % 0x1_0000_0000_0000_0000) as u64,
                    now_ns,
                )
            },
            Upstream::Failed => {
                &&& settlement matches Settlement::Reply(reply)
                &&& reply.is_bad_gateway()
                &&& final(metrics)@ == old(metrics)@.ended(guard.target())
            },
        },
{
    match outcome {
        Upstream::Answered { elapsed_ms, now_ns } => {
            metrics.record_latency(backend.container_id.as_str(), elapsed_ms, now_ns);
            Settlement::Relay(guard)
        },
        Upstream::Failed => {
            metrics.end_active(guard);
            Settlement::Reply(
                ErrorReply { status: 502, body: "upstream request failed".to_owned() },
            )
        },
    }
}

/// A request that failed leaves no trace in the metrics, but that there was one.
pub proof fn law_failed_request_leaves_no_trace(
    metrics: crate::metrics::RegistryView,
    id: Seq<char>,
)
    ensures
        metrics.begun(id).ended(metrics.guard_target(id)) == metrics.noted(id),
{
    crate::metrics_laws::law_end_undoes_begin(metrics, id);
}

/// A request that was answered and fully sent leaves one latency and one
/// request time behind, and nothing in flight.
pub proof fn law_answered_request_leaves_its_latency(
    metrics: crate::metrics::RegistryView,
    id: Seq<char>,
    latency: u64,
    now: u128,
)
    ensures
        metrics.begun(id).recorded(id, latency, now).ended(metrics.guard_target(id))
            == metrics.recorded(id, latency, now),
{
    assert(metrics.begun(id).recorded(id, latency, now).ended(metrics.guard_target(id))
        =~= metrics.recorded(id, latency, now));
}

/// The headers that are forwarded hold none that belongs to one connection, and
/// every other one.
pub proof fn law_only_hop_headers_stay_behind(headers: Seq<HeaderView>, header: HeaderView)
    ensures
        forwarded(headers).contains(header) <==> headers.contains(header) && !is_hop_header(
            header.name,
        ),
{
    let keep = |header: HeaderView| !is_hop_header(header.name);
    if forwarded(headers).contains(header) {
        headers.lemma_filter_contains_rev(keep, header);
        let i: int = choose|i: int|
            0 <= i < forwarded(headers).len() && forwarded(headers)[i] == header;
        headers.lemma_filter_pred(keep, i);
    }
    if headers.contains(header) && keep(header) {
        let i: int = choose|i: int| 0 <= i < headers.len() && headers[i] == header;
        headers.lemma_filter_contains(keep, i);
    }
}

/// Whom round robin picks: of a pool with backends the one at the number of picks so
/// far, counted round the whole pool, and the picks are then one more; of an empty
/// pool nobody.
pub proof fn law_round_robin_goes_round(
    before: RoundRobin,
    backends: Seq<Instance>,
    picked: Option<Instance>,
    after: RoundRobin,
)
    requires
        before.may_pick(backends, picked, after),
    ensures
        backends.len() > 0 ==> picked == Some(
            backends[before.counter as int % backends.len() as int],
        ),
        backends.len() > 0 && before.counter < usize::MAX ==> after.counter == before.counter + 1,
        backends.len() > 0 && before.counter == usize::MAX ==> after.counter == 0,
        backends.len() == 0 ==> picked is None && after.counter == before.counter,
{
}

/// Whether what was picked is a backend at another place than `backend`.
pub open spec fn picked_other(
    backends: Seq<Instance>,
    picked: Option<Instance>,
    backend: int,
) -> bool {
    exists|other: int|
        0 <= other < backends.len() && other != backend && picked == Some(
            #[trigger] backends[other],
        )
}

/// Over as many picks in a row as there are backends, each backend has its turn, and
/// has it once. `states` are the balancer before each pick and after the last one.
/// Left out are runs in which the counter wraps around.
pub proof fn law_round_robin_serves_all(
    states: Seq<RoundRobin>,
    backends: Seq<Instance>,
    picks: Seq<Option<Instance>>,
    backend: int,
) -> (turn: int)
    requires
        0 <= backend < backends.len(),
        picks.len() == backends.len(),
        states.len() == backends.len() + 1,
        states[0].counter + backends.len() <= usize::MAX,
        forall|i: int|
            0 <= i < picks.len() ==> #[trigger] states[i].may_pick(
                backends,
                picks[i],
                states[i + 1],
            ),
    ensures
        0 <= turn < picks.len(),
        picks[turn] == Some(backends[backend]),
        forall|i: int|
            0 <= i < picks.len() && i != turn ==> picked_other(backends, #[trigger] picks[i], backend),
{
    let n: int = backends.len() as int;
    let turn: int = law_round_robin_is_fair(
        states[0].counter,
        backends.len(),
        backend as nat,
    ) as int;
    lemma_counter_grows(states, backends, picks, turn);
    law_round_robin_goes_round(states[turn], backends, picks[turn], states[turn + 1]);
    assert forall|i: int| 0 <= i < picks.len() && i != turn implies picked_other(
        backends,
        #[trigger] picks[i],
        backend,
    ) by {
        lemma_counter_grows(states, backends, picks, i);
        law_round_robin_goes_round(states[i], backends, picks[i], states[i + 1]);
        vstd::arithmetic::div_mod::lemma_mod_division_less_than_divisor(states[0].counter + i, n);
        let other: int = (states[0].counter + i) % n;
        assert(RoundRobin::position(states[0].counter + i as nat, backends.len()) == other);
        assert(picks[i] == Some(backends[other]));
    }
    turn
}

/// In a run of picks the counter grows by one each.
proof fn lemma_counter_grows(
    states: Seq<RoundRobin>,
    backends: Seq<Instance>,
    picks: Seq<Option<Instance>>,
    i: int,
)
    requires
        backends.len() > 0,
        picks.len() == backends.len(),
        states.len() == backends.len() + 1,
        states[0].counter + backends.len() <= usize::MAX,
        forall|i: int|
            0 <= i < picks.len() ==> #[trigger] states[i].may_pick(
                backends,
                picks[i],
                states[i + 1],
            ),
        0 <= i <= picks.len(),
    ensures
        states[i].counter == states[0].counter + i,
    decreases i,
{
    if i > 0 {
        lemma_counter_grows(states, backends, picks, i - 1);
        assert(states[i - 1].may_pick(backends, picks[i - 1], states[i - 1 + 1]));
        law_round_robin_goes_round(states[i - 1], backends, picks[i - 1], states[i]);
    }
}

/// Which headers are forwarded: every one but those with one of these ten names, each
/// with its value, in their order and as often as they come.
pub proof fn law_which_headers_are_forwarded(headers: Vec<Header>, kept: Vec<Header>)
    requires
        call_ensures(filtered_headers, (&headers,), kept),
    ensures
        kept@.map_values(|header: Header| (header.name@, header.value@)) == headers@.map_values(
            |header: Header| (header.name@, header.value@),
        ).filter(
            |header: (Seq<char>, Seq<u8>)|
                !(header.0 == "host"@ || header.0 == "connection"@ || header.0
                    == "content-length"@ || header.0 == "keep-alive"@ || header.0
                    == "proxy-authenticate"@ || header.0 == "proxy-authorization"@ || header.0
                    == "te"@ || header.0 == "trailer"@ || header.0 == "transfer-encoding"@
                    || header.0 == "upgrade"@),
        ),
{
    lemma_forwarded_pairs(header_views(headers@));
    assert(kept@.map_values(|header: Header| (header.name@, header.value@)) =~= pairs(
        header_views(kept@),
    ));
    assert(headers@.map_values(|header: Header| (header.name@, header.value@)) =~= pairs(
        header_views(headers@),
    ));
}

/// Headers as pairs of a name and a value.
spec fn pairs(headers: Seq<HeaderView>) -> Seq<(Seq<char>, Seq<u8>)> {
    headers.map_values(|header: HeaderView| (header.name, header.value))
}

/// Forwarding headers is forwarding the pairs.
proof fn lemma_forwarded_pairs(headers: Seq<HeaderView>)
    ensures
        pairs(forwarded(headers)) == pairs(headers).filter(
            |header: (Seq<char>, Seq<u8>)|
                !(header.0 == "host"@ || header.0 == "connection"@ || header.0
                    == "content-length"@ || header.0 == "keep-alive"@ || header.0
                    == "proxy-authenticate"@ || header.0 == "proxy-authorization"@ || header.0
                    == "te"@ || header.0 == "trailer"@ || header.0 == "transfer-encoding"@
                    || header.0 == "upgrade"@),
        ),
    decreases headers.len(),
{
    reveal(Seq::filter);
    if headers.len() > 0 {
        let before: Seq<HeaderView> = headers.drop_last();
        lemma_forwarded_pairs(before);
        assert(pairs(headers).drop_last() =~= pairs(before));
        assert(pairs(headers).last() == (headers.last().name, headers.last().value));
        if !is_hop_header(headers.last().name) {
            assert(pairs(forwarded(headers)) =~= pairs(forwarded(before)).push(
                pairs(headers).last(),
            ));
        }
    } else {
        assert(pairs(forwarded(headers)) =~= Seq::<(Seq<char>, Seq<u8>)>::empty());
        assert(pairs(headers) =~= Seq::<(Seq<char>, Seq<u8>)>::empty());
    }
}

/// A header with any other name than these ten reaches the backend with its value,
/// and one with such a name does not.
pub proof fn law_other_headers_reach_the_backend(headers: Seq<HeaderView>, header: HeaderView)
    requires
        headers.contains(header),
    ensures
        forwarded(headers).contains(header) <==> {
            &&& header.name != "host"@
            &&& header.name != "connection"@
            &&& header.name != "content-length"@
            &&& header.name != "keep-alive"@
            &&& header.name != "proxy-authenticate"@
            &&& header.name != "proxy-authorization"@
            &&& header.name != "te"@
            &&& header.name != "trailer"@
            &&& header.name != "transfer-encoding"@
            &&& header.name != "upgrade"@
        },
{
    law_only_hop_headers_stay_behind(headers, header);
}

/// Where a request goes, and with what: to the host port of its backend, for the path
/// and query that it names or for the root, with the headers that are forwarded.
pub proof fn law_where_requests_go(
    backend: &Instance,
    path_and_query: Option<&str>,
    headers: Vec<Header>,
    outbound: Outbound,
    url: String,
    kept: Vec<Header>,
)
    requires
        call_ensures(plan_forward, (backend, path_and_query, &headers), outbound),
        call_ensures(build_target_url, (backend, path_and_query), url),
        call_ensures(filtered_headers, (&headers,), kept),
    ensures
        path_and_query matches Some(path) ==> url@ == "http://127.0.0.1:"@
            + crate::text::decimal(backend.host_port as nat) + path@,
        path_and_query is None ==> url@ == "http://127.0.0.1:"@ + crate::text::decimal(
            backend.host_port as nat,
        ) + "/"@,
        outbound.url@ == url@,
        outbound.headers@.len() == kept@.len(),
        forall|i: int|
            0 <= i < kept@.len() ==> (#[trigger] outbound.headers@[i]).name@ == kept@[i].name@
                && outbound.headers@[i].value@ == kept@[i].value@,
{
    let sent: Seq<HeaderView> = header_views(outbound.headers@);
    let same: Seq<HeaderView> = header_views(kept@);
    assert(sent.len() == outbound.headers@.len() && same.len() == kept@.len());
    assert forall|i: int| 0 <= i < kept@.len() implies (#[trigger] outbound.headers@[i]).name@
        == kept@[i].name@ && outbound.headers@[i].value@ == kept@[i].value@ by {
        assert(sent[i] == outbound.headers@[i]@);
        assert(same[i] == kept@[i]@);
    }
}

/// What the proxy answers itself: "service unavailable" without a backend, and "bad
/// gateway" when the backend failed.
pub proof fn law_what_is_answered(reply: ErrorReply)
    ensures
        reply.is_unavailable() <==> reply.status == 503 && reply.body@
            == "no healthy backends available"@,
        reply.is_bad_gateway() <==> reply.status == 502 && reply.body@
            == "upstream request failed"@,
{
}

/// A pool holds what was set, and nothing else.
pub proof fn law_pool_holds_what_was_set(pool: &mut BackendPool, backends: Vec<Instance>)
    requires
        call_ensures(BackendPool::set, (pool, backends), ()),
    ensures
        final(pool)@ == backends@,
{
}

/// What is read of a pool is what it holds.
pub proof fn law_pool_gives_what_it_holds(pool: &BackendPool, backends: Vec<Instance>, len: usize)
    requires
        call_ensures(BackendPool::get, (pool,), backends),
        call_ensures(BackendPool::len, (pool,), len),
    ensures
        backends@ == pool@,
        len == pool@.len(),
{
}

/// What becomes of a request: without a backend it is answered with 503 and counts
/// nowhere; with one it is forwarded to that one, and in flight there.
pub proof fn law_what_becomes_of_requests(
    picked: Option<Instance>,
    metrics: &mut MetricsRegistry,
    next: Dispatch,
)
    requires
        call_ensures(dispatch, (picked, metrics), next),
    ensures
        picked is None ==> {
            &&& next is Refuse
            &&& next->Refuse_0.status == 503
            &&& next->Refuse_0.body@ == "no healthy backends available"@
            &&& final(metrics)@ == old(metrics)@
        },
        picked is Some ==> {
            let id = picked->Some_0.container_id@;
            &&& next is Forward
            &&& next->Forward_0 == picked->Some_0
            &&& next->Forward_1.target() == old(metrics)@.guard_target(id)
            &&& final(metrics)@ == old(metrics)@.begun(id)
        },
{
}

/// With round robin, a request goes to the backend whose turn it is, and is refused
/// only by an empty pool.
pub proof fn law_requests_go_round(
    pool: &BackendPool,
    balancer: &mut RoundRobin,
    metrics: &mut MetricsRegistry,
    next: Dispatch,
)
    requires
        call_ensures(open_request::<RoundRobin>, (pool, balancer, metrics), next),
    ensures
        next is Refuse <==> pool@.len() == 0,
        next is Refuse ==> next->Refuse_0.status == 503 && final(metrics)@ == old(metrics)@,
        next is Forward ==> {
            let backend = pool@[old(balancer).counter as int % pool@.len() as int];
            &&& next->Forward_0 == backend
            &&& next->Forward_1.target() == old(metrics)@.guard_target(backend.container_id@)
            &&& final(metrics)@ == old(metrics)@.begun(backend.container_id@)
        },
        pool@.len() > 0 && old(balancer).counter < usize::MAX ==> final(balancer).counter
            == old(balancer).counter + 1,
{
}

/// What becomes of a forwarded request: an answer is relayed, with its latency and its
/// time kept at the backend and the request still in flight; a failure is answered
/// with 502 and ends the request.
pub proof fn law_what_becomes_of_answers(
    backend: &Instance,
    guard: ActiveGuard,
    outcome: Upstream,
    metrics: &mut MetricsRegistry,
    settlement: Settlement,
)
    requires
        call_ensures(settle, (backend, guard, outcome, metrics), settlement),
    ensures
        outcome is Answered ==> {
            &&& settlement == Settlement::Relay(guard)
            &&& outcome->elapsed_ms <= u64::MAX ==> final(metrics)@ == old(metrics)@.recorded(
                backend.container_id@,
                outcome->elapsed_ms as u64,
                outcome->now_ns,
            )
        },
        outcome is Failed ==> {
            &&& settlement is Reply
            &&& settlement->Reply_0.status == 502
            &&& settlement->Reply_0.body@ == "upstream request failed"@
            &&& final(metrics)@ == old(metrics)@.ended(guard.target())
        },
{
}

} // verus!
