//! Replicas of a service as containers: what to ask the container daemon for,
//! and what to make of its answers.

use crate::config::{Resources, ServiceMeta};
use crate::limits::{read_cpus, read_memory};
use crate::text::{append_decimal, to_decimal};
use vstd::prelude::*;

verus! {

/// Label used to tag containers we manage, so [`list_instances`] can find them
/// again after a restart and won't touch unrelated containers. Its value is
/// [`MANAGED`].
pub const MANAGED_LABEL: &'static str = "loadwright.managed";

/// Value of the label that tags containers we manage.
pub const MANAGED: &'static str = "true";

/// Label that names the service that a container belongs to.
pub const SERVICE_LABEL: &'static str = "loadwright.service";

/// The host address that containers are published on.
pub const HOST_IP: &'static str = "127.0.0.1";

/// How long a container gets to stop by itself, in seconds.
pub const STOP_GRACE_SECS: i64 = 10;

/// A single running (or starting) replica of a service.
#[derive(Debug, PartialEq, Eq)]
pub struct Instance {
    pub container_id: String,
    pub host_port: u16,
    pub container_port: u16,
}

impl Clone for Instance {
    fn clone(&self) -> (copy: Self)
        ensures
            copy == *self,
    {
        Instance {
            container_id: self.container_id.clone(),
            host_port: self.host_port,
            container_port: self.container_port,
        }
    }
}

/// Copies a list of instances.
pub fn clone_instances(instances: &Vec<Instance>) -> (copy: Vec<Instance>)
    ensures
        copy@ == instances@,
{
    let mut copy: Vec<Instance> = Vec::new();
    let mut i: usize = 0;
    while i < instances.len()
        invariant
            i <= instances@.len(),
            copy@ == instances@.take(i as int),
        decreases instances@.len() - i,
    {
        copy.push(instances[i].clone());
        assert(instances@.take(i + 1) =~= instances@.take(i as int).push(instances@[i as int]));
        i = i + 1;
    }
    assert(instances@.take(i as int) =~= instances@);
    copy
}

impl Instance {
    /// What [`Instance::base_url`] returns.
    pub open spec fn url(self) -> Seq<char> {
        "http://127.0.0.1:"@ + crate::text::decimal(self.host_port as nat)
    }

    /// Base URL the proxy can forward requests to, e.g. "http://127.0.0.1:32891".
    pub fn base_url(&self) -> (url: String)
        ensures
            url@ == self.url(),
    {
        let mut url = "http://127.0.0.1:".to_owned();
        append_decimal(&mut url, self.host_port as u32);
        url
    }

    /// The address that answers whether the instance is healthy.
    pub fn health_url(&self, path: &str) -> (url: String)
        ensures
            url@ == self.url() + path@,
    {
        let mut url = self.base_url();
        url.append(path);
        url
    }
}

/// Whether an HTTP status code reports success.
pub fn is_success(status: u16) -> (success: bool)
    ensures
        success == (200 <= status < 300),
{
    200 <= status && status < 300
}

/// A label on a container.
#[derive(Debug, Clone, PartialEq, Eq)]
pub struct Label {
    pub key: String,
    pub value: String,
}

/// A container to be created.
#[derive(Debug, Clone, PartialEq, Eq)]
pub struct ContainerPlan {
    /// Name of the container.
    pub name: String,
    /// Image that it runs.
    pub image: String,
    /// The port inside the container, with its protocol: "8080/tcp".
    pub container_port: String,
    /// Host address that the port is published on.
    pub host_ip: String,
    /// Host port that the port is published on.
    pub host_port: String,
    /// Labels on the container.
    pub labels: Vec<Label>,
    /// Limit on CPU time, in billionths of a CPU.
    pub nano_cpus: Option<i64>,
    /// Limit on memory, in bytes.
    pub memory: Option<i64>,
}

/// The name of the container that publishes a service on `host_port`.
pub open spec fn container_name(service: Seq<char>, host_port: u16) -> Seq<char> {
    "loadwright-"@ + service + "-"@ + crate::text::decimal(host_port as nat)
}

impl ContainerPlan {
    /// Whether this is the container for one replica of `service` on `host_port`,
    /// limited to `resources`.
    pub open spec fn runs(
        self,
        service: ServiceMeta,
        resources: Resources,
        host_port: u16,
    ) -> bool {
        &&& self.name@ == container_name(service.name@, host_port)
        &&& self.image@ == service.image@
        &&& self.container_port@ == crate::text::decimal(service.port as nat) + "/tcp"@
        &&& self.host_ip@ == HOST_IP@
        &&& self.host_port@ == crate::text::decimal(host_port as nat)
        &&& self.labels@.len() == 2
        &&& self.labels@[0].key@ == MANAGED_LABEL@
        &&& self.labels@[0].value@ == MANAGED@
        &&& self.labels@[1].key@ == SERVICE_LABEL@
        &&& self.labels@[1].value@ == service.name@
        &&& self.nano_cpus == resources.cpu()
        &&& self.memory == resources.memory()
    }
}

/// Plans the container for one replica of a service, limited to what it may use
/// and published on a free host port. Container names must be unique, so the name
/// ends with the host port. A limit that cannot be read is no limit.
pub fn plan_container(service: &ServiceMeta, resources: &Resources, host_port: u16) -> (plan:
    ContainerPlan)
    ensures
        plan.runs(*service, *resources, host_port),
{
    let mut name = "loadwright-".to_owned();
    name.append(service.name.as_str());
    name.append("-");
    append_decimal(&mut name, host_port as u32);
    let mut container_port = to_decimal(service.port as u32);
    container_port.append("/tcp");
    let mut labels: Vec<Label> = Vec::new();
    labels.push(Label { key: MANAGED_LABEL.to_owned(), value: MANAGED.to_owned() });
    labels.push(Label { key: SERVICE_LABEL.to_owned(), value: service.name.clone() });
    let nano_cpus: Option<i64> = match &resources.cpu_limit {
        Some(text) => read_cpus(text.as_str()),
        None => None,
    };
    let memory: Option<i64> = match &resources.memory_limit {
        Some(text) => read_memory(text.as_str()),
        None => None,
    };
    ContainerPlan {
        name,
        image: service.image.clone(),
        container_port,
        host_ip: HOST_IP.to_owned(),
        host_port: to_decimal(host_port as u32),
        labels,
        nano_cpus,
        memory,
    }
}

/// The replica that a created and started container is.
pub fn started_instance(service: &ServiceMeta, host_port: u16, container_id: String) -> (instance:
    Instance)
    ensures
        instance == (Instance { container_id, host_port, container_port: service.port }),
{
    Instance { container_id, host_port, container_port: service.port }
}

/// A label as the daemon is asked for it.
pub open spec fn selector(key: Seq<char>, value: Seq<char>) -> Seq<char> {
    key + "="@ + value
}

/// The label filters that together find the containers of a service that we
/// manage.
pub fn service_filters(service_name: &str) -> (filters: Vec<String>)
    ensures
        filters@.len() == 2,
        filters@[0]@ == selector(MANAGED_LABEL@, MANAGED@),
        filters@[1]@ == selector(SERVICE_LABEL@, service_name@),
{
    let mut managed = MANAGED_LABEL.to_owned();
    managed.append("=");
    managed.append(MANAGED);
    let mut service = SERVICE_LABEL.to_owned();
    service.append("=");
    service.append(service_name);
    let mut filters: Vec<String> = Vec::new();
    filters.push(managed);
    filters.push(service);
    filters
}

/// A port of a listed container.
#[derive(Debug, Clone, PartialEq, Eq)]
pub struct PortMapping {
    pub private_port: u16,
    pub public_port: Option<u16>,
}

/// A container as the daemon lists it.
#[derive(Debug, Clone, PartialEq, Eq)]
pub struct ContainerSummary {
    pub id: Option<String>,
    pub labels: Vec<Label>,
    pub ports: Option<Vec<PortMapping>>,
}

/// The first port of a container that is published on the host, as its public
/// and its private number.
pub open spec fn published(ports: Seq<PortMapping>) -> Option<(u16, u16)>
    decreases ports.len(),
{
    if ports.len() == 0 {
        None
    } else {
        match ports[0].public_port {
            Some(public) => Some((public, ports[0].private_port)),
            None => published(ports.skip(1)),
        }
    }
}

/// Whether a label with this key and value is among the labels.
pub open spec fn tagged(labels: Seq<Label>, key: Seq<char>, value: Seq<char>) -> bool {
    exists|i: int|
        0 <= i < labels.len() && (#[trigger] labels[i]).key@ == key && labels[i].value@ == value
}

/// Whether labels are those of a container that we manage, for this service.
pub open spec fn is_ours(labels: Seq<Label>, service: Seq<char>) -> bool {
    tagged(labels, MANAGED_LABEL@, MANAGED@) && tagged(labels, SERVICE_LABEL@, service)
}

impl ContainerSummary {
    /// The replica of a service that a listed container is: one that we manage for
    /// that service, with an id and a published port.
    pub open spec fn replica(self, service: Seq<char>) -> Option<Instance> {
        if !is_ours(self.labels@, service) {
            None
        } else {
            match (self.id, self.ports) {
                (Some(container_id), Some(ports)) => match published(ports@) {
                    Some((host_port, container_port)) => Some(
                        Instance { container_id, host_port, container_port },
                    ),
                    None => None,
                },
                _ => None,
            }
        }
    }
}

/// The replica of a service that a container is.
pub open spec fn replica_of(service: Seq<char>) -> spec_fn(ContainerSummary) -> Option<Instance> {
    |container: ContainerSummary| container.replica(service)
}

/// The replicas of a service among listed containers, in the order of the list.
pub open spec fn replicas(containers: Seq<ContainerSummary>, service: Seq<char>) -> Seq<Instance> {
    containers.filter_map(replica_of(service))
}

/// Looks for a label.
fn has_label(labels: &Vec<Label>, key: &String, value: &String) -> (found: bool)
    ensures
        found == tagged(labels@, key@, value@),
{
    let mut i: usize = 0;
    while i < labels.len()
        invariant
            i <= labels@.len(),
            forall|j: int|
                0 <= j < i ==> !((#[trigger] labels@[j]).key@ == key@ && labels@[j].value@
                    == value@),
        decreases labels@.len() - i,
    {
        if labels[i].key == *key && labels[i].value == *value {
            assert(labels@[i as int].key@ == key@ && labels@[i as int].value@ == value@);
            return true;
        }
        i = i + 1;
    }
    false
}

/// Whether labels are those of a container that we manage, for this service.
fn check_labels(labels: &Vec<Label>, service_name: &String) -> (ours: bool)
    ensures
        ours == is_ours(labels@, service_name@),
{
    has_label(labels, &MANAGED_LABEL.to_owned(), &MANAGED.to_owned()) && has_label(
        labels,
        &SERVICE_LABEL.to_owned(),
        service_name,
    )
}

/// Finds the first published port.
fn find_published(ports: &Vec<PortMapping>) -> (found: Option<(u16, u16)>)
    ensures
        found == published(ports@),
{
    let mut i: usize = 0;
    assert(ports@.skip(0) =~= ports@);
    while i < ports.len()
        invariant
            i <= ports@.len(),
            published(ports@) == published(ports@.skip(i as int)),
        decreases ports@.len() - i,
    {
        assert(ports@.skip(i as int).skip(1) =~= ports@.skip(i + 1));
        if let Some(public) = ports[i].public_port {
            return Some((public, ports[i].private_port));
        }
        i = i + 1;
    }
    None
}

/// Picks the replicas of a service out of the running containers that the daemon
/// listed. A container that does not carry both labels is left out, and so is one
/// without an id, without ports or without a published port.
pub fn list_instances(containers: &Vec<ContainerSummary>, service_name: &str) -> (instances: Vec<
    Instance,
>)
    ensures
        instances@ == replicas(containers@, service_name@),
{
    let service: String = service_name.to_owned();
    let mut instances: Vec<Instance> = Vec::new();
    let mut i: usize = 0;
    assert(containers@.take(0) =~= Seq::<ContainerSummary>::empty());
    while i < containers.len()
        invariant
            service@ == service_name@,
            i <= containers@.len(),
            instances@ == replicas(containers@.take(i as int), service_name@),
        decreases containers@.len() - i,
    {
        let container: &ContainerSummary = &containers[i];
        assert(containers@.take(i + 1).drop_last() =~= containers@.take(i as int));
        if check_labels(&container.labels, &service) {
            if let Some(id) = &container.id {
                if let Some(ports) = &container.ports {
                    if let Some((host_port, container_port)) = find_published(ports) {
                        instances.push(
                            Instance { container_id: id.clone(), host_port, container_port },
                        );
                    }
                }
            }
        }
        i = i + 1;
    }
    assert(containers@.take(i as int) =~= containers@);
    instances
}

/// Replicas of one service on different host ports have different container names.
pub proof fn law_container_names_unique(service: Seq<char>, a: u16, b: u16)
    requires
        container_name(service, a) == container_name(service, b),
    ensures
        a == b,
{
    let prefix: Seq<char> = "loadwright-"@ + service + "-"@;
    let x: Seq<char> = crate::text::decimal(a as nat);
    let y: Seq<char> = crate::text::decimal(b as nat);
    assert((prefix + x).skip(prefix.len() as int) =~= x);
    assert((prefix + y).skip(prefix.len() as int) =~= y);
    crate::text::law_decimal_distinct(a as nat, b as nat);
}

/// Replicas on different host ports have different base URLs.
pub proof fn law_base_urls_distinct(a: Instance, b: Instance)
    requires
        a.url() == b.url(),
    ensures
        a.host_port == b.host_port,
{
    let prefix: Seq<char> = "http://127.0.0.1:"@;
    let x: Seq<char> = crate::text::decimal(a.host_port as nat);
    let y: Seq<char> = crate::text::decimal(b.host_port as nat);
    assert((prefix + x).skip(prefix.len() as int) =~= x);
    assert((prefix + y).skip(prefix.len() as int) =~= y);
    crate::text::law_decimal_distinct(a.host_port as nat, b.host_port as nat);
}

/// A planned container is found again: it carries the labels that the replicas of
/// its service are listed by.
pub proof fn law_planned_container_is_found(
    plan: ContainerPlan,
    service: ServiceMeta,
    resources: Resources,
    host_port: u16,
)
    requires
        plan.runs(service, resources, host_port),
    ensures
        is_ours(plan.labels@, service.name@),
{
    assert(plan.labels@[0].key@ == MANAGED_LABEL@ && plan.labels@[1].key@ == SERVICE_LABEL@);
}

/// Unrelated containers are left alone: what is listed is a container that we
/// manage, for the service that was asked for.
pub proof fn law_only_our_containers_are_listed(
    containers: Seq<ContainerSummary>,
    service: Seq<char>,
    instance: Instance,
)
    requires
        replicas(containers, service).contains(instance),
    ensures
        exists|container: ContainerSummary| #[trigger]
            containers.contains(container) && container.replica(service) == Some(instance)
                && is_ours(container.labels@, service) && container.id == Some(
                instance.container_id,
            ),
{
    containers.lemma_filter_map_contains(replica_of(service), instance);
    let container: ContainerSummary = choose|container: ContainerSummary| #[trigger]
        containers.contains(container) && replica_of(service)(container) == Some(instance);
    assert(containers.contains(container) && container.replica(service) == Some(instance));
}

/// Where an instance is reached: on its host port of this machine, and for its health
/// under the given path.
pub proof fn law_where_instances_are(instance: &Instance, path: &str, base: String, health: String)
    requires
        call_ensures(Instance::base_url, (instance,), base),
        call_ensures(Instance::health_url, (instance, path), health),
    ensures
        base@ == "http://127.0.0.1:"@ + crate::text::decimal(instance.host_port as nat),
        health@ == "http://127.0.0.1:"@ + crate::text::decimal(instance.host_port as nat) + path@,
        base@ == instance.url(),
{
}

/// What is asked for to run a replica: the image of the service, its port published on
/// the given one of this machine, a name and labels by which it is told apart and
/// found, and its limits where they can be read.
pub proof fn law_what_containers_run(
    service: &ServiceMeta,
    resources: &Resources,
    host_port: u16,
    plan: ContainerPlan,
)
    requires
        call_ensures(plan_container, (service, resources, host_port), plan),
    ensures
        plan.name@ == "loadwright-"@ + service.name@ + "-"@ + crate::text::decimal(
            host_port as nat,
        ),
        plan.image@ == service.image@,
        plan.container_port@ == crate::text::decimal(service.port as nat) + "/tcp"@,
        plan.host_ip@ == "127.0.0.1"@,
        plan.host_port@ == crate::text::decimal(host_port as nat),
        plan.labels@.len() == 2,
        plan.labels@[0].key@ == "loadwright.managed"@,
        plan.labels@[0].value@ == "true"@,
        plan.labels@[1].key@ == "loadwright.service"@,
        plan.labels@[1].value@ == service.name@,
        resources.cpu_limit is None ==> plan.nano_cpus is None,
        resources.memory_limit is None ==> plan.memory is None,
        resources.cpu_limit matches Some(text) ==> match crate::limits::cpu_nanos(text@) {
            Some(nanos) => if nanos <= i64::MAX {
                plan.nano_cpus == Some(nanos as i64)
            } else {
                plan.nano_cpus is None
            },
            None => plan.nano_cpus is None,
        },
        resources.memory_limit matches Some(text) ==> match crate::limits::memory_bytes(text@) {
            Some(bytes) => if bytes <= i64::MAX {
                plan.memory == Some(bytes as i64)
            } else {
                plan.memory is None
            },
            None => plan.memory is None,
        },
{
}

/// What the daemon is asked for: both labels.
pub proof fn law_what_is_asked_for(service_name: &str, filters: Vec<String>)
    requires
        call_ensures(service_filters, (service_name,), filters),
    ensures
        filters@.len() == 2,
        filters@[0]@ == "loadwright.managed"@ + "="@ + "true"@,
        filters@[1]@ == "loadwright.service"@ + "="@ + service_name@,
{
}

/// Which containers are listed: container by container, in their order, each one that
/// carries both labels and has an id and a published port, by the first such port; and
/// no other.
pub proof fn law_which_containers_are_listed(
    containers: Seq<ContainerSummary>,
    container: ContainerSummary,
    service: Seq<char>,
    managed: int,
    named: int,
    port: int,
)
    ensures
        replicas(Seq::empty(), service) == Seq::<Instance>::empty(),
        container.id is Some && container.ports is Some && 0 <= managed < container.labels@.len()
            && container.labels@[managed].key@ == "loadwright.managed"@
            && container.labels@[managed].value@ == "true"@ && 0 <= named < container.labels@.len()
            && container.labels@[named].key@ == "loadwright.service"@
            && container.labels@[named].value@ == service && 0 <= port
            < container.ports->Some_0@.len() && container.ports->Some_0@[port].public_port is Some
            && (forall|i: int|
            0 <= i < port ==> (
            #[trigger] container.ports->Some_0@[i]).public_port is None) ==> replicas(
            containers.push(container),
            service,
        ) == replicas(containers, service).push(
            Instance {
                container_id: container.id->Some_0,
                host_port: container.ports->Some_0@[port].public_port->Some_0,
                container_port: container.ports->Some_0@[port].private_port,
            },
        ),
        container.id is None || container.ports is None || (forall|i: int|
            0 <= i < container.labels@.len() ==> !((
            #[trigger] container.labels@[i]).key@ == "loadwright.managed"@
                && container.labels@[i].value@ == "true"@)) || (forall|i: int|
            0 <= i < container.labels@.len() ==> !((
            #[trigger] container.labels@[i]).key@ == "loadwright.service"@
                && container.labels@[i].value@ == service)) || (container.ports is Some && forall|
            i: int,
        |
            0 <= i < container.ports->Some_0@.len() ==> (
            #[trigger] container.ports->Some_0@[i]).public_port is None) ==> replicas(
            containers.push(container),
            service,
        ) == replicas(containers, service),
{
    let longer: Seq<ContainerSummary> = containers.push(container);
    assert(longer.drop_last() =~= containers);
    assert(longer.last() == container);
    if container.ports is Some {
        let ports: Seq<PortMapping> = container.ports->Some_0@;
        lemma_published(ports, port);
    }
    if 0 <= managed < container.labels@.len() && 0 <= named < container.labels@.len()
        && container.labels@[managed].key@ == "loadwright.managed"@
        && container.labels@[managed].value@ == "true"@ && container.labels@[named].key@
        == "loadwright.service"@ && container.labels@[named].value@ == service {
        assert(tagged(container.labels@, MANAGED_LABEL@, MANAGED@));
        assert(tagged(container.labels@, SERVICE_LABEL@, service));
    }
}

/// The first published port is found, and none if there is none.
proof fn lemma_published(ports: Seq<PortMapping>, port: int)
    ensures
        0 <= port < ports.len() && ports[port].public_port is Some && (forall|i: int|
            0 <= i < port ==> (#[trigger] ports[i]).public_port is None) ==> published(ports)
            == Some((ports[port].public_port->Some_0, ports[port].private_port)),
        (forall|i: int|
            0 <= i < ports.len() ==> (
            #[trigger] ports[i]).public_port is None) ==> published(ports) is None,
    decreases ports.len(),
{
    if ports.len() > 0 {
        let rest: Seq<PortMapping> = ports.skip(1);
        lemma_published(rest, port - 1);
        assert forall|i: int| 0 <= i < rest.len() implies #[trigger] rest[i] == ports[i + 1] by {}
    }
}

/// What listing returns is these replicas.
pub proof fn law_listing_returns_replicas(
    containers: Vec<ContainerSummary>,
    service_name: &str,
    instances: Vec<Instance>,
)
    requires
        call_ensures(list_instances, (&containers, service_name), instances),
    ensures
        instances@ == replicas(containers@, service_name@),
{
}

/// What a started container is, and what a healthy answer is: the instance on the port
/// that it was published on, and any status from 200 to 299.
pub proof fn law_what_has_started(
    service: &ServiceMeta,
    host_port: u16,
    container_id: String,
    instance: Instance,
    status: u16,
    success: bool,
)
    requires
        call_ensures(started_instance, (service, host_port, container_id), instance),
        call_ensures(is_success, (status,), success),
    ensures
        instance.container_id@ == container_id@,
        instance.host_port == host_port,
        instance.container_port == service.port,
        success <==> 200 <= status <= 299,
{
}

} // verus!
