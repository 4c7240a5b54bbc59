//! Bringing a service up: the first instances, before any traffic is served.

use crate::config::ScalingConfig;
use crate::health::{HealthWait, WaitStep};
use crate::metrics::MetricsRegistry;
use crate::orchestrator::Instance;
use crate::proxy::BackendPool;
use crate::text::append_decimal;
use vstd::prelude::*;

verus! {

/// The state of bringing a service up: how many instances it has, and how many
/// it needs before it may serve.
#[derive(Debug)]
pub struct Startup {
    started: u32,
    wanted: u32,
}

impl Startup {
    /// Instances started so far.
    pub closed spec fn started(self) -> nat {
        self.started as nat
    }

    /// Instances needed before traffic is served.
    pub closed spec fn wanted(self) -> nat {
        self.wanted as nat
    }

    /// Whether the pool holds the instances started so far, and no more than are
    /// wanted.
    pub open spec fn accounts_for(self, pool: Seq<Instance>) -> bool {
        pool.len() == self.started() <= self.wanted()
    }

    /// Begins without instances; `min_instances` are needed.
    pub fn new(scaling: &ScalingConfig) -> (startup: Startup)
        ensures
            startup.started() == 0,
            startup.wanted() == scaling.min_instances,
            startup.accounts_for(Seq::empty()),
    {
        Startup { started: 0, wanted: scaling.min_instances }
    }

    /// Whether another instance has to be spawned before traffic is served.
    pub fn needs_instance(&self) -> (needs: bool)
        ensures
            needs == (self.started() < self.wanted()),
    {
        self.started < self.wanted
    }

    /// Takes in an instance that has been spawned and waited for until it was
    /// healthy: its metrics start, and it joins the pool. Returns the number of
    /// instances in the pool.
    pub fn add_instance(
        &mut self,
        instance: Instance,
        wait: HealthWait,
        pool: &mut BackendPool,
        metrics: &mut MetricsRegistry,
    ) -> (replicas: usize)
        requires
            old(self).started() < old(self).wanted(),
            wait@.step == WaitStep::Ready,
        ensures
            final(self).started() == old(self).started() + 1,
            final(self).wanted() == old(self).wanted(),
            final(pool)@ == old(pool)@.push(instance),
            final(metrics)@ == old(metrics)@.with_added(instance.container_id@),
            replicas == final(pool)@.len(),
            old(self).accounts_for(old(pool)@) ==> final(self).accounts_for(final(pool)@),
    {
        metrics.track(instance.container_id.as_str());
        let mut current: Vec<Instance> = pool.get();
        current.push(instance);
        pool.set(current);
        self.started = self.started + 1;
        pool.len()
    }
}

/// Service begins with exactly the wanted number of backends: no further
/// instance is needed when, and only when, the pool holds that many.
pub proof fn law_service_begins_with_minimum(startup: Startup, pool: Seq<Instance>)
    requires
        startup.accounts_for(pool),
    ensures
        !(startup.started() < startup.wanted()) <==> pool.len() == startup.wanted(),
{
}

/// The address that the proxy listens on.
pub fn listen_address(listen_port: u16) -> (address: String)
    ensures
        address@ == "0.0.0.0:"@ + crate::text::decimal(listen_port as nat),
{
    let mut address = "0.0.0.0:".to_owned();
    append_decimal(&mut address, listen_port as u32);
    address
}

/// How many instances are needed, and how one is counted: `min_instances` in all, and
/// another one as long as fewer have been started.
pub proof fn law_minimum_is_needed(
    scaling: &crate::config::ScalingConfig,
    startup: Startup,
    needs: bool,
)
    requires
        call_ensures(Startup::new, (scaling,), startup),
        call_ensures(Startup::needs_instance, (&startup,), needs),
    ensures
        startup.started() == 0,
        startup.wanted() == scaling.min_instances,
        needs <==> scaling.min_instances > 0,
{
}

/// The proxy listens on every address of the machine, on the port that it is given.
pub proof fn law_listens_on_its_port(listen_port: u16, address: String)
    requires
        call_ensures(listen_address, (listen_port,), address),
    ensures
        address@ == "0.0.0.0:"@ + crate::text::decimal(listen_port as nat),
{
}

/// An instance that is healthy joins the pool behind the others and the metrics, and
/// counts as started.
pub proof fn law_how_instances_start(
    startup: &mut Startup,
    instance: Instance,
    wait: HealthWait,
    pool: &mut BackendPool,
    metrics: &mut MetricsRegistry,
    replicas: usize,
)
    requires
        call_ensures(Startup::add_instance, (startup, instance, wait, pool, metrics), replicas),
    ensures
        final(startup).started() == old(startup).started() + 1,
        final(startup).wanted() == old(startup).wanted(),
        final(pool)@ == old(pool)@.push(instance),
        final(metrics)@ == old(metrics)@.with_added(instance.container_id@),
        replicas == old(pool)@.len() + 1,
{
}

} // verus!
