//! Decision logic of a container-native load balancer and autoscaler.

pub mod autoscaler;
pub mod autoscaler_laws;
pub mod config;
pub mod figures;
pub mod health;
pub mod limits;
pub mod metrics;
pub mod metrics_laws;
pub mod orchestrator;
pub mod proxy;
pub mod real64;
pub mod scaling;
pub mod schedule;
pub mod startup;
pub mod store;
pub mod text;
