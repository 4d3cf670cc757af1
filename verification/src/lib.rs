//! Core of an L4 TCP load balancer: configuration model and parser,
//! balancing policies, health-check state machine, admission filters
//! (connection caps, token-bucket rate limiting, allow/deny lists, ACLs),
//! a metrics registry with Prometheus text rendering, and the per-connection
//! relay step. Listening sockets, probing I/O and task scheduling live in the
//! surrounding application; everything here is plain, verified computation.

pub mod scan;
pub mod health;
pub mod config;
pub mod options;
pub mod balancer;
pub mod rate_limit;
pub mod utils;
pub mod acl;
pub mod ddos_protection;
pub mod proxy;
pub mod compression;
pub mod metrics;
