//! Verified core of a reverse proxy and load balancer: configuration model,
//! host and route selection, certificate and DNS-challenge helpers, and the
//! decisions that the proxy and admin service take.
pub mod text;
pub mod model;
pub mod router;
pub mod template;
pub mod store;
pub mod dns;
pub mod query;
pub mod sign;
pub mod cert;
pub mod manager;
pub mod audit;
pub mod auth;
pub mod ui;
pub mod schedule;
pub mod proxy;
pub mod tls;
pub mod stream;
pub mod log;
pub mod plugin;
