//! Pure, verified core of the picloud HTTP slice: content negotiation,
//! IRI routing, ingress routing tables, alert and SLO state machines,
//! inference diffs, telemetry filters and the small text parsers they use.

pub mod text;
pub mod iri;
pub mod implementation;
pub mod capability;
pub mod router;
pub mod alerts;
pub mod data_product_monitor;
pub mod inference;
pub mod metrics;
pub mod proxy;
pub mod tls;
pub mod otel;
pub mod telemetry;
pub mod telemetry_files;
pub mod provisioner;
pub mod ingress;
pub mod apply;
pub mod handlers;
pub mod self_monitor;
pub mod storage;
pub mod auth;
