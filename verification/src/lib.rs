//! Verified core of an IoT metrics collector: decimal encoding into byte
//! buffers, the JSON payload and HTTP request it sends, the status derived
//! from the metrics, and the decisions taken around the network exchange.

pub mod decimal;
pub mod metrics;
pub mod payload;
pub mod session;
