//! Verified core of a telemetry ingestion pipeline: a decoder for JSON
//! telemetry payloads, a FIFO hand-off buffer between a listener and a
//! periodic publisher, and a model of the seven named gauges the publisher
//! maintains.

pub mod buffer;
pub mod decode;
pub mod encode;
pub mod gauges;
pub mod record;
