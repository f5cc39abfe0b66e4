//! Verified core of a small home environment monitor: sensor decoding,
//! the firmware's reading loop, report encoding, and the collector's
//! ingestion, registry and chart-preparation logic.

pub mod text;
pub mod decimal;
pub mod sensor;
pub mod reporting;
pub mod time;
pub mod location;
pub mod reading;
pub mod registry;
pub mod chart;
pub mod overview;
pub mod collector;
