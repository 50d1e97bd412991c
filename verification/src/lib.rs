//! A benchmark continuous-testing core: multi-format ingestion of raw
//! benchmarking-tool output into one canonical performance-metric
//! document, and statistical regression detection over a history of
//! past measurements.
//!
//! Raw tool output enters through the dispatcher
//! ([`adapters::magic::AdapterMagic`]), which probes one self-contained
//! grammar per supported tool in a fixed priority order. Every parsed
//! number is normalized into milli-units (thousandths) of its metric
//! kind's canonical unit ([`units`]), so the whole pipeline is exact
//! integer arithmetic. The boundary engine ([`boundary`]) turns a
//! historical series and a statistic configuration into numeric limits,
//! and the alert generator ([`alert`]) emits one alert record per
//! violated side.

pub mod adapters;
pub mod alert;
pub mod boundary;
pub mod file_size;
pub mod json_api;
pub mod license;
pub mod model;
pub mod rbac;
pub mod statistic;
pub mod units;

use vstd::prelude::*;

verus! {

} // verus!
