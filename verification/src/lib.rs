//! A DogStatsD-style metrics library with client-side aggregation.
//!
//! Recording operations (counter, gauge, histogram) update an in-memory
//! aggregator keyed by metric name and sorted tag set.  A flush pass renders
//! the rollups into the DogStatsD text protocol, packs the lines into
//! datagrams bounded by a configurable packet size, and evicts keys that made
//! no contribution during the window.

use vstd::prelude::*;

pub mod aggregator;
pub mod collector;
pub mod error;
pub mod flush;
pub mod fmt;
pub mod hist;
pub mod key;
pub mod laws;
pub mod rstr;
pub mod tags;
pub mod writer;

pub use aggregator::{Aggregator, GaugeState, MetricType};
pub use collector::{HistogramConfig, MetricCollector, MetricCollectorTrait};
pub use error::MetricsError;
pub use hist::SigFig;
pub use key::{AggregatorEntryKey, LookupKey, RemoveKey};
pub use rstr::RylvStr;
pub use tags::{materialize_tags, Tags};
pub use writer::{metric_len, StatsWriterSimple};

verus! {

/// Result type for metric operations.
pub type MetricResult<T> = Result<T, crate::error::MetricsError>;

} // verus!
