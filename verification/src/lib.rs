//! Buffer for embedded-metric-format log records.
//!
//! A [`Metrics`] buffer collects named measurements together with the
//! dimensions that describe where they were taken. It hands them out as a
//! [`CloudWatchMetricsLog`], the record that a CloudWatch agent reads metrics
//! from once it is written to the log as one line of JSON: when asked to, and
//! before it takes in a measurement that cannot stand beside the ones it
//! holds. Writing the line is left to the caller.
//!
//! Values are binary64 numbers. The buffer does no arithmetic on them and
//! carries each as its bit pattern, a `u64`.
pub mod lemmas;
pub mod metrics;
pub mod model;
pub mod payload;
pub mod unit;

mod clock;

pub use metrics::{Metric, Metrics};
pub use model::{BufferModel, MetricModel};
pub use payload::{
    CloudWatchMetricsLog, MetadataObject, MetricDefinition, MetricDirective, MAX_DIMENSIONS,
    MAX_METRICS, STORAGE_RESOLUTION,
};
pub use unit::MetricUnit;
