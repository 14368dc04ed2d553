//! The buffer as a mathematical value, and what each operation does to it.
use vstd::prelude::*;

use crate::payload::{
    keys_of, CloudWatchMetricsLogModel, MetadataObjectModel, MetricDefinitionModel,
    MetricDirectiveModel, MAX_DIMENSIONS, MAX_METRICS, STORAGE_RESOLUTION,
};
use crate::unit::MetricUnit;

verus! {

/// One measurement: its name, its unit and the bit pattern of its binary64
/// value.
pub struct MetricModel {
    pub name: Seq<char>,
    pub unit: MetricUnit,
    pub value_bits: u64,
}

impl MetricModel {
    /// The declaration of this measurement in a log record.
    pub open spec fn definition(self) -> MetricDefinitionModel {
        MetricDefinitionModel {
            name: self.name,
            unit: self.unit,
            storage_resolution: STORAGE_RESOLUTION,
        }
    }

    /// The member of a log record that carries this measurement's value.
    pub open spec fn value_member(self) -> (Seq<char>, u64) {
        (self.name, self.value_bits)
    }
}

/// The names of a list of measurements, in order.
pub open spec fn names_of(entries: Seq<MetricModel>) -> Seq<Seq<char>> {
    Seq::new(entries.len(), |i: int| entries[i].name)
}

/// What a buffer holds: its namespace, its dimensions in the order in which
/// their keys first came, and its measurements in the order in which they
/// came.
pub struct BufferModel {
    pub namespace: Seq<char>,
    pub dimensions: Seq<(Seq<char>, Seq<char>)>,
    pub entries: Seq<MetricModel>,
}

impl BufferModel {
    /// The dimension keys, in order.
    pub open spec fn dimension_keys(self) -> Seq<Seq<char>> {
        keys_of(self.dimensions)
    }

    /// The names of the measurements, in order.
    pub open spec fn metric_names(self) -> Seq<Seq<char>> {
        names_of(self.entries)
    }

    /// The bounds hold and no key and no name occurs twice.
    pub open spec fn well_formed(self) -> bool {
        &&& self.dimensions.len() <= MAX_DIMENSIONS
        &&& self.entries.len() <= MAX_METRICS
        &&& self.dimension_keys().no_duplicates()
        &&& self.metric_names().no_duplicates()
    }

    /// The buffer as it is made: one dimension, no measurement.
    pub open spec fn fresh(namespace: Seq<char>, key: Seq<char>, value: Seq<char>) -> BufferModel {
        BufferModel { namespace, dimensions: seq![(key, value)], entries: Seq::empty() }
    }

    /// Whether a dimension has this key.
    pub open spec fn has_dimension(self, key: Seq<char>) -> bool {
        self.dimension_keys().contains(key)
    }

    /// Whether a measurement has this name.
    pub open spec fn has_metric(self, name: Seq<char>) -> bool {
        self.metric_names().contains(name)
    }

    /// The dimensions as a mapping from key to value.
    pub open spec fn dimension_map(self) -> Map<Seq<char>, Seq<char>> {
        Map::new(
            |key: Seq<char>| self.has_dimension(key),
            |key: Seq<char>| self.dimensions[self.dimension_keys().index_of(key)].1,
        )
    }

    /// Whether the measurements must be handed out before one of this name
    /// is taken in: the buffer is full, or holds the name already.
    pub open spec fn needs_flush(self, name: Seq<char>) -> bool {
        self.entries.len() >= MAX_METRICS || self.has_metric(name)
    }

    /// The buffer after its measurements were handed out.
    pub open spec fn flushed(self) -> BufferModel {
        BufferModel { entries: Seq::empty(), ..self }
    }

    /// The buffer after a measurement was taken in.
    pub open spec fn add_metric(self, metric: MetricModel) -> BufferModel {
        if self.needs_flush(metric.name) {
            BufferModel { entries: seq![metric], ..self }
        } else {
            BufferModel { entries: self.entries.push(metric), ..self }
        }
    }

    /// The buffer after the measurements of `batch` were taken in, one after
    /// another.
    pub open spec fn add_metrics(self, batch: Seq<MetricModel>) -> BufferModel
        decreases batch.len(),
    {
        if batch.len() == 0 {
            self
        } else {
            self.add_metrics(batch.drop_last()).add_metric(batch.last())
        }
    }

    /// The batches of measurements that are handed out, one after another,
    /// while the measurements of `batch` are taken in.
    pub open spec fn emitted_during(self, batch: Seq<MetricModel>) -> Seq<Seq<MetricModel>>
        decreases batch.len(),
    {
        if batch.len() == 0 {
            Seq::empty()
        } else {
            let before = self.add_metrics(batch.drop_last());
            let emitted = self.emitted_during(batch.drop_last());
            if before.needs_flush(batch.last().name) {
                emitted.push(before.entries)
            } else {
                emitted
            }
        }
    }

    /// Whether the buffer takes no further dimension.
    pub open spec fn dimension_limit_reached(self) -> bool {
        self.dimensions.len() >= MAX_DIMENSIONS
    }

    /// The buffer with `key` set to `value`: in the key's place if the buffer
    /// has the key, else behind the other dimensions.
    pub open spec fn with_dimension(self, key: Seq<char>, value: Seq<char>) -> BufferModel {
        if self.has_dimension(key) {
            BufferModel {
                dimensions: self.dimensions.update(
                    self.dimension_keys().index_of(key),
                    (key, value),
                ),
                ..self
            }
        } else {
            BufferModel { dimensions: self.dimensions.push((key, value)), ..self }
        }
    }

    /// The buffer after an attempt to set `key` to `value`: unchanged where
    /// the limit was reached before.
    pub open spec fn try_add_dimension(self, key: Seq<char>, value: Seq<char>) -> BufferModel {
        if self.dimension_limit_reached() {
            self
        } else {
            self.with_dimension(key, value)
        }
    }

    /// The buffer after one attempt for each member of `batch`, one after
    /// another, to set the dimension that it names.
    pub open spec fn try_add_dimensions(self, batch: Seq<(Seq<char>, Seq<char>)>) -> BufferModel
        decreases batch.len(),
    {
        if batch.len() == 0 {
            self
        } else {
            self.try_add_dimensions(batch.drop_last()).try_add_dimension(
                batch.last().0,
                batch.last().1,
            )
        }
    }

    /// How many of these attempts fail.
    pub open spec fn rejected_during(self, batch: Seq<(Seq<char>, Seq<char>)>) -> nat
        decreases batch.len(),
    {
        if batch.len() == 0 {
            0
        } else {
            let before = self.try_add_dimensions(batch.drop_last());
            let rejected = self.rejected_during(batch.drop_last());
            if before.dimension_limit_reached() {
                rejected + 1
            } else {
                rejected
            }
        }
    }

    /// The log record of the buffer's contents, taken at `timestamp`.
    pub open spec fn payload(self, timestamp: i64) -> CloudWatchMetricsLogModel {
        CloudWatchMetricsLogModel {
            aws: MetadataObjectModel {
                timestamp,
                cloud_watch_metrics: seq![
                    MetricDirectiveModel {
                        namespace: self.namespace,
                        dimensions: seq![self.dimension_keys()],
                        metrics: Seq::new(
                            self.entries.len(),
                            |i: int| self.entries[i].definition(),
                        ),
                    },
                ],
            },
            dimensions: self.dimensions,
            metrics_values: Seq::new(self.entries.len(), |i: int| self.entries[i].value_member()),
        }
    }
}

} // verus!
