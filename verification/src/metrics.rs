//! The buffer itself.
use vstd::prelude::*;

use crate::clock::now_millis;
use crate::lemmas::{
    lemma_add_metric_names, lemma_add_metric_well_formed, lemma_flushed_well_formed,
    lemma_payload_well_formed, lemma_try_add_dimension_well_formed,
    lemma_with_dimension_is_insert, lemma_with_dimension_keys,
};
use crate::model::{BufferModel, MetricModel};
use crate::payload::{
    CloudWatchMetricsLog, MetadataObject, MetricDefinition, MetricDirective, MAX_DIMENSIONS,
    MAX_METRICS, STORAGE_RESOLUTION,
};
use crate::unit::MetricUnit;

verus! {

/// One measurement held by a buffer.
#[derive(Debug)]
pub struct Metric {
    pub name: String,
    pub unit: MetricUnit,
    /// Bit pattern of the binary64 value.
    pub value_bits: u64,
}

impl View for Metric {
    type V = MetricModel;

    open spec fn view(&self) -> MetricModel {
        MetricModel { name: self.name@, unit: self.unit, value_bits: self.value_bits }
    }
}

impl DeepView for Metric {
    type V = MetricModel;

    open spec fn deep_view(&self) -> MetricModel {
        self@
    }
}

impl Metric {
    /// Declares this measurement for a log record, at the one resolution
    /// that the buffer uses.
    pub fn to_metric_definition(&self) -> (definition: MetricDefinition)
        ensures
            definition@ == self@.definition(),
    {
        MetricDefinition {
            name: self.name.clone(),
            unit: self.unit,
            storage_resolution: STORAGE_RESOLUTION,
        }
    }
}

/// Measurements on their way to the log, with the namespace and the
/// dimensions under which the backend files them.
#[derive(Debug)]
pub struct Metrics {
    namespace: String,
    dimensions: Vec<(String, String)>,
    entries: Vec<Metric>,
}

impl View for Metrics {
    type V = BufferModel;

    closed spec fn view(&self) -> BufferModel {
        BufferModel {
            namespace: self.namespace@,
            dimensions: self.dimensions.deep_view(),
            entries: self.entries.deep_view(),
        }
    }
}

/// Index of the dimension with this key.
fn find_dimension(dimensions: &Vec<(String, String)>, key: &String) -> (found: Option<usize>)
    ensures
        match found {
            Some(i) => i < dimensions.len() && dimensions[i as int].0@ == key@,
            None => forall|j: int| 0 <= j < dimensions.len() ==> dimensions[j].0@ != key@,
        },
{
    let mut i: usize = 0;
    while i < dimensions.len()
        invariant
            i <= dimensions.len(),
            forall|j: int| 0 <= j < i ==> dimensions[j].0@ != key@,
        decreases dimensions.len() - i,
    {
        if dimensions[i].0 == *key {
            return Some(i);
        }
        i += 1;
    }
    None
}

/// Whether one of the measurements has this name.
fn has_name(entries: &Vec<Metric>, name: &String) -> (found: bool)
    ensures
        found <==> exists|j: int| 0 <= j < entries.len() && entries[j].name@ == name@,
{
    let mut i: usize = 0;
    while i < entries.len()
        invariant
            i <= entries.len(),
            forall|j: int| 0 <= j < i ==> entries[j].name@ != name@,
        decreases entries.len() - i,
    {
        if entries[i].name == *name {
            return true;
        }
        i += 1;
    }
    false
}

impl Metrics {
    #[verifier::type_invariant]
    spec fn inv(self) -> bool {
        self@.well_formed()
    }

    /// Makes a buffer for `namespace` with one dimension and no measurement.
    #[must_use]
    pub fn new(namespace: &str, dimension_key: &str, dimension_value: &str) -> (metrics: Self)
        ensures
            metrics@ == BufferModel::fresh(namespace@, dimension_key@, dimension_value@),
            metrics@.has_dimension(dimension_key@),
            metrics@.well_formed(),
    {
        let mut dimensions: Vec<(String, String)> = Vec::new();
        dimensions.push((dimension_key.to_owned(), dimension_value.to_owned()));
        let metrics = Metrics { namespace: namespace.to_owned(), dimensions, entries: Vec::new() };
        assert(metrics@.dimensions =~= seq![(dimension_key@, dimension_value@)]);
        assert(metrics@.entries =~= Seq::empty());
        assert(metrics@.dimension_keys()[0] == dimension_key@);
        metrics
    }

    /// Sets the dimension `key` to `value`, unless the buffer holds
    /// [`MAX_DIMENSIONS`] dimensions already: then nothing changes and the
    /// call fails, whether the buffer has the key or not.
    pub fn try_add_dimension(&mut self, key: &str, value: &str) -> (res: Result<(), String>)
        ensures
            res is Err <==> old(self)@.dimension_limit_reached(),
            res matches Err(message) ==> message@ == "Too many dimensions"@,
            final(self)@ == old(self)@.try_add_dimension(key@, value@),
            res is Err ==> final(self)@ == old(self)@,
            res is Ok ==> final(self)@.dimension_map() == old(self)@.dimension_map().insert(
                key@,
                value@,
            ),
            forall|k: Seq<char>| #[trigger]
                final(self)@.has_dimension(k) <==> (res is Ok && k == key@)
                    || old(self)@.has_dimension(k),
            final(self)@.well_formed(),
    {
        proof {
            use_type_invariant(&*self);
        }
        if self.dimensions.len() >= MAX_DIMENSIONS {
            Err("Too many dimensions".to_owned())
        } else {
            let owned_key = key.to_owned();
            let owned_value = value.to_owned();
            let ghost keys = self@.dimension_keys();
            let mut dimensions: Vec<(String, String)> = Vec::new();
            std::mem::swap(&mut dimensions, &mut self.dimensions);
            match find_dimension(&dimensions, &owned_key) {
                Some(i) => {
                    assert(keys[i as int] == key@);
                    assert(keys.index_of(key@) == i);
                    dimensions.set(i, (owned_key, owned_value));
                },
                None => {
                    assert(!keys.contains(key@));
                    dimensions.push((owned_key, owned_value));
                },
            }
            proof {
                lemma_try_add_dimension_well_formed(old(self)@, key@, value@);
                lemma_with_dimension_is_insert(old(self)@, key@, value@);
                lemma_with_dimension_keys(old(self)@, key@, value@);
                assert(dimensions.deep_view() =~= old(self)@.try_add_dimension(
                    key@,
                    value@,
                ).dimensions);
            }
            self.dimensions = dimensions;
            Ok(())
        }
    }

    /// Takes in a measurement. Where the buffer is full, or holds a
    /// measurement of this name, the measurements held so far leave first:
    /// they are returned as a log record, and the new one starts the next
    /// batch.
    #[must_use]
    pub fn add_metric(&mut self, name: &str, unit: MetricUnit, value_bits: u64) -> (emitted: Option<
        CloudWatchMetricsLog,
    >)
        ensures
            emitted is Some <==> old(self)@.needs_flush(name@),
            emitted matches Some(log) ==> log.holds(old(self)@.payload(log.aws.timestamp))
                && log@.well_formed(),
            final(self)@ == old(self)@.add_metric((MetricModel { name: name@, unit, value_bits })),
            final(self)@.entries.last() == (MetricModel { name: name@, unit, value_bits }),
            forall|other: Seq<char>| #[trigger]
                final(self)@.has_metric(other) <==> other == name@ || (emitted is None
                    && old(self)@.has_metric(other)),
            final(self)@.well_formed(),
    {
        proof {
            use_type_invariant(&*self);
        }
        let owned_name = name.to_owned();
        let ghost metric = MetricModel { name: name@, unit, value_bits };
        let full = self.entries.len() >= MAX_METRICS;
        let emitted = if full || has_name(&self.entries, &owned_name) {
            assert(old(self)@.needs_flush(name@)) by {
                if !full {
                    let j = choose|j: int|
                        0 <= j < self.entries.len() && self.entries[j].name@ == name@;
                    assert(self@.metric_names()[j] == name@);
                }
            }
            Some(self.flush_metrics())
        } else {
            assert(!old(self)@.needs_flush(name@));
            None
        };
        let mut entries: Vec<Metric> = Vec::new();
        std::mem::swap(&mut entries, &mut self.entries);
        entries.push(Metric { name: owned_name, unit, value_bits });
        proof {
            lemma_add_metric_well_formed(old(self)@, metric);
            lemma_add_metric_names(old(self)@, metric);
            assert(entries.deep_view() =~= old(self)@.add_metric(metric).entries);
        }
        self.entries = entries;
        emitted
    }

    /// The log record of what the buffer holds now, stamped with the time on
    /// the system clock.
    #[must_use]
    pub fn format_metrics(&self) -> (log: CloudWatchMetricsLog)
        ensures
            log.holds(self@.payload(log.aws.timestamp)),
            log@.well_formed(),
    {
        self.format_metrics_at(now_millis())
    }

    /// The log record of what the buffer holds now, stamped with `timestamp`.
    #[must_use]
    pub fn format_metrics_at(&self, timestamp: i64) -> (log: CloudWatchMetricsLog)
        ensures
            log.holds(self@.payload(timestamp)),
            log@.well_formed(),
    {
        proof {
            use_type_invariant(self);
            lemma_payload_well_formed(self@, timestamp);
        }
        let mut definitions: Vec<MetricDefinition> = Vec::new();
        let mut values: Vec<(String, u64)> = Vec::new();
        let mut i: usize = 0;
        while i < self.entries.len()
            invariant
                i <= self.entries.len(),
                definitions.len() == i,
                values.len() == i,
                forall|j: int| 0 <= j < i ==> definitions[j]@ == self.entries[j]@.definition(),
                forall|j: int|
                    0 <= j < i ==> values[j].deep_view() == self.entries[j]@.value_member(),
            decreases self.entries.len() - i,
        {
            definitions.push(self.entries[i].to_metric_definition());
            values.push((self.entries[i].name.clone(), self.entries[i].value_bits));
            i += 1;
        }
        let mut keys: Vec<String> = Vec::new();
        let mut dimensions: Vec<(String, String)> = Vec::new();
        let mut k: usize = 0;
        while k < self.dimensions.len()
            invariant
                k <= self.dimensions.len(),
                keys.len() == k,
                dimensions.len() == k,
                forall|j: int| 0 <= j < k ==> keys[j]@ == self.dimensions[j].0@,
                forall|j: int|
                    0 <= j < k ==> dimensions[j].deep_view() == self.dimensions[j].deep_view(),
            decreases self.dimensions.len() - k,
        {
            keys.push(self.dimensions[k].0.clone());
            dimensions.push((self.dimensions[k].0.clone(), self.dimensions[k].1.clone()));
            k += 1;
        }
        let mut key_sets: Vec<Vec<String>> = Vec::new();
        key_sets.push(keys);
        let mut directives: Vec<MetricDirective> = Vec::new();
        directives.push(
            MetricDirective {
                namespace: self.namespace.clone(),
                dimensions: key_sets,
                metrics: definitions,
            },
        );
        let log = CloudWatchMetricsLog {
            aws: MetadataObject { timestamp, cloud_watch_metrics: directives },
            dimensions,
            metrics_values: values,
        };
        proof {
            let want = self@.payload(timestamp);
            let directive = log@.aws.cloud_watch_metrics[0];
            assert(directive.dimensions[0] =~= self@.dimension_keys());
            assert(directive.dimensions =~= want.aws.cloud_watch_metrics[0].dimensions);
            assert(directive.metrics =~= want.aws.cloud_watch_metrics[0].metrics);
            assert(log@.aws.cloud_watch_metrics =~= want.aws.cloud_watch_metrics);
            assert(log@.dimensions =~= want.dimensions);
            assert(log@.metrics_values =~= want.metrics_values);
            log.lemma_holds_view();
        }
        log
    }

    /// Hands out what the buffer holds as a log record, stamped with the time
    /// on the system clock, and empties the buffer of its measurements. The
    /// namespace and the dimensions stay.
    #[must_use]
    pub fn flush_metrics(&mut self) -> (log: CloudWatchMetricsLog)
        ensures
            log.holds(old(self)@.payload(log.aws.timestamp)),
            log@.well_formed(),
            final(self)@ == old(self)@.flushed(),
            final(self)@.well_formed(),
    {
        self.flush_metrics_at(now_millis())
    }

    /// Hands out what the buffer holds as a log record, stamped with
    /// `timestamp`, and empties the buffer of its measurements. The namespace
    /// and the dimensions stay.
    #[must_use]
    pub fn flush_metrics_at(&mut self, timestamp: i64) -> (log: CloudWatchMetricsLog)
        ensures
            log.holds(old(self)@.payload(timestamp)),
            log@.well_formed(),
            final(self)@ == old(self)@.flushed(),
            final(self)@.well_formed(),
    {
        proof {
            use_type_invariant(&*self);
        }
        let log = self.format_metrics_at(timestamp);
        let entries: Vec<Metric> = Vec::new();
        proof {
            lemma_flushed_well_formed(old(self)@);
            assert(entries.deep_view() =~= old(self)@.flushed().entries);
        }
        self.entries = entries;
        log
    }

    /// Ends the buffer's life: hands out what it still holds as a log
    /// record, stamped with the time on the system clock.
    #[must_use]
    pub fn finish(self) -> (log: CloudWatchMetricsLog)
        ensures
            log.holds(self@.payload(log.aws.timestamp)),
            log@.well_formed(),
    {
        self.format_metrics()
    }

    /// The namespace under which the backend files the measurements.
    pub fn namespace(&self) -> (namespace: &str)
        ensures
            namespace@ == self@.namespace,
    {
        self.namespace.as_str()
    }

    /// The dimensions, in the order in which their keys first came.
    pub fn dimensions(&self) -> (dimensions: &Vec<(String, String)>)
        ensures
            dimensions.deep_view() == self@.dimensions,
            dimensions.len() <= MAX_DIMENSIONS,
            self@.well_formed(),
    {
        proof {
            use_type_invariant(self);
        }
        &self.dimensions
    }

    /// The measurements that wait to be handed out, in the order in which
    /// they came.
    pub fn entries(&self) -> (entries: &Vec<Metric>)
        ensures
            entries.deep_view() == self@.entries,
            entries.len() <= MAX_METRICS,
            self@.well_formed(),
    {
        proof {
            use_type_invariant(self);
        }
        &self.entries
    }
}

} // verus!
