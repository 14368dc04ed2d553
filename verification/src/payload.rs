//! The log record that a flush hands out.
//!
//! The record is plain data: a metadata object that tells the backend which
//! of the record's members are metrics and how to read them, the dimensions,
//! and the measured values. The field names follow the embedded metric
//! format's own names for these objects.
use vstd::prelude::*;

use crate::unit::MetricUnit;

verus! {

/// Most dimension keys that the backend takes in one set.
pub const MAX_DIMENSIONS: usize = 30;

/// Most metrics that the backend takes in one record.
pub const MAX_METRICS: usize = 100;

/// Resolution, in seconds, at which the backend stores every metric.
pub const STORAGE_RESOLUTION: u64 = 60;

/// Declares one member of the record as a metric.
#[derive(Debug)]
pub struct MetricDefinition {
    pub name: String,
    pub unit: MetricUnit,
    pub storage_resolution: u64,
}

/// What a [`MetricDefinition`] stands for.
pub struct MetricDefinitionModel {
    pub name: Seq<char>,
    pub unit: MetricUnit,
    pub storage_resolution: u64,
}

impl View for MetricDefinition {
    type V = MetricDefinitionModel;

    open spec fn view(&self) -> MetricDefinitionModel {
        MetricDefinitionModel {
            name: self.name@,
            unit: self.unit,
            storage_resolution: self.storage_resolution,
        }
    }
}

impl DeepView for MetricDefinition {
    type V = MetricDefinitionModel;

    open spec fn deep_view(&self) -> MetricDefinitionModel {
        self@
    }
}

/// The metrics of one namespace, with the sets of dimension keys under which
/// the backend files them.
#[derive(Debug)]
pub struct MetricDirective {
    pub namespace: String,
    pub dimensions: Vec<Vec<String>>,
    pub metrics: Vec<MetricDefinition>,
}

/// What a [`MetricDirective`] stands for.
pub struct MetricDirectiveModel {
    pub namespace: Seq<char>,
    pub dimensions: Seq<Seq<Seq<char>>>,
    pub metrics: Seq<MetricDefinitionModel>,
}

impl View for MetricDirective {
    type V = MetricDirectiveModel;

    open spec fn view(&self) -> MetricDirectiveModel {
        MetricDirectiveModel {
            namespace: self.namespace@,
            dimensions: self.dimensions.deep_view(),
            metrics: self.metrics.deep_view(),
        }
    }
}

impl DeepView for MetricDirective {
    type V = MetricDirectiveModel;

    open spec fn deep_view(&self) -> MetricDirectiveModel {
        self@
    }
}

/// The metadata member of the record: when it was taken and what it holds.
#[derive(Debug)]
pub struct MetadataObject {
    /// Milliseconds since the Unix epoch.
    pub timestamp: i64,
    pub cloud_watch_metrics: Vec<MetricDirective>,
}

/// What a [`MetadataObject`] stands for.
pub struct MetadataObjectModel {
    pub timestamp: i64,
    pub cloud_watch_metrics: Seq<MetricDirectiveModel>,
}

impl View for MetadataObject {
    type V = MetadataObjectModel;

    open spec fn view(&self) -> MetadataObjectModel {
        MetadataObjectModel {
            timestamp: self.timestamp,
            cloud_watch_metrics: self.cloud_watch_metrics.deep_view(),
        }
    }
}

/// One log record: the metadata, then the dimensions and the measured values
/// that the backend reads as top-level members.
#[derive(Debug)]
pub struct CloudWatchMetricsLog {
    pub aws: MetadataObject,
    /// Dimension keys with their values.
    pub dimensions: Vec<(String, String)>,
    /// Metric names with the bit patterns of their binary64 values.
    pub metrics_values: Vec<(String, u64)>,
}

/// What a [`CloudWatchMetricsLog`] stands for.
pub struct CloudWatchMetricsLogModel {
    pub aws: MetadataObjectModel,
    pub dimensions: Seq<(Seq<char>, Seq<char>)>,
    pub metrics_values: Seq<(Seq<char>, u64)>,
}

impl View for CloudWatchMetricsLog {
    type V = CloudWatchMetricsLogModel;

    open spec fn view(&self) -> CloudWatchMetricsLogModel {
        CloudWatchMetricsLogModel {
            aws: self.aws@,
            dimensions: self.dimensions.deep_view(),
            metrics_values: self.metrics_values.deep_view(),
        }
    }
}

/// The keys of a list of members, in order.
pub open spec fn keys_of<V>(members: Seq<(Seq<char>, V)>) -> Seq<Seq<char>> {
    Seq::new(members.len(), |i: int| members[i].0)
}

impl CloudWatchMetricsLogModel {
    /// The dimension keys, in order.
    pub open spec fn dimension_keys(self) -> Seq<Seq<char>> {
        keys_of(self.dimensions)
    }

    /// The names under which the values stand, in order.
    pub open spec fn metric_names(self) -> Seq<Seq<char>> {
        keys_of(self.metrics_values)
    }

    /// The record is one that the backend reads as it is meant: it holds one
    /// directive with one set of dimension keys, which are the keys of the
    /// record's dimensions; every value is declared as a metric, in the same
    /// place and at the one storage resolution; no key and no name occurs
    /// twice; and neither the keys nor the metrics are too many.
    pub open spec fn well_formed(self) -> bool {
        &&& self.aws.cloud_watch_metrics.len() == 1
        &&& self.aws.cloud_watch_metrics[0].dimensions == seq![self.dimension_keys()]
        &&& self.dimension_keys().len() <= MAX_DIMENSIONS
        &&& self.dimension_keys().no_duplicates()
        &&& self.aws.cloud_watch_metrics[0].metrics.len() == self.metrics_values.len()
        &&& self.metrics_values.len() <= MAX_METRICS
        &&& self.metric_names().no_duplicates()
        &&& forall|i: int|
            0 <= i < self.metrics_values.len() ==> {
                let definition = #[trigger] self.aws.cloud_watch_metrics[0].metrics[i];
                &&& definition.name == self.metrics_values[i].0
                &&& definition.storage_resolution == STORAGE_RESOLUTION
            }
    }
}

/// Whether `i` is the place of the first of `members` that stands under
/// `key`.
pub open spec fn is_first_under<V>(members: Seq<(Seq<char>, V)>, key: Seq<char>, i: int) -> bool {
    &&& 0 <= i < members.len()
    &&& members[i].0 == key
    &&& forall|j: int| 0 <= j < i ==> (#[trigger] members[j]).0 != key
}

impl MetricDirective {
    /// The directive holds what `model` says: as a whole, and field by
    /// field for one who reads the fields.
    pub open spec fn holds(&self, model: MetricDirectiveModel) -> bool {
        &&& self@ == model
        &&& self.namespace@ == model.namespace
        &&& self.dimensions.len() == model.dimensions.len()
        &&& forall|s: int|
            0 <= s < self.dimensions.len() ==> (#[trigger] self.dimensions[s]).len()
                == model.dimensions[s].len()
        &&& forall|s: int, i: int|
            0 <= s < self.dimensions.len() && 0 <= i < self.dimensions[s].len() ==> (
            #[trigger] self.dimensions[s][i])@ == model.dimensions[s][i]
        &&& self.metrics.len() == model.metrics.len()
        &&& forall|i: int|
            0 <= i < self.metrics.len() ==> (#[trigger] self.metrics[i])@ == model.metrics[i]
    }

    /// A directive holds what it stands for.
    pub proof fn lemma_holds_view(self)
        ensures
            self.holds(self@),
    {
        assert forall|s: int, i: int|
            0 <= s < self.dimensions.len() && 0 <= i < self.dimensions[s].len() implies (
        #[trigger] self.dimensions[s][i])@ == self@.dimensions[s][i] by {
            assert(self@.dimensions[s] == self.dimensions[s].deep_view());
        }
    }
}

impl CloudWatchMetricsLog {
    /// The record holds what `model` says: as a whole, and field by field
    /// for one who reads the fields.
    pub open spec fn holds(&self, model: CloudWatchMetricsLogModel) -> bool {
        &&& self@ == model
        &&& self.aws.timestamp == model.aws.timestamp
        &&& self.aws.cloud_watch_metrics.len() == model.aws.cloud_watch_metrics.len()
        &&& forall|d: int|
            0 <= d < self.aws.cloud_watch_metrics.len() ==> (
            #[trigger] self.aws.cloud_watch_metrics[d]).holds(model.aws.cloud_watch_metrics[d])
        &&& self.dimensions.len() == model.dimensions.len()
        &&& forall|i: int|
            0 <= i < self.dimensions.len() ==> (#[trigger] self.dimensions[i]).deep_view()
                == model.dimensions[i]
        &&& self.metrics_values.len() == model.metrics_values.len()
        &&& forall|i: int|
            0 <= i < self.metrics_values.len() ==> (#[trigger] self.metrics_values[i]).deep_view()
                == model.metrics_values[i]
    }

    /// A record holds what it stands for.
    pub proof fn lemma_holds_view(self)
        ensures
            self.holds(self@),
    {
        assert forall|d: int| 0 <= d < self.aws.cloud_watch_metrics.len() implies (
        #[trigger] self.aws.cloud_watch_metrics[d]).holds(self@.aws.cloud_watch_metrics[d]) by {
            self.aws.cloud_watch_metrics[d].lemma_holds_view();
        }
    }

    /// Looks up the value of a dimension by its key: the value of the first
    /// dimension with this key, if there is one.
    pub fn dimension_value(&self, key: &str) -> (value: Option<&str>)
        ensures
            match value {
                Some(found) => exists|i: int|
                    is_first_under(self@.dimensions, key@, i) && self@.dimensions[i].1 == found@,
                None => forall|i: int|
                    0 <= i < self@.dimensions.len() ==> (#[trigger] self@.dimensions[i]).0 != key@,
            },
    {
        let owned_key = key.to_owned();
        let mut i: usize = 0;
        while i < self.dimensions.len()
            invariant
                i <= self.dimensions.len(),
                owned_key@ == key@,
                forall|j: int| 0 <= j < i ==> (#[trigger] self@.dimensions[j]).0 != key@,
            decreases self.dimensions.len() - i,
        {
            if self.dimensions[i].0 == owned_key {
                assert(is_first_under(self@.dimensions, key@, i as int));
                return Some(self.dimensions[i].1.as_str());
            }
            i += 1;
        }
        None
    }

    /// Looks up the bit pattern of a value by the name of its metric: that
    /// of the first value under this name, if there is one.
    pub fn metric_value(&self, name: &str) -> (value: Option<u64>)
        ensures
            match value {
                Some(bits) => exists|i: int|
                    is_first_under(self@.metrics_values, name@, i) && self@.metrics_values[i].1
                        == bits,
                None => forall|i: int|
                    0 <= i < self@.metrics_values.len() ==> (#[trigger] self@.metrics_values[i]).0
                        != name@,
            },
    {
        let owned_name = name.to_owned();
        let mut i: usize = 0;
        while i < self.metrics_values.len()
            invariant
                i <= self.metrics_values.len(),
                owned_name@ == name@,
                forall|j: int| 0 <= j < i ==> (#[trigger] self@.metrics_values[j]).0 != name@,
            decreases self.metrics_values.len() - i,
        {
            if self.metrics_values[i].0 == owned_name {
                assert(is_first_under(self@.metrics_values, name@, i as int));
                return Some(self.metrics_values[i].1);
            }
            i += 1;
        }
        None
    }
}

} // verus!
