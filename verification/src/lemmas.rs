//! What holds of a buffer over any run of operations.
use vstd::prelude::*;

use crate::model::{names_of, BufferModel, MetricModel};
use crate::payload::{keys_of, MAX_DIMENSIONS, MAX_METRICS};

verus! {

/// Taking in a measurement keeps the bounds, and keeps keys and names
/// apart.
pub proof fn lemma_add_metric_well_formed(buffer: BufferModel, metric: MetricModel)
    requires
        buffer.well_formed(),
    ensures
        buffer.add_metric(metric).well_formed(),
{
    let after = buffer.add_metric(metric);
    if buffer.needs_flush(metric.name) {
        assert(after.metric_names() =~= seq![metric.name]);
    } else {
        assert(after.metric_names() =~= buffer.metric_names().push(metric.name));
    }
    assert(after.dimension_keys() =~= buffer.dimension_keys());
}

/// After a measurement was taken in, the buffer holds its name, and
/// beside it the names that it held before, unless those left.
pub proof fn lemma_add_metric_names(buffer: BufferModel, metric: MetricModel)
    ensures
        buffer.add_metric(metric).entries.last() == metric,
        forall|name: Seq<char>| #[trigger]
            buffer.add_metric(metric).has_metric(name) <==> name == metric.name || (
            !buffer.needs_flush(metric.name) && buffer.has_metric(name)),
{
    let after = buffer.add_metric(metric);
    let names = buffer.metric_names();
    let after_names = after.metric_names();
    assert(after_names[after_names.len() - 1] == metric.name);
    assert forall|name: Seq<char>| #[trigger]
        after.has_metric(name) <==> name == metric.name || (!buffer.needs_flush(metric.name)
            && buffer.has_metric(name)) by {
        if after.has_metric(name) && name != metric.name {
            let i = after_names.index_of(name);
            assert(after_names[i] == name);
            assert(names[i] == name);
        }
        if !buffer.needs_flush(metric.name) && buffer.has_metric(name) {
            let i = names.index_of(name);
            assert(after_names[i] == name);
        }
    }
}

/// Handing the measurements out keeps the bounds, and keeps keys and
/// names apart.
pub proof fn lemma_flushed_well_formed(buffer: BufferModel)
    requires
        buffer.well_formed(),
    ensures
        buffer.flushed().well_formed(),
{
    assert(buffer.flushed().metric_names() =~= Seq::<Seq<char>>::empty());
    assert(buffer.flushed().dimension_keys() =~= buffer.dimension_keys());
}

/// An attempt to set a dimension keeps the bounds, and keeps keys and
/// names apart.
pub proof fn lemma_try_add_dimension_well_formed(
    buffer: BufferModel,
    key: Seq<char>,
    value: Seq<char>,
)
    requires
        buffer.well_formed(),
    ensures
        buffer.try_add_dimension(key, value).well_formed(),
{
    let after = buffer.try_add_dimension(key, value);
    if buffer.dimension_limit_reached() {
    } else if buffer.has_dimension(key) {
        assert(after.dimension_keys() =~= buffer.dimension_keys());
    } else {
        assert(after.dimension_keys() =~= buffer.dimension_keys().push(key));
    }
    assert(after.metric_names() =~= buffer.metric_names());
}

/// After a dimension was set, the buffer has its key, and beside it the
/// keys that it had before.
pub proof fn lemma_with_dimension_keys(buffer: BufferModel, key: Seq<char>, value: Seq<char>)
    ensures
        forall|k: Seq<char>| #[trigger]
            buffer.with_dimension(key, value).has_dimension(k) <==> k == key
                || buffer.has_dimension(k),
{
    let after = buffer.with_dimension(key, value);
    let keys = buffer.dimension_keys();
    let after_keys = after.dimension_keys();
    assert forall|k: Seq<char>| #[trigger]
        after.has_dimension(k) <==> k == key || buffer.has_dimension(k) by {
        if after.has_dimension(k) {
            let i = after_keys.index_of(k);
            assert(after_keys[i] == k);
            if i < keys.len() {
                assert(keys[i] == k);
            }
        }
        if buffer.has_dimension(k) {
            let i = keys.index_of(k);
            assert(after_keys[i] == k);
        }
        if k == key {
            if buffer.has_dimension(key) {
                assert(after_keys[keys.index_of(key)] == key);
            } else {
                assert(after_keys[keys.len() as int] == key);
            }
        }
    }
}

/// Setting a dimension is an insertion into the mapping from key to value.
pub proof fn lemma_with_dimension_is_insert(buffer: BufferModel, key: Seq<char>, value: Seq<char>)
    requires
        buffer.dimension_keys().no_duplicates(),
    ensures
        buffer.with_dimension(key, value).dimension_map() == buffer.dimension_map().insert(
            key,
            value,
        ),
        buffer.with_dimension(key, value).dimension_keys().no_duplicates(),
{
    let after = buffer.with_dimension(key, value);
    let keys = buffer.dimension_keys();
    let after_keys = after.dimension_keys();
    if buffer.has_dimension(key) {
        assert(after_keys =~= keys);
    } else {
        assert(after_keys =~= keys.push(key));
    }
    lemma_with_dimension_keys(buffer, key, value);
    assert forall|k: Seq<char>| after.has_dimension(k) implies #[trigger] after.dimension_map()[k]
        == buffer.dimension_map().insert(key, value)[k] by {
        let i = after_keys.index_of(k);
        assert(after_keys[i] == k);
        if k != key {
            let j = keys.index_of(k);
            assert(keys[j] == k);
            assert(after_keys[j] == k);
        }
    }
    assert(after.dimension_map() =~= buffer.dimension_map().insert(key, value));
}

/// Whatever is taken in, the bounds hold afterwards, and no key and no name
/// occurs twice.
pub proof fn lemma_add_metrics_well_formed(buffer: BufferModel, batch: Seq<MetricModel>)
    requires
        buffer.well_formed(),
    ensures
        buffer.add_metrics(batch).well_formed(),
    decreases batch.len(),
{
    if batch.len() > 0 {
        lemma_add_metrics_well_formed(buffer, batch.drop_last());
        lemma_add_metric_well_formed(buffer.add_metrics(batch.drop_last()), batch.last());
    }
}

/// Measurements that fit and whose names differ, from each other and from
/// those that the buffer holds, are all kept, in the order in which they
/// came; nothing is handed out on their account. So the buffer then holds
/// as many measurements more as there were calls.
pub proof fn lemma_distinct_names_are_kept(buffer: BufferModel, batch: Seq<MetricModel>)
    requires
        buffer.entries.len() + batch.len() <= MAX_METRICS,
        names_of(buffer.entries + batch).no_duplicates(),
    ensures
        buffer.add_metrics(batch).entries == buffer.entries + batch,
        buffer.add_metrics(batch).entries.len() == buffer.entries.len() + batch.len(),
        buffer.emitted_during(batch).len() == 0,
    decreases batch.len(),
{
    if batch.len() == 0 {
        assert(buffer.entries + batch =~= buffer.entries);
    } else {
        let all = buffer.entries + batch;
        let names = names_of(all);
        let rest = batch.drop_last();
        let last = batch.last();
        assert forall|i: int, j: int|
            0 <= i < (buffer.entries + rest).len() && 0 <= j < (buffer.entries + rest).len() && i
                != j implies names_of(buffer.entries + rest)[i] != names_of(
            buffer.entries + rest,
        )[j] by {
            assert(names[i] != names[j]);
        }
        lemma_distinct_names_are_kept(buffer, rest);
        let before = buffer.add_metrics(rest);
        assert(!before.has_metric(last.name)) by {
            if before.has_metric(last.name) {
                let i = before.metric_names().index_of(last.name);
                assert(names[i] == last.name);
                assert(names[all.len() - 1] == last.name);
            }
        }
        assert(before.entries.push(last) =~= buffer.entries + batch);
    }
}

/// A fresh buffer that takes in no more measurements than it can hold, all
/// under different names, holds just these afterwards: as many as there were
/// calls.
pub proof fn lemma_fresh_buffer_counts_calls(
    namespace: Seq<char>,
    key: Seq<char>,
    value: Seq<char>,
    batch: Seq<MetricModel>,
)
    requires
        batch.len() <= MAX_METRICS,
        names_of(batch).no_duplicates(),
    ensures
        BufferModel::fresh(namespace, key, value).add_metrics(batch).entries == batch,
        BufferModel::fresh(namespace, key, value).add_metrics(batch).entries.len() == batch.len(),
        BufferModel::fresh(namespace, key, value).emitted_during(batch).len() == 0,
{
    let buffer = BufferModel::fresh(namespace, key, value);
    assert(buffer.entries + batch =~= batch);
    lemma_distinct_names_are_kept(buffer, batch);
}

/// A full buffer that takes in one measurement more hands out, once, all
/// that it held, and holds the new measurement alone.
pub proof fn lemma_full_buffer_starts_over(buffer: BufferModel, metric: MetricModel)
    requires
        buffer.entries.len() >= MAX_METRICS,
    ensures
        buffer.needs_flush(metric.name),
        buffer.add_metric(metric).entries == seq![metric],
        buffer.add_metric(metric).entries.len() == 1,
        buffer.emitted_during(seq![metric]) == seq![buffer.entries],
{
    lemma_single_step(buffer, metric);
}

/// A buffer without measurements that takes in one more than it can hold,
/// all under different names, hands out once: all but the last, which it
/// then holds alone.
pub proof fn lemma_one_more_than_fits(buffer: BufferModel, batch: Seq<MetricModel>)
    requires
        buffer.entries.len() == 0,
        batch.len() == MAX_METRICS + 1,
        names_of(batch).no_duplicates(),
    ensures
        buffer.emitted_during(batch) == seq![batch.drop_last()],
        buffer.add_metrics(batch).entries == seq![batch.last()],
        buffer.add_metrics(batch).entries.len() == 1,
{
    let rest = batch.drop_last();
    assert(buffer.entries + rest =~= rest);
    assert forall|i: int, j: int|
        0 <= i < rest.len() && 0 <= j < rest.len() && i != j implies names_of(rest)[i]
        != names_of(rest)[j] by {
        assert(names_of(batch)[i] != names_of(batch)[j]);
    }
    lemma_distinct_names_are_kept(buffer, rest);
    assert(buffer.emitted_during(rest) =~= Seq::<Seq<MetricModel>>::empty());
    assert(buffer.emitted_during(batch) =~= seq![rest]);
}

/// A buffer that takes in a measurement under a name that it holds already
/// hands out, once, all that it held, and holds the new measurement alone.
pub proof fn lemma_repeated_name_starts_over(buffer: BufferModel, metric: MetricModel)
    requires
        buffer.has_metric(metric.name),
    ensures
        buffer.needs_flush(metric.name),
        buffer.add_metric(metric).entries == seq![metric],
        buffer.add_metric(metric).entries.len() == 1,
        buffer.emitted_during(seq![metric]) == seq![buffer.entries],
{
    lemma_single_step(buffer, metric);
}

/// A run of one measurement is one step.
proof fn lemma_single_step(buffer: BufferModel, metric: MetricModel)
    ensures
        buffer.add_metrics(seq![metric]) == buffer.add_metric(metric),
        buffer.emitted_during(seq![metric]) == if buffer.needs_flush(metric.name) {
            seq![buffer.entries]
        } else {
            Seq::empty()
        },
{
    let batch = seq![metric];
    assert(batch.drop_last() =~= Seq::<MetricModel>::empty());
    assert(batch.last() == metric);
    reveal_with_fuel(BufferModel::add_metrics, 2);
    reveal_with_fuel(BufferModel::emitted_during, 2);
    assert(buffer.add_metrics(batch.drop_last()) == buffer);
    if buffer.needs_flush(metric.name) {
        assert(buffer.emitted_during(batch) =~= seq![buffer.entries]);
    } else {
        assert(buffer.emitted_during(batch) =~= Seq::<Seq<MetricModel>>::empty());
    }
}

/// No measurement is lost: what was handed out while a batch was taken in,
/// followed by what the buffer holds afterwards, is what the buffer held
/// before, followed by the batch.
pub proof fn lemma_no_measurement_is_lost(buffer: BufferModel, batch: Seq<MetricModel>)
    ensures
        buffer.emitted_during(batch).flatten() + buffer.add_metrics(batch).entries
            == buffer.entries + batch,
    decreases batch.len(),
{
    if batch.len() == 0 {
        assert(buffer.emitted_during(batch).flatten() =~= Seq::<MetricModel>::empty());
        assert(buffer.emitted_during(batch).flatten() + buffer.entries =~= buffer.entries + batch);
    } else {
        let rest = batch.drop_last();
        let last = batch.last();
        lemma_no_measurement_is_lost(buffer, rest);
        let before = buffer.add_metrics(rest);
        let emitted = buffer.emitted_during(rest);
        assert(buffer.entries + batch =~= (buffer.entries + rest).push(last));
        if before.needs_flush(last.name) {
            emitted.lemma_flatten_push(before.entries);
            assert(emitted.push(before.entries).flatten() + seq![last] =~= (emitted.flatten()
                + before.entries).push(last));
        } else {
            assert(emitted.flatten() + before.entries.push(last) =~= (emitted.flatten()
                + before.entries).push(last));
        }
    }
}

/// Handing the measurements out leaves none behind, and leaves the namespace
/// and the dimensions as they were.
pub proof fn lemma_flush_keeps_dimensions(buffer: BufferModel)
    ensures
        buffer.flushed().entries.len() == 0,
        buffer.flushed().namespace == buffer.namespace,
        buffer.flushed().dimensions == buffer.dimensions,
        buffer.flushed().dimension_map() == buffer.dimension_map(),
{
}

/// Handing out twice is handing out once.
pub proof fn lemma_flush_is_idempotent(buffer: BufferModel)
    ensures
        buffer.flushed().flushed() == buffer.flushed(),
{
}

/// A buffer without measurements hands out a record that declares no metric
/// and carries no value, and is as it was afterwards.
pub proof fn lemma_empty_flush(buffer: BufferModel, timestamp: i64)
    requires
        buffer.well_formed(),
        buffer.entries.len() == 0,
    ensures
        buffer.payload(timestamp).well_formed(),
        buffer.payload(timestamp).aws.cloud_watch_metrics[0].metrics.len() == 0,
        buffer.payload(timestamp).metrics_values.len() == 0,
        buffer.flushed() == buffer,
{
    lemma_payload_well_formed(buffer, timestamp);
    assert(buffer.flushed().entries =~= buffer.entries);
}

/// The record of a buffer is one that the backend reads as it is meant.
pub proof fn lemma_payload_well_formed(buffer: BufferModel, timestamp: i64)
    requires
        buffer.well_formed(),
    ensures
        buffer.payload(timestamp).well_formed(),
        buffer.payload(timestamp).aws.timestamp == timestamp,
        buffer.payload(timestamp).aws.cloud_watch_metrics[0].namespace == buffer.namespace,
        buffer.payload(timestamp).aws.cloud_watch_metrics[0].metrics.len() == buffer.entries.len(),
{
    let log = buffer.payload(timestamp);
    assert(log.metric_names() =~= buffer.metric_names());
}

/// Whatever dimensions are tried, the bounds hold afterwards, and no key and
/// no name occurs twice.
pub proof fn lemma_try_add_dimensions_well_formed(
    buffer: BufferModel,
    batch: Seq<(Seq<char>, Seq<char>)>,
)
    requires
        buffer.well_formed(),
    ensures
        buffer.try_add_dimensions(batch).well_formed(),
    decreases batch.len(),
{
    if batch.len() > 0 {
        lemma_try_add_dimensions_well_formed(buffer, batch.drop_last());
        lemma_try_add_dimension_well_formed(
            buffer.try_add_dimensions(batch.drop_last()),
            batch.last().0,
            batch.last().1,
        );
    }
}

/// Dimensions that fit and whose keys differ, from each other and from
/// those that the buffer holds, are all taken, in the order in which they
/// came: no attempt fails.
pub proof fn lemma_distinct_keys_are_kept(buffer: BufferModel, batch: Seq<(Seq<char>, Seq<char>)>)
    requires
        buffer.dimensions.len() + batch.len() <= MAX_DIMENSIONS,
        keys_of(buffer.dimensions + batch).no_duplicates(),
    ensures
        buffer.try_add_dimensions(batch).dimensions == buffer.dimensions + batch,
        buffer.try_add_dimensions(batch).dimensions.len() == buffer.dimensions.len() + batch.len(),
        buffer.rejected_during(batch) == 0,
    decreases batch.len(),
{
    if batch.len() == 0 {
        assert(buffer.dimensions + batch =~= buffer.dimensions);
    } else {
        let all = buffer.dimensions + batch;
        let keys = keys_of(all);
        let rest = batch.drop_last();
        let last = batch.last();
        assert forall|i: int, j: int|
            0 <= i < (buffer.dimensions + rest).len() && 0 <= j < (buffer.dimensions + rest).len()
                && i != j implies keys_of(buffer.dimensions + rest)[i] != keys_of(
            buffer.dimensions + rest,
        )[j] by {
            assert(keys[i] != keys[j]);
        }
        lemma_distinct_keys_are_kept(buffer, rest);
        let before = buffer.try_add_dimensions(rest);
        assert(!before.has_dimension(last.0)) by {
            if before.has_dimension(last.0) {
                let i = before.dimension_keys().index_of(last.0);
                assert(keys[i] == last.0);
                assert(keys[all.len() - 1] == last.0);
            }
        }
        assert(before.dimensions.push(last) =~= buffer.dimensions + batch);
    }
}

/// A buffer that holds as many dimensions as it may refuses every further
/// one, be its key new or not, and stays as it was.
pub proof fn lemma_dimension_limit(buffer: BufferModel, key: Seq<char>, value: Seq<char>)
    requires
        buffer.dimensions.len() >= MAX_DIMENSIONS,
    ensures
        buffer.dimension_limit_reached(),
        buffer.try_add_dimension(key, value) == buffer,
        buffer.rejected_during(seq![(key, value)]) == 1,
{
    let batch = seq![(key, value)];
    assert(batch.drop_last() =~= Seq::<(Seq<char>, Seq<char>)>::empty());
    reveal_with_fuel(BufferModel::try_add_dimensions, 2);
    reveal_with_fuel(BufferModel::rejected_during, 2);
    assert(buffer.try_add_dimensions(batch.drop_last()) == buffer);
}

/// A fresh buffer takes dimensions under different keys until it holds
/// [`MAX_DIMENSIONS`], the one that it was made with among them; the next
/// one it refuses, and still holds as many.
pub proof fn lemma_fresh_buffer_takes_dimensions_to_the_limit(
    namespace: Seq<char>,
    key: Seq<char>,
    value: Seq<char>,
    more: Seq<(Seq<char>, Seq<char>)>,
    next_key: Seq<char>,
    next_value: Seq<char>,
)
    requires
        more.len() == MAX_DIMENSIONS - 1,
        keys_of(seq![(key, value)] + more).no_duplicates(),
    ensures
        BufferModel::fresh(namespace, key, value).rejected_during(more) == 0,
        ({
            let full = BufferModel::fresh(namespace, key, value).try_add_dimensions(more);
            &&& full.dimensions == seq![(key, value)] + more
            &&& full.dimensions.len() == MAX_DIMENSIONS
            &&& full.dimension_limit_reached()
            &&& full.try_add_dimension(next_key, next_value) == full
            &&& full.try_add_dimension(next_key, next_value).dimensions.len() == MAX_DIMENSIONS
        }),
{
    let buffer = BufferModel::fresh(namespace, key, value);
    lemma_distinct_keys_are_kept(buffer, more);
    lemma_dimension_limit(buffer.try_add_dimensions(more), next_key, next_value);
}

/// The mapping from key to value has as many keys as the buffer has
/// dimensions.
pub proof fn lemma_dimension_count(buffer: BufferModel)
    requires
        buffer.dimension_keys().no_duplicates(),
    ensures
        buffer.dimension_map().dom().finite(),
        buffer.dimension_map().dom().len() == buffer.dimensions.len(),
{
    let keys = buffer.dimension_keys();
    keys.unique_seq_to_set();
    vstd::seq_lib::seq_to_set_is_finite(keys);
    assert(buffer.dimension_map().dom() =~= keys.to_set());
}

} // verus!
