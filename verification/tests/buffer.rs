use lambda_helpers_metrics::{MetricUnit, Metrics};

#[test]
fn should_create_metrics() {
    let mut metrics = Metrics::new("test_namespace", "service", "dummy_service");
    let _ = metrics.add_metric("test_metric_count", MetricUnit::Count, 1.0f64.to_bits());
    let _ = metrics.add_metric("test_metric_seconds", MetricUnit::Seconds, 22.0f64.to_bits());

    let log = metrics.format_metrics();

    assert_eq!(log.aws.cloud_watch_metrics[0].namespace, "test_namespace");
    assert_eq!(
        log.aws.cloud_watch_metrics[0].metrics[0].name,
        "test_metric_count"
    );
    assert_eq!(
        log.aws.cloud_watch_metrics[0].metrics[0].unit,
        MetricUnit::Count
    );
    assert_eq!(
        log.aws.cloud_watch_metrics[0].metrics[0].storage_resolution,
        60
    );
    assert_eq!(
        log.metric_value("test_metric_count").map(f64::from_bits),
        Some(1.0)
    );
    assert_eq!(
        log.aws.cloud_watch_metrics[0].metrics[1].name,
        "test_metric_seconds"
    );
    assert_eq!(
        log.aws.cloud_watch_metrics[0].metrics[1].unit,
        MetricUnit::Seconds
    );
    assert_eq!(
        log.aws.cloud_watch_metrics[0].metrics[1].storage_resolution,
        60
    );
    assert_eq!(log.dimensions.len(), 1);
}

#[test]
fn should_handle_duplicated_metric() {
    let mut metrics = Metrics::new("test", "service", "dummy_service");
    let _ = metrics.add_metric("test", MetricUnit::Count, 2.0f64.to_bits());
    let _ = metrics.add_metric("test", MetricUnit::Count, 1.0f64.to_bits());

    assert_eq!(metrics.entries().len(), 1);
}

#[test]
fn should_not_fail_over_100_metrics() {
    let mut metrics = Metrics::new("test", "service", "dummy_service");
    for i in 0..100 {
        let _ = metrics.add_metric(&format!("metric{i}"), MetricUnit::Count, (i as f64).to_bits());
    }

    assert_eq!(metrics.entries().len(), 100);
    let _ = metrics.add_metric("over_100", MetricUnit::Count, 11.0f64.to_bits());
    assert_eq!(metrics.entries().len(), 1);
}

#[test]
fn should_fail_if_over_30_dimensions() {
    let mut metrics = Metrics::new("test", "service", "dummy_service");
    for i in 0..29 {
        metrics
            .try_add_dimension(&format!("key{i}"), &format!("value{i}"))
            .unwrap();
    }

    match metrics.try_add_dimension("key31", "value31") {
        Ok(_) => assert!(false, "expected error"),
        Err(_) => assert!(true),
    }
}

#[test]
fn new_buffer_holds_one_dimension_and_no_metric() {
    let metrics = Metrics::new("svc", "service", "dummy");
    assert_eq!(metrics.namespace(), "svc");
    assert_eq!(
        metrics.dimensions(),
        &vec![("service".to_string(), "dummy".to_string())]
    );
    assert!(metrics.entries().is_empty());
}

#[test]
fn distinct_names_are_counted_one_by_one() {
    let mut metrics = Metrics::new("svc", "service", "dummy");
    for i in 0..100u32 {
        let emitted =
            metrics.add_metric(&format!("m{i}"), MetricUnit::Bytes, f64::from(i).to_bits());
        assert!(emitted.is_none());
        assert_eq!(metrics.entries().len(), (i + 1) as usize);
    }
    for (i, entry) in metrics.entries().iter().enumerate() {
        assert_eq!(entry.name, format!("m{i}"));
        assert_eq!(entry.unit, MetricUnit::Bytes);
        assert_eq!(f64::from_bits(entry.value_bits), i as f64);
    }
}

#[test]
fn full_buffer_hands_out_all_before_the_next() {
    let mut metrics = Metrics::new("svc", "service", "dummy");
    for i in 0..100 {
        let emitted =
            metrics.add_metric(&format!("metric{i}"), MetricUnit::Count, (i as f64).to_bits());
        assert!(emitted.is_none());
    }
    let emitted = metrics.add_metric("over_100", MetricUnit::Count, 11.0f64.to_bits());
    let log = emitted.expect("the full buffer hands its metrics out");
    assert_eq!(log.aws.cloud_watch_metrics.len(), 1);
    assert_eq!(log.aws.cloud_watch_metrics[0].metrics.len(), 100);
    assert_eq!(log.metrics_values.len(), 100);
    for i in 0..100 {
        assert_eq!(log.aws.cloud_watch_metrics[0].metrics[i].name, format!("metric{i}"));
        assert_eq!(log.metrics_values[i], (format!("metric{i}"), (i as f64).to_bits()));
    }
    assert_eq!(log.metric_value("over_100"), None);
    assert_eq!(metrics.entries().len(), 1);
    assert_eq!(metrics.entries()[0].name, "over_100");
    assert_eq!(metrics.entries()[0].unit, MetricUnit::Count);
    assert_eq!(f64::from_bits(metrics.entries()[0].value_bits), 11.0);
}

#[test]
fn repeated_name_hands_out_the_earlier_value() {
    let mut metrics = Metrics::new("svc", "service", "dummy");
    assert!(metrics.add_metric("latency", MetricUnit::Milliseconds, 2.0f64.to_bits()).is_none());
    assert!(metrics.add_metric("size", MetricUnit::Kilobytes, 3.5f64.to_bits()).is_none());
    let log = metrics
        .add_metric("latency", MetricUnit::Seconds, 1.0f64.to_bits())
        .expect("the repeated name hands the metrics out");
    assert_eq!(log.aws.cloud_watch_metrics[0].metrics.len(), 2);
    assert_eq!(log.aws.cloud_watch_metrics[0].metrics[0].name, "latency");
    assert_eq!(log.aws.cloud_watch_metrics[0].metrics[0].unit, MetricUnit::Milliseconds);
    assert_eq!(log.metric_value("latency").map(f64::from_bits), Some(2.0));
    assert_eq!(log.metric_value("size").map(f64::from_bits), Some(3.5));
    assert_eq!(metrics.entries().len(), 1);
    assert_eq!(metrics.entries()[0].name, "latency");
    assert_eq!(metrics.entries()[0].unit, MetricUnit::Seconds);
    assert_eq!(f64::from_bits(metrics.entries()[0].value_bits), 1.0);
}

#[test]
fn thirty_dimensions_and_no_more() {
    let mut metrics = Metrics::new("svc", "service", "dummy");
    for i in 0..29 {
        assert_eq!(metrics.try_add_dimension(&format!("key{i}"), &format!("value{i}")), Ok(()));
        assert_eq!(metrics.dimensions().len(), i + 2);
    }
    assert_eq!(metrics.dimensions().len(), 30);
    assert_eq!(
        metrics.try_add_dimension("key31", "value31"),
        Err("Too many dimensions".to_string())
    );
    assert_eq!(metrics.dimensions().len(), 30);
    assert!(metrics.dimensions().iter().all(|(key, _)| key != "key31"));
    assert_eq!(metrics.dimensions()[0], ("service".to_string(), "dummy".to_string()));
    assert_eq!(metrics.dimensions()[29], ("key28".to_string(), "value28".to_string()));
}

#[test]
fn full_set_of_dimensions_refuses_a_known_key_too() {
    let mut metrics = Metrics::new("svc", "service", "dummy");
    for i in 0..29 {
        metrics.try_add_dimension(&format!("key{i}"), "v").unwrap();
    }
    assert_eq!(
        metrics.try_add_dimension("service", "other"),
        Err("Too many dimensions".to_string())
    );
    assert_eq!(metrics.dimensions()[0], ("service".to_string(), "dummy".to_string()));
}

#[test]
fn known_key_gets_the_new_value_in_its_place() {
    let mut metrics = Metrics::new("svc", "service", "dummy");
    metrics.try_add_dimension("stage", "dev").unwrap();
    metrics.try_add_dimension("service", "real").unwrap();
    metrics.try_add_dimension("stage", "prod").unwrap();
    assert_eq!(
        metrics.dimensions(),
        &vec![
            ("service".to_string(), "real".to_string()),
            ("stage".to_string(), "prod".to_string()),
        ]
    );
}

#[test]
fn flush_empties_the_metrics_and_keeps_the_rest() {
    let mut metrics = Metrics::new("svc", "service", "dummy");
    metrics.try_add_dimension("stage", "prod").unwrap();
    let _ = metrics.add_metric("count", MetricUnit::Count, 1.0f64.to_bits());
    let log = metrics.flush_metrics();
    assert_eq!(log.aws.cloud_watch_metrics[0].metrics.len(), 1);
    assert!(metrics.entries().is_empty());
    assert_eq!(metrics.namespace(), "svc");
    assert_eq!(
        metrics.dimensions(),
        &vec![
            ("service".to_string(), "dummy".to_string()),
            ("stage".to_string(), "prod".to_string()),
        ]
    );
    assert!(metrics.add_metric("count", MetricUnit::Count, 2.0f64.to_bits()).is_none());
    assert_eq!(metrics.entries().len(), 1);
}

#[test]
fn flushed_record_has_the_shape_of_the_format() {
    let mut metrics = Metrics::new("svc", "service", "dummy");
    let _ = metrics.add_metric("count", MetricUnit::Count, 1.0f64.to_bits());
    let _ = metrics.add_metric("seconds", MetricUnit::Seconds, 22.0f64.to_bits());
    let log = metrics.flush_metrics_at(1_700_000_000_123);

    assert_eq!(log.aws.timestamp, 1_700_000_000_123);
    assert_eq!(log.aws.cloud_watch_metrics.len(), 1);
    let directive = &log.aws.cloud_watch_metrics[0];
    assert_eq!(directive.namespace, "svc");
    assert_eq!(directive.dimensions, vec![vec!["service".to_string()]]);
    assert_eq!(directive.metrics.len(), 2);
    assert_eq!(directive.metrics[0].name, "count");
    assert_eq!(directive.metrics[0].unit, MetricUnit::Count);
    assert_eq!(directive.metrics[0].storage_resolution, 60);
    assert_eq!(directive.metrics[1].name, "seconds");
    assert_eq!(directive.metrics[1].unit, MetricUnit::Seconds);
    assert_eq!(directive.metrics[1].storage_resolution, 60);
    assert_eq!(log.metric_value("count").map(f64::from_bits), Some(1.0));
    assert_eq!(log.metric_value("seconds").map(f64::from_bits), Some(22.0));
    assert_eq!(log.dimension_value("service"), Some("dummy"));
    assert_eq!(
        log.metrics_values,
        vec![
            ("count".to_string(), 1.0f64.to_bits()),
            ("seconds".to_string(), 22.0f64.to_bits()),
        ]
    );
    assert_eq!(log.dimensions, vec![("service".to_string(), "dummy".to_string())]);
    assert!(metrics.entries().is_empty());
}

#[test]
fn empty_flush_gives_a_record_without_metrics() {
    let mut metrics = Metrics::new("svc", "service", "dummy");
    for _ in 0..2 {
        let log = metrics.flush_metrics_at(7);
        assert_eq!(log.aws.timestamp, 7);
        assert_eq!(log.aws.cloud_watch_metrics.len(), 1);
        assert_eq!(log.aws.cloud_watch_metrics[0].namespace, "svc");
        assert_eq!(log.aws.cloud_watch_metrics[0].dimensions, vec![vec!["service".to_string()]]);
        assert!(log.aws.cloud_watch_metrics[0].metrics.is_empty());
        assert!(log.metrics_values.is_empty());
        assert_eq!(log.dimensions, vec![("service".to_string(), "dummy".to_string())]);
        assert!(metrics.entries().is_empty());
        assert_eq!(metrics.dimensions().len(), 1);
    }
}

#[test]
fn format_leaves_the_buffer_as_it_is() {
    let mut metrics = Metrics::new("svc", "service", "dummy");
    let _ = metrics.add_metric("count", MetricUnit::Count, 4.0f64.to_bits());
    let first = metrics.format_metrics_at(-5);
    let second = metrics.format_metrics_at(9);
    assert_eq!(first.aws.timestamp, -5);
    assert_eq!(second.aws.timestamp, 9);
    assert_eq!(first.metrics_values, second.metrics_values);
    assert_eq!(metrics.entries().len(), 1);
}

#[test]
fn finish_hands_out_what_is_left() {
    let mut metrics = Metrics::new("svc", "service", "dummy");
    let _ = metrics.add_metric("rate", MetricUnit::CountPerSecond, 0.25f64.to_bits());
    let log = metrics.finish();
    assert_eq!(log.aws.cloud_watch_metrics[0].metrics.len(), 1);
    assert_eq!(log.aws.cloud_watch_metrics[0].metrics[0].name, "rate");
    assert_eq!(log.aws.cloud_watch_metrics[0].metrics[0].unit, MetricUnit::CountPerSecond);
    assert_eq!(log.metric_value("rate").map(f64::from_bits), Some(0.25));
}

#[test]
fn record_is_stamped_with_the_time_of_the_flush() {
    let millis_now = || {
        std::time::SystemTime::now()
            .duration_since(std::time::UNIX_EPOCH)
            .unwrap()
            .as_millis() as i64
    };
    let mut metrics = Metrics::new("svc", "service", "dummy");
    let before = millis_now();
    let formatted = metrics.format_metrics();
    let flushed = metrics.flush_metrics();
    let finished = metrics.finish();
    let after = millis_now();
    for timestamp in [formatted.aws.timestamp, flushed.aws.timestamp, finished.aws.timestamp] {
        assert!(before <= timestamp && timestamp <= after);
    }
}

#[test]
fn values_keep_their_bit_patterns() {
    let mut metrics = Metrics::new("svc", "service", "dummy");
    let values = [0.0f64, -0.0, 10.4, f64::MAX, f64::MIN_POSITIVE, f64::INFINITY];
    for (i, value) in values.iter().enumerate() {
        let _ = metrics.add_metric(&format!("v{i}"), MetricUnit::Count, value.to_bits());
    }
    let _ = metrics.add_metric("nan", MetricUnit::Count, f64::NAN.to_bits());
    let log = metrics.flush_metrics_at(0);
    for (i, value) in values.iter().enumerate() {
        assert_eq!(log.metric_value(&format!("v{i}")), Some(value.to_bits()));
    }
    assert!(log.metric_value("nan").map(f64::from_bits).unwrap().is_nan());
}

#[test]
fn lookups_miss_what_is_not_there() {
    let mut metrics = Metrics::new("svc", "service", "dummy");
    let _ = metrics.add_metric("count", MetricUnit::Count, 1.0f64.to_bits());
    let log = metrics.flush_metrics_at(0);
    assert_eq!(log.metric_value("service"), None);
    assert_eq!(log.metric_value(""), None);
    assert_eq!(log.dimension_value("count"), None);
    assert_eq!(log.dimension_value("Service"), None);
}

#[test]
fn lookups_take_the_first_of_equal_keys() {
    let mut metrics = Metrics::new("svc", "service", "dummy");
    let _ = metrics.add_metric("count", MetricUnit::Count, 1.0f64.to_bits());
    let mut log = metrics.flush_metrics_at(0);
    log.metrics_values.push(("count".to_string(), 2.0f64.to_bits()));
    log.dimensions.push(("service".to_string(), "other".to_string()));
    assert_eq!(log.metric_value("count").map(f64::from_bits), Some(1.0));
    assert_eq!(log.dimension_value("service"), Some("dummy"));
}

#[test]
fn definition_of_an_entry_carries_name_unit_and_resolution() {
    let mut metrics = Metrics::new("svc", "service", "dummy");
    let _ = metrics.add_metric("size", MetricUnit::Megabytes, 3.0f64.to_bits());
    let definition = metrics.entries()[0].to_metric_definition();
    assert_eq!(definition.name, "size");
    assert_eq!(definition.unit, MetricUnit::Megabytes);
    assert_eq!(definition.storage_resolution, 60);
    assert_eq!(lambda_helpers_metrics::STORAGE_RESOLUTION, 60);
    assert_eq!(lambda_helpers_metrics::MAX_METRICS, 100);
    assert_eq!(lambda_helpers_metrics::MAX_DIMENSIONS, 30);
}
