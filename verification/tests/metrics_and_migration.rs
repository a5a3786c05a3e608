use glean_core::{
    encode_metric, initialize, AdditionalMetrics, CommonMetricData, Configuration, CoreMetrics,
    Database, DatabaseMetrics, EventMetric, Glean, Lifetime, Metric, StringMetric, TimeUnit,
    TimespanMetric, UploadMetrics, CounterMetric,
};
use tempfile::tempdir;

fn dir_str(dir: &tempfile::TempDir) -> String {
    dir.path().to_str().unwrap().to_string()
}

fn meta(identifier: &str, storage: &str, lifetime: Lifetime) -> CommonMetricData {
    CommonMetricData {
        identifier: identifier.to_string(),
        send_in_pings: vec![storage.to_string()],
        lifetime,
        disabled: false,
        dynamic_label: None,
    }
}

#[test]
fn string_metric_records_through_store() {
    let dir = tempdir().unwrap();
    let mut db = Database::new(&dir_str(&dir), false).unwrap();
    let glean = Glean::new(true);

    let metric = StringMetric::new(meta("local.string", "store1", Lifetime::Ping));
    metric.set_sync(&glean, &mut db, "luminance".to_string());

    let snapshot = db.iter_store_from(Lifetime::Ping, "store1", None);
    assert_eq!(1, snapshot.len());
    assert_eq!("local.string", snapshot[0].0);
    assert_eq!(Metric::String("luminance".to_string()), snapshot[0].1);

    assert!(metric.test_get_value(None).is_none());
    assert_eq!(0, metric.test_get_num_recorded_errors(None));
}

#[test]
fn counter_metric_accumulates() {
    let dir = tempdir().unwrap();
    let mut db = Database::new(&dir_str(&dir), false).unwrap();
    let glean = Glean::new(true);

    let metric = CounterMetric::new(meta("local.counter", "store1", Lifetime::Application));
    metric.add_sync(&glean, &mut db, 1);
    metric.add_sync(&glean, &mut db, 2);

    let snapshot = db.iter_store_from(Lifetime::Application, "store1", None);
    assert_eq!(1, snapshot.len());
    assert_eq!(Metric::Counter(3), snapshot[0].1);

    // Saturates instead of overflowing.
    metric.add_sync(&glean, &mut db, i32::MAX);
    let snapshot = db.iter_store_from(Lifetime::Application, "store1", None);
    assert_eq!(Metric::Counter(i32::MAX), snapshot[0].1);
}

#[test]
fn timespan_metric_measures_between_start_and_stop() {
    let dir = tempdir().unwrap();
    let mut db = Database::new(&dir_str(&dir), false).unwrap();
    let glean = Glean::new(true);

    let mut metric = TimespanMetric::new(
        meta("local.timespan", "store1", Lifetime::Ping),
        TimeUnit::Nanosecond,
    );
    metric.set_start(100);
    metric.set_stop(&glean, &mut db, 350);

    let snapshot = db.iter_store_from(Lifetime::Ping, "store1", None);
    assert_eq!(1, snapshot.len());
    assert_eq!(Metric::Timespan(250, TimeUnit::Nanosecond), snapshot[0].1);

    // A stop without a start records nothing new.
    metric.set_stop(&glean, &mut db, 999);
    let snapshot = db.iter_store_from(Lifetime::Ping, "store1", None);
    assert_eq!(1, snapshot.len());
    assert_eq!(Metric::Timespan(250, TimeUnit::Nanosecond), snapshot[0].1);

    assert!(metric.test_get_value(None).is_none());
    assert_eq!(0, metric.test_get_num_recorded_errors(None));
}

#[test]
fn timespan_cancel_discards_measurement() {
    let dir = tempdir().unwrap();
    let mut db = Database::new(&dir_str(&dir), false).unwrap();
    let glean = Glean::new(true);

    let mut metric = TimespanMetric::new(
        meta("local.timespan", "store1", Lifetime::Ping),
        TimeUnit::Millisecond,
    );
    metric.set_start(100);
    metric.cancel();
    metric.set_stop(&glean, &mut db, 200);

    assert!(db.iter_store_from(Lifetime::Ping, "store1", None).is_empty());
}

#[test]
fn event_metric_is_a_stub() {
    let metric = EventMetric::new(
        meta("telemetry.test", "events", Lifetime::Ping),
        vec!["extra_key".to_string()],
    );
    assert_eq!("telemetry.test", metric.meta().identifier);
    metric.internal_record(Some("{\"extra_key\":\"v\"}".to_string()));
    assert!(metric.test_get_value(None).is_none());

    let renamed = metric.with_name("other.name".to_string());
    assert_eq!("other.name", renamed.meta().identifier);
    let labeled = metric.with_dynamic_label("label1".to_string());
    assert_eq!(
        Some("label1".to_string()),
        labeled.meta().dynamic_label.clone()
    );
}

#[test]
fn labeled_identifier_carries_the_label() {
    let mut data = meta("category.name", "store1", Lifetime::Ping);
    assert_eq!("category.name", data.identifier());
    data.dynamic_label = Some("label1".to_string());
    assert_eq!("category.name/label1", data.identifier());
    assert_eq!("category.name", data.base_identifier());
}

#[test]
fn internal_metrics_have_registered_identifiers() {
    let core = CoreMetrics::new();
    let additional = AdditionalMetrics::new();
    let upload = UploadMetrics::new();
    let database = DatabaseMetrics::new();
    // These are smoke checks that the builders assemble; the registered
    // names themselves are pinned by the builders' contracts.
    drop(core);
    drop(additional);
    drop(upload);
    drop(database);
}

#[test]
fn initialize_reports_not_started() {
    let cfg = Configuration {
        upload_enabled: true,
        data_dir: "/tmp/ignored".to_string(),
        application_id: "org.mozilla.glean.test.app".to_string(),
        language_binding_name: "Rust".to_string(),
        max_events: None,
        delay_ping_lifetime_io: false,
        app_build: "build-1".to_string(),
        use_core_mps: false,
    };
    assert!(!initialize(cfg));
}

#[test]
fn migration_imports_into_empty_store() {
    let dir = tempdir().unwrap();
    let mut db = Database::new(&dir_str(&dir), false).unwrap();

    let legacy = vec![
        (
            "store1#bool".to_string(),
            encode_metric(&Metric::Boolean(true)),
        ),
        ("broken-key".to_string(), vec![1, 2, 3]),
    ];
    db.migrate_legacy_data(Lifetime::Ping, &legacy).unwrap();

    let snapshot = db.iter_store_from(Lifetime::Ping, "store1", None);
    assert_eq!(1, snapshot.len());
    assert_eq!("bool", snapshot[0].0);
    assert_eq!(Metric::Boolean(true), snapshot[0].1);
}

#[test]
fn migration_doesnt_overwrite() {
    let dir = tempdir().unwrap();
    let mut db = Database::new(&dir_str(&dir), false).unwrap();

    // Ensure some data exists in the new database.
    db.record_per_lifetime(Lifetime::Ping, "store1", "counter", &Metric::Counter(2))
        .unwrap();

    // A legacy value for the same key is ignored, because the destination
    // is not empty.
    let legacy = vec![(
        "store1#counter".to_string(),
        encode_metric(&Metric::Counter(734)),
    )];
    db.migrate_legacy_data(Lifetime::Ping, &legacy).unwrap();

    let snapshot = db.iter_store_from(Lifetime::Ping, "store1", None);
    assert_eq!(1, snapshot.len());
    assert_eq!("counter", snapshot[0].0);
    assert_eq!(Metric::Counter(2), snapshot[0].1);
}

#[test]
fn migration_ignores_empty_legacy_store() {
    let dir = tempdir().unwrap();
    let mut db = Database::new(&dir_str(&dir), false).unwrap();

    let legacy: Vec<(String, Vec<u8>)> = Vec::new();
    db.migrate_legacy_data(Lifetime::Ping, &legacy).unwrap();

    assert!(db.iter_store_from(Lifetime::Ping, "store1", None).is_empty());
}

#[test]
fn glean_upload_flag_round_trips() {
    let mut glean = Glean::new(true);
    assert!(glean.is_upload_enabled());
    glean.set_upload_enabled(false);
    assert!(!glean.is_upload_enabled());
}
