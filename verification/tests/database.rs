use std::collections::HashMap;

use glean_core::{CommonMetricData, Database, DatabaseError, Glean, Lifetime, Metric};
use tempfile::tempdir;

fn dir_str(dir: &tempfile::TempDir) -> String {
    dir.path().to_str().unwrap().to_string()
}

#[test]
fn test_panicks_if_fails_dir_creation() {
    // A path under a plain file can never become the store directory.
    let file = tempfile::NamedTempFile::new().unwrap();
    let path = format!("{}/more", file.path().to_str().unwrap());
    match Database::new(&path, false) {
        Err(DatabaseError::IoFailure) => {}
        _ => panic!("opening under a file must fail with an I/O failure"),
    }
}

#[test]
fn test_data_dir_rkv_inits() {
    let dir = tempdir().unwrap();
    Database::new(&dir_str(&dir), false).unwrap();

    assert!(dir.path().exists());
}

#[test]
fn test_ping_lifetime_metric_recorded() {
    // Init the database in a temporary directory.
    let dir = tempdir().unwrap();
    let mut db = Database::new(&dir_str(&dir), false).unwrap();

    // Attempt to record a known value.
    let test_value = "test-value";
    let test_storage = "test-storage";
    let test_metric_id = "telemetry_test.test_name";
    db.record_per_lifetime(
        Lifetime::Ping,
        test_storage,
        test_metric_id,
        &Metric::String(test_value.to_string()),
    )
    .unwrap();

    // Verify that the data is correctly recorded.
    let mut found_metrics = 0;
    for (metric_id, metric) in db.iter_store_from(Lifetime::Ping, test_storage, None) {
        found_metrics += 1;
        assert_eq!(test_metric_id, metric_id);
        match metric {
            Metric::String(s) => assert_eq!(test_value, s),
            _ => panic!("Unexpected data found"),
        }
    }
    assert_eq!(1, found_metrics, "We only expect 1 Lifetime.Ping metric.");
}

#[test]
fn test_application_lifetime_metric_recorded() {
    // Init the database in a temporary directory.
    let dir = tempdir().unwrap();
    let mut db = Database::new(&dir_str(&dir), false).unwrap();

    // Attempt to record a known value.
    let test_value = "test-value";
    let test_storage = "test-storage1";
    let test_metric_id = "telemetry_test.test_name";
    db.record_per_lifetime(
        Lifetime::Application,
        test_storage,
        test_metric_id,
        &Metric::String(test_value.to_string()),
    )
    .unwrap();

    // Verify that the data is correctly recorded.
    let mut found_metrics = 0;
    for (metric_id, metric) in db.iter_store_from(Lifetime::Application, test_storage, None) {
        found_metrics += 1;
        assert_eq!(test_metric_id, metric_id);
        match metric {
            Metric::String(s) => assert_eq!(test_value, s),
            _ => panic!("Unexpected data found"),
        }
    }
    assert_eq!(
        1, found_metrics,
        "We only expect 1 Lifetime.Application metric."
    );
}

#[test]
fn test_user_lifetime_metric_recorded() {
    // Init the database in a temporary directory.
    let dir = tempdir().unwrap();
    let mut db = Database::new(&dir_str(&dir), false).unwrap();

    // Attempt to record a known value.
    let test_value = "test-value";
    let test_storage = "test-storage2";
    let test_metric_id = "telemetry_test.test_name";
    db.record_per_lifetime(
        Lifetime::User,
        test_storage,
        test_metric_id,
        &Metric::String(test_value.to_string()),
    )
    .unwrap();

    // Verify that the data is correctly recorded.
    let mut found_metrics = 0;
    for (metric_id, metric) in db.iter_store_from(Lifetime::User, test_storage, None) {
        found_metrics += 1;
        assert_eq!(test_metric_id, metric_id);
        match metric {
            Metric::String(s) => assert_eq!(test_value, s),
            _ => panic!("Unexpected data found"),
        }
    }
    assert_eq!(1, found_metrics, "We only expect 1 Lifetime.User metric.");
}

#[test]
fn test_clear_ping_storage() {
    // Init the database in a temporary directory.
    let dir = tempdir().unwrap();
    let mut db = Database::new(&dir_str(&dir), false).unwrap();

    // Attempt to record a known value for every single lifetime.
    let test_storage = "test-storage";
    db.record_per_lifetime(
        Lifetime::User,
        test_storage,
        "telemetry_test.test_name_user",
        &Metric::String("test-value-user".to_string()),
    )
    .unwrap();
    db.record_per_lifetime(
        Lifetime::Ping,
        test_storage,
        "telemetry_test.test_name_ping",
        &Metric::String("test-value-ping".to_string()),
    )
    .unwrap();
    db.record_per_lifetime(
        Lifetime::Application,
        test_storage,
        "telemetry_test.test_name_application",
        &Metric::String("test-value-application".to_string()),
    )
    .unwrap();

    // Take a snapshot for the data, all the lifetimes.
    {
        let mut snapshot: HashMap<String, String> = HashMap::new();
        for lifetime in [Lifetime::User, Lifetime::Ping, Lifetime::Application] {
            for (metric_id, metric) in db.iter_store_from(lifetime, test_storage, None) {
                match metric {
                    Metric::String(s) => snapshot.insert(metric_id, s),
                    _ => panic!("Unexpected data found"),
                };
            }
        }

        assert_eq!(3, snapshot.len(), "We expect all lifetimes to be present.");
        assert!(snapshot.contains_key("telemetry_test.test_name_user"));
        assert!(snapshot.contains_key("telemetry_test.test_name_ping"));
        assert!(snapshot.contains_key("telemetry_test.test_name_application"));
    }

    // Clear the Ping lifetime.
    db.clear_ping_lifetime_storage(test_storage).unwrap();

    // Take a snapshot again and check that we're only clearing the Ping lifetime.
    {
        let mut snapshot: HashMap<String, String> = HashMap::new();
        for lifetime in [Lifetime::User, Lifetime::Ping, Lifetime::Application] {
            for (metric_id, metric) in db.iter_store_from(lifetime, test_storage, None) {
                match metric {
                    Metric::String(s) => snapshot.insert(metric_id, s),
                    _ => panic!("Unexpected data found"),
                };
            }
        }

        assert_eq!(2, snapshot.len(), "We only expect 2 metrics to be left.");
        assert!(snapshot.contains_key("telemetry_test.test_name_user"));
        assert!(snapshot.contains_key("telemetry_test.test_name_application"));
    }
}

#[test]
fn test_remove_single_metric() {
    // Init the database in a temporary directory.
    let dir = tempdir().unwrap();
    let mut db = Database::new(&dir_str(&dir), false).unwrap();

    let test_storage = "test-storage-single-lifetime";
    let metric_id_pattern = "telemetry_test.single_metric";

    // Write sample metrics to the database.
    let lifetimes = [Lifetime::User, Lifetime::Ping, Lifetime::Application];

    for lifetime in lifetimes.iter() {
        for value in &["retain", "delete"] {
            db.record_per_lifetime(
                *lifetime,
                test_storage,
                &format!("{}_{}", metric_id_pattern, value),
                &Metric::String((*value).to_string()),
            )
            .unwrap();
        }
    }

    // Remove "telemetry_test.single_metric_delete" from each lifetime.
    for lifetime in lifetimes.iter() {
        db.remove_single_metric(
            *lifetime,
            test_storage,
            &format!("{}_delete", metric_id_pattern),
        )
        .unwrap();
    }

    // Verify that "telemetry_test.single_metric_retain" is still around for all lifetimes.
    for lifetime in lifetimes.iter() {
        let mut found_metrics = 0;
        for (metric_id, metric) in db.iter_store_from(*lifetime, test_storage, None) {
            found_metrics += 1;
            assert_eq!(format!("{}_retain", metric_id_pattern), metric_id);
            match metric {
                Metric::String(s) => assert_eq!("retain", s),
                _ => panic!("Unexpected data found"),
            }
        }
        assert_eq!(
            1, found_metrics,
            "We only expect 1 metric for this lifetime."
        );
    }
}

#[test]
fn test_delayed_ping_lifetime_persistence() {
    // Init the database in a temporary directory, with delayed I/O.
    let dir = tempdir().unwrap();
    let mut db = Database::new(&dir_str(&dir), true).unwrap();
    let test_storage = "test-storage";

    // Attempt to record a known value.
    let test_value1 = "test-value1";
    let test_metric_id1 = "telemetry_test.test_name1";
    db.record_per_lifetime(
        Lifetime::Ping,
        test_storage,
        test_metric_id1,
        &Metric::String(test_value1.to_string()),
    )
    .unwrap();

    // Attempt to persist data.
    db.persist_ping_lifetime_data().unwrap();

    // Attempt to record another known value.
    let test_value2 = "test-value2";
    let test_metric_id2 = "telemetry_test.test_name2";
    db.record_per_lifetime(
        Lifetime::Ping,
        test_storage,
        test_metric_id2,
        &Metric::String(test_value2.to_string()),
    )
    .unwrap();

    // Both values are visible to iteration right away: the persisted one
    // from the store and the fresh one from the in-memory cache.
    let snapshot = db.iter_store_from(Lifetime::Ping, test_storage, None);
    assert_eq!(2, snapshot.len());
    assert!(db.has_metric(Lifetime::Ping, test_storage, test_metric_id1));
    assert!(db.has_metric(Lifetime::Ping, test_storage, test_metric_id2));

    // After a reopen, only the value recorded before the flush survives:
    // the cache starts empty and the store is authoritative.
    drop(db);
    let db = Database::new(&dir_str(&dir), true).unwrap();
    assert!(db.has_metric(Lifetime::Ping, test_storage, test_metric_id1));
    assert!(
        !db.has_metric(Lifetime::Ping, test_storage, test_metric_id2),
        "data recorded after the last flush does not survive a restart"
    );
}

#[test]
fn test_load_ping_lifetime_data_from_memory() {
    // Init the database in a temporary directory, with delayed I/O.
    let dir = tempdir().unwrap();

    let test_storage = "test-storage";
    let test_value = "test-value";
    let test_metric_id = "telemetry_test.test_name";

    {
        let mut db = Database::new(&dir_str(&dir), true).unwrap();

        // Attempt to record a known value.
        db.record_per_lifetime(
            Lifetime::Ping,
            test_storage,
            test_metric_id,
            &Metric::String(test_value.to_string()),
        )
        .unwrap();

        // Verify that the value is visible before persisting.
        assert!(db.has_metric(Lifetime::Ping, test_storage, test_metric_id));

        // Attempt to persist data.
        db.persist_ping_lifetime_data().unwrap();
    }

    // Now create a new instance of the db and check that the persisted
    // data is loaded from the durable store.
    {
        let db = Database::new(&dir_str(&dir), true).unwrap();
        assert!(db.has_metric(Lifetime::Ping, test_storage, test_metric_id));

        let snapshot = db.iter_store_from(Lifetime::Ping, test_storage, None);
        assert_eq!(1, snapshot.len());
        assert_eq!(test_metric_id, snapshot[0].0);
        match &snapshot[0].1 {
            Metric::String(s) => assert_eq!(test_value, s),
            _ => panic!("Unexpected data found"),
        }
    }
}

#[test]
fn doesnt_record_when_upload_is_disabled() {
    let dir = tempdir().unwrap();

    let test_storage = "test-storage";
    let test_data = CommonMetricData {
        identifier: "category.name".to_string(),
        send_in_pings: vec![test_storage.to_string()],
        lifetime: Lifetime::Ping,
        disabled: false,
        dynamic_label: None,
    };
    let test_metric_id = test_data.identifier();
    let mut glean = Glean::new(true);

    // Attempt to record metric with the record and record_with functions,
    // this should work since upload is enabled.
    let mut db = Database::new(&dir_str(&dir), true).unwrap();
    db.record(&glean, &test_data, &Metric::String("record".to_owned()));
    for (metric_id, metric) in db.iter_store_from(Lifetime::Ping, test_storage, None) {
        assert_eq!(metric_id, test_metric_id);
        match metric {
            Metric::String(v) => assert_eq!("record", v),
            _ => panic!("Unexpected data found"),
        }
    }

    db.record_with(&glean, &test_data, |_| {
        Metric::String("record_with".to_owned())
    });
    for (metric_id, metric) in db.iter_store_from(Lifetime::Ping, test_storage, None) {
        assert_eq!(metric_id, test_metric_id);
        match metric {
            Metric::String(v) => assert_eq!("record_with", v),
            _ => panic!("Unexpected data found"),
        }
    }

    // Disable upload.
    glean.set_upload_enabled(false);

    // Attempt to record metric with the record and record_with functions,
    // this should have no effect since upload is now **disabled**.
    db.record(&glean, &test_data, &Metric::String("record_nop".to_owned()));
    for (metric_id, metric) in db.iter_store_from(Lifetime::Ping, test_storage, None) {
        assert_eq!(metric_id, test_metric_id);
        match metric {
            Metric::String(v) => assert_eq!("record_with", v),
            _ => panic!("Unexpected data found"),
        }
    }
    db.record_with(&glean, &test_data, |_| {
        Metric::String("record_with_nop".to_owned())
    });
    for (metric_id, metric) in db.iter_store_from(Lifetime::Ping, test_storage, None) {
        assert_eq!(metric_id, test_metric_id);
        match metric {
            Metric::String(v) => assert_eq!("record_with", v),
            _ => panic!("Unexpected data found"),
        }
    }
}

#[test]
fn upsert_yields_single_row() {
    let dir = tempdir().unwrap();
    let mut db = Database::new(&dir_str(&dir), false).unwrap();

    for _ in 0..2 {
        db.record_per_lifetime(
            Lifetime::Ping,
            "store",
            "cat.metric",
            &Metric::String("same".to_string()),
        )
        .unwrap();
    }

    let snapshot = db.iter_store_from(Lifetime::Ping, "store", None);
    assert_eq!(1, snapshot.len(), "recording twice keeps a single row");
    assert_eq!("cat.metric", snapshot[0].0);
}

#[test]
fn prefix_iteration_selects_category() {
    let dir = tempdir().unwrap();
    let mut db = Database::new(&dir_str(&dir), false).unwrap();

    for id in ["catA.x", "catA.y", "catB.z"] {
        db.record_per_lifetime(
            Lifetime::Ping,
            "store",
            id,
            &Metric::Boolean(true),
        )
        .unwrap();
    }

    let mut ids: Vec<String> = db
        .iter_store_from(Lifetime::Ping, "store", Some("catA."))
        .into_iter()
        .map(|(id, _)| id)
        .collect();
    ids.sort();
    assert_eq!(vec!["catA.x".to_string(), "catA.y".to_string()], ids);
}

#[test]
fn record_with_applies_transform_atomically() {
    let dir = tempdir().unwrap();
    let mut db = Database::new(&dir_str(&dir), false).unwrap();

    let transform = |old: Option<Metric>| -> Metric {
        match old {
            Some(Metric::Counter(c)) => Metric::Counter(c + 1),
            _ => Metric::Counter(1),
        }
    };

    for _ in 0..3 {
        db.record_per_lifetime_with(Lifetime::Ping, "store", "cat.counter", &transform)
            .unwrap();
    }

    let snapshot = db.iter_store_from(Lifetime::Ping, "store", None);
    assert_eq!(1, snapshot.len());
    match snapshot[0].1 {
        Metric::Counter(c) => assert_eq!(3, c),
        _ => panic!("Unexpected data found"),
    }
}

#[test]
fn clear_lifetime_leaves_other_lifetimes() {
    let dir = tempdir().unwrap();
    let mut db = Database::new(&dir_str(&dir), false).unwrap();

    for lifetime in [Lifetime::User, Lifetime::Ping, Lifetime::Application] {
        db.record_per_lifetime(lifetime, "store", "cat.metric", &Metric::Counter(7))
            .unwrap();
    }
    db.clear_lifetime(Lifetime::User);

    assert!(!db.has_metric(Lifetime::User, "store", "cat.metric"));
    assert!(db.has_metric(Lifetime::Ping, "store", "cat.metric"));
    assert!(db.has_metric(Lifetime::Application, "store", "cat.metric"));

    db.clear_all();
    assert!(!db.has_metric(Lifetime::Ping, "store", "cat.metric"));
    assert!(!db.has_metric(Lifetime::Application, "store", "cat.metric"));
}

#[test]
fn file_size_and_load_state_are_unset() {
    let dir = tempdir().unwrap();
    let db = Database::new(&dir_str(&dir), false).unwrap();
    assert!(db.file_size().is_none());
    assert!(db.rkv_load_state().is_none());
}

#[test]
fn has_metric_sees_the_delayed_cache() {
    let dir = tempdir().unwrap();
    let mut db = Database::new(&dir_str(&dir), true).unwrap();

    assert!(!db.has_metric(Lifetime::Ping, "store", "cat.metric"));
    db.record_per_lifetime(
        Lifetime::Ping,
        "store",
        "cat.metric",
        &Metric::Counter(1),
    )
    .unwrap();
    assert!(db.has_metric(Lifetime::Ping, "store", "cat.metric"));
    assert!(!db.has_metric(Lifetime::Application, "store", "cat.metric"));
}

#[test]
fn record_with_increments_every_ping_of_a_delayed_store() {
    let dir = tempdir().unwrap();
    let mut db = Database::new(&dir_str(&dir), true).unwrap();
    let glean = Glean::new(true);

    let data = CommonMetricData {
        identifier: "category.counter".to_string(),
        send_in_pings: vec!["storeA".to_string(), "storeB".to_string()],
        lifetime: Lifetime::Ping,
        disabled: false,
        dynamic_label: None,
    };
    let transform = |old: Option<Metric>| -> Metric {
        match old {
            Some(Metric::Counter(c)) => Metric::Counter(c + 1),
            _ => Metric::Counter(1),
        }
    };
    db.record_with(&glean, &data, transform);
    db.record_with(&glean, &data, transform);

    for store in ["storeA", "storeB"] {
        let snapshot = db.iter_store_from(Lifetime::Ping, store, None);
        assert_eq!(1, snapshot.len());
        assert_eq!(Metric::Counter(2), snapshot[0].1);
    }
}
