use glean_core::{
    get_storage_key, split_storage_key, DispatchError, DispatchState, FlushState, LaunchAction,
};

#[test]
fn storage_key_composes_ping_and_metric() {
    assert_eq!(
        "store1#telemetry.test",
        get_storage_key("store1", Some("telemetry.test"))
    );
    assert_eq!("store1#", get_storage_key("store1", None));
}

#[test]
fn storage_key_splits_at_first_hash() {
    let key = get_storage_key("store1", Some("telemetry.test"));
    let (ping, id) = split_storage_key(&key).unwrap();
    assert_eq!("store1", ping);
    assert_eq!("telemetry.test", id);

    // The metric part keeps any further separator characters.
    let (ping, id) = split_storage_key("store#cat.name/label#x").unwrap();
    assert_eq!("store", ping);
    assert_eq!("cat.name/label#x", id);

    assert!(split_storage_key("no-separator").is_none());
}

#[test]
fn dispatcher_buffers_until_flush() {
    let mut state = DispatchState::new(10);
    assert_eq!(LaunchAction::Queued, state.launch(1));
    assert_eq!(LaunchAction::Queued, state.launch(2));

    let (to_run, overflow) = state.flush_init().unwrap();
    assert_eq!(vec![1, 2], to_run);
    assert_eq!(0, overflow);

    // After the flush tasks run directly.
    assert_eq!(LaunchAction::RunNow, state.launch(3));
}

#[test]
fn dispatcher_flush_reports_overflow() {
    let mut state = DispatchState::new(2);
    for task in 0..5u64 {
        assert_eq!(LaunchAction::Queued, state.launch(task));
    }

    let (to_run, overflow) = state.flush_init().unwrap();
    assert_eq!(vec![0, 1], to_run, "only the first tasks up to the bound run");
    assert_eq!(3, overflow, "the tasks beyond the bound are counted");
}

#[test]
fn dispatcher_flushes_only_once() {
    let mut state = DispatchState::new(4);
    state.launch(7);
    state.flush_init().unwrap();
    assert_eq!(Err(DispatchError::AlreadyFlushed), state.flush_init());
}

#[test]
fn dispatcher_shutdown_runs_pending_tasks() {
    let mut state = DispatchState::new(4);
    state.launch(1);
    state.launch(2);
    let to_run = state.shutdown();
    assert_eq!(vec![1, 2], to_run);

    // A shutdown after a flush has nothing left to run.
    let mut state = DispatchState::new(4);
    state.flush_init().unwrap();
    assert!(state.shutdown().is_empty());
    assert!(state.kill().is_ok());
}

#[test]
fn flush_state_is_plain_data() {
    assert_ne!(FlushState::NotFlushed, FlushState::IsFlushed);
}
