use omnisync::dispatcher::TransferResolution;
use omnisync::engine::{EngineConfig, SyncEngine, ValidationError, WatchState};
use omnisync::events::{ChangeEvent, ChangeKind};
use omnisync::models::{FileMetadata, PairStatus};
use omnisync::provider::{CloudProvider, TransferError, TransferOp};

fn engine() -> SyncEngine {
    SyncEngine::new(EngineConfig::default())
}

fn created(path: &str, at: u64) -> ChangeEvent {
    ChangeEvent {
        kind: ChangeKind::Created,
        path: path.to_string(),
        renamed_from: None,
        observed_at: at,
    }
}

fn modified(path: &str, at: u64) -> ChangeEvent {
    ChangeEvent {
        kind: ChangeKind::Modified,
        path: path.to_string(),
        renamed_from: None,
        observed_at: at,
    }
}

/// A scripted in-memory backend recording the calls it receives.
struct MockProvider {
    uploads: Vec<(String, String)>,
    deletes: Vec<String>,
}

impl MockProvider {
    fn new() -> Self {
        MockProvider { uploads: Vec::new(), deletes: Vec::new() }
    }
}

impl CloudProvider for MockProvider {
    fn id(&self) -> String {
        "mock".to_string()
    }

    fn upload_file(&mut self, local_path: &str, cloud_path: &str) -> Result<(), TransferError> {
        self.uploads.push((local_path.to_string(), cloud_path.to_string()));
        Ok(())
    }

    fn download_file(&mut self, _cloud_path: &str, _local_path: &str) -> Result<
        (),
        TransferError,
    > {
        Ok(())
    }

    fn delete_file(&mut self, cloud_path: &str) -> Result<(), TransferError> {
        self.deletes.push(cloud_path.to_string());
        Ok(())
    }

    fn get_metadata(&mut self, _cloud_path: &str) -> Result<FileMetadata, TransferError> {
        Ok(FileMetadata { hash: "".to_string(), size: 0, modified_at: 0 })
    }
}

#[test]
fn test_engine_initialization() {
    let e = engine();
    assert!(e.get_sync_pairs().is_empty());
    assert!(e.watch_plan(0).is_empty());
}

#[test]
fn test_sync_pairs_management() {
    let mut e = engine();
    e.register_provider("mock_provider".to_string());
    let id = e
        .add_sync_pair("/tmp/test_sync_dir", "/remote/path", "mock_provider", 0)
        .expect("Failed to add sync pair");
    assert!(id > 0);
    let pairs = e.get_sync_pairs();
    assert_eq!(pairs.len(), 1);
    assert_eq!(pairs[0].local_path, "/tmp/test_sync_dir");
    assert_eq!(pairs[0].status.label(), "pending");
    e.on_watch_ok("/tmp/test_sync_dir");
    let pairs = e.get_sync_pairs();
    assert_eq!(pairs[0].status.label(), "active");
}

#[test]
fn unknown_provider_is_rejected() {
    let mut e = engine();
    let r = e.add_sync_pair("/tmp/a", "/r", "mock", 0);
    assert_eq!(r, Err(ValidationError::UnknownProvider));
    assert!(e.get_sync_pairs().is_empty());
}

#[test]
fn watch_plan_defers_and_retries_with_backoff() {
    let mut e = engine();
    e.register_provider("mock".to_string());
    e.add_sync_pair("/tmp/a", "/r", "mock", 0).unwrap();
    assert_eq!(e.watch_plan(0), vec!["/tmp/a".to_string()]);
    e.on_watch_error("/tmp/a", 500);
    assert!(e.watch_plan(499).is_empty());
    assert_eq!(e.watch_plan(500), vec!["/tmp/a".to_string()]);
    e.on_watch_ok("/tmp/a");
    assert!(e.watch_plan(10_000).is_empty());
    assert!(matches!(e.watches[0].state, WatchState::Watching));
}

#[test]
fn end_to_end_new_file_uploads_once() {
    let mut e = engine();
    let mut provider = MockProvider::new();
    e.register_provider(provider.id());
    let id = e.add_sync_pair("/tmp/a", "/r", "mock", 0).unwrap();
    e.on_watch_ok("/tmp/a");

    e.handle_event(created("/tmp/a/x.txt", 0), 0);
    // Nothing is dispatched before the debounce window elapses.
    e.ingest_due_changes(299);
    assert!(e.launch_ready(299).is_empty());

    e.ingest_due_changes(300);
    let cmds = e.launch_ready(300);
    assert_eq!(cmds.len(), 1);
    assert_eq!(cmds[0].pair_id, id);
    assert_eq!(cmds[0].provider_id, "mock");
    assert_eq!(cmds[0].op, TransferOp::Upload);
    assert_eq!(cmds[0].remote_path, "/r/x.txt");

    for c in &cmds {
        let r = provider.upload_file(&c.local_path, &c.remote_path);
        let res = e.on_transfer_complete(c.pair_id, &c.local_path, r, 300);
        assert_eq!(res, Some(TransferResolution::Succeeded));
    }
    assert_eq!(provider.uploads, vec![("/tmp/a/x.txt".to_string(), "/r/x.txt".to_string())]);
    assert!(e.launch_ready(301).is_empty());
    assert_eq!(e.get_sync_pairs()[0].status, PairStatus::Active);
}

#[test]
fn transient_create_never_reaches_the_provider() {
    let mut e = engine();
    e.register_provider("mock".to_string());
    e.add_sync_pair("/tmp/a", "/r", "mock", 0).unwrap();
    e.on_watch_ok("/tmp/a");
    e.handle_event(created("/tmp/a/x.txt", 0), 0);
    e.handle_event(
        ChangeEvent {
            kind: ChangeKind::Deleted,
            path: "/tmp/a/x.txt".to_string(),
            renamed_from: None,
            observed_at: 100,
        },
        100,
    );
    e.ingest_due_changes(400);
    let cmds = e.launch_ready(400);
    assert_eq!(cmds.len(), 1);
    assert_eq!(cmds[0].op, TransferOp::Delete);
}

#[test]
fn rename_becomes_delete_and_create() {
    let mut e = engine();
    e.register_provider("mock".to_string());
    e.add_sync_pair("/tmp/a", "/r", "mock", 0).unwrap();
    e.on_watch_ok("/tmp/a");
    e.handle_event(
        ChangeEvent {
            kind: ChangeKind::Renamed,
            path: "/tmp/a/new.txt".to_string(),
            renamed_from: Some("/tmp/a/old.txt".to_string()),
            observed_at: 0,
        },
        0,
    );
    e.ingest_due_changes(300);
    let mut cmds = e.launch_ready(300);
    cmds.sort_by(|a, b| a.local_path.cmp(&b.local_path));
    assert_eq!(cmds.len(), 2);
    assert_eq!(cmds[0].local_path, "/tmp/a/new.txt");
    assert_eq!(cmds[0].op, TransferOp::Upload);
    assert_eq!(cmds[1].local_path, "/tmp/a/old.txt");
    assert_eq!(cmds[1].op, TransferOp::Delete);
}

#[test]
fn unrelated_changes_are_dropped_silently() {
    let mut e = engine();
    e.register_provider("mock".to_string());
    e.add_sync_pair("/tmp/a", "/r", "mock", 0).unwrap();
    e.on_watch_ok("/tmp/a");
    e.handle_event(modified("/somewhere/else.txt", 0), 0);
    e.ingest_due_changes(300);
    assert!(e.launch_ready(300).is_empty());
}

#[test]
fn paused_pair_gets_no_transfers() {
    let mut e = engine();
    e.register_provider("mock".to_string());
    let id = e.add_sync_pair("/tmp/a", "/r", "mock", 0).unwrap();
    e.on_watch_ok("/tmp/a");
    assert!(e.set_pair_status(id, PairStatus::Paused));
    e.handle_event(modified("/tmp/a/x.txt", 0), 0);
    e.ingest_due_changes(300);
    assert!(e.launch_ready(300).is_empty());
}

#[test]
fn transient_failures_retry_then_succeed() {
    let mut e = engine();
    e.register_provider("mock".to_string());
    let id = e.add_sync_pair("/tmp/a", "/r", "mock", 0).unwrap();
    e.on_watch_ok("/tmp/a");
    e.handle_event(modified("/tmp/a/f", 0), 0);
    e.ingest_due_changes(300);
    let mut now: u64 = 300;
    // Four transient failures, each retried after its backoff delay.
    let delays: [u64; 4] = [1000, 2000, 4000, 8000];
    for delay in delays {
        let cmds = e.launch_ready(now);
        assert_eq!(cmds.len(), 1);
        let res = e.on_transfer_complete(id, "/tmp/a/f", Err(TransferError::Timeout), now);
        assert_eq!(res, Some(TransferResolution::RetryScheduled));
        assert!(e.launch_ready(now + delay - 1).is_empty());
        now += delay;
    }
    // The fifth attempt succeeds and the pair is active.
    let cmds = e.launch_ready(now);
    assert_eq!(cmds.len(), 1);
    let res = e.on_transfer_complete(id, "/tmp/a/f", Ok(()), now);
    assert_eq!(res, Some(TransferResolution::Succeeded));
    assert_eq!(e.get_sync_pairs()[0].status, PairStatus::Active);
}

#[test]
fn exhausted_retries_mark_the_pair_error_and_success_clears_it() {
    let mut e = engine();
    e.register_provider("mock".to_string());
    let id = e.add_sync_pair("/tmp/a", "/r", "mock", 0).unwrap();
    e.on_watch_ok("/tmp/a");
    // Two files change; both transfers start while the pair is active.
    e.handle_event(modified("/tmp/a/f1", 0), 0);
    e.handle_event(modified("/tmp/a/f2", 0), 0);
    e.ingest_due_changes(300);
    let mut now: u64 = 300;
    let first = e.launch_ready(now);
    assert_eq!(first.len(), 2);
    // The transfer for f1 keeps failing transiently until it exhausts its
    // five attempts, without blocking the transfer for f2.
    for attempt in 1..=5u64 {
        let res = e.on_transfer_complete(
            id,
            "/tmp/a/f1",
            Err(TransferError::RemoteUnavailable),
            now,
        );
        if attempt < 5 {
            assert_eq!(res, Some(TransferResolution::RetryScheduled));
            now += 40_000;
            let again = e.launch_ready(now);
            assert_eq!(again.len(), 1, "retry {} should start", attempt + 1);
            assert_eq!(again[0].local_path, "/tmp/a/f1");
        } else {
            assert_eq!(res, Some(TransferResolution::Exhausted));
        }
    }
    assert_eq!(e.get_sync_pairs()[0].status.label(), "error");
    // A pair in error dispatches nothing new.
    e.handle_event(modified("/tmp/a/f3", now), now);
    e.ingest_due_changes(now + 300);
    assert!(e.launch_ready(now + 300).is_empty());
    // The transfer for f2, in flight since before the error, succeeds and
    // clears the error status.
    let res = e.on_transfer_complete(id, "/tmp/a/f2", Ok(()), now + 300);
    assert_eq!(res, Some(TransferResolution::Succeeded));
    assert_eq!(e.get_sync_pairs()[0].status, PairStatus::Active);
}

#[test]
fn auth_failure_pauses_the_pair_with_zero_retries() {
    let mut e = engine();
    e.register_provider("mock".to_string());
    let id = e.add_sync_pair("/tmp/a", "/r", "mock", 0).unwrap();
    e.on_watch_ok("/tmp/a");
    e.handle_event(modified("/tmp/a/f", 0), 0);
    e.ingest_due_changes(300);
    let cmds = e.launch_ready(300);
    assert_eq!(cmds.len(), 1);
    let res = e.on_transfer_complete(id, "/tmp/a/f", Err(TransferError::AuthFailed), 300);
    assert_eq!(res, Some(TransferResolution::PermanentFailure));
    assert_eq!(e.get_sync_pairs()[0].status.label(), "paused");
    // Zero retries: nothing ever starts again for that change.
    assert!(e.launch_ready(10_000_000).is_empty());
}

#[test]
fn two_changes_to_one_file_run_sequentially() {
    let mut e = engine();
    e.register_provider("mock".to_string());
    let id = e.add_sync_pair("/tmp/a", "/r", "mock", 0).unwrap();
    e.on_watch_ok("/tmp/a");
    e.handle_event(modified("/tmp/a/f", 0), 0);
    e.ingest_due_changes(300);
    let first = e.launch_ready(300);
    assert_eq!(first.len(), 1);
    // A second change arrives while the first transfer is still running.
    e.handle_event(modified("/tmp/a/f", 400), 400);
    e.ingest_due_changes(700);
    assert!(e.launch_ready(700).is_empty());
    let res = e.on_transfer_complete(id, "/tmp/a/f", Ok(()), 800);
    assert_eq!(res, Some(TransferResolution::Succeeded));
    let second = e.launch_ready(800);
    assert_eq!(second.len(), 1);
    assert_eq!(second[0].local_path, "/tmp/a/f");
}
