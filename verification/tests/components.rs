use omnisync::dispatcher::{Dispatcher, Job, TransferResolution};
use omnisync::events::{ChangeKind, Debouncer, combine};
use omnisync::models::{PairStatus, SyncPair};
use omnisync::provider::{TransferError, TransferOp};
use omnisync::registry::ProviderRegistry;
use omnisync::resolver::{build_remote_path, resolve, segment_prefix};
use omnisync::store::PairStore;

fn pair(id: i64, local: &str, remote: &str, status: PairStatus) -> SyncPair {
    SyncPair {
        id,
        local_path: local.to_string(),
        remote_path: remote.to_string(),
        provider_id: "mock".to_string(),
        status,
        created_at: 0,
    }
}

fn upload_job(pair_id: i64, local: &str, remote: &str) -> Job {
    Job {
        pair_id,
        local_path: local.to_string(),
        provider_id: "mock".to_string(),
        remote_path: remote.to_string(),
        op: TransferOp::Upload,
    }
}

#[test]
fn status_labels() {
    assert_eq!(PairStatus::Pending.label(), "pending");
    assert_eq!(PairStatus::Active.label(), "active");
    assert_eq!(PairStatus::Paused.label(), "paused");
    assert_eq!(PairStatus::Error.label(), "error");
}

#[test]
fn segment_prefix_is_path_aware() {
    assert!(segment_prefix("/data", "/data/file.txt"));
    assert!(segment_prefix("/data", "/data"));
    assert!(segment_prefix("/data/", "/data/file.txt"));
    assert!(!segment_prefix("/data/ab", "/data/abc"));
    assert!(!segment_prefix("/data/abc", "/data/ab"));
}

#[test]
fn remote_path_joins_with_one_separator() {
    assert_eq!(build_remote_path("/r", "/tmp/a", "/tmp/a/x.txt"), "/r/x.txt");
    assert_eq!(build_remote_path("/r/", "/tmp/a", "/tmp/a/x.txt"), "/r/x.txt");
    assert_eq!(build_remote_path("/r///", "/tmp/a/", "/tmp/a/x.txt"), "/r/x.txt");
    assert_eq!(build_remote_path("/r", "/tmp/a", "/tmp/a"), "/r/");
}

#[test]
fn resolve_picks_longest_matching_active_root() {
    let pairs = vec![
        pair(1, "/data", "/r1", PairStatus::Active),
        pair(2, "/data/sub", "/r2", PairStatus::Active),
    ];
    let r = resolve(&pairs, "/data/sub/file.txt").expect("should resolve");
    assert_eq!(r.0, 1);
    assert_eq!(r.1, "/r2/file.txt");
}

#[test]
fn resolve_skips_inactive_and_unrelated_pairs() {
    let pairs = vec![
        pair(1, "/data/sub", "/r2", PairStatus::Paused),
        pair(2, "/data", "/r1", PairStatus::Active),
    ];
    let r = resolve(&pairs, "/data/sub/file.txt").expect("should resolve");
    assert_eq!(r.0, 1);
    assert_eq!(r.1, "/r1/sub/file.txt");
    assert!(resolve(&pairs, "/elsewhere/file.txt").is_none());
    let none_active = vec![pair(1, "/data", "/r1", PairStatus::Pending)];
    assert!(resolve(&none_active, "/data/file.txt").is_none());
}

#[test]
fn combine_follows_precedence() {
    assert_eq!(combine(ChangeKind::Modified, ChangeKind::Modified), ChangeKind::Modified);
    assert_eq!(combine(ChangeKind::Created, ChangeKind::Modified), ChangeKind::Created);
    assert_eq!(combine(ChangeKind::Created, ChangeKind::Deleted), ChangeKind::Deleted);
    assert_eq!(combine(ChangeKind::Modified, ChangeKind::Deleted), ChangeKind::Deleted);
    assert_eq!(combine(ChangeKind::Deleted, ChangeKind::Created), ChangeKind::Created);
}

#[test]
fn debouncer_coalesces_repeated_modifications() {
    let mut d = Debouncer::new(300);
    d.offer("/tmp/a/x.txt".to_string(), ChangeKind::Modified, 0);
    d.offer("/tmp/a/x.txt".to_string(), ChangeKind::Modified, 100);
    d.offer("/tmp/a/x.txt".to_string(), ChangeKind::Modified, 200);
    assert!(d.take_due(400).is_empty());
    let due = d.take_due(500);
    assert_eq!(due.len(), 1);
    assert_eq!(due[0].path, "/tmp/a/x.txt");
    assert_eq!(due[0].kind, ChangeKind::Modified);
    assert!(d.take_due(10_000).is_empty());
}

#[test]
fn debouncer_delete_cancels_pending_create() {
    let mut d = Debouncer::new(300);
    d.offer("/tmp/a/x.txt".to_string(), ChangeKind::Created, 0);
    d.offer("/tmp/a/x.txt".to_string(), ChangeKind::Deleted, 100);
    let due = d.take_due(400);
    assert_eq!(due.len(), 1);
    assert_eq!(due[0].kind, ChangeKind::Deleted);
}

#[test]
fn debouncer_window_restarts_per_event() {
    let mut d = Debouncer::new(300);
    d.offer("/a".to_string(), ChangeKind::Modified, 0);
    d.offer("/a".to_string(), ChangeKind::Modified, 250);
    // The window restarted at 250, so nothing is due at 300.
    assert!(d.take_due(300).is_empty());
    assert_eq!(d.take_due(550).len(), 1);
}

#[test]
fn debouncer_keeps_paths_separate() {
    let mut d = Debouncer::new(300);
    d.offer("/a".to_string(), ChangeKind::Modified, 0);
    d.offer("/b".to_string(), ChangeKind::Created, 0);
    let due = d.take_due(300);
    assert_eq!(due.len(), 2);
    assert_eq!(due[0].path, "/a");
    assert_eq!(due[1].path, "/b");
}

#[test]
fn transfer_error_classification() {
    assert!(TransferError::Timeout.is_transient());
    assert!(TransferError::RateLimited.is_transient());
    assert!(TransferError::RemoteUnavailable.is_transient());
    assert!(!TransferError::AuthFailed.is_transient());
    assert!(!TransferError::Rejected.is_transient());
}

#[test]
fn registry_registers_once() {
    let mut r = ProviderRegistry::new();
    assert!(!r.resolve("gdrive"));
    r.register("gdrive".to_string());
    assert!(r.resolve("gdrive"));
    r.register("gdrive".to_string());
    assert!(r.resolve("gdrive"));
    assert_eq!(r.ids.len(), 1);
    assert!(!r.resolve("onedrive"));
}

#[test]
fn store_assigns_fresh_ids_and_updates_status() {
    let mut s = PairStore::new();
    let a = s.create("/a".to_string(), "/ra".to_string(), "mock".to_string(), 7);
    let b = s.create("/b".to_string(), "/rb".to_string(), "mock".to_string(), 8);
    assert_eq!(a, 1);
    assert_eq!(b, 2);
    let listed = s.list();
    assert_eq!(listed.len(), 2);
    assert_eq!(listed[0].status, PairStatus::Pending);
    assert_eq!(listed[0].created_at, 7);
    assert!(s.set_status(a, PairStatus::Paused));
    assert!(!s.set_status(99, PairStatus::Paused));
    assert_eq!(s.list()[0].status, PairStatus::Paused);
    assert_eq!(s.list()[1].status, PairStatus::Pending);
}

#[test]
fn dispatcher_keeps_one_transfer_in_flight_per_file() {
    let mut d = Dispatcher::new(4, 5, 1000, 30000);
    d.enqueue(upload_job(1, "/a/f", "/r/f"));
    d.enqueue(upload_job(1, "/a/f", "/r/f"));
    let first = d.start_next(0).expect("first change starts");
    assert_eq!(first.local_path, "/a/f");
    // The second change to the same file stays queued behind the first.
    assert!(d.start_next(0).is_none());
    let res = d.complete(1, "/a/f", Ok(()), 10);
    assert_eq!(res, Some(TransferResolution::Succeeded));
    let second = d.start_next(10).expect("second change starts after the first finished");
    assert_eq!(second.local_path, "/a/f");
    assert!(d.start_next(10).is_none());
    assert_eq!(d.complete(1, "/a/f", Ok(()), 20), Some(TransferResolution::Succeeded));
    assert_eq!(d.complete(1, "/a/f", Ok(()), 30), None);
}

#[test]
fn dispatcher_bounds_concurrency() {
    let mut d = Dispatcher::new(2, 5, 1000, 30000);
    d.enqueue(upload_job(1, "/a/f1", "/r/f1"));
    d.enqueue(upload_job(1, "/a/f2", "/r/f2"));
    d.enqueue(upload_job(1, "/a/f3", "/r/f3"));
    assert!(d.start_next(0).is_some());
    assert!(d.start_next(0).is_some());
    // Two workers: the third distinct file waits for a free worker.
    assert!(d.start_next(0).is_none());
    d.complete(1, "/a/f1", Ok(()), 5);
    let third = d.start_next(5).expect("freed worker picks up the third file");
    assert_eq!(third.local_path, "/a/f3");
}

#[test]
fn dispatcher_backoff_doubles_up_to_cap() {
    let d = Dispatcher::new(4, 5, 1000, 30000);
    assert_eq!(d.backoff_ms(1), 1000);
    assert_eq!(d.backoff_ms(2), 2000);
    assert_eq!(d.backoff_ms(3), 4000);
    assert_eq!(d.backoff_ms(5), 16000);
    assert_eq!(d.backoff_ms(6), 30000);
    assert_eq!(d.backoff_ms(40), 30000);
}

#[test]
fn dispatcher_retries_transient_failures_with_backoff() {
    let mut d = Dispatcher::new(4, 5, 1000, 30000);
    d.enqueue(upload_job(1, "/a/f", "/r/f"));
    assert!(d.start_next(0).is_some());
    assert_eq!(
        d.complete(1, "/a/f", Err(TransferError::Timeout), 0),
        Some(TransferResolution::RetryScheduled)
    );
    // The retry waits out its backoff delay before it may start.
    assert!(d.start_next(999).is_none());
    assert!(d.start_next(1000).is_some());
    assert_eq!(
        d.complete(1, "/a/f", Err(TransferError::RateLimited), 1000),
        Some(TransferResolution::RetryScheduled)
    );
    assert!(d.start_next(1000 + 1999).is_none());
    assert!(d.start_next(1000 + 2000).is_some());
    assert_eq!(d.complete(1, "/a/f", Ok(()), 3000), Some(TransferResolution::Succeeded));
}

#[test]
fn dispatcher_exhausts_attempt_cap() {
    let mut d = Dispatcher::new(4, 3, 1000, 30000);
    d.enqueue(upload_job(1, "/a/f", "/r/f"));
    let mut now: u64 = 0;
    assert!(d.start_next(now).is_some());
    assert_eq!(
        d.complete(1, "/a/f", Err(TransferError::Timeout), now),
        Some(TransferResolution::RetryScheduled)
    );
    now += 1000;
    assert!(d.start_next(now).is_some());
    assert_eq!(
        d.complete(1, "/a/f", Err(TransferError::Timeout), now),
        Some(TransferResolution::RetryScheduled)
    );
    now += 2000;
    assert!(d.start_next(now).is_some());
    // Third failure exhausts a cap of three attempts: the job is dropped.
    assert_eq!(
        d.complete(1, "/a/f", Err(TransferError::Timeout), now),
        Some(TransferResolution::Exhausted)
    );
    assert!(d.start_next(now + 100_000).is_none());
}

#[test]
fn dispatcher_never_retries_permanent_failures() {
    let mut d = Dispatcher::new(4, 5, 1000, 30000);
    d.enqueue(upload_job(1, "/a/f", "/r/f"));
    assert!(d.start_next(0).is_some());
    assert_eq!(
        d.complete(1, "/a/f", Err(TransferError::AuthFailed), 0),
        Some(TransferResolution::PermanentFailure)
    );
    // Zero retries: nothing is waiting, however long we wait.
    assert!(d.start_next(1_000_000).is_none());
}
