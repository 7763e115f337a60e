//! The sync orchestrator: wires the watcher-facing event intake through the
//! debouncer and resolver into the transfer dispatcher, and keeps the pair
//! store's lifecycle statuses in step with watch and transfer outcomes.
//!
//! The engine is a state machine over plain values. The surrounding process
//! owns the clocks, the OS watch subscriptions, the persistent copy of the
//! store, and the providers; it feeds events and outcomes in and performs
//! the watch subscriptions and transfers the engine hands out.

use vstd::prelude::*;
use crate::dispatcher::{
    Dispatcher, Job, JobModel, TransferResolution, backoff_spec, eligible, failure_resolution,
    embeds_into, file_key, is_subsequence, job_model, jobs_model, lemma_subsequence_contains,
    lemma_subsequence_refl, lemma_subsequence_remove, running_has_file, waiting_jobs,
};
use crate::events::{
    ChangeEvent, ChangeKind, Debouncer, Pending, lemma_model_split_distinct, model_due,
    model_live, model_offer,
};
use crate::models::{PairModel, PairStatus, SyncPair, pairs_model};
use crate::provider::{TransferError, TransferOp};
use crate::registry::ProviderRegistry;
use crate::resolver::{pair_matches, remote_target, resolve};
use crate::store::PairStore;
use crate::text::str_eq;
use vstd::multiset::Multiset;

verus! {

/// A configuration error surfaced to the caller of a mutating operation and
/// never retried.
#[derive(Clone, Copy, Debug, PartialEq, Eq, Structural)]
pub enum ValidationError {
    /// The named provider is not registered.
    UnknownProvider,
}

/// The orchestration policy knobs.
#[derive(Clone, Copy, Debug, PartialEq, Eq, Structural)]
pub struct EngineConfig {
    /// Debounce window width in milliseconds.
    pub debounce_window_ms: u64,
    /// Worker pool size: the bound on concurrently running transfers.
    pub max_workers: usize,
    /// Attempts allowed per transfer, the first one included.
    pub attempt_cap: u64,
    /// Backoff delay before the first retry, in milliseconds.
    pub base_delay_ms: u64,
    /// Upper bound on the backoff delay, in milliseconds.
    pub max_delay_ms: u64,
}

impl Default for EngineConfig {
    /// The recommended defaults: a 300 ms window, four workers, five
    /// attempts, backoff from one second up to thirty.
    fn default() -> (r: Self)
        ensures
            r.debounce_window_ms == 300,
            r.max_workers == 4,
            r.attempt_cap == 5,
            r.base_delay_ms == 1000,
            r.max_delay_ms == 30000,
    {
        EngineConfig {
            debounce_window_ms: 300,
            max_workers: 4,
            attempt_cap: 5,
            base_delay_ms: 1000,
            max_delay_ms: 30000,
        }
    }
}

/// Lifecycle of one watched local root.
#[derive(Clone, Copy, Debug, PartialEq, Eq, Structural)]
pub enum WatchState {
    /// No subscription yet.
    Unwatched,
    /// The OS subscription is live.
    Watching,
    /// Subscribing failed; retry once `retry_at` has passed.
    ErrorBackoff { retry_at: u64 },
}

/// A local root the orchestrator manages, with its watch lifecycle.
pub struct WatchEntry {
    pub root: String,
    pub state: WatchState,
}

/// Model of the watch table: root view and state, in order.
pub open spec fn watches_model(s: Seq<WatchEntry>) -> Seq<(Seq<char>, WatchState)> {
    s.map_values(|e: WatchEntry| (e.root@, e.state))
}

/// The roots that want an OS subscription attempt at `now`: unwatched ones
/// and failed ones whose backoff has elapsed.
pub open spec fn watch_plan_spec(m: Seq<(Seq<char>, WatchState)>, now: u64) -> Seq<Seq<char>>
    decreases m.len(),
{
    if m.len() == 0 {
        Seq::<Seq<char>>::empty()
    } else {
        let init = watch_plan_spec(m.drop_last(), now);
        if wants_watch(m.last().1, now) {
            init.push(m.last().0)
        } else {
            init
        }
    }
}

/// Whether a root in this state should be (re)subscribed at `now`.
pub open spec fn wants_watch(s: WatchState, now: u64) -> bool {
    match s {
        WatchState::Unwatched => true,
        WatchState::Watching => false,
        WatchState::ErrorBackoff { retry_at } => retry_at <= now,
    }
}

/// A queued job that the resolver produced: it names the most specific
/// active pair owning its path, carries that pair's provider and the
/// computed remote destination, and asks for a deletion exactly when the
/// coalesced change was a deletion.
pub open spec fn job_valid(pairs: Seq<SyncPair>, j: JobModel) -> bool {
    exists|i: int|
        #![trigger pairs[i]]
        {
            &&& 0 <= i < pairs.len()
            &&& pair_matches(pairs[i], j.1)
            &&& (forall|k: int|
                0 <= k < pairs.len() && pair_matches(pairs[k], j.1)
                    ==> pairs[k].local_path@.len() <= pairs[i].local_path@.len())
            &&& j.0 == pairs[i].id
            &&& j.2 == pairs[i].provider_id@
            &&& j.3 == remote_target(pairs[i].remote_path@, pairs[i].local_path@, j.1)
        }
}

/// Some active pair's local root owns `path`.
pub open spec fn owned_by_active_pair(pairs: Seq<SyncPair>, path: Seq<char>) -> bool {
    exists|p: int| 0 <= p < pairs.len() && pair_matches(pairs[p], path)
}

/// The job mirrors the coalesced change `ch`: same path, and a deletion
/// exactly when the change was a deletion.
pub open spec fn job_mirrors_change(j: JobModel, ch: Pending) -> bool {
    j.1 == ch.0 && ((j.4 == TransferOp::Delete) <==> ch.1 == ChangeKind::Deleted)
}

/// Some coalesced change of `due` is the one this job mirrors.
pub open spec fn from_due_change(due: Seq<Pending>, j: JobModel) -> bool {
    exists|d: int| #![trigger due[d]] 0 <= d < due.len() && job_mirrors_change(j, due[d])
}

/// Some job at index `lo` or later of the queue mirrors the change `ch`.
pub open spec fn change_represented(q: Seq<JobModel>, lo: int, ch: Pending) -> bool {
    exists|k: int| #![trigger q[k]] lo <= k < q.len() && job_mirrors_change(q[k], ch)
}

/// `m1` is `m0` with the status of the pair identified by `id` (if any)
/// set to `status`, and nothing else changed.
pub open spec fn status_applied(
    m0: Seq<PairModel>,
    m1: Seq<PairModel>,
    id: i64,
    status: PairStatus,
) -> bool {
    &&& m1.len() == m0.len()
    &&& forall|i: int| #![trigger m1[i]]
        0 <= i < m0.len() ==> m1[i] == (if m0[i].0 == id {
            (m0[i].0, m0[i].1, m0[i].2, m0[i].3, status, m0[i].5)
        } else {
            m0[i]
        })
}

/// `m1` is `m0` with a prior `Error` status of the pair identified by `id`
/// cleared back to `Active`, and nothing else changed.
pub open spec fn error_cleared(m0: Seq<PairModel>, m1: Seq<PairModel>, id: i64) -> bool {
    &&& m1.len() == m0.len()
    &&& forall|i: int| #![trigger m1[i]]
        0 <= i < m0.len() ==> m1[i] == (if m0[i].0 == id && m0[i].4 == PairStatus::Error {
            (m0[i].0, m0[i].1, m0[i].2, m0[i].3, PairStatus::Active, m0[i].5)
        } else {
            m0[i]
        })
}

/// The change-detection-to-transfer pipeline.
pub struct SyncEngine {
    pub config: EngineConfig,
    pub store: PairStore,
    pub registry: ProviderRegistry,
    pub debouncer: Debouncer,
    pub dispatcher: Dispatcher,
    pub watches: Vec<WatchEntry>,
}

impl SyncEngine {
    /// Every component invariant holds and the policy knobs are wired
    /// through consistently; watched roots are listed once.
    pub open spec fn wf(&self) -> bool {
        &&& self.store.wf()
        &&& self.registry.wf()
        &&& self.debouncer.wf()
        &&& self.dispatcher.wf()
        &&& self.debouncer.window_ms == self.config.debounce_window_ms
        &&& self.dispatcher.max_workers == self.config.max_workers
        &&& self.dispatcher.attempt_cap == self.config.attempt_cap
        &&& self.dispatcher.base_delay_ms == self.config.base_delay_ms
        &&& self.dispatcher.max_delay_ms == self.config.max_delay_ms
        &&& forall|i: int, j: int|
            0 <= i < j < watches_model(self.watches@).len()
                ==> watches_model(self.watches@)[i].0 != watches_model(self.watches@)[j].0
    }

    /// An idle engine with the given policy.
    pub fn new(config: EngineConfig) -> (r: Self)
        requires
            config.max_workers >= 1,
            config.attempt_cap >= 1,
        ensures
            r.wf(),
            r.config == config,
            r.store.model() == Seq::<PairModel>::empty(),
            r.store.next_id == 1,
            r.registry.model() == Seq::<Seq<char>>::empty(),
            r.debouncer.model() == Seq::<Pending>::empty(),
            r.dispatcher.queue_model() == Seq::<JobModel>::empty(),
            r.dispatcher.running_model() == Seq::<(JobModel, u64)>::empty(),
            r.dispatcher.waiting_model() == Seq::<(JobModel, u64, u64)>::empty(),
            watches_model(r.watches@) == Seq::<(Seq<char>, WatchState)>::empty(),
    {
        let r = SyncEngine {
            config,
            store: PairStore::new(),
            registry: ProviderRegistry::new(),
            debouncer: Debouncer::new(config.debounce_window_ms),
            dispatcher: Dispatcher::new(
                config.max_workers,
                config.attempt_cap,
                config.base_delay_ms,
                config.max_delay_ms,
            ),
            watches: Vec::new(),
        };
        proof {
            assert(watches_model(r.watches@) =~= Seq::<(Seq<char>, WatchState)>::empty());
        }
        r
    }

    /// Registers a provider identifier, making pairs that name it valid.
    /// Re-registration (a credential refresh) leaves the set unchanged.
    pub fn register_provider(&mut self, provider_id: String)
        requires
            old(self).wf(),
        ensures
            final(self).wf(),
            final(self).config == old(self).config,
            final(self).registry.registered(provider_id@),
            old(self).registry.registered(provider_id@) ==> final(self).registry.model() == old(self).registry.model(),
            !old(self).registry.registered(provider_id@) ==> final(self).registry.model() == old(self).registry.model().push(provider_id@),
            final(self).store == old(self).store,
            final(self).debouncer == old(self).debouncer,
            final(self).dispatcher == old(self).dispatcher,
            final(self).watches == old(self).watches,
    {
        self.registry.register(provider_id);
    }

    /// Whether a watch entry for `root` exists.
    #[verifier::loop_isolation(false)]
    fn has_watch(&self, root: &str) -> (r: bool)
        ensures
            r == exists|i: int|
                0 <= i < watches_model(self.watches@).len() && watches_model(self.watches@)[i].0
                    == root@,
    {
        let n = self.watches.len();
        let mut i: usize = 0;
        while i < n
            invariant
                i <= n,
                forall|j: int| 0 <= j < i ==> watches_model(self.watches@)[j].0 != root@,
            decreases n - i,
        {
            if str_eq(self.watches[i].root.as_str(), root) {
                proof {
                    assert(watches_model(self.watches@)[i as int].0 == root@);
                }
                return true;
            }
            i = i + 1;
        }
        false
    }

    /// Creates a sync pair mapping `local` onto `remote` through `provider`.
    ///
    /// Fails with `UnknownProvider`, changing nothing, exactly when the
    /// provider is not registered. On success the pair starts `Pending`
    /// with a fresh identifier, and its root joins the watch table (as
    /// `Unwatched`) unless already managed.
    pub fn add_sync_pair(&mut self, local: &str, remote: &str, provider: &str, created_at: i64)
        -> (r: Result<i64, ValidationError>)
        requires
            old(self).wf(),
            old(self).store.next_id < i64::MAX,
        ensures
            final(self).wf(),
            final(self).config == old(self).config,
            final(self).registry == old(self).registry,
            final(self).debouncer == old(self).debouncer,
            final(self).dispatcher == old(self).dispatcher,
            match r {
                Result::Err(e) => {
                    &&& e == ValidationError::UnknownProvider
                    &&& !old(self).registry.registered(provider@)
                    &&& final(self).store == old(self).store
                    &&& final(self).watches == old(self).watches
                },
                Result::Ok(id) => {
                    &&& old(self).registry.registered(provider@)
                    &&& id == old(self).store.next_id
                    &&& final(self).store.next_id == old(self).store.next_id + 1
                    &&& final(self).store.model() == old(self).store.model().push(
                        (id, local@, remote@, provider@, PairStatus::Pending, created_at),
                    )
                    &&& ((exists|i: int|
                        0 <= i < watches_model(old(self).watches@).len() && watches_model(
                            old(self).watches@,
                        )[i].0 == local@) ==> watches_model(final(self).watches@)
                        == watches_model(old(self).watches@))
                    &&& (!(exists|i: int|
                        0 <= i < watches_model(old(self).watches@).len() && watches_model(
                            old(self).watches@,
                        )[i].0 == local@) ==> watches_model(final(self).watches@)
                        == watches_model(old(self).watches@).push(
                        (local@, WatchState::Unwatched),
                    ))
                },
            },
    {
        if !self.registry.resolve(provider) {
            return Err(ValidationError::UnknownProvider);
        }
        let id = self.store.create(
            String::from_str(local),
            String::from_str(remote),
            String::from_str(provider),
            created_at,
        );
        if !self.has_watch(local) {
            let ghost w0 = watches_model(self.watches@);
            self.watches.push(
                WatchEntry { root: String::from_str(local), state: WatchState::Unwatched },
            );
            proof {
                assert(watches_model(self.watches@) =~= w0.push(
                    (local@, WatchState::Unwatched),
                ));
            }
        }
        Ok(id)
    }

    /// A point-in-time snapshot of the configured pairs.
    pub fn get_sync_pairs(&self) -> (r: Vec<SyncPair>)
        ensures
            pairs_model(r@) == self.store.model(),
    {
        self.store.list()
    }

    /// Operator action: sets the status of the pair with the given
    /// identifier (pausing or resuming it). Returns whether the pair
    /// exists.
    pub fn set_pair_status(&mut self, id: i64, status: PairStatus) -> (found: bool)
        requires
            old(self).wf(),
        ensures
            final(self).wf(),
            final(self).config == old(self).config,
            final(self).registry == old(self).registry,
            final(self).debouncer == old(self).debouncer,
            final(self).dispatcher == old(self).dispatcher,
            final(self).watches == old(self).watches,
            final(self).store.next_id == old(self).store.next_id,
            found == exists|i: int|
                0 <= i < old(self).store.model().len() && old(self).store.model()[i].0 == id,
            !found ==> final(self).store.model() == old(self).store.model(),
            found ==> exists|i: int|
                #![trigger old(self).store.model()[i]]
                {
                    let m = old(self).store.model();
                    &&& 0 <= i < m.len()
                    &&& m[i].0 == id
                    &&& final(self).store.model() == m.update(
                        i,
                        (m[i].0, m[i].1, m[i].2, m[i].3, status, m[i].5),
                    )
                },
    {
        self.store.set_status(id, status)
    }

    /// Sets the state of the watch entry for `root`, if one exists.
    #[verifier::loop_isolation(false)]
    fn set_watch_state(&mut self, root: &str, state: WatchState)
        requires
            old(self).wf(),
        ensures
            final(self).wf(),
            final(self).config == old(self).config,
            final(self).store == old(self).store,
            final(self).registry == old(self).registry,
            final(self).debouncer == old(self).debouncer,
            final(self).dispatcher == old(self).dispatcher,
            watches_model(final(self).watches@).len() == watches_model(old(self).watches@).len(),
            forall|i: int| #![trigger watches_model(final(self).watches@)[i]]
                0 <= i < watches_model(old(self).watches@).len() ==> watches_model(
                    final(self).watches@,
                )[i] == (if watches_model(old(self).watches@)[i].0 == root@ {
                    (watches_model(old(self).watches@)[i].0, state)
                } else {
                    watches_model(old(self).watches@)[i]
                }),
    {
        let ghost w0 = watches_model(self.watches@);
        let n = self.watches.len();
        let mut i: usize = 0;
        while i < n
            invariant
                i <= n,
                n == self.watches@.len(),
                self.config == old(self).config,
                self.store == old(self).store,
                self.registry == old(self).registry,
                self.debouncer == old(self).debouncer,
                self.dispatcher == old(self).dispatcher,
                watches_model(self.watches@) == w0,
                forall|j: int| 0 <= j < i ==> w0[j].0 != root@,
            decreases n - i,
        {
            if str_eq(self.watches[i].root.as_str(), root) {
                let e = self.watches.remove(i);
                self.watches.insert(i, WatchEntry { root: e.root, state });
                proof {
                    assert(watches_model(self.watches@) =~= w0.update(
                        i as int,
                        (w0[i as int].0, state),
                    ));
                    assert(w0[i as int].0 == root@);
                    assert forall|j: int|
                        0 <= j < w0.len() && j != i as int implies w0[j].0 != root@ by {
                        if j < i as int {
                            assert(w0[j].0 != w0[i as int].0);
                        } else {
                            assert(w0[i as int].0 != w0[j].0);
                        }
                    }
                }
                return ;
            }
            i = i + 1;
        }
    }

    /// The watcher subscribed to `root`: the root is `Watching` and every
    /// `Pending` pair under exactly that root becomes `Active`.
    pub fn on_watch_ok(&mut self, root: &str)
        requires
            old(self).wf(),
        ensures
            final(self).wf(),
            final(self).config == old(self).config,
            final(self).registry == old(self).registry,
            final(self).debouncer == old(self).debouncer,
            final(self).dispatcher == old(self).dispatcher,
            watches_model(final(self).watches@).len() == watches_model(old(self).watches@).len(),
            forall|i: int| #![trigger watches_model(final(self).watches@)[i]]
                0 <= i < watches_model(old(self).watches@).len() ==> watches_model(
                    final(self).watches@,
                )[i] == (if watches_model(old(self).watches@)[i].0 == root@ {
                    (watches_model(old(self).watches@)[i].0, WatchState::Watching)
                } else {
                    watches_model(old(self).watches@)[i]
                }),
            final(self).store.next_id == old(self).store.next_id,
            final(self).store.model().len() == old(self).store.model().len(),
            forall|i: int| #![trigger final(self).store.model()[i]]
                0 <= i < old(self).store.model().len() ==> final(self).store.model()[i] == (
                if old(self).store.model()[i].1 == root@ && old(self).store.model()[i].4
                    == PairStatus::Pending {
                    (
                        old(self).store.model()[i].0,
                        old(self).store.model()[i].1,
                        old(self).store.model()[i].2,
                        old(self).store.model()[i].3,
                        PairStatus::Active,
                        old(self).store.model()[i].5,
                    )
                } else {
                    old(self).store.model()[i]
                }),
    {
        self.set_watch_state(root, WatchState::Watching);
        self.store.activate_pending(root);
    }

    /// Subscribing to `root` failed: remember to retry once `retry_at` has
    /// passed. The failure touches nothing else.
    pub fn on_watch_error(&mut self, root: &str, retry_at: u64)
        requires
            old(self).wf(),
        ensures
            final(self).wf(),
            final(self).config == old(self).config,
            final(self).store == old(self).store,
            final(self).registry == old(self).registry,
            final(self).debouncer == old(self).debouncer,
            final(self).dispatcher == old(self).dispatcher,
            watches_model(final(self).watches@).len() == watches_model(old(self).watches@).len(),
            forall|i: int| #![trigger watches_model(final(self).watches@)[i]]
                0 <= i < watches_model(old(self).watches@).len() ==> watches_model(
                    final(self).watches@,
                )[i] == (if watches_model(old(self).watches@)[i].0 == root@ {
                    (
                        watches_model(old(self).watches@)[i].0,
                        (WatchState::ErrorBackoff { retry_at }),
                    )
                } else {
                    watches_model(old(self).watches@)[i]
                }),
    {
        self.set_watch_state(root, WatchState::ErrorBackoff { retry_at });
    }

    /// The roots that want an OS subscription attempt at `now`.
    #[verifier::loop_isolation(false)]
    pub fn watch_plan(&self, now: u64) -> (r: Vec<String>)
        ensures
            r@.map_values(|s: String| s@) == watch_plan_spec(watches_model(self.watches@), now),
    {
        let ghost wm = watches_model(self.watches@);
        let mut r: Vec<String> = Vec::new();
        let n = self.watches.len();
        let mut i: usize = 0;
        while i < n
            invariant
                i <= n,
                n == self.watches@.len(),
                r@.map_values(|s: String| s@) == watch_plan_spec(wm.subrange(0, i as int), now),
            decreases n - i,
        {
            proof {
                assert(wm.subrange(0, i as int + 1).drop_last() =~= wm.subrange(0, i as int));
                assert(wm.subrange(0, i as int + 1).last() == wm[i as int]);
            }
            let wants = match self.watches[i].state {
                WatchState::Unwatched => true,
                WatchState::Watching => false,
                WatchState::ErrorBackoff { retry_at } => retry_at <= now,
            };
            if wants {
                let ghost before = r@.map_values(|s: String| s@);
                r.push(self.watches[i].root.clone());
                proof {
                    assert(r@.map_values(|s: String| s@) =~= before.push(wm[i as int].0));
                }
            }
            i = i + 1;
        }
        proof {
            assert(wm.subrange(0, n as int) =~= wm);
        }
        r
    }

    /// Feeds one raw watcher event into the debouncer. A rename is taken as
    /// a deletion of the old path and a creation of the new one; any other
    /// kind restarts its path's window and folds in by precedence.
    pub fn handle_event(&mut self, ev: ChangeEvent, now: u64)
        requires
            old(self).wf(),
            ev.wf(),
            now + old(self).config.debounce_window_ms <= u64::MAX,
        ensures
            final(self).wf(),
            final(self).config == old(self).config,
            final(self).store == old(self).store,
            final(self).registry == old(self).registry,
            final(self).dispatcher == old(self).dispatcher,
            final(self).watches == old(self).watches,
            final(self).debouncer.model() == ({
                let dl = (now + old(self).config.debounce_window_ms) as u64;
                match ev.renamed_from {
                    Option::Some(old_path) => model_offer(
                        model_offer(
                            old(self).debouncer.model(),
                            old_path@,
                            ChangeKind::Deleted,
                            dl,
                        ),
                        ev.path@,
                        ChangeKind::Created,
                        dl,
                    ),
                    Option::None => model_offer(
                        old(self).debouncer.model(),
                        ev.path@,
                        ev.kind,
                        dl,
                    ),
                }
            }),
    {
        if matches!(ev.kind, ChangeKind::Renamed) {
            match ev.renamed_from {
                Some(old_path) => {
                    self.debouncer.offer(old_path, ChangeKind::Deleted, now);
                },
                None => {
                    proof {
                        assert(false);
                    }
                },
            }
            self.debouncer.offer(ev.path, ChangeKind::Created, now);
        } else {
            self.debouncer.offer(ev.path, ev.kind, now);
        }
    }

    /// Drains the coalesced changes whose window elapsed at `now`, resolves
    /// each against the active pairs, and queues exactly one transfer job
    /// for every change an active pair owns. Changes no active pair owns
    /// are dropped:
    /// unrelated filesystem activity is an expected, silent outcome.
    #[verifier::loop_isolation(false)]
    #[verifier::rlimit(60)]
    pub fn ingest_due_changes(&mut self, now: u64)
        requires
            old(self).wf(),
        ensures
            final(self).wf(),
            final(self).config == old(self).config,
            final(self).store == old(self).store,
            final(self).registry == old(self).registry,
            final(self).watches == old(self).watches,
            final(self).debouncer.window_ms == old(self).debouncer.window_ms,
            final(self).debouncer.model() == model_live(old(self).debouncer.model(), now),
            final(self).dispatcher.running_model() == old(self).dispatcher.running_model(),
            final(self).dispatcher.waiting_model() == old(self).dispatcher.waiting_model(),
            ({
                let q0 = old(self).dispatcher.queue_model();
                let q1 = final(self).dispatcher.queue_model();
                let due = model_due(old(self).debouncer.model(), now);
                let pairs = old(self).store.pairs@;
                &&& q1.len() >= q0.len()
                &&& q1.subrange(0, q0.len() as int) == q0
                &&& (forall|k: int| #![trigger q1[k]]
                    q0.len() <= k < q1.len() ==> job_valid(pairs, q1[k]))
                &&& (forall|k: int| #![trigger q1[k]]
                    q0.len() <= k < q1.len() ==> from_due_change(due, q1[k]))
                &&& (forall|k1: int, k2: int|
                    q0.len() <= k1 < k2 < q1.len() ==> q1[k1].1 != q1[k2].1)
                &&& (forall|d: int| #![trigger due[d]]
                    0 <= d < due.len() && owned_by_active_pair(pairs, due[d].0)
                        ==> change_represented(q1, q0.len() as int, due[d]))
            }),
    {
        let ghost q0 = self.dispatcher.queue_model();
        let ghost pairs = self.store.pairs@;
        proof {
            lemma_model_split_distinct(self.debouncer.model(), now);
        }
        let due = self.debouncer.take_due(now);
        let ghost duem = model_due(old(self).debouncer.model(), now);
        let n = due.len();
        let mut di: usize = 0;
        while di < n
            invariant
                di <= n,
                n == due@.len(),
                self.config == old(self).config,
                self.store == old(self).store,
                self.registry == old(self).registry,
                self.watches == old(self).watches,
                self.debouncer.window_ms == old(self).debouncer.window_ms,
                self.debouncer.model() == model_live(old(self).debouncer.model(), now),
                self.dispatcher.running_model() == old(self).dispatcher.running_model(),
                self.dispatcher.waiting_model() == old(self).dispatcher.waiting_model(),
                self.wf(),
                self.dispatcher.queue_model().len() >= q0.len(),
                self.dispatcher.queue_model().subrange(0, q0.len() as int) == q0,
                forall|k: int| #![trigger self.dispatcher.queue_model()[k]]
                    q0.len() <= k < self.dispatcher.queue_model().len() ==> job_valid(
                        pairs,
                        self.dispatcher.queue_model()[k],
                    ),
                forall|k: int| #![trigger self.dispatcher.queue_model()[k]]
                    q0.len() <= k < self.dispatcher.queue_model().len() ==> exists|d: int|
                        #![trigger duem[d]]
                        0 <= d < di && job_mirrors_change(
                            self.dispatcher.queue_model()[k],
                            duem[d],
                        ),
                forall|k1: int, k2: int|
                    q0.len() <= k1 < k2 < self.dispatcher.queue_model().len()
                        ==> self.dispatcher.queue_model()[k1].1
                        != self.dispatcher.queue_model()[k2].1,
                forall|d: int| #![trigger duem[d]]
                    0 <= d < di && owned_by_active_pair(pairs, duem[d].0)
                        ==> change_represented(
                        self.dispatcher.queue_model(),
                        q0.len() as int,
                        duem[d],
                    ),
            decreases n - di,
        {
            proof {
                assert(duem[di as int] == (due@[di as int].path@, due@[di as int].kind, due@[
                    di as int].deadline));
            }
            let d = &due[di];
            match resolve(&self.store.pairs, d.path.as_str()) {
                Some(t) => {
                    let (idx, remote) = t;
                    let op = if matches!(d.kind, ChangeKind::Deleted) {
                        TransferOp::Delete
                    } else {
                        TransferOp::Upload
                    };
                    let job = Job {
                        pair_id: self.store.pairs[idx].id,
                        local_path: d.path.clone(),
                        provider_id: self.store.pairs[idx].provider_id.clone(),
                        remote_path: remote,
                        op,
                    };
                    let ghost qpre = self.dispatcher.queue_model();
                    proof {
                        assert(job_valid(pairs, job_model(job)));
                        assert(job_mirrors_change(job_model(job), duem[di as int]));
                    }
                    self.dispatcher.enqueue(job);
                    proof {
                        let qnow = self.dispatcher.queue_model();
                        assert(qnow.subrange(0, q0.len() as int)
                            =~= qpre.subrange(0, q0.len() as int));
                        assert(qnow[qpre.len() as int] == job_model(job));
                        assert forall|dd: int|
                            #![trigger duem[dd]]
                            0 <= dd < di as int + 1 && owned_by_active_pair(pairs, duem[dd].0)
                            implies change_represented(qnow, q0.len() as int, duem[dd]) by {
                            if dd == di as int {
                                assert(job_mirrors_change(
                                    qnow[qpre.len() as int],
                                    duem[dd],
                                ));
                            } else {
                                let k = choose|k: int|
                                    #![trigger qpre[k]]
                                    q0.len() <= k < qpre.len() && job_mirrors_change(
                                        qpre[k],
                                        duem[dd],
                                    );
                                assert(qnow[k] == qpre[k]);
                            }
                        }
                        assert forall|k1: int, k2: int|
                            q0.len() <= k1 < k2 < qnow.len() implies qnow[k1].1 != qnow[k2].1 by {
                            if k2 == qpre.len() as int {
                                assert(qnow[k1] == qpre[k1]);
                                let dd = choose|dd: int|
                                    #![trigger duem[dd]]
                                    0 <= dd < di && job_mirrors_change(qpre[k1], duem[dd]);
                                assert(duem[dd].0 != duem[di as int].0);
                            } else {
                                assert(qnow[k1] == qpre[k1]);
                                assert(qnow[k2] == qpre[k2]);
                            }
                        }
                    }
                },
                None => {
                    proof {
                        assert forall|dd: int|
                            #![trigger duem[dd]]
                            0 <= dd < di as int + 1 && owned_by_active_pair(pairs, duem[dd].0)
                            implies change_represented(
                            self.dispatcher.queue_model(),
                            q0.len() as int,
                            duem[dd],
                        ) by {
                            if dd == di as int {
                                assert(!owned_by_active_pair(pairs, duem[dd].0));
                            }
                        }
                    }
                },
            }
            di = di + 1;
        }
    }

    /// Starts every transfer that may run at `now` and returns the started
    /// jobs, in start order. Each returned job is drawn from the pending
    /// queue or the elapsed retries and moves into the running set; what is
    /// not drawn stays, in order. No returned job's file was already in
    /// flight, and no two returned jobs address the same file: transfers
    /// for one file never overlap. On return, either every worker is busy
    /// or nothing else is allowed to start.
    #[verifier::loop_isolation(false)]
    #[verifier::rlimit(60)]
    pub fn launch_ready(&mut self, now: u64) -> (cmds: Vec<Job>)
        requires
            old(self).wf(),
        ensures
            final(self).wf(),
            final(self).config == old(self).config,
            final(self).store == old(self).store,
            final(self).registry == old(self).registry,
            final(self).watches == old(self).watches,
            final(self).debouncer == old(self).debouncer,
            forall|k: int| #![trigger cmds@[k]]
                0 <= k < cmds@.len() ==> !running_has_file(
                    old(self).dispatcher.running_model(),
                    job_model(cmds@[k]),
                ) && running_has_file(
                    final(self).dispatcher.running_model(),
                    job_model(cmds@[k]),
                ),
            forall|k1: int, k2: int|
                0 <= k1 < k2 < cmds@.len() ==> !crate::dispatcher::same_file(
                    job_model(cmds@[k1]),
                    job_model(cmds@[k2]),
                ),
            forall|k: int| #![trigger cmds@[k]]
                0 <= k < cmds@.len() ==> old(self).dispatcher.queue_model().contains(
                    job_model(cmds@[k]),
                ) || waiting_jobs(old(self).dispatcher.waiting_model()).contains(
                    job_model(cmds@[k]),
                ),
            final(self).dispatcher.running_model().len() == old(
                self,
            ).dispatcher.running_model().len() + cmds@.len(),
            final(self).dispatcher.running_model().subrange(
                0,
                old(self).dispatcher.running_model().len() as int,
            ) == old(self).dispatcher.running_model(),
            forall|k: int|
                0 <= k < cmds@.len()
                    ==> final(self).dispatcher.running_model()[old(
                    self,
                ).dispatcher.running_model().len() + k].0 == job_model(cmds@[k]),
            is_subsequence(
                final(self).dispatcher.queue_model(),
                old(self).dispatcher.queue_model(),
            ),
            is_subsequence(
                final(self).dispatcher.waiting_model(),
                old(self).dispatcher.waiting_model(),
            ),
            final(self).dispatcher.queue_model().to_multiset().add(
                waiting_jobs(final(self).dispatcher.waiting_model()).to_multiset(),
            ).add(jobs_model(cmds@).to_multiset()) == old(
                self,
            ).dispatcher.queue_model().to_multiset().add(
                waiting_jobs(old(self).dispatcher.waiting_model()).to_multiset(),
            ),
            final(self).dispatcher.running_model().len() == final(self).config.max_workers || ((
            forall|k: int|
                0 <= k < final(self).dispatcher.waiting_model().len() ==> final(self).dispatcher.waiting_model()[k].2 > now) && (forall|j: int|
                !eligible(
                    final(self).dispatcher.queue_model(),
                    final(self).dispatcher.running_model(),
                    final(self).dispatcher.waiting_model(),
                    j,
                ))),
    {
        let ghost rm0 = self.dispatcher.running_model();
        let ghost qm0 = self.dispatcher.queue_model();
        let ghost wm0 = self.dispatcher.waiting_model();
        let mut cmds: Vec<Job> = Vec::new();
        let mut done = false;
        proof {
            broadcast use vstd::seq_lib::group_to_multiset_ensures;
            broadcast use vstd::multiset::group_multiset_axioms;

            lemma_subsequence_refl(qm0);
            lemma_subsequence_refl(wm0);
            assert(jobs_model(cmds@) =~= Seq::<JobModel>::empty());
            assert(jobs_model(cmds@).to_multiset() =~= Multiset::<JobModel>::empty());
            assert(qm0.to_multiset().add(waiting_jobs(wm0).to_multiset()).add(
                Multiset::<JobModel>::empty(),
            ) =~= qm0.to_multiset().add(waiting_jobs(wm0).to_multiset()));
        }
        while !done
            invariant
                self.wf(),
                self.config == old(self).config,
                self.store == old(self).store,
                self.registry == old(self).registry,
                self.watches == old(self).watches,
                self.debouncer == old(self).debouncer,
                self.dispatcher.running_model().len() == rm0.len() + cmds@.len(),
                self.dispatcher.running_model().subrange(0, rm0.len() as int) == rm0,
                forall|k: int|
                    0 <= k < cmds@.len() ==> self.dispatcher.running_model()[rm0.len() + k].0
                        == job_model(cmds@[k]),
                forall|k: int| #![trigger cmds@[k]]
                    0 <= k < cmds@.len() ==> !running_has_file(rm0, job_model(cmds@[k]))
                        && running_has_file(
                        self.dispatcher.running_model(),
                        job_model(cmds@[k]),
                    ),
                forall|k1: int, k2: int|
                    0 <= k1 < k2 < cmds@.len() ==> !crate::dispatcher::same_file(
                        job_model(cmds@[k1]),
                        job_model(cmds@[k2]),
                    ),
                forall|k: int| #![trigger cmds@[k]]
                    0 <= k < cmds@.len() ==> qm0.contains(job_model(cmds@[k]))
                        || waiting_jobs(wm0).contains(job_model(cmds@[k])),
                is_subsequence(self.dispatcher.queue_model(), qm0),
                is_subsequence(self.dispatcher.waiting_model(), wm0),
                self.dispatcher.queue_model().to_multiset().add(
                    waiting_jobs(self.dispatcher.waiting_model()).to_multiset(),
                ).add(jobs_model(cmds@).to_multiset()) == qm0.to_multiset().add(
                    waiting_jobs(wm0).to_multiset(),
                ),
                done ==> self.dispatcher.running_model().len() == self.config.max_workers || ((
                forall|k: int|
                    0 <= k < self.dispatcher.waiting_model().len()
                        ==> self.dispatcher.waiting_model()[k].2 > now) && (forall|j: int|
                    !eligible(
                        self.dispatcher.queue_model(),
                        self.dispatcher.running_model(),
                        self.dispatcher.waiting_model(),
                        j,
                    ))),
            decreases self.dispatcher.queue@.len() + self.dispatcher.waiting@.len() + (if done {
                0int
            } else {
                1int
            }),
        {
            let ghost rpre = self.dispatcher.running_model();
            let ghost qpre = self.dispatcher.queue_model();
            let ghost wpre = self.dispatcher.waiting_model();
            let ghost cpre = cmds@;
            proof {
                assert(qpre.len() == self.dispatcher.queue@.len());
                assert(wpre.len() == self.dispatcher.waiting@.len());
            }
            match self.dispatcher.start_next(now) {
                Some(job) => {
                    proof {
                        let rnow = self.dispatcher.running_model();
                        assert(self.dispatcher.queue_model().len()
                            == self.dispatcher.queue@.len());
                        assert(self.dispatcher.waiting_model().len()
                            == self.dispatcher.waiting@.len());
                        assert(self.dispatcher.queue_model().len()
                            + self.dispatcher.waiting_model().len() + 1 == qpre.len()
                            + wpre.len());
                        assert(rnow.last().0 == job_model(job));
                        assert(running_has_file(rnow, job_model(job)));
                        assert(rnow.subrange(0, rm0.len() as int)
                            =~= rpre.subrange(0, rm0.len() as int));
                        assert forall|k: int| 0 <= k < cmds@.len() implies running_has_file(
                            rnow,
                            job_model(cmds@[k]),
                        ) by {
                            let w = choose|w: int|
                                0 <= w < rpre.len() && crate::dispatcher::same_file(
                                    rpre[w].0,
                                    job_model(cmds@[k]),
                                );
                            assert(rnow[w].0 == rpre[w].0);
                        }
                        assert(!running_has_file(rm0, job_model(job))) by {
                            if running_has_file(rm0, job_model(job)) {
                                let w = choose|w: int|
                                    0 <= w < rm0.len() && crate::dispatcher::same_file(
                                        rm0[w].0,
                                        job_model(job),
                                    );
                                assert(rpre[w].0 == rm0[w].0);
                            }
                        }
                        assert forall|k: int| 0 <= k < cmds@.len() implies !crate::dispatcher::same_file(
                            job_model(cmds@[k]),
                            job_model(job),
                        ) by {
                            let w = choose|w: int|
                                0 <= w < rpre.len() && crate::dispatcher::same_file(
                                    rpre[w].0,
                                    job_model(cmds@[k]),
                                );
                            if crate::dispatcher::same_file(job_model(cmds@[k]), job_model(job)) {
                                assert(crate::dispatcher::same_file(rpre[w].0, job_model(job)));
                            }
                        }
                    }
                    cmds.push(job);
                    proof {
                        broadcast use vstd::seq_lib::group_to_multiset_ensures;
                        broadcast use vstd::multiset::group_multiset_axioms;

                        let qnow = self.dispatcher.queue_model();
                        let wnow = self.dispatcher.waiting_model();
                        let rnow = self.dispatcher.running_model();
                        let jm = job_model(cmds@.last());
                        assert(cmds@.drop_last() =~= cpre);
                        assert(jobs_model(cmds@) =~= jobs_model(cpre).push(jm));
                        assert(jobs_model(cmds@).to_multiset()
                            == jobs_model(cpre).to_multiset().insert(jm));
                        if wnow.len() != wpre.len() {
                            let i = choose|i: int|
                                #![trigger wpre[i]]
                                {
                                    &&& 0 <= i < wpre.len()
                                    &&& wpre[i].2 <= now
                                    &&& (forall|k: int| 0 <= k < i ==> wpre[k].2 > now)
                                    &&& jm == wpre[i].0
                                    &&& wnow == wpre.remove(i)
                                    &&& qnow == qpre
                                    &&& rnow == rpre.push((wpre[i].0, wpre[i].1))
                                };
                            let fw = choose|f: Seq<int>| embeds_into(wpre, wm0, f);
                            assert(wm0[fw[i]] == wpre[i]);
                            assert(waiting_jobs(wm0)[fw[i]] == jm);
                            assert(waiting_jobs(wm0).contains(jm));
                            lemma_subsequence_remove(wpre, wm0, i);
                            assert(waiting_jobs(wnow) =~= waiting_jobs(wpre).remove(i));
                            assert(waiting_jobs(wpre)[i] == jm);
                            assert(waiting_jobs(wpre).to_multiset().count(jm) > 0) by {
                                assert(waiting_jobs(wpre).contains(jm));
                            }
                            assert(waiting_jobs(wnow).to_multiset()
                                == waiting_jobs(wpre).to_multiset().remove(jm));
                            assert(qnow.to_multiset().add(waiting_jobs(wnow).to_multiset()).add(
                                jobs_model(cmds@).to_multiset(),
                            ) =~= qpre.to_multiset().add(
                                waiting_jobs(wpre).to_multiset(),
                            ).add(jobs_model(cpre).to_multiset()));
                        } else {
                            let j = choose|j: int|
                                #![trigger qpre[j]]
                                {
                                    &&& eligible(qpre, rpre, wpre, j)
                                    &&& (forall|k: int| 0 <= k < j ==> !eligible(qpre, rpre, wpre, k))
                                    &&& jm == qpre[j]
                                    &&& qnow == qpre.remove(j)
                                    &&& wnow == wpre
                                    &&& rnow == rpre.push((qpre[j], 0u64))
                                };
                            assert(qpre.contains(jm));
                            lemma_subsequence_contains(qpre, qm0, jm);
                            lemma_subsequence_remove(qpre, qm0, j);
                            assert(qpre.to_multiset().count(jm) > 0);
                            assert(qnow.to_multiset() == qpre.to_multiset().remove(jm));
                            assert(qnow.to_multiset().add(waiting_jobs(wnow).to_multiset()).add(
                                jobs_model(cmds@).to_multiset(),
                            ) =~= qpre.to_multiset().add(
                                waiting_jobs(wpre).to_multiset(),
                            ).add(jobs_model(cpre).to_multiset()));
                        }
                        assert(rnow[rm0.len() + cpre.len() as int].0 == jm);
                    }
                },
                None => {
                    done = true;
                },
            }
        }
        cmds
    }

    /// Applies the reported outcome of an in-flight transfer: resolves it in
    /// the dispatcher and keeps the pair's status in step. A success clears
    /// a prior `Error` status on the pair; exhausting the retry budget sets
    /// `Error`; a permanent failure sets `Paused`, since only operator
    /// action can help. Returns how the transfer was resolved, or `None`
    /// when nothing was in flight for `(pair_id, local_path)`.
    pub fn on_transfer_complete(
        &mut self,
        pair_id: i64,
        local_path: &str,
        outcome: Result<(), TransferError>,
        now: u64,
    ) -> (res: Option<TransferResolution>)
        requires
            old(self).wf(),
            now + old(self).config.max_delay_ms <= u64::MAX,
        ensures
            final(self).wf(),
            final(self).config == old(self).config,
            final(self).registry == old(self).registry,
            final(self).watches == old(self).watches,
            final(self).debouncer == old(self).debouncer,
            final(self).store.next_id == old(self).store.next_id,
            final(self).dispatcher.queue_model() == old(self).dispatcher.queue_model(),
            match res {
                Option::None => {
                    &&& final(self).dispatcher.running_model() == old(self).dispatcher.running_model()
                    &&& final(self).dispatcher.waiting_model() == old(self).dispatcher.waiting_model()
                    &&& !old(self).dispatcher.running_has_key((pair_id, local_path@))
                    &&& final(self).store == old(self).store
                },
                Option::Some(resolution) => exists|i: int|
                    #![trigger old(self).dispatcher.running_model()[i]]
                    {
                        let rm = old(self).dispatcher.running_model();
                        let wm = old(self).dispatcher.waiting_model();
                        let cap = old(self).config.attempt_cap;
                        &&& 0 <= i < rm.len()
                        &&& file_key(rm[i].0) == (pair_id, local_path@)
                        &&& final(self).dispatcher.running_model() == rm.remove(i)
                        &&& match outcome {
                            Result::Ok(u) => resolution == TransferResolution::Succeeded
                                && final(self).dispatcher.waiting_model() == wm,
                            Result::Err(err) => {
                                &&& resolution == failure_resolution(rm[i].1 + 1, cap as int, err)
                                &&& (resolution == TransferResolution::RetryScheduled ==> final(self).dispatcher.waiting_model() == wm.push(
                                    (
                                        rm[i].0,
                                        (rm[i].1 + 1) as u64,
                                        (now + backoff_spec(
                                            old(self).config.base_delay_ms as int,
                                            old(self).config.max_delay_ms as int,
                                            rm[i].1 + 1,
                                        )) as u64,
                                    ),
                                ))
                                &&& (resolution != TransferResolution::RetryScheduled ==> final(self).dispatcher.waiting_model() == wm)
                            },
                        }
                        &&& match resolution {
                            TransferResolution::Succeeded => error_cleared(
                                old(self).store.model(),
                                final(self).store.model(),
                                pair_id,
                            ),
                            TransferResolution::RetryScheduled => final(self).store.model()
                                == old(self).store.model(),
                            TransferResolution::Exhausted => status_applied(
                                old(self).store.model(),
                                final(self).store.model(),
                                pair_id,
                                PairStatus::Error,
                            ),
                            TransferResolution::PermanentFailure => status_applied(
                                old(self).store.model(),
                                final(self).store.model(),
                                pair_id,
                                PairStatus::Paused,
                            ),
                        }
                    },
            },
    {
        let res = self.dispatcher.complete(pair_id, local_path, outcome, now);
        let ghost m0 = self.store.model();
        match res {
            Some(resolution) => {
                match resolution {
                    TransferResolution::Succeeded => {
                        match self.store.find_index(pair_id) {
                            Some(pi) => {
                                if matches!(self.store.pairs[pi].status, PairStatus::Error) {
                                    let found = self.store.set_status(
                                        pair_id,
                                        PairStatus::Active,
                                    );
                                    proof {
                                        lemma_unique_update_pointwise(
                                            m0,
                                            self.store.model(),
                                            pair_id,
                                            PairStatus::Active,
                                        );
                                        assert(error_cleared(m0, self.store.model(), pair_id));
                                    }
                                } else {
                                    proof {
                                        assert forall|j: int|
                                            0 <= j < m0.len() && m0[j].0 == pair_id implies !(
                                        m0[j].4 == PairStatus::Error) by {
                                            if j != pi as int {
                                                assert(m0[pi as int].0 == pair_id);
                                            }
                                        }
                                        assert(error_cleared(m0, self.store.model(), pair_id));
                                    }
                                }
                            },
                            None => {
                                proof {
                                    assert(error_cleared(m0, self.store.model(), pair_id));
                                }
                            },
                        }
                    },
                    TransferResolution::RetryScheduled => {},
                    TransferResolution::Exhausted => {
                        let found = self.store.set_status(pair_id, PairStatus::Error);
                        proof {
                            lemma_unique_update_pointwise(
                                m0,
                                self.store.model(),
                                pair_id,
                                PairStatus::Error,
                            );
                        }
                    },
                    TransferResolution::PermanentFailure => {
                        let found = self.store.set_status(pair_id, PairStatus::Paused);
                        proof {
                            lemma_unique_update_pointwise(
                                m0,
                                self.store.model(),
                                pair_id,
                                PairStatus::Paused,
                            );
                        }
                    },
                }
            },
            None => {},
        }
        res
    }
}

/// With unique identifiers, updating the one record with `id` (or none) is
/// the same as the pointwise description [`status_applied`].
proof fn lemma_unique_update_pointwise(
    m0: Seq<PairModel>,
    m1: Seq<PairModel>,
    id: i64,
    status: PairStatus,
)
    requires
        forall|i: int, j: int| 0 <= i < j < m0.len() ==> m0[i].0 != m0[j].0,
        ((exists|i: int| 0 <= i < m0.len() && m0[i].0 == id) && exists|i: int|
            #![trigger m0[i]]
            {
                &&& 0 <= i < m0.len()
                &&& m0[i].0 == id
                &&& m1 == m0.update(i, (m0[i].0, m0[i].1, m0[i].2, m0[i].3, status, m0[i].5))
            }) || (!(exists|i: int| 0 <= i < m0.len() && m0[i].0 == id) && m1 == m0),
    ensures
        status_applied(m0, m1, id, status),
{
    if exists|i: int| 0 <= i < m0.len() && m0[i].0 == id {
        let i = choose|i: int|
            #![trigger m0[i]]
            {
                &&& 0 <= i < m0.len()
                &&& m0[i].0 == id
                &&& m1 == m0.update(i, (m0[i].0, m0[i].1, m0[i].2, m0[i].3, status, m0[i].5))
            };
        assert forall|j: int| 0 <= j < m0.len() implies #[trigger] m1[j] == (if m0[j].0 == id {
            (m0[j].0, m0[j].1, m0[j].2, m0[j].3, status, m0[j].5)
        } else {
            m0[j]
        }) by {
            if j != i && m0[j].0 == id {
                if j < i {
                    assert(m0[j].0 != m0[i].0);
                } else {
                    assert(m0[i].0 != m0[j].0);
                }
            }
        }
    }
}

} // verus!
