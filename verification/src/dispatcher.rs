//! The transfer dispatcher: decides which transfers start, queues work per
//! file, and applies the retry policy.
//!
//! Guarantees, stated in the contracts below:
//! - at most one transfer is in flight per (pair, local path); a later
//!   change to the same file queues behind the running one;
//! - at most `max_workers` transfers run at once;
//! - a transient failure is retried with exponential backoff up to
//!   `attempt_cap` attempts; exhausting the cap marks the pair `Error`;
//! - a permanent failure is never retried and marks the pair `Paused`.
//!
//! The dispatcher never performs a transfer itself: the surrounding process
//! starts the work [`Dispatcher::start_next`] hands out and reports the
//! outcome back through [`Dispatcher::complete`].

use vstd::prelude::*;
use crate::provider::{TransferError, TransferOp, is_transient_spec};
use crate::text::str_eq;

verus! {

/// One unit of transfer work: mirror `local_path` of the pair to
/// `remote_path` with the given operation, through the provider the pair
/// names.
pub struct Job {
    pub pair_id: i64,
    pub local_path: String,
    pub provider_id: String,
    pub remote_path: String,
    pub op: TransferOp,
}

impl Clone for Job {
    fn clone(&self) -> (r: Self)
        ensures
            job_model(r) == job_model(*self),
    {
        Job {
            pair_id: self.pair_id,
            local_path: self.local_path.clone(),
            provider_id: self.provider_id.clone(),
            remote_path: self.remote_path.clone(),
            op: self.op,
        }
    }
}

/// Mathematical model of a job: pair id, local path view, provider
/// identifier view, remote path view, operation.
pub type JobModel = (i64, Seq<char>, Seq<char>, Seq<char>, TransferOp);

/// Model of one job.
pub open spec fn job_model(j: Job) -> JobModel {
    (j.pair_id, j.local_path@, j.provider_id@, j.remote_path@, j.op)
}

/// Model of a job list, in order.
pub open spec fn jobs_model(s: Seq<Job>) -> Seq<JobModel> {
    s.map_values(|j: Job| job_model(j))
}

/// What identifies a file for concurrency purposes: pair id and local path.
pub type FileKey = (i64, Seq<char>);

/// The file a job addresses.
pub open spec fn file_key(j: JobModel) -> FileKey {
    (j.0, j.1)
}

/// Two jobs address the same file of the same pair.
pub open spec fn same_file(a: JobModel, b: JobModel) -> bool {
    file_key(a) == file_key(b)
}

/// A transfer currently in flight.
pub struct Running {
    pub job: Job,
    /// Attempts already spent on this job before the one in flight.
    pub attempts: u64,
}

/// A failed transfer waiting out its backoff delay.
pub struct Waiting {
    pub job: Job,
    pub attempts: u64,
    pub ready_at: u64,
}

/// Model of the in-flight list: job model and attempts spent.
pub open spec fn running_model(s: Seq<Running>) -> Seq<(JobModel, u64)> {
    s.map_values(|r: Running| (job_model(r.job), r.attempts))
}

/// Model of the backoff list: job model, attempts spent, retry time.
pub open spec fn waiting_model(s: Seq<Waiting>) -> Seq<(JobModel, u64, u64)> {
    s.map_values(|w: Waiting| (job_model(w.job), w.attempts, w.ready_at))
}

/// Whether an in-flight transfer addresses the same file as `key`.
pub open spec fn running_has_file(r: Seq<(JobModel, u64)>, key: JobModel) -> bool {
    exists|i: int| 0 <= i < r.len() && same_file(r[i].0, key)
}

/// The jobs of the backoff list, attempts and retry times stripped.
pub open spec fn waiting_jobs(w: Seq<(JobModel, u64, u64)>) -> Seq<JobModel> {
    w.map_values(|e: (JobModel, u64, u64)| e.0)
}

/// `f` embeds `sub` into `sup`: a strictly increasing choice of positions of
/// `sup` at which the elements of `sub` stand in order.
pub open spec fn embeds_into<A>(sub: Seq<A>, sup: Seq<A>, f: Seq<int>) -> bool {
    &&& f.len() == sub.len()
    &&& forall|k: int| #![trigger f[k]]
        0 <= k < f.len() ==> 0 <= f[k] < sup.len() && sub[k] == sup[f[k]]
    &&& forall|k1: int, k2: int| 0 <= k1 < k2 < f.len() ==> f[k1] < f[k2]
}

/// `sub` is `sup` with some elements removed, order kept.
pub open spec fn is_subsequence<A>(sub: Seq<A>, sup: Seq<A>) -> bool {
    exists|f: Seq<int>| embeds_into(sub, sup, f)
}

/// Every sequence is a subsequence of itself.
pub proof fn lemma_subsequence_refl<A>(s: Seq<A>)
    ensures
        is_subsequence(s, s),
{
    let f = Seq::new(s.len(), |k: int| k);
    assert(embeds_into(s, s, f));
}

/// A subsequence's elements are the original's.
pub proof fn lemma_subsequence_contains<A>(sub: Seq<A>, sup: Seq<A>, x: A)
    requires
        is_subsequence(sub, sup),
        sub.contains(x),
    ensures
        sup.contains(x),
{
    let f = choose|f: Seq<int>| embeds_into(sub, sup, f);
    let k = choose|k: int| 0 <= k < sub.len() && sub[k] == x;
    assert(sup[f[k]] == x);
}

/// Removing one element keeps a subsequence a subsequence.
pub proof fn lemma_subsequence_remove<A>(sub: Seq<A>, sup: Seq<A>, i: int)
    requires
        is_subsequence(sub, sup),
        0 <= i < sub.len(),
    ensures
        is_subsequence(sub.remove(i), sup),
{
    let f = choose|f: Seq<int>| embeds_into(sub, sup, f);
    let f2 = f.remove(i);
    assert(embeds_into(sub.remove(i), sup, f2)) by {
        assert(forall|k: int| #![trigger f2[k]]
            0 <= k < f2.len() ==> f2[k] == (if k < i {
                f[k]
            } else {
                f[k + 1]
            }));
        assert(forall|k: int| #![trigger sub.remove(i)[k]]
            0 <= k < sub.remove(i).len() ==> sub.remove(i)[k] == (if k < i {
                sub[k]
            } else {
                sub[k + 1]
            }));
    }
}

/// Whether a waiting retry addresses the same file as `key`.
pub open spec fn waiting_has_file(w: Seq<(JobModel, u64, u64)>, key: JobModel) -> bool {
    exists|i: int| 0 <= i < w.len() && same_file(w[i].0, key)
}

/// The backoff delay before retry number `k`: the base delay doubled per
/// retry, saturating at the cap.
pub open spec fn backoff_spec(base: int, cap: int, k: int) -> int
    decreases k,
{
    if k <= 1 {
        if base <= cap {
            base
        } else {
            cap
        }
    } else {
        let p = backoff_spec(base, cap, k - 1);
        if p * 2 <= cap {
            p * 2
        } else {
            cap
        }
    }
}

/// How the dispatcher answers a reported transfer failure, given the
/// attempts spent so far (the failed one included): transient failures are
/// retried until the attempt cap, permanent ones never.
pub open spec fn failure_resolution(
    attempts_done: int,
    cap: int,
    err: TransferError,
) -> TransferResolution {
    if !is_transient_spec(err) {
        TransferResolution::PermanentFailure
    } else if attempts_done < cap {
        TransferResolution::RetryScheduled
    } else {
        TransferResolution::Exhausted
    }
}

/// How a completed transfer was resolved.
#[derive(Clone, Copy, Debug, PartialEq, Eq, Structural)]
pub enum TransferResolution {
    /// The transfer succeeded; a prior `Error` status on the pair clears.
    Succeeded,
    /// A transient failure; the job waits out a backoff delay and retries.
    RetryScheduled,
    /// Transient failures exhausted the attempt cap; the pair moves to
    /// `Error`.
    Exhausted,
    /// A permanent (authentication-class) failure; no retry is attempted
    /// and the pair moves to `Paused`.
    PermanentFailure,
}

/// The fate of one job under a sequence of attempt outcomes (`None` is a
/// success, `Some` a failure), starting with `done` attempts already spent:
/// the resolution of the last attempt the policy lets run.
pub open spec fn fate_from(
    outcomes: Seq<Option<TransferError>>,
    done: int,
    cap: int,
) -> TransferResolution
    decreases outcomes.len(),
{
    if outcomes.len() == 0 {
        TransferResolution::RetryScheduled
    } else {
        match outcomes[0] {
            Option::None => TransferResolution::Succeeded,
            Option::Some(err) => {
                let r = failure_resolution(done + 1, cap, err);
                if r == TransferResolution::RetryScheduled && outcomes.len() > 1 {
                    fate_from(outcomes.subrange(1, outcomes.len() as int), done + 1, cap)
                } else {
                    r
                }
            },
        }
    }
}

/// A provider that fails transiently `k` times and then succeeds completes
/// the transfer, as long as the failures stay below the attempt cap.
pub proof fn lemma_transient_then_success(err: TransferError, k: int, done: int, cap: int)
    requires
        is_transient_spec(err),
        0 <= k,
        0 <= done,
        done + k < cap,
    ensures
        fate_from(Seq::new(k as nat, |i: int| Some(err)).push(None), done, cap)
            == TransferResolution::Succeeded,
    decreases k,
{
    let s = Seq::new(k as nat, |i: int| Some(err)).push(None);
    if k == 0 {
        assert(s[0] is None);
    } else {
        assert(s[0] == Some(err));
        assert(failure_resolution(done + 1, cap, err) == TransferResolution::RetryScheduled);
        lemma_transient_then_success(err, k - 1, done + 1, cap);
        assert(s.subrange(1, s.len() as int)
            =~= Seq::new((k - 1) as nat, |i: int| Some(err)).push(None));
    }
}

/// A provider that keeps failing transiently exhausts the attempt cap.
pub proof fn lemma_transient_exhausts(err: TransferError, k: int, done: int, cap: int)
    requires
        is_transient_spec(err),
        1 <= k,
        0 <= done,
        done + k >= cap,
    ensures
        fate_from(Seq::new(k as nat, |i: int| Some(err)), done, cap)
            == TransferResolution::Exhausted,
    decreases k,
{
    let s = Seq::new(k as nat, |i: int| Some(err));
    assert(s[0] == Some(err));
    if done + 1 < cap {
        lemma_transient_exhausts(err, k - 1, done + 1, cap);
        assert(s.subrange(1, s.len() as int)
            =~= Seq::new((k - 1) as nat, |i: int| Some(err)));
    } else {
        assert(failure_resolution(done + 1, cap, err) == TransferResolution::Exhausted);
    }
}

/// A permanent failure resolves the job at once, with zero retries, however
/// many further outcomes would have followed.
pub proof fn lemma_permanent_failure_is_final(
    outcomes: Seq<Option<TransferError>>,
    err: TransferError,
    done: int,
    cap: int,
)
    requires
        !is_transient_spec(err),
        outcomes.len() > 0,
        outcomes[0] == Some(err),
    ensures
        fate_from(outcomes, done, cap) == TransferResolution::PermanentFailure,
{
}

/// A queue entry is eligible to start when no in-flight transfer, waiting
/// retry, or earlier queue entry addresses the same file.
pub open spec fn eligible(
    q: Seq<JobModel>,
    r: Seq<(JobModel, u64)>,
    w: Seq<(JobModel, u64, u64)>,
    j: int,
) -> bool {
    &&& 0 <= j < q.len()
    &&& !running_has_file(r, q[j])
    &&& !waiting_has_file(w, q[j])
    &&& forall|k: int| 0 <= k < j ==> !same_file(q[k], q[j])
}

/// Drives transfers: a bounded worker pool, a per-file in-flight bound, and
/// retry with exponential backoff.
pub struct Dispatcher {
    /// Upper bound on concurrently running transfers.
    pub max_workers: usize,
    /// Upper bound on attempts per job, the first one included.
    pub attempt_cap: u64,
    /// Backoff delay before the first retry, in milliseconds.
    pub base_delay_ms: u64,
    /// Upper bound on the backoff delay, in milliseconds.
    pub max_delay_ms: u64,
    /// Dispatched work not yet started, in dispatch order.
    pub queue: Vec<Job>,
    /// Transfers in flight.
    pub running: Vec<Running>,
    /// Failed transfers waiting out their backoff delay.
    pub waiting: Vec<Waiting>,
}

impl Dispatcher {
    /// Model of the pending queue.
    pub open spec fn queue_model(&self) -> Seq<JobModel> {
        jobs_model(self.queue@)
    }

    /// Model of the in-flight list.
    pub open spec fn running_model(&self) -> Seq<(JobModel, u64)> {
        running_model(self.running@)
    }

    /// Model of the backoff list.
    pub open spec fn waiting_model(&self) -> Seq<(JobModel, u64, u64)> {
        waiting_model(self.waiting@)
    }

    /// The configuration knobs are unchanged.
    pub open spec fn same_config(&self, other: &Dispatcher) -> bool {
        &&& self.max_workers == other.max_workers
        &&& self.attempt_cap == other.attempt_cap
        &&& self.base_delay_ms == other.base_delay_ms
        &&& self.max_delay_ms == other.max_delay_ms
    }

    /// Concurrency is bounded, no two in-flight or waiting entries address
    /// the same file, and no job has spent its attempt budget yet.
    pub open spec fn wf(&self) -> bool {
        &&& self.max_workers >= 1
        &&& self.attempt_cap >= 1
        &&& self.running_model().len() <= self.max_workers
        &&& forall|i: int, j: int|
            0 <= i < j < self.running_model().len()
                ==> !same_file(self.running_model()[i].0, self.running_model()[j].0)
        &&& forall|i: int, j: int|
            0 <= i < j < self.waiting_model().len()
                ==> !same_file(self.waiting_model()[i].0, self.waiting_model()[j].0)
        &&& forall|i: int, j: int|
            0 <= i < self.running_model().len() && 0 <= j < self.waiting_model().len()
                ==> !same_file(self.running_model()[i].0, self.waiting_model()[j].0)
        &&& forall|i: int| #![trigger self.running_model()[i]]
            0 <= i < self.running_model().len()
                ==> self.running_model()[i].1 < self.attempt_cap
        &&& forall|i: int| #![trigger self.waiting_model()[i]]
            0 <= i < self.waiting_model().len()
                ==> self.waiting_model()[i].1 < self.attempt_cap
    }

    /// Whether some in-flight transfer addresses `key`.
    pub open spec fn running_has_key(&self, key: FileKey) -> bool {
        exists|i: int|
            0 <= i < self.running_model().len() && file_key(self.running_model()[i].0) == key
    }

    /// An idle dispatcher with the given policy knobs.
    pub fn new(max_workers: usize, attempt_cap: u64, base_delay_ms: u64, max_delay_ms: u64) -> (r:
        Self)
        requires
            max_workers >= 1,
            attempt_cap >= 1,
        ensures
            r.wf(),
            r.max_workers == max_workers,
            r.attempt_cap == attempt_cap,
            r.base_delay_ms == base_delay_ms,
            r.max_delay_ms == max_delay_ms,
            r.queue_model() == Seq::<JobModel>::empty(),
            r.running_model() == Seq::<(JobModel, u64)>::empty(),
            r.waiting_model() == Seq::<(JobModel, u64, u64)>::empty(),
    {
        let r = Dispatcher {
            max_workers,
            attempt_cap,
            base_delay_ms,
            max_delay_ms,
            queue: Vec::new(),
            running: Vec::new(),
            waiting: Vec::new(),
        };
        proof {
            assert(r.queue_model() =~= Seq::<JobModel>::empty());
            assert(r.running_model() =~= Seq::<(JobModel, u64)>::empty());
            assert(r.waiting_model() =~= Seq::<(JobModel, u64, u64)>::empty());
        }
        r
    }

    /// Queues one unit of transfer work behind everything dispatched before
    /// it.
    pub fn enqueue(&mut self, job: Job)
        requires
            old(self).wf(),
        ensures
            final(self).wf(),
            final(self).same_config(old(self)),
            final(self).queue_model() == old(self).queue_model().push(job_model(job)),
            final(self).running_model() == old(self).running_model(),
            final(self).waiting_model() == old(self).waiting_model(),
    {
        self.queue.push(job);
        proof {
            assert(self.queue_model()
                =~= old(self).queue_model().push(job_model(self.queue@.last())));
            assert(self.running_model() == old(self).running_model());
            assert(self.waiting_model() == old(self).waiting_model());
        }
    }

    /// The backoff delay before retry number `k`, in milliseconds.
    #[verifier::loop_isolation(false)]
    pub fn backoff_ms(&self, k: u64) -> (r: u64)
        requires
            k >= 1,
        ensures
            r as int == backoff_spec(self.base_delay_ms as int, self.max_delay_ms as int, k as int),
            r <= self.max_delay_ms || r == self.base_delay_ms,
    {
        let cap = self.max_delay_ms;
        let mut d: u64 = if self.base_delay_ms <= cap {
            self.base_delay_ms
        } else {
            cap
        };
        let mut i: u64 = 1;
        while i < k
            invariant
                1 <= i <= k,
                d as int == backoff_spec(self.base_delay_ms as int, cap as int, i as int),
                d <= cap,
            decreases k - i,
        {
            if d <= cap / 2 {
                d = d * 2;
            } else {
                d = cap;
            }
            i = i + 1;
        }
        d
    }

    /// Whether a transfer for the same file as `job` is in flight.
    #[verifier::loop_isolation(false)]
    fn file_in_running(&self, job: &Job) -> (r: bool)
        ensures
            r == running_has_file(self.running_model(), job_model(*job)),
    {
        let n = self.running.len();
        let mut i: usize = 0;
        while i < n
            invariant
                i <= n,
                forall|k: int|
                    0 <= k < i ==> !same_file(self.running_model()[k].0, job_model(*job)),
            decreases n - i,
        {
            if self.running[i].job.pair_id == job.pair_id && str_eq(
                self.running[i].job.local_path.as_str(),
                job.local_path.as_str(),
            ) {
                proof {
                    assert(same_file(self.running_model()[i as int].0, job_model(*job)));
                }
                return true;
            }
            i = i + 1;
        }
        false
    }

    /// Whether a retry for the same file as `job` is waiting.
    #[verifier::loop_isolation(false)]
    fn file_in_waiting(&self, job: &Job) -> (r: bool)
        ensures
            r == waiting_has_file(self.waiting_model(), job_model(*job)),
    {
        let n = self.waiting.len();
        let mut i: usize = 0;
        while i < n
            invariant
                i <= n,
                forall|k: int|
                    0 <= k < i ==> !same_file(self.waiting_model()[k].0, job_model(*job)),
            decreases n - i,
        {
            if self.waiting[i].job.pair_id == job.pair_id && str_eq(
                self.waiting[i].job.local_path.as_str(),
                job.local_path.as_str(),
            ) {
                proof {
                    assert(same_file(self.waiting_model()[i as int].0, job_model(*job)));
                }
                return true;
            }
            i = i + 1;
        }
        false
    }

    /// Whether an earlier queue entry addresses the same file as entry `j`.
    #[verifier::loop_isolation(false)]
    fn earlier_same_file(&self, j: usize) -> (r: bool)
        requires
            j < self.queue@.len(),
        ensures
            r == exists|k: int|
                0 <= k < j && same_file(self.queue_model()[k], self.queue_model()[j as int]),
    {
        let mut k: usize = 0;
        while k < j
            invariant
                k <= j,
                j < self.queue@.len(),
                forall|m: int|
                    0 <= m < k
                        ==> !same_file(self.queue_model()[m], self.queue_model()[j as int]),
            decreases j - k,
        {
            if self.queue[k].pair_id == self.queue[j].pair_id && str_eq(
                self.queue[k].local_path.as_str(),
                self.queue[j].local_path.as_str(),
            ) {
                proof {
                    assert(same_file(self.queue_model()[k as int], self.queue_model()[j as int]));
                }
                return true;
            }
            k = k + 1;
        }
        false
    }

    /// Starts the next transfer that may run at `now`, if a worker is free:
    /// first a retry whose backoff has elapsed, then the oldest queued job
    /// whose file has nothing in flight, waiting, or queued before it.
    ///
    /// A returned job's file is never already in flight: a second change to
    /// a file stays queued behind the running transfer.
    #[verifier::loop_isolation(false)]
    pub fn start_next(&mut self, now: u64) -> (r: Option<Job>)
        requires
            old(self).wf(),
        ensures
            final(self).wf(),
            final(self).same_config(old(self)),
            match r {
                Option::None => {
                    &&& final(self).queue_model() == old(self).queue_model()
                    &&& final(self).running_model() == old(self).running_model()
                    &&& final(self).waiting_model() == old(self).waiting_model()
                    &&& (old(self).running_model().len() == old(self).max_workers || ((
                    forall|k: int|
                        0 <= k < old(self).waiting_model().len()
                            ==> old(self).waiting_model()[k].2 > now) && (forall|j: int|
                        !eligible(
                            old(self).queue_model(),
                            old(self).running_model(),
                            old(self).waiting_model(),
                            j,
                        ))))
                },
                Option::Some(job) => {
                    let qm = old(self).queue_model();
                    let rm = old(self).running_model();
                    let wm = old(self).waiting_model();
                    &&& rm.len() < old(self).max_workers
                    &&& !running_has_file(rm, job_model(job))
                    &&& ((exists|i: int|
                        #![trigger wm[i]]
                        {
                            &&& 0 <= i < wm.len()
                            &&& wm[i].2 <= now
                            &&& (forall|k: int| 0 <= k < i ==> wm[k].2 > now)
                            &&& job_model(job) == wm[i].0
                            &&& final(self).waiting_model() == wm.remove(i)
                            &&& final(self).queue_model() == qm
                            &&& final(self).running_model() == rm.push((wm[i].0, wm[i].1))
                        }) || ((forall|k: int| 0 <= k < wm.len() ==> wm[k].2 > now)
                        && (exists|j: int|
                        #![trigger qm[j]]
                        {
                            &&& eligible(qm, rm, wm, j)
                            &&& (forall|k: int| 0 <= k < j ==> !eligible(qm, rm, wm, k))
                            &&& job_model(job) == qm[j]
                            &&& final(self).queue_model() == qm.remove(j)
                            &&& final(self).waiting_model() == wm
                            &&& final(self).running_model() == rm.push((qm[j], 0u64))
                        })))
                },
            },
    {
        let ghost qm = self.queue_model();
        let ghost rm = self.running_model();
        let ghost wm = self.waiting_model();
        if self.running.len() >= self.max_workers {
            return None;
        }
        let nw = self.waiting.len();
        let mut i: usize = 0;
        while i < nw
            invariant
                i <= nw,
                self.same_config(old(self)),
                self.waiting_model() == wm,
                self.running_model() == rm,
                self.queue_model() == qm,
                forall|k: int| 0 <= k < i ==> wm[k].2 > now,
            decreases nw - i,
        {
            if self.waiting[i].ready_at <= now {
                let w = self.waiting.remove(i);
                let started = w.job.clone();
                self.running.push(Running { job: w.job, attempts: w.attempts });
                proof {
                    let gi = i as int;
                    assert(self.waiting_model() =~= wm.remove(gi));
                    assert(self.running_model() =~= rm.push((wm[gi].0, wm[gi].1)));
                    assert(self.queue_model() == qm);
                    assert(rm.len() < old(self).max_workers as int);
                    let fr = self.running_model();
                    let fw = self.waiting_model();
                    assert(forall|b: int|
                        0 <= b < fw.len() ==> fw[b] == (if b < gi {
                            wm[b]
                        } else {
                            wm[b + 1]
                        }));
                    assert forall|a: int, b: int| 0 <= a < b < fr.len() implies !same_file(
                        fr[a].0,
                        fr[b].0,
                    ) by {
                        if b == rm.len() {
                            assert(!same_file(rm[a].0, wm[gi].0));
                        }
                    }
                    assert forall|a: int, b: int|
                        0 <= a < fr.len() && 0 <= b < fw.len() implies !same_file(
                        fr[a].0,
                        fw[b].0,
                    ) by {
                        let bo = if b < gi {
                            b
                        } else {
                            b + 1
                        };
                        if a == rm.len() {
                            if gi < bo {
                                assert(!same_file(wm[gi].0, wm[bo].0));
                            } else {
                                assert(!same_file(wm[bo].0, wm[gi].0));
                            }
                        } else {
                            assert(!same_file(rm[a].0, wm[bo].0));
                        }
                    }
                }
                return Some(started);
            }
            i = i + 1;
        }
        let nq = self.queue.len();
        let mut j: usize = 0;
        while j < nq
            invariant
                j <= nq,
                self.same_config(old(self)),
                self.waiting_model() == wm,
                self.running_model() == rm,
                self.queue_model() == qm,
                forall|k: int| 0 <= k < j ==> !eligible(qm, rm, wm, k),
            decreases nq - j,
        {
            let blocked = self.file_in_running(&self.queue[j]) || self.file_in_waiting(
                &self.queue[j],
            ) || self.earlier_same_file(j);
            if !blocked {
                let q = self.queue.remove(j);
                let started = q.clone();
                self.running.push(Running { job: q, attempts: 0 });
                proof {
                    assert(self.queue_model() =~= qm.remove(j as int));
                    assert(self.running_model() =~= rm.push((qm[j as int], 0u64)));
                    assert(self.waiting_model() == wm);
                    assert(eligible(qm, rm, wm, j as int));
                }
                return Some(started);
            }
            j = j + 1;
        }
        proof {
            assert(forall|k: int| !(0 <= k < qm.len()) ==> !eligible(qm, rm, wm, k));
        }
        None
    }

    /// Applies the reported outcome of the in-flight transfer for
    /// `(pair_id, local_path)` and says how it was resolved; `None` when no
    /// such transfer is in flight.
    ///
    /// A success resolves the job. A transient failure below the attempt
    /// cap schedules a retry after an exponential backoff; at the cap the
    /// job is dropped and the pair is to be marked `Error`. A permanent
    /// failure drops the job at once, with no retry, and the pair is to be
    /// marked `Paused`.
    #[verifier::loop_isolation(false)]
    pub fn complete(
        &mut self,
        pair_id: i64,
        local_path: &str,
        outcome: Result<(), TransferError>,
        now: u64,
    ) -> (res: Option<TransferResolution>)
        requires
            old(self).wf(),
            now + old(self).max_delay_ms <= u64::MAX,
        ensures
            final(self).wf(),
            final(self).same_config(old(self)),
            final(self).queue_model() == old(self).queue_model(),
            match res {
                Option::None => {
                    &&& final(self).running_model() == old(self).running_model()
                    &&& final(self).waiting_model() == old(self).waiting_model()
                    &&& !old(self).running_has_key((pair_id, local_path@))
                },
                Option::Some(resolution) => exists|i: int|
                    #![trigger old(self).running_model()[i]]
                    {
                        let rm = old(self).running_model();
                        let wm = old(self).waiting_model();
                        let cap = old(self).attempt_cap;
                        &&& 0 <= i < rm.len()
                        &&& file_key(rm[i].0) == (pair_id, local_path@)
                        &&& final(self).running_model() == rm.remove(i)
                        &&& match outcome {
                            Result::Ok(u) => resolution == TransferResolution::Succeeded
                                && final(self).waiting_model() == wm,
                            Result::Err(err) => {
                                &&& resolution == failure_resolution(
                                    rm[i].1 + 1,
                                    cap as int,
                                    err,
                                )
                                &&& (resolution == TransferResolution::RetryScheduled
                                    ==> final(self).waiting_model() == wm.push(
                                    (
                                        rm[i].0,
                                        (rm[i].1 + 1) as u64,
                                        (now + backoff_spec(
                                            old(self).base_delay_ms as int,
                                            old(self).max_delay_ms as int,
                                            rm[i].1 + 1,
                                        )) as u64,
                                    ),
                                ))
                                &&& (resolution != TransferResolution::RetryScheduled
                                    ==> final(self).waiting_model() == wm)
                            },
                        }
                    },
            },
    {
        let ghost rm = self.running_model();
        let ghost wm = self.waiting_model();
        let n = self.running.len();
        let mut i: usize = 0;
        while i < n
            invariant
                i <= n,
                self.same_config(old(self)),
                self.running_model() == rm,
                self.waiting_model() == wm,
                self.queue_model() == old(self).queue_model(),
                forall|k: int|
                    0 <= k < i ==> file_key(rm[k].0) != (pair_id, local_path@),
            decreases n - i,
        {
            if self.running[i].job.pair_id == pair_id && str_eq(
                self.running[i].job.local_path.as_str(),
                local_path,
            ) {
                let entry = self.running.remove(i);
                proof {
                    assert(self.running_model() =~= rm.remove(i as int));
                    assert(file_key(rm[i as int].0) == (pair_id, local_path@));
                }
                match outcome {
                    Result::Ok(_) => {
                        return Some(TransferResolution::Succeeded);
                    },
                    Result::Err(err) => {
                        let attempts_done = entry.attempts + 1;
                        if !err.is_transient() {
                            return Some(TransferResolution::PermanentFailure);
                        } else if attempts_done < self.attempt_cap {
                            let delay = self.backoff_ms(attempts_done);
                            self.waiting.push(
                                Waiting {
                                    job: entry.job,
                                    attempts: attempts_done,
                                    ready_at: now + delay,
                                },
                            );
                            proof {
                                let gi = i as int;
                                assert(self.waiting_model() =~= wm.push(
                                    (
                                        rm[gi].0,
                                        attempts_done,
                                        (now + backoff_spec(
                                            self.base_delay_ms as int,
                                            self.max_delay_ms as int,
                                            rm[gi].1 + 1,
                                        )) as u64,
                                    ),
                                ));
                                let fr = self.running_model();
                                let fw = self.waiting_model();
                                assert(forall|a: int|
                                    0 <= a < fr.len() ==> fr[a] == (if a < gi {
                                        rm[a]
                                    } else {
                                        rm[a + 1]
                                    }));
                                assert forall|a: int, b: int|
                                    0 <= a < b < fw.len() implies !same_file(
                                    fw[a].0,
                                    fw[b].0,
                                ) by {
                                    if b == wm.len() {
                                        assert(!same_file(rm[gi].0, wm[a].0));
                                    }
                                }
                                assert forall|a: int, b: int|
                                    0 <= a < fr.len() && 0 <= b < fw.len() implies !same_file(
                                    fr[a].0,
                                    fw[b].0,
                                ) by {
                                    let ao = if a < gi {
                                        a
                                    } else {
                                        a + 1
                                    };
                                    if b == wm.len() {
                                        if ao < gi {
                                            assert(!same_file(rm[ao].0, rm[gi].0));
                                        } else {
                                            assert(!same_file(rm[gi].0, rm[ao].0));
                                        }
                                    } else {
                                        assert(!same_file(rm[ao].0, wm[b].0));
                                    }
                                }
                            }
                            return Some(TransferResolution::RetryScheduled);
                        } else {
                            return Some(TransferResolution::Exhausted);
                        }
                    },
                }
            }
            i = i + 1;
        }
        None
    }
}

} // verus!
