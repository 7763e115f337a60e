//! Raw filesystem change events and the debouncer/coalescer that collapses
//! a burst of events on one path into a single logical change.
//!
//! The debouncer keeps at most one pending entry per path. A new raw event
//! for a path restarts that path's window and folds its kind into the entry
//! with [`combine_spec`]; entries whose window has elapsed are handed out by
//! [`Debouncer::take_due`]. The whole behaviour is pinned to a mathematical
//! model: a sequence of `(path view, kind, deadline)` triples transformed by
//! [`model_offer`], [`model_due`] and [`model_live`].

use vstd::prelude::*;
use crate::text::str_eq;

verus! {

/// Kind of a raw filesystem change.
#[derive(Clone, Copy, Debug, PartialEq, Eq, Structural)]
pub enum ChangeKind {
    Created,
    Modified,
    Deleted,
    Renamed,
}

/// A raw change event as the filesystem watcher reports it.
///
/// `renamed_from` carries the old path and is present exactly when the kind
/// is `Renamed`; `path` is then the new path.
pub struct ChangeEvent {
    pub kind: ChangeKind,
    pub path: String,
    pub renamed_from: Option<String>,
    pub observed_at: u64,
}

impl ChangeEvent {
    /// A well-formed event carries an old path exactly when it is a rename.
    pub open spec fn wf(&self) -> bool {
        (self.kind == ChangeKind::Renamed) == (self.renamed_from is Some)
    }
}

/// Precedence when folding a later raw event's kind into a pending one:
/// a deletion cancels whatever was pending; a modification after a pending
/// creation keeps the creation; otherwise the later kind stands.
pub open spec fn combine_spec(pending: ChangeKind, incoming: ChangeKind) -> ChangeKind {
    if incoming == ChangeKind::Deleted {
        ChangeKind::Deleted
    } else if pending == ChangeKind::Created && incoming == ChangeKind::Modified {
        ChangeKind::Created
    } else {
        incoming
    }
}

/// Executable form of [`combine_spec`].
pub fn combine(pending: ChangeKind, incoming: ChangeKind) -> (r: ChangeKind)
    ensures
        r == combine_spec(pending, incoming),
{
    if incoming == ChangeKind::Deleted {
        ChangeKind::Deleted
    } else if pending == ChangeKind::Created && incoming == ChangeKind::Modified {
        ChangeKind::Created
    } else {
        incoming
    }
}

/// A coalesced change waiting for its debounce window to elapse.
pub struct PendingChange {
    pub path: String,
    pub kind: ChangeKind,
    pub deadline: u64,
}

impl Clone for PendingChange {
    fn clone(&self) -> (r: Self)
        ensures
            r.path@ == self.path@,
            r.kind == self.kind,
            r.deadline == self.deadline,
    {
        PendingChange { path: self.path.clone(), kind: self.kind, deadline: self.deadline }
    }
}

/// Mathematical model of one pending entry: path view, kind, deadline.
pub type Pending = (Seq<char>, ChangeKind, u64);

/// Model of a pending list: the view of each entry, in order.
pub open spec fn pending_model(s: Seq<PendingChange>) -> Seq<Pending> {
    s.map_values(|e: PendingChange| (e.path@, e.kind, e.deadline))
}

/// Whether some entry of the model is for `path`.
pub open spec fn has_path(m: Seq<Pending>, path: Seq<char>) -> bool {
    exists|i: int| 0 <= i < m.len() && m[i].0 == path
}

/// No two entries of the model share a path.
pub open spec fn distinct_paths(m: Seq<Pending>) -> bool {
    forall|i: int, j: int| 0 <= i < j < m.len() ==> m[i].0 != m[j].0
}

/// Effect of offering one raw event to the pending list: the first entry for
/// the same path is folded with [`combine_spec`] and its window restarted;
/// with no such entry a fresh one is appended.
pub open spec fn model_offer(
    m: Seq<Pending>,
    path: Seq<char>,
    kind: ChangeKind,
    deadline: u64,
) -> Seq<Pending>
    decreases m.len(),
{
    if m.len() == 0 {
        seq![(path, kind, deadline)]
    } else if m[0].0 == path {
        seq![(path, combine_spec(m[0].1, kind), deadline)] + m.subrange(1, m.len() as int)
    } else {
        seq![m[0]] + model_offer(m.subrange(1, m.len() as int), path, kind, deadline)
    }
}

/// The entries whose window has elapsed at `now`, in order.
pub open spec fn model_due(m: Seq<Pending>, now: u64) -> Seq<Pending>
    decreases m.len(),
{
    if m.len() == 0 {
        Seq::<Pending>::empty()
    } else {
        let init = model_due(m.drop_last(), now);
        if m.last().2 <= now {
            init.push(m.last())
        } else {
            init
        }
    }
}

/// The entries still waiting at `now`, in order.
pub open spec fn model_live(m: Seq<Pending>, now: u64) -> Seq<Pending>
    decreases m.len(),
{
    if m.len() == 0 {
        Seq::<Pending>::empty()
    } else {
        let init = model_live(m.drop_last(), now);
        if m.last().2 <= now {
            init
        } else {
            init.push(m.last())
        }
    }
}

/// Every path found in the due part was present before.
pub proof fn lemma_model_due_has_path(m: Seq<Pending>, now: u64, path: Seq<char>)
    requires
        has_path(model_due(m, now), path),
    ensures
        has_path(m, path),
    decreases m.len(),
{
    if m.len() > 0 {
        let d = model_due(m, now);
        let init = model_due(m.drop_last(), now);
        if m.last().2 <= now {
            let k = choose|k: int| 0 <= k < d.len() && d[k].0 == path;
            if k < init.len() {
                lemma_model_due_has_path(m.drop_last(), now, path);
                let i = choose|i: int| 0 <= i < m.drop_last().len() && m.drop_last()[i].0 == path;
                assert(m[i].0 == path);
            } else {
                assert(m[m.len() - 1].0 == path);
            }
        } else {
            lemma_model_due_has_path(m.drop_last(), now, path);
            let i = choose|i: int| 0 <= i < m.drop_last().len() && m.drop_last()[i].0 == path;
            assert(m[i].0 == path);
        }
    }
}

/// Every path found in the live part was present before.
pub proof fn lemma_model_live_has_path(m: Seq<Pending>, now: u64, path: Seq<char>)
    requires
        has_path(model_live(m, now), path),
    ensures
        has_path(m, path),
    decreases m.len(),
{
    if m.len() > 0 {
        let d = model_live(m, now);
        let init = model_live(m.drop_last(), now);
        if m.last().2 > now {
            let k = choose|k: int| 0 <= k < d.len() && d[k].0 == path;
            if k < init.len() {
                lemma_model_live_has_path(m.drop_last(), now, path);
                let i = choose|i: int| 0 <= i < m.drop_last().len() && m.drop_last()[i].0 == path;
                assert(m[i].0 == path);
            } else {
                assert(m[m.len() - 1].0 == path);
            }
        } else {
            lemma_model_live_has_path(m.drop_last(), now, path);
            let i = choose|i: int| 0 <= i < m.drop_last().len() && m.drop_last()[i].0 == path;
            assert(m[i].0 == path);
        }
    }
}

/// Splitting a distinct-path model keeps both parts distinct.
pub proof fn lemma_model_split_distinct(m: Seq<Pending>, now: u64)
    requires
        distinct_paths(m),
    ensures
        distinct_paths(model_due(m, now)),
        distinct_paths(model_live(m, now)),
    decreases m.len(),
{
    if m.len() > 0 {
        let front = m.drop_last();
        assert(distinct_paths(front)) by {
            assert(forall|i: int, j: int|
                0 <= i < j < front.len() ==> front[i] == m[i] && front[j] == m[j]);
        }
        lemma_model_split_distinct(front, now);
        let last = m.last();
        assert(forall|i: int| 0 <= i < front.len() ==> front[i].0 != last.0) by {
            assert(forall|i: int| 0 <= i < front.len() ==> m[i] == front[i]);
        }
        if has_path(model_due(front, now), last.0) {
            lemma_model_due_has_path(front, now, last.0);
        }
        if has_path(model_live(front, now), last.0) {
            lemma_model_live_has_path(front, now, last.0);
        }
    }
}

/// Folding into the first entry for `path` is an update at that index.
pub proof fn lemma_model_offer_found(
    m: Seq<Pending>,
    path: Seq<char>,
    kind: ChangeKind,
    deadline: u64,
    i: int,
)
    requires
        0 <= i < m.len(),
        m[i].0 == path,
        forall|j: int| 0 <= j < i ==> m[j].0 != path,
    ensures
        model_offer(m, path, kind, deadline)
            == m.update(i, (path, combine_spec(m[i].1, kind), deadline)),
    decreases i,
{
    let entry = (path, combine_spec(m[i].1, kind), deadline);
    if i == 0 {
        assert(model_offer(m, path, kind, deadline)
            =~= m.update(0, entry));
    } else {
        let rest = m.subrange(1, m.len() as int);
        assert(rest[i - 1].0 == path);
        lemma_model_offer_found(rest, path, kind, deadline, i - 1);
        assert(model_offer(m, path, kind, deadline)
            == seq![m[0]] + rest.update(i - 1, entry));
        assert(seq![m[0]] + rest.update(i - 1, entry) =~= m.update(i, entry));
    }
}

/// With no entry for `path`, offering appends a fresh one.
pub proof fn lemma_model_offer_absent(
    m: Seq<Pending>,
    path: Seq<char>,
    kind: ChangeKind,
    deadline: u64,
)
    requires
        forall|j: int| 0 <= j < m.len() ==> m[j].0 != path,
    ensures
        model_offer(m, path, kind, deadline) == m.push((path, kind, deadline)),
    decreases m.len(),
{
    if m.len() == 0 {
        assert(model_offer(m, path, kind, deadline) =~= m.push((path, kind, deadline)));
    } else {
        let rest = m.subrange(1, m.len() as int);
        lemma_model_offer_absent(rest, path, kind, deadline);
        assert(seq![m[0]] + rest.push((path, kind, deadline))
            =~= m.push((path, kind, deadline)));
    }
}

/// Collapses bursts of raw events per path within a sliding window.
pub struct Debouncer {
    /// Width of the debounce window in milliseconds.
    pub window_ms: u64,
    /// At most one coalesced pending change per path.
    pub pending: Vec<PendingChange>,
}

impl Debouncer {
    /// Model of the pending list.
    pub open spec fn model(&self) -> Seq<Pending> {
        pending_model(self.pending@)
    }

    /// Pending entries are per-path unique and never of kind `Renamed`.
    pub open spec fn wf(&self) -> bool {
        &&& distinct_paths(self.model())
        &&& forall|i: int|
            0 <= i < self.model().len() ==> self.model()[i].1 != ChangeKind::Renamed
    }

    /// A fresh debouncer with the given window and nothing pending.
    pub fn new(window_ms: u64) -> (r: Self)
        ensures
            r.wf(),
            r.window_ms == window_ms,
            r.model() == Seq::<Pending>::empty(),
    {
        let r = Debouncer { window_ms, pending: Vec::new() };
        proof {
            assert(r.model() =~= Seq::<Pending>::empty());
        }
        r
    }

    /// Feeds one raw event into the debouncer: restarts the path's window
    /// and folds the kind by [`combine_spec`], or starts a fresh entry.
    #[verifier::loop_isolation(false)]
    pub fn offer(&mut self, path: String, kind: ChangeKind, now: u64)
        requires
            old(self).wf(),
            kind != ChangeKind::Renamed,
            now + old(self).window_ms <= u64::MAX,
        ensures
            final(self).wf(),
            final(self).window_ms == old(self).window_ms,
            final(self).model() == model_offer(
                old(self).model(),
                path@,
                kind,
                (now + old(self).window_ms) as u64,
            ),
    {
        let deadline = now + self.window_ms;
        let ghost m0 = self.model();
        let n = self.pending.len();
        let mut i: usize = 0;
        while i < n
            invariant
                n == self.pending.len(),
                i <= n,
                self.model() == m0,
                self.window_ms == old(self).window_ms,
                forall|j: int| 0 <= j < i ==> m0[j].0 != path@,
            decreases n - i,
        {
            if str_eq(self.pending[i].path.as_str(), path.as_str()) {
                let e = self.pending.remove(i);
                let folded = combine(e.kind, kind);
                self.pending.insert(
                    i,
                    PendingChange { path: e.path, kind: folded, deadline },
                );
                proof {
                    let entry = (path@, combine_spec(m0[i as int].1, kind), deadline);
                    assert(self.model() =~= m0.update(i as int, entry));
                    lemma_model_offer_found(m0, path@, kind, deadline, i as int);
                }
                return ;
            }
            i = i + 1;
        }
        self.pending.push(PendingChange { path, kind, deadline });
        proof {
            assert(self.model() =~= m0.push((path@, kind, deadline)));
            lemma_model_offer_absent(m0, path@, kind, deadline);
        }
    }

    /// Removes and returns the coalesced changes whose window has elapsed
    /// at `now`, keeping the rest in order.
    #[verifier::loop_isolation(false)]
    pub fn take_due(&mut self, now: u64) -> (due: Vec<PendingChange>)
        requires
            old(self).wf(),
        ensures
            final(self).wf(),
            final(self).window_ms == old(self).window_ms,
            pending_model(due@) == model_due(old(self).model(), now),
            final(self).model() == model_live(old(self).model(), now),
            forall|k: int|
                0 <= k < due@.len() ==> pending_model(due@)[k].2 <= now,
    {
        let ghost m0 = self.model();
        let mut due: Vec<PendingChange> = Vec::new();
        let mut kept: Vec<PendingChange> = Vec::new();
        let n = self.pending.len();
        let mut i: usize = 0;
        while i < n
            invariant
                n == self.pending.len(),
                i <= n,
                self.model() == m0,
                self.window_ms == old(self).window_ms,
                pending_model(due@) == model_due(m0.subrange(0, i as int), now),
                pending_model(kept@) == model_live(m0.subrange(0, i as int), now),
                forall|k: int|
                    0 <= k < due@.len() ==> pending_model(due@)[k].2 <= now,
            decreases n - i,
        {
            let ghost pre = m0.subrange(0, i as int);
            let ghost post = m0.subrange(0, i as int + 1);
            proof {
                assert(post.drop_last() =~= pre);
                assert(post.last() == m0[i as int]);
            }
            let e = &self.pending[i];
            if e.deadline <= now {
                let ghost before = pending_model(due@);
                due.push(e.clone());
                proof {
                    assert(pending_model(due@) =~= before.push(m0[i as int]));
                }
            } else {
                let ghost before = pending_model(kept@);
                kept.push(e.clone());
                proof {
                    assert(pending_model(kept@) =~= before.push(m0[i as int]));
                }
            }
            i = i + 1;
        }
        proof {
            assert(m0.subrange(0, n as int) =~= m0);
        }
        self.pending = kept;
        proof {
            lemma_model_split_distinct(m0, now);
            assert forall|k: int| 0 <= k < self.model().len()
                implies self.model()[k].1 != ChangeKind::Renamed by {
                lemma_model_live_kinds(m0, now, k);
            }
        }
        due
    }
}

/// Every kind in the live part comes from the model it was split from.
pub proof fn lemma_model_live_kinds(m: Seq<Pending>, now: u64, k: int)
    requires
        0 <= k < model_live(m, now).len(),
        forall|i: int| 0 <= i < m.len() ==> m[i].1 != ChangeKind::Renamed,
    ensures
        model_live(m, now)[k].1 != ChangeKind::Renamed,
    decreases m.len(),
{
    if m.len() > 0 {
        let front = m.drop_last();
        let init = model_live(front, now);
        assert(forall|i: int| 0 <= i < front.len() ==> front[i] == m[i]);
        if m.last().2 > now && k == init.len() {
            assert(model_live(m, now)[k] == m.last());
        } else {
            lemma_model_live_kinds(front, now, k);
        }
    }
}

/// A burst of repeated modifications on one path coalesces to exactly one
/// pending `Modified` change, emitted once its window elapses.
pub proof fn lemma_modified_burst_coalesces(
    path: Seq<char>,
    d1: u64,
    d2: u64,
    d3: u64,
    now: u64,
)
    requires
        d3 <= now,
    ensures
        ({
            let m1 = model_offer(Seq::<Pending>::empty(), path, ChangeKind::Modified, d1);
            let m2 = model_offer(m1, path, ChangeKind::Modified, d2);
            let m3 = model_offer(m2, path, ChangeKind::Modified, d3);
            model_due(m3, now) == seq![(path, ChangeKind::Modified, d3)]
        }),
{
    let m1 = model_offer(Seq::<Pending>::empty(), path, ChangeKind::Modified, d1);
    assert(m1 == seq![(path, ChangeKind::Modified, d1)]);
    let m2 = model_offer(m1, path, ChangeKind::Modified, d2);
    assert(m2 =~= seq![(path, ChangeKind::Modified, d2)]);
    let m3 = model_offer(m2, path, ChangeKind::Modified, d3);
    assert(m3 =~= seq![(path, ChangeKind::Modified, d3)]);
    assert(m3.drop_last() =~= Seq::<Pending>::empty());
    assert(model_due(m3.drop_last(), now) =~= Seq::<Pending>::empty());
    assert(model_due(m3, now) =~= seq![(path, ChangeKind::Modified, d3)]);
}

/// A creation followed by a deletion within the window coalesces to exactly
/// one pending `Deleted` change: nothing is ever emitted for the transient
/// creation.
pub proof fn lemma_create_then_delete_coalesces(path: Seq<char>, d1: u64, d2: u64, now: u64)
    requires
        d2 <= now,
    ensures
        ({
            let m1 = model_offer(Seq::<Pending>::empty(), path, ChangeKind::Created, d1);
            let m2 = model_offer(m1, path, ChangeKind::Deleted, d2);
            model_due(m2, now) == seq![(path, ChangeKind::Deleted, d2)]
        }),
{
    let m1 = model_offer(Seq::<Pending>::empty(), path, ChangeKind::Created, d1);
    assert(m1 == seq![(path, ChangeKind::Created, d1)]);
    let m2 = model_offer(m1, path, ChangeKind::Deleted, d2);
    assert(m2 =~= seq![(path, ChangeKind::Deleted, d2)]);
    assert(m2.drop_last() =~= Seq::<Pending>::empty());
    assert(model_due(m2.drop_last(), now) =~= Seq::<Pending>::empty());
    assert(model_due(m2, now) =~= seq![(path, ChangeKind::Deleted, d2)]);
}

} // verus!
