//! The sync pair store: the in-memory authority over configured pairs.
//!
//! Identifiers are assigned from a monotone counter and never reused; the
//! persistent copy of the records is written by the surrounding process from
//! the snapshots this store hands out.

use vstd::prelude::*;
use crate::models::{PairModel, PairStatus, SyncPair, pairs_model};
use crate::text::str_eq;

verus! {

/// Durable record of configured sync pairs.
pub struct PairStore {
    /// The identifier the next created pair receives.
    pub next_id: i64,
    /// The configured pairs, in creation order.
    pub pairs: Vec<SyncPair>,
}

impl PairStore {
    /// Model: the pair records in creation order.
    pub open spec fn model(&self) -> Seq<PairModel> {
        pairs_model(self.pairs@)
    }

    /// Identifiers are positive, unique, and below the counter.
    pub open spec fn wf(&self) -> bool {
        &&& self.next_id >= 1
        &&& forall|i: int| #![trigger self.model()[i]]
            0 <= i < self.model().len() ==> 1 <= self.model()[i].0 < self.next_id
        &&& forall|i: int, j: int|
            0 <= i < j < self.model().len() ==> self.model()[i].0 != self.model()[j].0
    }

    /// An empty store; the first pair will receive identifier 1.
    pub fn new() -> (r: Self)
        ensures
            r.wf(),
            r.model() == Seq::<PairModel>::empty(),
            r.next_id == 1,
    {
        let r = PairStore { next_id: 1, pairs: Vec::new() };
        proof {
            assert(r.model() =~= Seq::<PairModel>::empty());
        }
        r
    }

    /// Creates a pair in `Pending` status and returns its fresh identifier.
    pub fn create(
        &mut self,
        local: String,
        remote: String,
        provider: String,
        created_at: i64,
    ) -> (id: i64)
        requires
            old(self).wf(),
            old(self).next_id < i64::MAX,
        ensures
            final(self).wf(),
            id == old(self).next_id,
            final(self).next_id == old(self).next_id + 1,
            final(self).model() == old(self).model().push(
                (id, local@, remote@, provider@, PairStatus::Pending, created_at),
            ),
    {
        let id = self.next_id;
        self.next_id = self.next_id + 1;
        self.pairs.push(
            SyncPair {
                id,
                local_path: local,
                remote_path: remote,
                provider_id: provider,
                status: PairStatus::Pending,
                created_at,
            },
        );
        proof {
            assert(self.model() =~= old(self).model().push(
                (id, local@, remote@, provider@, PairStatus::Pending, created_at),
            ));
        }
        id
    }

    /// A point-in-time snapshot of all pairs.
    #[verifier::loop_isolation(false)]
    pub fn list(&self) -> (r: Vec<SyncPair>)
        ensures
            pairs_model(r@) == self.model(),
    {
        let mut r: Vec<SyncPair> = Vec::new();
        let n = self.pairs.len();
        let mut i: usize = 0;
        while i < n
            invariant
                i <= n,
                pairs_model(r@) == self.model().subrange(0, i as int),
            decreases n - i,
        {
            let ghost before = pairs_model(r@);
            r.push(self.pairs[i].clone());
            proof {
                assert(pairs_model(r@) =~= before.push(self.model()[i as int]));
                assert(self.model().subrange(0, i as int + 1)
                    =~= self.model().subrange(0, i as int).push(self.model()[i as int]));
            }
            i = i + 1;
        }
        proof {
            assert(self.model().subrange(0, n as int) =~= self.model());
        }
        r
    }

    /// Index of the pair with the given identifier, if configured.
    #[verifier::loop_isolation(false)]
    pub fn find_index(&self, id: i64) -> (r: Option<usize>)
        ensures
            match r {
                Some(i) => (i as int) < self.model().len() && self.model()[i as int].0 == id,
                None => forall|j: int|
                    0 <= j < self.model().len() ==> self.model()[j].0 != id,
            },
    {
        let n = self.pairs.len();
        let mut i: usize = 0;
        while i < n
            invariant
                i <= n,
                forall|j: int| 0 <= j < i ==> self.model()[j].0 != id,
            decreases n - i,
        {
            if self.pairs[i].id == id {
                return Some(i);
            }
            i = i + 1;
        }
        None
    }

    /// Activates every `Pending` pair whose local root is `root`: its watch
    /// subscription now exists, so the pair may take part in resolution.
    #[verifier::loop_isolation(false)]
    pub fn activate_pending(&mut self, root: &str)
        requires
            old(self).wf(),
        ensures
            final(self).wf(),
            final(self).next_id == old(self).next_id,
            final(self).model().len() == old(self).model().len(),
            forall|i: int| #![trigger final(self).model()[i]]
                0 <= i < old(self).model().len() ==> final(self).model()[i] == (
                if old(self).model()[i].1 == root@ && old(self).model()[i].4
                    == PairStatus::Pending {
                    (
                        old(self).model()[i].0,
                        old(self).model()[i].1,
                        old(self).model()[i].2,
                        old(self).model()[i].3,
                        PairStatus::Active,
                        old(self).model()[i].5,
                    )
                } else {
                    old(self).model()[i]
                }),
    {
        let ghost m0 = self.model();
        let n = self.pairs.len();
        let mut i: usize = 0;
        while i < n
            invariant
                i <= n,
                n == self.pairs@.len(),
                self.next_id == old(self).next_id,
                self.model().len() == m0.len(),
                forall|j: int| #![trigger self.model()[j]]
                    0 <= j < i ==> self.model()[j] == (if m0[j].1 == root@ && m0[j].4
                        == PairStatus::Pending {
                        (m0[j].0, m0[j].1, m0[j].2, m0[j].3, PairStatus::Active, m0[j].5)
                    } else {
                        m0[j]
                    }),
                forall|j: int| #![trigger self.model()[j]]
                    i <= j < n ==> self.model()[j] == m0[j],
            decreases n - i,
        {
            let hit = matches!(self.pairs[i].status, PairStatus::Pending) && str_eq(
                self.pairs[i].local_path.as_str(),
                root,
            );
            if hit {
                let ghost mcur = self.model();
                proof {
                    assert(mcur[i as int] == m0[i as int]);
                    assert(forall|j: int|
                        0 <= j < i ==> mcur[j] == #[trigger] self.model()[j]);
                }
                let e = self.pairs.remove(i);
                self.pairs.insert(
                    i,
                    SyncPair {
                        id: e.id,
                        local_path: e.local_path,
                        remote_path: e.remote_path,
                        provider_id: e.provider_id,
                        status: PairStatus::Active,
                        created_at: e.created_at,
                    },
                );
                proof {
                    assert(self.model() =~= mcur.update(
                        i as int,
                        (m0[i as int].0, m0[i as int].1, m0[i as int].2, m0[i as int].3, PairStatus::Active, m0[i as int].5),
                    ));
                }
            }
            i = i + 1;
        }
    }

    /// Sets the status of the pair with the given identifier. Returns
    /// whether such a pair exists; everything else is left unchanged.
    #[verifier::loop_isolation(false)]
    pub fn set_status(&mut self, id: i64, status: PairStatus) -> (found: bool)
        requires
            old(self).wf(),
        ensures
            final(self).wf(),
            final(self).next_id == old(self).next_id,
            found == exists|i: int|
                0 <= i < old(self).model().len() && old(self).model()[i].0 == id,
            !found ==> final(self).model() == old(self).model(),
            found ==> exists|i: int|
                #![trigger old(self).model()[i]]
                {
                    let m = old(self).model();
                    &&& 0 <= i < m.len()
                    &&& m[i].0 == id
                    &&& final(self).model() == m.update(
                        i,
                        (m[i].0, m[i].1, m[i].2, m[i].3, status, m[i].5),
                    )
                },
    {
        let ghost m0 = self.model();
        let n = self.pairs.len();
        let mut i: usize = 0;
        while i < n
            invariant
                i <= n,
                self.model() == m0,
                self.next_id == old(self).next_id,
                forall|j: int| 0 <= j < i ==> m0[j].0 != id,
            decreases n - i,
        {
            if self.pairs[i].id == id {
                let e = self.pairs.remove(i);
                self.pairs.insert(
                    i,
                    SyncPair {
                        id: e.id,
                        local_path: e.local_path,
                        remote_path: e.remote_path,
                        provider_id: e.provider_id,
                        status,
                        created_at: e.created_at,
                    },
                );
                proof {
                    assert(self.model() =~= m0.update(
                        i as int,
                        (m0[i as int].0, m0[i as int].1, m0[i as int].2, m0[i as int].3, status, m0[i as int].5),
                    ));
                }
                return true;
            }
            i = i + 1;
        }
        false
    }
}

} // verus!
