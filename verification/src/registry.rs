//! The provider registry: which backend identifiers are currently bound.
//!
//! The concrete backend objects live outside the library; the pipeline only
//! needs to know which identifiers are registered. Registration is additive:
//! re-registering an identifier (a credential refresh replacing the binding)
//! leaves the set of known identifiers unchanged.

use vstd::prelude::*;
use crate::text::str_eq;

verus! {

/// The set of registered provider identifiers, in registration order.
pub struct ProviderRegistry {
    pub ids: Vec<String>,
}

impl ProviderRegistry {
    /// Model: the identifier views in registration order.
    pub open spec fn model(&self) -> Seq<Seq<char>> {
        self.ids@.map_values(|s: String| s@)
    }

    /// No identifier is listed twice.
    pub open spec fn wf(&self) -> bool {
        forall|i: int, j: int|
            0 <= i < j < self.model().len() ==> self.model()[i] != self.model()[j]
    }

    /// Whether `id` is registered.
    pub open spec fn registered(&self, id: Seq<char>) -> bool {
        exists|i: int| 0 <= i < self.model().len() && self.model()[i] == id
    }

    /// An empty registry.
    pub fn new() -> (r: Self)
        ensures
            r.wf(),
            r.model() == Seq::<Seq<char>>::empty(),
    {
        let r = ProviderRegistry { ids: Vec::new() };
        proof {
            assert(r.model() =~= Seq::<Seq<char>>::empty());
        }
        r
    }

    /// Registers a provider identifier. A fresh identifier is appended;
    /// re-registering an existing one replaces its binding outside the
    /// library and leaves the identifier set unchanged.
    #[verifier::loop_isolation(false)]
    pub fn register(&mut self, id: String)
        requires
            old(self).wf(),
        ensures
            final(self).wf(),
            final(self).registered(id@),
            old(self).registered(id@) ==> final(self).model() == old(self).model(),
            !old(self).registered(id@) ==> final(self).model() == old(self).model().push(id@),
    {
        let ghost m0 = self.model();
        let n = self.ids.len();
        let mut i: usize = 0;
        while i < n
            invariant
                i <= n,
                self.model() == m0,
                forall|j: int| 0 <= j < i ==> m0[j] != id@,
            decreases n - i,
        {
            if str_eq(self.ids[i].as_str(), id.as_str()) {
                proof {
                    assert(self.model()[i as int] == id@);
                }
                return ;
            }
            i = i + 1;
        }
        self.ids.push(id);
        proof {
            assert(self.model() =~= m0.push(id@));
            assert(self.model()[m0.len() as int] == id@);
        }
    }

    /// Whether `id` resolves to a registered provider.
    #[verifier::loop_isolation(false)]
    pub fn resolve(&self, id: &str) -> (r: bool)
        ensures
            r == self.registered(id@),
    {
        let n = self.ids.len();
        let mut i: usize = 0;
        while i < n
            invariant
                i <= n,
                forall|j: int| 0 <= j < i ==> self.model()[j] != id@,
            decreases n - i,
        {
            if str_eq(self.ids[i].as_str(), id) {
                proof {
                    assert(self.model()[i as int] == id@);
                }
                return true;
            }
            i = i + 1;
        }
        false
    }
}

} // verus!
