//! The island-management collaborator: tracks which bodies it currently
//! references (its active lists), and detaches a body when the store
//! removes it, so no dangling reference survives a removal.
use vstd::prelude::*;

use crate::utils::FlatHandle;

verus! {

/// `s` with every occurrence of `h` dropped, order of the rest kept.
pub open spec fn spec_without(s: Seq<FlatHandle>, h: FlatHandle) -> Seq<FlatHandle>
    decreases s.len(),
{
    if s.len() == 0 {
        Seq::empty()
    } else if s.last() == h {
        spec_without(s.drop_last(), h)
    } else {
        spec_without(s.drop_last(), h).push(s.last())
    }
}

pub proof fn lemma_seq_contains_push(s: Seq<FlatHandle>, y: FlatHandle, x: FlatHandle)
    ensures
        s.push(y).contains(x) <==> (s.contains(x) || x == y),
{
    if s.contains(x) {
        let k = choose|k: int| 0 <= k < s.len() && s[k] == x;
        assert(s.push(y)[k] == x);
    }
    if x == y {
        assert(s.push(y)[s.len() as int] == x);
    }
    if s.push(y).contains(x) && x != y {
        let k = choose|k: int| 0 <= k < s.push(y).len() && s.push(y)[k] == x;
        assert(s[k] == x);
    }
}

/// Dropping `h` removes exactly the occurrences of `h`: nothing else is
/// lost and nothing appears.
pub proof fn lemma_spec_without(s: Seq<FlatHandle>, h: FlatHandle, x: FlatHandle)
    ensures
        spec_without(s, h).contains(x) <==> (s.contains(x) && x != h),
    decreases s.len(),
{
    if s.len() > 0 {
        lemma_spec_without(s.drop_last(), h, x);
        lemma_seq_contains_push(s.drop_last(), s.last(), x);
        if s.last() != h {
            lemma_seq_contains_push(spec_without(s.drop_last(), h), s.last(), x);
        }
        assert(s.drop_last().push(s.last()) =~= s);
    }
}

/// The island manager as the store sees it: the bodies its bookkeeping
/// currently references.
pub struct RawIslandManager {
    pub active: Vec<FlatHandle>,
}

impl RawIslandManager {
    /// The manager still holds a reference to this body.
    pub open spec fn spec_references(self, h: FlatHandle) -> bool {
        self.active@.contains(h)
    }

    pub fn new() -> (r: RawIslandManager)
        ensures
            r.active@ == Seq::<FlatHandle>::empty(),
    {
        RawIslandManager { active: Vec::new() }
    }

    /// Starts referencing a body, as the simulation core does when the
    /// body joins an island.
    pub fn register(&mut self, h: FlatHandle)
        ensures
            final(self).active@ == old(self).active@.push(h),
            final(self).spec_references(h),
    {
        self.active.push(h);
        proof {
            assert(self.active@[self.active@.len() - 1] == h);
        }
    }

    /// Whether the manager still references a body.
    pub fn references(&self, h: FlatHandle) -> (r: bool)
        ensures
            r == self.spec_references(h),
    {
        let mut i: usize = 0;
        while i < self.active.len()
            invariant
                i <= self.active@.len(),
                forall|k: int| 0 <= k < i ==> self.active@[k] != h,
            decreases self.active@.len() - i,
        {
            if self.active[i] == h {
                return true;
            }
            i = i + 1;
        }
        proof {
            if self.active@.contains(h) {
                let k = choose|k: int| 0 <= k < self.active@.len() && self.active@[k] == h;
            }
        }
        false
    }

    /// Drops every reference to the body, keeping all others in order:
    /// the manager's half of the removal transaction.
    pub fn detach(&mut self, h: FlatHandle)
        ensures
            final(self).active@ == spec_without(old(self).active@, h),
            !final(self).spec_references(h),
            forall|x: FlatHandle|
                x != h ==> (final(self).spec_references(x) <==> old(self).spec_references(x)),
    {
        let mut kept: Vec<FlatHandle> = Vec::new();
        let mut i: usize = 0;
        while i < self.active.len()
            invariant
                i <= self.active@.len(),
                kept@ == spec_without(self.active@.take(i as int), h),
            decreases self.active@.len() - i,
        {
            let ghost pre = self.active@.take(i as int);
            if self.active[i] != h {
                kept.push(self.active[i]);
            }
            proof {
                assert(self.active@.take(i + 1) =~= pre.push(self.active@[i as int]));
                assert(self.active@.take(i + 1).drop_last() =~= pre);
            }
            i = i + 1;
        }
        proof {
            assert(self.active@.take(self.active@.len() as int) =~= self.active@);
        }
        self.active = kept;
        proof {
            lemma_spec_without(old(self).active@, h, h);
            assert forall|x: FlatHandle| x != h implies (self.spec_references(x) <==> old(self).spec_references(x)) by {
                lemma_spec_without(old(self).active@, h, x);
            }
        }
    }
}

} // verus!
