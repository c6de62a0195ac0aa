//! The schema version ledger: the monotonically growing record of which
//! migration versions have been applied.

use vstd::prelude::*;

verus! {

/// Persisted record of applied migration versions. Abstractly a set of
/// version numbers; entries are only ever added, never removed.
pub struct Ledger {
    versions: Vec<u64>,
}

impl View for Ledger {
    type V = Set<u64>;

    closed spec fn view(&self) -> Set<u64> {
        self.versions@.to_set()
    }
}

impl Ledger {
    /// The stored list holds each version once.
    pub closed spec fn wf(&self) -> bool {
        self.versions@.no_duplicates()
    }

    /// An empty ledger: no version applied yet.
    pub fn new() -> (r: Ledger)
        ensures
            r@ =~= Set::<u64>::empty(),
            r.wf(),
    {
        let r = Ledger { versions: Vec::new() };
        proof {
            assert(forall|v: u64| !r.versions@.contains(v));
        }
        r
    }

    /// Whether `v` has been recorded as applied.
    pub fn contains(&self, v: u64) -> (r: bool)
        ensures
            r == self@.contains(v),
    {
        let mut i: usize = 0;
        while i < self.versions.len()
            invariant
                0 <= i <= self.versions.len(),
                forall|k: int| 0 <= k < i ==> self.versions@[k] != v,
            decreases self.versions.len() - i,
        {
            if self.versions[i] == v {
                return true;
            }
            i += 1;
        }
        false
    }

    /// Record `v` as applied. Growth is monotone: nothing is removed.
    pub fn record(&mut self, v: u64)
        ensures
            final(self)@ =~= old(self)@.insert(v),
            old(self).wf() ==> final(self).wf(),
    {
        if !self.contains(v) {
            let ghost before = self.versions@;
            self.versions.push(v);
            proof {
                assert forall|x: u64| final(self)@.contains(x)
                    <==> old(self)@.insert(v).contains(x) by {
                    if before.push(v).contains(x) {
                        let i = choose|i: int| 0 <= i < before.push(v).len()
                            && before.push(v)[i] == x;
                        if i < before.len() {
                            assert(before[i] == x);
                        }
                    }
                    if before.contains(x) {
                        let i = choose|i: int| 0 <= i < before.len() && before[i] == x;
                        assert(before.push(v)[i] == x);
                    }
                    assert(before.push(v)[before.len() as int] == v);
                }
            }
        } else {
            proof {
                assert(old(self)@.insert(v) =~= old(self)@);
            }
        }
    }

    /// How many versions have been applied.
    pub fn len(&self) -> (r: usize)
        requires
            self.wf(),
        ensures
            r == self@.len(),
    {
        proof {
            self.versions@.unique_seq_to_set();
        }
        self.versions.len()
    }
}

} // verus!
