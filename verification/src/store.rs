//! An in-memory model of the embedded store, as far as the migration
//! engine reads or writes it: the ordered list of schema deltas that have
//! been executed, the version ledger, and which deltas the store refuses.
//!
//! The real store executes SQL; this core only hands it opaque delta
//! payloads and records the outcome, so the model keeps exactly that.

use vstd::prelude::*;
use vstd::string::StringExecFns;
use crate::ledger::Ledger;

verus! {

/// The failure text the store reports for a refused schema delta.
pub open spec fn reject_cause() -> Seq<char> {
    "schema delta rejected by store"@
}

/// The store as the engine sees it. `rejected` models the store-side
/// failure of a delta: executing a delta listed there reports an error
/// and changes nothing.
pub struct MemStore {
    applied: Vec<String>,
    rejected: Vec<String>,
    ledger: Ledger,
}

impl MemStore {
    /// The schema deltas executed so far, oldest first.
    pub closed spec fn applied_model(&self) -> Seq<Seq<char>> {
        self.applied.deep_view()
    }

    /// The deltas this store refuses to execute.
    pub closed spec fn rejected_model(&self) -> Set<Seq<char>> {
        self.rejected.deep_view().to_set()
    }

    /// The versions recorded as applied.
    pub closed spec fn ledger_model(&self) -> Set<u64> {
        self.ledger@
    }

    pub closed spec fn wf(&self) -> bool {
        self.ledger.wf()
    }

    /// A fresh store: nothing executed, nothing recorded, nothing refused.
    pub fn new() -> (r: MemStore)
        ensures
            r.wf(),
            r.applied_model() =~= Seq::<Seq<char>>::empty(),
            r.rejected_model() =~= Set::<Seq<char>>::empty(),
            r.ledger_model() =~= Set::<u64>::empty(),
    {
        let r = MemStore { applied: Vec::new(), rejected: Vec::new(), ledger: Ledger::new() };
        proof {
            assert(forall|s: Seq<char>| !r.rejected.deep_view().contains(s));
        }
        r
    }

    /// Mark `stmt` as a delta this store will refuse.
    pub fn reject(&mut self, stmt: String)
        ensures
            final(self).wf() == old(self).wf(),
            final(self).applied_model() == old(self).applied_model(),
            final(self).ledger_model() == old(self).ledger_model(),
            final(self).rejected_model() =~= old(self).rejected_model().insert(stmt@),
    {
        let ghost before = self.rejected.deep_view();
        self.rejected.push(stmt);
        proof {
            let after = self.rejected.deep_view();
            assert(after.len() == before.len() + 1);
            assert(forall|i: int| 0 <= i < before.len() ==> after[i] == before[i]);
            assert forall|x: Seq<char>| after.to_set().contains(x)
                <==> before.to_set().contains(x) || x == stmt@ by {
                if after.contains(x) {
                    let i = choose|i: int| 0 <= i < after.len() && after[i] == x;
                    if i < before.len() {
                        assert(before[i] == x);
                    } else {
                        assert(after[before.len() as int] == stmt@);
                    }
                }
                if before.contains(x) {
                    let i = choose|i: int| 0 <= i < before.len() && before[i] == x;
                    assert(after[i] == x);
                }
                assert(after[before.len() as int] == stmt@);
            }
        }
    }

    /// Execute one schema delta. A refused delta reports an error and
    /// leaves the store untouched; any other delta is appended to the
    /// executed list.
    pub fn execute(&mut self, stmt: &String) -> (r: Result<(), String>)
        ensures
            final(self).wf() == old(self).wf(),
            final(self).rejected_model() == old(self).rejected_model(),
            final(self).ledger_model() == old(self).ledger_model(),
            r is Ok <==> !old(self).rejected_model().contains(stmt@),
            r is Ok ==> final(self).applied_model() =~= old(self).applied_model().push(stmt@),
            r matches Err(cause) ==> final(self).applied_model() == old(self).applied_model()
                && cause@ == reject_cause(),
    {
        let mut i: usize = 0;
        while i < self.rejected.len()
            invariant
                0 <= i <= self.rejected.len(),
                forall|k: int| 0 <= k < i ==> self.rejected.deep_view()[k] != stmt@,
            decreases self.rejected.len() - i,
        {
            if self.rejected[i] == *stmt {
                proof {
                    assert(self.rejected.deep_view()[i as int] == stmt@);
                    assert(self.rejected.deep_view().contains(stmt@));
                }
                return Err(String::from_str("schema delta rejected by store"));
            }
            i += 1;
        }
        proof {
            if self.rejected.deep_view().contains(stmt@) {
                let k = choose|k: int| 0 <= k < self.rejected.deep_view().len()
                    && self.rejected.deep_view()[k] == stmt@;
                assert(false);
            }
        }
        let ghost before = self.applied.deep_view();
        self.applied.push(stmt.clone());
        proof {
            let after = self.applied.deep_view();
            assert(after.len() == before.len() + 1);
            assert(forall|k: int| 0 <= k < before.len() ==> after[k] == before[k]);
            assert(after[before.len() as int] == stmt@);
        }
        Ok(())
    }

    /// Record `v` in the ledger as applied.
    pub fn record_version(&mut self, v: u64)
        ensures
            old(self).wf() ==> final(self).wf(),
            final(self).applied_model() == old(self).applied_model(),
            final(self).rejected_model() == old(self).rejected_model(),
            final(self).ledger_model() =~= old(self).ledger_model().insert(v),
    {
        self.ledger.record(v);
    }

    /// Whether the ledger records `v` as applied.
    pub fn ledger_contains(&self, v: u64) -> (r: bool)
        ensures
            r == self.ledger_model().contains(v),
    {
        self.ledger.contains(v)
    }

    /// How many versions the ledger records.
    pub fn ledger_len(&self) -> (r: usize)
        requires
            self.wf(),
        ensures
            r == self.ledger_model().len(),
    {
        self.ledger.len()
    }

    /// A borrow of the ledger, for planning.
    pub fn ledger_ref(&self) -> (r: &Ledger)
        ensures
            r@ == self.ledger_model(),
            r.wf() == self.wf(),
    {
        &self.ledger
    }

    /// How many schema deltas have been executed.
    pub fn applied_len(&self) -> (r: usize)
        ensures
            r == self.applied_model().len(),
    {
        self.applied.len()
    }

    /// The `i`th executed schema delta, oldest first.
    pub fn applied_at(&self, i: usize) -> (r: &String)
        requires
            i < self.applied_model().len(),
        ensures
            r@ == self.applied_model()[i as int],
    {
        &self.applied[i]
    }

    /// Whether `stmt` is among the executed schema deltas.
    pub fn has_applied(&self, stmt: &String) -> (r: bool)
        ensures
            r == self.applied_model().contains(stmt@),
    {
        let mut i: usize = 0;
        while i < self.applied.len()
            invariant
                0 <= i <= self.applied.len(),
                forall|k: int| 0 <= k < i ==> self.applied.deep_view()[k] != stmt@,
            decreases self.applied.len() - i,
        {
            if self.applied[i] == *stmt {
                proof {
                    assert(self.applied.deep_view()[i as int] == stmt@);
                }
                return true;
            }
            i += 1;
        }
        proof {
            if self.applied.deep_view().contains(stmt@) {
                let k = choose|k: int| 0 <= k < self.applied.deep_view().len()
                    && self.applied.deep_view()[k] == stmt@;
                assert(false);
            }
        }
        false
    }
}

} // verus!
