//! The migration engine: compute the plan (pending migrations in
//! ascending version order) and apply it against a store, recording each
//! version right after its delta succeeds and aborting on the first
//! failure.

use vstd::prelude::*;
use crate::ledger::Ledger;
use crate::migration::{
    insert_by_version, lemma_plan_strict, pending_of, plan_of, sort_by_version, unique_versions,
    versions_of, Migration,
};
use crate::store::{reject_cause, MemStore};

verus! {

/// A failed migration: the version whose delta the store refused, and
/// the store's failure text. Fatal to startup; nothing past this version
/// is attempted.
pub struct MigrationError {
    pub version: u64,
    pub cause: String,
}

/// The statements of a plan, in plan order.
pub open spec fn statements_of(p: Seq<Migration>) -> Seq<Seq<char>> {
    p.map_values(|m: Migration| m.statement@)
}

/// Position of the first migration of `p` whose statement the store
/// refuses; `p.len()` when the whole plan goes through.
pub open spec fn abort_index(p: Seq<Migration>, rejected: Set<Seq<char>>) -> int
    decreases p.len(),
{
    if p.len() == 0 {
        0
    } else if rejected.contains(p[0].statement@) {
        0
    } else {
        1 + abort_index(p.drop_first(), rejected)
    }
}

/// The abort position always lies within the plan.
pub proof fn lemma_abort_index_bounds(p: Seq<Migration>, rejected: Set<Seq<char>>)
    ensures
        0 <= abort_index(p, rejected) <= p.len(),
    decreases p.len(),
{
    if p.len() > 0 && !rejected.contains(p[0].statement@) {
        lemma_abort_index_bounds(p.drop_first(), rejected);
    }
}

/// `abort_index` is the first rejected position.
pub proof fn lemma_abort_index_at(p: Seq<Migration>, rejected: Set<Seq<char>>, i: int)
    requires
        0 <= i <= p.len(),
        forall|t: int| 0 <= t < i ==> !rejected.contains(#[trigger] p[t].statement@),
        i < p.len() ==> rejected.contains(p[i].statement@),
    ensures
        abort_index(p, rejected) == i,
    decreases p.len(),
{
    if p.len() > 0 && i > 0 {
        assert(!rejected.contains(p[0].statement@));
        assert forall|t: int| 0 <= t < i - 1
            implies !rejected.contains(#[trigger] p.drop_first()[t].statement@) by {
            assert(p.drop_first()[t] == p[t + 1]);
        }
        assert(i - 1 < p.drop_first().len() ==> rejected.contains(p.drop_first()[i - 1].statement@));
        lemma_abort_index_at(p.drop_first(), rejected, i - 1);
    }
}

proof fn lemma_statements_extend(p: Seq<Migration>, i: int)
    requires
        0 <= i < p.len(),
    ensures
        statements_of(p.subrange(0, i + 1)) =~= statements_of(p.subrange(0, i)).push(
            p[i].statement@,
        ),
{
}

proof fn lemma_versions_extend(p: Seq<Migration>, i: int)
    requires
        0 <= i < p.len(),
    ensures
        versions_of(p.subrange(0, i + 1)) =~= versions_of(p.subrange(0, i)).insert(p[i].version),
{
    let shorter = p.subrange(0, i);
    let longer = p.subrange(0, i + 1);
    assert forall|v: u64| versions_of(longer).contains(v)
        <==> (versions_of(shorter).contains(v) || v == p[i].version) by {
        if versions_of(longer).contains(v) {
            let k = choose|k: int| 0 <= k < longer.len() && longer[k].version == v;
            if k < i {
                assert(shorter[k].version == v);
            }
        }
        if versions_of(shorter).contains(v) {
            let k = choose|k: int| 0 <= k < shorter.len() && shorter[k].version == v;
            assert(longer[k].version == v);
        }
        assert(longer[i].version == p[i].version);
    }
}

proof fn lemma_insert_by_version_at(s: Seq<Migration>, m: Migration, j: int)
    requires
        0 <= j <= s.len(),
        forall|t: int| j <= t < s.len() ==> (#[trigger] s[t].version) > m.version,
        j > 0 ==> s[j - 1].version <= m.version,
    ensures
        insert_by_version(s, m) =~= s.insert(j, m),
    decreases s.len(),
{
    if s.len() == 0 {
        assert(insert_by_version(s, m) =~= s.insert(0, m));
    } else if j == s.len() {
        assert(s.last().version <= m.version);
        assert(insert_by_version(s, m) == s.push(m));
        assert(s.push(m) =~= s.insert(j, m));
    } else {
        assert(s[s.len() - 1].version > m.version);
        let dl = s.drop_last();
        assert forall|t: int| j <= t < dl.len() implies (#[trigger] dl[t].version) > m.version by {
            assert(dl[t] == s[t]);
        }
        if j > 0 {
            assert(dl[j - 1] == s[j - 1]);
        }
        lemma_insert_by_version_at(dl, m, j);
        assert(insert_by_version(s, m) == insert_by_version(dl, m).push(s.last()));
        assert(insert_by_version(dl, m).push(s.last()) =~= dl.insert(j, m).push(s.last()));
        assert(dl.insert(j, m).push(s.last()) =~= s.insert(j, m));
    }
}

/// Compute the plan: the migrations whose version the ledger does not
/// yet hold, in ascending version order.
pub fn plan(migrations: Vec<Migration>, ledger: &Ledger) -> (r: Vec<Migration>)
    ensures
        r@ == plan_of(migrations@, ledger@),
{
    let ghost all = migrations@;
    let mut ms = migrations;
    let mut out: Vec<Migration> = Vec::new();
    let ghost mut k: int = 0;
    proof {
        assert(all.subrange(0, 0) =~= Seq::<Migration>::empty());
        assert(ms@ =~= all.subrange(0, all.len() as int));
    }
    while ms.len() > 0
        invariant
            0 <= k <= all.len(),
            ms@ == all.subrange(k, all.len() as int),
            out@ == plan_of(all.subrange(0, k), ledger@),
        decreases ms.len(),
    {
        let m = ms.remove(0);
        proof {
            assert(all.subrange(k, all.len() as int)[0] == all[k]);
            assert(all.subrange(k, all.len() as int).remove(0) =~= all.subrange(
                k + 1,
                all.len() as int,
            ));
            assert(all.subrange(0, k + 1).drop_last() =~= all.subrange(0, k));
            assert(all.subrange(0, k + 1).last() == all[k]);
        }
        if ledger.contains(m.version) {
            proof {
                assert(pending_of(all.subrange(0, k + 1), ledger@) == pending_of(
                    all.subrange(0, k),
                    ledger@,
                ));
                k = k + 1;
            }
        } else {
            let ghost sorted_before = out@;
            let mut j: usize = out.len();
            while j > 0 && out[j - 1].version > m.version
                invariant
                    0 <= j <= out.len(),
                    out@ == sorted_before,
                    forall|t: int| j <= t < out@.len() ==> (#[trigger] out@[t].version)
                        > m.version,
                decreases j,
            {
                j -= 1;
            }
            out.insert(j, m);
            proof {
                lemma_insert_by_version_at(sorted_before, m, j as int);
                assert(pending_of(all.subrange(0, k + 1), ledger@) == pending_of(
                    all.subrange(0, k),
                    ledger@,
                ).push(m));
                assert(sort_by_version(pending_of(all.subrange(0, k), ledger@).push(m))
                    == insert_by_version(sorted_before, m)) by {
                    let q = pending_of(all.subrange(0, k), ledger@).push(m);
                    assert(q.drop_last() =~= pending_of(all.subrange(0, k), ledger@));
                    assert(q.last() == m);
                }
                k = k + 1;
            }
        }
    }
    proof {
        assert(all.subrange(k, all.len() as int).len() == 0);
        assert(k == all.len());
        assert(all.subrange(0, all.len() as int) =~= all);
    }
    out
}

/// Bring the store up to date: apply every pending migration in
/// ascending version order, record each version right after its delta
/// succeeds, and abort on the first delta the store refuses.
///
/// On success the ledger has gained exactly the pending versions and the
/// store has executed exactly the pending deltas, oldest version first.
/// On failure the ledger has gained exactly the pending versions that
/// precede the failed one, the failed version is reported with the
/// store's failure text, and nothing after it was attempted.
pub fn migrate(store: &mut MemStore, migrations: Vec<Migration>) -> (r: Result<
    (),
    MigrationError,
>)
    requires
        unique_versions(migrations@),
        old(store).wf(),
    ensures
        final(store).wf(),
        final(store).rejected_model() == old(store).rejected_model(),
        ({
            let p = plan_of(migrations@, old(store).ledger_model());
            let ai = abort_index(p, old(store).rejected_model());
            &&& final(store).applied_model() == old(store).applied_model() + statements_of(
                p.subrange(0, ai),
            )
            &&& final(store).ledger_model() =~= old(store).ledger_model().union(
                versions_of(p.subrange(0, ai)),
            )
            &&& (r is Ok <==> ai == p.len())
            &&& (ai < p.len() ==> (r matches Err(e) && e.version == p[ai].version && e.cause@
                == reject_cause()))
        }),
{
    let ghost l0 = old(store).ledger_model();
    let ghost a0 = old(store).applied_model();
    let ghost rej0 = old(store).rejected_model();
    let planned = plan(migrations, store.ledger_ref());
    let ghost p = planned@;
    let mut i: usize = 0;
    proof {
        assert(p.subrange(0, 0) =~= Seq::<Migration>::empty());
        assert(a0 + statements_of(p.subrange(0, 0)) =~= a0);
        assert(l0.union(versions_of(p.subrange(0, 0))) =~= l0);
    }
    #[verifier::loop_isolation(false)]
    while i < planned.len()
        invariant
            0 <= i <= planned.len(),
            planned@ == p,
            store.wf(),
            store.rejected_model() == rej0,
            forall|t: int| 0 <= t < i ==> !rej0.contains(#[trigger] p[t].statement@),
            store.applied_model() == a0 + statements_of(p.subrange(0, i as int)),
            store.ledger_model() == l0.union(versions_of(p.subrange(0, i as int))),
        decreases planned.len() - i,
    {
        let m = &planned[i];
        match store.execute(&m.statement) {
            Ok(_) => {
                store.record_version(m.version);
                proof {
                    lemma_statements_extend(p, i as int);
                    lemma_versions_extend(p, i as int);
                    assert(store.ledger_model() =~= l0.union(
                        versions_of(p.subrange(0, i + 1)),
                    ));
                    assert(store.applied_model() =~= a0 + statements_of(
                        p.subrange(0, i + 1),
                    ));
                }
                i += 1;
            },
            Err(cause) => {
                proof {
                    assert(rej0.contains(p[i as int].statement@));
                    lemma_abort_index_at(p, rej0, i as int);
                }
                return Err(MigrationError { version: m.version, cause });
            },
        }
    }
    proof {
        lemma_abort_index_at(p, rej0, p.len() as int);
        assert(p.subrange(0, p.len() as int) =~= p);
    }
    Ok(())
}

/// Running the engine twice in a row is idempotent. A run that goes
/// through leaves every listed version in the ledger, so the next run's
/// plan is empty: it goes through as well, executes no delta, and leaves
/// ledger and schema exactly as they were.
pub proof fn lemma_rerun_is_noop(
    ms: Seq<Migration>,
    applied0: Set<u64>,
    rejected: Set<Seq<char>>,
)
    requires
        unique_versions(ms),
    ensures
        ({
            let p1 = plan_of(ms, applied0);
            let ledger1 = applied0.union(versions_of(p1));
            let p2 = plan_of(ms, ledger1);
            &&& p2 =~= Seq::<Migration>::empty()
            &&& abort_index(p2, rejected) == p2.len()
            &&& statements_of(p2) =~= Seq::<Seq<char>>::empty()
            &&& ledger1.union(versions_of(p2)) =~= ledger1
        }),
{
    let p1 = plan_of(ms, applied0);
    let ledger1 = applied0.union(versions_of(p1));
    let p2 = plan_of(ms, ledger1);
    lemma_plan_strict(ms, applied0);
    lemma_plan_strict(ms, ledger1);
    assert forall|x: Migration| ms.contains(x) implies ledger1.contains(x.version) by {
        if !applied0.contains(x.version) {
            assert(p1.contains(x));
            let i = choose|i: int| 0 <= i < p1.len() && p1[i] == x;
            assert(versions_of(p1).contains(x.version));
        }
    }
    if p2.len() > 0 {
        assert(p2.contains(p2[0]));
    }
    assert(versions_of(p2) =~= Set::<u64>::empty());
}

/// When the run aborts at version `k`, the ledger holds exactly what it
/// held before plus the pending versions below `k`; it has gained
/// neither `k` nor any version above `k`.
pub proof fn lemma_failure_ledger(ms: Seq<Migration>, applied0: Set<u64>, rejected: Set<Seq<char>>)
    requires
        unique_versions(ms),
        abort_index(plan_of(ms, applied0), rejected) < plan_of(ms, applied0).len(),
    ensures
        ({
            let p = plan_of(ms, applied0);
            let ai = abort_index(p, rejected);
            let k = p[ai].version;
            let after = applied0.union(versions_of(p.subrange(0, ai)));
            &&& forall|v: u64| after.contains(v) <==> (applied0.contains(v) || (versions_of(
                p,
            ).contains(v) && v < k))
            &&& (!applied0.contains(k) ==> !after.contains(k))
            &&& forall|v: u64| v > k && !applied0.contains(v) ==> !after.contains(v)
        }),
{
    let p = plan_of(ms, applied0);
    let ai = abort_index(p, rejected);
    let k = p[ai].version;
    let before = p.subrange(0, ai);
    let after = applied0.union(versions_of(before));
    lemma_abort_index_bounds(p, rejected);
    lemma_plan_strict(ms, applied0);
    assert forall|v: u64| after.contains(v) <==> (applied0.contains(v) || (versions_of(
        p,
    ).contains(v) && v < k)) by {
        if versions_of(before).contains(v) {
            let i = choose|i: int| 0 <= i < before.len() && before[i].version == v;
            assert(p[i].version == v);
            assert(p[i].version < p[ai].version);
        }
        if versions_of(p).contains(v) && v < k {
            let i = choose|i: int| 0 <= i < p.len() && p[i].version == v;
            assert(i < ai) by {
                if i > ai {
                    assert(p[ai].version < p[i].version);
                }
            }
            assert(before[i].version == v);
        }
    }
}

} // verus!
