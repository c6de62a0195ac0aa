//! Migrations and the engine's ordering logic: which schema changes are
//! still pending against a ledger of applied versions, and in what order
//! they are applied.

use vstd::prelude::*;

verus! {

/// One forward-only schema change: an opaque schema delta tagged with a
/// globally unique version number and a human-readable label.
#[derive(Clone)]
pub struct Migration {
    pub version: u64,
    pub description: String,
    pub statement: String,
}

/// No two migrations of the sequence carry the same version number.
pub open spec fn unique_versions(ms: Seq<Migration>) -> bool {
    forall|i: int, j: int| 0 <= i < j < ms.len() ==> ms[i].version != ms[j].version
}

/// How many migrations of `ms` carry version `v`.
spec fn version_count(ms: Seq<Migration>, v: u64) -> nat
    decreases ms.len(),
{
    if ms.len() == 0 {
        0
    } else {
        version_count(ms.drop_last(), v) + (if ms.last().version == v {
            1nat
        } else {
            0nat
        })
    }
}

/// The migrations whose version is not yet in `applied`, kept in their
/// original order.
pub open spec fn pending_of(ms: Seq<Migration>, applied: Set<u64>) -> Seq<Migration>
    decreases ms.len(),
{
    if ms.len() == 0 {
        Seq::empty()
    } else {
        let init = pending_of(ms.drop_last(), applied);
        if applied.contains(ms.last().version) {
            init
        } else {
            init.push(ms.last())
        }
    }
}

/// `m` placed after the last element of `s` whose version does not
/// exceed `m.version`.
pub open spec fn insert_by_version(s: Seq<Migration>, m: Migration) -> Seq<Migration>
    decreases s.len(),
{
    if s.len() == 0 {
        seq![m]
    } else if s.last().version <= m.version {
        s.push(m)
    } else {
        insert_by_version(s.drop_last(), m).push(s.last())
    }
}

/// Insertion sort by version number.
pub open spec fn sort_by_version(s: Seq<Migration>) -> Seq<Migration>
    decreases s.len(),
{
    if s.len() == 0 {
        Seq::empty()
    } else {
        insert_by_version(sort_by_version(s.drop_last()), s.last())
    }
}

/// Versions never decrease from left to right.
pub open spec fn sorted_by_version(s: Seq<Migration>) -> bool {
    forall|i: int, j: int| 0 <= i < j < s.len() ==> s[i].version <= s[j].version
}

/// Versions strictly increase from left to right.
pub open spec fn strictly_sorted(s: Seq<Migration>) -> bool {
    forall|i: int, j: int| 0 <= i < j < s.len() ==> s[i].version < s[j].version
}

/// The engine's plan: the pending migrations, in ascending version order.
pub open spec fn plan_of(ms: Seq<Migration>, applied: Set<u64>) -> Seq<Migration> {
    sort_by_version(pending_of(ms, applied))
}

/// Check that no version number occurs twice in `ms`.
pub fn versions_unique(ms: &Vec<Migration>) -> (r: bool)
    ensures
        r == unique_versions(ms@),
{
    let mut i: usize = 0;
    while i < ms.len()
        invariant
            0 <= i <= ms@.len(),
            forall|a: int, b: int| 0 <= a < b < ms@.len() && a < i ==> ms@[a].version
                != ms@[b].version,
        decreases ms.len() - i,
    {
        let mut j: usize = i + 1;
        while j < ms.len()
            invariant
                0 <= i < j <= ms@.len(),
                forall|a: int, b: int| 0 <= a < b < ms@.len() && a < i ==> ms@[a].version
                    != ms@[b].version,
                forall|b: int| i < b < j ==> ms@[i as int].version != ms@[b].version,
            decreases ms.len() - j,
        {
            if ms[i].version == ms[j].version {
                return false;
            }
            j += 1;
        }
        i += 1;
    }
    true
}

/// The set of version numbers occurring in `ms`.
pub open spec fn versions_of(ms: Seq<Migration>) -> Set<u64> {
    Set::new(|v: u64| exists|i: int| 0 <= i < ms.len() && ms[i].version == v)
}

proof fn lemma_count_positive_iff_present(ms: Seq<Migration>, v: u64)
    ensures
        version_count(ms, v) >= 1 <==> exists|i: int| 0 <= i < ms.len() && ms[i].version == v,
    decreases ms.len(),
{
    if ms.len() > 0 {
        lemma_count_positive_iff_present(ms.drop_last(), v);
        if ms.last().version == v {
            assert(ms[ms.len() - 1].version == v);
        } else {
            if exists|i: int| 0 <= i < ms.len() && ms[i].version == v {
                let i = choose|i: int| 0 <= i < ms.len() && ms[i].version == v;
                assert(ms.drop_last()[i] == ms[i]);
            }
            if version_count(ms.drop_last(), v) >= 1 {
                let i = choose|i: int| 0 <= i < ms.drop_last().len() && ms.drop_last()[i].version == v;
                assert(ms[i].version == v);
            }
        }
    }
}

proof fn lemma_two_indices_count_at_least_two(ms: Seq<Migration>, i: int, j: int)
    requires
        0 <= i < j < ms.len(),
        ms[i].version == ms[j].version,
    ensures
        version_count(ms, ms[i].version) >= 2,
    decreases ms.len(),
{
    let v = ms[i].version;
    if j == ms.len() - 1 {
        assert(ms.drop_last()[i] == ms[i]);
        lemma_count_positive_iff_present(ms.drop_last(), v);
    } else {
        assert(ms.drop_last()[i] == ms[i]);
        assert(ms.drop_last()[j] == ms[j]);
        lemma_two_indices_count_at_least_two(ms.drop_last(), i, j);
    }
}

/// Pairwise-distinct versions are the same thing as every version
/// occurring at most once.
proof fn lemma_unique_versions_counts(ms: Seq<Migration>)
    requires
        unique_versions(ms),
    ensures
        forall|v: u64| version_count(ms, v) <= 1,
{
    assert forall|v: u64| version_count(ms, v) <= 1 by {
        if version_count(ms, v) >= 2 {
            lemma_count_two_gives_two_indices(ms, v);
        }
    }
}

proof fn lemma_count_two_gives_two_indices(ms: Seq<Migration>, v: u64)
    requires
        version_count(ms, v) >= 2,
    ensures
        exists|i: int, j: int| 0 <= i < j < ms.len() && ms[i].version == v && ms[j].version == v,
    decreases ms.len(),
{
    if ms.len() > 0 {
        if ms.last().version == v {
            if version_count(ms.drop_last(), v) >= 1 {
                lemma_count_positive_iff_present(ms.drop_last(), v);
                let i = choose|i: int| 0 <= i < ms.drop_last().len() && ms.drop_last()[i].version == v;
                assert(ms[i].version == v && ms[ms.len() - 1].version == v);
            } else {
                assert(version_count(ms, v) <= 1);
            }
        } else {
            lemma_count_two_gives_two_indices(ms.drop_last(), v);
            let (i, j) = choose|i: int, j: int|
                0 <= i < j < ms.drop_last().len() && ms.drop_last()[i].version == v
                    && ms.drop_last()[j].version == v;
            assert(ms[i].version == v && ms[j].version == v);
        }
    }
}

/// What `pending_of` keeps: exactly the listed migrations whose version
/// the ledger does not hold, and never more copies of a version than the
/// input has.
proof fn lemma_pending_props(ms: Seq<Migration>, applied: Set<u64>)
    ensures
        forall|x: Migration| #[trigger] pending_of(ms, applied).contains(x)
            <==> ms.contains(x) && !applied.contains(x.version),
        forall|v: u64| #[trigger] version_count(pending_of(ms, applied), v)
            <= version_count(ms, v),
    decreases ms.len(),
{
    if ms.len() > 0 {
        lemma_pending_props(ms.drop_last(), applied);
        let init = pending_of(ms.drop_last(), applied);
        assert forall|x: Migration| #[trigger] ms.contains(x)
            <==> (ms.drop_last().contains(x) || x == ms.last()) by {
            if ms.contains(x) {
                let i = choose|i: int| 0 <= i < ms.len() && ms[i] == x;
                if i < ms.len() - 1 {
                    assert(ms.drop_last()[i] == x);
                }
            }
            if ms.drop_last().contains(x) {
                let i = choose|i: int| 0 <= i < ms.drop_last().len() && ms.drop_last()[i] == x;
                assert(ms[i] == x);
            }
            assert(ms[ms.len() - 1] == ms.last());
        }
        if !applied.contains(ms.last().version) {
            assert forall|x: Migration| #[trigger] init.push(ms.last()).contains(x)
                <==> (init.contains(x) || x == ms.last()) by {
                if init.push(ms.last()).contains(x) {
                    let i = choose|i: int| 0 <= i < init.push(ms.last()).len()
                        && init.push(ms.last())[i] == x;
                    if i < init.len() {
                        assert(init[i] == x);
                    }
                }
                if init.contains(x) {
                    let i = choose|i: int| 0 <= i < init.len() && init[i] == x;
                    assert(init.push(ms.last())[i] == x);
                }
                assert(init.push(ms.last())[init.len() as int] == ms.last());
            }
            assert forall|v: u64| #[trigger] version_count(pending_of(ms, applied), v)
                <= version_count(ms, v) by {
                assert(version_count(pending_of(ms.drop_last(), applied), v) <= version_count(
                    ms.drop_last(),
                    v,
                ));
                assert(pending_of(ms, applied) == init.push(ms.last()));
                assert(init.push(ms.last()).drop_last() =~= init);
                assert(init.push(ms.last()).last() == ms.last());
                assert(version_count(init.push(ms.last()), v) == version_count(init, v) + (
                if ms.last().version == v {
                    1nat
                } else {
                    0nat
                }));
                assert(version_count(ms, v) == version_count(ms.drop_last(), v) + (
                if ms.last().version == v {
                    1nat
                } else {
                    0nat
                }));
            }
        } else {
            assert forall|v: u64| #[trigger] version_count(pending_of(ms, applied), v)
                <= version_count(ms, v) by {
                assert(version_count(pending_of(ms.drop_last(), applied), v) <= version_count(
                    ms.drop_last(),
                    v,
                ));
                assert(pending_of(ms, applied) == init);
                assert(version_count(ms, v) == version_count(ms.drop_last(), v) + (
                if ms.last().version == v {
                    1nat
                } else {
                    0nat
                }));
            }
        }
    }
}

/// What insertion does: one more element, the same contents otherwise,
/// order by version kept.
proof fn lemma_insert_props(s: Seq<Migration>, m: Migration)
    ensures
        insert_by_version(s, m).len() == s.len() + 1,
        forall|x: Migration| #[trigger] insert_by_version(s, m).contains(x)
            <==> (s.contains(x) || x == m),
        forall|v: u64| #[trigger] version_count(insert_by_version(s, m), v)
            == version_count(s, v) + (if m.version == v { 1nat } else { 0nat }),
        sorted_by_version(s) ==> sorted_by_version(insert_by_version(s, m)),
    decreases s.len(),
{
    let r = insert_by_version(s, m);
    if s.len() == 0 {
        assert(r =~= Seq::empty().push(m));
        assert(r.drop_last() =~= Seq::empty());
        assert forall|x: Migration| #[trigger] r.contains(x) <==> (s.contains(x) || x == m) by {
            if r.contains(x) {
                let i = choose|i: int| 0 <= i < r.len() && r[i] == x;
                assert(x == m);
            }
            assert(r[0] == m);
        }
        assert forall|v: u64| #[trigger] version_count(r, v) == version_count(s, v) + (
        if m.version == v {
            1nat
        } else {
            0nat
        }) by {
            assert(r.last() == m);
            assert(version_count(r.drop_last(), v) == 0);
        }
    } else if s.last().version <= m.version {
        assert(r == s.push(m));
        assert(r.drop_last() =~= s);
        lemma_push_contains(s, m);
        assert forall|v: u64| #[trigger] version_count(r, v) == version_count(s, v) + (
        if m.version == v {
            1nat
        } else {
            0nat
        }) by {
            assert(r.last() == m);
            assert(version_count(r, v) == version_count(r.drop_last(), v) + (
            if m.version == v {
                1nat
            } else {
                0nat
            }));
        }
        if sorted_by_version(s) {
            assert forall|i: int, j: int| 0 <= i < j < r.len() implies r[i].version <= r[j].version by {
                if j < s.len() {
                    assert(r[i] == s[i] && r[j] == s[j]);
                } else {
                    assert(r[j] == m);
                    if i < s.len() - 1 {
                        assert(s[i].version <= s[s.len() - 1].version);
                    }
                }
            }
        }
    } else {
        lemma_insert_props(s.drop_last(), m);
        let inner = insert_by_version(s.drop_last(), m);
        assert(r == inner.push(s.last()));
        assert(r.drop_last() =~= inner);
        lemma_push_contains(inner, s.last());
        lemma_push_contains(s.drop_last(), s.last());
        assert(s.drop_last().push(s.last()) =~= s);
        assert forall|x: Migration| #[trigger] r.contains(x) <==> (s.contains(x) || x == m) by {
            assert(inner.push(s.last()).contains(x) <==> (inner.contains(x) || x == s.last()));
            assert(inner.contains(x) <==> (s.drop_last().contains(x) || x == m));
            assert(s.drop_last().push(s.last()).contains(x) <==> (s.drop_last().contains(x) || x
                == s.last()));
        }
        assert forall|v: u64| #[trigger] version_count(r, v) == version_count(s, v) + (
        if m.version == v {
            1nat
        } else {
            0nat
        }) by {
            assert(version_count(inner, v) == version_count(s.drop_last(), v) + (
            if m.version == v {
                1nat
            } else {
                0nat
            }));
            assert(r.last() == s.last());
            assert(version_count(r, v) == version_count(inner, v) + (
            if s.last().version == v {
                1nat
            } else {
                0nat
            }));
            assert(version_count(s, v) == version_count(s.drop_last(), v) + (
            if s.last().version == v {
                1nat
            } else {
                0nat
            }));
        }
        if sorted_by_version(s) {
            assert(sorted_by_version(s.drop_last()));
            assert forall|i: int, j: int| 0 <= i < j < r.len() implies r[i].version <= r[j].version by {
                if j < inner.len() {
                    assert(r[i] == inner[i] && r[j] == inner[j]);
                } else {
                    assert(r[j] == s.last());
                    assert(inner.contains(inner[i]));
                    if inner[i] == m {
                        assert(m.version <= s.last().version);
                    } else {
                        assert(s.drop_last().contains(inner[i]));
                        let k = choose|k: int| 0 <= k < s.drop_last().len()
                            && s.drop_last()[k] == inner[i];
                        assert(s[k].version <= s[s.len() - 1].version);
                    }
                }
            }
        }
    }
}

proof fn lemma_push_contains(s: Seq<Migration>, e: Migration)
    ensures
        forall|x: Migration| #[trigger] s.push(e).contains(x) <==> (s.contains(x) || x == e),
{
    assert forall|x: Migration| #[trigger] s.push(e).contains(x) <==> (s.contains(x) || x == e) by {
        if s.push(e).contains(x) {
            let i = choose|i: int| 0 <= i < s.push(e).len() && s.push(e)[i] == x;
            if i < s.len() {
                assert(s[i] == x);
            }
        }
        if s.contains(x) {
            let i = choose|i: int| 0 <= i < s.len() && s[i] == x;
            assert(s.push(e)[i] == x);
        }
        assert(s.push(e)[s.len() as int] == e);
    }
}

/// What sorting does: the same contents, ordered by version.
proof fn lemma_sort_props(s: Seq<Migration>)
    ensures
        sort_by_version(s).len() == s.len(),
        forall|x: Migration| #[trigger] sort_by_version(s).contains(x) <==> s.contains(x),
        forall|v: u64| #[trigger] version_count(sort_by_version(s), v) == version_count(s, v),
        sorted_by_version(sort_by_version(s)),
    decreases s.len(),
{
    if s.len() > 0 {
        lemma_sort_props(s.drop_last());
        lemma_insert_props(sort_by_version(s.drop_last()), s.last());
        lemma_push_contains(s.drop_last(), s.last());
        assert(s.drop_last().push(s.last()) =~= s);
    }
}

/// A plan never holds a version twice when the input does not, so its
/// order by version is strict.
pub proof fn lemma_plan_strict(ms: Seq<Migration>, applied: Set<u64>)
    requires
        unique_versions(ms),
    ensures
        strictly_sorted(plan_of(ms, applied)),
        forall|x: Migration| #[trigger] plan_of(ms, applied).contains(x)
            <==> ms.contains(x) && !applied.contains(x.version),
    decreases ms.len(),
{
    let p = plan_of(ms, applied);
    lemma_pending_props(ms, applied);
    lemma_sort_props(pending_of(ms, applied));
    lemma_unique_versions_counts(ms);
    assert forall|i: int, j: int| 0 <= i < j < p.len() implies p[i].version < p[j].version by {
        if p[i].version == p[j].version {
            lemma_two_indices_count_at_least_two(p, i, j);
        }
    }
}

/// Two strictly sorted sequences with the same contents are the same
/// sequence.
proof fn lemma_strictly_sorted_unique(a: Seq<Migration>, b: Seq<Migration>)
    requires
        strictly_sorted(a),
        strictly_sorted(b),
        forall|x: Migration| a.contains(x) <==> b.contains(x),
    ensures
        a =~= b,
    decreases a.len(),
{
    if a.len() == 0 {
        if b.len() > 0 {
            assert(b.contains(b[0]));
        }
    } else if b.len() == 0 {
        assert(a.contains(a[0]));
    } else {
        let la = a.last();
        let lb = b.last();
        assert(a.contains(la));
        assert(b.contains(lb));
        let i = choose|i: int| 0 <= i < b.len() && b[i] == la;
        let j = choose|j: int| 0 <= j < a.len() && a[j] == lb;
        assert(b[i].version <= lb.version);
        assert(a[j].version <= la.version);
        assert(la.version == lb.version);
        assert(i == b.len() - 1);
        assert(la == lb);
        assert forall|x: Migration| a.drop_last().contains(x) <==> b.drop_last().contains(x) by {
            lemma_drop_last_contains(a, x);
            lemma_drop_last_contains(b, x);
        }
        lemma_strictly_sorted_unique(a.drop_last(), b.drop_last());
        assert(a =~= a.drop_last().push(la));
        assert(b =~= b.drop_last().push(lb));
    }
}

/// The order in which migrations are presented is irrelevant: two
/// sequences listing the same migrations, each without a duplicate
/// version, produce the same plan, so the engine applies the same
/// deltas in the same order and grows the ledger by the same versions.
pub proof fn lemma_order_irrelevant(ms1: Seq<Migration>, ms2: Seq<Migration>, applied: Set<u64>)
    requires
        unique_versions(ms1),
        unique_versions(ms2),
        forall|x: Migration| ms1.contains(x) <==> ms2.contains(x),
    ensures
        plan_of(ms1, applied) == plan_of(ms2, applied),
{
    lemma_plan_strict(ms1, applied);
    lemma_plan_strict(ms2, applied);
    lemma_strictly_sorted_unique(plan_of(ms1, applied), plan_of(ms2, applied));
}

proof fn lemma_drop_last_contains(s: Seq<Migration>, x: Migration)
    requires
        strictly_sorted(s),
        s.len() > 0,
    ensures
        s.drop_last().contains(x) <==> (s.contains(x) && x.version < s.last().version),
{
    if s.drop_last().contains(x) {
        let i = choose|i: int| 0 <= i < s.drop_last().len() && s.drop_last()[i] == x;
        assert(s[i] == x);
        assert(s[i].version < s[s.len() - 1].version);
    }
    if s.contains(x) && x.version < s.last().version {
        let i = choose|i: int| 0 <= i < s.len() && s[i] == x;
        assert(i < s.len() - 1);
        assert(s.drop_last()[i] == x);
    }
}

} // verus!
