use vstd::prelude::*;

use crate::records::DecayRecord;

verus! {

/// Some record of the pool carries `e` as its parent excitation energy.
pub open spec fn has_p_energy(pool: Seq<DecayRecord>, e: u64) -> bool {
    exists|i: int| 0 <= i < pool.len() && pool[i].p_energy == Some(e)
}

pub open spec fn strictly_sorted(s: Seq<u64>) -> bool {
    forall|i: int, j: int| 0 <= i < j < s.len() ==> #[trigger] s[i] < #[trigger] s[j]
}

/// `lad` is the energy ladder of the pool: the distinct parent energies that
/// occur in it, in strictly ascending order.
pub open spec fn is_ladder(pool: Seq<DecayRecord>, lad: Seq<u64>) -> bool {
    &&& strictly_sorted(lad)
    &&& forall|e: u64| #[trigger] lad.contains(e) <==> has_p_energy(pool, e)
}

/// The energy ladder of a pool. A pool has exactly one ladder, so this picks
/// it out; `lemma_ladder_spec_agrees` ties it to any witness.
pub open spec fn ladder_spec(pool: Seq<DecayRecord>) -> Seq<u64> {
    choose|lad: Seq<u64>| is_ladder(pool, lad)
}

/// Two strictly ascending sequences with the same members are equal.
proof fn lemma_strictly_sorted_unique(a: Seq<u64>, b: Seq<u64>)
    requires
        strictly_sorted(a),
        strictly_sorted(b),
        forall|e: u64| #[trigger] a.contains(e) <==> #[trigger] b.contains(e),
    ensures
        a == b,
    decreases a.len(),
{
    if a.len() == 0 {
        if b.len() > 0 {
            assert(b.contains(b[0]));
            assert(a.contains(b[0]));
            let i = choose|i: int| 0 <= i < a.len() && a[i] == b[0];
            assert(false);
        }
        assert(a =~= b);
    } else if b.len() == 0 {
        assert(a.contains(a[0]));
        assert(b.contains(a[0]));
        let i = choose|i: int| 0 <= i < b.len() && b[i] == a[0];
        assert(false);
    } else {
        assert(a.contains(a[0]));
        assert(b.contains(b[0]));
        assert(a.contains(b[0]));
        assert(b.contains(a[0]));
        let ia = choose|i: int| 0 <= i < a.len() && a[i] == b[0];
        let ib = choose|i: int| 0 <= i < b.len() && b[i] == a[0];
        assert(a[ia] == b[0] && b[ib] == a[0]);
        if ia > 0 {
            assert(a[0] < a[ia]);
        }
        if ib > 0 {
            assert(b[0] < b[ib]);
        }
        assert(a[0] == b[0]);
        let at = a.drop_first();
        let bt = b.drop_first();
        assert(forall|m: int| 0 <= m < at.len() ==> #[trigger] at[m] == a[m + 1]);
        assert(forall|m: int| 0 <= m < bt.len() ==> #[trigger] bt[m] == b[m + 1]);
        assert forall|e: u64| #[trigger] at.contains(e) <==> #[trigger] bt.contains(e) by {
            lemma_tail_contains(a, e);
            lemma_tail_contains(b, e);
        }
        lemma_strictly_sorted_unique(at, bt);
        assert(a.len() == b.len());
        assert forall|m: int| 0 <= m < a.len() implies a[m] == b[m] by {
            if m > 0 {
                assert(at[m - 1] == a[m]);
                assert(bt[m - 1] == b[m]);
            }
        }
        assert(a =~= b);
    }
}

/// For a strictly ascending sequence, membership in the tail is membership in
/// the whole minus the head.
proof fn lemma_tail_contains(a: Seq<u64>, e: u64)
    requires
        strictly_sorted(a),
        a.len() > 0,
    ensures
        a.drop_first().contains(e) <==> (a.contains(e) && e != a[0]),
{
    let at = a.drop_first();
    if at.contains(e) {
        let i = choose|i: int| 0 <= i < at.len() && at[i] == e;
        assert(a[i + 1] == e);
        assert(a[0] < a[i + 1]);
        assert(a.contains(e) && e != a[0]);
    }
    if a.contains(e) && e != a[0] {
        let i = choose|i: int| 0 <= i < a.len() && a[i] == e;
        assert(i != 0);
        assert(at[i - 1] == e);
        assert(at.contains(e));
    }
}

/// Any ladder witness is the ladder.
pub proof fn lemma_ladder_spec_agrees(pool: Seq<DecayRecord>, lad: Seq<u64>)
    requires
        is_ladder(pool, lad),
    ensures
        ladder_spec(pool) == lad,
{
    assert(exists|l: Seq<u64>| is_ladder(pool, l));
    assert(is_ladder(pool, ladder_spec(pool)));
    lemma_strictly_sorted_unique(ladder_spec(pool), lad);
}

/// The target parent energy for state `index` over a given ladder.
///
/// A ladder whose lowest rung is zero has an explicit ground state: the state
/// index selects a rung directly. A ladder that starts above zero has no
/// ground-state entry: its first rung is taken to be the first excited state,
/// so the ground state has no data and rung `index - 1` serves excited state
/// `index`. Out-of-range indices have no target.
pub open spec fn target_from_ladder(lad: Seq<u64>, index: nat) -> Option<u64> {
    if lad.len() == 0 {
        None
    } else if lad[0] == 0 {
        if index < lad.len() {
            Some(lad[index as int])
        } else {
            None
        }
    } else {
        if index == 0 {
            None
        } else if index <= lad.len() {
            Some(lad[index - 1])
        } else {
            None
        }
    }
}

/// The target parent energy for state `index` of a raw pool.
pub open spec fn target_spec(pool: Seq<DecayRecord>, index: nat) -> Option<u64> {
    target_from_ladder(ladder_spec(pool), index)
}

/// A record belongs to the state with target energy `target` when its parent
/// energy equals the target exactly, or is unset ("unknown parent energy,
/// assume it belongs").
pub open spec fn keeps(target: u64) -> spec_fn(DecayRecord) -> bool {
    |r: DecayRecord| r.p_energy == Some(target) || r.p_energy is None
}

/// The records of the pool that belong to state `index`: empty when the state
/// has no target energy, otherwise the subsequence matching the target.
pub open spec fn resolve_spec(pool: Seq<DecayRecord>, index: nat) -> Seq<DecayRecord> {
    match target_spec(pool, index) {
        None => Seq::<DecayRecord>::empty(),
        Some(t) => pool.filter(keeps(t)),
    }
}

/// Compute the energy ladder of a pool: its distinct parent energies, sorted
/// ascending.
pub fn energy_ladder(pool: &Vec<DecayRecord>) -> (lad: Vec<u64>)
    ensures
        is_ladder(pool@, lad@),
        lad@ == ladder_spec(pool@),
{
    let mut lad: Vec<u64> = Vec::new();
    let mut i: usize = 0;
    while i < pool.len()
        invariant
            i <= pool@.len(),
            strictly_sorted(lad@),
            forall|e: u64| #[trigger] lad@.contains(e) <==> has_p_energy(
                pool@.take(i as int),
                e,
            ),
        decreases pool@.len() - i,
    {
        let ghost prefix = pool@.take(i as int);
        let ghost prefix1 = pool@.take((i + 1) as int);
        proof {
            assert(forall|m: int| 0 <= m < prefix.len() ==> #[trigger] prefix[m] == pool@[m]);
            assert(forall|m: int| 0 <= m < prefix1.len() ==> #[trigger] prefix1[m] == pool@[m]);
        }
        let pe = pool[i].p_energy;
        if let Option::Some(e) = pe {
            let ghost before = lad@;
            let mut j: usize = 0;
            while j < lad.len() && lad[j] < e
                invariant
                    j <= lad@.len(),
                    lad@ == before,
                    forall|m: int| 0 <= m < j ==> #[trigger] lad@[m] < e,
                decreases lad@.len() - j,
            {
                j += 1;
            }
            let present = j < lad.len() && lad[j] == e;
            if !present {
                lad.insert(j, e);
                proof {
                    before.insert_ensures(j as int, e);
                    assert(strictly_sorted(lad@)) by {
                        assert forall|p: int, q: int| 0 <= p < q < lad@.len() implies lad@[p]
                            < lad@[q] by {
                            if q < j {
                                assert(lad@[p] == before[p] && lad@[q] == before[q]);
                            } else if p < j && q == j {
                                assert(lad@[p] == before[p] && lad@[q] == e);
                            } else if p < j && q > j {
                                assert(lad@[p] == before[p] && lad@[q] == before[q - 1]);
                                if p < q - 1 {
                                    assert(before[p] < before[q - 1]);
                                } else {
                                    assert(before[p] < e);
                                    assert(e <= before[q - 1]);
                                }
                            } else if p == j {
                                assert(lad@[p] == e && lad@[q] == before[q - 1]);
                                assert(j < before.len());
                                assert(e <= before[j as int]);
                                assert(e != before[q - 1]);
                                if j as int <= q - 2 {
                                    assert(before[j as int] <= before[q - 1]);
                                }
                            } else {
                                assert(lad@[p] == before[p - 1] && lad@[q] == before[q - 1]);
                            }
                        }
                    }
                    assert forall|x: u64| #[trigger] lad@.contains(x) <==> (before.contains(x)
                        || x == e) by {
                        if lad@.contains(x) {
                            let m = choose|m: int| 0 <= m < lad@.len() && lad@[m] == x;
                            if m < j {
                                assert(before[m] == x);
                                assert(before.contains(x));
                            } else if m == j {
                                assert(x == e);
                            } else {
                                assert(before[m - 1] == x);
                                assert(before.contains(x));
                            }
                        }
                        if before.contains(x) {
                            let m = choose|m: int| 0 <= m < before.len() && before[m] == x;
                            if m < j {
                                assert(lad@[m] == x);
                            } else {
                                assert(lad@[m + 1] == x);
                            }
                            assert(lad@.contains(x));
                        }
                        if x == e {
                            assert(lad@[j as int] == x);
                            assert(lad@.contains(x));
                        }
                    }
                }
            } else {
                proof {
                    assert(lad@[j as int] == e);
                    assert(lad@.contains(e));
                }
            }
            proof {
                assert forall|x: u64| has_p_energy(prefix1, x) <==> (has_p_energy(prefix, x)
                    || x == e) by {
                    if has_p_energy(prefix1, x) {
                        let m = choose|m: int|
                            0 <= m < prefix1.len() && prefix1[m].p_energy == Some(x);
                        if m < i {
                            assert(prefix[m].p_energy == Some(x));
                            assert(has_p_energy(prefix, x));
                        } else {
                            assert(prefix1[m] == pool@[i as int]);
                            assert(x == e);
                        }
                    }
                    if has_p_energy(prefix, x) {
                        let m = choose|m: int|
                            0 <= m < prefix.len() && prefix[m].p_energy == Some(x);
                        assert(prefix1[m].p_energy == Some(x));
                        assert(has_p_energy(prefix1, x));
                    }
                    if x == e {
                        assert(prefix1[i as int].p_energy == Some(x));
                        assert(has_p_energy(prefix1, x));
                    }
                }
            }
        } else {
            proof {
                assert forall|x: u64| has_p_energy(prefix1, x) <==> has_p_energy(prefix, x) by {
                    if has_p_energy(prefix1, x) {
                        let m = choose|m: int|
                            0 <= m < prefix1.len() && prefix1[m].p_energy == Some(x);
                        assert(m < i);
                        assert(prefix[m].p_energy == Some(x));
                        assert(has_p_energy(prefix, x));
                    }
                    if has_p_energy(prefix, x) {
                        let m = choose|m: int|
                            0 <= m < prefix.len() && prefix[m].p_energy == Some(x);
                        assert(prefix1[m].p_energy == Some(x));
                        assert(has_p_energy(prefix1, x));
                    }
                }
            }
        }
        i += 1;
    }
    proof {
        assert(pool@.take(pool@.len() as int) =~= pool@);
        lemma_ladder_spec_agrees(pool@, lad@);
    }
    lad
}

/// Pick the target parent energy for state `index` from a ladder.
pub fn target_energy(lad: &Vec<u64>, index: usize) -> (t: Option<u64>)
    ensures
        t == target_from_ladder(lad@, index as nat),
{
    if lad.len() == 0 {
        Option::None
    } else if lad[0] == 0 {
        if index < lad.len() {
            Option::Some(lad[index])
        } else {
            Option::None
        }
    } else {
        if index == 0 {
            Option::None
        } else if index <= lad.len() {
            Option::Some(lad[index - 1])
        } else {
            Option::None
        }
    }
}

/// Keep exactly the records that belong to the state with target energy
/// `target`, in their original order.
pub fn select_state_records(pool: Vec<DecayRecord>, target: u64) -> (out: Vec<DecayRecord>)
    ensures
        out@ == pool@.filter(keeps(target)),
{
    let ghost orig = pool@;
    let mut rest = pool;
    let mut out: Vec<DecayRecord> = Vec::new();
    proof {
        assert(orig.take(0).filter(keeps(target)) =~= Seq::<DecayRecord>::empty()) by {
            reveal(Seq::filter);
            assert(orig.take(0) =~= Seq::<DecayRecord>::empty());
        }
    }
    while rest.len() > 0
        invariant
            rest@.len() <= orig.len(),
            rest@ == orig.skip(orig.len() - rest@.len()),
            out@ == orig.take(orig.len() - rest@.len()).filter(keeps(target)),
        decreases rest@.len(),
    {
        let ghost done = orig.len() - rest@.len();
        let r = rest.remove(0);
        proof {
            assert(r == orig[done]);
            assert(rest@ =~= orig.skip(orig.len() - rest@.len()));
            assert(orig.take(done + 1) =~= orig.take(done) + seq![orig[done]]);
            Seq::filter_distributes_over_add(orig.take(done), seq![orig[done]], keeps(target));
            lemma_filter_one(orig[done], keeps(target));
        }
        let keep = match r.p_energy {
            Option::Some(e) => e == target,
            Option::None => true,
        };
        if keep {
            out.push(r);
        }
        proof {
            assert(out@ =~= orig.take(done + 1).filter(keeps(target)));
        }
    }
    proof {
        assert(orig.take(orig.len() as int) =~= orig);
    }
    out
}

proof fn lemma_filter_one<A>(x: A, pred: spec_fn(A) -> bool)
    ensures
        pred(x) ==> seq![x].filter(pred) == seq![x],
        !pred(x) ==> seq![x].filter(pred) == Seq::<A>::empty(),
{
    reveal(Seq::filter);
    assert(seq![x].drop_last() =~= Seq::<A>::empty());
    assert(Seq::<A>::empty().filter(pred) =~= Seq::<A>::empty());
    assert(seq![x].drop_last().filter(pred) =~= Seq::<A>::empty());
    if pred(x) {
        assert(seq![x].filter(pred) =~= seq![x]);
    } else {
        assert(seq![x].filter(pred) =~= Seq::<A>::empty());
    }
}

/// Narrow a raw pool to the records of state `index`.
///
/// The pool must show at least one parent energy; a pool whose every record
/// lacks one has no ladder to cluster by, and the engine treats that as
/// corrupt upstream data.
pub fn resolve_records(pool: Vec<DecayRecord>, index: usize) -> (out: Vec<DecayRecord>)
    requires
        exists|e: u64| has_p_energy(pool@, e),
    ensures
        out@ == resolve_spec(pool@, index as nat),
{
    let lad = energy_ladder(&pool);
    proof {
        let e = choose|e: u64| has_p_energy(pool@, e);
        assert(lad@.contains(e));
    }
    match target_energy(&lad, index) {
        Option::None => Vec::new(),
        Option::Some(t) => select_state_records(pool, t),
    }
}

/// Resolution is pure: equal pools and equal state indices always select
/// identical record sets, so resolving twice gives the same result.
pub proof fn lemma_resolution_idempotent(
    pool1: Seq<DecayRecord>,
    pool2: Seq<DecayRecord>,
    index: nat,
)
    requires
        pool1 == pool2,
    ensures
        resolve_spec(pool1, index) == resolve_spec(pool2, index),
{
}

/// Partition law: every record selected for a state has its parent energy
/// either unset or exactly equal to the state's one target energy.
pub proof fn lemma_resolved_partition(pool: Seq<DecayRecord>, index: nat, i: int)
    requires
        0 <= i < resolve_spec(pool, index).len(),
    ensures
        target_spec(pool, index) is Some,
        resolve_spec(pool, index)[i].p_energy is None || resolve_spec(pool, index)[i].p_energy
            == target_spec(pool, index),
{
    match target_spec(pool, index) {
        Option::None => {
            assert(resolve_spec(pool, index).len() == 0);
        },
        Option::Some(t) => {
            pool.lemma_filter_pred(keeps(t), i);
        },
    }
}

} // verus!
