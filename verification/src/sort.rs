use vstd::prelude::*;
use vstd::seq_lib::lemma_multiset_commutative;

use crate::records::{energy_key, intensity_key, DecayRecord};
use crate::wrappers::Property;

verus! {

/// The key that `prop` orders by, as a single integer. Records without the
/// property carry the sentinel key `-1`, below every real value.
pub open spec fn sort_key(prop: Property, r: DecayRecord) -> int {
    match prop {
        Property::Energy => energy_key(r),
        Property::Intensity => intensity_key(r),
    }
}

/// `a` may stand at or before `b` when ordering by `prop`: ascending for
/// energy, descending for intensity.
pub open spec fn key_leq(prop: Property, a: DecayRecord, b: DecayRecord) -> bool {
    match prop {
        Property::Energy => sort_key(prop, a) <= sort_key(prop, b),
        Property::Intensity => sort_key(prop, a) >= sort_key(prop, b),
    }
}

/// `a` must stand strictly before `b` when ordering by `prop`.
pub open spec fn key_lt(prop: Property, a: DecayRecord, b: DecayRecord) -> bool {
    !key_leq(prop, b, a)
}

pub open spec fn sorted_by_prop(prop: Property, s: Seq<DecayRecord>) -> bool {
    forall|i: int, j: int| 0 <= i < j < s.len() ==> key_leq(prop, #[trigger] s[i], #[trigger] s[j])
}

/// The subsequence of `s` made of the records whose sort key is exactly `k`.
pub open spec fn key_filter(prop: Property, k: int, s: Seq<DecayRecord>) -> Seq<DecayRecord> {
    s.filter(|r: DecayRecord| sort_key(prop, r) == k)
}

/// `b` is a stable rearrangement of `a`: for every key value, the records
/// carrying that key stand in `b` exactly as they stand in `a`.
pub open spec fn same_key_subsequences(
    prop: Property,
    a: Seq<DecayRecord>,
    b: Seq<DecayRecord>,
) -> bool {
    forall|k: int| #[trigger] key_filter(prop, k, a) == key_filter(prop, k, b)
}

/// Strict comparison of two records under `prop`, decided on the plain
/// fixed-point values with the unset sentinel of `sort_key`.
fn rec_lt(prop: Property, a: &DecayRecord, b: &DecayRecord) -> (r: bool)
    ensures
        r == key_lt(prop, *a, *b),
{
    match prop {
        Property::Energy => match (a.energy, b.energy) {
            (Option::None, Option::None) => false,
            (Option::None, Option::Some(_)) => true,
            (Option::Some(_), Option::None) => false,
            (Option::Some(x), Option::Some(y)) => x < y,
        },
        Property::Intensity => match (a.intensity, b.intensity) {
            (Option::None, Option::None) => false,
            (Option::None, Option::Some(_)) => false,
            (Option::Some(_), Option::None) => true,
            (Option::Some(x), Option::Some(y)) => x > y,
        },
    }
}

/// A filter over a sequence none of whose elements satisfy the predicate is
/// empty.
pub(crate) proof fn lemma_filter_none<A>(s: Seq<A>, pred: spec_fn(A) -> bool)
    requires
        forall|i: int| 0 <= i < s.len() ==> !pred(#[trigger] s[i]),
    ensures
        s.filter(pred) == Seq::<A>::empty(),
    decreases s.len(),
{
    reveal(Seq::filter);
    if s.len() > 0 {
        lemma_filter_none(s.drop_last(), pred);
    }
    assert(s.filter(pred) =~= Seq::<A>::empty());
}

pub(crate) proof fn lemma_filter_singleton<A>(x: A, pred: spec_fn(A) -> bool)
    ensures
        pred(x) ==> seq![x].filter(pred) == seq![x],
        !pred(x) ==> seq![x].filter(pred) == Seq::<A>::empty(),
{
    reveal(Seq::filter);
    assert(seq![x].drop_last() =~= Seq::<A>::empty());
    assert(Seq::<A>::empty().filter(pred) =~= Seq::<A>::empty());
    assert(seq![x].drop_last().filter(pred) =~= Seq::<A>::empty());
    if pred(x) {
        assert(seq![x].filter(pred) =~= seq![x]);
    } else {
        assert(seq![x].filter(pred) =~= Seq::<A>::empty());
    }
}

/// Moving one record leftward past records whose keys all differ from its own
/// leaves every key's subsequence unchanged.
proof fn lemma_stable_move(
    prop: Property,
    a: Seq<DecayRecord>,
    b: Seq<DecayRecord>,
    x: DecayRecord,
    c: Seq<DecayRecord>,
)
    requires
        forall|m: int| 0 <= m < b.len() ==> sort_key(prop, #[trigger] b[m]) != sort_key(prop, x),
    ensures
        same_key_subsequences(prop, a + b + seq![x] + c, a + seq![x] + b + c),
{
    assert forall|k: int|
        #[trigger] key_filter(prop, k, a + b + seq![x] + c) == key_filter(
            prop,
            k,
            a + seq![x] + b + c,
        ) by {
        let pred = |r: DecayRecord| sort_key(prop, r) == k;
        Seq::filter_distributes_over_add(a + b + seq![x], c, pred);
        Seq::filter_distributes_over_add(a + b, seq![x], pred);
        Seq::filter_distributes_over_add(a, b, pred);
        Seq::filter_distributes_over_add(a + seq![x] + b, c, pred);
        Seq::filter_distributes_over_add(a + seq![x], b, pred);
        Seq::filter_distributes_over_add(a, seq![x], pred);
        lemma_filter_singleton(x, pred);
        if k == sort_key(prop, x) {
            lemma_filter_none(b, pred);
        }
        assert((a + b + seq![x] + c).filter(pred) =~= (a + seq![x] + b + c).filter(pred));
    };
}

/// Reorder `v` in place by `prop`. The result is sorted, is a permutation of
/// the input, and is stable: records with equal keys keep their relative
/// order.
pub fn sort_records_by(v: &mut Vec<DecayRecord>, prop: Property)
    ensures
        sorted_by_prop(prop, final(v)@),
        same_key_subsequences(prop, old(v)@, final(v)@),
        final(v)@.to_multiset() == old(v)@.to_multiset(),
{
    let ghost orig = v@;
    if v.len() <= 1 {
        return;
    }
    let mut i: usize = 1;
    while i < v.len()
        invariant
            1 <= i <= v@.len(),
            v@.len() == orig.len(),
            sorted_by_prop(prop, v@.take(i as int)),
            same_key_subsequences(prop, orig, v@),
            v@.to_multiset() == orig.to_multiset(),
        decreases v@.len() - i,
    {
        let ghost snap = v@;
        let mut j: usize = i;
        while j > 0 && rec_lt(prop, &v[i], &v[j - 1])
            invariant
                j <= i < v@.len(),
                v@ == snap,
                forall|m: int| j <= m < i ==> key_lt(prop, v@[i as int], #[trigger] v@[m]),
            decreases j,
        {
            j -= 1;
        }
        let ghost x = snap[i as int];
        let r = v.remove(i);
        v.insert(j, r);
        proof {
            let av = snap.take(j as int);
            let bv = snap.subrange(j as int, i as int);
            let cv = snap.skip((i + 1) as int);
            assert(snap =~= av + bv + seq![x] + cv);
            assert(v@ =~= av + seq![x] + bv + cv);
            // stability of this insertion step
            assert forall|m: int| 0 <= m < bv.len() implies sort_key(prop, #[trigger] bv[m])
                != sort_key(prop, x) by {
                assert(key_lt(prop, x, snap[j + m]));
            };
            lemma_stable_move(prop, av, bv, x, cv);
            assert forall|k: int| #[trigger] key_filter(prop, k, orig) == key_filter(
                prop,
                k,
                v@,
            ) by {
                assert(key_filter(prop, k, orig) == key_filter(prop, k, snap));
                assert(key_filter(prop, k, snap) == key_filter(prop, k, v@));
            };
            // the permutation is kept
            lemma_multiset_commutative(av + bv + seq![x], cv);
            lemma_multiset_commutative(av + bv, seq![x]);
            lemma_multiset_commutative(av, bv);
            lemma_multiset_commutative(av + seq![x] + bv, cv);
            lemma_multiset_commutative(av + seq![x], bv);
            lemma_multiset_commutative(av, seq![x]);
            assert(v@.to_multiset() =~= snap.to_multiset());
            // the sorted prefix has grown by one
            let t = v@.take((i + 1) as int);
            assert forall|p: int, q: int| 0 <= p < q < t.len() implies key_leq(
                prop,
                #[trigger] t[p],
                #[trigger] t[q],
            ) by {
                assert(forall|m: int| 0 <= m < (i + 1) as int ==> t[m] == v@[m]);
                if j > 0 {
                    assert(!key_lt(prop, x, snap[j as int - 1]));
                }
                assert(forall|m: int| 0 <= m < (j as int) ==> v@[m] == snap[m]);
                assert(v@[j as int] == x);
                assert(forall|m: int| (j as int) < m < ((i + 1) as int) ==> v@[m] == snap[m - 1]);
                assert(forall|m: int| (j as int) <= m < (i as int) ==> key_lt(
                    prop,
                    x,
                    #[trigger] snap[m],
                ));
                assert(sorted_by_prop(prop, snap.take(i as int)));
                assert forall|p2: int, q2: int| 0 <= p2 < q2 < (i as int) implies key_leq(
                    prop,
                    #[trigger] snap[p2],
                    #[trigger] snap[q2],
                ) by {
                    assert(key_leq(prop, snap.take(i as int)[p2], snap.take(i as int)[q2]));
                };
            };
        }
        i += 1;
    }
    proof {
        assert(v@.take(v@.len() as int) =~= v@);
    }
}

} // verus!
