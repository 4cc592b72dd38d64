use vstd::prelude::*;
use vstd::seq_lib::lemma_multiset_commutative;
use vstd::string::StrSliceExecFns;

use crate::cli::Cli;
use crate::ident::{name_seq, name_state_seq, NuclideIdentifier};
use crate::records::DecayRecord;
use crate::resolve::{has_p_energy, resolve_records, resolve_spec};
use crate::sort::{
    lemma_filter_none, lemma_filter_singleton, same_key_subsequences, sort_records_by,
    sorted_by_prop,
};
use crate::wrappers::Property;

verus! {

/// The hard-stop failure of a request: nothing usable was found for any
/// requested nuclide.
#[derive(Debug, Copy, Clone, PartialEq, Eq, Structural)]
pub enum DecayError {
    NoDataFound,
}

/// One nuclide to report on: its display name (state suffix included), its
/// identifier, and the decay records narrowed to its exact isomeric state.
#[derive(Debug)]
pub struct NuclideData {
    pub name: String,
    pub nuclide: NuclideIdentifier,
    pub records: Vec<DecayRecord>,
}

/// Equality of collection entries: same display name and same identifier, as
/// duplicate removal decides it.
pub open spec fn nd_eq(a: NuclideData, b: NuclideData) -> bool {
    a.name@ == b.name@ && a.nuclide == b.nuclide
}

impl PartialEq for NuclideData {
    fn eq(&self, o: &Self) -> (r: bool) {
        self.name == o.name && self.nuclide == o.nuclide
    }
}

impl vstd::std_specs::cmp::PartialEqSpecImpl for NuclideData {
    open spec fn obeys_eq_spec() -> bool {
        true
    }

    open spec fn eq_spec(&self, o: &NuclideData) -> bool {
        nd_eq(*self, *o)
    }
}

/// Lexicographic order on names, by character code.
pub open spec fn lex_leq(a: Seq<char>, b: Seq<char>) -> bool
    decreases a.len(),
{
    if a.len() == 0 {
        true
    } else if b.len() == 0 {
        false
    } else if a[0] as u32 != b[0] as u32 {
        (a[0] as u32) < (b[0] as u32)
    } else {
        lex_leq(a.drop_first(), b.drop_first())
    }
}

pub proof fn lemma_lex_refl(a: Seq<char>)
    ensures
        lex_leq(a, a),
    decreases a.len(),
{
    if a.len() > 0 {
        lemma_lex_refl(a.drop_first());
    }
}

pub proof fn lemma_lex_total(a: Seq<char>, b: Seq<char>)
    ensures
        lex_leq(a, b) || lex_leq(b, a),
    decreases a.len(),
{
    if a.len() > 0 && b.len() > 0 && a[0] as u32 == b[0] as u32 {
        lemma_lex_total(a.drop_first(), b.drop_first());
    }
}

pub proof fn lemma_lex_trans(a: Seq<char>, b: Seq<char>, c: Seq<char>)
    requires
        lex_leq(a, b),
        lex_leq(b, c),
    ensures
        lex_leq(a, c),
    decreases a.len(),
{
    if a.len() > 0 && b.len() > 0 && c.len() > 0 && a[0] as u32 == b[0] as u32 && b[0] as u32 == c[0] as u32 {
        lemma_lex_trans(a.drop_first(), b.drop_first(), c.drop_first());
    }
}

/// Decide `lex_leq` on two strings.
pub fn str_leq(a: &str, b: &str) -> (r: bool)
    ensures
        r == lex_leq(a@, b@),
{
    let na = a.unicode_len();
    let nb = b.unicode_len();
    let mut i: usize = 0;
    proof {
        assert(a@.skip(0) =~= a@);
        assert(b@.skip(0) =~= b@);
    }
    while i < na && i < nb
        invariant
            i <= na,
            i <= nb,
            na as int == a@.len(),
            nb as int == b@.len(),
            lex_leq(a@, b@) == lex_leq(a@.skip(i as int), b@.skip(i as int)),
        decreases na - i,
    {
        let ca = a.get_char(i);
        let cb = b.get_char(i);
        proof {
            let sa = a@.skip(i as int);
            let sb = b@.skip(i as int);
            assert(sa[0] == a@[i as int] && sb[0] == b@[i as int]);
            assert(sa.drop_first() =~= a@.skip((i + 1) as int));
            assert(sb.drop_first() =~= b@.skip((i + 1) as int));
        }
        let ua = ca as u32;
        let ub = cb as u32;
        if ua != ub {
            return ua < ub;
        }
        i += 1;
    }
    proof {
        if i == na {
            assert(a@.skip(i as int).len() == 0);
        } else {
            assert(b@.skip(i as int).len() == 0);
            assert(a@.skip(i as int).len() > 0);
        }
    }
    na <= nb
}

pub open spec fn sorted_by_name(s: Seq<NuclideData>) -> bool {
    forall|i: int, j: int|
        0 <= i < j < s.len() ==> lex_leq(#[trigger] s[i].name@, #[trigger] s[j].name@)
}

/// The subsequence of `s` whose entries carry exactly the name `k`.
pub open spec fn name_filter(k: Seq<char>, s: Seq<NuclideData>) -> Seq<NuclideData> {
    s.filter(|d: NuclideData| d.name@ == k)
}

/// `b` is a stable rearrangement of `a`: for every name, the entries carrying
/// that name stand in `b` exactly as they stand in `a`.
pub open spec fn same_name_subsequences(a: Seq<NuclideData>, b: Seq<NuclideData>) -> bool {
    forall|k: Seq<char>| #[trigger] name_filter(k, a) == name_filter(k, b)
}

fn nd_lt(a: &NuclideData, b: &NuclideData) -> (r: bool)
    ensures
        r == !lex_leq(b.name@, a.name@),
{
    !str_leq(b.name.as_str(), a.name.as_str())
}

/// Moving one entry leftward past entries whose names all differ from its own
/// leaves every name's subsequence unchanged.
proof fn lemma_stable_move_names(
    a: Seq<NuclideData>,
    b: Seq<NuclideData>,
    x: NuclideData,
    c: Seq<NuclideData>,
)
    requires
        forall|m: int| 0 <= m < b.len() ==> (#[trigger] b[m].name@) != x.name@,
    ensures
        same_name_subsequences(a + b + seq![x] + c, a + seq![x] + b + c),
{
    assert forall|k: Seq<char>|
        #[trigger] name_filter(k, a + b + seq![x] + c) == name_filter(
            k,
            a + seq![x] + b + c,
        ) by {
        let pred = |d: NuclideData| d.name@ == k;
        Seq::filter_distributes_over_add(a + b + seq![x], c, pred);
        Seq::filter_distributes_over_add(a + b, seq![x], pred);
        Seq::filter_distributes_over_add(a, b, pred);
        Seq::filter_distributes_over_add(a + seq![x] + b, c, pred);
        Seq::filter_distributes_over_add(a + seq![x], b, pred);
        Seq::filter_distributes_over_add(a, seq![x], pred);
        lemma_filter_singleton(x, pred);
        if k == x.name@ {
            lemma_filter_none(b, pred);
        }
        assert((a + b + seq![x] + c).filter(pred) =~= (a + seq![x] + b + c).filter(pred));
    };
}

/// Reorder the collection by display name, ascending; entries with equal
/// names keep their relative order, and nothing is added or lost.
pub fn sort_nuclides_by_name(v: &mut Vec<NuclideData>)
    ensures
        sorted_by_name(final(v)@),
        same_name_subsequences(old(v)@, final(v)@),
        final(v)@.to_multiset() == old(v)@.to_multiset(),
{
    let ghost orig = v@;
    if v.len() <= 1 {
        return;
    }
    let mut i: usize = 1;
    while i < v.len()
        invariant
            1 <= i <= v@.len(),
            v@.len() == orig.len(),
            sorted_by_name(v@.take(i as int)),
            same_name_subsequences(orig, v@),
            v@.to_multiset() == orig.to_multiset(),
        decreases v@.len() - i,
    {
        let ghost snap = v@;
        let mut j: usize = i;
        while j > 0 && nd_lt(&v[i], &v[j - 1])
            invariant
                j <= i < v@.len(),
                v@ == snap,
                forall|m: int| j <= m < i ==> !lex_leq(#[trigger] v@[m].name@, v@[i as int].name@),
            decreases j,
        {
            j -= 1;
        }
        let ghost x = snap[i as int];
        let r = v.remove(i);
        v.insert(j, r);
        proof {
            let av = snap.take(j as int);
            let bv = snap.subrange(j as int, i as int);
            let cv = snap.skip((i + 1) as int);
            assert(snap =~= av + bv + seq![x] + cv);
            assert(v@ =~= av + seq![x] + bv + cv);
            assert forall|m: int| 0 <= m < bv.len() implies (#[trigger] bv[m].name@) != x.name@ by {
                assert(!lex_leq(snap[j + m].name@, x.name@));
                lemma_lex_refl(x.name@);
            };
            lemma_stable_move_names(av, bv, x, cv);
            assert forall|k: Seq<char>| #[trigger] name_filter(k, orig) == name_filter(k, v@) by {
                assert(name_filter(k, orig) == name_filter(k, snap));
                assert(name_filter(k, snap) == name_filter(k, v@));
            };
            lemma_multiset_commutative(av + bv + seq![x], cv);
            lemma_multiset_commutative(av + bv, seq![x]);
            lemma_multiset_commutative(av, bv);
            lemma_multiset_commutative(av + seq![x] + bv, cv);
            lemma_multiset_commutative(av + seq![x], bv);
            lemma_multiset_commutative(av, seq![x]);
            assert(v@.to_multiset() =~= snap.to_multiset());
            let t = v@.take((i + 1) as int);
            assert(forall|m: int| 0 <= m < (i + 1) as int ==> #[trigger] t[m] == v@[m]);
            assert(forall|m: int| 0 <= m < (j as int) ==> #[trigger] v@[m] == snap[m]);
            assert(v@[j as int] == x);
            assert(forall|m: int| (j as int) < m < ((i + 1) as int) ==> #[trigger] v@[m] == snap[m
                - 1]);
            assert forall|m: int| (j as int) <= m < (i as int) implies lex_leq(
                x.name@,
                #[trigger] snap[m].name@,
            ) by {
                lemma_lex_total(x.name@, snap[m].name@);
            };
            assert forall|p2: int, q2: int| 0 <= p2 < q2 < (i as int) implies lex_leq(
                #[trigger] snap[p2].name@,
                #[trigger] snap[q2].name@,
            ) by {
                assert(snap.take(i as int)[p2] == snap[p2]);
                assert(snap.take(i as int)[q2] == snap[q2]);
                assert(lex_leq(snap.take(i as int)[p2].name@, snap.take(i as int)[q2].name@));
            };
            assert forall|p: int, q: int| 0 <= p < q < t.len() implies lex_leq(
                #[trigger] t[p].name@,
                #[trigger] t[q].name@,
            ) by {
                if q < j as int {
                    // both inside the untouched prefix
                } else if p < j as int && q == j as int {
                    if p == j - 1 {
                        assert(lex_leq(snap[j - 1].name@, x.name@));
                    } else {
                        lemma_lex_trans(snap[p].name@, snap[j - 1].name@, x.name@);
                    }
                } else if p == j as int {
                    assert(lex_leq(x.name@, snap[q - 1].name@));
                } else {
                    // both are old entries, in their old relative order
                }
            };
        }
        i += 1;
    }
    proof {
        assert(v@.take(v@.len() as int) =~= v@);
    }
}

/// Total observed intensity of a record set, in micro-percent.
pub open spec fn intensity_of(r: DecayRecord) -> int {
    match r.intensity {
        Option::None => 0,
        Option::Some(v) => v as int,
    }
}

pub open spec fn intensity_sum(rs: Seq<DecayRecord>) -> int
    decreases rs.len(),
{
    if rs.len() == 0 {
        0
    } else {
        intensity_sum(rs.drop_last()) + intensity_of(rs.last())
    }
}

/// Denominator of the normalization factor: `norm()` over this value is the
/// expected particle yield per decay (total intensity in micro-percent over
/// one hundred percent).
pub const NORM_DENOM: u64 = 100_000_000;

impl NuclideData {
    /// Numerator of the normalization factor for this nuclide's records: the
    /// total observed intensity, unset intensities counting as zero. The
    /// factor itself is this value divided by `NORM_DENOM`.
    pub fn norm(&self) -> (r: u128)
        ensures
            r as int == intensity_sum(self.records@),
    {
        let mut total: u128 = 0;
        let mut i: usize = 0;
        while i < self.records.len()
            invariant
                i <= self.records@.len(),
                total as int == intensity_sum(self.records@.take(i as int)),
                total as int <= (i as int) * (u64::MAX as int),
            decreases self.records@.len() - i,
        {
            proof {
                let pre = self.records@.take(i as int);
                let pre1 = self.records@.take((i + 1) as int);
                assert(pre1.drop_last() =~= pre);
                assert(pre1.last() == self.records@[i as int]);
            }
            match self.records[i].intensity {
                Option::Some(v) => {
                    total = total + (v as u128);
                },
                Option::None => {},
            }
            i += 1;
        }
        proof {
            assert(self.records@.take(self.records@.len() as int) =~= self.records@);
        }
        total
    }

    /// Narrow the raw pool from the record provider down to this nuclide's
    /// exact isomeric state. A provider that had nothing (`None`) leaves the
    /// records as they are; otherwise the pool must show at least one parent
    /// energy, and the records become exactly the state's subset.
    pub fn find_records(&mut self, pool: Option<Vec<DecayRecord>>)
        requires
            match pool {
                Option::Some(p) => exists|e: u64| has_p_energy(p@, e),
                Option::None => true,
            },
        ensures
            final(self).name == old(self).name,
            final(self).nuclide == old(self).nuclide,
            match pool {
                Option::None => final(self).records == old(self).records,
                Option::Some(p) => final(self).records@ == resolve_spec(
                    p@,
                    old(self).nuclide.state.index_spec(),
                ),
            },
    {
        match pool {
            Option::None => {},
            Option::Some(p) => {
                let idx = self.nuclide.state.index();
                self.records = resolve_records(p, idx);
            },
        }
    }

    /// Reorder this nuclide's records by the given property; records with
    /// equal keys keep their relative order.
    pub fn sort_records(&mut self, property: &Property)
        ensures
            final(self).name == old(self).name,
            final(self).nuclide == old(self).nuclide,
            sorted_by_prop(*property, final(self).records@),
            same_key_subsequences(*property, old(self).records@, final(self).records@),
            final(self).records@.to_multiset() == old(self).records@.to_multiset(),
    {
        sort_records_by(&mut self.records, *property);
    }
}

/// An entry that survives into rendering: it has at least one record.
pub open spec fn has_records_pred() -> spec_fn(NuclideData) -> bool {
    |d: NuclideData| d.records@.len() > 0
}

/// Drop every nuclide whose resolved record set is empty, so that no empty
/// entry reaches rendering. When every entry is empty the whole request has
/// no data, which is the terminal no-data condition.
pub fn retain_resolved(nuclides: Vec<NuclideData>) -> (r: Result<Vec<NuclideData>, DecayError>)
    ensures
        match r {
            Result::Ok(kept) => kept@ == nuclides@.filter(has_records_pred()) && kept@.len() > 0,
            Result::Err(e) => e == DecayError::NoDataFound && forall|i: int|
                0 <= i < nuclides@.len() ==> (#[trigger] nuclides@[i]).records@.len() == 0,
        },
{
    let ghost orig = nuclides@;
    let mut rest = nuclides;
    let mut out: Vec<NuclideData> = Vec::new();
    proof {
        assert(orig.take(0).filter(has_records_pred()) =~= Seq::<NuclideData>::empty()) by {
            reveal(Seq::filter);
            assert(orig.take(0) =~= Seq::<NuclideData>::empty());
        }
    }
    while rest.len() > 0
        invariant
            rest@.len() <= orig.len(),
            rest@ == orig.skip(orig.len() - rest@.len()),
            out@ == orig.take(orig.len() - rest@.len()).filter(has_records_pred()),
        decreases rest@.len(),
    {
        let ghost done = orig.len() - rest@.len();
        let d = rest.remove(0);
        proof {
            assert(d == orig[done]);
            assert(rest@ =~= orig.skip(orig.len() - rest@.len()));
            assert(orig.take(done + 1) =~= orig.take(done) + seq![orig[done]]);
            Seq::filter_distributes_over_add(orig.take(done), seq![orig[done]], has_records_pred());
            lemma_filter_singleton(orig[done], has_records_pred());
        }
        if d.records.len() > 0 {
            out.push(d);
        }
        proof {
            assert(out@ =~= orig.take(done + 1).filter(has_records_pred()));
        }
    }
    proof {
        assert(orig.take(orig.len() as int) =~= orig);
    }
    if out.len() == 0 {
        proof {
            assert forall|i: int| 0 <= i < orig.len() implies (#[trigger] orig[i]).records@.len()
                == 0 by {
                if orig[i].records@.len() > 0 {
                    orig.lemma_filter_contains(has_records_pred(), i);
                }
            };
        }
        Err(DecayError::NoDataFound)
    } else {
        Ok(out)
    }
}


/// The listed isotopes of `sym`, chosen by exact symbol match.
pub open spec fn symbol_pred(sym: (char, Option<char>)) -> spec_fn(NuclideIdentifier) -> bool {
    |a: NuclideIdentifier| a.symbol == sym
}

/// The candidates one identifier contributes: itself for an explicit mass
/// number, every listed isotope of its element for a whole-element request.
pub open spec fn expansion_spec(
    id: NuclideIdentifier,
    available: Seq<NuclideIdentifier>,
) -> Seq<NuclideIdentifier> {
    if id.isotope != 0 {
        seq![id]
    } else {
        available.filter(symbol_pred(id.symbol))
    }
}

/// The candidates one raw token contributes: none when it does not parse.
pub open spec fn token_candidates(
    tok: Seq<char>,
    available: Seq<NuclideIdentifier>,
) -> Seq<NuclideIdentifier> {
    match crate::ident::parse_spec(tok) {
        Result::Err(_) => Seq::<NuclideIdentifier>::empty(),
        Result::Ok(id) => expansion_spec(id, available),
    }
}

/// All candidates of a token list, in request order.
pub open spec fn all_candidates(
    toks: Seq<Seq<char>>,
    available: Seq<NuclideIdentifier>,
) -> Seq<NuclideIdentifier>
    decreases toks.len(),
{
    if toks.len() == 0 {
        Seq::<NuclideIdentifier>::empty()
    } else {
        token_candidates(toks[0], available) + all_candidates(toks.drop_first(), available)
    }
}

pub open spec fn token_views(toks: Seq<String>) -> Seq<Seq<char>> {
    toks.map_values(|s: String| s@)
}

/// The identifiers of a collection, in order.
pub open spec fn ids_of(s: Seq<NuclideData>) -> Seq<NuclideIdentifier> {
    s.map_values(|d: NuclideData| d.nuclide)
}

proof fn lemma_candidates_snoc(
    toks: Seq<Seq<char>>,
    t: Seq<char>,
    available: Seq<NuclideIdentifier>,
)
    ensures
        all_candidates(toks.push(t), available) == all_candidates(toks, available)
            + token_candidates(t, available),
    decreases toks.len(),
{
    let tc = token_candidates(t, available);
    if toks.len() == 0 {
        assert(toks.push(t)[0] == t);
        assert(toks.push(t).drop_first() =~= Seq::<Seq<char>>::empty());
        assert(all_candidates(toks.push(t).drop_first(), available) == Seq::<
            NuclideIdentifier,
        >::empty());
        assert(all_candidates(toks.push(t), available) == tc + Seq::<NuclideIdentifier>::empty());
        assert(tc + Seq::<NuclideIdentifier>::empty() =~= tc);
        assert(all_candidates(toks, available) + tc =~= tc);
    } else {
        assert(toks.push(t)[0] == toks[0]);
        assert(toks.push(t).drop_first() =~= toks.drop_first().push(t));
        lemma_candidates_snoc(toks.drop_first(), t, available);
        assert(all_candidates(toks.push(t), available) == token_candidates(toks[0], available) + (
        all_candidates(toks.drop_first(), available) + tc));
        assert(token_candidates(toks[0], available) + (all_candidates(
            toks.drop_first(),
            available,
        ) + tc) =~= (token_candidates(toks[0], available) + all_candidates(
            toks.drop_first(),
            available,
        )) + tc);
    }
}

proof fn lemma_multiset_same_contains<A>(a: Seq<A>, b: Seq<A>, x: A)
    requires
        a.to_multiset() == b.to_multiset(),
    ensures
        a.contains(x) <==> b.contains(x),
{
    vstd::seq_lib::to_multiset_contains(a, x);
    vstd::seq_lib::to_multiset_contains(b, x);
    assert(a.to_multiset().count(x) == b.to_multiset().count(x));
}

/// Expand one identifier into report candidates.
pub fn expand_elements(
    nuclide: NuclideIdentifier,
    available: &Vec<NuclideIdentifier>,
) -> (out: Vec<NuclideIdentifier>)
    ensures
        out@ == expansion_spec(nuclide, available@),
{
    if nuclide.isotope != 0 {
        let mut out: Vec<NuclideIdentifier> = Vec::new();
        out.push(nuclide);
        proof {
            assert(out@ =~= seq![nuclide]);
        }
        out
    } else {
        let mut out: Vec<NuclideIdentifier> = Vec::new();
        let mut i: usize = 0;
        proof {
            assert(available@.take(0).filter(symbol_pred(nuclide.symbol)) =~= Seq::<
                NuclideIdentifier,
            >::empty()) by {
                reveal(Seq::filter);
                assert(available@.take(0) =~= Seq::<NuclideIdentifier>::empty());
            }
        }
        while i < available.len()
            invariant
                i <= available@.len(),
                out@ == available@.take(i as int).filter(symbol_pred(nuclide.symbol)),
            decreases available@.len() - i,
        {
            let a = available[i];
            proof {
                assert(available@.take((i + 1) as int) =~= available@.take(i as int)
                    + seq![available@[i as int]]);
                Seq::filter_distributes_over_add(
                    available@.take(i as int),
                    seq![available@[i as int]],
                    symbol_pred(nuclide.symbol),
                );
                lemma_filter_singleton(available@[i as int], symbol_pred(nuclide.symbol));
            }
            let same = a.symbol.0 == nuclide.symbol.0 && (match (a.symbol.1, nuclide.symbol.1) {
                (Option::None, Option::None) => true,
                (Option::Some(x), Option::Some(y)) => x == y,
                _ => false,
            });
            if same {
                out.push(a);
            }
            proof {
                assert(out@ =~= available@.take((i + 1) as int).filter(
                    symbol_pred(nuclide.symbol),
                ));
            }
            i += 1;
        }
        proof {
            assert(available@.take(available@.len() as int) =~= available@);
        }
        out
    }
}

/// Build the report collection from the raw tokens: parse each one (a token
/// that fails to parse is dropped, not an error), expand whole-element
/// requests over the provider's listing, give every entry its canonical
/// display name, order the collection by name, and drop exact duplicates.
/// When nothing is left, the request as a whole has found no data.
pub fn parse_nuclides(cli: &Cli, available: &Vec<NuclideIdentifier>) -> (r: Result<
    Vec<NuclideData>,
    DecayError,
>)
    ensures
        match r {
            Result::Ok(list) => {
                &&& list@.len() > 0
                &&& all_candidates(token_views(cli.nuclides@), available@).len() > 0
                &&& sorted_by_name(list@)
                &&& forall|i: int|
                    0 <= i < list@.len() ==> (#[trigger] list@[i]).name@ == name_state_seq(
                        list@[i].nuclide,
                    )
                &&& forall|i: int|
                    0 <= i < list@.len() ==> (#[trigger] list@[i]).records@.len() == 0
                &&& forall|i: int|
                    0 <= i < list@.len() - 1 ==> !nd_eq(#[trigger] list@[i], list@[i + 1])
                &&& forall|id: NuclideIdentifier|
                    #[trigger] ids_of(list@).contains(id) <==> all_candidates(
                        token_views(cli.nuclides@),
                        available@,
                    ).contains(id)
            },
            Result::Err(e) => {
                &&& e == DecayError::NoDataFound
                &&& all_candidates(token_views(cli.nuclides@), available@).len() == 0
            },
        },
{
    broadcast use vstd::seq_lib::group_to_multiset_ensures;

    let ghost tviews = token_views(cli.nuclides@);
    let ghost av = available@;
    let mut shells: Vec<NuclideData> = Vec::new();
    let mut k: usize = 0;
    proof {
        assert(tviews.take(0) =~= Seq::<Seq<char>>::empty());
        assert(ids_of(shells@) =~= all_candidates(tviews.take(0), av));
    }
    while k < cli.nuclides.len()
        invariant
            k <= cli.nuclides@.len(),
            tviews == token_views(cli.nuclides@),
            av == available@,
            ids_of(shells@) == all_candidates(tviews.take(k as int), av),
            forall|i: int|
                0 <= i < shells@.len() ==> (#[trigger] shells@[i]).name@ == name_state_seq(
                    shells@[i].nuclide,
                ),
            forall|i: int| 0 <= i < shells@.len() ==> (#[trigger] shells@[i]).records@.len() == 0,
        decreases cli.nuclides@.len() - k,
    {
        let ghost tok = tviews[k as int];
        proof {
            assert(tok == cli.nuclides@[k as int]@);
            assert(tviews.take((k + 1) as int) =~= tviews.take(k as int).push(tok));
            lemma_candidates_snoc(tviews.take(k as int), tok, av);
        }
        match crate::ident::parse_nuclide(cli.nuclides[k].as_str()) {
            Result::Err(_) => {
                proof {
                    assert(token_candidates(tok, av) =~= Seq::<NuclideIdentifier>::empty());
                    assert(ids_of(shells@) =~= all_candidates(tviews.take((k + 1) as int), av));
                }
            },
            Result::Ok(id) => {
                let expanded = expand_elements(id, available);
                proof {
                    assert(expanded@ == token_candidates(tok, av));
                }
                let mut m: usize = 0;
                while m < expanded.len()
                    invariant
                        m <= expanded@.len(),
                        ids_of(shells@) == all_candidates(tviews.take(k as int), av)
                            + expanded@.take(m as int),
                        forall|i: int|
                            0 <= i < shells@.len() ==> (#[trigger] shells@[i]).name@
                                == name_state_seq(shells@[i].nuclide),
                        forall|i: int|
                            0 <= i < shells@.len() ==> (#[trigger] shells@[i]).records@.len() == 0,
                    decreases expanded@.len() - m,
                {
                    let ghost pre = shells@;
                    let idm = expanded[m];
                    let nm = idm.name_with_state();
                    shells.push(NuclideData { name: nm, nuclide: idm, records: Vec::new() });
                    proof {
                        assert(ids_of(shells@) =~= ids_of(pre).push(idm));
                        assert(expanded@.take((m + 1) as int) =~= expanded@.take(m as int).push(
                            idm,
                        ));
                        assert(ids_of(shells@) =~= all_candidates(tviews.take(k as int), av)
                            + expanded@.take((m + 1) as int));
                    }
                    m += 1;
                }
                proof {
                    assert(expanded@.take(expanded@.len() as int) =~= expanded@);
                    assert(ids_of(shells@) =~= all_candidates(tviews.take((k + 1) as int), av));
                }
            },
        }
        k += 1;
    }
    proof {
        assert(tviews.take(tviews.len() as int) =~= tviews);
    }
    let ghost shells0 = shells@;
    sort_nuclides_by_name(&mut shells);
    let ghost s = shells@;
    proof {
        assert(s.to_multiset().len() == s.len());
        assert(shells0.to_multiset().len() == shells0.len());
        assert(s.len() == shells0.len());
        assert forall|i: int| 0 <= i < s.len() implies (#[trigger] s[i]).name@ == name_state_seq(
            s[i].nuclide,
        ) && s[i].records@.len() == 0 by {
            assert(s.contains(s[i]));
            lemma_multiset_same_contains(s, shells0, s[i]);
            assert(shells0.contains(s[i]));
            let j = choose|j: int| 0 <= j < shells0.len() && shells0[j] == s[i];
        };
        assert forall|id: NuclideIdentifier|
            #[trigger] ids_of(s).contains(id) <==> ids_of(shells0).contains(id) by {
            if ids_of(s).contains(id) {
                let i = choose|i: int| 0 <= i < ids_of(s).len() && ids_of(s)[i] == id;
                assert(s[i].nuclide == id);
                assert(s.contains(s[i]));
                lemma_multiset_same_contains(s, shells0, s[i]);
                assert(shells0.contains(s[i]));
                let j = choose|j: int| 0 <= j < shells0.len() && shells0[j] == s[i];
                assert(ids_of(shells0)[j] == id);
                assert(ids_of(shells0).contains(id));
            }
            if ids_of(shells0).contains(id) {
                let i = choose|i: int| 0 <= i < ids_of(shells0).len() && ids_of(shells0)[i] == id;
                assert(shells0[i].nuclide == id);
                assert(shells0.contains(shells0[i]));
                lemma_multiset_same_contains(s, shells0, shells0[i]);
                assert(s.contains(shells0[i]));
                let j = choose|j: int| 0 <= j < s.len() && s[j] == shells0[i];
                assert(ids_of(s)[j] == id);
                assert(ids_of(s).contains(id));
            }
        };
    }
    let mut rest = shells;
    let mut out: Vec<NuclideData> = Vec::new();
    while rest.len() > 0
        invariant
            rest@.len() <= s.len(),
            rest@ == s.skip(s.len() - rest@.len()),
            sorted_by_name(s),
            forall|i: int|
                0 <= i < s.len() ==> (#[trigger] s[i]).name@ == name_state_seq(s[i].nuclide),
            forall|i: int| 0 <= i < s.len() ==> (#[trigger] s[i]).records@.len() == 0,
            sorted_by_name(out@),
            forall|i: int|
                0 <= i < out@.len() ==> (#[trigger] out@[i]).name@ == name_state_seq(
                    out@[i].nuclide,
                ),
            forall|i: int| 0 <= i < out@.len() ==> (#[trigger] out@[i]).records@.len() == 0,
            forall|i: int| 0 <= i < out@.len() - 1 ==> !nd_eq(#[trigger] out@[i], out@[i + 1]),
            out@.len() > 0 <==> s.len() > rest@.len(),
            s.len() > rest@.len() ==> out@.len() > 0 && nd_eq(
                out@.last(),
                s[s.len() - rest@.len() - 1],
            ),
            forall|id: NuclideIdentifier|
                #[trigger] ids_of(out@).contains(id) <==> ids_of(
                    s.take(s.len() - rest@.len()),
                ).contains(id),
        decreases rest@.len(),
    {
        let ghost done = s.len() - rest@.len();
        let ghost preout = out@;
        let d = rest.remove(0);
        proof {
            assert(d == s[done]);
            assert(rest@ =~= s.skip(s.len() - rest@.len()));
            assert(s.take(done + 1) =~= s.take(done).push(s[done]));
        }
        let dup = if out.len() == 0 {
            false
        } else {
            let lastref = &out[out.len() - 1];
            lastref == &d
        };
        if !dup {
            proof {
                if preout.len() > 0 {
                    assert forall|i: int| 0 <= i < preout.len() implies lex_leq(
                        (#[trigger] preout[i]).name@,
                        d.name@,
                    ) by {
                        assert(nd_eq(preout.last(), s[done - 1]));
                        assert(lex_leq(s[done - 1].name@, s[done].name@));
                        if i < preout.len() - 1 {
                            lemma_lex_trans(preout[i].name@, preout.last().name@, d.name@);
                        }
                    };
                }
            }
            out.push(d);
            proof {
                assert(out@ =~= preout.push(s[done]));
                assert(ids_of(out@) =~= ids_of(preout).push(s[done].nuclide));
                assert(ids_of(s.take(done + 1)) =~= ids_of(s.take(done)).push(s[done].nuclide));
                assert forall|id: NuclideIdentifier|
                    #[trigger] ids_of(out@).contains(id) <==> ids_of(s.take(done + 1)).contains(
                        id,
                    ) by {
                    lemma_push_contains(ids_of(preout), s[done].nuclide, id);
                    lemma_push_contains(ids_of(s.take(done)), s[done].nuclide, id);
                };
            }
        } else {
            proof {
                assert(nd_eq(out@.last(), d));
                assert(ids_of(s.take(done + 1)) =~= ids_of(s.take(done)).push(s[done].nuclide));
                assert(ids_of(out@)[out@.len() - 1] == out@.last().nuclide);
                assert(ids_of(out@).contains(s[done].nuclide));
                assert forall|id: NuclideIdentifier|
                    #[trigger] ids_of(out@).contains(id) <==> ids_of(s.take(done + 1)).contains(
                        id,
                    ) by {
                    lemma_push_contains(ids_of(s.take(done)), s[done].nuclide, id);
                };
            }
        }
    }
    proof {
        assert(s.take(s.len() as int) =~= s);
    }
    if out.len() == 0 {
        proof {
            assert(s.len() == 0);
            assert(ids_of(shells0).len() == 0);
            assert(all_candidates(tviews, av).len() == 0);
        }
        Err(DecayError::NoDataFound)
    } else {
        Ok(out)
    }
}

proof fn lemma_push_contains<A>(s: Seq<A>, x: A, y: A)
    ensures
        s.push(x).contains(y) <==> (s.contains(y) || y == x),
{
    if s.push(x).contains(y) {
        let i = choose|i: int| 0 <= i < s.push(x).len() && s.push(x)[i] == y;
        if i < s.len() {
            assert(s[i] == y);
            assert(s.contains(y));
        }
    }
    if s.contains(y) {
        let i = choose|i: int| 0 <= i < s.len() && s[i] == y;
        assert(s.push(x)[i] == y);
        assert(s.push(x).contains(y));
    }
    assert(s.push(x)[s.len() as int] == x);
    if y == x {
        assert(s.push(x).contains(y));
    }
}


/// The raw request names of a collection, one per entry: the nuclide name
/// without its state, since the raw data source serves whole nuclides only.
pub open spec fn raw_names(s: Seq<NuclideData>) -> Seq<Seq<char>> {
    s.map_values(|d: NuclideData| name_seq(d.nuclide))
}

/// A name list with consecutive duplicates removed.
pub open spec fn dedup_adjacent(s: Seq<Seq<char>>) -> Seq<Seq<char>>
    decreases s.len(),
{
    if s.len() == 0 {
        Seq::<Seq<char>>::empty()
    } else if s.len() == 1 {
        s
    } else if s[s.len() - 1] == s[s.len() - 2] {
        dedup_adjacent(s.drop_last())
    } else {
        dedup_adjacent(s.drop_last()).push(s.last())
    }
}

/// The names to request raw data exports for: one per entry, with consecutive
/// repeats dropped (several states of one nuclide request the same raw name).
pub fn request_names(nuclides: &Vec<NuclideData>) -> (out: Vec<String>)
    ensures
        out@.map_values(|s: String| s@) == dedup_adjacent(raw_names(nuclides@)),
{
    let ghost raw = raw_names(nuclides@);
    let mut out: Vec<String> = Vec::new();
    let mut i: usize = 0;
    proof {
        assert(raw.take(0) =~= Seq::<Seq<char>>::empty());
        assert(out@.map_values(|s: String| s@) =~= dedup_adjacent(raw.take(0)));
    }
    while i < nuclides.len()
        invariant
            i <= nuclides@.len(),
            raw == raw_names(nuclides@),
            out@.map_values(|s: String| s@) == dedup_adjacent(raw.take(i as int)),
            i == 0 ==> out@.len() == 0,
            i > 0 ==> out@.len() > 0 && out@.last()@ == raw[i as int - 1],
        decreases nuclides@.len() - i,
    {
        let ghost preout = out@;
        let nm = nuclides[i].nuclide.name();
        proof {
            assert(nm@ == raw[i as int]);
            assert(raw.take((i + 1) as int).drop_last() =~= raw.take(i as int));
            assert(raw.take((i + 1) as int).last() == raw[i as int]);
        }
        let dup = if out.len() == 0 {
            false
        } else {
            let lastref = &out[out.len() - 1];
            lastref.eq(&nm)
        };
        if !dup {
            out.push(nm);
            proof {
                assert(out@.map_values(|s: String| s@) =~= preout.map_values(
                    |s: String| s@,
                ).push(raw[i as int]));
                if i > 0 {
                    assert(raw.take((i + 1) as int)[i as int - 1] == raw[i as int - 1]);
                }
                assert(out@.map_values(|s: String| s@) =~= dedup_adjacent(
                    raw.take((i + 1) as int),
                ));
            }
        } else {
            proof {
                assert(raw.take((i + 1) as int)[i as int - 1] == raw[i as int - 1]);
                assert(raw[i as int] == raw[i as int - 1]);
                assert(out@.map_values(|s: String| s@) =~= dedup_adjacent(
                    raw.take((i + 1) as int),
                ));
            }
        }
        i += 1;
    }
    proof {
        assert(raw.take(raw.len() as int) =~= raw);
    }
    out
}

} // verus!
