use vstd::prelude::*;

use crate::records::DecayRecord;
use crate::sort::lemma_filter_singleton;

verus! {

/// A record that can stand on an MCNP source card: both its emitted energy
/// and its intensity were observed.
pub open spec fn card_pred() -> spec_fn(DecayRecord) -> bool {
    |r: DecayRecord| r.energy is Some && r.intensity is Some
}

/// The records a nuclide's MCNP source distribution may carry, in order:
/// exactly those with both energy and intensity present. A record failing
/// either is left off the card only; it still appears in the other reports.
pub fn card_records(records: Vec<DecayRecord>) -> (out: Vec<DecayRecord>)
    ensures
        out@ == records@.filter(card_pred()),
{
    let ghost orig = records@;
    let mut rest = records;
    let mut out: Vec<DecayRecord> = Vec::new();
    proof {
        assert(orig.take(0).filter(card_pred()) =~= Seq::<DecayRecord>::empty()) by {
            reveal(Seq::filter);
            assert(orig.take(0) =~= Seq::<DecayRecord>::empty());
        }
    }
    while rest.len() > 0
        invariant
            rest@.len() <= orig.len(),
            rest@ == orig.skip(orig.len() - rest@.len()),
            out@ == orig.take(orig.len() - rest@.len()).filter(card_pred()),
        decreases rest@.len(),
    {
        let ghost done = orig.len() - rest@.len();
        let r = rest.remove(0);
        proof {
            assert(r == orig[done]);
            assert(rest@ =~= orig.skip(orig.len() - rest@.len()));
            assert(orig.take(done + 1) =~= orig.take(done) + seq![orig[done]]);
            Seq::filter_distributes_over_add(orig.take(done), seq![orig[done]], card_pred());
            lemma_filter_singleton(orig[done], card_pred());
        }
        let keep = r.energy.is_some() && r.intensity.is_some();
        if keep {
            out.push(r);
        }
        proof {
            assert(out@ =~= orig.take(done + 1).filter(card_pred()));
        }
    }
    proof {
        assert(orig.take(orig.len() as int) =~= orig);
    }
    out
}

} // verus!
