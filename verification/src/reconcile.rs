use vstd::prelude::*;

use crate::offset_map::{lemma_translate_monotone, translate_spec, OffsetMap};
use crate::server::Match;

verus! {

/// A diagnostic whose span has been rewritten into document coordinates.
/// `approximate` is set where either end of the span fell into a gap of
/// the offset map and was clamped to the nearest preceding anchor.
pub struct ReconciledDiagnostic {
    pub diagnostic: Match,
    pub document_offset: usize,
    pub document_length: usize,
    pub approximate: bool,
}

/// What reconciliation does: both ends of the plain-text span go through
/// the offset map, the document length is the difference of the two
/// resolved ends (never assumed equal to the plain-text length), and the
/// result is approximate unless both ends were anchored exactly.
pub open spec fn reconcile_spec(d: Match, m: OffsetMap) -> ReconciledDiagnostic {
    let s = translate_spec(m, d.offset as int);
    let e = translate_spec(m, d.offset + d.length);
    ReconciledDiagnostic {
        diagnostic: d,
        document_offset: s.0 as usize,
        document_length: (e.0 - s.0) as usize,
        approximate: !(s.1 && e.1),
    }
}

/// Rewrites one diagnostic's span into document coordinates.
pub fn reconcile(d: Match, m: &OffsetMap) -> (r: ReconciledDiagnostic)
    requires
        m.wf(),
        d.offset + d.length <= usize::MAX,
    ensures
        r == reconcile_spec(d, *m),
{
    let end = d.offset + d.length;
    let (s, s_exact) = m.translate(d.offset);
    let (e, e_exact) = m.translate(end);
    proof {
        lemma_translate_monotone(*m, d.offset as int, end as int);
    }
    ReconciledDiagnostic {
        diagnostic: d,
        document_offset: s,
        document_length: e - s,
        approximate: !(s_exact && e_exact),
    }
}

/// Rewrites a whole run of diagnostics, one reconciled diagnostic per
/// input diagnostic, in the same order.
pub fn reconcile_all(ds: Vec<Match>, m: &OffsetMap) -> (r: Vec<ReconciledDiagnostic>)
    requires
        m.wf(),
        forall|i: int|
            0 <= i < ds@.len() ==> (#[trigger] ds@[i]).offset + ds@[i].length <= usize::MAX,
    ensures
        r@.len() == ds@.len(),
        forall|i: int| 0 <= i < ds@.len() ==> r@[i] == reconcile_spec(ds@[i], *m),
{
    let ghost all = ds@;
    let mut ds = ds;
    let mut out: Vec<ReconciledDiagnostic> = Vec::new();
    let ghost i: int = 0;
    proof {
        assert(ds@ =~= all.skip(0));
    }
    while ds.len() > 0
        invariant
            0 <= i <= all.len(),
            ds@ == all.skip(i),
            m.wf(),
            forall|k: int|
                0 <= k < all.len() ==> (#[trigger] all[k]).offset + all[k].length <= usize::MAX,
            out@.len() == i,
            forall|k: int| 0 <= k < i ==> out@[k] == reconcile_spec(all[k], *m),
        decreases ds@.len(),
    {
        proof {
            assert(all.skip(i)[0] == all[i]);
        }
        let d = ds.remove(0);
        proof {
            assert(ds@ =~= all.skip(i + 1));
        }
        let rd = reconcile(d, m);
        out.push(rd);
        proof {
            i = i + 1;
        }
    }
    out
}

/// Round trip: where the offset map carries a span one-to-one — both ends
/// anchored exactly, and every position of the span shifted by the same
/// amount — reconciliation keeps the length: `document_length` equals the
/// diagnostic's own `length`, and the result is not approximate.
pub proof fn lemma_reconcile_round_trip(d: Match, m: OffsetMap)
    requires
        m.wf(),
        forall|k: int|
            d.offset <= k <= d.offset + d.length ==> (#[trigger] translate_spec(m, k)).1
                && translate_spec(m, k).0 == translate_spec(m, d.offset as int).0 + (k - d.offset),
    ensures
        reconcile_spec(d, m).document_length == d.length,
        !reconcile_spec(d, m).approximate,
{
    assert(translate_spec(m, d.offset + d.length).0 == translate_spec(m, d.offset as int).0
        + d.length);
    assert(translate_spec(m, d.offset as int).1);
    assert(translate_spec(m, d.offset + d.length).1);
}

/// Idempotence: reconciliation only reads the diagnostic it carries over
/// unchanged, so reconciling a reconciled diagnostic's carried diagnostic
/// against the same map gives the same result again.
pub proof fn lemma_reconcile_idempotent(d: Match, m: OffsetMap)
    ensures
        reconcile_spec(reconcile_spec(d, m).diagnostic, m) == reconcile_spec(d, m),
{
}

} // verus!
