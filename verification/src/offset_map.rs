use vstd::prelude::*;

verus! {

/// Well-formed pair list of an offset map: plain positions strictly
/// increase, document positions never decrease, and every document
/// position lies inside the document.
pub open spec fn pairs_wf(ps: Seq<(usize, usize)>, doc_len: int) -> bool {
    &&& forall|a: int, b: int|
        0 <= a < b < ps.len() ==> (#[trigger] ps[a]).0 < (#[trigger] ps[b]).0 && ps[a].1 <= ps[b].1
    &&& forall|a: int| 0 <= a < ps.len() ==> (#[trigger] ps[a]).1 <= doc_len
}

/// The position correspondence between the plain text sent to the checker
/// and the original document: a sparse, monotone list of anchored pairs.
/// A plain position with no anchor resolves to the nearest preceding
/// anchor, and the caller learns that the answer is approximate.
pub struct OffsetMap {
    /// (plain position, document position) anchors.
    pub pairs: Vec<(usize, usize)>,
    /// Character length of the original document.
    pub doc_len: usize,
}

/// The scan that resolves plain position `i` against the anchors still
/// ahead, with `best` the document position of the nearest anchor already
/// passed: an exact hit ends it, a later anchor can still improve it, and
/// an anchor past `i` (or the end) settles for `best`.
pub open spec fn translate_seq(ps: Seq<(usize, usize)>, i: int, best: int) -> (int, bool)
    decreases ps.len(),
{
    if ps.len() == 0 {
        (best, false)
    } else if ps[0].0 == i {
        (ps[0].1 as int, true)
    } else if ps[0].0 < i {
        translate_seq(ps.drop_first(), i, ps[0].1 as int)
    } else {
        (best, false)
    }
}

/// What `translate` returns: the document position for plain position `i`,
/// and whether it was anchored exactly.
pub open spec fn translate_spec(m: OffsetMap, i: int) -> (int, bool) {
    translate_seq(m.pairs@, i, 0)
}

impl OffsetMap {
    pub open spec fn wf(self) -> bool {
        pairs_wf(self.pairs@, self.doc_len as int)
    }

    /// Resolves a plain-text position to a document position. The second
    /// component says whether the position was mapped exactly; where the
    /// map has a gap, the nearest preceding anchored position is returned
    /// instead, and the answer is flagged inexact.
    pub fn translate(&self, i: usize) -> (r: (usize, bool))
        requires
            self.wf(),
        ensures
            (r.0 as int, r.1) == translate_spec(*self, i as int),
            r.0 <= self.doc_len,
    {
        let mut best: usize = 0;
        let mut k: usize = 0;
        proof {
            assert(self.pairs@.skip(0) =~= self.pairs@);
        }
        while k < self.pairs.len()
            invariant
                self.wf(),
                k <= self.pairs@.len(),
                best <= self.doc_len,
                translate_seq(self.pairs@, i as int, 0) == translate_seq(
                    self.pairs@.skip(k as int),
                    i as int,
                    best as int,
                ),
            decreases self.pairs@.len() - k,
        {
            let p = self.pairs[k];
            proof {
                assert(self.pairs@.skip(k as int)[0] == self.pairs@[k as int]);
                assert(self.pairs@.skip(k as int).drop_first() =~= self.pairs@.skip(k as int + 1));
            }
            if p.0 == i {
                return (p.1, true);
            }
            if p.0 < i {
                best = p.1;
            } else {
                return (best, false);
            }
            k = k + 1;
        }
        (best, false)
    }
}

/// The scan never answers below the best anchor already in hand.
proof fn lemma_translate_lower(ps: Seq<(usize, usize)>, i: int, b: int)
    requires
        forall|a: int, c: int|
            0 <= a < c < ps.len() ==> (#[trigger] ps[a]).0 < (#[trigger] ps[c]).0 && ps[a].1
                <= ps[c].1,
        ps.len() > 0 ==> b <= ps[0].1,
    ensures
        b <= translate_seq(ps, i, b).0,
    decreases ps.len(),
{
    if ps.len() > 0 && ps[0].0 < i {
        let tail = ps.drop_first();
        assert(forall|a: int, c: int|
            0 <= a < c < tail.len() ==> (#[trigger] tail[a]).0 < (#[trigger] tail[c]).0
                && tail[a].1 <= tail[c].1) by {
            assert(forall|a: int| 0 <= a < tail.len() ==> tail[a] == ps[a + 1]);
        }
        assert(tail.len() > 0 ==> ps[0].1 <= tail[0].1);
        lemma_translate_lower(tail, i, ps[0].1 as int);
    }
}

/// The scan's answer, over well-formed anchors, never moves backward as
/// the plain position moves forward.
proof fn lemma_translate_seq_monotone(ps: Seq<(usize, usize)>, i1: int, i2: int, b: int)
    requires
        forall|a: int, c: int|
            0 <= a < c < ps.len() ==> (#[trigger] ps[a]).0 < (#[trigger] ps[c]).0 && ps[a].1
                <= ps[c].1,
        ps.len() > 0 ==> b <= ps[0].1,
        i1 <= i2,
    ensures
        translate_seq(ps, i1, b).0 <= translate_seq(ps, i2, b).0,
    decreases ps.len(),
{
    if ps.len() > 0 {
        let tail = ps.drop_first();
        assert(forall|a: int, c: int|
            0 <= a < c < tail.len() ==> (#[trigger] tail[a]).0 < (#[trigger] tail[c]).0
                && tail[a].1 <= tail[c].1) by {
            assert(forall|a: int| 0 <= a < tail.len() ==> tail[a] == ps[a + 1]);
        }
        assert(tail.len() > 0 ==> ps[0].1 <= tail[0].1);
        if ps[0].0 == i1 {
            if i1 < i2 {
                lemma_translate_lower(tail, i2, ps[0].1 as int);
            }
        } else if ps[0].0 < i1 {
            lemma_translate_seq_monotone(tail, i1, i2, ps[0].1 as int);
        } else {
            if ps[0].0 == i2 {
            } else if ps[0].0 < i2 {
                lemma_translate_lower(tail, i2, ps[0].1 as int);
            }
        }
    }
}

/// Monotonicity of the offset map: if `i1 <= i2` in the plain text, the
/// resolved document positions satisfy the same order.
pub proof fn lemma_translate_monotone(m: OffsetMap, i1: int, i2: int)
    requires
        m.wf(),
        i1 <= i2,
    ensures
        translate_spec(m, i1).0 <= translate_spec(m, i2).0,
{
    lemma_translate_seq_monotone(m.pairs@, i1, i2, 0);
}

/// The first position at or after `j` where the document holds the
/// character `c`, or the document's length where there is none.
pub open spec fn find_from(doc: Seq<char>, j: int, c: char) -> int
    decreases doc.len() - j,
{
    if !(0 <= j < doc.len()) {
        doc.len() as int
    } else if doc[j] == c {
        j
    } else {
        find_from(doc, j + 1, c)
    }
}

/// The greedy alignment of the plain text against the document, from
/// plain position `i` and document position `j` on: each plain character
/// anchors to the next equal document character ahead, and a character
/// with no match ahead is left without an anchor.
pub open spec fn align_pairs(doc: Seq<char>, plain: Seq<char>, i: int, j: int) -> Seq<
    (usize, usize),
>
    decreases plain.len() - i,
{
    if !(0 <= i < plain.len()) {
        Seq::empty()
    } else {
        let k = find_from(doc, j, plain[i]);
        if k < doc.len() {
            seq![(i as usize, k as usize)] + align_pairs(doc, plain, i + 1, k + 1)
        } else {
            align_pairs(doc, plain, i + 1, j)
        }
    }
}

/// Builds the offset map by aligning the document with the plain text the
/// converter produced: for each plain character, the next document
/// character equal to it (scanning forward) becomes its anchor; a plain
/// character with no match ahead is left unanchored, and resolving it
/// falls back to the nearest preceding anchor.
pub fn build_offset_map(doc: &Vec<char>, plain: &Vec<char>) -> (m: OffsetMap)
    ensures
        m.wf(),
        m.doc_len == doc@.len(),
        m.pairs@ == align_pairs(doc@, plain@, 0, 0),
        forall|k: int|
            0 <= k < m.pairs@.len() ==> {
                let p = #[trigger] m.pairs@[k];
                p.0 < plain@.len() && p.1 < doc@.len() && doc@[p.1 as int] == plain@[p.0 as int]
            },
{
    let mut pairs: Vec<(usize, usize)> = Vec::new();
    let mut j: usize = 0;
    let mut i: usize = 0;
    proof {
        assert(align_pairs(doc@, plain@, 0, 0) =~= pairs@ + align_pairs(doc@, plain@, 0, 0));
    }
    while i < plain.len()
        invariant
            i <= plain@.len(),
            j <= doc@.len(),
            pairs_wf(pairs@, doc@.len() as int),
            align_pairs(doc@, plain@, 0, 0) == pairs@ + align_pairs(
                doc@,
                plain@,
                i as int,
                j as int,
            ),
            forall|k: int| 0 <= k < pairs@.len() ==> (#[trigger] pairs@[k]).0 < i,
            forall|k: int| 0 <= k < pairs@.len() ==> (#[trigger] pairs@[k]).1 < j,
            forall|k: int|
                0 <= k < pairs@.len() ==> {
                    let p = #[trigger] pairs@[k];
                    p.0 < plain@.len() && p.1 < doc@.len() && doc@[p.1 as int] == plain@[p.0 as int]
                },
        decreases plain@.len() - i,
    {
        let c = plain[i];
        let mut j2: usize = j;
        while j2 < doc.len() && doc[j2] != c
            invariant
                j <= j2 <= doc@.len(),
                find_from(doc@, j as int, c) == find_from(doc@, j2 as int, c),
            decreases doc@.len() - j2,
        {
            j2 = j2 + 1;
        }
        proof {
            assert(find_from(doc@, j as int, c) == if j2 < doc@.len() {
                j2 as int
            } else {
                doc@.len() as int
            });
        }
        if j2 < doc.len() {
            let ghost old_pairs = pairs@;
            pairs.push((i, j2));
            proof {
                assert(forall|k: int|
                    0 <= k < old_pairs.len() ==> pairs@[k] == (#[trigger] old_pairs[k]));
                assert(pairs@[pairs@.len() - 1] == (i, j2));
                assert(forall|a: int, b: int|
                    0 <= a < b < pairs@.len() ==> (#[trigger] pairs@[a]).0 < (
                    #[trigger] pairs@[b]).0 && pairs@[a].1 <= pairs@[b].1) by {
                    assert(forall|a: int|
                        0 <= a < old_pairs.len() ==> (#[trigger] old_pairs[a]).1 < j <= j2);
                }
                assert(align_pairs(doc@, plain@, i as int, j as int) == seq![(i, j2)]
                    + align_pairs(doc@, plain@, i + 1, j2 + 1));
                assert(old_pairs + align_pairs(doc@, plain@, i as int, j as int) =~= pairs@
                    + align_pairs(doc@, plain@, i + 1, j2 + 1));
            }
            j = j2 + 1;
        } else {
            proof {
                assert(align_pairs(doc@, plain@, i as int, j as int) == align_pairs(
                    doc@,
                    plain@,
                    i + 1,
                    j as int,
                ));
            }
        }
        i = i + 1;
    }
    proof {
        assert(align_pairs(doc@, plain@, i as int, j as int) =~= Seq::empty());
        assert(pairs@ + Seq::<(usize, usize)>::empty() =~= pairs@);
    }
    OffsetMap { pairs, doc_len: doc.len() }
}

} // verus!
