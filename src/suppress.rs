//! Per-class non-maximum suppression.
use vstd::prelude::*;
use crate::bbox::{BoundingBox, overlaps, boxes_overlap, lemma_overlaps_symmetric, within_limits};

verus! {

/// Position of the first box of highest confidence in `s` (0 when empty).
pub open spec fn first_max_index(s: Seq<BoundingBox>) -> int
    decreases s.len(),
{
    if s.len() <= 1 {
        0
    } else {
        let k = first_max_index(s.drop_last());
        if s.last().confidence > s[k].confidence {
            s.len() - 1
        } else {
            k
        }
    }
}

/// The boxes of `s`, in order, that do not overlap `kept`.
pub open spec fn drop_overlapping(s: Seq<BoundingBox>, kept: BoundingBox, threshold: int) -> Seq<
    BoundingBox,
>
    decreases s.len(),
{
    if s.len() == 0 {
        s
    } else {
        let rest = drop_overlapping(s.drop_last(), kept, threshold);
        if overlaps(kept, s.last(), threshold) {
            rest
        } else {
            rest.push(s.last())
        }
    }
}

/// Greedy suppression: keep the first box of highest confidence, drop every
/// other box that overlaps it, and go on with what is left. The kept boxes
/// come out in the order they were chosen, so by descending confidence, with
/// ties in their input order.
pub open spec fn suppressed(s: Seq<BoundingBox>, threshold: int) -> Seq<BoundingBox>
    decreases s.len(),
{
    if s.len() == 0 {
        Seq::empty()
    } else {
        let k = first_max_index(s);
        let kept = s[k];
        proof {
            lemma_first_max_index(s);
            lemma_drop_overlapping(s.remove(k), kept, threshold);
        }
        seq![kept] + suppressed(drop_overlapping(s.remove(k), kept, threshold), threshold)
    }
}

pub proof fn lemma_first_max_index(s: Seq<BoundingBox>)
    requires
        s.len() > 0,
    ensures
        0 <= first_max_index(s) < s.len(),
        forall|j: int| 0 <= j < s.len() ==> (#[trigger] s[j]).confidence <= s[first_max_index(s)].confidence,
        forall|j: int| 0 <= j < first_max_index(s) ==> (#[trigger] s[j]).confidence < s[first_max_index(s)].confidence,
    decreases s.len(),
{
    if s.len() > 1 {
        let p = s.drop_last();
        lemma_first_max_index(p);
        let k = first_max_index(s);
        assert forall|j: int| 0 <= j < s.len() implies (#[trigger] s[j]).confidence
            <= s[k].confidence by {
            if j < s.len() - 1 {
                assert(s[j] == p[j]);
            }
        }
        assert forall|j: int| 0 <= j < k implies (#[trigger] s[j]).confidence < s[k].confidence by {
            assert(s[j] == p[j]);
        }
    }
}

pub proof fn lemma_drop_overlapping(s: Seq<BoundingBox>, kept: BoundingBox, threshold: int)
    ensures
        drop_overlapping(s, kept, threshold).len() <= s.len(),
        forall|x: BoundingBox| #[trigger]
            drop_overlapping(s, kept, threshold).contains(x) ==> s.contains(x) && !overlaps(
                kept,
                x,
                threshold,
            ),
        forall|x: BoundingBox|
            s.contains(x) && !overlaps(kept, x, threshold) ==> #[trigger] drop_overlapping(
                s,
                kept,
                threshold,
            ).contains(x),
    decreases s.len(),
{
    if s.len() > 0 {
        let p = s.drop_last();
        lemma_drop_overlapping(p, kept, threshold);
        let r = drop_overlapping(s, kept, threshold);
        let rp = drop_overlapping(p, kept, threshold);
        assert forall|x: BoundingBox| #[trigger] r.contains(x) implies s.contains(x) && !overlaps(
            kept,
            x,
            threshold,
        ) by {
            let i = choose|i: int| 0 <= i < r.len() && r[i] == x;
            if i < rp.len() {
                assert(rp.contains(x));
                let j = choose|j: int| 0 <= j < p.len() && p[j] == x;
                assert(s[j] == x);
            } else {
                assert(s[s.len() - 1] == x);
            }
        }
        assert forall|x: BoundingBox| s.contains(x) && !overlaps(kept, x, threshold) implies #[trigger] r.contains(
            x,
        ) by {
            let j = choose|j: int| 0 <= j < s.len() && s[j] == x;
            if j < s.len() - 1 {
                assert(p[j] == x);
                assert(rp.contains(x));
                let i = choose|i: int| 0 <= i < rp.len() && rp[i] == x;
                assert(r[i] == x);
            } else {
                assert(r[r.len() - 1] == x);
            }
        }
    }
}

/// Every box that suppression keeps was in its input.
pub proof fn lemma_suppressed_from_input(s: Seq<BoundingBox>, threshold: int)
    ensures
        forall|x: BoundingBox| #[trigger] suppressed(s, threshold).contains(x) ==> s.contains(x),
    decreases s.len(),
{
    if s.len() > 0 {
        let k = first_max_index(s);
        lemma_first_max_index(s);
        let kept = s[k];
        let rest = drop_overlapping(s.remove(k), kept, threshold);
        lemma_drop_overlapping(s.remove(k), kept, threshold);
        lemma_suppressed_from_input(rest, threshold);
        let out = suppressed(s, threshold);
        assert forall|x: BoundingBox| #[trigger] out.contains(x) implies s.contains(x) by {
            let i = choose|i: int| 0 <= i < out.len() && out[i] == x;
            if i > 0 {
                assert(suppressed(rest, threshold)[i - 1] == x);
                assert(suppressed(rest, threshold).contains(x));
                assert(s.remove(k).contains(x));
                let j = choose|j: int| 0 <= j < s.remove(k).len() && s.remove(k)[j] == x;
                if j < k {
                    assert(s[j] == x);
                } else {
                    assert(s[j + 1] == x);
                }
            }
        }
    }
}

/// No two boxes that suppression keeps overlap.
pub proof fn lemma_suppressed_pairwise_apart(s: Seq<BoundingBox>, threshold: int)
    ensures
        forall|p: int, q: int|
            0 <= p < q < suppressed(s, threshold).len() ==> !overlaps(
                #[trigger] suppressed(s, threshold)[p],
                #[trigger] suppressed(s, threshold)[q],
                threshold,
            ),
    decreases s.len(),
{
    if s.len() > 0 {
        let k = first_max_index(s);
        lemma_first_max_index(s);
        let kept = s[k];
        let rest = drop_overlapping(s.remove(k), kept, threshold);
        lemma_drop_overlapping(s.remove(k), kept, threshold);
        lemma_suppressed_pairwise_apart(rest, threshold);
        lemma_suppressed_from_input(rest, threshold);
        let out = suppressed(s, threshold);
        let tail = suppressed(rest, threshold);
        assert forall|p: int, q: int| 0 <= p < q < out.len() implies !overlaps(
            #[trigger] out[p],
            #[trigger] out[q],
            threshold,
        ) by {
            assert(out[q] == tail[q - 1]);
            if p == 0 {
                assert(tail.contains(tail[q - 1]));
                assert(rest.contains(out[q]));
            } else {
                assert(out[p] == tail[p - 1]);
            }
        }
    }
}

/// A box that no other box of at least its confidence overlaps is kept.
pub proof fn lemma_unchallenged_kept(s: Seq<BoundingBox>, x: BoundingBox, threshold: int)
    requires
        s.contains(x),
        forall|z: BoundingBox|
            #[trigger] s.contains(z) && z != x && z.confidence >= x.confidence ==> !overlaps(
                z,
                x,
                threshold,
            ),
    ensures
        suppressed(s, threshold).contains(x),
    decreases s.len(),
{
    let k = first_max_index(s);
    lemma_first_max_index(s);
    let kept = s[k];
    let out = suppressed(s, threshold);
    if kept == x {
        assert(out[0] == x);
    } else {
        let i = choose|i: int| 0 <= i < s.len() && s[i] == x;
        assert(s.contains(kept));
        let r = s.remove(k);
        if i < k {
            assert(r[i] == x);
        } else {
            assert(r[i - 1] == x);
        }
        lemma_drop_overlapping(r, kept, threshold);
        let rest = drop_overlapping(r, kept, threshold);
        assert(rest.contains(x));
        assert forall|z: BoundingBox|
            #[trigger] rest.contains(z) && z != x && z.confidence >= x.confidence implies !overlaps(
            z,
            x,
            threshold,
        ) by {
            assert(r.contains(z));
            let j = choose|j: int| 0 <= j < r.len() && r[j] == z;
            if j < k {
                assert(s[j] == z);
            } else {
                assert(s[j + 1] == z);
            }
            assert(s.contains(z));
        }
        lemma_unchallenged_kept(rest, x, threshold);
        let tail = suppressed(rest, threshold);
        let m = choose|m: int| 0 <= m < tail.len() && tail[m] == x;
        assert(out[m + 1] == x);
    }
}

/// Of two overlapping boxes of one bucket, suppression keeps at most one;
/// and where nothing of at least its confidence overlaps the stronger one,
/// it keeps the stronger and drops the weaker.
pub proof fn lemma_suppression_keeps_stronger(
    s: Seq<BoundingBox>,
    x: BoundingBox,
    y: BoundingBox,
    threshold: int,
)
    requires
        s.contains(x),
        s.contains(y),
        overlaps(x, y, threshold),
        x.confidence > y.confidence,
        forall|z: BoundingBox|
            #[trigger] s.contains(z) && z != x && z.confidence >= x.confidence ==> !overlaps(
                z,
                x,
                threshold,
            ),
    ensures
        suppressed(s, threshold).contains(x),
        !suppressed(s, threshold).contains(y),
{
    lemma_unchallenged_kept(s, x, threshold);
    lemma_suppressed_pairwise_apart(s, threshold);
    lemma_overlaps_symmetric(x, y, threshold);
    let out = suppressed(s, threshold);
    if out.contains(y) {
        let p = choose|p: int| 0 <= p < out.len() && out[p] == x;
        let q = choose|q: int| 0 <= q < out.len() && out[q] == y;
        if p < q {
            assert(!overlaps(out[p], out[q], threshold));
        } else {
            assert(q < p);
            assert(!overlaps(out[q], out[p], threshold));
        }
    }
}

/// Index of the first box of highest confidence.
fn first_max(s: &Vec<BoundingBox>) -> (k: usize)
    requires
        s.len() > 0,
    ensures
        k == first_max_index(s@),
{
    let mut k: usize = 0;
    let mut i: usize = 1;
    while i < s.len()
        invariant
            1 <= i <= s.len(),
            k == first_max_index(s@.subrange(0, i as int)),
            k < i,
        decreases s.len() - i,
    {
        proof {
            assert(s@.subrange(0, i + 1).drop_last() =~= s@.subrange(0, i as int));
        }
        if s[i].confidence > s[k].confidence {
            k = i;
        }
        i += 1;
    }
    proof {
        assert(s@.subrange(0, s.len() as int) =~= s@);
    }
    k
}

/// Boxes of `s`, in order, that do not overlap `kept` beyond `threshold`.
fn without_overlapping(s: &Vec<BoundingBox>, kept: &BoundingBox, threshold: u32) -> (r: Vec<
    BoundingBox,
>)
    requires
        within_limits(*kept),
        forall|i: int| 0 <= i < s.len() ==> within_limits(#[trigger] s@[i]),
    ensures
        r@ == drop_overlapping(s@, *kept, threshold as int),
{
    let mut r: Vec<BoundingBox> = Vec::new();
    let mut i: usize = 0;
    while i < s.len()
        invariant
            i <= s.len(),
            within_limits(*kept),
            forall|j: int| 0 <= j < s.len() ==> within_limits(#[trigger] s@[j]),
            r@ == drop_overlapping(s@.subrange(0, i as int), *kept, threshold as int),
        decreases s.len() - i,
    {
        proof {
            assert(s@.subrange(0, i + 1).drop_last() =~= s@.subrange(0, i as int));
        }
        if !boxes_overlap(kept, &s[i], threshold) {
            r.push(s[i]);
        }
        i += 1;
    }
    proof {
        assert(s@.subrange(0, s.len() as int) =~= s@);
    }
    r
}

/// Non-maximum suppression of one class's boxes, `threshold` in millionths
/// of IoU.
pub fn suppress_bucket(bucket: &Vec<BoundingBox>, threshold: u32) -> (r: Vec<BoundingBox>)
    requires
        forall|i: int| 0 <= i < bucket.len() ==> within_limits(#[trigger] bucket@[i]),
    ensures
        r@ == suppressed(bucket@, threshold as int),
{
    let t = Ghost(threshold as int);
    let mut remaining = bucket.clone();
    assert(remaining@ =~= bucket@);
    let mut kept: Vec<BoundingBox> = Vec::new();
    while remaining.len() > 0
        invariant
            kept@ + suppressed(remaining@, t@) == suppressed(bucket@, t@),
            t@ == threshold as int,
            forall|i: int| 0 <= i < remaining.len() ==> within_limits(#[trigger] remaining@[i]),
        decreases remaining.len(),
    {
        let k = first_max(&remaining);
        proof {
            lemma_first_max_index(remaining@);
        }
        let ghost before = remaining@;
        let best = remaining.remove(k);
        assert(within_limits(before[k as int]));
        assert forall|i: int| 0 <= i < remaining.len() implies within_limits(
            #[trigger] remaining@[i],
        ) by {
            if i < k {
                assert(remaining@[i] == before[i]);
            } else {
                assert(remaining@[i] == before[i + 1]);
            }
        }
        let next = without_overlapping(&remaining, &best, threshold);
        proof {
            lemma_drop_overlapping(remaining@, best, t@);
            assert(kept@.push(best) + suppressed(next@, t@) =~= kept@ + suppressed(before, t@));
            assert forall|i: int| 0 <= i < next.len() implies within_limits(#[trigger] next@[i]) by {
                assert(next@.contains(next@[i]));
                let j = choose|j: int| 0 <= j < remaining.len() && remaining@[j] == next@[i];
            }
        }
        kept.push(best);
        remaining = next;
    }
    assert(kept@ + suppressed(remaining@, t@) =~= kept@);
    kept
}

} // verus!
