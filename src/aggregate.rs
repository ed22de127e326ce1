//! Turning the kept boxes into a list of distinct labels.
use vstd::prelude::*;
use crate::bbox::BoundingBox;
use crate::error::DetectError;

verus! {

/// `acc` with `l` appended, unless `acc` already holds it.
pub open spec fn with_label(acc: Seq<Seq<char>>, l: Seq<char>) -> Seq<Seq<char>> {
    if acc.contains(l) {
        acc
    } else {
        acc.push(l)
    }
}

/// `acc` extended by the labels of the boxes of `bucket`, in order.
pub open spec fn gather_bucket(
    acc: Seq<Seq<char>>,
    labels: Seq<Seq<char>>,
    bucket: Seq<BoundingBox>,
) -> Seq<Seq<char>>
    decreases bucket.len(),
{
    if bucket.len() == 0 {
        acc
    } else {
        with_label(
            gather_bucket(acc, labels, bucket.drop_last()),
            labels[bucket.last().class_index as int],
        )
    }
}

/// The labels of all boxes, bucket by bucket and box by box, each label
/// once, where it first occurs.
pub open spec fn gathered(labels: Seq<Seq<char>>, buckets: Seq<Seq<BoundingBox>>) -> Seq<
    Seq<char>,
>
    decreases buckets.len(),
{
    if buckets.len() == 0 {
        Seq::empty()
    } else {
        gather_bucket(gathered(labels, buckets.drop_last()), labels, buckets.last())
    }
}

/// Every box names a class that a table of `n` labels has.
pub open spec fn classes_in_table(buckets: Seq<Seq<BoundingBox>>, n: int) -> bool {
    forall|c: int, j: int|
        0 <= c < buckets.len() && 0 <= j < buckets[c].len() ==> (#[trigger] buckets[c][j]).class_index
            < n
}

pub open spec fn label_views(v: Seq<String>) -> Seq<Seq<char>> {
    v.map_values(|s: String| s@)
}

pub open spec fn bucket_views(v: Seq<Vec<BoundingBox>>) -> Seq<Seq<BoundingBox>> {
    v.map_values(|b: Vec<BoundingBox>| b@)
}

pub proof fn lemma_gather_bucket_distinct(
    acc: Seq<Seq<char>>,
    labels: Seq<Seq<char>>,
    bucket: Seq<BoundingBox>,
)
    requires
        acc.no_duplicates(),
    ensures
        gather_bucket(acc, labels, bucket).no_duplicates(),
    decreases bucket.len(),
{
    if bucket.len() > 0 {
        let prev = gather_bucket(acc, labels, bucket.drop_last());
        lemma_gather_bucket_distinct(acc, labels, bucket.drop_last());
        let l = labels[bucket.last().class_index as int];
        if !prev.contains(l) {
            let r = prev.push(l);
            assert forall|i: int, j: int| 0 <= i < r.len() && 0 <= j < r.len() && i != j implies r[i]
                != r[j] by {
                if i == prev.len() {
                    assert(prev[j] == r[j]);
                } else if j == prev.len() {
                    assert(prev[i] == r[i]);
                }
            }
        }
    }
}

/// The gathered labels hold no label twice.
pub proof fn lemma_gathered_distinct(labels: Seq<Seq<char>>, buckets: Seq<Seq<BoundingBox>>)
    ensures
        gathered(labels, buckets).no_duplicates(),
    decreases buckets.len(),
{
    if buckets.len() > 0 {
        lemma_gathered_distinct(labels, buckets.drop_last());
        lemma_gather_bucket_distinct(
            gathered(labels, buckets.drop_last()),
            labels,
            buckets.last(),
        );
    }
}

/// Whether `out` already holds a string equal to `l`.
fn holds_label(out: &Vec<String>, l: &String) -> (r: bool)
    ensures
        r == label_views(out@).contains(l@),
{
    let ghost v = label_views(out@);
    let mut i: usize = 0;
    while i < out.len()
        invariant
            i <= out.len(),
            v == label_views(out@),
            forall|k: int| 0 <= k < i ==> (#[trigger] v[k]) != l@,
        decreases out.len() - i,
    {
        if out[i] == *l {
            assert(v[i as int] == l@);
            return true;
        }
        i += 1;
    }
    false
}

/// The distinct labels of the boxes in `buckets`, in order of first
/// occurrence (bucket by bucket, box by box). Fails with
/// `InvalidClassIndex` exactly when some box names a class that `labels`
/// does not have.
pub fn aggregate(buckets: &Vec<Vec<BoundingBox>>, labels: &Vec<String>) -> (r: Result<
    Vec<String>,
    DetectError,
>)
    ensures
        match r {
            Ok(out) => classes_in_table(bucket_views(buckets@), labels.len() as int)
                && label_views(out@) == gathered(label_views(labels@), bucket_views(buckets@)),
            Err(e) => e == DetectError::InvalidClassIndex && !classes_in_table(
                bucket_views(buckets@),
                labels.len() as int,
            ),
        },
        r is Ok ==> label_views(r->Ok_0@).no_duplicates(),
{
    let ghost lv = label_views(labels@);
    let ghost bv = bucket_views(buckets@);
    let mut out: Vec<String> = Vec::new();
    let mut c: usize = 0;
    while c < buckets.len()
        invariant
            c <= buckets.len(),
            lv == label_views(labels@),
            bv == bucket_views(buckets@),
            classes_in_table(bv.subrange(0, c as int), labels.len() as int),
            label_views(out@) == gathered(lv, bv.subrange(0, c as int)),
        decreases buckets.len() - c,
    {
        let bucket = &buckets[c];
        let ghost before = gathered(lv, bv.subrange(0, c as int));
        assert(bucket@ == bv[c as int]);
        let mut j: usize = 0;
        while j < bucket.len()
            invariant
                c < buckets.len(),
                j <= bucket.len(),
                lv == label_views(labels@),
                bv == bucket_views(buckets@),
                bucket@ == bv[c as int],
                classes_in_table(bv.subrange(0, c as int), labels.len() as int),
                forall|k: int| 0 <= k < j ==> (#[trigger] bucket@[k]).class_index < labels.len(),
                label_views(out@) == gather_bucket(before, lv, bucket@.subrange(0, j as int)),
            decreases bucket.len() - j,
        {
            let idx = bucket[j].class_index;
            if idx >= labels.len() {
                assert(bv[c as int][j as int].class_index >= labels.len());
                return Err(DetectError::InvalidClassIndex);
            }
            proof {
                assert(bucket@.subrange(0, j + 1).drop_last() =~= bucket@.subrange(0, j as int));
            }
            if !holds_label(&out, &labels[idx]) {
                out.push(labels[idx].clone());
                assert(label_views(out@) =~= label_views(out@).drop_last().push(lv[idx as int]));
            }
            j += 1;
        }
        proof {
            assert(bucket@.subrange(0, bucket.len() as int) =~= bucket@);
            assert(bv.subrange(0, c + 1).drop_last() =~= bv.subrange(0, c as int));
            let p = bv.subrange(0, c + 1);
            assert forall|a: int, b: int| 0 <= a < p.len() && 0 <= b < p[a].len() implies (
            #[trigger] p[a][b]).class_index < labels.len() by {
                if a < c {
                    assert(p[a] == bv.subrange(0, c as int)[a]);
                }
            }
        }
        c += 1;
    }
    proof {
        assert(bv.subrange(0, buckets.len() as int) =~= bv);
        lemma_gathered_distinct(lv, bv);
    }
    Ok(out)
}

} // verus!
