//! The whole post-processing: decode, suppress per class, gather labels.
use vstd::prelude::*;
use crate::aggregate::{aggregate, bucket_views, classes_in_table, gathered, label_views};
use crate::bbox::{BoundingBox, within_limits};
use crate::decode::{decode, decoded, valid_candidate, well_shaped, PredictionTensor};
use crate::error::DetectError;
use crate::suppress::{lemma_suppressed_from_input, suppress_bucket, suppressed};

verus! {

/// Each bucket after suppression.
pub open spec fn suppressed_all(buckets: Seq<Seq<BoundingBox>>, threshold: int) -> Seq<
    Seq<BoundingBox>,
> {
    Seq::new(buckets.len(), |c: int| suppressed(buckets[c], threshold))
}

/// The boxes that survive decoding and suppression, per class.
pub open spec fn kept_boxes(rows: Seq<Seq<i32>>, confidence_threshold: int, nms_threshold: int) -> Seq<
    Seq<BoundingBox>,
> {
    suppressed_all(decoded(rows, confidence_threshold), nms_threshold)
}

/// The labels the pipeline reports for `rows`, when every kept box names a
/// class of the table.
pub open spec fn detection(
    rows: Seq<Seq<i32>>,
    labels: Seq<Seq<char>>,
    confidence_threshold: int,
    nms_threshold: int,
) -> Seq<Seq<char>> {
    gathered(labels, kept_boxes(rows, confidence_threshold, nms_threshold))
}

/// Runs suppression on every bucket.
pub fn suppress_all(buckets: &Vec<Vec<BoundingBox>>, threshold: u32) -> (r: Vec<Vec<BoundingBox>>)
    requires
        forall|c: int, j: int|
            0 <= c < buckets.len() && 0 <= j < buckets@[c].len() ==> within_limits(
                #[trigger] buckets@[c]@[j],
            ),
    ensures
        bucket_views(r@) == suppressed_all(bucket_views(buckets@), threshold as int),
{
    let mut r: Vec<Vec<BoundingBox>> = Vec::new();
    let mut c: usize = 0;
    while c < buckets.len()
        invariant
            c <= buckets.len(),
            r.len() == c,
            forall|k: int| 0 <= k < c ==> (#[trigger] r@[k])@ == suppressed(buckets@[k]@, threshold as int),
            forall|k: int, j: int|
                0 <= k < buckets.len() && 0 <= j < buckets@[k].len() ==> within_limits(
                    #[trigger] buckets@[k]@[j],
                ),
        decreases buckets.len() - c,
    {
        let bucket = &buckets[c];
        assert forall|j: int| 0 <= j < bucket.len() implies within_limits(#[trigger] bucket@[j]) by {
            assert(bucket@[j] == buckets@[c as int]@[j]);
        }
        r.push(suppress_bucket(bucket, threshold));
        c += 1;
    }
    assert(bucket_views(r@) =~= suppressed_all(bucket_views(buckets@), threshold as int));
    r
}

/// Decodes the predictions, suppresses overlapping boxes per class and
/// returns the distinct labels of the boxes kept, in class order.
///
/// `confidence_threshold` is on the scale of the scores; `nms_threshold` is
/// in millionths of IoU. Fails with `InvalidClassIndex` exactly when a kept
/// box names a class beyond the label table.
pub fn detect(
    pred: &PredictionTensor,
    labels: &Vec<String>,
    confidence_threshold: i32,
    nms_threshold: u32,
) -> (r: Result<Vec<String>, DetectError>)
    requires
        well_shaped(pred.view()),
    ensures
        match r {
            Ok(out) => classes_in_table(
                kept_boxes(pred.view(), confidence_threshold as int, nms_threshold as int),
                labels.len() as int,
            ) && label_views(out@) == detection(
                pred.view(),
                label_views(labels@),
                confidence_threshold as int,
                nms_threshold as int,
            ),
            Err(e) => e == DetectError::InvalidClassIndex && !classes_in_table(
                kept_boxes(pred.view(), confidence_threshold as int, nms_threshold as int),
                labels.len() as int,
            ),
        },
        r is Ok ==> label_views(r->Ok_0@).no_duplicates(),
{
    let buckets = decode(pred, confidence_threshold);
    assert forall|c: int, j: int| 0 <= c < buckets.len() && 0 <= j < buckets@[c].len() implies within_limits(
        #[trigger] buckets@[c]@[j],
    ) by {
        assert(valid_candidate(buckets@[c]@[j], confidence_threshold as int));
    }
    let kept = suppress_all(&buckets, nms_threshold);
    aggregate(&kept, labels)
}

/// The pipeline is a function of its inputs: on equal predictions, labels
/// and thresholds it reports the same labels.
pub proof fn lemma_detection_deterministic(
    rows1: Seq<Seq<i32>>,
    rows2: Seq<Seq<i32>>,
    labels: Seq<Seq<char>>,
    confidence_threshold: int,
    nms_threshold: int,
)
    requires
        rows1 == rows2,
    ensures
        detection(rows1, labels, confidence_threshold, nms_threshold) == detection(
            rows2,
            labels,
            confidence_threshold,
            nms_threshold,
        ),
{
}

/// Every box that survives the pipeline passed both the confidence
/// threshold and zero, and sits in its own class's bucket.
pub proof fn lemma_kept_boxes_pass_threshold(
    rows: Seq<Seq<i32>>,
    confidence_threshold: int,
    nms_threshold: int,
)
    requires
        well_shaped(rows),
    ensures
        forall|c: int, j: int|
            0 <= c < kept_boxes(rows, confidence_threshold, nms_threshold).len() && 0 <= j
                < kept_boxes(rows, confidence_threshold, nms_threshold)[c].len() ==> #[trigger] kept_boxes(
                rows,
                confidence_threshold,
                nms_threshold,
            )[c][j].confidence > confidence_threshold && kept_boxes(
                rows,
                confidence_threshold,
                nms_threshold,
            )[c][j].confidence > 0 && kept_boxes(rows, confidence_threshold, nms_threshold)[c][j].class_index
                == c,
{
    let d = decoded(rows, confidence_threshold);
    let k = kept_boxes(rows, confidence_threshold, nms_threshold);
    crate::decode::lemma_decoded_valid(rows, confidence_threshold);
    assert forall|c: int, j: int| 0 <= c < k.len() && 0 <= j < k[c].len() implies #[trigger] k[c][j].confidence
        > confidence_threshold && k[c][j].confidence > 0 && k[c][j].class_index == c by {
        lemma_suppressed_from_input(d[c], nms_threshold);
        assert(k[c] == suppressed(d[c], nms_threshold));
        assert(k[c].contains(k[c][j]));
        let m = choose|m: int| 0 <= m < d[c].len() && d[c][m] == k[c][j];
        assert(valid_candidate(d[c][m], confidence_threshold));
    }
}

} // verus!
