use whatisit::aggregate::aggregate;
use whatisit::bbox::{boxes_overlap, BoundingBox};
use whatisit::decode::{decode, PredictionTensor};
use whatisit::error::DetectError;
use whatisit::pipeline::{detect, suppress_all};
use whatisit::suppress::suppress_bucket;

const CONF: i32 = 250_000;
const NMS: u32 = 450_000;

fn labels(names: &[&str]) -> Vec<String> {
    names.iter().map(|s| s.to_string()).collect()
}

/// Rows of a prediction from one column per anchor: cx, cy, w, h, scores.
fn tensor(anchors: &[Vec<i32>]) -> PredictionTensor {
    let n_rows = anchors[0].len();
    let rows: Vec<Vec<i32>> = (0..n_rows).map(|r| anchors.iter().map(|a| a[r]).collect()).collect();
    PredictionTensor::new(rows).unwrap()
}

fn bx(xmin: i64, ymin: i64, xmax: i64, ymax: i64, confidence: i32, class_index: usize) -> BoundingBox {
    BoundingBox { xmin, ymin, xmax, ymax, confidence, class_index }
}

#[test]
fn single_anchor_decodes_to_class_zero() {
    let pred = tensor(&[
        vec![10, 10, 4, 4, 900_000, 100_000, 50_000],
        vec![50, 50, 8, 8, 200_000, 100_000, 250_000],
        vec![70, 20, 6, 6, 0, 10_000, 20_000],
    ]);
    let buckets = decode(&pred, CONF);
    assert_eq!(buckets.len(), 3);
    assert_eq!(buckets[0], vec![bx(16, 16, 24, 24, 900_000, 0)]);
    assert!(buckets[1].is_empty());
    assert!(buckets[2].is_empty());
    let kept = suppress_all(&buckets, NMS);
    assert_eq!(kept, buckets);
    let names = labels(&["person", "bicycle", "car"]);
    assert_eq!(aggregate(&kept, &names), Ok(vec!["person".to_string()]));
    assert_eq!(detect(&pred, &names, CONF, NMS), Ok(vec!["person".to_string()]));
}

#[test]
fn all_below_threshold_gives_empty_result() {
    let pred = tensor(&[
        vec![10, 10, 4, 4, 250_000, 100_000, 50_000],
        vec![30, 30, 4, 4, 0, 250_000, 0],
        vec![60, 10, 4, 4, -5, 0, 249_999],
    ]);
    let names = labels(&["person", "bicycle", "car"]);
    assert_eq!(detect(&pred, &names, CONF, NMS), Ok(vec![]));
}

#[test]
fn overlapping_boxes_keep_higher_confidence() {
    // IoU of these two is 70 / 100 = 0.7.
    let strong = bx(0, 0, 10, 10, 800_000, 2);
    let weak = bx(0, 0, 10, 7, 600_000, 2);
    assert!(boxes_overlap(&strong, &weak, NMS));
    assert_eq!(suppress_bucket(&vec![weak, strong], NMS), vec![strong]);
    assert_eq!(suppress_bucket(&vec![strong, weak], NMS), vec![strong]);
}

#[test]
fn overlap_threshold_is_inclusive() {
    let a = bx(0, 0, 10, 10, 900_000, 0);
    let b = bx(0, 0, 10, 4, 500_000, 0);
    let c = bx(0, 0, 45, 1, 500_000, 0);
    // Intersection 40, union 100: IoU 0.4.
    assert!(!boxes_overlap(&a, &b, NMS));
    // Intersection 45, union 100: IoU exactly 0.45.
    let d = bx(0, 0, 5, 9, 500_000, 0);
    assert!(boxes_overlap(&a, &d, NMS));
    assert!(!boxes_overlap(&a, &c, NMS));
    let far = bx(20, 20, 30, 30, 1, 0);
    assert!(boxes_overlap(&a, &far, 0));
    assert!(!boxes_overlap(&a, &far, 1));
    let flat = bx(0, 0, 0, 0, 1, 0);
    assert!(!boxes_overlap(&flat, &flat, 0));
    assert!(boxes_overlap(&a, &a, 1_000_000));
}

#[test]
fn disjoint_boxes_all_kept_in_confidence_order() {
    let a = bx(0, 0, 10, 10, 300_000, 1);
    let b = bx(100, 100, 110, 110, 900_000, 1);
    let c = bx(200, 0, 210, 10, 600_000, 1);
    assert_eq!(suppress_bucket(&vec![a, b, c], NMS), vec![b, c, a]);
}

#[test]
fn equal_confidence_keeps_first() {
    let a = bx(0, 0, 10, 10, 500_000, 0);
    let b = bx(1, 0, 11, 10, 500_000, 0);
    assert_eq!(suppress_bucket(&vec![a, b], NMS), vec![a]);
    assert_eq!(suppress_bucket(&vec![b, a], NMS), vec![b]);
}

#[test]
fn chain_of_overlaps_keeps_outer_boxes() {
    // a overlaps b, b overlaps c, a and c are apart: b goes, c stays.
    let a = bx(0, 0, 10, 10, 900_000, 0);
    let b = bx(2, 0, 12, 10, 800_000, 0);
    let c = bx(4, 0, 14, 10, 700_000, 0);
    assert!(boxes_overlap(&a, &b, NMS));
    assert!(boxes_overlap(&b, &c, NMS));
    assert!(!boxes_overlap(&a, &c, NMS));
    assert_eq!(suppress_bucket(&vec![c, b, a], NMS), vec![a, c]);
}

#[test]
fn empty_bucket_stays_empty() {
    assert_eq!(suppress_bucket(&vec![], NMS), vec![]);
}

#[test]
fn labels_are_distinct_and_in_class_order() {
    let buckets = vec![
        vec![],
        vec![bx(0, 0, 2, 2, 5, 1), bx(50, 50, 52, 52, 4, 1)],
        vec![bx(0, 0, 2, 2, 7, 2)],
        vec![bx(9, 9, 12, 12, 3, 3)],
    ];
    let names = labels(&["person", "dog", "cat", "dog"]);
    assert_eq!(
        aggregate(&buckets, &names),
        Ok(vec!["dog".to_string(), "cat".to_string()])
    );
}

#[test]
fn class_beyond_table_is_an_error() {
    let buckets = vec![vec![bx(0, 0, 2, 2, 5, 0)], vec![bx(0, 0, 2, 2, 5, 1)]];
    let names = labels(&["person"]);
    assert_eq!(aggregate(&buckets, &names), Err(DetectError::InvalidClassIndex));
    let pred = tensor(&[vec![10, 10, 4, 4, 100_000, 900_000]]);
    assert_eq!(detect(&pred, &names, CONF, NMS), Err(DetectError::InvalidClassIndex));
    let quiet = tensor(&[vec![10, 10, 4, 4, 100_000, 100_000]]);
    assert_eq!(detect(&quiet, &names, CONF, NMS), Ok(vec![]));
}

#[test]
fn malformed_prediction_is_a_detector_error() {
    let four_rows = vec![vec![1], vec![1], vec![1], vec![1]];
    assert!(matches!(PredictionTensor::new(four_rows), Err(DetectError::DetectorError)));
    let ragged = vec![vec![1, 2], vec![1, 2], vec![1, 2], vec![1, 2], vec![1]];
    assert!(matches!(PredictionTensor::new(ragged), Err(DetectError::DetectorError)));
    let good = PredictionTensor::new(vec![vec![1, 2]; 6]).unwrap();
    assert_eq!(good.num_classes(), 2);
    assert_eq!(good.num_predictions(), 2);
}

#[test]
fn decoded_boxes_pass_both_thresholds() {
    let pred = tensor(&[
        vec![10, 10, 4, 4, -3, -1],
        vec![20, 20, 4, 4, 0, -2],
        vec![30, 30, 4, 4, 1, 0],
        vec![40, 40, 5, 3, 2, 2],
    ]);
    let buckets = decode(&pred, -10);
    for (c, bucket) in buckets.iter().enumerate() {
        for b in bucket {
            assert!(b.confidence > -10 && b.confidence > 0);
            assert_eq!(b.class_index, c);
        }
    }
    // Ties go to the lowest class; box edges are in half units.
    assert_eq!(buckets[0], vec![bx(56, 56, 64, 64, 1, 0), bx(75, 77, 85, 83, 2, 0)]);
    assert!(buckets[1].is_empty());
}

#[test]
fn pipeline_is_repeatable() {
    let anchors = vec![
        vec![10, 10, 4, 4, 900_000, 100_000],
        vec![11, 10, 4, 4, 800_000, 100_000],
        vec![80, 80, 10, 10, 100_000, 700_000],
        vec![200, 80, 10, 10, 100_000, 600_000],
    ];
    let names = labels(&["person", "car"]);
    let first = detect(&tensor(&anchors), &names, CONF, NMS);
    let second = detect(&tensor(&anchors), &names, CONF, NMS);
    assert_eq!(first, second);
    assert_eq!(first, Ok(vec!["person".to_string(), "car".to_string()]));
}
