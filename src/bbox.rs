//! Axis-aligned boxes and their overlap (intersection over union).
use vstd::prelude::*;

verus! {

/// A candidate detection.
///
/// The edges are in half units of the prediction's coordinate grid, so that
/// a box built from a centre and a size is exact: `xmin` is `2 * cx - w`,
/// `xmax` is `2 * cx + w`, and likewise for `y`. Intersection over union is
/// the same on any uniform scale, so this changes no overlap decision.
#[derive(Clone, Copy, Debug, PartialEq, Eq, Structural)]
pub struct BoundingBox {
    pub xmin: i64,
    pub ymin: i64,
    pub xmax: i64,
    pub ymax: i64,
    pub confidence: i32,
    pub class_index: usize,
}

/// Largest magnitude of a box edge: boxes built from 32-bit predictions stay
/// far inside it, and it keeps every area product within 128 bits.
pub const EDGE_LIMIT: i64 = 0x100_0000_0000;

/// The edges of `b` lie within `EDGE_LIMIT` of the origin.
pub open spec fn within_limits(b: BoundingBox) -> bool {
    -EDGE_LIMIT <= b.xmin <= EDGE_LIMIT && -EDGE_LIMIT <= b.xmax <= EDGE_LIMIT && -EDGE_LIMIT
        <= b.ymin <= EDGE_LIMIT && -EDGE_LIMIT <= b.ymax <= EDGE_LIMIT
}

/// Scale of an overlap threshold: `450_000` stands for an IoU of 0.45.
pub const IOU_ONE: u32 = 1_000_000;

/// Length of the overlap of the intervals `[lo1, hi1]` and `[lo2, hi2]`,
/// zero where they do not meet.
pub open spec fn overlap_len(lo1: int, hi1: int, lo2: int, hi2: int) -> int {
    let lo = if lo1 >= lo2 { lo1 } else { lo2 };
    let hi = if hi1 <= hi2 { hi1 } else { hi2 };
    if hi > lo { hi - lo } else { 0 }
}

pub open spec fn area(b: BoundingBox) -> int {
    (b.xmax - b.xmin) * (b.ymax - b.ymin)
}

pub open spec fn intersection_area(a: BoundingBox, b: BoundingBox) -> int {
    overlap_len(a.xmin as int, a.xmax as int, b.xmin as int, b.xmax as int)
        * overlap_len(a.ymin as int, a.ymax as int, b.ymin as int, b.ymax as int)
}

pub open spec fn union_area(a: BoundingBox, b: BoundingBox) -> int {
    area(a) + area(b) - intersection_area(a, b)
}

/// IoU(a, b) >= threshold / IOU_ONE, where IoU is the intersection's area
/// over the union's. Boxes whose union has no positive area never overlap.
pub open spec fn overlaps(a: BoundingBox, b: BoundingBox, threshold: int) -> bool {
    union_area(a, b) > 0 && intersection_area(a, b) * (IOU_ONE as int) >= threshold
        * union_area(a, b)
}

/// Overlap is symmetric.
pub proof fn lemma_overlaps_symmetric(a: BoundingBox, b: BoundingBox, threshold: int)
    ensures
        overlaps(a, b, threshold) == overlaps(b, a, threshold),
{
    assert(intersection_area(a, b) == intersection_area(b, a));
}

fn interval_overlap(lo1: i64, hi1: i64, lo2: i64, hi2: i64) -> (r: i128)
    requires
        -EDGE_LIMIT <= lo1 <= EDGE_LIMIT,
        -EDGE_LIMIT <= hi1 <= EDGE_LIMIT,
        -EDGE_LIMIT <= lo2 <= EDGE_LIMIT,
        -EDGE_LIMIT <= hi2 <= EDGE_LIMIT,
    ensures
        r == overlap_len(lo1 as int, hi1 as int, lo2 as int, hi2 as int),
        0 <= r <= 2 * EDGE_LIMIT,
{
    let lo: i128 = if lo1 >= lo2 { lo1 as i128 } else { lo2 as i128 };
    let hi: i128 = if hi1 <= hi2 { hi1 as i128 } else { hi2 as i128 };
    if hi > lo { hi - lo } else { 0 }
}

fn box_area(b: &BoundingBox) -> (r: i128)
    requires
        within_limits(*b),
    ensures
        r == area(*b),
        -0x10_0000_0000_0000_0000_0000 <= r <= 0x10_0000_0000_0000_0000_0000,
{
    let w: i128 = b.xmax as i128 - b.xmin as i128;
    let h: i128 = b.ymax as i128 - b.ymin as i128;
    proof {
        assert(-0x10_0000_0000_0000_0000_0000 <= w * h <= 0x10_0000_0000_0000_0000_0000)
            by (nonlinear_arith)
            requires
                -0x200_0000_0000 <= w <= 0x200_0000_0000,
                -0x200_0000_0000 <= h <= 0x200_0000_0000,
        ;
    }
    w * h
}

/// Whether two boxes overlap beyond `threshold` millionths of IoU.
pub fn boxes_overlap(a: &BoundingBox, b: &BoundingBox, threshold: u32) -> (r: bool)
    requires
        within_limits(*a),
        within_limits(*b),
    ensures
        r == overlaps(*a, *b, threshold as int),
{
    let iw = interval_overlap(a.xmin, a.xmax, b.xmin, b.xmax);
    let ih = interval_overlap(a.ymin, a.ymax, b.ymin, b.ymax);
    proof {
        assert(0 <= iw * ih <= 0x10_0000_0000_0000_0000_0000) by (nonlinear_arith)
            requires
                0 <= iw <= 0x200_0000_0000,
                0 <= ih <= 0x200_0000_0000,
        ;
    }
    let inter = iw * ih;
    let ga = box_area(a);
    let gb = box_area(b);
    let union = ga + gb - inter;
    if union <= 0 {
        return false;
    }
    proof {
        assert((threshold as i128) * union <= 0x1_0000_0000 * 0x30_0000_0000_0000_0000_0000)
            by (nonlinear_arith)
            requires
                0 < union <= 0x30_0000_0000_0000_0000_0000,
                0 <= threshold <= 0xffff_ffff,
        ;
    }
    inter * (IOU_ONE as i128) >= (threshold as i128) * union
}

} // verus!
