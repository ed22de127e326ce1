//! Decoding the network's raw predictions into candidate boxes per class.
use vstd::prelude::*;
use crate::bbox::{BoundingBox, within_limits};
use crate::error::DetectError;

verus! {

/// Raw predictions: `4 + numClasses` rows of one value per anchor. Rows 0 to
/// 3 hold each anchor's centre x, centre y, width and height; row `4 + c`
/// holds its score for class `c`. Values are fixed-point integers.
pub struct PredictionTensor {
    rows: Vec<Vec<i32>>,
}

/// At least one class row, and every row of the same length.
pub open spec fn well_shaped(rows: Seq<Seq<i32>>) -> bool {
    rows.len() >= 5 && forall|r: int| 0 <= r < rows.len() ==> (#[trigger] rows[r]).len()
        == rows[0].len()
}

pub open spec fn num_classes(rows: Seq<Seq<i32>>) -> int {
    rows.len() - 4
}

pub open spec fn num_predictions(rows: Seq<Seq<i32>>) -> int {
    rows[0].len() as int
}

/// Score of anchor `i` for class `c`.
pub open spec fn score(rows: Seq<Seq<i32>>, c: int, i: int) -> int {
    rows[4 + c][i] as int
}

/// The class of highest score for anchor `i` among the first `n` classes;
/// the lowest such class on ties.
pub open spec fn best_class(rows: Seq<Seq<i32>>, i: int, n: int) -> int
    decreases n,
{
    if n <= 1 {
        0
    } else {
        let k = best_class(rows, i, n - 1);
        if score(rows, n - 1, i) > score(rows, k, i) {
            n - 1
        } else {
            k
        }
    }
}

/// The box of anchor `i`, if its best score passes `threshold` and 0.
pub open spec fn anchor_candidate(rows: Seq<Seq<i32>>, i: int, threshold: int) -> Option<
    BoundingBox,
> {
    let c = best_class(rows, i, num_classes(rows));
    let conf = score(rows, c, i);
    let cx = rows[0][i] as int;
    let cy = rows[1][i] as int;
    let w = rows[2][i] as int;
    let h = rows[3][i] as int;
    if conf > threshold && conf > 0 {
        Some(
            BoundingBox {
                xmin: (2 * cx - w) as i64,
                ymin: (2 * cy - h) as i64,
                xmax: (2 * cx + w) as i64,
                ymax: (2 * cy + h) as i64,
                confidence: conf as i32,
                class_index: c as usize,
            },
        )
    } else {
        None
    }
}

/// Boxes of the first `n` anchors that pass, in anchor order.
pub open spec fn candidates(rows: Seq<Seq<i32>>, threshold: int, n: int) -> Seq<BoundingBox>
    decreases n,
{
    if n <= 0 {
        Seq::empty()
    } else {
        let prev = candidates(rows, threshold, n - 1);
        match anchor_candidate(rows, n - 1, threshold) {
            Some(b) => prev.push(b),
            None => prev,
        }
    }
}

/// The boxes of `s` of class `c`, in order.
pub open spec fn of_class(s: Seq<BoundingBox>, c: int) -> Seq<BoundingBox>
    decreases s.len(),
{
    if s.len() == 0 {
        s
    } else {
        let prev = of_class(s.drop_last(), c);
        if s.last().class_index == c {
            prev.push(s.last())
        } else {
            prev
        }
    }
}

/// One bucket per class, each holding that class's passing boxes in anchor
/// order.
pub open spec fn decoded(rows: Seq<Seq<i32>>, threshold: int) -> Seq<Seq<BoundingBox>> {
    Seq::new(
        num_classes(rows) as nat,
        |c: int| of_class(candidates(rows, threshold, num_predictions(rows)), c),
    )
}

/// What a decoded box satisfies: its confidence passed both the threshold
/// and zero, and its edges are in range.
pub open spec fn valid_candidate(b: BoundingBox, threshold: int) -> bool {
    b.confidence > threshold && b.confidence > 0 && within_limits(b)
}

pub proof fn lemma_best_class(rows: Seq<Seq<i32>>, i: int, n: int)
    requires
        n >= 1,
    ensures
        0 <= best_class(rows, i, n) < n,
    decreases n,
{
    if n > 1 {
        lemma_best_class(rows, i, n - 1);
    }
}

pub proof fn lemma_candidates_valid(rows: Seq<Seq<i32>>, threshold: int, n: int)
    requires
        well_shaped(rows),
        n <= num_predictions(rows),
    ensures
        forall|j: int|
            0 <= j < candidates(rows, threshold, n).len() ==> valid_candidate(
                #[trigger] candidates(rows, threshold, n)[j],
                threshold,
            ) && candidates(rows, threshold, n)[j].class_index < num_classes(rows),
    decreases n,
{
    if n > 0 {
        lemma_candidates_valid(rows, threshold, n - 1);
        lemma_best_class(rows, n - 1, num_classes(rows));
        let c = best_class(rows, n - 1, num_classes(rows));
        assert(rows[4 + c].len() == rows[0].len());
        assert(rows[1].len() == rows[0].len());
        assert(rows[2].len() == rows[0].len());
        assert(rows[3].len() == rows[0].len());
        let prev = candidates(rows, threshold, n - 1);
        let cur = candidates(rows, threshold, n);
        assert forall|j: int| 0 <= j < cur.len() implies valid_candidate(
            #[trigger] cur[j],
            threshold,
        ) && cur[j].class_index < num_classes(rows) by {
            if j < prev.len() {
                assert(cur[j] == prev[j]);
            }
        }
    }
}

pub proof fn lemma_of_class(s: Seq<BoundingBox>, c: int)
    ensures
        forall|j: int|
            0 <= j < of_class(s, c).len() ==> (#[trigger] of_class(s, c)[j]).class_index == c
                && s.contains(of_class(s, c)[j]),
    decreases s.len(),
{
    if s.len() > 0 {
        let p = s.drop_last();
        lemma_of_class(p, c);
        let r = of_class(s, c);
        assert forall|j: int| 0 <= j < r.len() implies (#[trigger] r[j]).class_index == c
            && s.contains(r[j]) by {
            if j < of_class(p, c).len() {
                let k = choose|k: int| 0 <= k < p.len() && p[k] == r[j];
                assert(s[k] == r[j]);
            } else {
                assert(s[s.len() - 1] == r[j]);
            }
        }
    }
}

/// Every box that decoding puts in bucket `c` has class `c`, passed both
/// the confidence threshold and zero, and has its edges in range.
pub proof fn lemma_decoded_valid(rows: Seq<Seq<i32>>, threshold: int)
    requires
        well_shaped(rows),
    ensures
        forall|c: int, j: int|
            0 <= c < decoded(rows, threshold).len() && 0 <= j < decoded(rows, threshold)[c].len()
                ==> valid_candidate(#[trigger] decoded(rows, threshold)[c][j], threshold)
                && decoded(rows, threshold)[c][j].class_index == c,
{
    let all = candidates(rows, threshold, num_predictions(rows));
    lemma_candidates_valid(rows, threshold, num_predictions(rows));
    assert forall|c: int, j: int|
        0 <= c < decoded(rows, threshold).len() && 0 <= j < decoded(rows, threshold)[c].len()
            implies valid_candidate(#[trigger] decoded(rows, threshold)[c][j], threshold)
        && decoded(rows, threshold)[c][j].class_index == c by {
        lemma_of_class(all, c);
        let b = of_class(all, c)[j];
        let k = choose|k: int| 0 <= k < all.len() && all[k] == b;
    }
}

impl PredictionTensor {
    /// The rows, as sequences of values.
    pub closed spec fn view(&self) -> Seq<Seq<i32>> {
        self.rows@.map_values(|r: Vec<i32>| r@)
    }

    /// Takes the rows of a prediction; fails with `DetectorError` unless
    /// there is at least one class row and all rows have one length.
    pub fn new(rows: Vec<Vec<i32>>) -> (r: Result<PredictionTensor, DetectError>)
        ensures
            match r {
                Ok(t) => t.view() == rows@.map_values(|r: Vec<i32>| r@) && well_shaped(t.view()),
                Err(e) => e == DetectError::DetectorError && !well_shaped(
                    rows@.map_values(|r: Vec<i32>| r@),
                ),
            },
    {
        let ghost v = rows@.map_values(|r: Vec<i32>| r@);
        if rows.len() < 5 {
            return Err(DetectError::DetectorError);
        }
        let n = rows[0].len();
        let mut r: usize = 0;
        while r < rows.len()
            invariant
                r <= rows.len(),
                rows.len() >= 5,
                n == v[0].len(),
                v == rows@.map_values(|r: Vec<i32>| r@),
                forall|q: int| 0 <= q < r ==> (#[trigger] v[q]).len() == n,
            decreases rows.len() - r,
        {
            if rows[r].len() != n {
                assert(v[r as int].len() != v[0].len());
                return Err(DetectError::DetectorError);
            }
            r += 1;
        }
        Ok(PredictionTensor { rows })
    }

    pub fn num_classes(&self) -> (r: usize)
        requires
            well_shaped(self.view()),
        ensures
            r == num_classes(self.view()),
    {
        self.rows.len() - 4
    }

    pub fn num_predictions(&self) -> (r: usize)
        requires
            well_shaped(self.view()),
        ensures
            r == num_predictions(self.view()),
    {
        self.rows[0].len()
    }

    fn at(&self, r: usize, i: usize) -> (v: i32)
        requires
            well_shaped(self.view()),
            r < self.view().len(),
            i < num_predictions(self.view()),
        ensures
            v == self.view()[r as int][i as int],
    {
        assert(self.view()[r as int].len() == self.view()[0].len());
        self.rows[r][i]
    }

    /// The class of highest score for anchor `i`, lowest on ties.
    fn best_class_of(&self, i: usize) -> (c: usize)
        requires
            well_shaped(self.view()),
            i < num_predictions(self.view()),
        ensures
            c == best_class(self.view(), i as int, num_classes(self.view())),
    {
        let n = self.num_classes();
        assert(self.view().len() == self.rows.len());
        let mut c: usize = 0;
        let mut k: usize = 1;
        while k < n
            invariant
                well_shaped(self.view()),
                i < num_predictions(self.view()),
                n == num_classes(self.view()),
                n + 4 <= usize::MAX,
                1 <= k <= n,
                c == best_class(self.view(), i as int, k as int),
            decreases n - k,
        {
            proof {
                lemma_best_class(self.view(), i as int, k as int);
            }
            if self.at(4 + k, i) > self.at(4 + c, i) {
                c = k;
            }
            k += 1;
        }
        c
    }

    /// The box of anchor `i`, if its best score passes the threshold and 0.
    fn candidate(&self, i: usize, threshold: i32) -> (r: Option<BoundingBox>)
        requires
            well_shaped(self.view()),
            i < num_predictions(self.view()),
        ensures
            r == anchor_candidate(self.view(), i as int, threshold as int),
    {
        let c = self.best_class_of(i);
        assert(self.view().len() == self.rows.len());
        proof {
            lemma_best_class(self.view(), i as int, num_classes(self.view()));
        }
        let conf = self.at(4 + c, i);
        if conf > threshold && conf > 0 {
            let cx = self.at(0, i) as i64;
            let cy = self.at(1, i) as i64;
            let w = self.at(2, i) as i64;
            let h = self.at(3, i) as i64;
            Some(
                BoundingBox {
                    xmin: 2 * cx - w,
                    ymin: 2 * cy - h,
                    xmax: 2 * cx + w,
                    ymax: 2 * cy + h,
                    confidence: conf,
                    class_index: c,
                },
            )
        } else {
            None
        }
    }

    /// Boxes of every anchor that passes, in anchor order.
    pub fn candidates(&self, threshold: i32) -> (r: Vec<BoundingBox>)
        requires
            well_shaped(self.view()),
        ensures
            r@ == candidates(self.view(), threshold as int, num_predictions(self.view())),
    {
        let n = self.num_predictions();
        let mut r: Vec<BoundingBox> = Vec::new();
        let mut i: usize = 0;
        while i < n
            invariant
                well_shaped(self.view()),
                n == num_predictions(self.view()),
                i <= n,
                r@ == candidates(self.view(), threshold as int, i as int),
            decreases n - i,
        {
            match self.candidate(i, threshold) {
                Some(b) => r.push(b),
                None => {},
            }
            i += 1;
        }
        r
    }
}

/// The boxes of `s` of class `c`, in order.
fn boxes_of_class(s: &Vec<BoundingBox>, c: usize) -> (r: Vec<BoundingBox>)
    ensures
        r@ == of_class(s@, c as int),
{
    let mut r: Vec<BoundingBox> = Vec::new();
    let mut i: usize = 0;
    while i < s.len()
        invariant
            i <= s.len(),
            r@ == of_class(s@.subrange(0, i as int), c as int),
        decreases s.len() - i,
    {
        proof {
            assert(s@.subrange(0, i + 1).drop_last() =~= s@.subrange(0, i as int));
        }
        if s[i].class_index == c {
            r.push(s[i]);
        }
        i += 1;
    }
    proof {
        assert(s@.subrange(0, s.len() as int) =~= s@);
    }
    r
}

/// Decodes the predictions into one bucket of candidate boxes per class:
/// an anchor's box goes to the bucket of its best class when that score is
/// above `threshold` and above 0.
pub fn decode(pred: &PredictionTensor, threshold: i32) -> (r: Vec<Vec<BoundingBox>>)
    requires
        well_shaped(pred.view()),
    ensures
        r@.map_values(|b: Vec<BoundingBox>| b@) == decoded(pred.view(), threshold as int),
        forall|c: int, j: int|
            0 <= c < r.len() && 0 <= j < r@[c].len() ==> valid_candidate(
                #[trigger] r@[c]@[j],
                threshold as int,
            ) && r@[c]@[j].class_index == c,
{
    let all = pred.candidates(threshold);
    let n = pred.num_classes();
    let mut r: Vec<Vec<BoundingBox>> = Vec::new();
    let mut c: usize = 0;
    while c < n
        invariant
            c <= n,
            n == num_classes(pred.view()),
            all@ == candidates(pred.view(), threshold as int, num_predictions(pred.view())),
            r.len() == c,
            forall|k: int| 0 <= k < c ==> (#[trigger] r@[k])@ == of_class(all@, k),
        decreases n - c,
    {
        let bucket = boxes_of_class(&all, c);
        r.push(bucket);
        c += 1;
    }
    proof {
        let d = decoded(pred.view(), threshold as int);
        assert(r@.map_values(|b: Vec<BoundingBox>| b@) =~= d);
        lemma_decoded_valid(pred.view(), threshold as int);
        assert forall|c: int, j: int| 0 <= c < r.len() && 0 <= j < r@[c].len() implies valid_candidate(
            #[trigger] r@[c]@[j],
            threshold as int,
        ) && r@[c]@[j].class_index == c by {
            assert(r@[c]@ == d[c]);
        }
    }
    r
}

} // verus!
