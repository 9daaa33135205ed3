use vstd::prelude::*;

use crate::error::PipelineError;
use crate::gray::GRAY_MAX;
use crate::gray::GrayscaleTensor;

verus! {

/// The numeric execution engines a classifier can be built on. The engine
/// is chosen at construction and never changes; it only changes how the
/// forward pass is executed, never the math.
#[derive(Clone, Copy, Debug, PartialEq, Eq, Structural)]
pub enum MLBackend {
    Candle,
    NdArray,
    Wgpu,
}

/// A classifier instance: the backend selection captured at construction.
/// The instance is read-only after construction; the forward pass itself
/// is an opaque capability of the selected engine, exercised by the host.
pub struct ImageClassifier {
    pub model: MLBackend,
}

/// Denominator of the normalized fixed-point representation:
/// a stored numerator `n` stands for the real value `n / NORM_DENOM`.
pub const NORM_DENOM: i64 = 255 * 3081;

/// Numerator offset of the normalization formula: `255 * 1307` over
/// `NORM_DENOM` is exactly the dataset mean 0.1307 divided by the
/// standard deviation 0.3081.
pub const NORM_OFFSET: i64 = 255 * 1307;

/// A 28 x 28 tensor after normalization, as exact fixed-point numerators
/// over `NORM_DENOM`: entry `n` stands for `n / NORM_DENOM`, which equals
/// `((v / 255) - 0.1307) / 0.3081` for the underlying intensity `v`.
#[derive(Debug, Clone)]
pub struct NormalizedTensor {
    pub values: Vec<i64>,
}

impl NormalizedTensor {
    pub open spec fn well_formed(self) -> bool {
        &&& self.values.len() == 784
        &&& forall|i: int|
            0 <= i < 784 ==> -NORM_OFFSET <= #[trigger] self.values[i] <= 10 * GRAY_MAX
                - NORM_OFFSET
    }
}

/// Normalizes the tensor elementwise by the fixed dataset constants:
/// `x' = ((x / 255) - 0.1307) / 0.3081`. With intensities in thousandths,
/// the result is exact: the numerator over `NORM_DENOM` is
/// `10 * milli - NORM_OFFSET`.
pub fn normalize(t: &GrayscaleTensor) -> (out: NormalizedTensor)
    requires
        t.well_formed(),
    ensures
        out.well_formed(),
        forall|i: int|
            0 <= i < 784 ==> #[trigger] out.values[i] == 10 * t.values[i] - NORM_OFFSET,
{
    let mut values: Vec<i64> = Vec::new();
    let mut i: usize = 0;
    while i < 784
        invariant
            t.well_formed(),
            i <= 784,
            values.len() == i,
            forall|j: int| 0 <= j < i ==> #[trigger] values[j] == 10 * t.values[j] - NORM_OFFSET,
            forall|j: int|
                0 <= j < i ==> -NORM_OFFSET <= #[trigger] values[j] <= 10 * GRAY_MAX - NORM_OFFSET,
        decreases 784 - i,
    {
        let v: i64 = 10 * (t.values[i] as i64) - NORM_OFFSET;
        values.push(v);
        i = i + 1;
    }
    NormalizedTensor { values }
}

/// What came back from the selected backend's forward pass, as the host
/// observed it. Probabilities are fixed-point integers on any uniform
/// scale the host chooses; ranking only compares them, so the scale
/// cancels out.
pub enum ForwardOutcome {
    /// The selected backend has no working forward pass.
    Unavailable,
    /// The forward pass returned NaN or an infinity somewhere.
    NonFinite,
    /// The forward pass returned these values, one per class.
    Probabilities(Vec<i64>),
}

/// One ranked entry of a classification result.
#[derive(Debug, Clone)]
pub struct InferenceResult {
    pub index: usize,
    pub probability: i64,
    pub label: String,
}

/// Class `i` outranks class `j` under scores `s`: strictly higher score,
/// or an equal score and the lower class index (the deterministic
/// tie-break).
pub open spec fn ranks_before(s: Seq<i64>, i: int, j: int) -> bool {
    s[i] > s[j] || (s[i] == s[j] && i < j)
}

/// `order` is the full ranking of the ten classes under scores `s`: a
/// permutation of 0..10 sorted so that each class outranks all later
/// ones. `ranks_before` is a strict total order on distinct indices, so
/// this ranking is unique.
pub open spec fn is_rank_order(s: Seq<i64>, order: Seq<usize>) -> bool {
    &&& order.len() == 10
    &&& forall|j: int| 0 <= j < 10 ==> #[trigger] order[j] < 10
    &&& forall|j: int, k: int|
        #![trigger order[j], order[k]]
        0 <= j < k < 10 ==> order[j] != order[k] && ranks_before(s, order[j] as int, order[k] as int)
    &&& forall|v: usize| v < 10 ==> order.contains(v)
}

/// Two rankings of the same scores agree on every position up to `j`.
proof fn lemma_rank_order_agree_upto(s: Seq<i64>, o1: Seq<usize>, o2: Seq<usize>, j: int)
    requires
        is_rank_order(s, o1),
        is_rank_order(s, o2),
        0 <= j <= 10,
    ensures
        forall|m: int| 0 <= m < j ==> o1[m] == o2[m],
    decreases j,
{
    if j > 0 {
        lemma_rank_order_agree_upto(s, o1, o2, j - 1);
        let jj = j - 1;
        let v1 = o1[jj];
        let v2 = o2[jj];
        if v1 != v2 {
            assert(o2.contains(v1));
            let k = choose|k: int| 0 <= k < o2.len() && o2[k] == v1;
            if k < jj {
                assert(o1[k] == o2[k]);
            } else {
                assert(ranks_before(s, v2 as int, v1 as int));
            }
            assert(o1.contains(v2));
            let m = choose|m: int| 0 <= m < o1.len() && o1[m] == v2;
            if m < jj {
                assert(o2[m] == o1[m]);
            } else {
                assert(ranks_before(s, v1 as int, v2 as int));
            }
            assert(false);
        }
    }
}

/// The full ranking of the ten classes under given scores is unique, so
/// the top-5 reduction a contract describes through it is pinned down.
pub proof fn lemma_rank_order_unique(s: Seq<i64>, o1: Seq<usize>, o2: Seq<usize>)
    requires
        is_rank_order(s, o1),
        is_rank_order(s, o2),
    ensures
        o1 == o2,
{
    lemma_rank_order_agree_upto(s, o1, o2, 10);
    assert(o1 =~= o2);
}

/// `res` is the top-5 reduction of the ten scores `s`: the first five
/// classes of the full ranking, each entry carrying its class index, its
/// score, and the label of that class.
pub open spec fn is_top5(s: Seq<i64>, labels: Seq<String>, res: Seq<InferenceResult>) -> bool {
    &&& res.len() == 5
    &&& exists|order: Seq<usize>|
        #[trigger] is_rank_order(s, order) && forall|k: int|
            0 <= k < 5 ==> (#[trigger] res[k]).index == order[k] && res[k].probability == s[order[k] as int]
                && res[k].label@ == labels[order[k] as int]@
}

/// Whether class `a` outranks class `b` under `probabilities`.
fn ranked_before(probabilities: &Vec<i64>, a: usize, b: usize) -> (r: bool)
    requires
        a < probabilities.len(),
        b < probabilities.len(),
    ensures
        r == ranks_before(probabilities@, a as int, b as int),
{
    probabilities[a] > probabilities[b] || (probabilities[a] == probabilities[b] && a < b)
}

/// Ranks the ten class scores and keeps the top five: sorted by score
/// descending, ties broken by ascending class index, each entry labelled
/// from the injected ten-entry label table.
pub fn top_5_classes(probabilities: &Vec<i64>, labels: &Vec<String>) -> (res: Vec<InferenceResult>)
    requires
        probabilities.len() == 10,
        labels.len() == 10,
    ensures
        is_top5(probabilities@, labels@, res@),
{
    let mut order: Vec<usize> = Vec::new();
    let mut i: usize = 0;
    while i < 10
        invariant
            probabilities.len() == 10,
            i <= 10,
            order.len() == i,
            forall|j: int| 0 <= j < i ==> #[trigger] order@[j] < i,
            forall|j: int, k: int|
                #![trigger order@[j], order@[k]]
                0 <= j < k < i ==> order@[j] != order@[k] && ranks_before(
                    probabilities@,
                    order@[j] as int,
                    order@[k] as int,
                ),
            forall|v: usize| v < i ==> order@.contains(v),
        decreases 10 - i,
    {
        let mut p: usize = 0;
        while p < order.len()
            invariant
                probabilities.len() == 10,
                i < 10,
                order.len() == i,
                p <= i,
                forall|j: int| 0 <= j < i ==> #[trigger] order@[j] < i,
                forall|j: int, k: int|
                    #![trigger order@[j], order@[k]]
                    0 <= j < k < i ==> order@[j] != order@[k] && ranks_before(
                        probabilities@,
                        order@[j] as int,
                        order@[k] as int,
                    ),
                forall|j: int|
                    0 <= j < p ==> ranks_before(probabilities@, #[trigger] order@[j] as int, i as int),
            ensures
                p <= order.len(),
                forall|j: int|
                    0 <= j < p ==> ranks_before(probabilities@, #[trigger] order@[j] as int, i as int),
                p < order.len() ==> ranks_before(probabilities@, i as int, order@[p as int] as int),
            decreases order.len() - p,
        {
            let at_p = order[p];
            if ranked_before(probabilities, i, at_p) {
                break;
            }
            p = p + 1;
        }
        let ghost prev = order@;
        order.insert(p, i);
        proof {
            prev.insert_ensures(p as int, i);
            let cur = order@;
            assert forall|j: int| 0 <= j < cur.len() implies #[trigger] cur[j] < i + 1 by {
                if j < p {
                    assert(cur[j] == prev[j]);
                } else if j > p {
                    assert(cur[j] == prev[j - 1]);
                }
            }
            assert forall|j: int, k: int|
                #![trigger cur[j], cur[k]]
                0 <= j < k < cur.len() implies cur[j] != cur[k] && ranks_before(
                probabilities@,
                cur[j] as int,
                cur[k] as int,
            ) by {
                if k < p {
                    assert(cur[j] == prev[j] && cur[k] == prev[k]);
                } else if j < p && k == p {
                    assert(cur[j] == prev[j] && cur[k] == i);
                    assert(ranks_before(probabilities@, prev[j] as int, i as int));
                } else if j < p && k > p {
                    assert(cur[j] == prev[j] && cur[k] == prev[k - 1]);
                } else if j == p && k > p {
                    assert(cur[j] == i && cur[k] == prev[k - 1]);
                    assert(p < prev.len());
                    assert(ranks_before(probabilities@, i as int, prev[p as int] as int));
                    if k - 1 > p {
                        assert(ranks_before(probabilities@, prev[p as int] as int, prev[k - 1] as int));
                    }
                } else {
                    assert(j > p && k > p);
                    assert(cur[j] == prev[j - 1] && cur[k] == prev[k - 1]);
                }
            }
            assert forall|v: usize| v < i + 1 implies cur.contains(v) by {
                if v == i {
                    assert(cur[p as int] == i);
                } else {
                    assert(prev.contains(v));
                    let j = choose|j: int| 0 <= j < prev.len() && prev[j] == v;
                    if j < p {
                        assert(cur[j] == v);
                    } else {
                        assert(cur[j + 1] == v);
                    }
                }
            }
        }
        i = i + 1;
    }
    let mut res: Vec<InferenceResult> = Vec::new();
    let mut k: usize = 0;
    while k < 5
        invariant
            probabilities.len() == 10,
            labels.len() == 10,
            is_rank_order(probabilities@, order@),
            k <= 5,
            res.len() == k,
            forall|j: int|
                0 <= j < k ==> (#[trigger] res@[j]).index == order@[j] && res@[j].probability
                    == probabilities@[order@[j] as int] && res@[j].label@ == labels@[order@[
                j] as int]@,
        decreases 5 - k,
    {
        let idx = order[k];
        res.push(
            InferenceResult {
                index: idx,
                probability: probabilities[idx],
                label: labels[idx].clone(),
            },
        );
        k = k + 1;
    }
    res
}

/// What the dispatcher owes the caller for each possible forward-pass
/// outcome: an unavailable backend and a non-finite output are surfaced
/// as errors, an output of the wrong length is a numeric anomaly, and a
/// well-formed output is reduced to its ranked top five.
pub open spec fn ranked_outcome(
    outcome: ForwardOutcome,
    labels: Seq<String>,
    res: Result<Vec<InferenceResult>, PipelineError>,
) -> bool {
    match outcome {
        ForwardOutcome::Unavailable => res == Err::<
            Vec<InferenceResult>,
            PipelineError,
        >(PipelineError::BackendUnavailable),
        ForwardOutcome::NonFinite => res == Err::<
            Vec<InferenceResult>,
            PipelineError,
        >(PipelineError::NumericAnomaly),
        ForwardOutcome::Probabilities(p) => if p.len() != 10 {
            res == Err::<Vec<InferenceResult>, PipelineError>(PipelineError::NumericAnomaly)
        } else {
            res matches Ok(rr) && is_top5(p@, labels, rr@)
        },
    }
}

/// Reduces a forward-pass outcome to the ranked top-5 classification,
/// or to the error the outcome calls for: `BackendUnavailable` for a
/// backend that cannot run, `NumericAnomaly` for a non-finite or
/// wrong-length output. Never substitutes a default output.
pub fn rank_output(outcome: &ForwardOutcome, labels: &Vec<String>) -> (res: Result<
    Vec<InferenceResult>,
    PipelineError,
>)
    requires
        labels.len() == 10,
    ensures
        ranked_outcome(*outcome, labels@, res),
{
    match outcome {
        ForwardOutcome::Unavailable => Err(PipelineError::BackendUnavailable),
        ForwardOutcome::NonFinite => Err(PipelineError::NumericAnomaly),
        ForwardOutcome::Probabilities(p) => {
            if p.len() != 10 {
                Err(PipelineError::NumericAnomaly)
            } else {
                Ok(top_5_classes(p, labels))
            }
        },
    }
}

} // verus!
