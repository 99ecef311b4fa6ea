//! The clustering engine: what it is handed, and what becomes of its answer.
//!
//! Fitting the model is left to the caller. The library lays out the
//! observations as a matrix, refuses a fit that cannot succeed, and checks
//! the assignments that come back before a single row is labeled.
use crate::error::PipelineError;
use crate::sample::{LabeledSample, Sample};
use crate::scalar::Scalar;
use vstd::prelude::*;
use vstd::set_lib::{lemma_int_range, lemma_len_subset, set_int_range};

verus! {

/// The number of features of an observation: its two coordinates.
pub const COLUMNS: usize = 2;

/// The observed coordinates as a matrix with one row per sample and two
/// columns, `x` then `y`, stored row by row.
pub open spec fn features(dataset: Seq<Sample>) -> Seq<Scalar> {
    Seq::new(
        2 * dataset.len(),
        |i: int|
            if i % 2 == 0 {
                dataset[i / 2].noisy.x
            } else {
                dataset[i / 2].noisy.y
            },
    )
}

/// A fit into `k` clusters is possible on `rows` rows: there is at least one
/// cluster, and no more clusters than rows. This rules out an empty dataset.
pub open spec fn can_fit(rows: nat, k: u32) -> bool {
    0 < k <= rows
}

/// Every assignment names one of the `k` clusters.
pub open spec fn in_range(assignments: Seq<usize>, k: u32) -> bool {
    forall|i: int| 0 <= i < assignments.len() ==> #[trigger] assignments[i] < k
}

/// Row `i` of the result is sample `i` with assignment `i` as its label.
pub open spec fn labeled(dataset: Seq<Sample>, assignments: Seq<usize>) -> Seq<LabeledSample> {
    Seq::new(
        dataset.len(),
        |i: int| LabeledSample { sample: dataset[i], label: assignments[i] as u32 },
    )
}

/// Why `assignments` cannot label `dataset`, if they cannot. An impossible
/// fit is reported first, then a wrong number of assignments, then an
/// assignment that names no cluster.
pub open spec fn labeling_error(dataset: Seq<Sample>, k: u32, assignments: Seq<usize>) -> Option<
    PipelineError,
> {
    if !can_fit(dataset.len(), k) {
        Some(PipelineError::Fit)
    } else if assignments.len() != dataset.len() {
        Some(PipelineError::TableConstruction)
    } else if !in_range(assignments, k) {
        Some(PipelineError::Fit)
    } else {
        None
    }
}

/// A labeled dataset as a value: the rows in generation order, and the
/// number of clusters that the labels range over.
pub struct LabeledRows {
    pub rows: Seq<LabeledSample>,
    pub clusters: u32,
}

impl LabeledRows {
    /// Every row carries a label below the number of clusters.
    pub open spec fn wf(self) -> bool {
        forall|i: int| 0 <= i < self.rows.len() ==> (#[trigger] self.rows[i]).label < self.clusters
    }

    /// The samples without their labels.
    pub open spec fn samples(self) -> Seq<Sample> {
        Seq::new(self.rows.len(), |i: int| self.rows[i].sample)
    }

    /// The labels in row order.
    pub open spec fn labels(self) -> Seq<u32> {
        Seq::new(self.rows.len(), |i: int| self.rows[i].label)
    }

    /// The labels that occur.
    pub open spec fn distinct_labels(self) -> Set<u32> {
        self.labels().to_set()
    }
}

/// What the clustering engine is handed.
#[derive(Debug, PartialEq, Eq)]
pub struct FitRequest {
    /// The observations, row by row, two columns wide.
    pub matrix: Vec<Scalar>,
    /// The number of rows of the matrix.
    pub rows: usize,
    /// The number of columns of the matrix.
    pub columns: usize,
    /// The number of clusters to fit.
    pub k: u32,
}

/// A dataset in which every row has its label. It is read-only: rows are
/// neither added nor dropped nor relabeled.
#[derive(Debug, PartialEq, Eq)]
pub struct LabeledDataset {
    rows: Vec<LabeledSample>,
    clusters: u32,
}

impl View for LabeledDataset {
    type V = LabeledRows;

    closed spec fn view(&self) -> LabeledRows {
        LabeledRows { rows: self.rows@, clusters: self.clusters }
    }
}

/// Prepares the fit of `dataset` into `k` clusters. The fit is refused when
/// the dataset is empty, when `k` is zero, and when `k` exceeds the number of
/// rows.
pub fn fit_request(dataset: &Vec<Sample>, k: u32) -> (r: Result<FitRequest, PipelineError>)
    ensures
        r is Ok <==> can_fit(dataset@.len(), k),
        r matches Ok(request) ==> {
            &&& request.matrix@ == features(dataset@)
            &&& request.rows == dataset@.len()
            &&& request.columns == COLUMNS
            &&& request.matrix@.len() == request.rows * request.columns
            &&& request.k == k
        },
        r matches Err(e) ==> e == PipelineError::Fit,
{
    if k == 0 || k as usize > dataset.len() {
        return Err(PipelineError::Fit);
    }
    let mut matrix: Vec<Scalar> = Vec::new();
    let mut i: usize = 0;
    while i < dataset.len()
        invariant
            i <= dataset.len(),
            matrix@ == features(dataset@.take(i as int)),
        decreases dataset.len() - i,
    {
        matrix.push(dataset[i].noisy.x);
        matrix.push(dataset[i].noisy.y);
        assert(matrix@ =~= features(dataset@.take(i + 1)));
        i += 1;
    }
    assert(dataset@.take(i as int) =~= dataset@);
    Ok(FitRequest { matrix, rows: dataset.len(), columns: COLUMNS, k })
}

/// Labels `dataset` with the assignments that the clustering engine
/// returned for it: row `i` gets assignment `i`. The rows keep their order
/// and their number. The labeling is refused when the fit was impossible in
/// the first place, when there is not exactly one assignment per row, and
/// when an assignment names no cluster.
pub fn label_rows(dataset: &Vec<Sample>, k: u32, assignments: &Vec<usize>) -> (r: Result<
    LabeledDataset,
    PipelineError,
>)
    ensures
        r is Ok <==> labeling_error(dataset@, k, assignments@) is None,
        r matches Ok(data) ==> {
            &&& data@.rows == labeled(dataset@, assignments@)
            &&& data@.clusters == k
            &&& data@.samples() == dataset@
            &&& data@.wf()
        },
        r matches Err(e) ==> labeling_error(dataset@, k, assignments@) == Some(e),
{
    if k == 0 || k as usize > dataset.len() {
        return Err(PipelineError::Fit);
    }
    if assignments.len() != dataset.len() {
        return Err(PipelineError::TableConstruction);
    }
    let mut rows: Vec<LabeledSample> = Vec::new();
    let mut i: usize = 0;
    while i < dataset.len()
        invariant
            i <= dataset.len(),
            assignments.len() == dataset.len(),
            rows@ == labeled(dataset@.take(i as int), assignments@.take(i as int)),
            in_range(assignments@.take(i as int), k),
        decreases dataset.len() - i,
    {
        let assignment = assignments[i];
        if assignment >= k as usize {
            assert(!(assignments@[i as int] < k));
            return Err(PipelineError::Fit);
        }
        rows.push(LabeledSample { sample: dataset[i], label: assignment as u32 });
        assert(rows@ =~= labeled(dataset@.take(i + 1), assignments@.take(i + 1)));
        i += 1;
    }
    assert(dataset@.take(i as int) =~= dataset@);
    assert(assignments@.take(i as int) =~= assignments@);
    let data = LabeledDataset { rows, clusters: k };
    assert(data@.samples() =~= dataset@);
    Ok(data)
}

impl LabeledDataset {
    #[verifier::type_invariant]
    spec fn inv(self) -> bool {
        self@.wf()
    }

    /// The number of rows.
    pub fn len(&self) -> (n: usize)
        ensures
            n == self@.rows.len(),
    {
        self.rows.len()
    }

    /// The number of clusters that the labels range over.
    pub fn clusters(&self) -> (k: u32)
        ensures
            k == self@.clusters,
    {
        self.clusters
    }

    /// The rows in generation order, each with a label below `clusters()`.
    pub fn rows(&self) -> (rows: &Vec<LabeledSample>)
        ensures
            rows@ == self@.rows,
            self@.wf(),
    {
        proof {
            use_type_invariant(self);
        }
        &self.rows
    }
}

/// With a single cluster every row has label zero.
pub proof fn lemma_single_cluster(data: LabeledRows)
    requires
        data.wf(),
        data.clusters == 1,
    ensures
        forall|i: int| 0 <= i < data.rows.len() ==> (#[trigger] data.rows[i]).label == 0,
{
}

/// No more labels occur than there are rows, and no more than there are
/// clusters.
pub proof fn lemma_label_count(data: LabeledRows)
    requires
        data.wf(),
    ensures
        data.distinct_labels().finite(),
        data.distinct_labels().len() <= data.rows.len(),
        data.distinct_labels().len() <= data.clusters,
{
    let labels = data.labels();
    labels.lemma_cardinality_of_set();
    let wide = labels.map_values(|l: u32| l as int);
    wide.lemma_cardinality_of_set();
    let range = set_int_range(0, data.clusters as int);
    lemma_int_range(0, data.clusters as int);
    assert(wide.to_set().subset_of(range)) by {
        assert forall|v: int| wide.to_set().contains(v) implies range.contains(v) by {
            let i = choose|i: int| 0 <= i < wide.len() && wide[i] == v;
            assert(data.rows[i].label < data.clusters);
        }
    }
    lemma_len_subset(wide.to_set(), range);
    vstd::seq_lib::seq_to_set_is_finite(labels);
    assert(labels.to_set().len() == wide.to_set().len()) by {
        lemma_distinct_widen(labels);
    }
}

/// Widening labels to integers keeps the number of distinct labels.
proof fn lemma_distinct_widen(labels: Seq<u32>)
    ensures
        labels.to_set().len() == labels.map_values(|l: u32| l as int).to_set().len(),
    decreases labels.len(),
{
    let wide = labels.map_values(|l: u32| l as int);
    if labels.len() == 0 {
        assert(labels.to_set() =~= Set::empty());
        assert(wide.to_set() =~= Set::empty());
    } else {
        let front = labels.drop_last();
        let last = labels.last();
        lemma_distinct_widen(front);
        let wide_front = front.map_values(|l: u32| l as int);
        assert(wide.drop_last() =~= wide_front);
        vstd::seq_lib::seq_to_set_is_finite(front);
        vstd::seq_lib::seq_to_set_is_finite(wide_front);
        assert(labels =~= front.push(last));
        assert(wide =~= wide_front.push(last as int));
        front.lemma_push_to_set_commute(last);
        wide_front.lemma_push_to_set_commute(last as int);
        assert(front.to_set().contains(last) <==> wide_front.to_set().contains(last as int)) by {
            if front.to_set().contains(last) {
                let i = choose|i: int| 0 <= i < front.len() && front[i] == last;
                assert(wide_front[i] == last as int);
            }
            if wide_front.to_set().contains(last as int) {
                let i = choose|i: int| 0 <= i < wide_front.len() && wide_front[i] == last as int;
                assert(front[i] == last);
            }
        }
    }
}

} // verus!
