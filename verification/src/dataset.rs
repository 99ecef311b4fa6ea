//! The dataset assembler: the samples of all blobs in one ordered sequence.
//!
//! Row order is generation order. It is kept from here to the end of the
//! pipeline, because every later stage finds a row by its position.
use crate::error::PipelineError;
use crate::sample::{ClusterSpec, Sample};
use vstd::prelude::*;

verus! {

/// The batches laid end to end: first batch first, each batch in its own
/// order.
pub open spec fn concat(batches: Seq<Seq<Sample>>) -> Seq<Sample>
    decreases batches.len(),
{
    if batches.len() == 0 {
        Seq::empty()
    } else {
        concat(batches.drop_last()) + batches.last()
    }
}

/// The number of samples that the specifications ask for in all.
pub open spec fn total_count(specs: Seq<ClusterSpec>) -> nat
    decreases specs.len(),
{
    if specs.len() == 0 {
        0
    } else {
        total_count(specs.drop_last()) + specs.last().count as nat
    }
}

/// The position in the assembled dataset at which batch `i` starts.
pub open spec fn offset(batches: Seq<Seq<Sample>>, i: int) -> nat {
    concat(batches.take(i)).len()
}

/// There is one batch per specification, and each batch holds as many
/// samples as its specification asks for.
pub open spec fn fits(specs: Seq<ClusterSpec>, batches: Seq<Seq<Sample>>) -> bool {
    &&& batches.len() == specs.len()
    &&& forall|i: int| 0 <= i < specs.len() ==> (#[trigger] batches[i]).len() == specs[i].count
}

/// The contents of each batch.
pub open spec fn contents(batches: Seq<Vec<Sample>>) -> Seq<Seq<Sample>> {
    Seq::new(batches.len(), |i: int| batches[i]@)
}

/// The assembled dataset has as many rows as the specifications ask for in
/// all.
pub proof fn lemma_concat_len(specs: Seq<ClusterSpec>, batches: Seq<Seq<Sample>>)
    requires
        fits(specs, batches),
    ensures
        concat(batches).len() == total_count(specs),
    decreases specs.len(),
{
    if specs.len() > 0 {
        lemma_concat_len(specs.drop_last(), batches.drop_last());
    }
}

/// Each batch starts where the one before it ends.
pub proof fn lemma_offset_step(batches: Seq<Seq<Sample>>, i: int)
    requires
        0 <= i < batches.len(),
    ensures
        offset(batches, 0) == 0,
        offset(batches, i + 1) == offset(batches, i) + batches[i].len(),
        offset(batches, batches.len() as int) == concat(batches).len(),
{
    assert(batches.take(i + 1).drop_last() =~= batches.take(i));
    assert(batches.take(i + 1).last() == batches[i]);
    assert(batches.take(batches.len() as int) =~= batches);
    assert(batches.take(0).len() == 0);
}

/// Insertion order is kept across batch boundaries: sample `j` of batch `i`
/// stands in the assembled dataset at the start of its batch plus `j`.
pub proof fn lemma_concat_order(batches: Seq<Seq<Sample>>, i: int, j: int)
    requires
        0 <= i < batches.len(),
        0 <= j < batches[i].len(),
    ensures
        offset(batches, i) + j < concat(batches).len(),
        concat(batches)[offset(batches, i) + j] == batches[i][j],
    decreases batches.len(),
{
    let front = batches.drop_last();
    if i == batches.len() - 1 {
        assert(batches.take(i) =~= front);
    } else {
        lemma_concat_order(front, i, j);
        assert(front.take(i) =~= batches.take(i));
    }
}

/// Joins the batches that were generated for `specs`, one batch per
/// specification and in the same order, into one dataset. Nothing is
/// dropped, sorted or deduplicated. A batch whose size differs from the
/// count of its specification, or a missing or surplus batch, is a shape
/// error.
pub fn assemble(specs: &Vec<ClusterSpec>, batches: &Vec<Vec<Sample>>) -> (r: Result<
    Vec<Sample>,
    PipelineError,
>)
    ensures
        r is Ok <==> fits(specs@, contents(batches@)),
        r matches Ok(dataset) ==> dataset@ == concat(contents(batches@)) && dataset@.len()
            == total_count(specs@),
        r matches Err(e) ==> e == PipelineError::TableConstruction,
{
    if batches.len() != specs.len() {
        return Err(PipelineError::TableConstruction);
    }
    let ghost all = contents(batches@);
    let mut dataset: Vec<Sample> = Vec::new();
    let mut i: usize = 0;
    while i < batches.len()
        invariant
            i <= batches.len(),
            batches.len() == specs.len(),
            all == contents(batches@),
            dataset@ == concat(all.take(i as int)),
            forall|h: int| 0 <= h < i ==> (#[trigger] all[h]).len() == specs[h].count,
        decreases batches.len() - i,
    {
        let batch = &batches[i];
        if batch.len() != specs[i].count {
            assert(all[i as int].len() != specs[i as int].count);
            return Err(PipelineError::TableConstruction);
        }
        let ghost before = dataset@;
        let mut j: usize = 0;
        while j < batch.len()
            invariant
                j <= batch.len(),
                dataset@ == before + batch@.take(j as int),
            decreases batch.len() - j,
        {
            dataset.push(batch[j]);
            assert(batch@.take(j + 1) =~= batch@.take(j as int).push(batch@[j as int]));
            j += 1;
        }
        proof {
            assert(batch@.take(j as int) =~= batch@);
            assert(all.take(i + 1).drop_last() =~= all.take(i as int));
            assert(all.take(i + 1).last() == batch@);
        }
        i += 1;
    }
    proof {
        assert(all.take(i as int) =~= all);
        lemma_concat_len(specs@, all);
    }
    Ok(dataset)
}

} // verus!
