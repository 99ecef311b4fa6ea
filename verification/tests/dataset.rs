use noisy_clusters::dataset::assemble;
use noisy_clusters::error::PipelineError;
use noisy_clusters::sample::{ClusterSpec, Point, Sample};
use noisy_clusters::scalar::Scalar;

fn scalar(value: f64) -> Scalar {
    Scalar::from_bits(value.to_bits())
}

fn spec(count: usize) -> ClusterSpec {
    ClusterSpec::new(Point::new(scalar(2.0), scalar(2.0)), scalar(0.3), count)
}

fn sample(tag: f64) -> Sample {
    Sample::new(scalar(tag), scalar(tag + 0.25), scalar(tag + 0.5), scalar(tag + 0.75))
}

fn batch(first: usize, count: usize) -> Vec<Sample> {
    (first..first + count).map(|i| sample(i as f64)).collect()
}

#[test]
fn assemble_keeps_order_across_batches() {
    let specs = vec![spec(2), spec(3), spec(1)];
    let batches = vec![batch(0, 2), batch(10, 3), batch(20, 1)];
    let dataset = assemble(&specs, &batches).unwrap();
    assert_eq!(
        dataset,
        vec![sample(0.0), sample(1.0), sample(10.0), sample(11.0), sample(12.0), sample(20.0)]
    );
}

#[test]
fn assemble_has_the_sum_of_the_counts() {
    let specs = vec![spec(50), spec(50), spec(50)];
    let batches = vec![batch(0, 50), batch(100, 50), batch(200, 50)];
    let dataset = assemble(&specs, &batches).unwrap();
    assert_eq!(dataset.len(), 150);
    assert_eq!(dataset[0], sample(0.0));
    assert_eq!(dataset[49], sample(49.0));
    assert_eq!(dataset[50], sample(100.0));
    assert_eq!(dataset[100], sample(200.0));
    assert_eq!(dataset[149], sample(249.0));
}

#[test]
fn assemble_keeps_duplicates_and_empty_batches() {
    let specs = vec![spec(0), spec(2), spec(0), spec(2)];
    let twice = vec![sample(1.0), sample(1.0)];
    let batches = vec![Vec::new(), twice.clone(), Vec::new(), twice];
    let dataset = assemble(&specs, &batches).unwrap();
    assert_eq!(dataset, vec![sample(1.0); 4]);
}

#[test]
fn assemble_of_nothing_is_empty() {
    assert_eq!(assemble(&Vec::new(), &Vec::new()), Ok(Vec::new()));
}

#[test]
fn assemble_rejects_a_batch_of_the_wrong_size() {
    let specs = vec![spec(2), spec(3)];
    assert_eq!(
        assemble(&specs, &vec![batch(0, 2), batch(10, 2)]),
        Err(PipelineError::TableConstruction)
    );
    assert_eq!(
        assemble(&specs, &vec![batch(0, 3), batch(10, 3)]),
        Err(PipelineError::TableConstruction)
    );
}

#[test]
fn assemble_rejects_a_missing_or_surplus_batch() {
    let specs = vec![spec(2), spec(3)];
    assert_eq!(assemble(&specs, &vec![batch(0, 2)]), Err(PipelineError::TableConstruction));
    assert_eq!(
        assemble(&specs, &vec![batch(0, 2), batch(10, 3), Vec::new()]),
        Err(PipelineError::TableConstruction)
    );
}
