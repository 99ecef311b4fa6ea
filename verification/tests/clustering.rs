use noisy_clusters::clustering::{fit_request, label_rows};
use noisy_clusters::error::PipelineError;
use noisy_clusters::sample::{LabeledSample, Sample};
use noisy_clusters::scalar::Scalar;

fn scalar(value: f64) -> Scalar {
    Scalar::from_bits(value.to_bits())
}

fn sample(tag: f64) -> Sample {
    Sample::new(scalar(tag), scalar(tag + 0.25), scalar(tag + 0.5), scalar(tag + 0.75))
}

fn dataset(rows: usize) -> Vec<Sample> {
    (0..rows).map(|i| sample(i as f64)).collect()
}

#[test]
fn fit_request_lays_out_the_observed_coordinates_row_by_row() {
    let request = fit_request(&dataset(3), 2).unwrap();
    assert_eq!(request.rows, 3);
    assert_eq!(request.columns, 2);
    assert_eq!(request.k, 2);
    assert_eq!(
        request.matrix,
        vec![scalar(0.5), scalar(0.75), scalar(1.5), scalar(1.75), scalar(2.5), scalar(2.75)]
    );
}

#[test]
fn fit_request_accepts_as_many_clusters_as_rows() {
    let request = fit_request(&dataset(4), 4).unwrap();
    assert_eq!(request.rows, 4);
    assert_eq!(request.k, 4);
    assert_eq!(request.matrix.len(), 8);
}

#[test]
fn fit_request_rejects_an_empty_dataset() {
    assert_eq!(fit_request(&Vec::new(), 3), Err(PipelineError::Fit));
    assert_eq!(fit_request(&Vec::new(), 0), Err(PipelineError::Fit));
}

#[test]
fn fit_request_rejects_more_clusters_than_rows() {
    assert_eq!(fit_request(&dataset(2), 3), Err(PipelineError::Fit));
    assert_eq!(fit_request(&dataset(2), u32::MAX), Err(PipelineError::Fit));
}

#[test]
fn fit_request_rejects_zero_clusters() {
    assert_eq!(fit_request(&dataset(2), 0), Err(PipelineError::Fit));
}

#[test]
fn label_rows_gives_each_row_its_assignment() {
    let data = label_rows(&dataset(4), 3, &vec![2, 0, 1, 2]).unwrap();
    assert_eq!(data.len(), 4);
    assert_eq!(data.clusters(), 3);
    assert_eq!(
        data.rows(),
        &vec![
            LabeledSample { sample: sample(0.0), label: 2 },
            LabeledSample { sample: sample(1.0), label: 0 },
            LabeledSample { sample: sample(2.0), label: 1 },
            LabeledSample { sample: sample(3.0), label: 2 },
        ]
    );
}

#[test]
fn label_rows_with_one_cluster_labels_every_row_zero() {
    let data = label_rows(&dataset(5), 1, &vec![0; 5]).unwrap();
    assert_eq!(data.len(), 5);
    assert!(data.rows().iter().all(|row| row.label == 0));
    assert_eq!(label_rows(&dataset(5), 1, &vec![0, 0, 1, 0, 0]), Err(PipelineError::Fit));
}

#[test]
fn label_rows_with_one_cluster_per_row() {
    let data = label_rows(&dataset(3), 3, &vec![1, 2, 0]).unwrap();
    let labels: Vec<u32> = data.rows().iter().map(|row| row.label).collect();
    assert_eq!(labels, vec![1, 2, 0]);
}

#[test]
fn label_rows_rejects_an_assignment_outside_the_clusters() {
    assert_eq!(label_rows(&dataset(3), 2, &vec![0, 1, 2]), Err(PipelineError::Fit));
    assert_eq!(label_rows(&dataset(3), 2, &vec![0, usize::MAX, 1]), Err(PipelineError::Fit));
}

#[test]
fn label_rows_rejects_a_wrong_number_of_assignments() {
    assert_eq!(label_rows(&dataset(3), 2, &vec![0, 1]), Err(PipelineError::TableConstruction));
    assert_eq!(
        label_rows(&dataset(3), 2, &vec![0, 1, 1, 0]),
        Err(PipelineError::TableConstruction)
    );
    assert_eq!(label_rows(&dataset(3), 2, &vec![5, 1]), Err(PipelineError::TableConstruction));
}

#[test]
fn label_rows_rejects_an_impossible_fit_first() {
    assert_eq!(label_rows(&Vec::new(), 3, &Vec::new()), Err(PipelineError::Fit));
    assert_eq!(label_rows(&dataset(2), 0, &vec![0, 0]), Err(PipelineError::Fit));
    assert_eq!(label_rows(&dataset(2), 3, &vec![0]), Err(PipelineError::Fit));
}
