use linfa::traits::{Fit, Predict};
use linfa::DatasetBase;
use linfa_clustering::KMeans;
use ndarray::{Array1, Array2};
use noisy_clusters::clustering::{fit_request, label_rows, FitRequest, LabeledDataset};
use noisy_clusters::config::Config;
use noisy_clusters::dataset::assemble;
use noisy_clusters::generator::{DrawRequest, Generator};
use noisy_clusters::plot::markers;
use noisy_clusters::reader::decode_table;
use noisy_clusters::sample::{ClusterSpec, Sample};
use noisy_clusters::scalar::Scalar;
use noisy_clusters::table::{encode_table, table_numbers};
use rand::rngs::StdRng;
use rand::SeedableRng;
use rand_distr::{Distribution, Normal};

fn scalar(value: f64) -> Scalar {
    Scalar::from_bits(value.to_bits())
}

fn float(value: Scalar) -> f64 {
    f64::from_bits(value.to_bits())
}

fn perform(request: DrawRequest, rng: &mut StdRng) -> Scalar {
    match request {
        DrawRequest::Draw { mean, std_dev } => {
            scalar(Normal::new(float(mean), float(std_dev)).unwrap().sample(rng))
        }
        DrawRequest::Perturb { value, std_dev } => {
            scalar(float(value) + Normal::new(0.0, float(std_dev)).unwrap().sample(rng))
        }
    }
}

fn generate(spec: ClusterSpec, noise: Scalar, rng: &mut StdRng) -> Vec<Sample> {
    let mut generator = Generator::new(spec, noise).unwrap();
    while let Some(request) = generator.next_request() {
        generator = generator.supply(perform(request, rng));
    }
    generator.finish().unwrap()
}

fn fit(request: &FitRequest) -> Vec<usize> {
    let values: Vec<f64> = request.matrix.iter().map(|s| float(*s)).collect();
    let records = Array2::from_shape_vec((request.rows, request.columns), values).unwrap();
    let targets: Array1<usize> = Array1::zeros(records.nrows());
    let dataset = DatasetBase::new(records, targets);
    let model = KMeans::params(request.k as usize).fit(&dataset).unwrap();
    model.predict(&dataset).iter().copied().collect()
}

fn run(config: &Config, seed: u64) -> LabeledDataset {
    let mut rng = StdRng::seed_from_u64(seed);
    let batches: Vec<Vec<Sample>> =
        config.specs.iter().map(|spec| generate(*spec, config.noise_std_dev, &mut rng)).collect();
    let dataset = assemble(&config.specs, &batches).unwrap();
    let request = fit_request(&dataset, config.clusters).unwrap();
    label_rows(&dataset, config.clusters, &fit(&request)).unwrap()
}

#[test]
fn three_blobs_give_a_table_of_150_labeled_rows() {
    let config = Config::standard();
    let data = run(&config, 11);
    assert_eq!(data.len(), 150);
    assert_eq!(data.clusters(), 3);
    assert!(data.rows().iter().all(|row| row.label < 3));
}

#[test]
fn rows_of_one_blob_share_a_label_of_their_own() {
    let config = Config::standard();
    let data = run(&config, 11);
    let rows = data.rows();
    let firsts = [rows[0].label, rows[50].label, rows[100].label];
    for blob in 0..3 {
        assert!(rows[50 * blob..50 * (blob + 1)].iter().all(|row| row.label == firsts[blob]));
    }
    assert_ne!(firsts[0], firsts[1]);
    assert_ne!(firsts[0], firsts[2]);
    assert_ne!(firsts[1], firsts[2]);
}

#[test]
fn one_cluster_labels_every_row_zero() {
    let mut config = Config::standard();
    config.clusters = 1;
    let data = run(&config, 3);
    assert_eq!(data.len(), 150);
    assert!(data.rows().iter().all(|row| row.label == 0));
}

#[test]
fn as_many_clusters_as_rows_gives_no_more_labels_than_rows() {
    let mut config = Config::standard();
    for spec in config.specs.iter_mut() {
        spec.count = 2;
    }
    config.clusters = 6;
    let data = run(&config, 5);
    assert_eq!(data.len(), 6);
    let mut labels: Vec<u32> = data.rows().iter().map(|row| row.label).collect();
    assert!(labels.iter().all(|label| *label < 6));
    labels.sort();
    labels.dedup();
    assert!(labels.len() <= 6);
}

#[test]
fn exported_table_reads_back_with_the_same_rows() {
    let config = Config::standard();
    let data = run(&config, 17);
    let cells: Vec<String> =
        table_numbers(&data).iter().map(|s| format!("{}", float(*s))).collect();
    let text = encode_table(&data, &cells).unwrap();
    assert_eq!(text.lines().count(), 151);
    assert_eq!(text.lines().next(), Some("x,y,x_noisy,y_noisy,cluster"));
    let content = decode_table(&text).unwrap();
    assert_eq!(content.labels.len(), 150);
    assert_eq!(content.cells.len(), 600);
    for (i, row) in data.rows().iter().enumerate() {
        assert_eq!(content.cells[4 * i].parse::<f64>().unwrap(), float(row.sample.truth.x));
        assert_eq!(content.cells[4 * i + 1].parse::<f64>().unwrap(), float(row.sample.truth.y));
        assert_eq!(content.cells[4 * i + 2].parse::<f64>().unwrap(), float(row.sample.noisy.x));
        assert_eq!(content.cells[4 * i + 3].parse::<f64>().unwrap(), float(row.sample.noisy.y));
        assert_eq!(content.labels[i], row.label);
    }
}

#[test]
fn writing_twice_gives_the_same_table() {
    let config = Config::standard();
    let data = run(&config, 17);
    let cells: Vec<String> =
        table_numbers(&data).iter().map(|s| format!("{}", float(*s))).collect();
    let once = encode_table(&data, &cells).unwrap();
    let twice = encode_table(&data, &cells).unwrap();
    assert_eq!(once, twice);
    assert_eq!(decode_table(&twice).unwrap().labels.len(), 150);
}

#[test]
fn every_row_gets_a_marker_in_a_palette_color() {
    let config = Config::standard();
    let data = run(&config, 23);
    let drawn = markers(&data, &config.palette);
    assert_eq!(drawn.len(), 150);
    for (marker, row) in drawn.iter().zip(data.rows()) {
        assert_eq!(marker.at, row.sample.noisy);
        assert_eq!(marker.color, config.palette.colors[row.label as usize]);
        assert_ne!(marker.color, config.palette.fallback);
    }
}
