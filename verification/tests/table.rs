use noisy_clusters::clustering::{label_rows, LabeledDataset};
use noisy_clusters::error::PipelineError;
use noisy_clusters::sample::Sample;
use noisy_clusters::scalar::Scalar;
use noisy_clusters::table::{encode_table, is_field_text, push_decimal, table_numbers};

fn scalar(value: f64) -> Scalar {
    Scalar::from_bits(value.to_bits())
}

fn float(value: Scalar) -> f64 {
    f64::from_bits(value.to_bits())
}

fn two_rows() -> LabeledDataset {
    let dataset = vec![
        Sample::new(scalar(2.0), scalar(2.5), scalar(2.125), scalar(2.375)),
        Sample::new(scalar(7.0), scalar(-7.5), scalar(7.25), scalar(-7.75)),
    ];
    label_rows(&dataset, 2, &vec![1, 0]).unwrap()
}

fn render(data: &LabeledDataset) -> Vec<String> {
    table_numbers(data).iter().map(|s| format!("{}", float(*s))).collect()
}

fn decimal(n: u32) -> String {
    let mut out = String::from("n=");
    push_decimal(&mut out, n);
    out
}

#[test]
fn table_numbers_lists_four_reals_per_row() {
    let numbers = table_numbers(&two_rows());
    let expected: Vec<Scalar> =
        [2.0, 2.5, 2.125, 2.375, 7.0, -7.5, 7.25, -7.75].iter().map(|v| scalar(*v)).collect();
    assert_eq!(numbers, expected);
}

#[test]
fn encode_table_writes_header_and_one_line_per_row() {
    let data = two_rows();
    let text = encode_table(&data, &render(&data)).unwrap();
    assert_eq!(text, "x,y,x_noisy,y_noisy,cluster\n2,2.5,2.125,2.375,1\n7,-7.5,7.25,-7.75,0\n");
}

#[test]
fn encode_table_takes_the_cells_as_they_are() {
    let data = two_rows();
    let cells: Vec<String> =
        ["a", "b", "c", "d", "1e-3", "NaN", "inf", "-0.5"].iter().map(|s| s.to_string()).collect();
    let text = encode_table(&data, &cells).unwrap();
    assert_eq!(text, "x,y,x_noisy,y_noisy,cluster\na,b,c,d,1\n1e-3,NaN,inf,-0.5,0\n");
}

#[test]
fn encode_table_has_one_more_line_than_rows() {
    let dataset: Vec<Sample> = (0..150)
        .map(|i| Sample::new(scalar(i as f64), scalar(0.5), scalar(1.5), scalar(2.5)))
        .collect();
    let assignments: Vec<usize> = (0..150).map(|i| i % 3).collect();
    let data = label_rows(&dataset, 3, &assignments).unwrap();
    let text = encode_table(&data, &render(&data)).unwrap();
    let lines: Vec<&str> = text.lines().collect();
    assert_eq!(lines.len(), 151);
    assert_eq!(lines[0], "x,y,x_noisy,y_noisy,cluster");
    assert_eq!(lines[1], "0,0.5,1.5,2.5,0");
    assert_eq!(lines[150], "149,0.5,1.5,2.5,2");
    assert!(lines.iter().all(|line| line.split(',').count() == 5));
    assert!(text.ends_with('\n'));
    assert_eq!(encode_table(&data, &render(&data)).unwrap(), text);
}

#[test]
fn encode_table_rejects_a_wrong_number_of_cells() {
    let data = two_rows();
    let mut cells = render(&data);
    cells.pop();
    assert_eq!(encode_table(&data, &cells), Err(PipelineError::TableConstruction));
    let mut cells = render(&data);
    cells.push(String::from("1"));
    assert_eq!(encode_table(&data, &cells), Err(PipelineError::TableConstruction));
    assert_eq!(encode_table(&data, &Vec::new()), Err(PipelineError::TableConstruction));
}

#[test]
fn encode_table_rejects_a_cell_that_is_no_field() {
    let data = two_rows();
    for bad in ["", "1,5", "1 5", "1\n5", "1\r", "\"1\"", "\t", "1\u{a0}5", "\u{221e}"] {
        for at in [0usize, 3, 7] {
            let mut cells = render(&data);
            cells[at] = String::from(bad);
            assert_eq!(encode_table(&data, &cells), Err(PipelineError::TableConstruction));
        }
    }
}

#[test]
fn is_field_text_accepts_visible_ascii_without_separators() {
    for good in ["0", "-1.25e-7", "NaN", "inf", "+3", "!~", "a;b"] {
        assert!(is_field_text(good));
    }
    for bad in ["", ",", "\"", " ", "1 ", "\n", "\u{7f}", "\u{0}", "\u{e9}", "1,2"] {
        assert!(!is_field_text(bad));
    }
}

#[test]
fn push_decimal_writes_without_leading_zeros() {
    assert_eq!(decimal(0), "n=0");
    assert_eq!(decimal(7), "n=7");
    assert_eq!(decimal(10), "n=10");
    assert_eq!(decimal(101), "n=101");
    assert_eq!(decimal(9876543), "n=9876543");
    assert_eq!(decimal(1234567890), "n=1234567890");
    assert_eq!(decimal(u32::MAX), "n=4294967295");
}

#[test]
fn encode_table_writes_large_labels_in_full() {
    let dataset: Vec<Sample> =
        (0..12).map(|_| Sample::new(scalar(1.0), scalar(1.0), scalar(1.0), scalar(1.0))).collect();
    let assignments: Vec<usize> = (0..12).collect();
    let data = label_rows(&dataset, 12, &assignments).unwrap();
    let text = encode_table(&data, &render(&data)).unwrap();
    let lines: Vec<&str> = text.lines().collect();
    assert_eq!(lines[10], "1,1,1,1,9");
    assert_eq!(lines[11], "1,1,1,1,10");
    assert_eq!(lines[12], "1,1,1,1,11");
}
