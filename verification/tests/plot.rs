use noisy_clusters::clustering::label_rows;
use noisy_clusters::config::Config;
use noisy_clusters::plot::{markers, Color, Marker, Palette};
use noisy_clusters::sample::{ClusterSpec, Point, Sample};
use noisy_clusters::scalar::Scalar;

fn scalar(value: f64) -> Scalar {
    Scalar::from_bits(value.to_bits())
}

fn float(value: Scalar) -> f64 {
    f64::from_bits(value.to_bits())
}

fn rgb(red: u8, green: u8, blue: u8) -> Color {
    Color { red, green, blue }
}

fn palette() -> Palette {
    Palette { colors: vec![rgb(250, 179, 135), rgb(203, 166, 247)], fallback: rgb(255, 255, 255) }
}

#[test]
fn color_for_looks_the_label_up() {
    let palette = palette();
    assert_eq!(palette.color_for(0), rgb(250, 179, 135));
    assert_eq!(palette.color_for(1), rgb(203, 166, 247));
}

#[test]
fn color_for_falls_back_outside_the_palette() {
    let palette = palette();
    assert_eq!(palette.color_for(2), rgb(255, 255, 255));
    assert_eq!(palette.color_for(u32::MAX), rgb(255, 255, 255));
    let empty = Palette { colors: Vec::new(), fallback: rgb(1, 2, 3) };
    assert_eq!(empty.color_for(0), rgb(1, 2, 3));
}

#[test]
fn markers_sit_at_the_observed_positions_in_row_order() {
    let dataset = vec![
        Sample::new(scalar(2.0), scalar(2.5), scalar(2.125), scalar(2.375)),
        Sample::new(scalar(7.0), scalar(7.5), scalar(7.25), scalar(7.75)),
        Sample::new(scalar(1.0), scalar(1.5), scalar(1.25), scalar(1.75)),
    ];
    let data = label_rows(&dataset, 3, &vec![1, 2, 0]).unwrap();
    assert_eq!(
        markers(&data, &palette()),
        vec![
            Marker { at: Point::new(scalar(2.125), scalar(2.375)), color: rgb(203, 166, 247) },
            Marker { at: Point::new(scalar(7.25), scalar(7.75)), color: rgb(255, 255, 255) },
            Marker { at: Point::new(scalar(1.25), scalar(1.75)), color: rgb(250, 179, 135) },
        ]
    );
}

#[test]
fn standard_configuration_has_three_blobs_of_fifty() {
    let config = Config::standard();
    let centers = [(2.0, 2.0), (7.0, 7.0), (2.0, 7.0)];
    assert_eq!(config.specs.len(), 3);
    for (spec, center) in config.specs.iter().zip(centers) {
        let expected =
            ClusterSpec::new(Point::new(scalar(center.0), scalar(center.1)), scalar(0.3), 50);
        assert_eq!(*spec, expected);
        assert!(spec.is_valid());
    }
    assert_eq!(float(config.noise_std_dev), 0.05);
    assert_eq!(config.clusters, 3);
    assert_eq!(config.table_path, "final_clustered.csv");
    assert_eq!(config.image_path, "clusters.png");
}

#[test]
fn standard_configuration_fixes_the_look_of_the_chart() {
    let config = Config::standard();
    assert_eq!(
        config.palette,
        Palette {
            colors: vec![rgb(250, 179, 135), rgb(203, 166, 247), rgb(137, 220, 235)],
            fallback: rgb(255, 255, 255),
        }
    );
    let style = config.style;
    assert_eq!((style.width, style.height), (1400, 800));
    assert_eq!((float(style.x_min), float(style.x_max)), (0.5, 8.5));
    assert_eq!((float(style.y_min), float(style.y_max)), (0.5, 8.5));
    assert_eq!(style.background, rgb(30, 30, 46));
    assert_eq!(style.text, rgb(205, 214, 244));
    assert_eq!(style.grid, rgb(108, 112, 134));
    assert_eq!((style.margin, style.label_area), (20, 30));
    assert_eq!((style.caption, style.font), ("Noisy Clusters", "sans-serif"));
    assert_eq!((style.caption_size, style.label_size, style.marker_radius), (42, 32, 4));
}
