//! The fixed configuration of the pipeline.
//!
//! Nothing is read from a command line, the environment or a file: the blobs,
//! the noise, the number of clusters, the colors and the look of the chart
//! are constants. Reals are written as bit patterns; the real is named beside
//! each.
use crate::plot::{ChartStyle, Color, Palette};
use crate::sample::{ClusterSpec, Point};
use crate::scalar::Scalar;
use vstd::prelude::*;

verus! {

/// The bits of 0.05.
pub const NOISE_STD_DEV_BITS: u64 = 0x3FA9_9999_9999_999A;

/// The bits of 0.3.
pub const BLOB_STD_DEV_BITS: u64 = 0x3FD3_3333_3333_3333;

/// The bits of 2.0.
pub const TWO_BITS: u64 = 0x4000_0000_0000_0000;

/// The bits of 7.0.
pub const SEVEN_BITS: u64 = 0x401C_0000_0000_0000;

/// The bits of 0.5.
pub const AXIS_MIN_BITS: u64 = 0x3FE0_0000_0000_0000;

/// The bits of 8.5.
pub const AXIS_MAX_BITS: u64 = 0x4021_0000_0000_0000;

/// The number of samples in each blob.
pub const BLOB_COUNT: usize = 50;

/// The number of clusters to fit.
pub const CLUSTERS: u32 = 3;

/// Everything that a run of the pipeline depends on.
#[derive(Debug, PartialEq, Eq)]
pub struct Config {
    /// The blobs to generate, in the order of generation.
    pub specs: Vec<ClusterSpec>,
    /// The standard deviation of the observation noise.
    pub noise_std_dev: Scalar,
    /// The number of clusters to fit.
    pub clusters: u32,
    pub palette: Palette,
    pub style: ChartStyle,
    /// Where the table is written.
    pub table_path: &'static str,
    /// Where the scatter plot is written.
    pub image_path: &'static str,
}

/// A blob of `BLOB_COUNT` samples with spread 0.3 around the point with the
/// given coordinate bits.
pub open spec fn blob(x_bits: u64, y_bits: u64) -> ClusterSpec {
    ClusterSpec {
        center: Point { x: Scalar { bits: x_bits }, y: Scalar { bits: y_bits } },
        std_dev: Scalar { bits: BLOB_STD_DEV_BITS },
        count: BLOB_COUNT,
    }
}

/// The blobs of the standard configuration: around (2, 2), (7, 7) and
/// (2, 7).
pub open spec fn standard_specs() -> Seq<ClusterSpec> {
    seq![blob(TWO_BITS, TWO_BITS), blob(SEVEN_BITS, SEVEN_BITS), blob(TWO_BITS, SEVEN_BITS)]
}

/// The cluster colors of the standard configuration: peach, mauve and sky.
pub open spec fn standard_colors() -> Seq<Color> {
    seq![
        Color { red: 250, green: 179, blue: 135 },
        Color { red: 203, green: 166, blue: 247 },
        Color { red: 137, green: 220, blue: 235 },
    ]
}

/// The look of the chart in the standard configuration: a dark canvas of
/// 1400 by 800 pixels, with both axes from 0.5 to 8.5.
pub open spec fn standard_style() -> ChartStyle {
    ChartStyle {
        width: 1400,
        height: 800,
        x_min: Scalar { bits: AXIS_MIN_BITS },
        x_max: Scalar { bits: AXIS_MAX_BITS },
        y_min: Scalar { bits: AXIS_MIN_BITS },
        y_max: Scalar { bits: AXIS_MAX_BITS },
        background: Color { red: 30, green: 30, blue: 46 },
        text: Color { red: 205, green: 214, blue: 244 },
        grid: Color { red: 108, green: 112, blue: 134 },
        margin: 20,
        label_area: 30,
        caption: "Noisy Clusters",
        font: "sans-serif",
        caption_size: 42,
        label_size: 32,
        marker_radius: 4,
    }
}

fn standard_blob(x_bits: u64, y_bits: u64) -> (spec: ClusterSpec)
    ensures
        spec == blob(x_bits, y_bits),
        spec.is_valid(),
{
    ClusterSpec::new(
        Point::new(Scalar::from_bits(x_bits), Scalar::from_bits(y_bits)),
        Scalar::from_bits(BLOB_STD_DEV_BITS),
        BLOB_COUNT,
    )
}

impl Config {
    /// The standard configuration: three blobs of fifty samples, noise of
    /// 0.05, three clusters, three cluster colors with white as the
    /// fallback.
    pub fn standard() -> (config: Config)
        ensures
            config.specs@ == standard_specs(),
            forall|i: int| 0 <= i < config.specs@.len() ==> (#[trigger] config.specs@[i]).is_valid(),
            config.noise_std_dev == (Scalar { bits: NOISE_STD_DEV_BITS }),
            config.noise_std_dev.is_positive_finite(),
            config.clusters == CLUSTERS,
            config.palette.colors@ == standard_colors(),
            config.palette.fallback == (Color { red: 255, green: 255, blue: 255 }),
            config.style == standard_style(),
            config.table_path@ == "final_clustered.csv"@,
            config.image_path@ == "clusters.png"@,
    {
        let mut specs: Vec<ClusterSpec> = Vec::new();
        specs.push(standard_blob(TWO_BITS, TWO_BITS));
        specs.push(standard_blob(SEVEN_BITS, SEVEN_BITS));
        specs.push(standard_blob(TWO_BITS, SEVEN_BITS));
        let mut colors: Vec<Color> = Vec::new();
        colors.push(Color { red: 250, green: 179, blue: 135 });
        colors.push(Color { red: 203, green: 166, blue: 247 });
        colors.push(Color { red: 137, green: 220, blue: 235 });
        let style = ChartStyle {
            width: 1400,
            height: 800,
            x_min: Scalar::from_bits(AXIS_MIN_BITS),
            x_max: Scalar::from_bits(AXIS_MAX_BITS),
            y_min: Scalar::from_bits(AXIS_MIN_BITS),
            y_max: Scalar::from_bits(AXIS_MAX_BITS),
            background: Color { red: 30, green: 30, blue: 46 },
            text: Color { red: 205, green: 214, blue: 244 },
            grid: Color { red: 108, green: 112, blue: 134 },
            margin: 20,
            label_area: 30,
            caption: "Noisy Clusters",
            font: "sans-serif",
            caption_size: 42,
            label_size: 32,
            marker_radius: 4,
        };
        let config = Config {
            specs,
            noise_std_dev: Scalar::from_bits(NOISE_STD_DEV_BITS),
            clusters: CLUSTERS,
            palette: Palette { colors, fallback: Color { red: 255, green: 255, blue: 255 } },
            style,
            table_path: "final_clustered.csv",
            image_path: "clusters.png",
        };
        assert(config.specs@ =~= standard_specs());
        assert(config.palette.colors@ =~= standard_colors());
        config
    }
}

} // verus!
