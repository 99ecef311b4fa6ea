//! The data model: points, samples, cluster specifications and labeled rows.
use crate::scalar::Scalar;
use vstd::prelude::*;

verus! {

/// A position in the plane.
#[derive(Clone, Copy, Debug, PartialEq, Eq, Structural)]
pub struct Point {
    pub x: Scalar,
    pub y: Scalar,
}

/// One generated point: where it truly lies and where it was observed.
#[derive(Clone, Copy, Debug, PartialEq, Eq, Structural)]
pub struct Sample {
    pub truth: Point,
    pub noisy: Point,
}

/// The parameters of one synthetic blob.
#[derive(Clone, Copy, Debug, PartialEq, Eq, Structural)]
pub struct ClusterSpec {
    pub center: Point,
    pub std_dev: Scalar,
    pub count: usize,
}

/// A sample together with the cluster it was assigned to.
#[derive(Clone, Copy, Debug, PartialEq, Eq, Structural)]
pub struct LabeledSample {
    pub sample: Sample,
    pub label: u32,
}

impl Point {
    pub fn new(x: Scalar, y: Scalar) -> (p: Point)
        ensures
            p == (Point { x, y }),
    {
        Point { x, y }
    }
}

impl Sample {
    /// The sample with the given true and observed coordinates.
    pub fn new(true_x: Scalar, true_y: Scalar, noisy_x: Scalar, noisy_y: Scalar) -> (s: Sample)
        ensures
            s == Sample::of(true_x, true_y, noisy_x, noisy_y),
    {
        Sample { truth: Point { x: true_x, y: true_y }, noisy: Point { x: noisy_x, y: noisy_y } }
    }

    pub open spec fn of(true_x: Scalar, true_y: Scalar, noisy_x: Scalar, noisy_y: Scalar) -> Sample {
        Sample { truth: Point { x: true_x, y: true_y }, noisy: Point { x: noisy_x, y: noisy_y } }
    }
}

impl ClusterSpec {
    /// A specification is usable when its spread is strictly positive and
    /// finite. The center is unrestricted and the count may be zero.
    pub open spec fn spec_is_valid(self) -> bool {
        self.std_dev.is_positive_finite()
    }

    pub fn new(center: Point, std_dev: Scalar, count: usize) -> (spec: ClusterSpec)
        ensures
            spec == (ClusterSpec { center, std_dev, count }),
    {
        ClusterSpec { center, std_dev, count }
    }

    #[verifier::when_used_as_spec(spec_is_valid)]
    pub fn is_valid(self) -> (b: bool)
        ensures
            b == self.spec_is_valid(),
    {
        self.std_dev.is_positive_finite()
    }
}

} // verus!
