//! The cluster generator: noisy samples around one center.
//!
//! Random numbers come from outside. The generator decides what to draw next
//! and what each drawn value becomes: it asks for one draw at a time and is
//! handed the outcome. A sample takes four draws, in this order: the true `x`,
//! the true `y`, the observed `x` (the true `x` plus noise) and the observed
//! `y` (the true `y` plus noise).
use crate::error::PipelineError;
use crate::sample::{ClusterSpec, Sample};
use crate::scalar::Scalar;
use vstd::prelude::*;

verus! {

/// One request for a random number.
#[derive(Clone, Copy, Debug, PartialEq, Eq, Structural)]
pub enum DrawRequest {
    /// A draw from the normal distribution with this mean and standard
    /// deviation.
    Draw { mean: Scalar, std_dev: Scalar },
    /// `value` plus a draw from the normal distribution with mean zero and
    /// this standard deviation.
    Perturb { value: Scalar, std_dev: Scalar },
}

impl DrawRequest {
    /// The standard deviation of the distribution to draw from.
    pub open spec fn std_dev(self) -> Scalar {
        match self {
            DrawRequest::Draw { std_dev, .. } => std_dev,
            DrawRequest::Perturb { std_dev, .. } => std_dev,
        }
    }
}

/// What a generator has been asked for and what it has been handed so far.
pub struct GeneratorState {
    /// The blob to generate.
    pub spec: ClusterSpec,
    /// The standard deviation of the observation noise.
    pub noise_std_dev: Scalar,
    /// The samples that are complete, oldest first.
    pub samples: Seq<Sample>,
    /// The values drawn for the sample in progress, oldest first.
    pub partial: Seq<Scalar>,
}

impl GeneratorState {
    /// The state before any draw.
    pub open spec fn initial(spec: ClusterSpec, noise_std_dev: Scalar) -> GeneratorState {
        GeneratorState { spec, noise_std_dev, samples: Seq::empty(), partial: Seq::empty() }
    }

    /// The parameters are usable, no more samples exist than were asked for,
    /// and a sample in progress lacks at least one value.
    pub open spec fn wf(self) -> bool {
        &&& self.spec.is_valid()
        &&& self.noise_std_dev.is_positive_finite()
        &&& self.samples.len() <= self.spec.count
        &&& self.partial.len() < 4
        &&& self.samples.len() == self.spec.count ==> self.partial.len() == 0
    }

    /// All the samples that the specification asks for exist.
    pub open spec fn is_complete(self) -> bool {
        self.samples.len() == self.spec.count
    }

    /// The number of values handed over so far.
    pub open spec fn drawn(self) -> nat {
        4 * self.samples.len() + self.partial.len()
    }

    /// The draw that comes next, if any is left.
    pub open spec fn next_request(self) -> Option<DrawRequest> {
        if self.is_complete() {
            None
        } else if self.partial.len() == 0 {
            Some(DrawRequest::Draw { mean: self.spec.center.x, std_dev: self.spec.std_dev })
        } else if self.partial.len() == 1 {
            Some(DrawRequest::Draw { mean: self.spec.center.y, std_dev: self.spec.std_dev })
        } else if self.partial.len() == 2 {
            Some(DrawRequest::Perturb { value: self.partial[0], std_dev: self.noise_std_dev })
        } else {
            Some(DrawRequest::Perturb { value: self.partial[1], std_dev: self.noise_std_dev })
        }
    }

    /// The state after the outcome of the next draw has been handed over. A
    /// complete generator takes no more values.
    pub open spec fn supply(self, value: Scalar) -> GeneratorState {
        if self.is_complete() {
            self
        } else if self.partial.len() == 3 {
            GeneratorState {
                samples: self.samples.push(
                    Sample::of(self.partial[0], self.partial[1], self.partial[2], value),
                ),
                partial: Seq::empty(),
                ..self
            }
        } else {
            GeneratorState { partial: self.partial.push(value), ..self }
        }
    }

    /// The state after the given outcomes have been handed over in order.
    pub open spec fn run(self, values: Seq<Scalar>) -> GeneratorState
        decreases values.len(),
    {
        if values.len() == 0 {
            self
        } else {
            self.run(values.drop_last()).supply(values.last())
        }
    }
}

/// The samples that a run of draws spells out: every four values in a row
/// make one sample.
pub open spec fn samples_of(values: Seq<Scalar>) -> Seq<Sample> {
    Seq::new(
        (values.len() / 4) as nat,
        |j: int| Sample::of(values[4 * j], values[4 * j + 1], values[4 * j + 2], values[4 * j + 3]),
    )
}

/// The values at the end of a run of draws that do not yet make a sample.
pub open spec fn waiting_of(values: Seq<Scalar>) -> Seq<Scalar> {
    values.skip(values.len() - values.len() % 4)
}

/// A run of at most `4 * count` draws from the initial state leaves the
/// generator well formed, with one sample for every four values handed over
/// and the remaining values waiting in the sample in progress.
pub proof fn lemma_run(spec: ClusterSpec, noise_std_dev: Scalar, values: Seq<Scalar>)
    requires
        spec.is_valid(),
        noise_std_dev.is_positive_finite(),
        values.len() <= 4 * spec.count,
    ensures
        ({
            let end = GeneratorState::initial(spec, noise_std_dev).run(values);
            &&& end.wf()
            &&& end.spec == spec
            &&& end.noise_std_dev == noise_std_dev
            &&& end.samples == samples_of(values)
            &&& end.partial == waiting_of(values)
            &&& end.drawn() == values.len()
        }),
    decreases values.len(),
{
    let start = GeneratorState::initial(spec, noise_std_dev);
    if values.len() == 0 {
        assert(start.samples =~= samples_of(values));
        assert(start.partial =~= waiting_of(values));
    } else {
        let front = values.drop_last();
        let before = start.run(front);
        let end = before.supply(values.last());
        lemma_run(spec, noise_std_dev, front);
        let done = front.len() / 4;
        assert(before.samples.len() == done);
        assert(!before.is_complete());
        if before.partial.len() == 3 {
            assert(values.len() == 4 * done + 4);
            assert(values.len() / 4 == done + 1);
            assert(end.samples =~= samples_of(values));
            assert(end.partial =~= waiting_of(values));
        } else {
            assert(values.len() / 4 == done);
            assert(end.samples =~= samples_of(values));
            assert(end.partial =~= waiting_of(values));
        }
    }
}

/// The generator yields exactly as many samples as its specification asks
/// for: it is complete after `4 * count` draws and not before, and every four
/// outcomes in a row have become one sample, in the order of the draws.
pub proof fn lemma_generator_yields_count(
    spec: ClusterSpec,
    noise_std_dev: Scalar,
    values: Seq<Scalar>,
)
    requires
        spec.is_valid(),
        noise_std_dev.is_positive_finite(),
        values.len() <= 4 * spec.count,
    ensures
        ({
            let end = GeneratorState::initial(spec, noise_std_dev).run(values);
            &&& end.is_complete() <==> values.len() == 4 * spec.count
            &&& end.is_complete() ==> end.samples.len() == spec.count && end.samples
                == samples_of(values)
            &&& end.next_request() is None <==> values.len() == 4 * spec.count
        }),
{
    lemma_run(spec, noise_std_dev, values);
}

/// Generates the samples of one blob from draws that the caller performs.
pub struct Generator {
    spec: ClusterSpec,
    noise_std_dev: Scalar,
    samples: Vec<Sample>,
    partial: Vec<Scalar>,
}

impl View for Generator {
    type V = GeneratorState;

    closed spec fn view(&self) -> GeneratorState {
        GeneratorState {
            spec: self.spec,
            noise_std_dev: self.noise_std_dev,
            samples: self.samples@,
            partial: self.partial@,
        }
    }
}

impl Generator {
    #[verifier::type_invariant]
    spec fn inv(self) -> bool {
        self@.wf()
    }

    /// A generator for `spec` whose observations carry noise of the given
    /// standard deviation. Both standard deviations must be strictly positive
    /// and finite.
    pub fn new(spec: ClusterSpec, noise_std_dev: Scalar) -> (r: Result<Generator, PipelineError>)
        ensures
            r is Ok <==> spec.is_valid() && noise_std_dev.is_positive_finite(),
            r matches Ok(g) ==> g@ == GeneratorState::initial(spec, noise_std_dev) && g@.wf(),
            r matches Err(e) ==> e == PipelineError::Generation,
    {
        if !spec.is_valid() || !noise_std_dev.is_positive_finite() {
            return Err(PipelineError::Generation);
        }
        let g = Generator { spec, noise_std_dev, samples: Vec::new(), partial: Vec::new() };
        assert(g@ =~= GeneratorState::initial(spec, noise_std_dev));
        Ok(g)
    }

    /// Whether every sample has been generated.
    pub fn is_complete(&self) -> (b: bool)
        ensures
            b == self@.is_complete(),
            self@.wf(),
    {
        proof {
            use_type_invariant(self);
        }
        self.samples.len() == self.spec.count
    }

    /// The draw to perform next, or `None` once every sample exists. The
    /// distribution of a requested draw always has a usable standard
    /// deviation.
    pub fn next_request(&self) -> (r: Option<DrawRequest>)
        ensures
            r == self@.next_request(),
            r is None <==> self@.is_complete(),
            r matches Some(request) ==> request.std_dev().is_positive_finite(),
            self@.wf(),
    {
        proof {
            use_type_invariant(self);
        }
        if self.samples.len() == self.spec.count {
            None
        } else if self.partial.len() == 0 {
            Some(DrawRequest::Draw { mean: self.spec.center.x, std_dev: self.spec.std_dev })
        } else if self.partial.len() == 1 {
            Some(DrawRequest::Draw { mean: self.spec.center.y, std_dev: self.spec.std_dev })
        } else if self.partial.len() == 2 {
            Some(DrawRequest::Perturb { value: self.partial[0], std_dev: self.noise_std_dev })
        } else {
            Some(DrawRequest::Perturb { value: self.partial[1], std_dev: self.noise_std_dev })
        }
    }

    /// Hands over the outcome of the draw that `next_request` asked for and
    /// returns the generator that has taken it in. A complete generator drops
    /// the value and stays as it is.
    pub fn supply(self, value: Scalar) -> (next: Generator)
        ensures
            next@ == self@.supply(value),
            next@.wf(),
    {
        proof {
            use_type_invariant(&self);
        }
        let Generator { spec, noise_std_dev, mut samples, mut partial } = self;
        if samples.len() != spec.count {
            if partial.len() == 3 {
                samples.push(Sample::new(partial[0], partial[1], partial[2], value));
                partial.clear();
            } else {
                partial.push(value);
            }
        }
        let next = Generator { spec, noise_std_dev, samples, partial };
        assert(next@ =~= self@.supply(value));
        next
    }

    /// The generated samples, in the order of generation, once all of them
    /// exist; `None` while draws are still outstanding.
    pub fn finish(self) -> (r: Option<Vec<Sample>>)
        ensures
            r is Some <==> self@.is_complete(),
            r matches Some(samples) ==> samples@ == self@.samples && samples.len()
                == self@.spec.count,
    {
        proof {
            use_type_invariant(&self);
        }
        if self.samples.len() == self.spec.count {
            Some(self.samples)
        } else {
            None
        }
    }
}

} // verus!
