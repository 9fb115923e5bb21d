use vstd::prelude::*;

verus! {

/// How one noise field is shaped. The engine hands these numbers to the sampler
/// as they are; of their meaning it only holds that a field has a positive
/// scale and at least one octave.
///
/// World distances and noise values are whole numbers of whatever unit the
/// caller fixes; `lacunarity` and `persistence` are ratios in thousandths.
#[derive(Clone, Copy, Debug, PartialEq, Eq)]
pub struct NoiseParameters {
    /// World distance over which the first octave varies.
    pub scale: u32,
    /// Number of layers summed.
    pub octaves: u32,
    /// Frequency ratio between one octave and the next, in thousandths.
    pub lacunarity: u32,
    /// Amplitude ratio between one octave and the next, in thousandths.
    pub persistence: u32,
    /// Least value the field takes.
    pub min_value: i64,
    /// Greatest value the field takes.
    pub max_value: i64,
}

impl NoiseParameters {
    /// The scale is positive and there is at least one octave.
    pub open spec fn valid(&self) -> bool {
        self.scale > 0 && self.octaves >= 1
    }

    /// Parameters of a field, from a positive scale and at least one octave.
    pub fn new(
        scale: u32,
        octaves: u32,
        lacunarity: u32,
        persistence: u32,
        min_value: i64,
        max_value: i64,
    ) -> (parameters: Self)
        requires
            scale > 0,
            octaves >= 1,
        ensures
            parameters == (NoiseParameters {
                scale,
                octaves,
                lacunarity,
                persistence,
                min_value,
                max_value,
            }),
            parameters.valid(),
    {
        NoiseParameters { scale, octaves, lacunarity, persistence, min_value, max_value }
    }

    /// Whether the parameters describe a field: the test to make on numbers
    /// that come from outside before they are registered.
    pub fn is_valid(&self) -> (ok: bool)
        ensures
            ok == self.valid(),
    {
        self.scale > 0 && self.octaves >= 1
    }
}

/// A seeded noise field: what the sampler is given, besides the position.
#[derive(Clone, Copy, Debug, PartialEq, Eq)]
pub struct NoiseField {
    pub seed: u32,
    pub parameters: NoiseParameters,
}

} // verus!
