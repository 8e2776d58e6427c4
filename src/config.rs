use crate::geometry::{in_limits, SizeRange};
use vstd::prelude::*;

verus! {

/// Largest chunk side and largest viewpoint coordinate: a region near the
/// viewpoint then stays inside the coordinate limits.
pub const VIEW_LIMIT: i64 = 250_000_000_000;

/// The tunable constants of the field.
#[derive(Clone, Copy, Debug, PartialEq, Eq, Structural)]
pub struct FieldConfig {
    /// Side of a square region, in world units.
    pub chunk_size: i64,
    /// Sampler steps per region; a region samples one more point than this.
    pub objects_per_region: usize,
    /// Sizes are drawn from `[min_size, max_size)`.
    pub min_size: i64,
    pub max_size: i64,
    /// Random candidates drawn at each sampler step.
    pub candidates_per_step: usize,
    /// Objects at this distance from the origin or nearer are dropped.
    pub safe_zone_radius: i64,
    /// Visual variants are drawn from `[0, variant_count)`.
    pub variant_count: u32,
}

/// A configuration that the field cannot run with.
#[derive(Clone, Copy, Debug, PartialEq, Eq, Structural)]
pub enum ConfigError {
    /// `min_size >= max_size`.
    EmptySizeRange,
    /// `chunk_size <= 0`.
    NonPositiveChunkSize,
    /// `candidates_per_step == 0`.
    NoCandidates,
    /// `variant_count == 0`.
    NoVariants,
    /// A value beyond the coordinate limits, a negative safe-zone radius, or
    /// more draws per region than a `usize` counts.
    OutOfRange,
}

impl FieldConfig {
    pub open spec fn sizes(self) -> SizeRange {
        SizeRange { min: self.min_size, max: self.max_size }
    }

    pub open spec fn within_limits(self) -> bool {
        self.chunk_size <= VIEW_LIMIT && in_limits(self.min_size as int) && in_limits(
            self.max_size as int,
        ) && 0 <= self.safe_zone_radius <= crate::geometry::COORD_LIMIT
            && self.objects_per_region * self.candidates_per_step < usize::MAX
    }

    /// The first problem of the configuration, in the order the checks run.
    pub open spec fn first_error(self) -> Option<ConfigError> {
        if self.min_size >= self.max_size {
            Some(ConfigError::EmptySizeRange)
        } else if self.chunk_size <= 0 {
            Some(ConfigError::NonPositiveChunkSize)
        } else if self.candidates_per_step == 0 {
            Some(ConfigError::NoCandidates)
        } else if self.variant_count == 0 {
            Some(ConfigError::NoVariants)
        } else if !self.within_limits() {
            Some(ConfigError::OutOfRange)
        } else {
            None
        }
    }

    pub open spec fn wf(self) -> bool {
        self.first_error() is None
    }

    /// The standard field: regions of 4000 units, 100 steps of 10 candidates,
    /// sizes in `[103, 205)`, a safe zone of 400 units and 40 variants.
    pub fn standard() -> (r: FieldConfig)
        ensures
            r.chunk_size == 4000,
            r.objects_per_region == 100,
            r.min_size == 103,
            r.max_size == 205,
            r.candidates_per_step == 10,
            r.safe_zone_radius == 400,
            r.variant_count == 40,
            r.wf(),
    {
        FieldConfig {
            chunk_size: 4000,
            objects_per_region: 100,
            min_size: 103,
            max_size: 205,
            candidates_per_step: 10,
            safe_zone_radius: 400,
            variant_count: 40,
        }
    }

    /// Accepts a usable configuration and reports the first problem of any other.
    pub fn validate(self) -> (r: Result<FieldConfig, ConfigError>)
        ensures
            r matches Ok(c) ==> c == self && self.wf(),
            r matches Err(e) ==> self.first_error() == Some(e),
            r is Ok <==> self.wf(),
    {
        if self.min_size >= self.max_size {
            return Err(ConfigError::EmptySizeRange);
        }
        if self.chunk_size <= 0 {
            return Err(ConfigError::NonPositiveChunkSize);
        }
        if self.candidates_per_step == 0 {
            return Err(ConfigError::NoCandidates);
        }
        if self.variant_count == 0 {
            return Err(ConfigError::NoVariants);
        }
        let limit = crate::geometry::COORD_LIMIT;
        if self.chunk_size > VIEW_LIMIT || self.min_size < -limit || self.max_size > limit
            || self.safe_zone_radius < 0 || self.safe_zone_radius > limit {
            return Err(ConfigError::OutOfRange);
        }
        match self.objects_per_region.checked_mul(self.candidates_per_step) {
            Some(draws) => {
                if draws == usize::MAX {
                    return Err(ConfigError::OutOfRange);
                }
            },
            None => {
                return Err(ConfigError::OutOfRange);
            },
        }
        Ok(self)
    }
}

} // verus!
