use vstd::prelude::*;

verus! {

/// Fixed-point unit: strengths, trust weights and confidences are counted in
/// millionths, so `ONE` stands for 1.0.
pub const ONE: u32 = 1_000_000;

/// How a lock was discovered.
#[derive(Debug, Clone, Copy, PartialEq, Eq, Hash, Structural)]
pub enum LockSource {
    /// Inconsistency detected between two compilation runs
    Inconsistency,
    /// Empirical observation from runtime behavior
    Observation,
    /// Cross-model disagreement
    CrossModel,
    /// Human/expert annotation
    Expert,
    /// Inferred from pattern in existing locks
    Inferred,
}

/// The trust weight of a source, in millionths.
pub open spec fn trust_of(source: LockSource) -> u32 {
    match source {
        LockSource::Expert => 1_000_000,
        LockSource::Inconsistency => 800_000,
        LockSource::Observation => 700_000,
        LockSource::CrossModel => 600_000,
        LockSource::Inferred => 400_000,
    }
}

impl LockSource {
    /// Lower-case name of the source.
    pub fn name(&self) -> (res: &'static str)
        ensures
            res@ == match *self {
                LockSource::Inconsistency => "inconsistency"@,
                LockSource::Observation => "observation"@,
                LockSource::CrossModel => "cross-model"@,
                LockSource::Expert => "expert"@,
                LockSource::Inferred => "inferred"@,
            },
    {
        match self {
            LockSource::Inconsistency => "inconsistency",
            LockSource::Observation => "observation",
            LockSource::CrossModel => "cross-model",
            LockSource::Expert => "expert",
            LockSource::Inferred => "inferred",
        }
    }

    /// Trust weight for this source type (higher = more trustworthy), in
    /// millionths.
    pub fn base_trust(&self) -> (res: u32)
        ensures
            res == trust_of(*self),
            res <= ONE,
    {
        match self {
            LockSource::Expert => 1_000_000,
            LockSource::Inconsistency => 800_000,
            LockSource::Observation => 700_000,
            LockSource::CrossModel => 600_000,
            LockSource::Inferred => 400_000,
        }
    }
}

} // verus!
