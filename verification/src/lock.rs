use vstd::prelude::*;
use vstd::string::*;
use crate::clock::nanos_now;
use crate::source::{trust_of, LockSource, ONE};

verus! {

broadcast use vstd::string::group_string_axioms;

/// Strength gained by one verification (0.05).
pub const STRENGTH_STEP_UP: u32 = 50_000;

/// Strength lost by one violation (0.15).
pub const STRENGTH_STEP_DOWN: u32 = 150_000;

/// Weight, in observations, of the source's trust against the recorded
/// evidence when computing confidence.
pub const SOURCE_PRIOR_WEIGHT: u64 = 5;

/// A lock annotation: a constraint learned from experience.
/// Captures what was wrong, what fixed it, and how strong the evidence is.
#[derive(Debug, Clone)]
pub struct Lock {
    /// Unique identifier (nanosecond-based)
    pub id: u64,
    /// Short description of the constraint
    pub description: String,
    /// What pattern triggers this lock (e.g., "when setting register to immediate")
    pub trigger_pattern: String,
    /// What the lock enforces (e.g., "always use MOVI, not MOV")
    pub enforcement: String,
    /// How the lock was discovered
    pub source: LockSource,
    /// Strength in millionths: 0 (weak) to `ONE` (absolute)
    pub strength: u32,
    /// Number of times this lock has been verified correct
    pub verifications: u32,
    /// Number of times this lock was violated (false positive)
    pub violations: u32,
    /// When this lock was created (nanosecond timestamp)
    pub created_at: u64,
    /// When this lock was last triggered
    pub last_triggered: Option<u64>,
    /// Category for organization
    pub category: String,
}

/// Strength after one verification: raised by a step, capped at `ONE`.
pub open spec fn raised(strength: u32) -> u32 {
    if strength + STRENGTH_STEP_UP <= ONE {
        (strength + STRENGTH_STEP_UP) as u32
    } else {
        ONE
    }
}

/// Strength after one violation: lowered by a step, floored at 0.
pub open spec fn lowered(strength: u32) -> u32 {
    if strength >= STRENGTH_STEP_DOWN {
        (strength - STRENGTH_STEP_DOWN) as u32
    } else {
        0
    }
}

/// `lock` is as `Lock::new` makes it from these texts and source: the given
/// texts, the source's trust as strength, no evidence, never triggered, no
/// category. Its identifier and creation time come from the clock.
pub open spec fn is_new_lock(
    lock: Lock,
    description: Seq<char>,
    trigger: Seq<char>,
    enforcement: Seq<char>,
    source: LockSource,
) -> bool {
    &&& has_fresh_fields(lock, description, trigger, enforcement, source)
    &&& lock.category@ == Seq::<char>::empty()
}

/// `lock` is as `Lock::new` makes it, except perhaps for its category.
pub open spec fn has_fresh_fields(
    lock: Lock,
    description: Seq<char>,
    trigger: Seq<char>,
    enforcement: Seq<char>,
    source: LockSource,
) -> bool {
    &&& lock.description@ == description
    &&& lock.trigger_pattern@ == trigger
    &&& lock.enforcement@ == enforcement
    &&& lock.source == source
    &&& lock.strength == trust_of(source)
    &&& lock.verifications == 0
    &&& lock.violations == 0
    &&& lock.last_triggered is None
}

/// `lock` after one verification.
pub open spec fn verified(lock: Lock) -> Lock {
    Lock { verifications: (lock.verifications + 1) as u32, strength: raised(lock.strength), ..lock }
}

/// `lock` after one violation.
pub open spec fn violated(lock: Lock) -> Lock {
    Lock { violations: (lock.violations + 1) as u32, strength: lowered(lock.strength), ..lock }
}

/// The lock's counters can be added without overflowing a `u32`.
pub open spec fn evidence_fits(lock: Lock) -> bool {
    lock.verifications + lock.violations <= u32::MAX
}

/// Confidence in millionths: the source's trust for a fresh lock; otherwise
/// the verification ratio blended with the source's trust, the blend giving
/// the evidence a weight of n / (n + 5) for n recorded outcomes. Since
/// ratio * n / (n + 5) + trust * 5 / (n + 5) = (verifications + 5 * trust) / (n + 5),
/// this is that quotient, rounded down.
pub open spec fn confidence_of(lock: Lock) -> int {
    let n = lock.verifications + lock.violations;
    if n == 0 {
        trust_of(lock.source) as int
    } else {
        (lock.verifications * ONE + SOURCE_PRIOR_WEIGHT * trust_of(lock.source)) / (n + SOURCE_PRIOR_WEIGHT)
    }
}

/// Effective strength in millionths: strength times confidence, rounded down.
pub open spec fn effective_of(lock: Lock) -> int {
    (lock.strength * confidence_of(lock)) / (ONE as int)
}

/// Confidence never exceeds `ONE`, and effective strength never exceeds
/// strength.
pub proof fn lemma_confidence_bounds(lock: Lock)
    ensures
        0 <= confidence_of(lock) <= ONE,
        0 <= effective_of(lock) <= lock.strength,
{
    let n = lock.verifications + lock.violations;
    let t = trust_of(lock.source) as int;
    let v = lock.verifications as int;
    if n != 0 {
        let d = n + SOURCE_PRIOR_WEIGHT;
        assert(v * ONE + 5 * t <= d * ONE) by (nonlinear_arith)
            requires
                v <= n,
                0 <= t <= ONE,
                d == n + 5,
        ;
        assert(0 <= (v * ONE + 5 * t) / d <= ONE) by (nonlinear_arith)
            requires
                0 <= v * ONE + 5 * t <= d * ONE,
                d > 0,
        ;
    }
    let c = confidence_of(lock);
    let s = lock.strength as int;
    assert(0 <= (s * c) / (ONE as int) <= s) by (nonlinear_arith)
        requires
            0 <= c <= ONE,
            0 <= s,
    ;
}

impl Lock {
    /// Create a new lock. Its identifier and creation time are read from the
    /// clock; its strength starts at the source's trust.
    pub fn new(description: &str, trigger: &str, enforcement: &str, source: LockSource) -> (res: Self)
        ensures
            is_new_lock(res, description@, trigger@, enforcement@, source),
    {
        let strength = source.base_trust();
        Lock {
            id: nanos_now(),
            description: description.to_string(),
            trigger_pattern: trigger.to_string(),
            enforcement: enforcement.to_string(),
            source,
            strength,
            verifications: 0,
            violations: 0,
            created_at: nanos_now(),
            last_triggered: None,
            category: String::new(),
        }
    }

    /// Set category
    pub fn with_category(self, cat: &str) -> (res: Self)
        ensures
            res.category@ == cat@,
            res.id == self.id,
            res.description == self.description,
            res.trigger_pattern == self.trigger_pattern,
            res.enforcement == self.enforcement,
            res.source == self.source,
            res.strength == self.strength,
            res.verifications == self.verifications,
            res.violations == self.violations,
            res.created_at == self.created_at,
            res.last_triggered == self.last_triggered,
    {
        let mut res = self;
        res.category = cat.to_string();
        res
    }

    /// Record a verification (lock was correct): the count goes up by one and
    /// the strength rises by a step, capped at `ONE`.
    pub fn verify(&mut self)
        requires
            old(self).verifications < u32::MAX,
        ensures
            *final(self) == verified(*old(self)),
    {
        self.verifications = self.verifications + 1;
        if self.strength <= ONE - STRENGTH_STEP_UP {
            self.strength = self.strength + STRENGTH_STEP_UP;
        } else {
            self.strength = ONE;
        }
    }

    /// Record a violation (lock was wrong / false positive): the count goes up
    /// by one and the strength falls by a step, floored at 0.
    pub fn violate(&mut self)
        requires
            old(self).violations < u32::MAX,
        ensures
            *final(self) == violated(*old(self)),
    {
        self.violations = self.violations + 1;
        if self.strength >= STRENGTH_STEP_DOWN {
            self.strength = self.strength - STRENGTH_STEP_DOWN;
        } else {
            self.strength = 0;
        }
    }

    /// Trigger this lock: the time of triggering, read from the clock, is
    /// recorded; nothing else changes.
    pub fn trigger(&mut self)
        ensures
            final(self).last_triggered is Some,
            final(self).id == old(self).id,
            final(self).description == old(self).description,
            final(self).trigger_pattern == old(self).trigger_pattern,
            final(self).enforcement == old(self).enforcement,
            final(self).source == old(self).source,
            final(self).strength == old(self).strength,
            final(self).verifications == old(self).verifications,
            final(self).violations == old(self).violations,
            final(self).created_at == old(self).created_at,
            final(self).category == old(self).category,
    {
        self.last_triggered = Some(nanos_now());
    }

    /// Is this lock still active? (strength at or above the minimum)
    pub fn is_active(&self, min_strength: u32) -> (res: bool)
        ensures
            res == (self.strength >= min_strength),
    {
        self.strength >= min_strength
    }

    /// Confidence score in millionths, from the verification/violation
    /// ratio. A fresh lock starts at its source's trust (not 0): a lock from
    /// an expert source has meaningful strength from the start.
    pub fn confidence(&self) -> (res: u32)
        requires
            evidence_fits(*self),
        ensures
            res == confidence_of(*self),
            res <= ONE,
    {
        proof {
            lemma_confidence_bounds(*self);
        }
        if self.verifications == 0 && self.violations == 0 {
            return self.source.base_trust();
        }
        let trust = self.source.base_trust() as u64;
        let n = self.verifications as u64 + self.violations as u64;
        let weighted = self.verifications as u64 * (ONE as u64) + SOURCE_PRIOR_WEIGHT * trust;
        (weighted / (n + SOURCE_PRIOR_WEIGHT)) as u32
    }

    /// Effective strength in millionths: strength times confidence.
    pub fn effective_strength(&self) -> (res: u32)
        requires
            evidence_fits(*self),
        ensures
            res == effective_of(*self),
            res <= self.strength,
    {
        proof {
            lemma_confidence_bounds(*self);
        }
        let c = self.confidence();
        let product = self.strength as u64 * c as u64;
        proof {
            assert(product <= (self.strength as u64) * (ONE as u64)) by (nonlinear_arith)
                requires
                    product == self.strength as u64 * c as u64,
                    c <= ONE,
            ;
        }
        (product / (ONE as u64)) as u32
    }
}

} // verus!
