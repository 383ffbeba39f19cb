use plato_dynamic_locks::{Lock, LockAccumulator, LockSource, ONE};
use plato_dynamic_locks::lock::STRENGTH_STEP_UP;

fn fraction(millionths: u32) -> f64 {
    millionths as f64 / ONE as f64
}

#[test]
fn test_lock_source_properties() {
    assert!(LockSource::Expert.base_trust() > LockSource::Inconsistency.base_trust());
    assert!(LockSource::Inconsistency.base_trust() > LockSource::Inferred.base_trust());
}

#[test]
fn test_lock_creation() {
    let lock = Lock::new("test lock", "trigger", "enforce X", LockSource::Inconsistency);
    assert_eq!(lock.verifications, 0);
    assert_eq!(lock.violations, 0);
    assert!(lock.strength > 0);
}

#[test]
fn test_lock_verify_violate() {
    let mut lock = Lock::new("test", "t", "e", LockSource::Observation);
    let initial = lock.strength;

    lock.verify();
    assert!(lock.strength > initial);
    assert_eq!(lock.verifications, 1);

    lock.violate();
    assert!(lock.strength < initial + STRENGTH_STEP_UP); // went up then down
    assert_eq!(lock.violations, 1);
}

#[test]
fn test_lock_confidence() {
    let mut lock = Lock::new("test", "t", "e", LockSource::Observation);
    // Fresh lock: returns source base trust (0.7 for Observation)
    assert!((fraction(lock.confidence()) - 0.7).abs() < 0.01);

    lock.verify();
    // 1 verify, 0 violations: confidence = 1.0 * 1/6 + 0.7 * 5/6 = 0.75
    assert!(fraction(lock.confidence()) > 0.7);

    lock.verify();
    assert!(fraction(lock.confidence()) > fraction(lock.confidence()) - 0.01);
}

#[test]
fn test_lock_strength_capping() {
    let mut lock = Lock::new("test", "t", "e", LockSource::Expert);
    for _ in 0..50 {
        lock.verify();
    }
    assert!(lock.strength <= ONE);
}

#[test]
fn test_accumulator_add_and_check() {
    let mut acc = LockAccumulator::new();
    acc.add(Lock::new("opcode lock", "MOV", "use MOVI for immediates", LockSource::Inconsistency));

    let checks = acc.check("use MOV for immediate value");
    assert_eq!(checks.len(), 1);
    assert!(checks[0].triggered);
}

#[test]
fn test_accumulator_no_match() {
    let mut acc = LockAccumulator::new();
    acc.add(Lock::new("opcode lock", "MOV", "use MOVI", LockSource::Inconsistency));

    let checks = acc.check("something completely unrelated");
    assert!(checks.is_empty());
}

#[test]
fn test_record_inconsistency() {
    let mut acc = LockAccumulator::new();
    let _id = acc.record_inconsistency("set helm east", "MOV helm, 東", "MOVI helm, 東");

    let checks = acc.check("set helm east");
    assert_eq!(checks.len(), 1);
    assert!(checks[0].enforcement.contains("differ"));
}

#[test]
fn test_record_observation() {
    let mut acc = LockAccumulator::new();
    let _id = acc.record_observation("OOM detected", "reduce batch size by 50%", "memory");

    assert_eq!(acc.by_category("memory").len(), 1);
}

#[test]
fn test_prune_inactive() {
    let mut acc = LockAccumulator::with_min_strength(500_000);
    let id = acc.add(Lock::new("weak lock", "t", "e", LockSource::Inferred));

    // Inferred: base_trust=0.4, strength=0.4, confidence=0.4, effective=0.16
    // Below 0.5 threshold -> should be pruned
    assert!(acc.get(id).unwrap().effective_strength() < 500_000);

    let pruned = acc.prune();
    assert_eq!(pruned, 1);
    assert!(acc.is_empty());
}

#[test]
fn test_strongest() {
    let mut acc = LockAccumulator::new();
    let _id1 = acc.add(Lock::new("weak", "a", "b", LockSource::Inferred));
    let _id2 = acc.add(Lock::new("strong", "c", "d", LockSource::Expert));

    // Expert has base_trust 1.0, Inferred has 0.4
    let strongest = acc.strongest().unwrap();
    assert_eq!(strongest.source, LockSource::Expert);
}

#[test]
fn test_by_source() {
    let mut acc = LockAccumulator::new();
    acc.add(Lock::new("a", "t", "e", LockSource::Inconsistency));
    acc.add(Lock::new("b", "t", "e", LockSource::Observation));
    acc.add(Lock::new("c", "t", "e", LockSource::Inconsistency));

    assert_eq!(acc.by_source(LockSource::Inconsistency).len(), 2);
    assert_eq!(acc.by_source(LockSource::Expert).len(), 0);
}

#[test]
fn test_stats() {
    let mut acc = LockAccumulator::new();
    acc.add(Lock::new("a", "t", "e", LockSource::Expert));
    acc.add(Lock::new("b", "t", "e", LockSource::Expert));

    let stats = acc.stats();
    assert_eq!(stats.total, 2);
    assert!(stats.avg_effective_strength > 0);
}

#[test]
fn test_sorted_checks() {
    let mut acc = LockAccumulator::new();
    acc.add(Lock::new("weak", "test", "e", LockSource::Inferred));
    acc.add(Lock::new("strong", "test", "e", LockSource::Expert));

    let checks = acc.check("test input");
    if checks.len() == 2 {
        assert!(checks[0].effective_strength >= checks[1].effective_strength);
    }
}

#[test]
fn test_verify_and_violate_by_id() {
    let mut acc = LockAccumulator::new();
    let id = acc.add(Lock::new("test", "t", "e", LockSource::Observation));

    assert!(acc.verify(id));
    assert!(acc.violate(id));
    assert!(!acc.verify(9999)); // nonexistent
}

#[test]
fn test_lock_active_check() {
    let lock = Lock::new("test", "t", "e", LockSource::Expert);
    assert!(lock.is_active(100_000));
    assert!(lock.is_active(ONE)); // Expert has base 1.0

    let lock2 = Lock::new("test2", "t", "e", LockSource::Inferred);
    assert!(!lock2.is_active(500_000)); // Inferred base 0.4
}

#[test]
fn test_exact_match_mode() {
    let mut acc = LockAccumulator::new();
    acc.set_exact_match(true);
    acc.add(Lock::new("exact", "MOVI", "use MOVI", LockSource::Expert));

    assert_eq!(acc.check("MOVI").len(), 1);
    assert_eq!(acc.check("use MOVI here").len(), 0); // substring, not exact
}

#[test]
fn test_remove_lock() {
    let mut acc = LockAccumulator::new();
    let id = acc.add(Lock::new("test", "t", "e", LockSource::Expert));
    assert_eq!(acc.len(), 1);
    assert!(acc.remove(id));
    assert!(acc.is_empty());
    assert!(!acc.remove(9999));
}
