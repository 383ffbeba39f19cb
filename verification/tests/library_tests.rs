use plato_dynamic_locks::accumulator::{DEFAULT_MIN_STRENGTH, LockAccumulator};
use plato_dynamic_locks::clock::{nanos_from_elapsed, nanos_now};
use plato_dynamic_locks::lock::{Lock, STRENGTH_STEP_DOWN, STRENGTH_STEP_UP};
use plato_dynamic_locks::source::{LockSource, ONE};
use plato_dynamic_locks::text::{chars_equal, chars_of, contains_chars, truncate};

fn lock_with_id(id: u64, trigger: &str, source: LockSource) -> Lock {
    let mut lock = Lock::new("d", trigger, "e", source);
    lock.id = id;
    lock
}

#[test]
fn source_names() {
    assert_eq!(LockSource::Inconsistency.name(), "inconsistency");
    assert_eq!(LockSource::Observation.name(), "observation");
    assert_eq!(LockSource::CrossModel.name(), "cross-model");
    assert_eq!(LockSource::Expert.name(), "expert");
    assert_eq!(LockSource::Inferred.name(), "inferred");
}

#[test]
fn source_trust_values_and_order() {
    assert_eq!(LockSource::Expert.base_trust(), ONE);
    assert_eq!(LockSource::Inconsistency.base_trust(), 800_000);
    assert_eq!(LockSource::Observation.base_trust(), 700_000);
    assert_eq!(LockSource::CrossModel.base_trust(), 600_000);
    assert_eq!(LockSource::Inferred.base_trust(), 400_000);
    assert!(LockSource::Observation.base_trust() > LockSource::CrossModel.base_trust());
    assert!(LockSource::CrossModel.base_trust() > LockSource::Inferred.base_trust());
}

#[test]
fn new_lock_fields() {
    let lock = Lock::new("desc", "trig", "enf", LockSource::CrossModel);
    assert_eq!(lock.description, "desc");
    assert_eq!(lock.trigger_pattern, "trig");
    assert_eq!(lock.enforcement, "enf");
    assert_eq!(lock.source, LockSource::CrossModel);
    assert_eq!(lock.strength, 600_000);
    assert_eq!(lock.last_triggered, None);
    assert_eq!(lock.category, "");
    let lock = lock.with_category("cat");
    assert_eq!(lock.category, "cat");
    assert_eq!(lock.description, "desc");
}

#[test]
fn verify_steps_and_caps() {
    let mut lock = Lock::new("d", "t", "e", LockSource::Observation);
    lock.verify();
    assert_eq!(lock.strength, 700_000 + STRENGTH_STEP_UP);
    for _ in 0..10 {
        lock.verify();
    }
    assert_eq!(lock.strength, ONE);
    assert_eq!(lock.verifications, 11);
}

#[test]
fn violate_steps_and_floors() {
    let mut lock = Lock::new("d", "t", "e", LockSource::Inferred);
    lock.violate();
    assert_eq!(lock.strength, 400_000 - STRENGTH_STEP_DOWN);
    lock.violate();
    assert_eq!(lock.strength, 100_000);
    lock.violate();
    assert_eq!(lock.strength, 0);
    lock.violate();
    assert_eq!(lock.strength, 0);
    assert_eq!(lock.violations, 4);
}

#[test]
fn confidence_exact_values() {
    let mut lock = Lock::new("d", "t", "e", LockSource::Observation);
    assert_eq!(lock.confidence(), 700_000);
    lock.verify();
    // (1 + 5 * 0.7) / 6 = 0.75
    assert_eq!(lock.confidence(), 750_000);
    lock.verify();
    // (2 + 3.5) / 7 = 0.785714...
    assert_eq!(lock.confidence(), 785_714);
    let mut other = Lock::new("d", "t", "e", LockSource::Observation);
    other.violate();
    // (0 + 3.5) / 6 = 0.583333...
    assert_eq!(other.confidence(), 583_333);
}

#[test]
fn confidence_moves_with_evidence() {
    let mut lock = Lock::new("d", "t", "e", LockSource::Inconsistency);
    let fresh = lock.confidence();
    lock.verify();
    assert!(lock.confidence() >= fresh);
    let after_verify = lock.confidence();
    lock.violate();
    assert!(lock.confidence() <= after_verify);
}

#[test]
fn effective_strength_exact() {
    let lock = Lock::new("d", "t", "e", LockSource::Inferred);
    // 0.4 * 0.4 = 0.16
    assert_eq!(lock.effective_strength(), 160_000);
    let mut lock = Lock::new("d", "t", "e", LockSource::Observation);
    lock.verify();
    // 0.75 * 0.75 = 0.5625
    assert_eq!(lock.effective_strength(), 562_500);
    assert!(lock.effective_strength() <= lock.strength);
}

#[test]
fn trigger_records_time() {
    let mut lock = Lock::new("d", "t", "e", LockSource::Expert);
    lock.trigger();
    assert!(lock.last_triggered.is_some());
    assert_eq!(lock.strength, ONE);
}

#[test]
fn clock_readings() {
    assert_eq!(nanos_from_elapsed(None), 0);
    assert_eq!(nanos_from_elapsed(Some(42)), 42);
    assert_eq!(nanos_from_elapsed(Some((1u128 << 64) + 5)), 5);
    assert!(nanos_now() > 0);
}

#[test]
fn truncate_cases() {
    assert_eq!(truncate("short", 10), "short");
    assert_eq!(truncate("exact", 5), "exact");
    assert_eq!(truncate("abcdefgh", 3), "abc...");
    assert_eq!(truncate("", 0), "");
    // '東' takes three bytes: cutting after it is on a boundary
    assert_eq!(truncate("東西南北", 3), "東...");
}

#[test]
fn substring_search() {
    let hay = chars_of("use MOV for immediate value");
    assert!(contains_chars(&hay, &chars_of("MOV")));
    assert!(contains_chars(&hay, &chars_of("")));
    assert!(!contains_chars(&hay, &chars_of("MOVI")));
    assert!(!contains_chars(&chars_of("MO"), &chars_of("MOV")));
    assert!(chars_equal(&chars_of("東"), &chars_of("東")));
    assert!(!chars_equal(&chars_of("ab"), &chars_of("abc")));
}

#[test]
fn new_accumulator_defaults() {
    let acc = LockAccumulator::new();
    assert!(acc.is_empty());
    assert_eq!(acc.len(), 0);
    let acc2 = LockAccumulator::default();
    assert!(acc2.is_empty());
    assert!(acc2.strongest().is_none());
    assert_eq!(DEFAULT_MIN_STRENGTH, 100_000);
}

#[test]
fn add_then_get_and_replace() {
    let mut acc = LockAccumulator::new();
    acc.add(lock_with_id(7, "a", LockSource::Expert));
    acc.add(lock_with_id(8, "b", LockSource::Inferred));
    assert_eq!(acc.get(7).unwrap().trigger_pattern, "a");
    assert!(acc.get(9).is_none());
    // same identifier: replaced in place
    acc.add(lock_with_id(7, "c", LockSource::Observation));
    assert_eq!(acc.len(), 2);
    assert_eq!(acc.get(7).unwrap().trigger_pattern, "c");
    assert!(acc.remove(7));
    assert!(acc.get(7).is_none());
    assert_eq!(acc.len(), 1);
}

#[test]
fn add_then_remove_restores() {
    let mut acc = LockAccumulator::new();
    acc.add(lock_with_id(1, "a", LockSource::Expert));
    acc.add(lock_with_id(2, "b", LockSource::Expert));
    assert!(acc.remove(2));
    assert_eq!(acc.len(), 1);
    assert!(acc.get(1).is_some());
}

#[test]
fn verify_and_violate_by_id_change_the_lock() {
    let mut acc = LockAccumulator::new();
    acc.add(lock_with_id(3, "a", LockSource::Observation));
    assert!(acc.verify(3));
    assert_eq!(acc.get(3).unwrap().strength, 750_000);
    assert!(acc.violate(3));
    assert_eq!(acc.get(3).unwrap().strength, 600_000);
    assert!(!acc.violate(4));
}

#[test]
fn check_orders_by_strength_and_triggers() {
    let mut acc = LockAccumulator::new();
    acc.add(lock_with_id(1, "MOV", LockSource::Inferred));
    acc.add(lock_with_id(2, "MOV", LockSource::Expert));
    acc.add(lock_with_id(3, "MOV", LockSource::Observation));
    acc.add(lock_with_id(4, "JMP", LockSource::Expert));
    let checks = acc.check("MOV r1, 5");
    assert_eq!(checks.len(), 3);
    assert_eq!(checks[0].lock_id, 2);
    assert_eq!(checks[0].effective_strength, ONE);
    assert_eq!(checks[1].lock_id, 3);
    assert_eq!(checks[1].effective_strength, 490_000);
    assert_eq!(checks[2].lock_id, 1);
    assert!(acc.get(1).unwrap().last_triggered.is_some());
    assert!(acc.get(4).unwrap().last_triggered.is_none());
}

#[test]
fn check_matches_input_inside_pattern() {
    let mut acc = LockAccumulator::new();
    acc.add(lock_with_id(1, "use MOVI for immediates", LockSource::Expert));
    assert_eq!(acc.check("MOVI").len(), 1);
    assert_eq!(acc.check("MOVE").len(), 0);
}

#[test]
fn check_skips_inactive_locks() {
    let mut acc = LockAccumulator::with_min_strength(500_000);
    acc.add(lock_with_id(1, "x", LockSource::Inferred));
    acc.add(lock_with_id(2, "x", LockSource::Expert));
    let checks = acc.check("x");
    assert_eq!(checks.len(), 1);
    assert_eq!(checks[0].lock_id, 2);
    assert!(acc.get(1).unwrap().last_triggered.is_none());
}

#[test]
fn record_inconsistency_texts() {
    let mut acc = LockAccumulator::new();
    let id = acc.record_inconsistency("in", "out A", "out B");
    let lock = acc.get(id).unwrap();
    assert_eq!(lock.enforcement, "Lock: outputs differ for same input. A=\"out A\" B=\"out B\"");
    assert_eq!(lock.description, "Inconsistency lock for: in");
    assert_eq!(lock.trigger_pattern, "in");
    assert_eq!(lock.source, LockSource::Inconsistency);
    assert_eq!(lock.strength, 800_000);
}

#[test]
fn record_inconsistency_truncates_outputs() {
    let mut acc = LockAccumulator::new();
    let long_a = "a".repeat(100);
    let long_input = "i".repeat(70);
    let id = acc.record_inconsistency(&long_input, &long_a, "b");
    let lock = acc.get(id).unwrap();
    let expected = format!("Lock: outputs differ for same input. A=\"{}...\" B=\"b\"", "a".repeat(80));
    assert_eq!(lock.enforcement, expected);
    assert_eq!(lock.description, format!("Inconsistency lock for: {}...", "i".repeat(60)));
    assert_eq!(lock.trigger_pattern, long_input);
}

#[test]
fn record_observation_texts() {
    let mut acc = LockAccumulator::new();
    let id = acc.record_observation("OOM detected", "reduce batch size by 50%", "memory");
    let lock = acc.get(id).unwrap();
    assert_eq!(lock.description, "Observation: reduce batch size by 50%");
    assert_eq!(lock.trigger_pattern, "OOM detected");
    assert_eq!(lock.enforcement, "reduce batch size by 50%");
    assert_eq!(lock.category, "memory");
    assert_eq!(lock.source, LockSource::Observation);
    assert_eq!(acc.by_category("other").len(), 0);
}

#[test]
fn active_and_inactive_partition() {
    let mut acc = LockAccumulator::with_min_strength(500_000);
    acc.add(lock_with_id(1, "a", LockSource::Inferred));
    acc.add(lock_with_id(2, "b", LockSource::Expert));
    acc.add(lock_with_id(3, "c", LockSource::Observation));
    let active = acc.active_locks();
    let inactive = acc.inactive_locks();
    assert_eq!(active.len() + inactive.len(), acc.len());
    assert_eq!(active.len(), 2);
    assert_eq!(inactive[0].id, 1);
}

#[test]
fn prune_twice_removes_nothing_more() {
    let mut acc = LockAccumulator::with_min_strength(500_000);
    acc.add(lock_with_id(1, "a", LockSource::Inferred));
    acc.add(lock_with_id(2, "b", LockSource::Expert));
    acc.add(lock_with_id(3, "c", LockSource::CrossModel));
    assert_eq!(acc.prune(), 1);
    assert_eq!(acc.prune(), 0);
    assert_eq!(acc.len(), 2);
    assert!(acc.get(1).is_none());
}

#[test]
fn strongest_prefers_last_of_equals() {
    let mut acc = LockAccumulator::new();
    acc.add(lock_with_id(1, "a", LockSource::Expert));
    acc.add(lock_with_id(2, "b", LockSource::Inferred));
    acc.add(lock_with_id(3, "c", LockSource::Expert));
    assert_eq!(acc.strongest().unwrap().id, 3);
}

#[test]
fn stats_exact() {
    let mut acc = LockAccumulator::with_min_strength(500_000);
    acc.add(lock_with_id(1, "a", LockSource::Expert));
    acc.add(lock_with_id(2, "b", LockSource::Inferred));
    acc.verify(1);
    acc.violate(2);
    let stats = acc.stats();
    assert_eq!(stats.total, 2);
    assert_eq!(stats.active, 1);
    assert_eq!(stats.inactive, 1);
    assert_eq!(stats.total_verifications, 1);
    assert_eq!(stats.total_violations, 1);
    // lock 1: strength 1.0, confidence (1 + 5) / 6 = 1.0 -> 1.0
    // lock 2: strength 0.25, confidence (0 + 2) / 6 = 0.333333 -> 0.083333
    assert_eq!(stats.avg_effective_strength, (1_000_000 + 83_333) / 2);
    assert_eq!(LockAccumulator::new().stats().avg_effective_strength, 0);
}

#[test]
fn check_keeps_storage_order_among_equals() {
    let mut acc = LockAccumulator::new();
    acc.add(lock_with_id(10, "go", LockSource::Expert));
    acc.add(lock_with_id(4, "go", LockSource::Inferred));
    acc.add(lock_with_id(5, "go", LockSource::Expert));
    let checks = acc.check("go");
    let ids: Vec<u64> = checks.iter().map(|c| c.lock_id).collect();
    assert_eq!(ids, vec![10, 5, 4]);
}

#[test]
fn strongest_of_one_lock_needs_no_comparison() {
    let mut acc = LockAccumulator::new();
    let mut lock = lock_with_id(1, "a", LockSource::Expert);
    lock.verifications = u32::MAX;
    lock.violations = u32::MAX;
    acc.add(lock);
    acc.ids_are_unique();
    assert_eq!(acc.strongest().unwrap().id, 1);
}
