use vstd::prelude::*;
use crate::accumulator::{
    added, fires, has_id, ids_unique, index_of_id, lock_map, removed, sum_effective, sum_verifications,
    sum_violations, inconsistency_description, inconsistency_enforcement, observation_description,
    INPUT_EXCERPT_BYTES, OUTPUT_EXCERPT_BYTES, ENFORCEMENT_EXCERPT_BYTES,
};
use crate::lock::{confidence_of, effective_of, lowered, raised, verified, violated, Lock};
use crate::source::{trust_of, LockSource, ONE};
use crate::text::{can_truncate, is_excerpt, lemma_truncated_is_excerpt, occurs_in};

verus! {

broadcast use vstd::seq_lib::group_seq_properties, vstd::seq_lib::group_filter_ensures;

/// Sources rank by trust: expert above inconsistency above observation above
/// cross-model above inferred, and no trust exceeds `ONE`.
pub proof fn lemma_trust_order(source: LockSource)
    ensures
        trust_of(LockSource::Expert) > trust_of(LockSource::Inconsistency),
        trust_of(LockSource::Inconsistency) > trust_of(LockSource::Observation),
        trust_of(LockSource::Observation) > trust_of(LockSource::CrossModel),
        trust_of(LockSource::CrossModel) > trust_of(LockSource::Inferred),
        0 < trust_of(source) <= ONE,
{
}

/// A strength within [0, `ONE`] stays there: a verification raises it
/// (strictly, below the cap) up to at most `ONE`; a violation lowers it
/// (strictly, above 0).
pub proof fn lemma_strength_stays_in_range(strength: u32)
    requires
        strength <= ONE,
    ensures
        strength <= raised(strength) <= ONE,
        strength < ONE ==> strength < raised(strength),
        lowered(strength) <= strength,
        strength > 0 ==> lowered(strength) < strength,
{
}

/// A lock with no recorded outcomes is as confident as its source is trusted.
pub proof fn lemma_fresh_confidence_is_trust(lock: Lock)
    requires
        lock.verifications == 0,
        lock.violations == 0,
    ensures
        confidence_of(lock) == trust_of(lock.source),
{
}

/// `x / d >= y / e` whenever the fraction `x / d` is at least `y / e`.
proof fn lemma_div_cross_ordered(x: int, d: int, y: int, e: int)
    requires
        d > 0,
        e > 0,
        x >= 0,
        y >= 0,
        x * e >= y * d,
    ensures
        x / d >= y / e,
{
    let q = y / e;
    vstd::arithmetic::div_mod::lemma_fundamental_div_mod(y, e);
    assert(0 <= y % e < e) by {
        vstd::arithmetic::div_mod::lemma_mod_bound(y, e);
    }
    assert(q * e <= y) by (nonlinear_arith)
        requires
            y == e * q + y % e,
            y % e >= 0,
    ;
    assert(q * d <= x) by (nonlinear_arith)
        requires
            q * e <= y,
            x * e >= y * d,
            d > 0,
            e > 0,
    ;
    vstd::arithmetic::div_mod::lemma_fundamental_div_mod(x, d);
    assert(0 <= x % d < d) by {
        vstd::arithmetic::div_mod::lemma_mod_bound(x, d);
    }
    assert(q <= x / d) by (nonlinear_arith)
        requires
            q * d <= x,
            x == d * (x / d) + x % d,
            x % d < d,
            d > 0,
    ;
}

/// More evidence moves confidence toward the data: a verification never
/// lowers a lock's confidence.
pub proof fn lemma_verify_does_not_lower_confidence(lock: Lock)
    requires
        lock.verifications < u32::MAX,
    ensures
        confidence_of(verified(lock)) >= confidence_of(lock),
{
    let v = lock.verifications as int;
    let n = lock.verifications + lock.violations;
    let t = trust_of(lock.source) as int;
    let after = verified(lock);
    let x = (v + 1) * ONE + 5 * t;
    let d = n + 6;
    if n == 0 {
        assert(x * 1 >= t * d) by (nonlinear_arith)
            requires
                x == (v + 1) * ONE + 5 * t,
                v == 0,
                d == 6,
                t <= ONE,
        ;
        lemma_div_cross_ordered(x, d, t, 1);
    } else {
        let y = v * ONE + 5 * t;
        let e = n + 5;
        assert(x * e >= y * d) by (nonlinear_arith)
            requires
                x == (v + 1) * ONE + 5 * t,
                y == v * ONE + 5 * t,
                d == n + 6,
                e == n + 5,
                0 <= v <= n,
                0 <= t <= ONE,
        ;
        lemma_div_cross_ordered(x, d, y, e);
    }
}

/// A violation never raises a lock's confidence.
pub proof fn lemma_violate_does_not_raise_confidence(lock: Lock)
    requires
        lock.violations < u32::MAX,
    ensures
        confidence_of(violated(lock)) <= confidence_of(lock),
{
    let v = lock.verifications as int;
    let n = lock.verifications + lock.violations;
    let t = trust_of(lock.source) as int;
    let y = v * ONE + 5 * t;
    let d = n + 6;
    if n == 0 {
        assert(t * d >= y * 1) by (nonlinear_arith)
            requires
                y == v * ONE + 5 * t,
                v == 0,
                d == 6,
                t >= 0,
        ;
        lemma_div_cross_ordered(t, 1, y, d);
    } else {
        let e = n + 5;
        assert(y * d >= y * e) by (nonlinear_arith)
            requires
                d == n + 6,
                e == n + 5,
                y >= 0,
        ;
        lemma_div_cross_ordered(y, e, y, d);
    }
}

/// Adding a lock keeps identifiers unique, and reading by its identifier
/// afterwards gives that lock back: the map of locks gains (or replaces)
/// exactly that entry.
pub proof fn lemma_add_then_lookup(locks: Seq<Lock>, lock: Lock)
    requires
        ids_unique(locks),
    ensures
        ids_unique(added(locks, lock)),
        has_id(added(locks, lock), lock.id),
        added(locks, lock)[index_of_id(added(locks, lock), lock.id)] == lock,
        lock_map(added(locks, lock)) == lock_map(locks).insert(lock.id, lock),
{
    let s = added(locks, lock);
    if has_id(locks, lock.id) {
        let k = index_of_id(locks, lock.id);
        assert(s[k].id == lock.id);
    } else {
        assert(s[locks.len() as int].id == lock.id);
    }
    assert forall|a: int, b: int| 0 <= a < s.len() && 0 <= b < s.len() && a != b
        implies #[trigger] s[a].id != #[trigger] s[b].id by {
        if has_id(locks, lock.id) {
            let k = index_of_id(locks, lock.id);
            if a != k && b != k {
                assert(locks[a].id != locks[b].id);
            } else if a == k {
                assert(locks[b].id != locks[k].id);
            } else {
                assert(locks[a].id != locks[k].id);
            }
        } else {
            if a < locks.len() && b < locks.len() {
                assert(locks[a].id != locks[b].id);
            } else if a < locks.len() {
                assert(locks[a].id != lock.id);
            } else {
                assert(locks[b].id != lock.id);
            }
        }
    }
    let i = index_of_id(s, lock.id);
    assert(s[i].id == lock.id);
    if has_id(locks, lock.id) {
        assert(i == index_of_id(locks, lock.id));
    } else {
        assert(i == locks.len());
    }
    let m1 = lock_map(s);
    let m2 = lock_map(locks).insert(lock.id, lock);
    assert forall|id: u64| #[trigger] m1.dom().contains(id) == m2.dom().contains(id) by {
        if has_id(locks, id) {
            let k = index_of_id(locks, id);
            if has_id(locks, lock.id) {
                assert(s[k].id == id || id == lock.id);
            } else {
                assert(s[k].id == id);
            }
        }
        if has_id(s, id) && id != lock.id {
            let k = index_of_id(s, id);
            if has_id(locks, lock.id) {
                assert(locks[k].id == id);
            } else {
                assert(k < locks.len());
                assert(locks[k].id == id);
            }
        }
    }
    assert forall|id: u64| #[trigger] m1.dom().contains(id) implies m1[id] == m2[id] by {
        if id != lock.id {
            let k = index_of_id(s, id);
            assert(s[k].id == id);
            if has_id(locks, lock.id) {
                assert(locks[k].id == id);
                assert(index_of_id(locks, id) == k);
            } else {
                assert(k < locks.len());
                assert(locks[k].id == id);
                assert(index_of_id(locks, id) == k);
            }
        }
    }
    assert(m1 =~= m2);
}

/// Removing by identifier keeps identifiers unique and takes exactly that
/// entry out of the map of locks.
pub proof fn lemma_remove_then_lookup(locks: Seq<Lock>, id: u64)
    requires
        ids_unique(locks),
    ensures
        ids_unique(removed(locks, id)),
        !has_id(removed(locks, id), id),
        lock_map(removed(locks, id)) == lock_map(locks).remove(id),
{
    let s = removed(locks, id);
    if has_id(locks, id) {
        let r = index_of_id(locks, id);
        assert(locks[r].id == id);
        assert forall|a: int, b: int| 0 <= a < s.len() && 0 <= b < s.len() && a != b
            implies #[trigger] s[a].id != #[trigger] s[b].id by {
            let a2 = if a < r { a } else { a + 1 };
            let b2 = if b < r { b } else { b + 1 };
            assert(locks[a2].id != locks[b2].id);
        }
        if has_id(s, id) {
            let k = index_of_id(s, id);
            let k2 = if k < r { k } else { k + 1 };
            assert(locks[k2].id == id);
            assert(false);
        }
        let m1 = lock_map(s);
        let m2 = lock_map(locks).remove(id);
        assert forall|x: u64| #[trigger] m1.dom().contains(x) == m2.dom().contains(x) by {
            if has_id(locks, x) && x != id {
                let k = index_of_id(locks, x);
                assert(k != r);
                let k2 = if k < r { k } else { k - 1 };
                assert(s[k2].id == x);
            }
            if has_id(s, x) {
                let k = index_of_id(s, x);
                let k2 = if k < r { k } else { k + 1 };
                assert(locks[k2].id == x);
            }
        }
        assert forall|x: u64| #[trigger] m1.dom().contains(x) implies m1[x] == m2[x] by {
            let k = index_of_id(s, x);
            let k2 = if k < r { k } else { k + 1 };
            assert(locks[k2].id == x);
            assert(index_of_id(locks, x) == k2);
        }
        assert(m1 =~= m2);
    } else {
        assert(lock_map(locks).remove(id) =~= lock_map(locks));
    }
}

/// Adding a lock under a new identifier and then removing that identifier
/// gives back the locks as they were.
pub proof fn lemma_add_then_remove(locks: Seq<Lock>, lock: Lock)
    requires
        ids_unique(locks),
        !has_id(locks, lock.id),
    ensures
        removed(added(locks, lock), lock.id) == locks,
{
    let s = added(locks, lock);
    assert(s[locks.len() as int].id == lock.id);
    let i = index_of_id(s, lock.id);
    if i != locks.len() {
        assert(locks[i].id == lock.id);
    }
    assert(s.remove(i) =~= locks);
}

/// A lock recorded for an input fires on that same input, in either
/// matching mode, as long as its strength reaches the minimum.
pub proof fn lemma_lock_fires_on_its_own_trigger(lock: Lock, min_strength: u32, exact: bool)
    requires
        lock.strength >= min_strength,
    ensures
        fires(lock, lock.trigger_pattern@, min_strength, exact),
{
    let p = lock.trigger_pattern@;
    assert(p.subrange(0, 0 + p.len() as int) =~= p);
    assert(occurs_in(p, p));
}

/// In exact mode a lock fires on an input exactly when it is active and its
/// trigger pattern equals the input, character for character.
pub proof fn lemma_exact_mode_fires_only_on_equal(lock: Lock, input: Seq<char>, min_strength: u32)
    ensures
        fires(lock, input, min_strength, true) <==> (lock.strength >= min_strength && lock.trigger_pattern@ == input),
{
}

/// In substring mode an active lock fires on every input that contains its
/// trigger pattern, and on every input that its trigger pattern contains.
pub proof fn lemma_substring_mode_fires_on_containment(
    lock: Lock,
    before: Seq<char>,
    after: Seq<char>,
    min_strength: u32,
)
    requires
        lock.strength >= min_strength,
    ensures
        fires(lock, before + lock.trigger_pattern@ + after, min_strength, false),
        lock.trigger_pattern@ == before + after ==> fires(lock, after, min_strength, false),
{
    let p = lock.trigger_pattern@;
    let input = before + p + after;
    let i = before.len() as int;
    assert(input.subrange(i, i + p.len()) =~= p);
    assert(occurs_in(p, input));
    if p == before + after {
        let j = before.len() as int;
        assert(p.subrange(j, j + after.len()) =~= after);
        assert(occurs_in(after, p));
    }
}

/// The totals of `stats` add up: over no locks they are 0, and over two runs
/// of locks put together they are the sums of the totals of each run.
pub proof fn lemma_totals_add_up(a: Seq<Lock>, b: Seq<Lock>)
    ensures
        sum_verifications(Seq::<Lock>::empty()) == 0,
        sum_violations(Seq::<Lock>::empty()) == 0,
        sum_effective(Seq::<Lock>::empty()) == 0,
        sum_verifications(a + b) == sum_verifications(a) + sum_verifications(b),
        sum_violations(a + b) == sum_violations(a) + sum_violations(b),
        sum_effective(a + b) == sum_effective(a) + sum_effective(b),
    decreases b.len(),
{
    if b.len() == 0 {
        assert(a + b =~= a);
    } else {
        lemma_totals_add_up(a, b.drop_last());
        assert((a + b).drop_last() =~= a + b.drop_last());
        assert((a + b).last() == b.last());
    }
}

/// One lock's totals are its own counts and effective strength, so adding
/// a lock to a run adds exactly its counts to the totals.
pub proof fn lemma_totals_of_one_lock(locks: Seq<Lock>, lock: Lock)
    ensures
        sum_verifications(locks.push(lock)) == sum_verifications(locks) + lock.verifications,
        sum_violations(locks.push(lock)) == sum_violations(locks) + lock.violations,
        sum_effective(locks.push(lock)) == sum_effective(locks) + effective_of(lock),
{
    assert(locks.push(lock).drop_last() =~= locks);
}

/// An observation lock's description is "Observation: " followed by an
/// excerpt of the enforcement: the whole enforcement when it fits in 80
/// bytes, else its first 80 bytes and three dots.
pub proof fn lemma_observation_description_excerpt(enforcement: Seq<char>)
    requires
        can_truncate(enforcement, ENFORCEMENT_EXCERPT_BYTES as nat),
    ensures
        exists|x: Seq<char>| #![trigger is_excerpt(enforcement, ENFORCEMENT_EXCERPT_BYTES as nat, x)]
            is_excerpt(enforcement, ENFORCEMENT_EXCERPT_BYTES as nat, x)
            && observation_description(enforcement) == "Observation: "@ + x,
{
    lemma_truncated_is_excerpt(enforcement, ENFORCEMENT_EXCERPT_BYTES as nat);
}

/// An inconsistency lock's texts hold excerpts: its enforcement quotes each
/// output cut to 80 bytes (with three dots marking a cut), output A first;
/// its description quotes the input cut to 60 bytes.
pub proof fn lemma_inconsistency_texts_excerpt(input: Seq<char>, output_a: Seq<char>, output_b: Seq<char>)
    requires
        can_truncate(input, INPUT_EXCERPT_BYTES as nat),
        can_truncate(output_a, OUTPUT_EXCERPT_BYTES as nat),
        can_truncate(output_b, OUTPUT_EXCERPT_BYTES as nat),
    ensures
        exists|xa: Seq<char>, xb: Seq<char>|
            #![trigger is_excerpt(output_a, OUTPUT_EXCERPT_BYTES as nat, xa), is_excerpt(output_b, OUTPUT_EXCERPT_BYTES as nat, xb)]
            is_excerpt(output_a, OUTPUT_EXCERPT_BYTES as nat, xa)
            && is_excerpt(output_b, OUTPUT_EXCERPT_BYTES as nat, xb)
            && inconsistency_enforcement(output_a, output_b)
                == "Lock: outputs differ for same input. A=\""@ + xa + "\" B=\""@ + xb + "\""@,
        exists|xi: Seq<char>| #![trigger is_excerpt(input, INPUT_EXCERPT_BYTES as nat, xi)]
            is_excerpt(input, INPUT_EXCERPT_BYTES as nat, xi)
            && inconsistency_description(input) == "Inconsistency lock for: "@ + xi,
{
    lemma_truncated_is_excerpt(input, INPUT_EXCERPT_BYTES as nat);
    lemma_truncated_is_excerpt(output_a, OUTPUT_EXCERPT_BYTES as nat);
    lemma_truncated_is_excerpt(output_b, OUTPUT_EXCERPT_BYTES as nat);
}

/// Every lock is either active or inactive: the two listings together are
/// as long as the whole.
pub proof fn lemma_active_inactive_partition(locks: Seq<Lock>, min_strength: u32)
    ensures
        locks.filter(|l: Lock| l.strength >= min_strength).len()
            + locks.filter(|l: Lock| l.strength < min_strength).len() == locks.len(),
    decreases locks.len(),
{
    reveal(Seq::filter);
    if locks.len() > 0 {
        lemma_active_inactive_partition(locks.drop_last(), min_strength);
    }
}

/// Pruning twice removes nothing the second time: the kept locks are all
/// active.
pub proof fn lemma_prune_idempotent(locks: Seq<Lock>, min_strength: u32)
    ensures
        locks.filter(|l: Lock| l.strength >= min_strength).filter(|l: Lock| l.strength >= min_strength)
            == locks.filter(|l: Lock| l.strength >= min_strength),
    decreases locks.len(),
{
    let p = |l: Lock| l.strength >= min_strength;
    reveal(Seq::filter);
    if locks.len() > 0 {
        lemma_prune_idempotent(locks.drop_last(), min_strength);
        let f = locks.drop_last().filter(p);
        if p(locks.last()) {
            f.lemma_filter_push(locks.last(), p);
        }
    }
}

} // verus!
