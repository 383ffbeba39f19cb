use vstd::prelude::*;
use crate::source::LockSource;
use crate::lock::{has_fresh_fields, is_new_lock, Lock, effective_of, evidence_fits, verified, violated};
use crate::text::{can_truncate, chars_of, chars_equal, contains_chars, occurs_in, truncate, truncated};
use vstd::string::*;

verus! {

broadcast use vstd::seq_lib::group_seq_properties, vstd::seq_lib::group_filter_ensures;

/// Minimum strength (0.1) for a lock to count as active in a fresh accumulator.
pub const DEFAULT_MIN_STRENGTH: u32 = 100_000;

/// No two locks of `locks` share an identifier.
pub open spec fn ids_unique(locks: Seq<Lock>) -> bool {
    forall|i: int, j: int| 0 <= i < locks.len() && 0 <= j < locks.len() && i != j
        ==> #[trigger] locks[i].id != #[trigger] locks[j].id
}

/// Some lock of `locks` has identifier `id`.
pub open spec fn has_id(locks: Seq<Lock>, id: u64) -> bool {
    exists|i: int| 0 <= i < locks.len() && #[trigger] locks[i].id == id
}

/// The position of the lock with identifier `id` (meaningful when `has_id`).
pub open spec fn index_of_id(locks: Seq<Lock>, id: u64) -> int {
    choose|i: int| 0 <= i < locks.len() && #[trigger] locks[i].id == id
}

/// The locks keyed by identifier.
pub open spec fn lock_map(locks: Seq<Lock>) -> Map<u64, Lock> {
    Map::new(|id: u64| has_id(locks, id), |id: u64| locks[index_of_id(locks, id)])
}

/// `locks` after adding `lock`: a lock with the same identifier is replaced in
/// place, otherwise the new lock goes last.
pub open spec fn added(locks: Seq<Lock>, lock: Lock) -> Seq<Lock> {
    if has_id(locks, lock.id) {
        locks.update(index_of_id(locks, lock.id), lock)
    } else {
        locks.push(lock)
    }
}

/// `locks` without the lock with identifier `id`, if there is one.
pub open spec fn removed(locks: Seq<Lock>, id: u64) -> Seq<Lock> {
    if has_id(locks, id) {
        locks.remove(index_of_id(locks, id))
    } else {
        locks
    }
}

/// One lock that an input triggered, as reported by `LockAccumulator::check`.
#[derive(Debug, Clone)]
pub struct LockCheck {
    pub lock_id: u64,
    pub triggered: bool,
    pub description: String,
    pub enforcement: String,
    /// Effective strength of the lock, in millionths
    pub effective_strength: u32,
}

/// Whether a lock's trigger pattern matches an input: equal texts in exact
/// mode; otherwise either one occurring inside the other.
pub open spec fn pattern_matches(pattern: Seq<char>, input: Seq<char>, exact: bool) -> bool {
    if exact {
        pattern == input
    } else {
        occurs_in(pattern, input) || occurs_in(input, pattern)
    }
}

/// A lock fires on an input when it is active (strength at least the
/// minimum) and its trigger pattern matches the input.
pub open spec fn fires(lock: Lock, input: Seq<char>, min_strength: u32, exact: bool) -> bool {
    lock.strength >= min_strength && pattern_matches(lock.trigger_pattern@, input, exact)
}

/// The report for a lock that fired.
pub open spec fn check_of(lock: Lock) -> LockCheck {
    LockCheck {
        lock_id: lock.id,
        triggered: true,
        description: lock.description,
        enforcement: lock.enforcement,
        effective_strength: effective_of(lock) as u32,
    }
}

/// The reports for the locks that fire on an input, in storage order.
pub open spec fn reports_for(locks: Seq<Lock>, input: Seq<char>, min_strength: u32, exact: bool) -> Seq<LockCheck> {
    locks.filter(|l: Lock| fires(l, input, min_strength, exact)).map_values(|l: Lock| check_of(l))
}

/// `after` is `before` with a trigger time recorded.
pub open spec fn triggered_from(before: Lock, after: Lock) -> bool {
    &&& after.last_triggered is Some
    &&& after.id == before.id
    &&& after.description == before.description
    &&& after.trigger_pattern == before.trigger_pattern
    &&& after.enforcement == before.enforcement
    &&& after.source == before.source
    &&& after.strength == before.strength
    &&& after.verifications == before.verifications
    &&& after.violations == before.violations
    &&& after.created_at == before.created_at
    &&& after.category == before.category
}

/// Effective strengths never increase along `checks`.
pub open spec fn sorted_by_strength(checks: Seq<LockCheck>) -> bool {
    forall|i: int, j: int| 0 <= i < j < checks.len()
        ==> #[trigger] checks[i].effective_strength >= #[trigger] checks[j].effective_strength
}

/// Selects the reports with effective strength `e`.
pub open spec fn with_strength(e: u32) -> spec_fn(LockCheck) -> bool {
    |c: LockCheck| c.effective_strength == e
}

/// Filtering keeps nothing from a sequence none of whose elements qualify.
proof fn lemma_filter_none<A>(s: Seq<A>, p: spec_fn(A) -> bool)
    requires
        forall|k: int| 0 <= k < s.len() ==> !p(#[trigger] s[k]),
    ensures
        s.filter(p) == Seq::<A>::empty(),
{
    if s.filter(p).len() > 0 {
        let x = s.filter(p)[0];
        s.lemma_filter_pred(p, 0);
        assert(s.filter(p).contains(x));
        s.lemma_filter_contains_rev(p, x);
        let k = choose|k: int| 0 <= k < s.len() && s[k] == x;
        assert(!p(s[k]));
    }
    assert(s.filter(p) =~= Seq::<A>::empty());
}

/// Filtering a sequence with an element inserted at `pos`.
proof fn lemma_filter_insert<A>(s: Seq<A>, pos: int, x: A, p: spec_fn(A) -> bool)
    requires
        0 <= pos <= s.len(),
    ensures
        s.insert(pos, x).filter(p) == s.take(pos).filter(p) + seq![x].filter(p) + s.skip(pos).filter(p),
        s.filter(p) == s.take(pos).filter(p) + s.skip(pos).filter(p),
        seq![x].filter(p) == (if p(x) { seq![x] } else { Seq::<A>::empty() }),
{
    broadcast use vstd::seq_lib::group_seq_lib_default;
    assert(s.insert(pos, x) =~= s.take(pos) + seq![x] + s.skip(pos));
    assert(s =~= s.take(pos) + s.skip(pos));
    reveal_with_fuel(Seq::filter, 2);
    assert(seq![x].drop_last() =~= Seq::<A>::empty());
}

/// Sorts checks by effective strength, strongest first; reports of equal
/// strength keep their order.
fn sort_by_strength(checks: Vec<LockCheck>) -> (res: Vec<LockCheck>)
    ensures
        sorted_by_strength(res@),
        res@.to_multiset() == checks@.to_multiset(),
        forall|e: u32| #[trigger] res@.filter(with_strength(e)) == checks@.filter(with_strength(e)),
{
    broadcast use vstd::seq_lib::group_to_multiset_ensures;
    let mut res: Vec<LockCheck> = Vec::new();
    let ghost all = checks@;
    for c in it: checks.into_iter()
        invariant
            it.seq() == all,
            sorted_by_strength(res@),
            res@.to_multiset() == all.take(it.index()).to_multiset(),
            forall|e: u32| #[trigger] res@.filter(with_strength(e)) == all.take(it.index()).filter(with_strength(e)),
    {
        let n = res.len();
        let mut pos: usize = 0;
        while pos < n && res[pos].effective_strength >= c.effective_strength
            invariant
                n == res@.len(),
                pos <= n,
                forall|j: int| 0 <= j < pos ==> #[trigger] res@[j].effective_strength >= c.effective_strength,
            decreases n - pos,
        {
            pos += 1;
        }
        let ghost before = res@;
        let ghost idx = it.index();
        res.insert(pos, c);
        proof {
            assert(all.take(idx + 1) =~= all.take(idx).push(c));
            assert forall|i: int, j: int| 0 <= i < j < res@.len()
                implies #[trigger] res@[i].effective_strength >= #[trigger] res@[j].effective_strength by {
                if j < pos {
                } else if j == pos {
                    assert(before[i].effective_strength >= c.effective_strength);
                } else if i < pos {
                    assert(before[i].effective_strength >= before[j - 1].effective_strength);
                } else if i == pos {
                    assert(before[pos as int].effective_strength < c.effective_strength);
                    assert(before[pos as int].effective_strength >= before[j - 1].effective_strength);
                } else {
                    assert(before[i - 1].effective_strength >= before[j - 1].effective_strength);
                }
            }
            assert forall|e: u32| #[trigger] res@.filter(with_strength(e)) == all.take(idx + 1).filter(with_strength(e)) by {
                let q = with_strength(e);
                lemma_filter_insert(before, pos as int, c, q);
                all.take(idx).lemma_filter_push(c, q);
                let tail = before.skip(pos as int);
                if e == c.effective_strength {
                    assert forall|k: int| 0 <= k < tail.len() implies !q(#[trigger] tail[k]) by {
                        assert(before[pos as int].effective_strength < c.effective_strength);
                        assert(before[pos as int].effective_strength >= before[pos + k].effective_strength);
                    }
                    lemma_filter_none(tail, q);
                    assert(res@.filter(q) =~= before.filter(q).push(c));
                } else {
                    assert(res@.filter(q) =~= before.filter(q));
                }
            }
        }
    }
    proof {
        assert(all.take(all.len() as int) =~= all);
    }
    res
}

/// Bytes of each output kept in an inconsistency lock's enforcement text.
pub const OUTPUT_EXCERPT_BYTES: usize = 80;

/// Bytes of the input kept in an inconsistency lock's description.
pub const INPUT_EXCERPT_BYTES: usize = 60;

/// Bytes of the enforcement kept in an observation lock's description.
pub const ENFORCEMENT_EXCERPT_BYTES: usize = 80;

/// Enforcement text of a lock recorded for two differing outputs.
pub open spec fn inconsistency_enforcement(output_a: Seq<char>, output_b: Seq<char>) -> Seq<char> {
    "Lock: outputs differ for same input. A=\""@ + truncated(output_a, OUTPUT_EXCERPT_BYTES as nat)
        + "\" B=\""@ + truncated(output_b, OUTPUT_EXCERPT_BYTES as nat) + "\""@
}

/// Description of a lock recorded for an inconsistency on `input`.
pub open spec fn inconsistency_description(input: Seq<char>) -> Seq<char> {
    "Inconsistency lock for: "@ + truncated(input, INPUT_EXCERPT_BYTES as nat)
}

/// Description of a lock recorded for an observation.
pub open spec fn observation_description(enforcement: Seq<char>) -> Seq<char> {
    "Observation: "@ + truncated(enforcement, ENFORCEMENT_EXCERPT_BYTES as nat)
}

/// Which locks a listing keeps.
enum Selection {
    Active,
    Inactive,
    Category(Vec<char>),
    Source(LockSource),
}

/// Whether a listing by `sel` keeps `lock`, for minimum strength `min`.
spec fn selects(sel: Selection, min: u32, lock: Lock) -> bool {
    match sel {
        Selection::Active => lock.strength >= min,
        Selection::Inactive => lock.strength < min,
        Selection::Category(c) => lock.category@ == c@,
        Selection::Source(src) => lock.source == src,
    }
}

/// Summary statistics of an accumulator.
#[derive(Debug, Clone, Copy)]
pub struct LockStats {
    pub total: usize,
    pub active: usize,
    pub inactive: usize,
    pub total_verifications: u32,
    pub total_violations: u32,
    /// Mean effective strength, in millionths
    pub avg_effective_strength: u32,
}

/// Sum of the verification counts of `locks`.
pub open spec fn sum_verifications(locks: Seq<Lock>) -> int
    decreases locks.len(),
{
    if locks.len() == 0 {
        0
    } else {
        sum_verifications(locks.drop_last()) + locks.last().verifications
    }
}

/// Sum of the violation counts of `locks`.
pub open spec fn sum_violations(locks: Seq<Lock>) -> int
    decreases locks.len(),
{
    if locks.len() == 0 {
        0
    } else {
        sum_violations(locks.drop_last()) + locks.last().violations
    }
}

/// Sum of the effective strengths of `locks`.
pub open spec fn sum_effective(locks: Seq<Lock>) -> int
    decreases locks.len(),
{
    if locks.len() == 0 {
        0
    } else {
        sum_effective(locks.drop_last()) + effective_of(locks.last())
    }
}

/// Mean effective strength of `locks`, rounded down; 0 when there are none.
pub open spec fn mean_effective(locks: Seq<Lock>) -> int {
    if locks.len() == 0 {
        0
    } else {
        sum_effective(locks) / (locks.len() as int)
    }
}

/// Filtering keeps identifiers unique.
proof fn lemma_filter_ids_unique(s: Seq<Lock>, p: spec_fn(Lock) -> bool)
    requires
        ids_unique(s),
    ensures
        ids_unique(s.filter(p)),
    decreases s.len(),
{
    reveal(Seq::filter);
    if s.len() > 0 {
        let rest = s.drop_last();
        let last = s.last();
        assert(ids_unique(rest));
        lemma_filter_ids_unique(rest, p);
        if p(last) {
            let f = rest.filter(p);
            let g = f.push(last);
            assert(s.filter(p) == g);
            assert forall|a: int, b: int| 0 <= a < g.len() && 0 <= b < g.len() && a != b
                implies #[trigger] g[a].id != #[trigger] g[b].id by {
                if a == f.len() {
                    rest.lemma_filter_contains_rev(p, f[b]);
                    let k = choose|k: int| 0 <= k < rest.len() && rest[k] == f[b];
                    assert(s[k].id != s[s.len() - 1].id);
                } else if b == f.len() {
                    rest.lemma_filter_contains_rev(p, f[a]);
                    let k = choose|k: int| 0 <= k < rest.len() && rest[k] == f[a];
                    assert(s[k].id != s[s.len() - 1].id);
                }
            }
        }
    }
}

/// What an accumulator holds: its locks in the order they were first added,
/// the minimum strength of an active lock, and the matching mode.
pub struct AccumulatorView {
    pub locks: Seq<Lock>,
    pub min_strength: u32,
    pub exact_match: bool,
}

/// The main engine: accumulates locks, checks inputs against them,
/// learns from inconsistencies.
///
/// The locks are keyed by identifier, held in a `Vec` in the order they were
/// first added, with no identifier occurring twice (the type invariant).
/// vstd's specification of `HashMap` offers no in-place access to a value
/// (`get_mut`, `values_mut`, `retain`), which triggering, verifying,
/// violating and pruning need; the `Vec` keeps the same keyed behaviour
/// (adding under a known identifier replaces that lock) and gives every
/// listing a definite order.
pub struct LockAccumulator {
    locks: Vec<Lock>,
    /// Minimum strength for a lock to be considered active, in millionths
    min_strength: u32,
    /// Pattern matching mode: exact or substring
    exact_match: bool,
}

impl View for LockAccumulator {
    type V = AccumulatorView;

    closed spec fn view(&self) -> AccumulatorView {
        AccumulatorView { locks: self.locks@, min_strength: self.min_strength, exact_match: self.exact_match }
    }
}

impl LockAccumulator {
    #[verifier::type_invariant]
    spec fn inv(self) -> bool {
        ids_unique(self.locks@)
    }

    /// No two locks of an accumulator share an identifier, in every state.
    pub fn ids_are_unique(&self)
        ensures
            ids_unique(self@.locks),
    {
        proof {
            use_type_invariant(self);
        }
    }

    /// An empty accumulator with the default minimum strength and substring
    /// matching.
    pub fn new() -> (res: Self)
        ensures
            res@.locks == Seq::<Lock>::empty(),
            res@.min_strength == DEFAULT_MIN_STRENGTH,
            !res@.exact_match,
    {
        LockAccumulator { locks: Vec::new(), min_strength: DEFAULT_MIN_STRENGTH, exact_match: false }
    }

    /// An empty accumulator with the given minimum strength (in millionths)
    /// and substring matching.
    pub fn with_min_strength(min: u32) -> (res: Self)
        ensures
            res@.locks == Seq::<Lock>::empty(),
            res@.min_strength == min,
            !res@.exact_match,
    {
        LockAccumulator { locks: Vec::new(), min_strength: min, exact_match: false }
    }

    /// Choose exact matching (`true`) or substring matching (`false`).
    pub fn set_exact_match(&mut self, exact: bool)
        ensures
            final(self)@.exact_match == exact,
            final(self)@.locks == old(self)@.locks,
            final(self)@.min_strength == old(self)@.min_strength,
    {
        proof {
            use_type_invariant(&*self);
        }
        self.exact_match = exact;
    }

    /// Position of the lock with identifier `id`, if any.
    fn find(&self, id: u64) -> (res: Option<usize>)
        ensures
            match res {
                Some(i) => i < self@.locks.len() && self@.locks[i as int].id == id && i == index_of_id(self@.locks, id),
                None => !has_id(self@.locks, id),
            },
    {
        proof {
            use_type_invariant(self);
        }
        let n = self.locks.len();
        let mut i: usize = 0;
        while i < n
            invariant
                n == self.locks@.len(),
                ids_unique(self.locks@),
                i <= n,
                forall|j: int| 0 <= j < i ==> #[trigger] self.locks@[j].id != id,
            decreases n - i,
        {
            if self.locks[i].id == id {
                proof {
                    assert(has_id(self@.locks, id));
                    let k = index_of_id(self@.locks, id);
                    assert(self.locks@[k].id == id);
                }
                return Some(i);
            }
            i += 1;
        }
        None
    }

    /// Add a lock to the accumulator; a lock with the same identifier is
    /// replaced. Returns the lock's identifier.
    pub fn add(&mut self, lock: Lock) -> (res: u64)
        ensures
            res == lock.id,
            final(self)@.locks == added(old(self)@.locks, lock),
            final(self)@.min_strength == old(self)@.min_strength,
            final(self)@.exact_match == old(self)@.exact_match,
    {
        proof {
            use_type_invariant(&*self);
        }
        let id = lock.id;
        match self.find(id) {
            Some(i) => {
                let mut locks = Vec::new();
                std::mem::swap(&mut locks, &mut self.locks);
                locks.set(i, lock);
                proof {
                    assert forall|a: int, b: int| 0 <= a < locks@.len() && 0 <= b < locks@.len() && a != b
                        implies #[trigger] locks@[a].id != #[trigger] locks@[b].id by {
                        if a != i && b != i {
                            assert(old(self).locks@[a].id != old(self).locks@[b].id);
                        } else if a == i {
                            assert(old(self).locks@[b].id != old(self).locks@[a].id);
                        } else {
                            assert(old(self).locks@[a].id != old(self).locks@[b].id);
                        }
                    }
                }
                self.locks = locks;
            },
            None => {
                let mut locks = Vec::new();
                std::mem::swap(&mut locks, &mut self.locks);
                locks.push(lock);
                proof {
                    assert forall|a: int, b: int| 0 <= a < locks@.len() && 0 <= b < locks@.len() && a != b
                        implies #[trigger] locks@[a].id != #[trigger] locks@[b].id by {
                        if a < old(self).locks@.len() && b < old(self).locks@.len() {
                            assert(old(self).locks@[a].id != old(self).locks@[b].id);
                        } else if a < old(self).locks@.len() {
                            assert(old(self).locks@[a].id != id);
                        } else {
                            assert(old(self).locks@[b].id != id);
                        }
                    }
                }
                self.locks = locks;
            },
        }
        id
    }

    /// Remove a lock by identifier. Returns whether there was one.
    pub fn remove(&mut self, id: u64) -> (res: bool)
        ensures
            res == has_id(old(self)@.locks, id),
            final(self)@.locks == removed(old(self)@.locks, id),
            final(self)@.min_strength == old(self)@.min_strength,
            final(self)@.exact_match == old(self)@.exact_match,
    {
        proof {
            use_type_invariant(&*self);
        }
        match self.find(id) {
            Some(i) => {
                let mut locks = Vec::new();
                std::mem::swap(&mut locks, &mut self.locks);
                let _gone = locks.remove(i);
                proof {
                    let o = old(self).locks@;
                    assert forall|a: int, b: int| 0 <= a < locks@.len() && 0 <= b < locks@.len() && a != b
                        implies #[trigger] locks@[a].id != #[trigger] locks@[b].id by {
                        let a2 = if a < i { a } else { a + 1 };
                        let b2 = if b < i { b } else { b + 1 };
                        assert(o[a2].id != o[b2].id);
                    }
                }
                self.locks = locks;
                true
            },
            None => false,
        }
    }

    /// The lock with identifier `id`, if any.
    pub fn get(&self, id: u64) -> (res: Option<&Lock>)
        ensures
            match res {
                Some(l) => has_id(self@.locks, id) && *l == self@.locks[index_of_id(self@.locks, id)],
                None => !has_id(self@.locks, id),
            },
    {
        match self.find(id) {
            Some(i) => Some(&self.locks[i]),
            None => None,
        }
    }

    /// Whether `pattern` matches the input whose characters are `input`,
    /// in this accumulator's matching mode.
    fn pattern_matches_input(&self, pattern: &String, input: &Vec<char>) -> (res: bool)
        ensures
            res == pattern_matches(pattern@, input@, self@.exact_match),
    {
        let p = chars_of(pattern.as_str());
        if self.exact_match {
            chars_equal(&p, input)
        } else {
            contains_chars(input, &p) || contains_chars(&p, input)
        }
    }

    /// Check an input against all active locks. Every lock that fires is
    /// triggered (its trigger time recorded) and reported; the reports come
    /// sorted by effective strength, strongest first, and reports of equal
    /// strength keep the order in which their locks are stored.
    pub fn check(&mut self, input: &str) -> (res: Vec<LockCheck>)
        requires
            forall|i: int| 0 <= i < old(self)@.locks.len()
                && fires(#[trigger] old(self)@.locks[i], input@, old(self)@.min_strength, old(self)@.exact_match)
                ==> evidence_fits(old(self)@.locks[i]),
        ensures
            final(self)@.min_strength == old(self)@.min_strength,
            final(self)@.exact_match == old(self)@.exact_match,
            final(self)@.locks.len() == old(self)@.locks.len(),
            forall|i: int| 0 <= i < old(self)@.locks.len() ==> {
                let before = #[trigger] old(self)@.locks[i];
                let after = final(self)@.locks[i];
                if fires(before, input@, old(self)@.min_strength, old(self)@.exact_match) {
                    triggered_from(before, after)
                } else {
                    after == before
                }
            },
            sorted_by_strength(res@),
            res@.to_multiset() == reports_for(old(self)@.locks, input@, old(self)@.min_strength, old(self)@.exact_match).to_multiset(),
            forall|e: u32| #[trigger] res@.filter(with_strength(e))
                == reports_for(old(self)@.locks, input@, old(self)@.min_strength, old(self)@.exact_match).filter(with_strength(e)),
    {
        proof {
            use_type_invariant(&*self);
        }
        let ghost min = self.min_strength;
        let ghost exact = self.exact_match;
        let ghost pred = |l: Lock| fires(l, input@, min, exact);
        let input_chars = chars_of(input);
        let mut old_locks: Vec<Lock> = Vec::new();
        std::mem::swap(&mut old_locks, &mut self.locks);
        let ghost all = old_locks@;
        let mut new_locks: Vec<Lock> = Vec::new();
        let mut checks: Vec<LockCheck> = Vec::new();
        for lock in it: old_locks.into_iter()
            invariant
                it.seq() == all,
                ids_unique(all),
                pred == (|l: Lock| fires(l, input@, min, exact)),
                self.min_strength == min,
                self.exact_match == exact,
                input_chars@ == input@,
                forall|i: int| 0 <= i < all.len() && fires(#[trigger] all[i], input@, min, exact)
                    ==> evidence_fits(all[i]),
                new_locks@.len() == it.index(),
                forall|j: int| 0 <= j < it.index() ==> {
                    let before = #[trigger] all[j];
                    let after = new_locks@[j];
                    if fires(before, input@, min, exact) {
                        triggered_from(before, after)
                    } else {
                        after == before
                    }
                },
                checks@ == all.take(it.index()).filter(pred).map_values(|l: Lock| check_of(l)),
        {
            let ghost before = lock;
            let ghost idx = it.index();
            let mut lock = lock;
            let fired = lock.is_active(self.min_strength)
                && self.pattern_matches_input(&lock.trigger_pattern, &input_chars);
            if fired {
                lock.trigger();
                let strength = lock.effective_strength();
                checks.push(LockCheck {
                    lock_id: lock.id,
                    triggered: true,
                    description: lock.description.clone(),
                    enforcement: lock.enforcement.clone(),
                    effective_strength: strength,
                });
            }
            new_locks.push(lock);
            proof {
                assert(before == all[idx]);
                assert(all.take(idx + 1) =~= all.take(idx).push(before));
                all.take(idx).lemma_filter_push(before, pred);
                assert(checks@ =~= all.take(idx + 1).filter(pred).map_values(|l: Lock| check_of(l)));
            }
        }
        proof {
            assert(all.take(all.len() as int) =~= all);
            assert forall|a: int, b: int| 0 <= a < new_locks@.len() && 0 <= b < new_locks@.len() && a != b
                implies #[trigger] new_locks@[a].id != #[trigger] new_locks@[b].id by {
                assert(all[a].id != all[b].id);
            }
        }
        self.locks = new_locks;
        sort_by_strength(checks)
    }

    /// Verify a lock was correct (increases strength). Returns whether a lock
    /// with that identifier exists.
    pub fn verify(&mut self, id: u64) -> (res: bool)
        requires
            has_id(old(self)@.locks, id) ==> old(self)@.locks[index_of_id(old(self)@.locks, id)].verifications < u32::MAX,
        ensures
            res == has_id(old(self)@.locks, id),
            final(self)@.locks == if res {
                old(self)@.locks.update(
                    index_of_id(old(self)@.locks, id),
                    verified(old(self)@.locks[index_of_id(old(self)@.locks, id)]),
                )
            } else {
                old(self)@.locks
            },
            final(self)@.min_strength == old(self)@.min_strength,
            final(self)@.exact_match == old(self)@.exact_match,
    {
        proof {
            use_type_invariant(&*self);
        }
        match self.find(id) {
            Some(i) => {
                let ghost o = self.locks@;
                let mut locks = Vec::new();
                std::mem::swap(&mut locks, &mut self.locks);
                locks[i].verify();
                proof {
                    assert forall|a: int, b: int| 0 <= a < locks@.len() && 0 <= b < locks@.len() && a != b
                        implies #[trigger] locks@[a].id != #[trigger] locks@[b].id by {
                        assert(o[a].id != o[b].id);
                    }
                }
                self.locks = locks;
                true
            },
            None => false,
        }
    }

    /// Violate a lock (decreases strength, potential decay to inactive).
    /// Returns whether a lock with that identifier exists.
    pub fn violate(&mut self, id: u64) -> (res: bool)
        requires
            has_id(old(self)@.locks, id) ==> old(self)@.locks[index_of_id(old(self)@.locks, id)].violations < u32::MAX,
        ensures
            res == has_id(old(self)@.locks, id),
            final(self)@.locks == if res {
                old(self)@.locks.update(
                    index_of_id(old(self)@.locks, id),
                    violated(old(self)@.locks[index_of_id(old(self)@.locks, id)]),
                )
            } else {
                old(self)@.locks
            },
            final(self)@.min_strength == old(self)@.min_strength,
            final(self)@.exact_match == old(self)@.exact_match,
    {
        proof {
            use_type_invariant(&*self);
        }
        match self.find(id) {
            Some(i) => {
                let ghost o = self.locks@;
                let mut locks = Vec::new();
                std::mem::swap(&mut locks, &mut self.locks);
                locks[i].violate();
                proof {
                    assert forall|a: int, b: int| 0 <= a < locks@.len() && 0 <= b < locks@.len() && a != b
                        implies #[trigger] locks@[a].id != #[trigger] locks@[b].id by {
                        assert(o[a].id != o[b].id);
                    }
                }
                self.locks = locks;
                true
            },
            None => false,
        }
    }

    /// Record an inconsistency between two outputs for the same input.
    /// Creates a lock that captures what was inconsistent, triggered by the
    /// input, and adds it. Returns its identifier.
    pub fn record_inconsistency(&mut self, input: &str, output_a: &str, output_b: &str) -> (res: u64)
        requires
            can_truncate(input@, INPUT_EXCERPT_BYTES as nat),
            can_truncate(output_a@, OUTPUT_EXCERPT_BYTES as nat),
            can_truncate(output_b@, OUTPUT_EXCERPT_BYTES as nat),
        ensures
            exists|lock: Lock| {
                &&& lock.id == res
                &&& is_new_lock(
                    lock,
                    inconsistency_description(input@),
                    input@,
                    inconsistency_enforcement(output_a@, output_b@),
                    LockSource::Inconsistency,
                )
                &&& final(self)@.locks == added(old(self)@.locks, lock)
            },
            final(self)@.min_strength == old(self)@.min_strength,
            final(self)@.exact_match == old(self)@.exact_match,
    {
        let a = truncate(output_a, OUTPUT_EXCERPT_BYTES);
        let b = truncate(output_b, OUTPUT_EXCERPT_BYTES);
        let mut enforcement = String::from_str("Lock: outputs differ for same input. A=\"");
        enforcement.append(a.as_str());
        enforcement.append("\" B=\"");
        enforcement.append(b.as_str());
        enforcement.append("\"");
        let mut description = String::from_str("Inconsistency lock for: ");
        let excerpt = truncate(input, INPUT_EXCERPT_BYTES);
        description.append(excerpt.as_str());
        let lock = Lock::new(description.as_str(), input, enforcement.as_str(), LockSource::Inconsistency);
        let ghost made = lock;
        let id = self.add(lock);
        assert(made.id == id);
        id
    }

    /// Record an observation: when `trigger` happened, `enforcement` was the
    /// correct response. Adds the lock, in the given category, and returns
    /// its identifier.
    pub fn record_observation(&mut self, trigger: &str, enforcement: &str, category: &str) -> (res: u64)
        requires
            can_truncate(enforcement@, ENFORCEMENT_EXCERPT_BYTES as nat),
        ensures
            exists|lock: Lock| {
                &&& lock.id == res
                &&& has_fresh_fields(
                    lock,
                    observation_description(enforcement@),
                    trigger@,
                    enforcement@,
                    LockSource::Observation,
                )
                &&& lock.category@ == category@
                &&& final(self)@.locks == added(old(self)@.locks, lock)
            },
            final(self)@.min_strength == old(self)@.min_strength,
            final(self)@.exact_match == old(self)@.exact_match,
    {
        let mut description = String::from_str("Observation: ");
        let excerpt = truncate(enforcement, ENFORCEMENT_EXCERPT_BYTES);
        description.append(excerpt.as_str());
        let lock = Lock::new(description.as_str(), trigger, enforcement, LockSource::Observation)
            .with_category(category);
        let ghost made = lock;
        let id = self.add(lock);
        assert(made.id == id);
        id
    }

    /// References to the locks that `sel` keeps, in order.
    fn select(&self, sel: &Selection, Ghost(pred): Ghost<spec_fn(Lock) -> bool>) -> (res: Vec<&Lock>)
        requires
            forall|l: Lock| #[trigger] pred(l) == selects(*sel, self@.min_strength, l),
        ensures
            res@.unref() == self@.locks.filter(pred),
    {
        let n = self.locks.len();
        let mut res: Vec<&Lock> = Vec::new();
        let mut i: usize = 0;
        while i < n
            invariant
                n == self.locks@.len(),
                i <= n,
                forall|l: Lock| #[trigger] pred(l) == selects(*sel, self@.min_strength, l),
                res@.unref() == self.locks@.take(i as int).filter(pred),
            decreases n - i,
        {
            let lock = &self.locks[i];
            let keep = match sel {
                Selection::Active => lock.is_active(self.min_strength),
                Selection::Inactive => !lock.is_active(self.min_strength),
                Selection::Category(c) => {
                    let lc = chars_of(lock.category.as_str());
                    chars_equal(&lc, c)
                },
                Selection::Source(src) => lock.source == *src,
            };
            if keep {
                res.push(lock);
            }
            proof {
                assert(keep == pred(self.locks@[i as int]));
                assert(self.locks@.take(i + 1) =~= self.locks@.take(i as int).push(self.locks@[i as int]));
                self.locks@.take(i as int).lemma_filter_push(self.locks@[i as int], pred);
                assert(res@.unref() =~= self.locks@.take(i + 1).filter(pred));
            }
            i += 1;
        }
        proof {
            assert(self.locks@.take(n as int) =~= self.locks@);
        }
        res
    }

    /// Get all active locks (strength at least the minimum), in order.
    pub fn active_locks(&self) -> (res: Vec<&Lock>)
        ensures
            res@.unref() == self@.locks.filter(|l: Lock| l.strength >= self@.min_strength),
    {
        self.select(&Selection::Active, Ghost(|l: Lock| l.strength >= self@.min_strength))
    }

    /// Get all inactive (decayed) locks, in order.
    pub fn inactive_locks(&self) -> (res: Vec<&Lock>)
        ensures
            res@.unref() == self@.locks.filter(|l: Lock| l.strength < self@.min_strength),
    {
        self.select(&Selection::Inactive, Ghost(|l: Lock| l.strength < self@.min_strength))
    }

    /// Get locks by category, in order.
    pub fn by_category(&self, category: &str) -> (res: Vec<&Lock>)
        ensures
            res@.unref() == self@.locks.filter(|l: Lock| l.category@ == category@),
    {
        let c = chars_of(category);
        self.select(&Selection::Category(c), Ghost(|l: Lock| l.category@ == category@))
    }

    /// Get locks by source, in order.
    pub fn by_source(&self, source: LockSource) -> (res: Vec<&Lock>)
        ensures
            res@.unref() == self@.locks.filter(|l: Lock| l.source == source),
    {
        self.select(&Selection::Source(source), Ghost(|l: Lock| l.source == source))
    }

    /// Prune inactive locks (below the minimum strength). Returns how many
    /// were removed.
    pub fn prune(&mut self) -> (res: usize)
        ensures
            final(self)@.locks == old(self)@.locks.filter(|l: Lock| l.strength >= old(self)@.min_strength),
            res == old(self)@.locks.len() - final(self)@.locks.len(),
            final(self)@.min_strength == old(self)@.min_strength,
            final(self)@.exact_match == old(self)@.exact_match,
    {
        proof {
            use_type_invariant(&*self);
        }
        let ghost min = self.min_strength;
        let ghost pred = |l: Lock| l.strength >= min;
        let before = self.locks.len();
        let mut old_locks: Vec<Lock> = Vec::new();
        std::mem::swap(&mut old_locks, &mut self.locks);
        let ghost all = old_locks@;
        let mut kept: Vec<Lock> = Vec::new();
        for lock in it: old_locks.into_iter()
            invariant
                it.seq() == all,
                pred == (|l: Lock| l.strength >= min),
                self.min_strength == min,
                kept@ == all.take(it.index()).filter(pred),
        {
            let ghost idx = it.index();
            let keep = lock.is_active(self.min_strength);
            if keep {
                kept.push(lock);
            }
            proof {
                assert(all.take(idx + 1) =~= all.take(idx).push(lock));
                all.take(idx).lemma_filter_push(lock, pred);
            }
        }
        proof {
            assert(all.take(all.len() as int) =~= all);
            lemma_filter_ids_unique(all, pred);
        }
        self.locks = kept;
        before - self.locks.len()
    }

    /// Get the strongest lock by effective strength; among equally strong
    /// locks, the last one.
    pub fn strongest(&self) -> (res: Option<&Lock>)
        requires
            self@.locks.len() >= 2 ==> forall|i: int| 0 <= i < self@.locks.len() ==> evidence_fits(#[trigger] self@.locks[i]),
        ensures
            res is None <==> self@.locks.len() == 0,
            res matches Some(l) ==> exists|i: int| {
                &&& 0 <= i < self@.locks.len()
                &&& #[trigger] self@.locks[i] == *l
                &&& forall|j: int| 0 <= j < self@.locks.len()
                    ==> effective_of(#[trigger] self@.locks[j]) <= effective_of(*l)
                &&& forall|j: int| i < j < self@.locks.len()
                    ==> effective_of(#[trigger] self@.locks[j]) < effective_of(*l)
            },
    {
        let n = self.locks.len();
        if n == 0 {
            return None;
        }
        if n == 1 {
            // A single lock is the strongest without any comparison.
            let only = &self.locks[0];
            assert(self@.locks[0] == *only);
            return Some(only);
        }
        let mut best: usize = 0;
        let mut best_strength = self.locks[0].effective_strength();
        let mut i: usize = 1;
        while i < n
            invariant
                n == self.locks@.len(),
                1 <= i <= n,
                best < i,
                forall|k: int| 0 <= k < n ==> evidence_fits(#[trigger] self.locks@[k]),
                best_strength == effective_of(self.locks@[best as int]),
                forall|j: int| 0 <= j < i ==> effective_of(#[trigger] self.locks@[j]) <= best_strength,
                forall|j: int| best < j < i ==> effective_of(#[trigger] self.locks@[j]) < best_strength,
            decreases n - i,
        {
            let e = self.locks[i].effective_strength();
            if e >= best_strength {
                best = i;
                best_strength = e;
            }
            i += 1;
        }
        let res = &self.locks[best];
        assert(self@.locks[best as int] == *res);
        Some(res)
    }

    /// Summary statistics: how many locks there are, how many are active or
    /// inactive, the totals of their counters, and their mean effective
    /// strength.
    pub fn stats(&self) -> (res: LockStats)
        requires
            forall|i: int| 0 <= i < self@.locks.len() ==> evidence_fits(#[trigger] self@.locks[i]),
            sum_verifications(self@.locks) <= u32::MAX,
            sum_violations(self@.locks) <= u32::MAX,
        ensures
            res.total == self@.locks.len(),
            res.active == self@.locks.filter(|l: Lock| l.strength >= self@.min_strength).len(),
            res.inactive == res.total - res.active,
            res.total_verifications == sum_verifications(self@.locks),
            res.total_violations == sum_violations(self@.locks),
            res.avg_effective_strength == mean_effective(self@.locks),
    {
        let listed = self.active_locks();
        let active = listed.len();
        let n = self.locks.len();
        proof {
            let p = |l: Lock| l.strength >= self@.min_strength;
            assert(listed@.unref().len() == listed@.len());
            self@.locks.lemma_filter_len(p);
        }
        let ghost all = self.locks@;
        let mut verifications: u128 = 0;
        let mut violations: u128 = 0;
        let mut effective: u128 = 0;
        let mut i: usize = 0;
        while i < n
            invariant
                n == all.len(),
                all == self.locks@,
                i <= n,
                forall|k: int| 0 <= k < n ==> evidence_fits(#[trigger] all[k]),
                verifications == sum_verifications(all.take(i as int)),
                violations == sum_violations(all.take(i as int)),
                effective == sum_effective(all.take(i as int)),
                verifications <= i * 0xffff_ffffu128,
                violations <= i * 0xffff_ffffu128,
                effective <= i * 0xffff_ffffu128,
            decreases n - i,
        {
            let lock = &self.locks[i];
            let e = lock.effective_strength();
            proof {
                assert(all.take(i + 1).drop_last() =~= all.take(i as int));
                assert(all.take(i + 1).last() == all[i as int]);
            }
            verifications = verifications + lock.verifications as u128;
            violations = violations + lock.violations as u128;
            effective = effective + e as u128;
            i += 1;
        }
        proof {
            assert(all.take(n as int) =~= all);
        }
        let avg: u32 = if n == 0 {
            0
        } else {
            let q = effective / (n as u128);
            proof {
                assert(q <= 0xffff_ffffu128) by (nonlinear_arith)
                    requires
                        q == effective / (n as u128),
                        effective <= n * 0xffff_ffffu128,
                        n > 0,
                ;
            }
            q as u32
        };
        LockStats {
            total: n,
            active,
            inactive: n - active,
            total_verifications: verifications as u32,
            total_violations: violations as u32,
            avg_effective_strength: avg,
        }
    }

    /// Total locks
    pub fn len(&self) -> (res: usize)
        ensures
            res == self@.locks.len(),
    {
        self.locks.len()
    }

    /// Whether there are no locks.
    pub fn is_empty(&self) -> (res: bool)
        ensures
            res == (self@.locks.len() == 0),
    {
        self.locks.len() == 0
    }
}

impl Default for LockAccumulator {
    fn default() -> (res: Self)
        ensures
            res@.locks == Seq::<Lock>::empty(),
            res@.min_strength == DEFAULT_MIN_STRENGTH,
            !res@.exact_match,
    {
        Self::new()
    }
}

} // verus!
