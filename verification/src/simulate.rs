//! The replay of a successor table: a deterministic automaton that counts
//! its visits.

use vstd::prelude::*;

verus! {

/// A successor table is valid when it has at least one position and each of
/// its entries names two positions of the table.
pub open spec fn valid_table(table: Seq<(usize, usize)>) -> bool {
    &&& table.len() >= 1
    &&& forall|i: int|
        0 <= i < table.len() ==> (#[trigger] table[i]).0 < table.len() && table[i].1 < table.len()
}

/// The state of the automaton: where it stands, and how often it has been at
/// each position.
pub struct SimState {
    pub position: nat,
    pub visit_counts: Seq<nat>,
}

/// The state before the first step: at position 0, nothing visited.
pub open spec fn initial_state(n: nat) -> SimState {
    SimState { position: 0, visit_counts: Seq::new(n, |i: int| 0nat) }
}

/// One step: the visit at the current position is counted, and the automaton
/// moves to the first successor if the new count is odd, to the second if it
/// is even.
pub open spec fn step(table: Seq<(usize, usize)>, s: SimState) -> SimState {
    let p = s.position as int;
    let count = s.visit_counts[p] + 1;
    SimState {
        position: if count % 2 == 1 {
            table[p].0 as nat
        } else {
            table[p].1 as nat
        },
        visit_counts: s.visit_counts.update(p, count),
    }
}

/// The state after `steps` steps from the initial state.
pub open spec fn run(table: Seq<(usize, usize)>, steps: nat) -> SimState
    decreases steps,
{
    if steps == 0 {
        initial_state(table.len())
    } else {
        step(table, run(table, (steps - 1) as nat))
    }
}

/// The sum of a sequence of counts.
pub open spec fn total(counts: Seq<nat>) -> nat
    decreases counts.len(),
{
    if counts.len() == 0 {
        0
    } else {
        total(counts.drop_last()) + counts.last()
    }
}

/// The counts of a vector as natural numbers.
pub open spec fn as_nats(v: Seq<usize>) -> Seq<nat> {
    Seq::new(v.len(), |i: int| v[i] as nat)
}

/// What a replay leaves behind: the visit count of each position and the
/// position the automaton has come to.
#[derive(Clone, Debug, PartialEq, Eq)]
pub struct SimulationResult {
    pub visit_counts: Vec<usize>,
    pub final_position: usize,
}

impl View for SimulationResult {
    type V = SimState;

    open spec fn view(&self) -> SimState {
        SimState {
            position: self.final_position as nat,
            visit_counts: as_nats(self.visit_counts@),
        }
    }
}

/// Raising one entry of a sequence by one raises its sum by one.
pub proof fn lemma_total_update(counts: Seq<nat>, i: int)
    requires
        0 <= i < counts.len(),
    ensures
        total(counts.update(i, counts[i] + 1)) == total(counts) + 1,
    decreases counts.len(),
{
    let next = counts.update(i, counts[i] + 1);
    if i == counts.len() - 1 {
        assert(next.drop_last() =~= counts.drop_last());
    } else {
        lemma_total_update(counts.drop_last(), i);
        assert(next.drop_last() =~= counts.drop_last().update(i, counts[i] + 1));
    }
}

/// A sequence of zeros sums to zero.
pub proof fn lemma_total_zeros(n: nat)
    ensures
        total(Seq::new(n, |i: int| 0nat)) == 0,
    decreases n,
{
    if n > 0 {
        lemma_total_zeros((n - 1) as nat);
        assert(Seq::new(n, |i: int| 0nat).drop_last() =~= Seq::new((n - 1) as nat, |i: int| 0nat));
    }
}

/// The sum of the first `k` entries is at most the sum of all.
pub proof fn lemma_total_take(s: Seq<nat>, k: int)
    requires
        0 <= k <= s.len(),
    ensures
        total(s.take(k)) <= total(s),
        k < s.len() ==> total(s.take(k + 1)) == total(s.take(k)) + s[k],
    decreases s.len() - k,
{
    if k == s.len() {
        assert(s.take(k) =~= s);
    } else {
        assert(s.take(k + 1).drop_last() =~= s.take(k));
        lemma_total_take(s, k + 1);
    }
}

/// Every entry of a sequence is at most its sum.
pub proof fn lemma_total_bounds_entry(counts: Seq<nat>, i: int)
    requires
        0 <= i < counts.len(),
    ensures
        counts[i] <= total(counts),
    decreases counts.len(),
{
    if i < counts.len() - 1 {
        lemma_total_bounds_entry(counts.drop_last(), i);
    }
}

/// Every state of a replay of a valid table stands at a position of the
/// table and holds one count for each position.
pub proof fn lemma_run_in_table(table: Seq<(usize, usize)>, steps: nat)
    requires
        valid_table(table),
    ensures
        run(table, steps).position < table.len(),
        run(table, steps).visit_counts.len() == table.len(),
    decreases steps,
{
    if steps > 0 {
        lemma_run_in_table(table, (steps - 1) as nat);
    }
}

/// Count conservation: each step counts exactly one visit, so after `steps`
/// steps the visit counts sum to `steps`.
pub proof fn lemma_count_conservation(table: Seq<(usize, usize)>, steps: nat)
    requires
        valid_table(table),
    ensures
        total(run(table, steps).visit_counts) == steps,
    decreases steps,
{
    if steps == 0 {
        lemma_total_zeros(table.len());
    } else {
        let before = run(table, (steps - 1) as nat);
        lemma_count_conservation(table, (steps - 1) as nat);
        lemma_run_in_table(table, (steps - 1) as nat);
        lemma_total_update(before.visit_counts, before.position as int);
    }
}

/// Determinism: two results that each are what a replay of the same table
/// over the same number of steps leaves behind hold the same visit counts
/// and the same final position.
pub proof fn lemma_replay_deterministic(
    table: Seq<(usize, usize)>,
    steps: nat,
    first: SimulationResult,
    second: SimulationResult,
)
    requires
        first@ == run(table, steps),
        second@ == run(table, steps),
    ensures
        first.visit_counts@ == second.visit_counts@,
        first.final_position == second.final_position,
{
    let a = first.visit_counts@;
    let b = second.visit_counts@;
    assert(as_nats(a).len() == as_nats(b).len());
    assert forall|i: int| 0 <= i < a.len() implies a[i] == b[i] by {
        assert(as_nats(a)[i] == as_nats(b)[i]);
    }
    assert(a =~= b);
}

/// Tells whether a successor table is valid.
pub fn is_valid_table(table: &[(usize, usize)]) -> (b: bool)
    ensures
        b == valid_table(table@),
{
    let n = table.len();
    if n == 0 {
        return false;
    }
    let mut i: usize = 0;
    while i < n
        invariant
            i <= n,
            n == table@.len(),
            forall|k: int| 0 <= k < i ==> (#[trigger] table@[k]).0 < n && table@[k].1 < n,
        decreases n - i,
    {
        let (a, b) = table[i];
        if a >= n || b >= n {
            return false;
        }
        i += 1;
    }
    true
}

/// Replays `table` for `steps` steps from position 0.
///
/// The result is the state of the automaton after exactly that many steps;
/// its visit counts sum to `steps`.
pub fn simulate(table: &[(usize, usize)], steps: usize) -> (r: SimulationResult)
    requires
        valid_table(table@),
    ensures
        r@ == run(table@, steps as nat),
        r.visit_counts@.len() == table@.len(),
        forall|i: int|
            0 <= i < table@.len() ==> #[trigger] r.visit_counts@[i] == run(
                table@,
                steps as nat,
            ).visit_counts[i],
        r.final_position < table@.len(),
        total(as_nats(r.visit_counts@)) == steps,
{
    let n = table.len();
    let mut counts: Vec<usize> = Vec::new();
    let mut k: usize = 0;
    while k < n
        invariant
            k <= n,
            counts@.len() == k,
            forall|i: int| 0 <= i < k ==> counts@[i] == 0,
        decreases n - k,
    {
        counts.push(0);
        k += 1;
    }
    assert(as_nats(counts@) =~= initial_state(n as nat).visit_counts);
    let mut pos: usize = 0;
    let mut done: usize = 0;
    while done < steps
        invariant
            done <= steps,
            n == table@.len(),
            valid_table(table@),
            pos < n,
            counts@.len() == n,
            as_nats(counts@) == run(table@, done as nat).visit_counts,
            pos == run(table@, done as nat).position,
        decreases steps - done,
    {
        let (a, b) = table[pos];
        proof {
            lemma_count_conservation(table@, done as nat);
            lemma_total_bounds_entry(as_nats(counts@), pos as int);
            assert(as_nats(counts@)[pos as int] == counts@[pos as int]);
        }
        let ghost before = counts@;
        let c = counts[pos] + 1;
        counts.set(pos, c);
        assert(as_nats(counts@) =~= as_nats(before).update(pos as int, c as nat));
        if c % 2 == 1 {
            pos = a;
        } else {
            pos = b;
        }
        done += 1;
    }
    proof {
        lemma_count_conservation(table@, steps as nat);
    }
    SimulationResult { visit_counts: counts, final_position: pos }
}

} // verus!
