//! The score of a replay against the targets of an instance.

use vstd::prelude::*;
use crate::input::{Input, InputView};
use crate::output::Output;
use crate::simulate::{
    as_nats, lemma_count_conservation, lemma_run_in_table, lemma_total_take, run, simulate, total,
    valid_table,
};

verus! {

/// The distance between two numbers.
pub open spec fn distance(a: nat, b: nat) -> nat {
    if a >= b {
        (a - b) as nat
    } else {
        (b - a) as nat
    }
}

/// The sum of the distances between counts and targets over the first `k`
/// positions.
pub open spec fn penalty_upto(counts: Seq<nat>, targets: Seq<nat>, k: nat) -> nat
    decreases k,
{
    if k == 0 {
        0
    } else {
        penalty_upto(counts, targets, (k - 1) as nat) + distance(counts[k - 1], targets[k - 1])
    }
}

/// The sum of the distances between counts and targets over all positions.
pub open spec fn penalty(counts: Seq<nat>, targets: Seq<nat>) -> nat {
    penalty_upto(counts, targets, counts.len())
}

/// The score of given visit counts: twice the number of steps, less the
/// penalty.
pub open spec fn score_of_counts(l: nat, counts: Seq<nat>, targets: Seq<nat>) -> int {
    2 * l - penalty(counts, targets)
}

/// The score of a successor table on an instance: that of the visit counts
/// which its replay over `l` steps leaves behind.
pub open spec fn score_of(input: InputView, table: Seq<(usize, usize)>) -> int {
    score_of_counts(input.l as nat, run(table, input.l as nat).visit_counts, as_nats(input.t))
}

/// The scores of an instance fit the machine's signed 64-bit integers: twice
/// the number of steps does, and so does the sum of the targets.
pub open spec fn in_score_range(input: InputView) -> bool {
    2 * input.l <= i64::MAX && total(as_nats(input.t)) <= i64::MAX
}

/// The penalty over the first `k` positions is at most what counts and
/// targets add up to over these positions.
pub proof fn lemma_penalty_bound(counts: Seq<nat>, targets: Seq<nat>, k: nat)
    requires
        k <= counts.len(),
        k <= targets.len(),
    ensures
        penalty_upto(counts, targets, k) <= total(counts.take(k as int)) + total(
            targets.take(k as int),
        ),
    decreases k,
{
    if k > 0 {
        lemma_penalty_bound(counts, targets, (k - 1) as nat);
        lemma_total_take(counts, k - 1);
        lemma_total_take(targets, k - 1);
    }
}

/// Where counts and targets agree on the first `k` positions, nothing is
/// lost on them.
pub proof fn lemma_penalty_of_match(counts: Seq<nat>, targets: Seq<nat>, k: nat)
    requires
        k <= counts.len(),
        k <= targets.len(),
        forall|i: int| 0 <= i < k ==> counts[i] == targets[i],
    ensures
        penalty_upto(counts, targets, k) == 0,
    decreases k,
{
    if k > 0 {
        lemma_penalty_of_match(counts, targets, (k - 1) as nat);
    }
}

/// Score bound: on an instance whose targets sum to `l`, the score of any
/// valid table lies between `-2 * l` and `2 * l` (and is in fact never
/// negative); a table whose replay meets every target exactly scores
/// `2 * l`.
pub proof fn lemma_score_bound(input: InputView, table: Seq<(usize, usize)>)
    requires
        input.wf(),
        table.len() == input.n,
        valid_table(table),
        total(as_nats(input.t)) == input.l,
    ensures
        -2 * input.l <= score_of(input, table) <= 2 * input.l,
        0 <= score_of(input, table),
        run(table, input.l as nat).visit_counts == as_nats(input.t) ==> score_of(input, table) == 2
            * input.l,
{
    let l = input.l as nat;
    let counts = run(table, l).visit_counts;
    let targets = as_nats(input.t);
    lemma_run_in_table(table, l);
    lemma_count_conservation(table, l);
    lemma_penalty_bound(counts, targets, counts.len());
    assert(counts.take(counts.len() as int) =~= counts);
    assert(targets.take(counts.len() as int) =~= targets);
    if counts == targets {
        lemma_penalty_of_match(counts, targets, counts.len());
    }
}

/// The score of a table on any instance is at most `2 * l`, and at least
/// `l` less the sum of the targets.
pub proof fn lemma_score_range(input: InputView, table: Seq<(usize, usize)>)
    requires
        input.wf(),
        table.len() == input.n,
        valid_table(table),
    ensures
        input.l - total(as_nats(input.t)) <= score_of(input, table) <= 2 * input.l,
{
    let l = input.l as nat;
    let counts = run(table, l).visit_counts;
    let targets = as_nats(input.t);
    lemma_run_in_table(table, l);
    lemma_count_conservation(table, l);
    lemma_penalty_bound(counts, targets, counts.len());
    assert(counts.take(counts.len() as int) =~= counts);
    assert(targets.take(counts.len() as int) =~= targets);
}

/// Replays `out` on the instance and scores the visit counts:
/// `2 * l` less the sum over all positions of the distance between visit
/// count and target. The message that comes with the score is empty.
pub fn compute_score_details(input: &Input, out: &[(usize, usize)]) -> (r: (i64, String, ()))
    requires
        input@.wf(),
        out@.len() == input.n,
        valid_table(out@),
        in_score_range(input@),
    ensures
        r.0 == score_of(input@, out@),
        r.0 <= 2 * input.l,
        r.1@.len() == 0,
{
    proof {
        lemma_score_range(input@, out@);
    }
    let sim = simulate(out, input.l);
    let n = input.n;
    let ghost counts = as_nats(sim.visit_counts@);
    let ghost targets = as_nats(input.t@);
    let mut score: i64 = 2 * (input.l as i64);
    let mut i: usize = 0;
    while i < n
        invariant
            i <= n,
            n == input.n,
            input@.wf(),
            in_score_range(input@),
            counts == as_nats(sim.visit_counts@),
            targets == as_nats(input.t@),
            counts.len() == n,
            total(counts) == input.l,
            score == 2 * input.l - penalty_upto(counts, targets, i as nat),
        decreases n - i,
    {
        let c = sim.visit_counts[i];
        let t = input.t[i];
        proof {
            lemma_penalty_bound(counts, targets, (i + 1) as nat);
            lemma_total_take(counts, i + 1);
            lemma_total_take(targets, i + 1);
            assert(counts[i as int] == c);
            assert(targets[i as int] == t);
        }
        let diff: usize = if c >= t {
            c - t
        } else {
            t - c
        };
        score = score - diff as i64;
        i += 1;
    }
    (score, String::new(), ())
}

/// The score of a validated output on an instance, with the message that
/// comes with it. Scoring itself never fails, so the message is empty and
/// the score stands as computed.
pub fn compute_score(input: &Input, out: &Output) -> (r: (i64, String))
    requires
        input@.wf(),
        out@.len() == input.n,
        valid_table(out@),
        in_score_range(input@),
    ensures
        r.0 == score_of(input@, out@),
        r.0 <= 2 * input.l,
        r.1@.len() == 0,
{
    let (mut score, err, _) = compute_score_details(input, out.out.as_slice());
    if !err.as_str().is_empty() {
        score = 0;
    }
    (score, err)
}

/// Tells whether the scores of an instance fit the machine's signed 64-bit
/// integers.
pub fn fits_score_range(input: &Input) -> (b: bool)
    ensures
        b == in_score_range(input@),
{
    if input.l as u128 * 2 > i64::MAX as u128 {
        return false;
    }
    let ghost targets = as_nats(input.t@);
    let mut sum: u128 = 0;
    let mut i: usize = 0;
    while i < input.t.len()
        invariant
            i <= input.t.len(),
            targets == as_nats(input.t@),
            sum == total(targets.take(i as int)),
            sum <= i64::MAX,
        decreases input.t.len() - i,
    {
        proof {
            lemma_total_take(targets, i as int);
            lemma_total_take(targets, i + 1);
            assert(targets[i as int] == input.t@[i as int]);
        }
        sum = sum + input.t[i] as u128;
        if sum > i64::MAX as u128 {
            return false;
        }
        i += 1;
    }
    assert(targets.take(i as int) =~= targets);
    true
}

} // verus!
