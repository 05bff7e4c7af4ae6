//! Random problem instances.

use rand::Rng;
use rand::SeedableRng;
use rand_chacha::ChaCha20Rng;
use vstd::prelude::*;
use crate::input::{Input, InputView};
use crate::simulate::{as_nats, lemma_total_take, total};

verus! {

/// The number of positions of a generated instance.
pub const GEN_N: usize = 100;

/// The number of steps of a generated instance.
pub const GEN_L: usize = 500000;

/// The largest target that is drawn.
pub const GEN_MAX_DRAW: usize = 10000;

/// The ChaCha generator with 20 rounds. Nothing of its state is visible
/// here but its history.
#[verifier::external_type_specification]
#[verifier::external_body]
pub struct ExChaCha20Rng(ChaCha20Rng);

/// The history of a generator: the seed it was made from, then the lower
/// and the upper bound of each draw made from it since, in order. A
/// generator has no other input, so its history determines its state.
pub uninterp spec fn history(rng: ChaCha20Rng) -> Seq<int>;

/// The number that a generator with the given history gives next when it is
/// asked for one in `low ..= high`.
pub uninterp spec fn drawn(history: Seq<int>, low: int, high: int) -> int;

/// `SeedableRng::seed_from_u64` for `ChaCha20Rng`: a new generator, made
/// from `seed` alone, from which nothing has been drawn.
#[verifier::external_body]
fn seeded(seed: u64) -> (rng: ChaCha20Rng)
    ensures
        history(rng) == seq![seed as int],
{
    ChaCha20Rng::seed_from_u64(seed)
}

/// `Rng::gen_range` on an inclusive range of `i32`: the next number of the
/// generator's stream for these bounds. It lies in `low ..= high`, and it is
/// the same whenever a generator with the same history is asked the same;
/// the draw is then part of the history. An empty range is left out, as
/// the call panics on it.
#[verifier::external_body]
fn draw(rng: &mut ChaCha20Rng, low: i32, high: i32) -> (v: i32)
    requires
        low <= high,
    ensures
        low <= v <= high,
        v == drawn(history(*old(rng)), low as int, high as int),
        history(*final(rng)) == history(*old(rng)).push(low as int).push(high as int),
{
    rng.gen_range(low..=high)
}

/// The history of a generator after `k` more draws of a target.
pub open spec fn after_draws(h: Seq<int>, k: nat) -> Seq<int>
    decreases k,
{
    if k == 0 {
        h
    } else {
        after_draws(h, (k - 1) as nat).push(0).push(GEN_MAX_DRAW as int)
    }
}

/// The next `k` targets that a generator with history `h` draws.
pub open spec fn draws_from(h: Seq<int>, k: nat) -> Seq<usize>
    decreases k,
{
    if k == 0 {
        Seq::empty()
    } else {
        draws_from(h, (k - 1) as nat).push(
            drawn(after_draws(h, (k - 1) as nat), 0, GEN_MAX_DRAW as int) as usize,
        )
    }
}

/// The instance that a generator with history `h` leads to within
/// `attempts` attempts: that of the first attempt whose draws are
/// acceptable, each attempt drawing on from where the one before ended.
pub open spec fn first_accepted(h: Seq<int>, attempts: nat) -> Option<InputView>
    decreases attempts,
{
    if attempts == 0 {
        None
    } else {
        let draws = draws_from(h, (GEN_N - 1) as nat);
        if acceptable(draws) {
            Some(completed(draws))
        } else {
            first_accepted(after_draws(h, (GEN_N - 1) as nat), (attempts - 1) as nat)
        }
    }
}

/// The instance that a seed leads to within `attempts` attempts.
pub open spec fn instance_of(seed: u64, attempts: u64) -> Option<InputView> {
    first_accepted(seq![seed as int], attempts as nat)
}

/// The draws can be completed to an instance: there is one for each
/// position but the last, and their sum leaves for the last position a
/// target that is not negative and not above the largest draw.
pub open spec fn acceptable(draws: Seq<usize>) -> bool {
    &&& draws.len() == GEN_N - 1
    &&& GEN_L - GEN_MAX_DRAW <= total(as_nats(draws)) <= GEN_L
}

/// The instance that acceptable draws are completed to: the last target
/// makes the sum of all targets equal to the number of steps.
pub open spec fn completed(draws: Seq<usize>) -> InputView {
    InputView {
        n: GEN_N,
        l: GEN_L,
        t: draws.push((GEN_L - total(as_nats(draws))) as usize),
    }
}

/// What holds of every generated instance: it has the fixed size and
/// number of steps, one target for each position, no target above the
/// largest draw, and targets that sum to the number of steps.
pub open spec fn generated(input: InputView) -> bool {
    &&& input.n == GEN_N
    &&& input.l == GEN_L
    &&& input.t.len() == GEN_N
    &&& forall|i: int| 0 <= i < input.t.len() ==> #[trigger] input.t[i] <= GEN_MAX_DRAW
    &&& total(as_nats(input.t)) == GEN_L
}

/// Completes the targets drawn for all positions but the last to an
/// instance, or rejects them.
pub fn complete_targets(draws: Vec<usize>) -> (r: Option<Input>)
    ensures
        r is Some <==> acceptable(draws@),
        r matches Some(input) ==> input@ == completed(draws@),
{
    if draws.len() != GEN_N - 1 {
        return None;
    }
    let ghost nats = as_nats(draws@);
    let mut sum: usize = 0;
    let mut i: usize = 0;
    while i < draws.len()
        invariant
            i <= draws.len(),
            nats == as_nats(draws@),
            sum == total(nats.take(i as int)),
            sum <= GEN_L,
        decreases draws.len() - i,
    {
        proof {
            lemma_total_take(nats, i as int);
            lemma_total_take(nats, i + 1);
            assert(nats[i as int] == draws@[i as int]);
        }
        if draws[i] > GEN_L - sum {
            return None;
        }
        sum = sum + draws[i];
        i += 1;
    }
    assert(nats.take(i as int) =~= nats);
    if sum < GEN_L - GEN_MAX_DRAW {
        return None;
    }
    let mut t = draws;
    t.push(GEN_L - sum);
    Some(Input { n: GEN_N, l: GEN_L, t })
}

/// An instance completed from acceptable draws that are none above the
/// largest draw is one of the generated kind.
pub proof fn lemma_completed_is_generated(draws: Seq<usize>)
    requires
        acceptable(draws),
        forall|i: int| 0 <= i < draws.len() ==> #[trigger] draws[i] <= GEN_MAX_DRAW,
    ensures
        generated(completed(draws)),
{
    let t = completed(draws).t;
    assert(as_nats(t).drop_last() =~= as_nats(draws));
}

/// Draws a target for each position but the last.
fn draw_targets(rng: &mut ChaCha20Rng) -> (draws: Vec<usize>)
    ensures
        draws@ == draws_from(history(*old(rng)), (GEN_N - 1) as nat),
        history(*final(rng)) == after_draws(history(*old(rng)), (GEN_N - 1) as nat),
        draws@.len() == GEN_N - 1,
        forall|i: int| 0 <= i < draws@.len() ==> #[trigger] draws@[i] <= GEN_MAX_DRAW,
{
    let ghost h = history(*rng);
    let mut draws: Vec<usize> = Vec::new();
    let mut i: usize = 0;
    while i < GEN_N - 1
        invariant
            i <= GEN_N - 1,
            draws@ == draws_from(h, i as nat),
            history(*rng) == after_draws(h, i as nat),
            draws@.len() == i,
            forall|k: int| 0 <= k < draws@.len() ==> #[trigger] draws@[k] <= GEN_MAX_DRAW,
        decreases GEN_N - 1 - i,
    {
        let v = draw(rng, 0, GEN_MAX_DRAW as i32);
        draws.push(v as usize);
        i += 1;
    }
    draws
}

/// Generates an instance from a seed: targets are drawn for all positions
/// but the last until they can be completed, at most `attempts` times.
///
/// The seed and the number of attempts determine what comes out: the
/// instance of the first attempt that is accepted, or `None` where every
/// attempt is rejected. An instance that comes out is of the generated
/// kind.
pub fn gen(seed: u64, attempts: u64) -> (r: Option<Input>)
    ensures
        match r {
            Some(input) => instance_of(seed, attempts) == Some(input@),
            None => instance_of(seed, attempts) is None,
        },
        r matches Some(input) ==> generated(input@),
        attempts == 0 ==> r is None,
{
    let mut rng = seeded(seed);
    let mut left: u64 = attempts;
    while left > 0
        invariant
            left <= attempts,
            instance_of(seed, attempts) == first_accepted(history(rng), left as nat),
        decreases left,
    {
        let draws = draw_targets(&mut rng);
        let ghost d = draws@;
        match complete_targets(draws) {
            Some(input) => {
                proof {
                    lemma_completed_is_generated(d);
                }
                return Some(input);
            },
            None => {},
        }
        left -= 1;
    }
    None
}

} // verus!
