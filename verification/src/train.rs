//! The bookkeeping of the simple training loop: the optimizer steps taken,
//! the tokens seen, and when to evaluate.
use vstd::prelude::*;

verus! {

/// `n.is_multiple_of(rhs)` for unsigned integers: zero is the only multiple
/// of zero.
pub open spec fn is_multiple_of(n: nat, rhs: nat) -> bool {
    if rhs == 0 {
        n == 0
    } else {
        n % rhs == 0
    }
}

/// How many of the steps `1..=steps` trigger an evaluation every
/// `eval_frequency` steps.
pub open spec fn evaluations(steps: nat, eval_frequency: nat) -> nat
    decreases steps,
{
    if steps == 0 {
        0
    } else {
        evaluations((steps - 1) as nat, eval_frequency) + if is_multiple_of(steps, eval_frequency) {
            1nat
        } else {
            0nat
        }
    }
}

pub struct TrainProgressView {
    pub global_step: nat,
    pub tokens_seen: nat,
}

/// Steps taken and tokens seen so far.
pub struct TrainProgress {
    global_step: usize,
    tokens_seen: usize,
}

impl View for TrainProgress {
    type V = TrainProgressView;

    closed spec fn view(&self) -> TrainProgressView {
        TrainProgressView {
            global_step: self.global_step as nat,
            tokens_seen: self.tokens_seen as nat,
        }
    }
}

impl TrainProgress {
    pub fn new() -> (r: Self)
        ensures
            r@ == (TrainProgressView { global_step: 0, tokens_seen: 0 }),
    {
        TrainProgress { global_step: 0, tokens_seen: 0 }
    }

    /// Counts one optimizer step on a batch of `batch_tokens` tokens and
    /// says whether the model is to be evaluated after it: when the new
    /// step count is a multiple of `eval_frequency`.
    pub fn record_batch(&mut self, batch_tokens: usize, eval_frequency: usize) -> (evaluate: bool)
        requires
            old(self)@.tokens_seen + batch_tokens <= usize::MAX,
            old(self)@.global_step < usize::MAX,
        ensures
            final(self)@.tokens_seen == old(self)@.tokens_seen + batch_tokens,
            final(self)@.global_step == old(self)@.global_step + 1,
            evaluate == is_multiple_of(final(self)@.global_step, eval_frequency as nat),
    {
        self.tokens_seen = self.tokens_seen + batch_tokens;
        self.global_step = self.global_step + 1;
        if eval_frequency == 0 {
            self.global_step == 0
        } else {
            self.global_step % eval_frequency == 0
        }
    }

    pub fn global_step(&self) -> (r: usize)
        ensures
            r == self@.global_step,
    {
        self.global_step
    }

    pub fn tokens_seen(&self) -> (r: usize)
        ensures
            r == self@.tokens_seen,
    {
        self.tokens_seen
    }
}

/// Over the first `steps` steps, evaluating every `eval_frequency` steps
/// happens `steps / eval_frequency` times, and never with a frequency of
/// zero.
pub proof fn lemma_evaluation_count(steps: nat, eval_frequency: nat)
    ensures
        eval_frequency > 0 ==> evaluations(steps, eval_frequency) == steps / eval_frequency,
        eval_frequency == 0 ==> evaluations(steps, eval_frequency) == 0,
    decreases steps,
{
    if steps > 0 {
        lemma_evaluation_count((steps - 1) as nat, eval_frequency);
        if eval_frequency > 0 {
            let f = eval_frequency as int;
            let k = steps as int;
            vstd::arithmetic::div_mod::lemma_fundamental_div_mod(k, f);
            let q = k / f;
            let r = k % f;
            assert(f * q == q * f) by (nonlinear_arith);
            assert((q - 1) * f == q * f - f) by (nonlinear_arith);
            if r == 0 {
                vstd::arithmetic::div_mod::lemma_fundamental_div_mod_converse(k - 1, f, q - 1, f - 1);
            } else {
                vstd::arithmetic::div_mod::lemma_fundamental_div_mod_converse(k - 1, f, q, r - 1);
            }
        }
    }
}

} // verus!
