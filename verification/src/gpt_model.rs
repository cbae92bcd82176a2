//! Parameter counts: of a linear layer, of a list of parts, and of the GPT
//! model split by part.
use vstd::prelude::*;

verus! {

/// Parameter counts by part, their total, and the total when the output
/// head shares its weights with the token embedding.
pub struct ParameterReport {
    pub token_emb: usize,
    pub pos_emb: usize,
    pub transformer_blocks: usize,
    pub final_norm: usize,
    pub out_weight: usize,
    pub out_bias: usize,
    pub total: usize,
    pub total_weight_tied: usize,
}

/// Sums the parts; the weight-tied total leaves out the output head.
pub fn parameter_report(
    token_emb: usize,
    pos_emb: usize,
    transformer_blocks: usize,
    final_norm: usize,
    out_weight: usize,
    out_bias: usize,
) -> (r: ParameterReport)
    requires
        token_emb + pos_emb + transformer_blocks + final_norm + out_weight + out_bias <= usize::MAX,
    ensures
        r.token_emb == token_emb,
        r.pos_emb == pos_emb,
        r.transformer_blocks == transformer_blocks,
        r.final_norm == final_norm,
        r.out_weight == out_weight,
        r.out_bias == out_bias,
        r.total == token_emb + pos_emb + transformer_blocks + final_norm + out_weight + out_bias,
        r.total_weight_tied == token_emb + pos_emb + transformer_blocks + final_norm,
{
    let total = token_emb + pos_emb + transformer_blocks + final_norm + out_weight + out_bias;
    let total_weight_tied = total - out_weight - out_bias;
    ParameterReport {
        token_emb,
        pos_emb,
        transformer_blocks,
        final_norm,
        out_weight,
        out_bias,
        total,
        total_weight_tied,
    }
}

/// The sum of the counts.
pub open spec fn sum_of(counts: Seq<usize>) -> int
    decreases counts.len(),
{
    if counts.len() == 0 {
        0
    } else {
        sum_of(counts.drop_last()) + counts.last()
    }
}

/// A prefix never sums to more than the whole.
proof fn lemma_prefix_sum_le(counts: Seq<usize>, i: int)
    requires
        0 <= i <= counts.len(),
    ensures
        0 <= sum_of(counts.take(i)) <= sum_of(counts),
    decreases counts.len(),
{
    if counts.len() > 0 {
        if i == counts.len() {
            assert(counts.take(i) =~= counts);
            lemma_prefix_sum_le(counts.drop_last(), i - 1);
            assert(counts.drop_last().take(i - 1) =~= counts.drop_last());
        } else {
            lemma_prefix_sum_le(counts.drop_last(), i);
            assert(counts.drop_last().take(i) =~= counts.take(i));
        }
    }
}

/// The parameters of a linear layer: its weights and its bias, if it has
/// one.
pub fn linear_parameters(weight: usize, bias: Option<usize>) -> (r: usize)
    requires
        bias matches Some(b) ==> weight + b <= usize::MAX,
    ensures
        r == weight + match bias {
            Some(b) => b,
            None => 0,
        },
{
    match bias {
        Some(b) => weight + b,
        None => weight,
    }
}

/// The total of the parameter counts of a model's parts.
pub fn sum_parameters(parts: &Vec<usize>) -> (r: usize)
    requires
        sum_of(parts@) <= usize::MAX,
    ensures
        r == sum_of(parts@),
{
    let mut total: usize = 0;
    let mut i: usize = 0;
    while i < parts.len()
        invariant
            i <= parts.len(),
            sum_of(parts@) <= usize::MAX,
            total == sum_of(parts@.take(i as int)),
        decreases parts.len() - i,
    {
        proof {
            lemma_prefix_sum_le(parts@, i + 1);
            assert(parts@.take(i + 1).drop_last() =~= parts@.take(i as int));
        }
        total = total + parts[i];
        i = i + 1;
    }
    proof {
        assert(parts@.take(i as int) =~= parts@);
    }
    total
}

/// Adding one more part adds its count to the sum, and the sum of no parts
/// is zero.
pub proof fn lemma_sum_of_push(counts: Seq<usize>, x: usize)
    ensures
        sum_of(Seq::<usize>::empty()) == 0,
        sum_of(counts.push(x)) == sum_of(counts) + x,
{
    assert(counts.push(x).drop_last() =~= counts);
}

/// The sum over two lists of parts laid end to end is the sum of their
/// sums.
pub proof fn lemma_sum_of_concat(a: Seq<usize>, b: Seq<usize>)
    ensures
        sum_of(a + b) == sum_of(a) + sum_of(b),
    decreases b.len(),
{
    if b.len() == 0 {
        assert(a + b =~= a);
    } else {
        lemma_sum_of_concat(a, b.drop_last());
        assert((a + b).drop_last() =~= a + b.drop_last());
        assert((a + b).last() == b.last());
    }
}

/// `n` parts of `x` parameters each hold `n * x` parameters.
pub proof fn lemma_sum_of_repeated(x: usize, n: nat)
    ensures
        sum_of(Seq::new(n, |i: int| x)) == n * x,
    decreases n,
{
    let s = Seq::new(n, |i: int| x);
    if n > 0 {
        let prev = Seq::new((n - 1) as nat, |i: int| x);
        lemma_sum_of_repeated(x, (n - 1) as nat);
        assert(s.drop_last() =~= prev);
        assert(s.last() == x);
        assert(sum_of(s) == sum_of(prev) + x);
        assert((n - 1) * x + x == n * x) by (nonlinear_arith);
    } else {
        assert(s.len() == 0);
    }
}

} // verus!
