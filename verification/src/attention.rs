//! The shape arithmetic of multi-head attention.
use vstd::prelude::*;

verus! {

/// The width of one attention head: the output width split evenly over
/// the heads. The attention layer refuses a width that does not split.
pub fn head_dims(dim_out: usize, num_heads: usize) -> (r: usize)
    requires
        num_heads > 0,
        dim_out % num_heads == 0,
    ensures
        r * num_heads == dim_out,
{
    let r = dim_out / num_heads;
    proof {
        vstd::arithmetic::div_mod::lemma_fundamental_div_mod(dim_out as int, num_heads as int);
        assert(r * num_heads == num_heads * r) by (nonlinear_arith);
    }
    r
}

} // verus!
