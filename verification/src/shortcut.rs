//! The layer shapes of the example deep network with shortcut connections.
use vstd::prelude::*;

verus! {

/// The `(in, out)` sizes of the linear layers between consecutive entries
/// of `layer_sizes`, as `layer_sizes.windows(2)` gives them.
pub fn layer_pairs(layer_sizes: &Vec<usize>) -> (r: Vec<(usize, usize)>)
    ensures
        r.len() == if layer_sizes.len() == 0 {
            0
        } else {
            layer_sizes.len() - 1
        },
        forall|i: int|
            0 <= i < r.len() ==> #[trigger] r@[i] == (layer_sizes@[i], layer_sizes@[i + 1]),
{
    let mut pairs: Vec<(usize, usize)> = Vec::new();
    let mut i: usize = 1;
    while i < layer_sizes.len()
        invariant
            1 <= i,
            layer_sizes.len() == 0 ==> i == 1,
            layer_sizes.len() > 0 ==> i <= layer_sizes.len(),
            pairs.len() == i - 1,
            forall|j: int|
                0 <= j < pairs.len() ==> #[trigger] pairs@[j] == (
                    layer_sizes@[j],
                    layer_sizes@[j + 1],
                ),
        decreases layer_sizes.len() - i,
    {
        pairs.push((layer_sizes[i - 1], layer_sizes[i]));
        i = i + 1;
    }
    pairs
}

/// Each layer takes what the one before it gives: the output size of pair
/// `i` is the input size of pair `i + 1`.
pub proof fn lemma_layers_chain(layer_sizes: Seq<usize>, pairs: Seq<(usize, usize)>)
    requires
        pairs.len() == if layer_sizes.len() == 0 {
            0
        } else {
            layer_sizes.len() - 1
        },
        forall|i: int| 0 <= i < pairs.len() ==> #[trigger] pairs[i] == (layer_sizes[i], layer_sizes[i + 1]),
    ensures
        forall|i: int| 0 <= i < pairs.len() - 1 ==> #[trigger] pairs[i].1 == pairs[i + 1].0,
        pairs.len() > 0 ==> pairs[0].0 == layer_sizes[0] && pairs.last().1 == layer_sizes.last(),
{
    assert forall|i: int| 0 <= i < pairs.len() - 1 implies #[trigger] pairs[i].1 == pairs[i + 1].0 by {
        assert(pairs[i] == (layer_sizes[i], layer_sizes[i + 1]));
        assert(pairs[i + 1] == (layer_sizes[i + 1], layer_sizes[i + 2]));
    }
    if pairs.len() > 0 {
        assert(pairs[0] == (layer_sizes[0], layer_sizes[1]));
        let l = pairs.len() - 1;
        assert(pairs[l] == (layer_sizes[l], layer_sizes[l + 1]));
    }
}

} // verus!
