//! The token-id side of greedy text generation: turning token ids into the
//! batch tensor the model reads, cutting the running sequence down to the
//! model's context, appending the chosen tokens, and reading the ids back.
use vstd::prelude::*;

use candle_core::{Device, Error, Tensor};

use crate::tensor::{
    is_u32_matrix, matrix_rows, tensor_cat_columns, tensor_dim_last, tensor_dims,
    tensor_from_slice, tensor_holds_u32, tensor_narrow_last, tensor_squeeze_front, tensor_to_vec1_u32,
    tensor_u32_data, tensor_unsqueeze_front,
};

verus! {

/// How many of `seq_len` tokens the model sees with a context of
/// `context_size`: the last `min(seq_len, context_size)`.
pub open spec fn window_len(seq_len: nat, context_size: nat) -> nat {
    if seq_len < context_size {
        seq_len
    } else {
        context_size
    }
}

/// The last `window_len` tokens of every row.
pub open spec fn last_columns(rows: Seq<Seq<u32>>, seq_len: nat, context_size: nat) -> Seq<
    Seq<u32>,
> {
    rows.map_values(
        |row: Seq<u32>|
            row.subrange(seq_len - window_len(seq_len, context_size), seq_len as int),
    )
}

/// The token ids as a batch of one sequence: a `1 x n` matrix.
pub fn ids_to_tensor(ids: &[u32], device: &Device) -> (r: Result<Tensor, Error>)
    ensures
        r matches Ok(t) ==> {
            &&& is_u32_matrix(t)
            &&& tensor_dims(t) == seq![1usize, ids@.len() as usize]
            &&& matrix_rows(t) == seq![ids@]
        },
{
    let t = tensor_from_slice(ids, device)?;
    let batch = tensor_unsqueeze_front(&t);
    proof {
        if batch is Ok {
            let b = batch->Ok_0;
            assert(ids@.len() == ids.len());
            assert(tensor_u32_data(b).subrange(0, ids@.len() as int) =~= ids@);
            assert(matrix_rows(b) =~= seq![ids@]);
        }
    }
    batch
}

/// Whether dropping a leading dimension of size one leaves one dimension:
/// a batch of one sequence, or a sequence whose length is not one.
pub open spec fn squeezes_to_vector(dims: Seq<usize>) -> bool {
    ||| dims.len() == 2 && dims[0] == 1
    ||| dims.len() == 1 && dims[0] != 1
}

/// The token ids of a batch of one sequence (a one-dimensional tensor is
/// read as it is). Anything else fails; copying the ids off the device may
/// fail as well.
pub fn tensor_to_ids(out: &Tensor) -> (r: Result<Vec<u32>, Error>)
    ensures
        !squeezes_to_vector(tensor_dims(*out)) ==> r is Err,
        !tensor_holds_u32(*out) ==> r is Err,
        r matches Ok(ids) ==> ids@ == tensor_u32_data(*out),
        r matches Ok(ids) ==> (is_u32_matrix(*out) ==> tensor_dims(*out)[0] == 1 && ids@
            == matrix_rows(*out)[0]),
{
    let row = tensor_squeeze_front(out)?;
    let ids = tensor_to_vec1_u32(&row);
    proof {
        if ids is Ok {
            let v = ids->Ok_0;
            if is_u32_matrix(*out) {
                let w = tensor_dims(*out)[1] as int;
                assert(tensor_u32_data(*out).subrange(0, w) =~= tensor_u32_data(*out));
            }
        }
    }
    ids
}

/// The part of the running sequences the model conditions on: the last
/// `context_size` tokens of every row, or all of them when there are fewer.
pub fn context_window(idx: &Tensor, context_size: usize) -> (r: Result<Tensor, Error>)
    ensures
        r is Ok <==> tensor_dims(*idx).len() >= 1,
        r matches Ok(w) ==> (is_u32_matrix(*idx) ==> {
            let seq_len = tensor_dims(*idx)[1] as nat;
            &&& is_u32_matrix(w)
            &&& tensor_dims(w) == seq![
                tensor_dims(*idx)[0],
                window_len(seq_len, context_size as nat) as usize,
            ]
            &&& matrix_rows(w) == last_columns(matrix_rows(*idx), seq_len, context_size as nat)
        }),
        r matches Ok(w) ==> (is_u32_matrix(*idx) ==> {
            let seq_len = tensor_dims(*idx)[1] as int;
            let keep = if seq_len < context_size {
                seq_len
            } else {
                context_size as int
            };
            forall|i: int, j: int|
                0 <= i < tensor_dims(*idx)[0] && 0 <= j < keep ==> #[trigger] matrix_rows(w)[i][j]
                    == matrix_rows(*idx)[i][seq_len - keep + j]
        }),
{
    let seq_len = tensor_dim_last(idx)?;
    let start = seq_len.saturating_sub(context_size);
    let w = tensor_narrow_last(idx, start, seq_len - start);
    proof {
        if w is Ok {
            let t = w->Ok_0;
            if is_u32_matrix(*idx) {
                assert(matrix_rows(t) =~= last_columns(
                    matrix_rows(*idx),
                    seq_len as nat,
                    context_size as nat,
                ));
                lemma_matrix_row_lengths(*idx);
                lemma_window_keeps_last_tokens(
                    matrix_rows(*idx),
                    seq_len as nat,
                    context_size as nat,
                );
            }
        }
    }
    w
}

/// The running sequences with the chosen next token of every row appended.
pub fn append_next_token(idx: &Tensor, next: &Tensor) -> (r: Result<Tensor, Error>)
    ensures
        r matches Ok(c) ==> (is_u32_matrix(*idx) && is_u32_matrix(*next) && tensor_dims(*next)[1]
            == 1 ==> {
            &&& tensor_dims(*idx)[0] == tensor_dims(*next)[0]
            &&& is_u32_matrix(c)
            &&& tensor_dims(c) == seq![tensor_dims(*idx)[0], (tensor_dims(*idx)[1] + 1) as usize]
            &&& matrix_rows(c) == Seq::new(
                tensor_dims(*idx)[0] as nat,
                |i: int| matrix_rows(*idx)[i].push(matrix_rows(*next)[i][0]),
            )
        }),
{
    let c = tensor_cat_columns(idx, next);
    proof {
        if c is Ok {
            let t = c->Ok_0;
            if is_u32_matrix(*idx) && is_u32_matrix(*next) && tensor_dims(*next)[1] == 1 {
                assert forall|i: int| 0 <= i < tensor_dims(*idx)[0] implies #[trigger] matrix_rows(
                    t,
                )[i] =~= matrix_rows(*idx)[i].push(matrix_rows(*next)[i][0]) by {
                    assert(matrix_rows(*next)[i] =~= seq![matrix_rows(*next)[i][0]]);
                }
                assert(matrix_rows(t) =~= Seq::new(
                    tensor_dims(*idx)[0] as nat,
                    |i: int| matrix_rows(*idx)[i].push(matrix_rows(*next)[i][0]),
                ));
            }
        }
    }
    c
}

/// The window never exceeds the context, and sequences no longer than the
/// context are given to the model whole.
pub proof fn lemma_context_window_bounds(rows: Seq<Seq<u32>>, seq_len: nat, context_size: nat)
    requires
        forall|i: int| 0 <= i < rows.len() ==> #[trigger] rows[i].len() == seq_len,
    ensures
        window_len(seq_len, context_size) <= context_size,
        window_len(seq_len, context_size) <= seq_len,
        seq_len <= context_size ==> last_columns(rows, seq_len, context_size) == rows,
{
    if seq_len <= context_size {
        assert forall|i: int| 0 <= i < rows.len() implies #[trigger] last_columns(
            rows,
            seq_len,
            context_size,
        )[i] == rows[i] by {
            assert(rows[i].subrange(0, seq_len as int) =~= rows[i]);
        }
        assert(last_columns(rows, seq_len, context_size) =~= rows);
    }
}

/// Every row of a `u32` matrix has as many elements as the matrix has
/// columns.
pub proof fn lemma_matrix_row_lengths(t: Tensor)
    requires
        is_u32_matrix(t),
    ensures
        forall|i: int|
            0 <= i < tensor_dims(t)[0] ==> #[trigger] matrix_rows(t)[i].len() == tensor_dims(t)[1],
{
    let h = tensor_dims(t)[0] as int;
    let w = tensor_dims(t)[1] as int;
    assert forall|i: int| 0 <= i < h implies #[trigger] matrix_rows(t)[i].len() == w by {
        assert(i * w + w <= h * w) by (nonlinear_arith)
            requires
                0 <= i < h,
                w >= 0,
        ;
        assert(0 <= i * w) by (nonlinear_arith)
            requires
                0 <= i,
                w >= 0,
        ;
    }
}

/// The window keeps the end of every sequence: its rows are
/// `min(seq_len, context_size)` tokens long, token `j` of a window row is
/// token `seq_len - keep + j` of the sequence, and (for a nonempty window)
/// the window's last token is the sequence's last token.
pub proof fn lemma_window_keeps_last_tokens(rows: Seq<Seq<u32>>, seq_len: nat, context_size: nat)
    requires
        forall|i: int| 0 <= i < rows.len() ==> #[trigger] rows[i].len() == seq_len,
    ensures
        ({
            let keep = if seq_len < context_size {
                seq_len as int
            } else {
                context_size as int
            };
            let w = last_columns(rows, seq_len, context_size);
            &&& w.len() == rows.len()
            &&& forall|i: int| 0 <= i < rows.len() ==> #[trigger] w[i].len() == keep
            &&& forall|i: int, j: int|
                0 <= i < rows.len() && 0 <= j < keep ==> #[trigger] w[i][j] == rows[i][seq_len
                    - keep + j]
            &&& keep > 0 ==> forall|i: int|
                0 <= i < rows.len() ==> #[trigger] w[i].last() == rows[i].last()
        }),
{
    let keep = if seq_len < context_size {
        seq_len as int
    } else {
        context_size as int
    };
    let w = last_columns(rows, seq_len, context_size);
    assert forall|i: int| 0 <= i < rows.len() implies #[trigger] w[i].len() == keep by {
        assert(rows[i].len() == seq_len);
    }
    assert forall|i: int, j: int| 0 <= i < rows.len() && 0 <= j < keep implies #[trigger] w[i][j]
        == rows[i][seq_len - keep + j] by {
        assert(rows[i].len() == seq_len);
    }
    if keep > 0 {
        assert forall|i: int| 0 <= i < rows.len() implies #[trigger] w[i].last() == rows[
            i
        ].last() by {
            assert(rows[i].len() == seq_len);
            assert(w[i].len() == keep);
            assert(w[i][keep - 1] == rows[i][seq_len - keep + (keep - 1)]);
        }
    }
}

} // verus!
