//! The `candle_core` items that the library calls, with the contracts it
//! relies on.
//!
//! A tensor is described by three names: its dimensions, whether its
//! element type is `u32`, and (for a `u32` tensor) its elements in row-major
//! order, as `flatten_all` followed by `to_vec1` would return them.
//!
//! The elements are those the tensor holds when the library reads it:
//! candle can write a tensor's storage in place through a shared reference
//! (`const_set`, `zero_set`, `one_set`, `slice_set`, `Var::set`), so they are
//! not fixed for the tensor's lifetime. The library never makes those calls
//! and keeps no tensor from one call to the next: each contract speaks of
//! tensors during one call, and the data loader keeps its windows as token
//! ids and builds new tensors for every batch.
use vstd::prelude::*;

use candle_core::{Device, Error, Tensor, D};
use rand::seq::SliceRandom;

verus! {

#[verifier::external_type_specification]
#[verifier::external_body]
pub struct ExTensor(candle_core::Tensor);

#[verifier::external_type_specification]
#[verifier::external_body]
pub struct ExDevice(candle_core::Device);

#[verifier::external_type_specification]
#[verifier::external_body]
pub struct ExError(candle_core::Error);

/// The dimensions of a tensor (`Tensor::dims`).
pub uninterp spec fn tensor_dims(t: Tensor) -> Seq<usize>;

/// Whether the element type of a tensor is `DType::U32`.
pub uninterp spec fn tensor_holds_u32(t: Tensor) -> bool;

/// The elements of a `u32` tensor in row-major order.
pub uninterp spec fn tensor_u32_data(t: Tensor) -> Seq<u32>;

/// `n` rows of `w` consecutive elements of `data`.
pub open spec fn rows_of(data: Seq<u32>, n: nat, w: nat) -> Seq<Seq<u32>> {
    Seq::new(n, |i: int| data.subrange(i * w, i * w + w))
}

/// A two-dimensional tensor of `u32` whose element count matches its shape.
pub open spec fn is_u32_matrix(t: Tensor) -> bool {
    &&& tensor_holds_u32(t)
    &&& tensor_dims(t).len() == 2
    &&& tensor_u32_data(t).len() == tensor_dims(t)[0] * tensor_dims(t)[1]
}

/// The rows of a two-dimensional `u32` tensor.
pub open spec fn matrix_rows(t: Tensor) -> Seq<Seq<u32>> {
    rows_of(tensor_u32_data(t), tensor_dims(t)[0] as nat, tensor_dims(t)[1] as nat)
}

/// The views of a vector of rows.
pub open spec fn rows_view(rows: Seq<Vec<u32>>) -> Seq<Seq<u32>> {
    rows.map_values(|row: Vec<u32>| row@)
}

/// Whether every row of `rows` has `w` elements.
pub open spec fn all_rows_len(rows: Seq<Seq<u32>>, w: nat) -> bool {
    forall|i: int| 0 <= i < rows.len() ==> #[trigger] rows[i].len() == w
}

/// `Tensor::new` on a vector of rows: it fails on an empty vector and on
/// rows of different lengths; otherwise it makes a new tensor holding the
/// matrix of the rows. Whether the device accepts the allocation is left
/// open.
#[verifier::external_body]
pub(crate) fn tensor_from_rows(rows: Vec<Vec<u32>>, device: &Device) -> (r: Result<Tensor, Error>)
    ensures
        rows.len() == 0 ==> r is Err,
        !all_rows_len(rows_view(rows@), rows@[0]@.len()) ==> r is Err,
        r matches Ok(t) ==> {
            &&& is_u32_matrix(t)
            &&& tensor_dims(t) == seq![rows.len(), rows@[0]@.len() as usize]
            &&& matrix_rows(t) == rows_view(rows@)
        },
{
    Tensor::new(rows, device)
}

/// `Tensor::new` on a slice: a one-dimensional `u32` tensor holding the
/// slice. Whether the device accepts the allocation is left open.
#[verifier::external_body]
pub(crate) fn tensor_from_slice(values: &[u32], device: &Device) -> (r: Result<Tensor, Error>)
    ensures
        r matches Ok(t) ==> {
            &&& tensor_holds_u32(t)
            &&& tensor_dims(t) == seq![values@.len() as usize]
            &&& tensor_u32_data(t) == values@
        },
{
    Tensor::new(values, device)
}

/// `Tensor::dim(D::Minus1)`: the size of the last dimension, and an error
/// exactly when the tensor has no dimension.
#[verifier::external_body]
pub(crate) fn tensor_dim_last(t: &Tensor) -> (r: Result<usize, Error>)
    ensures
        r is Ok <==> tensor_dims(*t).len() >= 1,
        r matches Ok(d) ==> d == tensor_dims(*t).last(),
{
    t.dim(D::Minus1)
}

/// `Tensor::narrow(D::Minus1, start, len)`: keeps the columns
/// `start .. start + len` of the last dimension. It only changes the
/// layout, so it fails exactly when the columns run past that dimension (or
/// there is none); the element type is kept.
#[verifier::external_body]
pub(crate) fn tensor_narrow_last(t: &Tensor, start: usize, len: usize) -> (r: Result<Tensor, Error>)
    ensures
        tensor_dims(*t).len() == 0 ==> r is Err,
        tensor_dims(*t).len() >= 1 ==> (r is Ok <==> start + len <= tensor_dims(*t).last()),
        r matches Ok(n) ==> {
            &&& tensor_dims(n) == tensor_dims(*t).update(tensor_dims(*t).len() - 1, len)
            &&& tensor_holds_u32(n) == tensor_holds_u32(*t)
            &&& is_u32_matrix(*t) ==> is_u32_matrix(n) && matrix_rows(n) == matrix_rows(
                *t,
            ).map_values(|row: Seq<u32>| row.subrange(start as int, start + len))
        },
{
    t.narrow(D::Minus1, start, len)
}

/// `Tensor::cat(&[a, b], 1)`: joins two matrices side by side; it fails
/// unless they have the same number of rows and element type.
#[verifier::external_body]
pub(crate) fn tensor_cat_columns(a: &Tensor, b: &Tensor) -> (r: Result<Tensor, Error>)
    ensures
        r matches Ok(c) ==> (is_u32_matrix(*a) && is_u32_matrix(*b) ==> {
            &&& tensor_dims(*a)[0] == tensor_dims(*b)[0]
            &&& is_u32_matrix(c)
            &&& tensor_dims(c) == seq![
                tensor_dims(*a)[0],
                (tensor_dims(*a)[1] + tensor_dims(*b)[1]) as usize,
            ]
            &&& matrix_rows(c) == Seq::new(
                tensor_dims(*a)[0] as nat,
                |i: int| matrix_rows(*a)[i] + matrix_rows(*b)[i],
            )
        }),
{
    Tensor::cat(&[a, b], 1)
}

/// `Tensor::unsqueeze(0)`: a new leading dimension of size one, the same
/// elements; it cannot fail.
#[verifier::external_body]
pub(crate) fn tensor_unsqueeze_front(t: &Tensor) -> (r: Result<Tensor, Error>)
    ensures
        r is Ok,
        r matches Ok(u) ==> {
            &&& tensor_dims(u) == seq![1usize] + tensor_dims(*t)
            &&& tensor_holds_u32(u) == tensor_holds_u32(*t)
            &&& tensor_u32_data(u) == tensor_u32_data(*t)
        },
{
    t.unsqueeze(0)
}

/// `Tensor::squeeze(0)`: drops a leading dimension of size one and keeps
/// the tensor as it is otherwise; it fails on a tensor without dimensions.
#[verifier::external_body]
pub(crate) fn tensor_squeeze_front(t: &Tensor) -> (r: Result<Tensor, Error>)
    ensures
        r is Ok <==> tensor_dims(*t).len() >= 1,
        r matches Ok(s) ==> {
            &&& tensor_dims(s) == (if tensor_dims(*t)[0] == 1 {
                tensor_dims(*t).drop_first()
            } else {
                tensor_dims(*t)
            })
            &&& tensor_holds_u32(s) == tensor_holds_u32(*t)
            &&& tensor_u32_data(s) == tensor_u32_data(*t)
        },
{
    t.squeeze(0)
}

/// `Tensor::to_vec1::<u32>`: the elements of a one-dimensional `u32`
/// tensor; it fails on any other rank or element type. Copying the
/// elements off a device may fail as well, which is left open.
#[verifier::external_body]
pub(crate) fn tensor_to_vec1_u32(t: &Tensor) -> (r: Result<Vec<u32>, Error>)
    ensures
        tensor_dims(*t).len() != 1 ==> r is Err,
        !tensor_holds_u32(*t) ==> r is Err,
        r matches Ok(v) ==> tensor_holds_u32(*t) && v@ == tensor_u32_data(*t),
{
    t.to_vec1::<u32>()
}

/// `Device::clone`: nothing is stated of the copy.
#[verifier::external_body]
pub(crate) fn device_clone(d: &Device) -> Device {
    d.clone()
}

/// `SliceRandom::shuffle` with the thread-local generator `rand::rng()`:
/// the order is random, the multiset of elements is kept.
#[verifier::external_body]
pub(crate) fn shuffle_in_place(v: &mut Vec<usize>)
    ensures
        final(v)@.to_multiset() == old(v)@.to_multiset(),
{
    v.shuffle(&mut rand::rng());
}

} // verus!
