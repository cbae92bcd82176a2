//! The sliding-window dataset of token ids and the data loader that serves
//! it in batches.
use vstd::prelude::*;

use candle_core::{Device, Error, Tensor};

use vstd::seq_lib::to_multiset_len;

use crate::tensor::{
    all_rows_len, device_clone, is_u32_matrix, matrix_rows, rows_view, shuffle_in_place,
    tensor_dims, tensor_from_rows,
};

verus! {

/// Number of windows of `max_length` tokens (plus the one-token shifted
/// target) that start every `stride` tokens in a text of `len` tokens.
pub open spec fn num_windows(len: nat, max_length: nat, stride: nat) -> nat {
    ((len - max_length - 1) / (stride as int) + 1) as nat
}

/// The input windows: row `r` is the `max_length` tokens starting at
/// `r * stride`.
pub open spec fn input_windows(tokens: Seq<u32>, max_length: nat, stride: nat) -> Seq<Seq<u32>> {
    Seq::new(
        num_windows(tokens.len(), max_length, stride),
        |r: int| tokens.subrange(r * stride, r * stride + max_length),
    )
}

/// The target windows: row `r` is the input window `r` moved one token to
/// the right.
pub open spec fn target_windows(tokens: Seq<u32>, max_length: nat, stride: nat) -> Seq<Seq<u32>> {
    Seq::new(
        num_windows(tokens.len(), max_length, stride),
        |r: int| tokens.subrange(r * stride + 1, r * stride + max_length + 1),
    )
}

/// The windows exist when the text is longer than one window and the
/// stride is positive.
pub open spec fn windows_defined(tokens: Seq<u32>, max_length: nat, stride: nat) -> bool {
    tokens.len() > max_length && stride > 0
}

/// Every window start, plus the window and its shifted target, lies inside
/// the text.
pub proof fn lemma_window_in_bounds(len: nat, max_length: nat, stride: nat, r: nat)
    requires
        len > max_length,
        stride > 0,
        r < num_windows(len, max_length, stride),
    ensures
        r * stride + max_length + 1 <= len,
{
    let q = (len - max_length - 1) / (stride as int);
    assert(r <= q);
    assert(q * stride <= len - max_length - 1) by (nonlinear_arith)
        requires
            q == (len - max_length - 1) / (stride as int),
            stride > 0,
            len - max_length - 1 >= 0,
    ;
    assert(r * stride <= q * stride) by (nonlinear_arith)
        requires
            r <= q,
            stride > 0,
    ;
}

/// What a dataset holds.
pub struct DataSetView {
    pub tokens: Seq<u32>,
    pub max_length: nat,
    pub stride: nat,
}

pub struct GptDataSet {
    tokens: Vec<u32>,
    max_length: usize,
    stride: usize,
}

impl View for GptDataSet {
    type V = DataSetView;

    closed spec fn view(&self) -> DataSetView {
        DataSetView {
            tokens: self.tokens@,
            max_length: self.max_length as nat,
            stride: self.stride as nat,
        }
    }
}

/// A copy of `tokens[start..end]`.
fn copy_range(tokens: &Vec<u32>, start: usize, end: usize) -> (r: Vec<u32>)
    requires
        start <= end <= tokens.len(),
    ensures
        r@ == tokens@.subrange(start as int, end as int),
{
    vstd::slice::slice_to_vec(vstd::slice::slice_subrange(tokens.as_slice(), start, end))
}

impl GptDataSet {
    pub fn new(tokens: Vec<u32>, max_length: usize, stride: usize) -> (r: Self)
        ensures
            r@ == (DataSetView {
                tokens: tokens@,
                max_length: max_length as nat,
                stride: stride as nat,
            }),
    {
        Self { tokens, max_length, stride }
    }

    /// The input and target windows of the text as vectors of rows.
    pub fn input_target_rows(&self) -> (r: (Vec<Vec<u32>>, Vec<Vec<u32>>))
        requires
            windows_defined(self@.tokens, self@.max_length, self@.stride),
        ensures
            rows_view(r.0@) == input_windows(self@.tokens, self@.max_length, self@.stride),
            rows_view(r.1@) == target_windows(self@.tokens, self@.max_length, self@.stride),
            r.0@.len() == num_windows(self@.tokens.len(), self@.max_length, self@.stride),
            r.1@.len() == r.0@.len(),
            forall|i: int|
                0 <= i < r.0@.len() ==> #[trigger] r.0@[i]@.len() == self@.max_length
                    && r.1@[i]@.len() == self@.max_length,
            forall|i: int, j: int|
                0 <= i < r.0@.len() && 0 <= j < self@.max_length ==> #[trigger] r.0@[i]@[j]
                    == self@.tokens[i * self@.stride + j],
            forall|i: int, j: int|
                0 <= i < r.1@.len() && 0 <= j < self@.max_length ==> #[trigger] r.1@[i]@[j]
                    == self@.tokens[i * self@.stride + j + 1],
    {
        let ghost toks = self@.tokens;
        let ghost ml = self@.max_length;
        let ghost st = self@.stride;
        let num_rows = (self.tokens.len() - self.max_length - 1) / self.stride + 1;
        assert(num_rows == num_windows(toks.len(), ml, st));
        let mut inputs: Vec<Vec<u32>> = Vec::with_capacity(num_rows);
        let mut targets: Vec<Vec<u32>> = Vec::with_capacity(num_rows);
        let mut row: usize = 0;
        while row < num_rows
            invariant
                toks == self.tokens@,
                ml == self.max_length,
                st == self.stride,
                windows_defined(toks, ml, st),
                num_rows == num_windows(toks.len(), ml, st),
                row <= num_rows,
                rows_view(inputs@) == input_windows(toks, ml, st).take(row as int),
                rows_view(targets@) == target_windows(toks, ml, st).take(row as int),
            decreases num_rows - row,
        {
            proof {
                lemma_window_in_bounds(toks.len(), ml, st, row as nat);
                assert(toks.len() == self.tokens.len());
            }
            let start = row * self.stride;
            assert(start == (row as int) * (st as int));
            let input = copy_range(&self.tokens, start, start + self.max_length);
            let target = copy_range(&self.tokens, start + 1, start + self.max_length + 1);
            let ghost old_inputs = inputs@;
            let ghost old_targets = targets@;
            inputs.push(input);
            targets.push(target);
            proof {
                let iw = input_windows(toks, ml, st);
                let tw = target_windows(toks, ml, st);
                assert(input@ == iw[row as int]);
                assert(target@ == tw[row as int]);
                assert(rows_view(inputs@) =~= rows_view(old_inputs).push(input@));
                assert(rows_view(targets@) =~= rows_view(old_targets).push(target@));
                assert(iw.take(row + 1) =~= iw.take(row as int).push(iw[row as int]));
                assert(tw.take(row + 1) =~= tw.take(row as int).push(tw[row as int]));
            }
            row = row + 1;
        }
        proof {
            lemma_windows_are_text_slices(toks, ml, st);
            assert(rows_view(inputs@).len() == inputs@.len());
            assert(rows_view(targets@).len() == targets@.len());
            assert forall|i: int| 0 <= i < inputs@.len() implies #[trigger] inputs@[i]@
                == input_windows(toks, ml, st)[i] && targets@[i]@ == target_windows(
                toks,
                ml,
                st,
            )[i] by {
                assert(rows_view(inputs@)[i] == inputs@[i]@);
                assert(rows_view(targets@)[i] == targets@[i]@);
            }
            assert(input_windows(toks, ml, st).take(row as int) =~= input_windows(toks, ml, st));
            assert(target_windows(toks, ml, st).take(row as int) =~= target_windows(
                toks,
                ml,
                st,
            ));
            assert forall|i: int, j: int| 0 <= i < inputs@.len() && 0 <= j < ml implies #[trigger] inputs@[i]@[j]
                == toks[i * st + j] by {
                assert(inputs@[i]@ == input_windows(toks, ml, st)[i]);
            }
            assert forall|i: int, j: int| 0 <= i < targets@.len() && 0 <= j < ml implies #[trigger] targets@[i]@[j]
                == toks[i * st + j + 1] by {
                assert(targets@[i]@ == target_windows(toks, ml, st)[i]);
            }
        }
        (inputs, targets)
    }

    /// The input and target windows as two `u32` matrices on `device`.
    pub fn input_target_tensors(self, device: &Device) -> (r: Result<(Tensor, Tensor), Error>)
        requires
            windows_defined(self@.tokens, self@.max_length, self@.stride),
        ensures
            r matches Ok((inputs, targets)) ==> {
                &&& is_u32_matrix(inputs)
                &&& is_u32_matrix(targets)
                &&& tensor_dims(inputs) == seq![
                    num_windows(self@.tokens.len(), self@.max_length, self@.stride) as usize,
                    self@.max_length as usize,
                ]
                &&& tensor_dims(targets) == tensor_dims(inputs)
                &&& matrix_rows(inputs) == input_windows(
                    self@.tokens,
                    self@.max_length,
                    self@.stride,
                )
                &&& matrix_rows(targets) == target_windows(
                    self@.tokens,
                    self@.max_length,
                    self@.stride,
                )
            },
    {
        let (inputs, targets) = self.input_target_rows();
        proof {
            let n = num_windows(self@.tokens.len(), self@.max_length, self@.stride);
            assert(n >= 1);
            assert(rows_view(inputs@).len() == inputs@.len());
            assert(inputs@.len() == n);
            assert(rows_view(targets@).len() == targets@.len());
            assert(targets@.len() == n);
            assert(rows_view(inputs@)[0] == inputs@[0]@);
            assert(rows_view(targets@)[0] == targets@[0]@);
        }
        let inputs = tensor_from_rows(inputs, device)?;
        let targets = tensor_from_rows(targets, device)?;
        Ok((inputs, targets))
    }
}

/// `0, 1, ..., n - 1`.
pub open spec fn index_range(n: nat) -> Seq<usize> {
    Seq::new(n, |i: int| i as usize)
}

/// The rows of `rows` named by `indices[start..end]`, in that order.
pub open spec fn batch_rows(rows: Seq<Seq<u32>>, indices: Seq<usize>, start: nat, end: nat) -> Seq<
    Seq<u32>,
> {
    indices.subrange(start as int, end as int).map_values(|i: usize| rows[i as int])
}

/// What a data loader serves: its batching settings and the rows of its
/// input and target matrices, visited in the order of `indices`.
pub struct DataLoaderView {
    pub batch_size: nat,
    pub drop_last: bool,
    pub current: nat,
    pub indices: Seq<usize>,
    pub row_len: nat,
    pub input_rows: Seq<Seq<u32>>,
    pub target_rows: Seq<Seq<u32>>,
}

impl DataLoaderView {
    /// One index per row, each naming a row, as many targets as inputs, and
    /// every row `row_len` tokens long.
    pub open spec fn wf(self) -> bool {
        &&& self.input_rows.len() <= usize::MAX
        &&& all_rows_len(self.input_rows, self.row_len)
        &&& all_rows_len(self.target_rows, self.row_len)
        &&& self.target_rows.len() == self.input_rows.len()
        &&& self.indices.len() == self.input_rows.len()
        &&& forall|k: int|
            0 <= k < self.indices.len() ==> #[trigger] self.indices[k] < self.input_rows.len()
    }
}

/// Where the batch that starts at `current` ends, or `None` when the loader
/// has no further batch: past the last index, or, with `drop_last`, when
/// fewer than `batch_size` indices are left.
pub open spec fn batch_end(loader: DataLoaderView, current: nat) -> Option<nat> {
    let len = loader.indices.len();
    if current >= len {
        None
    } else {
        let end = vstd::math::min((current + loader.batch_size) as int, len as int) as nat;
        if loader.drop_last && end - current < loader.batch_size {
            None
        } else {
            Some(end)
        }
    }
}

pub struct DataLoader {
    batch_size: usize,
    drop_last: bool,
    inputs: Vec<Vec<u32>>,
    targets: Vec<Vec<u32>>,
    row_len: usize,
    current: usize,
    indices: Vec<usize>,
    device: Device,
}

impl View for DataLoader {
    type V = DataLoaderView;

    closed spec fn view(&self) -> DataLoaderView {
        DataLoaderView {
            batch_size: self.batch_size as nat,
            drop_last: self.drop_last,
            current: self.current as nat,
            indices: self.indices@,
            row_len: self.row_len as nat,
            input_rows: rows_view(self.inputs@),
            target_rows: rows_view(self.targets@),
        }
    }
}

/// A copy of the rows.
fn copy_rows(rows: &Vec<Vec<u32>>) -> (r: Vec<Vec<u32>>)
    ensures
        rows_view(r@) == rows_view(rows@),
{
    let mut out: Vec<Vec<u32>> = Vec::new();
    let mut k: usize = 0;
    while k < rows.len()
        invariant
            k <= rows.len(),
            rows_view(out@) == rows_view(rows@).take(k as int),
        decreases rows.len() - k,
    {
        let row = vstd::slice::slice_to_vec(rows[k].as_slice());
        let ghost before = out@;
        out.push(row);
        proof {
            assert(rows_view(out@) =~= rows_view(before).push(row@));
            assert(rows_view(rows@).take(k + 1) =~= rows_view(rows@).take(k as int).push(
                rows@[k as int]@,
            ));
        }
        k = k + 1;
    }
    proof {
        assert(rows_view(rows@).take(k as int) =~= rows_view(rows@));
    }
    out
}

impl Clone for DataLoader {
    /// A loader with the same settings, position, rows and device.
    fn clone(&self) -> (r: Self)
        ensures
            r@ == self@,
    {
        proof {
            use_type_invariant(self);
        }
        let indices = self.indices.clone();
        proof {
            assert(indices@ =~= self.indices@);
        }
        let inputs = copy_rows(&self.inputs);
        let targets = copy_rows(&self.targets);
        proof {
            assert(inputs@.len() == rows_view(inputs@).len());
            assert(targets@.len() == rows_view(targets@).len());
            assert(self.inputs@.len() == rows_view(self.inputs@).len());
            assert(self.targets@.len() == rows_view(self.targets@).len());
        }
        DataLoader {
            batch_size: self.batch_size,
            drop_last: self.drop_last,
            inputs,
            targets,
            row_len: self.row_len,
            current: self.current,
            indices,
            device: device_clone(&self.device),
        }
    }
}

/// Copies of the rows named by `indices[start..end]`, in that order.
fn gather_rows(rows: &Vec<Vec<u32>>, indices: &Vec<usize>, start: usize, end: usize) -> (r: Vec<
    Vec<u32>,
>)
    requires
        start <= end <= indices.len(),
        forall|k: int| 0 <= k < indices.len() ==> #[trigger] indices@[k] < rows.len(),
    ensures
        rows_view(r@) == batch_rows(rows_view(rows@), indices@, start as nat, end as nat),
{
    let mut out: Vec<Vec<u32>> = Vec::new();
    let mut k = start;
    while k < end
        invariant
            start <= k <= end <= indices.len(),
            forall|k: int| 0 <= k < indices.len() ==> #[trigger] indices@[k] < rows.len(),
            rows_view(out@) == batch_rows(rows_view(rows@), indices@, start as nat, k as nat),
        decreases end - k,
    {
        let i = indices[k];
        let row = vstd::slice::slice_to_vec(rows[i].as_slice());
        let ghost before = out@;
        out.push(row);
        proof {
            assert(rows_view(out@) =~= rows_view(before).push(row@));
            assert(batch_rows(rows_view(rows@), indices@, start as nat, (k + 1) as nat)
                =~= batch_rows(rows_view(rows@), indices@, start as nat, k as nat).push(
                rows_view(rows@)[i as int],
            ));
        }
        k = k + 1;
    }
    out
}

impl DataLoader {
    #[verifier::type_invariant]
    spec fn inv(self) -> bool {
        &&& self.targets.len() == self.inputs.len()
        &&& self.indices.len() == self.inputs.len()
        &&& forall|k: int|
            0 <= k < self.indices.len() ==> #[trigger] self.indices@[k] < self.inputs.len()
        &&& all_rows_len(rows_view(self.inputs@), self.row_len as nat)
        &&& all_rows_len(rows_view(self.targets@), self.row_len as nat)
    }

    /// Cuts `tokens` into input and target windows and visits them in
    /// order, or in a random order when `shuffle` is set. The windows are
    /// kept as token ids; each batch becomes a pair of matrices on `device`
    /// when it is served.
    pub fn new(
        tokens: Vec<u32>,
        max_length: usize,
        stride: usize,
        batch_size: usize,
        drop_last: bool,
        shuffle: bool,
        device: Device,
    ) -> (r: Result<Self, Error>)
        requires
            windows_defined(tokens@, max_length as nat, stride as nat),
        ensures
            r is Ok,
            r matches Ok(loader) ==> {
                let n = num_windows(tokens@.len(), max_length as nat, stride as nat);
                &&& loader@.wf()
                &&& loader@.batch_size == batch_size
                &&& loader@.drop_last == drop_last
                &&& loader@.current == 0
                &&& loader@.row_len == max_length
                &&& loader@.input_rows == input_windows(tokens@, max_length as nat, stride as nat)
                &&& loader@.target_rows == target_windows(
                    tokens@,
                    max_length as nat,
                    stride as nat,
                )
                &&& shuffle ==> loader@.indices.to_multiset() == index_range(n).to_multiset()
                &&& !shuffle ==> loader@.indices == index_range(n)
            },
    {
        let ghost toks = tokens@;
        let ghost n = num_windows(tokens@.len(), max_length as nat, stride as nat);
        let dataset = GptDataSet::new(tokens, max_length, stride);
        let (inputs, targets) = dataset.input_target_rows();
        let count = inputs.len();
        proof {
            assert(rows_view(inputs@).len() == inputs@.len());
            assert(rows_view(targets@).len() == targets@.len());
            assert(count == n);
            assert forall|r: int| 0 <= r < rows_view(inputs@).len() implies #[trigger] rows_view(
                inputs@,
            )[r].len() == max_length by {
                lemma_targets_shift_inputs(toks, max_length as nat, stride as nat, r);
            }
            assert forall|r: int| 0 <= r < rows_view(targets@).len() implies #[trigger] rows_view(
                targets@,
            )[r].len() == max_length by {
                lemma_targets_shift_inputs(toks, max_length as nat, stride as nat, r);
            }
        }
        let mut indices: Vec<usize> = Vec::new();
        let mut i: usize = 0;
        while i < count
            invariant
                i <= count,
                indices@ == index_range(i as nat),
            decreases count - i,
        {
            indices.push(i);
            proof {
                assert(indices@ =~= index_range((i + 1) as nat));
            }
            i = i + 1;
        }
        if shuffle {
            shuffle_in_place(&mut indices);
        }
        proof {
            broadcast use vstd::seq_lib::group_to_multiset_ensures;

            assert(indices@.len() == n) by {
                assert(indices@.to_multiset().len() == index_range(n).to_multiset().len());
            }
            assert forall|k: int| 0 <= k < indices@.len() implies #[trigger] indices@[k] < n by {
                let x = indices@[k];
                assert(indices@.contains(x));
                assert(indices@.to_multiset().count(x) > 0);
                assert(index_range(n).to_multiset().count(x) > 0);
                assert(index_range(n).contains(x));
            }
        }
        Ok(
            Self {
                batch_size,
                drop_last,
                inputs,
                targets,
                row_len: max_length,
                current: 0,
                indices,
                device,
            },
        )
    }

    pub fn reset(&mut self)
        ensures
            final(self)@ == (DataLoaderView { current: 0, ..old(self)@ }),
    {
        proof {
            use_type_invariant(&*self);
        }
        self.current = 0;
    }

    /// A fresh pass over the batches, from the first index whatever
    /// `current` holds.
    pub fn iter(&self) -> (it: DataLoaderIter<'_>)
        ensures
            it@.loader == self@,
            it@.current == 0,
            self@.wf(),
    {
        proof {
            use_type_invariant(self);
            assert(self.inputs@.len() == rows_view(self.inputs@).len());
            assert(self.targets@.len() == rows_view(self.targets@).len());
        }
        DataLoaderIter { loader: self, current: 0 }
    }
}

/// A pass over a loader's batches.
pub struct DataLoaderIterView {
    pub loader: DataLoaderView,
    pub current: nat,
}

pub struct DataLoaderIter<'a> {
    loader: &'a DataLoader,
    current: usize,
}

impl<'a> View for DataLoaderIter<'a> {
    type V = DataLoaderIterView;

    closed spec fn view(&self) -> DataLoaderIterView {
        DataLoaderIterView { loader: self.loader@, current: self.current as nat }
    }
}

impl<'a> DataLoaderIter<'a> {
    /// The next batch: the input and target rows named by the next
    /// `batch_size` indices (fewer at the end unless `drop_last`), as two
    /// new matrices on the loader's device, or `None` when the pass is over.
    pub fn next(&mut self) -> (r: Option<Result<(Tensor, Tensor), Error>>)
        ensures
            final(self)@.loader == old(self)@.loader,
            match batch_end(old(self)@.loader, old(self)@.current) {
                None => r is None && final(self)@.current == old(self)@.current,
                Some(end) => {
                    let start = old(self)@.current;
                    let l = old(self)@.loader;
                    &&& final(self)@.current == end
                    &&& r matches Some(batch)
                    &&& end == start ==> batch is Err
                    &&& batch matches Ok((x, y)) ==> {
                        &&& is_u32_matrix(x)
                        &&& is_u32_matrix(y)
                        &&& tensor_dims(x) == seq![(end - start) as usize, l.row_len as usize]
                        &&& tensor_dims(y) == tensor_dims(x)
                        &&& matrix_rows(x) == batch_rows(l.input_rows, l.indices, start, end)
                        &&& matrix_rows(y) == batch_rows(l.target_rows, l.indices, start, end)
                    }
                },
            },
    {
        let loader = self.loader;
        proof {
            use_type_invariant(loader);
        }
        let len = loader.indices.len();
        if self.current >= len {
            return None;
        }
        let end = if loader.batch_size < len - self.current {
            self.current + loader.batch_size
        } else {
            len
        };
        let actual_batch = end - self.current;
        if loader.drop_last && actual_batch < loader.batch_size {
            return None;
        }
        let start = self.current;
        self.current = end;
        let input_rows = gather_rows(&loader.inputs, &loader.indices, start, end);
        let target_rows = gather_rows(&loader.targets, &loader.indices, start, end);
        proof {
            assert(rows_view(input_rows@).len() == input_rows@.len());
            assert(rows_view(target_rows@).len() == target_rows@.len());
            if start < end {
                let k0 = loader.indices@[start as int] as int;
                assert(rows_view(input_rows@)[0] == rows_view(loader.inputs@)[k0]);
                assert(rows_view(target_rows@)[0] == rows_view(loader.targets@)[k0]);
                assert(rows_view(input_rows@)[0] == input_rows@[0]@);
                assert(rows_view(target_rows@)[0] == target_rows@[0]@);
                assert(all_rows_len(rows_view(input_rows@), loader.row_len as nat));
                assert(all_rows_len(rows_view(target_rows@), loader.row_len as nat));
            }
        }
        let x = match tensor_from_rows(input_rows, &loader.device) {
            Ok(x) => x,
            Err(e) => return Some(Err(e)),
        };
        let y = match tensor_from_rows(target_rows, &loader.device) {
            Ok(y) => y,
            Err(e) => return Some(Err(e)),
        };
        Some(Ok((x, y)))
    }
}

/// With the stride equal to the window length the input windows do not
/// overlap: laid end to end they are the text's first
/// `num_windows * max_length` tokens.
pub proof fn lemma_windows_tile_text(tokens: Seq<u32>, max_length: nat, k: nat)
    requires
        windows_defined(tokens, max_length, max_length),
        k <= num_windows(tokens.len(), max_length, max_length),
    ensures
        input_windows(tokens, max_length, max_length).take(k as int).flatten() == tokens.subrange(
            0,
            (k * max_length) as int,
        ),
    decreases k,
{
    let w = input_windows(tokens, max_length, max_length);
    if k == 0 {
        assert(w.take(0) =~= Seq::<Seq<u32>>::empty());
        assert(tokens.subrange(0, 0) =~= Seq::<u32>::empty());
    } else {
        lemma_windows_tile_text(tokens, max_length, (k - 1) as nat);
        lemma_window_in_bounds(tokens.len(), max_length, max_length, (k - 1) as nat);
        let a = (k - 1) * max_length;
        let b = (k * max_length) as int;
        assert(a + max_length == b) by (nonlinear_arith)
            requires
                a == (k - 1) * max_length,
                b == k * max_length,
                k >= 1,
        ;
        assert(w[k - 1] == tokens.subrange(a, a + max_length));
        assert(w.take(k as int) =~= w.take(k - 1).push(w[k - 1]));
        w.take(k - 1).lemma_flatten_push(w[k - 1]);
        assert(w.take(k as int).flatten() == w.take(k - 1).flatten() + w[k - 1]);
        assert(w.take(k - 1).flatten() == tokens.subrange(0, a));
        assert(tokens.subrange(0, b) =~= tokens.subrange(0, a) + tokens.subrange(a, b));
    }
}

/// Number of batches of `bs` indices out of `len`: the last partial batch
/// counts unless it is dropped.
pub open spec fn num_batches(len: nat, bs: nat, drop_last: bool) -> nat
    recommends
        bs > 0,
{
    if drop_last {
        ((len as int) / (bs as int)) as nat
    } else {
        (((len + bs - 1) as int) / (bs as int)) as nat
    }
}

/// Every input window and every target window holds `max_length` tokens,
/// and the target window is its input window moved one token on: they
/// agree on every token but the input's first and the target's last.
pub proof fn lemma_targets_shift_inputs(tokens: Seq<u32>, max_length: nat, stride: nat, r: int)
    requires
        windows_defined(tokens, max_length, stride),
        0 <= r < num_windows(tokens.len(), max_length, stride),
    ensures
        input_windows(tokens, max_length, stride)[r].len() == max_length,
        target_windows(tokens, max_length, stride)[r].len() == max_length,
        forall|j: int|
            0 <= j < max_length - 1 ==> #[trigger] target_windows(tokens, max_length, stride)[r][j]
                == input_windows(tokens, max_length, stride)[r][j + 1],
        max_length > 0 ==> target_windows(tokens, max_length, stride)[r][max_length - 1]
            == tokens[r * stride + max_length],
{
    lemma_window_in_bounds(tokens.len(), max_length, stride, r as nat);
}

/// Every window is a slice of the text: input window `r` holds the
/// `max_length` tokens from `r * stride` on, and target window `r` the
/// `max_length` tokens from `r * stride + 1` on, for every stride.
pub proof fn lemma_windows_are_text_slices(tokens: Seq<u32>, max_length: nat, stride: nat)
    requires
        windows_defined(tokens, max_length, stride),
    ensures
        input_windows(tokens, max_length, stride).len() == num_windows(
            tokens.len(),
            max_length,
            stride,
        ),
        target_windows(tokens, max_length, stride).len() == num_windows(
            tokens.len(),
            max_length,
            stride,
        ),
        forall|r: int|
            0 <= r < num_windows(tokens.len(), max_length, stride) ==> #[trigger] input_windows(
                tokens,
                max_length,
                stride,
            )[r].len() == max_length && target_windows(tokens, max_length, stride)[r].len()
                == max_length,
        forall|r: int, j: int|
            0 <= r < num_windows(tokens.len(), max_length, stride) && 0 <= j < max_length
                ==> #[trigger] input_windows(tokens, max_length, stride)[r][j] == tokens[r * stride
                + j],
        forall|r: int, j: int|
            0 <= r < num_windows(tokens.len(), max_length, stride) && 0 <= j < max_length
                ==> #[trigger] target_windows(tokens, max_length, stride)[r][j] == tokens[r * stride
                + j + 1],
{
    let n = num_windows(tokens.len(), max_length, stride);
    assert forall|r: int| 0 <= r < n implies #[trigger] input_windows(
        tokens,
        max_length,
        stride,
    )[r].len() == max_length && target_windows(tokens, max_length, stride)[r].len()
        == max_length by {
        lemma_window_in_bounds(tokens.len(), max_length, stride, r as nat);
        assert(0 <= r * stride) by (nonlinear_arith)
            requires
                0 <= r,
        ;
    }
    assert forall|r: int, j: int| 0 <= r < n && 0 <= j < max_length implies #[trigger] input_windows(
        tokens,
        max_length,
        stride,
    )[r][j] == tokens[r * stride + j] by {
        lemma_window_in_bounds(tokens.len(), max_length, stride, r as nat);
        assert(0 <= r * stride) by (nonlinear_arith)
            requires
                0 <= r,
        ;
    }
    assert forall|r: int, j: int| 0 <= r < n && 0 <= j < max_length implies #[trigger] target_windows(
        tokens,
        max_length,
        stride,
    )[r][j] == tokens[r * stride + j + 1] by {
        lemma_window_in_bounds(tokens.len(), max_length, stride, r as nat);
        assert(0 <= r * stride) by (nonlinear_arith)
            requires
                0 <= r,
        ;
    }
}

/// A pass with a positive batch size serves `num_batches` batches: batch
/// `k` covers the indices `k * bs .. min((k + 1) * bs, len)` (exactly `bs`
/// of them when the last partial batch is dropped), and after the last one
/// the pass is over.
pub proof fn lemma_batch_schedule(loader: DataLoaderView, k: nat)
    requires
        loader.batch_size > 0,
    ensures
        ({
            let len = loader.indices.len();
            let bs = loader.batch_size;
            let nb = num_batches(len, bs, loader.drop_last);
            &&& k < nb ==> {
                &&& k * bs < len
                &&& batch_end(loader, k * bs) == Some(
                    vstd::math::min(((k + 1) * bs) as int, len as int) as nat,
                )
                &&& loader.drop_last ==> (k + 1) * bs <= len
            }
            &&& k == nb ==> batch_end(loader, vstd::math::min((k * bs) as int, len as int) as nat) is None
        }),
{
    let len = loader.indices.len();
    let bs = loader.batch_size;
    let nb = num_batches(len, bs, loader.drop_last);
    vstd::arithmetic::div_mod::lemma_fundamental_div_mod(len as int, bs as int);
    vstd::arithmetic::div_mod::lemma_fundamental_div_mod((len + bs - 1) as int, bs as int);
    let q = (len as int) / (bs as int);
    let c = ((len + bs - 1) as int) / (bs as int);
    assert(k * bs + bs == (k + 1) * bs) by (nonlinear_arith);
    if k < nb {
        if loader.drop_last {
            assert(k + 1 <= q);
            assert((k + 1) * bs <= q * bs) by (nonlinear_arith)
                requires
                    k + 1 <= q,
                    bs > 0,
            ;
            assert(q * bs == bs * q) by (nonlinear_arith);
        } else {
            assert(k + 1 <= c);
            assert((k + 1) * bs <= c * bs) by (nonlinear_arith)
                requires
                    k + 1 <= c,
                    bs > 0,
            ;
            assert(c * bs == bs * c) by (nonlinear_arith);
        }
    }
    if k == nb {
        if loader.drop_last {
            assert(k * bs == bs * q) by (nonlinear_arith)
                requires
                    k == q,
            ;
        } else {
            assert(k * bs == bs * c) by (nonlinear_arith)
                requires
                    k == c,
            ;
        }
    }
}

/// The indices served by the first `k` batches of a pass, in order.
pub open spec fn served_indices(loader: DataLoaderView, k: nat) -> Seq<usize>
    decreases k,
{
    if k == 0 {
        Seq::empty()
    } else {
        let bs = loader.batch_size;
        let len = loader.indices.len() as int;
        served_indices(loader, (k - 1) as nat) + loader.indices.subrange(
            vstd::math::min(((k - 1) * bs) as int, len),
            vstd::math::min((k * bs) as int, len),
        )
    }
}

/// The batches of a pass with a positive batch size, taken in order, serve
/// the indices in order from the first: all of them when the last partial
/// batch is kept, and all but fewer than `batch_size` at the end when it is
/// dropped.
pub proof fn lemma_pass_serves_indices(loader: DataLoaderView, k: nat)
    requires
        loader.batch_size > 0,
        k <= num_batches(loader.indices.len(), loader.batch_size, loader.drop_last),
    ensures
        served_indices(loader, k) == loader.indices.subrange(
            0,
            vstd::math::min((k * loader.batch_size) as int, loader.indices.len() as int),
        ),
        k == num_batches(loader.indices.len(), loader.batch_size, loader.drop_last)
            ==> if loader.drop_last {
            &&& served_indices(loader, k).len() == k * loader.batch_size
            &&& loader.indices.len() - served_indices(loader, k).len() < loader.batch_size
        } else {
            served_indices(loader, k) == loader.indices
        },
    decreases k,
{
    let bs = loader.batch_size;
    let len = loader.indices.len();
    if k > 0 {
        lemma_pass_serves_indices(loader, (k - 1) as nat);
        assert((k - 1) * bs <= k * bs) by (nonlinear_arith)
            requires
                k >= 1,
        ;
        assert(served_indices(loader, k) =~= loader.indices.subrange(
            0,
            vstd::math::min((k * bs) as int, len as int),
        ));
    }
    if k == num_batches(len, bs, loader.drop_last) {
        let q = (len as int) / (bs as int);
        let c = ((len + bs - 1) as int) / (bs as int);
        vstd::arithmetic::div_mod::lemma_fundamental_div_mod(len as int, bs as int);
        vstd::arithmetic::div_mod::lemma_fundamental_div_mod((len + bs - 1) as int, bs as int);
        if loader.drop_last {
            assert(k * bs == bs * q) by (nonlinear_arith)
                requires
                    k == q,
            ;
        } else {
            assert(k * bs == bs * c) by (nonlinear_arith)
                requires
                    k == c,
            ;
            assert(loader.indices.subrange(0, len as int) =~= loader.indices);
        }
    }
}

/// A pass that keeps the last partial batch serves every row exactly once
/// when the indices are an ordering of the rows, as `DataLoader::new` makes
/// them with or without shuffling.
pub proof fn lemma_pass_serves_every_row_once(loader: DataLoaderView)
    requires
        loader.wf(),
        loader.batch_size > 0,
        !loader.drop_last,
        loader.indices.to_multiset() == index_range(loader.input_rows.len()).to_multiset(),
    ensures
        served_indices(
            loader,
            num_batches(loader.indices.len(), loader.batch_size, loader.drop_last),
        ).to_multiset() == index_range(loader.input_rows.len()).to_multiset(),
{
    lemma_pass_serves_indices(
        loader,
        num_batches(loader.indices.len(), loader.batch_size, loader.drop_last),
    );
}

/// The rows that the first `k` batches of a pass hold, batch after batch:
/// batch `j` holds `batch_rows(rows, indices, start_j, end_j)`, as
/// `DataLoaderIter::next` returns it.
pub open spec fn served_rows(rows: Seq<Seq<u32>>, loader: DataLoaderView, k: nat) -> Seq<Seq<u32>>
    decreases k,
{
    if k == 0 {
        Seq::empty()
    } else {
        let bs = loader.batch_size;
        let len = loader.indices.len() as int;
        served_rows(rows, loader, (k - 1) as nat) + batch_rows(
            rows,
            loader.indices,
            vstd::math::min(((k - 1) * bs) as int, len) as nat,
            vstd::math::min((k * bs) as int, len) as nat,
        )
    }
}

/// Each (input row, target row) pair that one pass yields, in order.
pub open spec fn pass_pairs(loader: DataLoaderView) -> Seq<(Seq<u32>, Seq<u32>)> {
    let nb = num_batches(loader.indices.len(), loader.batch_size, loader.drop_last);
    let xs = served_rows(loader.input_rows, loader, nb);
    let ys = served_rows(loader.target_rows, loader, nb);
    Seq::new(xs.len(), |k: int| (xs[k], ys[k]))
}

/// The rows of the first `k` batches are the rows named by the indices
/// those batches serve.
pub proof fn lemma_served_rows_follow_indices(rows: Seq<Seq<u32>>, loader: DataLoaderView, k: nat)
    requires
        loader.batch_size > 0,
    ensures
        served_rows(rows, loader, k) == served_indices(loader, k).map_values(
            |i: usize| rows[i as int],
        ),
    decreases k,
{
    if k > 0 {
        let bs = loader.batch_size;
        lemma_served_rows_follow_indices(rows, loader, (k - 1) as nat);
        assert((k - 1) * bs <= k * bs) by (nonlinear_arith)
            requires
                k >= 1,
        ;
        let len = loader.indices.len() as int;
        let a = vstd::math::min(((k - 1) * bs) as int, len);
        let b = vstd::math::min((k * bs) as int, len);
        let f = |i: usize| rows[i as int];
        let prev = served_indices(loader, (k - 1) as nat);
        let part = loader.indices.subrange(a, b);
        assert((prev + part).map_values(f) =~= prev.map_values(f) + part.map_values(f));
    }
}

/// Mapping two sequences that hold the same elements gives sequences that
/// hold the same elements.
pub proof fn lemma_map_keeps_multiset<A, B>(s1: Seq<A>, s2: Seq<A>, f: spec_fn(A) -> B)
    requires
        s1.to_multiset() == s2.to_multiset(),
    ensures
        s1.map_values(f).to_multiset() == s2.map_values(f).to_multiset(),
    decreases s1.len(),
{
    broadcast use vstd::seq_lib::group_to_multiset_ensures;
    broadcast use vstd::multiset::group_multiset_axioms;

    if s1.len() == 0 {
        assert(s2.len() == 0) by {
            to_multiset_len(s1);
            to_multiset_len(s2);
        }
        assert(s1.map_values(f) =~= Seq::<B>::empty());
        assert(s2.map_values(f) =~= Seq::<B>::empty());
    } else {
        let x = s1.last();
        let rest1 = s1.drop_last();
        assert(s1 =~= rest1.push(x));
        assert(s1.to_multiset() =~= rest1.to_multiset().insert(x));
        assert(s1.to_multiset().count(x) > 0);
        assert(s2.contains(x));
        let j = choose|j: int| 0 <= j < s2.len() && s2[j] == x;
        let rest2 = s2.remove(j);
        assert(rest2.to_multiset() =~= s2.to_multiset().remove(x));
        assert(rest1.to_multiset() =~= rest2.to_multiset());
        lemma_map_keeps_multiset(rest1, rest2, f);
        assert(s1.map_values(f) =~= rest1.map_values(f).push(f(x)));
        assert(s1.map_values(f).to_multiset() =~= rest1.map_values(f).to_multiset().insert(f(x)));
        assert(s2.map_values(f).remove(j) =~= rest2.map_values(f));
        assert(rest2.map_values(f).to_multiset() =~= s2.map_values(f).to_multiset().remove(f(x)));
        assert(s2.map_values(f).contains(f(x))) by {
            assert(s2.map_values(f)[j] == f(x));
        }
        assert(s2.map_values(f).to_multiset().count(f(x)) > 0);
        assert(s2.map_values(f).to_multiset() =~= s2.map_values(f).to_multiset().remove(
            f(x),
        ).insert(f(x)));
    }
}

/// A pass that keeps the last partial batch yields every window exactly
/// once, each target row beside its own input row: the rows yielded are
/// the rows named by one ordering `p` of all the row numbers.
pub proof fn lemma_pass_yields_every_window_once(loader: DataLoaderView)
    requires
        loader.wf(),
        loader.batch_size > 0,
        !loader.drop_last,
        loader.indices.to_multiset() == index_range(loader.input_rows.len()).to_multiset(),
    ensures
        ({
            let nb = num_batches(loader.indices.len(), loader.batch_size, loader.drop_last);
            let p = served_indices(loader, nb);
            &&& p.to_multiset() == index_range(loader.input_rows.len()).to_multiset()
            &&& served_rows(loader.input_rows, loader, nb) == p.map_values(
                |i: usize| loader.input_rows[i as int],
            )
            &&& served_rows(loader.target_rows, loader, nb) == p.map_values(
                |i: usize| loader.target_rows[i as int],
            )
            &&& pass_pairs(loader) == p.map_values(
                |i: usize| (loader.input_rows[i as int], loader.target_rows[i as int]),
            )
        }),
{
    let nb = num_batches(loader.indices.len(), loader.batch_size, loader.drop_last);
    lemma_pass_serves_indices(loader, nb);
    lemma_served_rows_follow_indices(loader.input_rows, loader, nb);
    lemma_served_rows_follow_indices(loader.target_rows, loader, nb);
    let p = served_indices(loader, nb);
    assert(pass_pairs(loader) =~= p.map_values(
        |i: usize| (loader.input_rows[i as int], loader.target_rows[i as int]),
    ));
}

/// An unshuffled pass yields the windows in order: all of them when the
/// last partial batch is kept, the first `bs * (n / bs)` when it is dropped.
pub proof fn lemma_unshuffled_pass_in_order(loader: DataLoaderView)
    requires
        loader.wf(),
        loader.batch_size > 0,
        loader.indices == index_range(loader.input_rows.len()),
    ensures
        ({
            let n = loader.input_rows.len();
            let bs = loader.batch_size;
            let nb = num_batches(n, bs, loader.drop_last);
            let m = served_indices(loader, nb).len();
            &&& served_rows(loader.input_rows, loader, nb) == loader.input_rows.subrange(0, m as int)
            &&& served_rows(loader.target_rows, loader, nb) == loader.target_rows.subrange(
                0,
                m as int,
            )
            &&& !loader.drop_last ==> m == n
            &&& loader.drop_last ==> m == nb * bs && n - m < bs
        }),
{
    let n = loader.input_rows.len();
    let bs = loader.batch_size;
    let nb = num_batches(n, bs, loader.drop_last);
    lemma_pass_serves_indices(loader, nb);
    lemma_served_rows_follow_indices(loader.input_rows, loader, nb);
    lemma_served_rows_follow_indices(loader.target_rows, loader, nb);
    let m = served_indices(loader, nb).len();
    assert forall|k: int| 0 <= k < m implies #[trigger] served_indices(loader, nb)[k] as int == k by {
        assert(served_indices(loader, nb)[k] == loader.indices[k]);
    }
    assert(served_rows(loader.input_rows, loader, nb) =~= loader.input_rows.subrange(0, m as int));
    assert(served_rows(loader.target_rows, loader, nb) =~= loader.target_rows.subrange(
        0,
        m as int,
    ));
}

/// A shuffled pass and an unshuffled pass over the same windows yield the
/// same (input row, target row) pairs, in another order: inputs and targets
/// are shuffled together.
pub proof fn lemma_shuffled_pass_permutes_pairs(shuffled: DataLoaderView, ordered: DataLoaderView)
    requires
        shuffled.wf(),
        ordered.wf(),
        shuffled.input_rows == ordered.input_rows,
        shuffled.target_rows == ordered.target_rows,
        shuffled.batch_size > 0,
        ordered.batch_size > 0,
        !shuffled.drop_last,
        !ordered.drop_last,
        shuffled.indices.to_multiset() == index_range(shuffled.input_rows.len()).to_multiset(),
        ordered.indices == index_range(ordered.input_rows.len()),
    ensures
        pass_pairs(shuffled).to_multiset() == pass_pairs(ordered).to_multiset(),
{
    let n = ordered.input_rows.len();
    let f = |i: usize| (ordered.input_rows[i as int], ordered.target_rows[i as int]);
    lemma_pass_yields_every_window_once(shuffled);
    lemma_pass_yields_every_window_once(ordered);
    let p1 = served_indices(
        shuffled,
        num_batches(shuffled.indices.len(), shuffled.batch_size, shuffled.drop_last),
    );
    let p0 = served_indices(
        ordered,
        num_batches(ordered.indices.len(), ordered.batch_size, ordered.drop_last),
    );
    lemma_map_keeps_multiset(p1, p0, f);
}

} // verus!
