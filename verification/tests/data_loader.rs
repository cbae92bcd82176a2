use candle_core::{Device, Tensor};
use llm_scratch::data_loader::{DataLoader, GptDataSet};

fn tokens(n: u32) -> Vec<u32> {
    (0..n).map(|i| 100 + i).collect()
}

fn rows(t: &Tensor) -> Vec<Vec<u32>> {
    t.to_vec2::<u32>().unwrap()
}

#[test]
fn dataset_rows_with_stride_one() {
    let ds = GptDataSet::new(vec![1, 2, 3, 4, 5, 6], 3, 1);
    let (inputs, targets) = ds.input_target_rows();
    assert_eq!(inputs, vec![vec![1, 2, 3], vec![2, 3, 4], vec![3, 4, 5]]);
    assert_eq!(targets, vec![vec![2, 3, 4], vec![3, 4, 5], vec![4, 5, 6]]);
}

#[test]
fn dataset_rows_with_stride_equal_to_length() {
    let ds = GptDataSet::new(tokens(10), 4, 4);
    let (inputs, targets) = ds.input_target_rows();
    // (10 - 4 - 1) / 4 + 1 = 2 windows
    assert_eq!(inputs, vec![vec![100, 101, 102, 103], vec![104, 105, 106, 107]]);
    assert_eq!(targets, vec![vec![101, 102, 103, 104], vec![105, 106, 107, 108]]);
}

#[test]
fn dataset_rows_shortest_text() {
    let ds = GptDataSet::new(vec![7, 8], 1, 5);
    let (inputs, targets) = ds.input_target_rows();
    assert_eq!(inputs, vec![vec![7]]);
    assert_eq!(targets, vec![vec![8]]);
}

#[test]
fn dataset_rows_empty_windows() {
    let ds = GptDataSet::new(vec![7, 8, 9], 0, 1);
    let (inputs, targets) = ds.input_target_rows();
    assert_eq!(inputs.len(), 3);
    assert!(inputs.iter().all(|r| r.is_empty()));
    assert!(targets.iter().all(|r| r.is_empty()));
}

#[test]
fn dataset_tensors_hold_the_windows() {
    let ds = GptDataSet::new(tokens(7), 3, 2);
    let (x, y) = ds.input_target_tensors(&Device::Cpu).unwrap();
    assert_eq!(x.dims(), &[2, 3]);
    assert_eq!(y.dims(), &[2, 3]);
    assert_eq!(rows(&x), vec![vec![100, 101, 102], vec![102, 103, 104]]);
    assert_eq!(rows(&y), vec![vec![101, 102, 103], vec![103, 104, 105]]);
}

#[test]
fn dataset_tensors_zero_width() {
    // Rows of length zero still make a tensor of shape (n, 0).
    let ds = GptDataSet::new(vec![1, 2], 0, 1);
    let (x, _y) = ds.input_target_tensors(&Device::Cpu).unwrap();
    assert_eq!(x.dims(), &[2, 0]);
}

fn loader(n: u32, len: usize, stride: usize, bs: usize, drop_last: bool) -> DataLoader {
    DataLoader::new(tokens(n), len, stride, bs, drop_last, false, Device::Cpu).unwrap()
}

#[test]
fn loader_batches_in_order() {
    // 9 tokens, windows of 2 every 2 tokens: (9-2-1)/2+1 = 4 rows.
    let l = loader(9, 2, 2, 3, false);
    let mut it = l.iter();
    let (x, y) = it.next().unwrap().unwrap();
    assert_eq!(rows(&x), vec![vec![100, 101], vec![102, 103], vec![104, 105]]);
    assert_eq!(rows(&y), vec![vec![101, 102], vec![103, 104], vec![105, 106]]);
    let (x, y) = it.next().unwrap().unwrap();
    assert_eq!(rows(&x), vec![vec![106, 107]]);
    assert_eq!(rows(&y), vec![vec![107, 108]]);
    assert!(it.next().is_none());
    assert!(it.next().is_none());
}

#[test]
fn loader_drop_last_skips_partial_batch() {
    let l = loader(9, 2, 2, 3, true);
    let mut it = l.iter();
    let (x, _) = it.next().unwrap().unwrap();
    assert_eq!(x.dims(), &[3, 2]);
    assert!(it.next().is_none());
}

#[test]
fn loader_drop_last_exact_multiple() {
    // 4 rows in batches of 2: both batches are full.
    let l = loader(9, 2, 2, 2, true);
    let mut it = l.iter();
    assert_eq!(it.next().unwrap().unwrap().0.dims(), &[2, 2]);
    assert_eq!(it.next().unwrap().unwrap().0.dims(), &[2, 2]);
    assert!(it.next().is_none());
}

#[test]
fn loader_batch_larger_than_data() {
    let l = loader(9, 2, 2, 10, false);
    let mut it = l.iter();
    assert_eq!(it.next().unwrap().unwrap().0.dims(), &[4, 2]);
    assert!(it.next().is_none());
    let l = loader(9, 2, 2, 10, true);
    assert!(l.iter().next().is_none());
}

#[test]
fn loader_zero_batch_size_errors_without_progress() {
    let l = loader(9, 2, 2, 0, false);
    let mut it = l.iter();
    assert!(it.next().unwrap().is_err());
    assert!(it.next().unwrap().is_err());
}

#[test]
fn loader_iter_restarts_and_reset() {
    let mut l = loader(9, 2, 2, 3, false);
    let mut it = l.iter();
    let _ = it.next();
    let first_again = l.iter().next().unwrap().unwrap().0;
    assert_eq!(rows(&first_again)[0], vec![100, 101]);
    l.reset();
    let cloned = l.clone();
    assert_eq!(rows(&cloned.iter().next().unwrap().unwrap().0), rows(&first_again));
}

#[test]
fn loader_shuffle_serves_every_window_once() {
    let l = DataLoader::new(tokens(21), 2, 2, 3, false, true, Device::Cpu).unwrap();
    let mut seen: Vec<Vec<u32>> = Vec::new();
    let mut it = l.iter();
    let mut batches = 0;
    while let Some(batch) = it.next() {
        let (x, y) = batch.unwrap();
        let xr = rows(&x);
        let yr = rows(&y);
        for (a, b) in xr.iter().zip(yr.iter()) {
            assert_eq!(a[1], b[0]);
            assert_eq!(a[1] + 1, b[1]);
        }
        seen.extend(xr);
        batches += 1;
    }
    // (21 - 2 - 1) / 2 + 1 = 10 windows, in ceil(10 / 3) = 4 batches
    assert_eq!(batches, 4);
    seen.sort();
    let expected: Vec<Vec<u32>> = (0..10).map(|r| vec![100 + 2 * r, 101 + 2 * r]).collect();
    assert_eq!(seen, expected);
}

#[test]
fn targets_are_inputs_shifted() {
    let text: Vec<u32> = vec![5, 9, 2, 7, 7, 1, 3, 8];
    let (inputs, targets) = GptDataSet::new(text.clone(), 3, 2).input_target_rows();
    assert_eq!(inputs.len(), 3);
    for (r, (i, t)) in inputs.iter().zip(targets.iter()).enumerate() {
        assert_eq!(i.len(), 3);
        assert_eq!(t.len(), 3);
        assert_eq!(&i[1..], &t[..2]);
        assert_eq!(t[2], text[r * 2 + 3]);
    }
}

#[test]
fn windows_tile_text_when_stride_equals_length() {
    let text = tokens(23);
    let (inputs, _) = GptDataSet::new(text.clone(), 5, 5).input_target_rows();
    // (23 - 5 - 1) / 5 + 1 = 4 windows covering the first 20 tokens
    assert_eq!(inputs.len(), 4);
    let joined: Vec<u32> = inputs.concat();
    assert_eq!(joined, text[..20].to_vec());
}

#[test]
fn batch_schedule_counts() {
    // 4 rows: batch sizes and the number of batches served
    for (bs, drop_last, expected) in [
        (1, false, 4),
        (1, true, 4),
        (3, false, 2),
        (3, true, 1),
        (4, true, 1),
        (5, false, 1),
        (5, true, 0),
    ] {
        let l = loader(9, 2, 2, bs, drop_last);
        let mut it = l.iter();
        let mut sizes = Vec::new();
        while let Some(b) = it.next() {
            sizes.push(b.unwrap().0.dims()[0]);
        }
        assert_eq!(sizes.len(), expected, "bs={bs} drop_last={drop_last}");
        for (k, size) in sizes.iter().enumerate() {
            assert_eq!(*size, bs.min(4 - k * bs));
        }
    }
}

#[test]
fn pass_serves_all_rows_in_order() {
    let l = loader(15, 2, 2, 4, false);
    let mut it = l.iter();
    let mut served = Vec::new();
    while let Some(b) = it.next() {
        served.extend(rows(&b.unwrap().0));
    }
    let expected: Vec<Vec<u32>> = (0..7).map(|r| vec![100 + 2 * r, 101 + 2 * r]).collect();
    assert_eq!(served, expected);
}

#[test]
fn loader_batches_match_dataset_tensors() {
    let (x, y) = GptDataSet::new(tokens(11), 3, 2).input_target_tensors(&Device::Cpu).unwrap();
    let built = loader(11, 3, 2, 2, false);
    let mut it = built.iter();
    let mut xs = Vec::new();
    let mut ys = Vec::new();
    while let Some(b) = it.next() {
        let (bx, by) = b.unwrap();
        xs.extend(rows(&bx));
        ys.extend(rows(&by));
    }
    assert_eq!(xs, rows(&x));
    assert_eq!(ys, rows(&y));
}

#[test]
fn batches_are_new_tensors() {
    let l = DataLoader::new(vec![0, 1, 2, 3, 4], 2, 2, 1, false, false, Device::Cpu).unwrap();
    let (x, y) = l.iter().next().unwrap().unwrap();
    x.zero_set().unwrap();
    y.zero_set().unwrap();
    let (x2, y2) = l.iter().next().unwrap().unwrap();
    assert_eq!(rows(&x2), vec![vec![0, 1]]);
    assert_eq!(rows(&y2), vec![vec![1, 2]]);
}

fn pass_pairs(l: &DataLoader) -> Vec<(Vec<u32>, Vec<u32>)> {
    let mut it = l.iter();
    let mut pairs = Vec::new();
    while let Some(b) = it.next() {
        let (x, y) = b.unwrap();
        pairs.extend(rows(&x).into_iter().zip(rows(&y)));
    }
    pairs
}

#[test]
fn shuffled_pass_permutes_the_pairs() {
    let shuffled = DataLoader::new(tokens(30), 3, 2, 4, false, true, Device::Cpu).unwrap();
    let ordered = DataLoader::new(tokens(30), 3, 2, 4, false, false, Device::Cpu).unwrap();
    let mut a = pass_pairs(&shuffled);
    let b = pass_pairs(&ordered);
    // (30 - 3 - 1) / 2 + 1 = 14 windows, in order in the unshuffled pass
    assert_eq!(b.len(), 14);
    for (r, (x, y)) in b.iter().enumerate() {
        let s = 100 + 2 * r as u32;
        assert_eq!(x, &vec![s, s + 1, s + 2]);
        assert_eq!(y, &vec![s + 1, s + 2, s + 3]);
    }
    a.sort();
    assert_eq!(a, b);
}
