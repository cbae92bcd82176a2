use candle_core::Device;
use llm_scratch::attention::head_dims;
use llm_scratch::data::{split_tokens, train_validation_loaders};
use llm_scratch::gelu::Gelu;
use llm_scratch::gpt_model::{linear_parameters, parameter_report, sum_parameters};
use llm_scratch::shortcut::layer_pairs;
use llm_scratch::train::TrainProgress;

#[test]
fn split_keeps_every_token() {
    let tokens: Vec<u32> = (0..10).collect();
    let (a, b) = split_tokens(&tokens, 9);
    assert_eq!(a, (0..9).collect::<Vec<u32>>());
    assert_eq!(b, vec![9]);
    let (a, b) = split_tokens(&tokens, 0);
    assert!(a.is_empty());
    assert_eq!(b, tokens);
    let mut joined = a.clone();
    joined.extend(b);
    assert_eq!(joined, tokens);
}

#[test]
fn loaders_from_split() {
    let tokens: Vec<u32> = (0..30).collect();
    let (train, val) = train_validation_loaders(tokens, 20, 4, 2, Device::Cpu).unwrap();
    // training: (20 - 4 - 1) / 4 + 1 = 4 windows, two full batches
    let mut it = train.iter();
    let mut count = 0;
    let mut seen = Vec::new();
    while let Some(b) = it.next() {
        let (x, _) = b.unwrap();
        assert_eq!(x.dims(), &[2, 4]);
        seen.extend(x.to_vec2::<u32>().unwrap());
        count += 1;
    }
    assert_eq!(count, 2);
    seen.sort();
    assert_eq!(seen, vec![vec![0, 1, 2, 3], vec![4, 5, 6, 7], vec![8, 9, 10, 11], vec![12, 13, 14, 15]]);
    // validation: tokens 20..30, (10 - 4 - 1) / 4 + 1 = 2 windows, one batch, in order
    let mut it = val.iter();
    let (x, y) = it.next().unwrap().unwrap();
    assert_eq!(x.to_vec2::<u32>().unwrap(), vec![vec![20, 21, 22, 23], vec![24, 25, 26, 27]]);
    assert_eq!(y.to_vec2::<u32>().unwrap(), vec![vec![21, 22, 23, 24], vec![25, 26, 27, 28]]);
    assert!(it.next().is_none());
}

#[test]
fn progress_evaluates_on_multiples() {
    let mut p = TrainProgress::new();
    let mut evaluated = Vec::new();
    for _ in 0..10 {
        if p.record_batch(8, 3) {
            evaluated.push(p.global_step());
        }
    }
    assert_eq!(evaluated, vec![3, 6, 9]);
    assert_eq!(p.tokens_seen(), 80);
    assert_eq!(p.global_step(), 10);
}

#[test]
fn progress_frequency_zero_never_evaluates() {
    let mut p = TrainProgress::new();
    for _ in 0..5 {
        assert!(!p.record_batch(1, 0));
    }
    assert_eq!(p.tokens_seen(), 5);
}

#[test]
fn progress_frequency_one_always_evaluates() {
    let mut p = TrainProgress::new();
    assert!(p.record_batch(2048, 1));
    assert!(p.record_batch(2048, 1));
    assert_eq!(p.tokens_seen(), 4096);
}

#[test]
fn layer_pairs_of_example_network() {
    assert_eq!(
        layer_pairs(&vec![3, 3, 3, 3, 3, 1]),
        vec![(3, 3), (3, 3), (3, 3), (3, 3), (3, 1)]
    );
    assert_eq!(layer_pairs(&vec![4, 8]), vec![(4, 8)]);
    assert!(layer_pairs(&vec![4]).is_empty());
    assert!(layer_pairs(&vec![]).is_empty());
}

#[test]
fn head_dims_of_gpt2() {
    assert_eq!(head_dims(768, 12), 64);
    assert_eq!(head_dims(4, 2), 2);
    assert_eq!(head_dims(0, 3), 0);
}

#[test]
fn parameter_report_of_gpt2() {
    // 12 transformer blocks of 7_084_800 parameters each
    let r = parameter_report(38_597_376, 786_432, 85_017_600, 1_536, 38_597_376, 0);
    assert_eq!(r.total, 163_000_320);
    assert_eq!(r.total_weight_tied, 124_402_944);
    assert_eq!(r.out_weight, 38_597_376);
    let r = parameter_report(1, 2, 3, 4, 5, 6);
    assert_eq!(r.total, 21);
    assert_eq!(r.total_weight_tied, 10);
}

#[test]
fn gelu_init() {
    let _g: Gelu = Gelu::init();
}

#[test]
fn evaluation_count_is_steps_over_frequency() {
    for freq in 1..6usize {
        let mut p = TrainProgress::new();
        let mut count = 0;
        for _ in 0..17 {
            if p.record_batch(3, freq) {
                count += 1;
            }
        }
        assert_eq!(count, 17 / freq);
    }
}

#[test]
fn layer_pairs_chain() {
    let sizes = vec![2, 7, 1, 9];
    let pairs = layer_pairs(&sizes);
    for k in 0..pairs.len() - 1 {
        assert_eq!(pairs[k].1, pairs[k + 1].0);
    }
    assert_eq!(pairs[0].0, 2);
    assert_eq!(pairs[pairs.len() - 1].1, 9);
}

#[test]
fn parameter_sums_of_gpt2_parts() {
    // attention: four 768 x 768 linear layers without bias
    let attention = sum_parameters(&vec![linear_parameters(589_824, None); 4]);
    assert_eq!(attention, 2_359_296);
    // feed-forward: 768 -> 3072 -> 768 with biases
    let feed_forward = sum_parameters(&vec![
        linear_parameters(2_359_296, Some(3_072)),
        linear_parameters(2_359_296, Some(768)),
    ]);
    assert_eq!(feed_forward, 4_722_432);
    let norm = sum_parameters(&vec![768, 768]);
    let block = sum_parameters(&vec![attention, feed_forward, norm, norm]);
    assert_eq!(block, 7_084_800);
    assert_eq!(sum_parameters(&vec![block; 12]), 85_017_600);
    assert_eq!(sum_parameters(&vec![]), 0);
}
