use candle_core::{Device, Tensor};
use llm_scratch::generate::{append_next_token, context_window, ids_to_tensor, tensor_to_ids};

#[test]
fn ids_become_a_single_row_batch() {
    let t = ids_to_tensor(&[5, 6, 7], &Device::Cpu).unwrap();
    assert_eq!(t.dims(), &[1, 3]);
    assert_eq!(t.to_vec2::<u32>().unwrap(), vec![vec![5, 6, 7]]);
}

#[test]
fn ids_round_trip() {
    let t = ids_to_tensor(&[9, 8, 7, 6], &Device::Cpu).unwrap();
    assert_eq!(tensor_to_ids(&t).unwrap(), vec![9, 8, 7, 6]);
}

#[test]
fn tensor_to_ids_refuses_wider_batches() {
    let t = Tensor::new(vec![vec![1u32, 2], vec![3, 4]], &Device::Cpu).unwrap();
    assert!(tensor_to_ids(&t).is_err());
}

#[test]
fn tensor_to_ids_refuses_scalars() {
    let t = Tensor::new(3u32, &Device::Cpu).unwrap();
    assert!(tensor_to_ids(&t).is_err());
}

#[test]
fn context_window_keeps_last_tokens() {
    let t = Tensor::new(vec![vec![1u32, 2, 3, 4, 5], vec![6, 7, 8, 9, 10]], &Device::Cpu).unwrap();
    let w = context_window(&t, 2).unwrap();
    assert_eq!(w.to_vec2::<u32>().unwrap(), vec![vec![4, 5], vec![9, 10]]);
}

#[test]
fn context_window_keeps_short_sequences_whole() {
    let t = Tensor::new(vec![vec![1u32, 2, 3]], &Device::Cpu).unwrap();
    let w = context_window(&t, 1024).unwrap();
    assert_eq!(w.to_vec2::<u32>().unwrap(), vec![vec![1, 2, 3]]);
    let w = context_window(&t, 3).unwrap();
    assert_eq!(w.to_vec2::<u32>().unwrap(), vec![vec![1, 2, 3]]);
}

#[test]
fn context_window_of_zero() {
    let t = Tensor::new(vec![vec![1u32, 2, 3]], &Device::Cpu).unwrap();
    let w = context_window(&t, 0).unwrap();
    assert_eq!(w.dims(), &[1, 0]);
}

#[test]
fn context_window_refuses_scalars() {
    let t = Tensor::new(3u32, &Device::Cpu).unwrap();
    assert!(context_window(&t, 2).is_err());
}

#[test]
fn append_adds_one_token_per_row() {
    let t = Tensor::new(vec![vec![1u32, 2], vec![3, 4]], &Device::Cpu).unwrap();
    let next = Tensor::new(vec![vec![9u32], vec![8]], &Device::Cpu).unwrap();
    let c = append_next_token(&t, &next).unwrap();
    assert_eq!(c.to_vec2::<u32>().unwrap(), vec![vec![1, 2, 9], vec![3, 4, 8]]);
}

#[test]
fn append_refuses_mismatched_rows() {
    let t = Tensor::new(vec![vec![1u32, 2], vec![3, 4]], &Device::Cpu).unwrap();
    let next = Tensor::new(vec![vec![9u32]], &Device::Cpu).unwrap();
    assert!(append_next_token(&t, &next).is_err());
}

#[test]
fn generation_window_then_append() {
    let mut idx = ids_to_tensor(&[1, 2, 3], &Device::Cpu).unwrap();
    for step in 0..3u32 {
        let cond = context_window(&idx, 2).unwrap();
        assert_eq!(cond.dims(), &[1, 2]);
        let next = Tensor::new(vec![vec![10 + step]], &Device::Cpu).unwrap();
        idx = append_next_token(&idx, &next).unwrap();
    }
    assert_eq!(tensor_to_ids(&idx).unwrap(), vec![1, 2, 3, 10, 11, 12]);
}

#[test]
fn tensor_to_ids_reads_a_plain_sequence() {
    let t = Tensor::new(&[4u32, 5, 6][..], &Device::Cpu).unwrap();
    assert_eq!(tensor_to_ids(&t).unwrap(), vec![4, 5, 6]);
    let one = Tensor::new(&[4u32][..], &Device::Cpu).unwrap();
    assert!(tensor_to_ids(&one).is_err());
}

#[test]
fn tensor_to_ids_refuses_float_tensors() {
    let t = Tensor::new(&[[1f32, 2.0]], &Device::Cpu).unwrap();
    assert!(tensor_to_ids(&t).is_err());
}

#[test]
fn context_window_of_a_plain_sequence() {
    let t = Tensor::new(&[1u32, 2, 3, 4][..], &Device::Cpu).unwrap();
    let w = context_window(&t, 3).unwrap();
    assert_eq!(w.to_vec1::<u32>().unwrap(), vec![2, 3, 4]);
}
