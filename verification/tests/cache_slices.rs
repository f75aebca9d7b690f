use openinfer::cache::{resolve_slice_bounds, CacheError};
use openinfer::cache::TensorIndexSelection;
use openinfer::cache_utils::{increment_scalar, slice_tensor_value};
use openinfer::dtype::DType;
use openinfer::tensor::TensorValue;

#[test]
fn slice_bounds_defaults_cover_whole_dimension() {
    assert_eq!(resolve_slice_bounds(5, None, None, true), Ok((0, 5)));
}

#[test]
fn slice_bounds_negative_end_counts_back() {
    assert_eq!(resolve_slice_bounds(5, Some(1), Some(-2), true), Ok((1, 3)));
    assert_eq!(resolve_slice_bounds(5, None, Some(-6), true), Err(CacheError::SliceEndUnderflow));
    assert_eq!(resolve_slice_bounds(5, None, Some(-1), false), Err(CacheError::SliceEndNegative));
}

#[test]
fn slice_bounds_reject_negative_start_and_reversed_range() {
    assert_eq!(resolve_slice_bounds(5, Some(-1), None, true), Err(CacheError::SliceStartNegative));
    assert_eq!(resolve_slice_bounds(5, Some(4), Some(2), true), Err(CacheError::SliceEndBeforeStart));
}

#[test]
fn slices_read_flat_offsets() {
    let t = TensorValue::new(DType::U8, vec![2, 2], vec![1, 2, 3, 4]).unwrap();
    let row = TensorIndexSelection { indices: vec![1], is_scalar: true };
    let cols = TensorIndexSelection { indices: vec![0, 1], is_scalar: false };
    let s = slice_tensor_value(&t, &[row, cols]).unwrap();
    assert_eq!((s.shape, s.data), (vec![2], vec![3, 4]));
    // an index past its dimension still reads inside the data: offset 0 * 2 + 2
    let first = TensorIndexSelection { indices: vec![0], is_scalar: true };
    let past = TensorIndexSelection { indices: vec![2], is_scalar: true };
    let s = slice_tensor_value(&t, &[first, past]).unwrap();
    assert_eq!((s.shape, s.data), (Vec::<usize>::new(), vec![3]));
}

#[test]
fn decrement_then_increment_gives_the_counter_back() {
    let t = TensorValue::new(DType::U8, vec![], vec![0]).unwrap();
    let down = increment_scalar(t.clone(), 1, true).unwrap();
    assert_eq!(down.data, vec![255]);
    let up = increment_scalar(down, 1, false).unwrap();
    assert_eq!(up.data, vec![0]);
    let s = TensorValue::new(DType::I16, vec![1], vec![0x7fff]).unwrap();
    let over = increment_scalar(s, 3, false).unwrap();
    assert_eq!(over.data, vec![0x8002]);
    let back = increment_scalar(over, 3, true).unwrap();
    assert_eq!(back.data, vec![0x7fff]);
}
