use tensor::{window_mut, Tensor, TensorError};

fn counted(n: u32, shape: &Vec<usize>) -> Tensor<u32> {
    Tensor::new((0..n).collect(), shape)
}

#[test]
fn reshape_keeps_the_elements_in_order() {
    let mut t = counted(12, &vec![3, 4]);
    let before = t.data().to_vec();
    t.reshape(&vec![2, 6]);
    assert_eq!(t.shape(), &vec![2, 6]);
    assert_eq!(t.data(), &before[..]);
    assert_eq!(t.size(), 12);
    assert_eq!(t.offset(), 0);
}

#[test]
fn reshape_returns_the_tensor_for_chaining() {
    let mut t = counted(12, &vec![12]);
    let n = t.reshape(&vec![3, 4]).reshape(&vec![2, 2, 3]).size();
    assert_eq!(n, 12);
    assert_eq!(t.shape(), &vec![2, 2, 3]);
    assert_eq!(t.data(), &[0, 1, 2, 3, 4, 5, 6, 7, 8, 9, 10, 11]);
}

#[test]
fn reshape_of_a_slice_keeps_its_window() {
    let t = counted(12, &vec![12]);
    let mut s = t.slice(2, &vec![6]);
    s.reshape(&vec![2, 3]);
    assert_eq!(s.offset(), 2);
    assert_eq!(s.data(), &[2, 3, 4, 5, 6, 7]);
    assert_eq!(t.shape(), &vec![12]);
}

#[test]
fn try_reshape_accepts_the_same_element_count() {
    let mut t = counted(6, &vec![6]);
    assert!(t.try_reshape(&vec![3, 2]).is_ok());
    assert_eq!(t.shape(), &vec![3, 2]);
    assert_eq!(t.data(), &[0, 1, 2, 3, 4, 5]);
}

#[test]
fn try_reshape_rejects_another_element_count() {
    let mut t = counted(6, &vec![2, 3]);
    assert_eq!(t.try_reshape(&vec![4, 2]).err(), Some(TensorError::ShapeMismatch));
    assert_eq!(t.shape(), &vec![2, 3]);
    assert_eq!(t.data(), &[0, 1, 2, 3, 4, 5]);
    assert_eq!(t.try_reshape(&vec![]).err(), Some(TensorError::ShapeMismatch));
    assert_eq!(t.try_reshape(&vec![6, 0]).err(), Some(TensorError::ShapeMismatch));
    assert_eq!(t.shape(), &vec![2, 3]);
}

#[test]
fn try_reshape_rejects_a_shape_too_large_to_count() {
    let mut t = counted(6, &vec![2, 3]);
    assert_eq!(t.try_reshape(&vec![usize::MAX, 3]).err(), Some(TensorError::ShapeMismatch));
    assert_eq!(t.shape(), &vec![2, 3]);
}

#[test]
fn slice_is_a_window_of_the_parent() {
    let t = counted(24, &vec![4, 6]);
    let s = t.slice(5, &vec![3, 4]);
    assert_eq!(s.shape(), &vec![3, 4]);
    assert_eq!(s.size(), 12);
    assert_eq!(s.offset(), 5);
    for k in 0..s.size() {
        assert_eq!(s.data()[k], t.data()[5 + k]);
    }
    assert_eq!(s.data(), &[5, 6, 7, 8, 9, 10, 11, 12, 13, 14, 15, 16]);
}

#[test]
fn slice_shares_the_buffer_of_the_parent() {
    let t = counted(10, &vec![10]);
    let s = t.slice(3, &vec![4]);
    assert!(std::ptr::eq(&s.data()[0], &t.data()[3]));
    assert!(std::ptr::eq(&s.data()[3], &t.data()[6]));
}

#[test]
fn slice_may_be_empty_or_whole() {
    let t = counted(6, &vec![2, 3]);
    let whole = t.slice(0, &vec![6]);
    assert_eq!(whole.data(), t.data());
    let none = t.slice(6, &vec![0]);
    assert_eq!(none.size(), 0);
    assert_eq!(none.offset(), 6);
    let one = t.slice(5, &vec![]);
    assert_eq!(one.data(), &[5]);
}

#[test]
fn slice_of_a_slice_adds_the_offsets() {
    let t = counted(20, &vec![20]);
    let s = t.slice(2, &vec![10]);
    let inner = s.slice(3, &vec![5]);
    assert_eq!(inner.offset(), 5);
    assert_eq!(inner.data(), &[5, 6, 7, 8, 9]);
    for k in 0..5 {
        assert_eq!(inner.data()[k], s.data()[3 + k]);
    }
}

#[test]
fn try_slice_accepts_a_window_inside() {
    let t = counted(10, &vec![10]);
    let s = t.try_slice(4, &vec![2, 3]).unwrap();
    assert_eq!(s.data(), &[4, 5, 6, 7, 8, 9]);
    assert_eq!(s.shape(), &vec![2, 3]);
    assert_eq!(s.offset(), 4);
}

#[test]
fn try_slice_rejects_a_window_past_the_end() {
    let t = counted(10, &vec![10]);
    assert_eq!(t.try_slice(5, &vec![6]).err(), Some(TensorError::OutOfBounds));
    assert_eq!(t.try_slice(11, &vec![0]).err(), Some(TensorError::OutOfBounds));
    assert_eq!(t.try_slice(0, &vec![11]).err(), Some(TensorError::OutOfBounds));
    assert_eq!(t.try_slice(10, &vec![]).err(), Some(TensorError::OutOfBounds));
    assert!(t.try_slice(10, &vec![0]).is_ok());
}

#[test]
fn try_slice_rejects_sizes_that_overflow() {
    let t = counted(10, &vec![10]);
    assert_eq!(t.try_slice(usize::MAX, &vec![2]).err(), Some(TensorError::OutOfBounds));
    assert_eq!(t.try_slice(0, &vec![usize::MAX, 2]).err(), Some(TensorError::OutOfBounds));
    assert_eq!(t.try_slice(1, &vec![usize::MAX]).err(), Some(TensorError::OutOfBounds));
}

#[test]
fn try_slice_counts_the_offset_against_the_length() {
    let t = counted(20, &vec![20]);
    let s = t.slice(2, &vec![10]);
    assert!(s.try_slice(3, &vec![5]).is_ok());
    assert!(s.try_slice(0, &vec![8]).is_ok());
    assert_eq!(s.try_slice(0, &vec![9]).err(), Some(TensorError::OutOfBounds));
    assert_eq!(s.try_slice(4, &vec![5]).err(), Some(TensorError::OutOfBounds));
    let deep = t.slice(12, &vec![8]);
    assert_eq!(deep.try_slice(0, &vec![1]).err(), Some(TensorError::OutOfBounds));
    assert_eq!(deep.try_slice(0, &vec![0]).err(), Some(TensorError::OutOfBounds));
}

#[test]
fn data_mut_of_a_sole_owner_writes_through() {
    let mut t = counted(6, &vec![2, 3]);
    {
        let w = t.data_mut().unwrap();
        assert_eq!(w, &[0, 1, 2, 3, 4, 5]);
        w[4] = 40;
        w[0] = 7;
    }
    assert_eq!(t.data(), &[7, 1, 2, 3, 40, 5]);
    assert_eq!(t.shape(), &vec![2, 3]);
    assert_eq!(t.offset(), 0);
    assert_eq!(t.size(), 6);
}

#[test]
fn data_mut_is_refused_while_the_buffer_is_shared() {
    let mut t = counted(6, &vec![6]);
    let mut s = t.slice(1, &vec![3]);
    assert!(t.data_mut().is_none());
    assert!(s.data_mut().is_none());
    assert_eq!(t.data(), &[0, 1, 2, 3, 4, 5]);
    assert_eq!(s.data(), &[1, 2, 3]);
    let c = t.clone();
    drop(s);
    assert!(t.data_mut().is_none());
    drop(c);
    assert!(t.data_mut().is_some());
}

#[test]
fn data_mut_of_a_slice_covers_only_its_window() {
    let t = counted(8, &vec![8]);
    let mut s = t.slice(2, &vec![4]);
    drop(t);
    {
        let w = s.data_mut().unwrap();
        assert_eq!(w.len(), 4);
        assert_eq!(w, &[2, 3, 4, 5]);
        w[0] = 20;
        w[3] = 50;
    }
    assert_eq!(s.data(), &[20, 3, 4, 50]);
    assert_eq!(s.offset(), 2);
    assert_eq!(s.size(), 4);
}

#[test]
fn a_write_is_seen_by_slices_taken_afterwards() {
    let mut t = counted(8, &vec![8]);
    {
        let w = t.data_mut().unwrap();
        for k in 0..8 {
            w[k] = 100 + w[k];
        }
    }
    let s = t.slice(3, &vec![2, 2]);
    assert_eq!(s.data(), &[103, 104, 105, 106]);
    for k in 0..4 {
        assert_eq!(s.data()[k], t.data()[3 + k]);
    }
}

#[test]
fn shape_and_size_agree_after_a_write() {
    let mut t = counted(6, &vec![3, 2]);
    t.data_mut().unwrap()[5] = 50;
    assert_eq!(t.shape().iter().product::<usize>(), t.size());
    assert_eq!(t.data().len(), t.size());
}

#[test]
fn window_mut_is_the_part_asked_for() {
    let mut buffer = vec![1u8, 2, 3, 4, 5];
    {
        let w = window_mut(&mut buffer, 1, 3);
        assert_eq!(w, &[2, 3, 4]);
        w[0] = 20;
        w[2] = 40;
    }
    assert_eq!(buffer, vec![1, 20, 3, 40, 5]);
}

#[test]
fn window_mut_may_be_empty_or_whole() {
    let mut buffer = vec![1u8, 2, 3];
    assert!(window_mut(&mut buffer, 3, 0).is_empty());
    assert!(window_mut(&mut buffer, 0, 0).is_empty());
    {
        let w = window_mut(&mut buffer, 0, 3);
        w[1] = 9;
    }
    assert_eq!(buffer, vec![1, 9, 3]);
}
