use xdbuf::{XDBuf, XdError};

#[test]
fn test_total_size_345() {
    let size = [3, 4, 5];
    let total_size = XDBuf::<i32, 3>::calc_total_size(&size).unwrap();
    assert_eq!(total_size, 60);
}

#[test]
fn test_stride_345() {
    let size = [3, 4, 5];
    let stride = XDBuf::<i32, 3>::calc_dim_stride(&size).unwrap();
    assert_eq!(stride, [1, 3, 12]);

    let buf = XDBuf::<i32, 3>::new(size, 0).unwrap();
    assert_eq!(buf.stride(), &[1, 3, 12]);
}

#[test]
fn test_offset_example() {
    let buf = XDBuf::<i32, 3>::new([3, 4, 5], 0).unwrap();

    let index = [1, 2, 3];
    let scalar = buf.to_scalar_index(&index).unwrap();

    assert_eq!(scalar, 3 * 4 * 3 + 3 * 2 + 1);
    assert_eq!(scalar, 43);
}

#[test]
fn test_construction_mismatch() {
    let size = [3, 4, 5];
    let initial_vec = vec![0; 59]; // 59 != 3 * 4 * 5
    let r = XDBuf::<i32, 3>::new_with_vec(size, initial_vec);
    assert_eq!(r.unwrap_err(), XdError::ShapeMismatch);
}

#[test]
fn test_zero_extent() {
    let size = [3, 0, 5];
    let r = XDBuf::<i32, 3>::calc_total_size(&size);
    assert_eq!(r.unwrap_err(), XdError::OutOfRange);

    let r = XDBuf::<i32, 3>::new(size, 0);
    assert!(r.is_err());
}

#[test]
fn test_total_size_overflow() {
    let size = [usize::MAX, 2];
    let r = XDBuf::<i32, 2>::calc_total_size(&size);
    assert_eq!(r.unwrap_err(), XdError::OutOfRange);
}

#[test]
fn test_stride_overflow() {
    let size = [usize::MAX, 2, 2];
    let r = XDBuf::<i32, 3>::calc_dim_stride(&size);
    assert_eq!(r.unwrap_err(), XdError::OutOfRange);

    // The last extent never enters a stride, so this one still succeeds.
    let size = [2, 2, usize::MAX];
    let stride = XDBuf::<i32, 3>::calc_dim_stride(&size).unwrap();
    assert_eq!(stride, [1, 2, 4]);
}

#[test]
fn test_scalar_index_overflow() {
    let buf = XDBuf::<i32, 2>::new([3, 3], 0).unwrap();
    let r = buf.to_scalar_index(&[usize::MAX, usize::MAX]);
    assert_eq!(r.unwrap_err(), XdError::OutOfRange);
}

#[test]
fn test_round_trip_all_coordinates() {
    let buf = XDBuf::<i32, 3>::new([3, 4, 5], 0).unwrap();
    for x in 0..3 {
        for y in 0..4 {
            for z in 0..5 {
                let index = [x, y, z];
                let walker = buf.walker_from(index).unwrap();
                assert_eq!(walker.index_m(), index);
            }
        }
    }
}

#[test]
fn test_get() {
    let initial_vec = (1..=60).collect::<Vec<i32>>();
    let buf = XDBuf::<i32, 3>::new_with_vec([3, 4, 5], initial_vec).unwrap();

    assert_eq!(buf.get(0), Some(&1));
    assert_eq!(buf.get(1), Some(&2));
    assert_eq!(buf.get(59), Some(&60));
    assert_eq!(buf.get(60), None);
}

#[test]
fn test_get_mut() {
    let initial_vec = (1..=60).collect::<Vec<i32>>();
    let mut buf = XDBuf::<i32, 3>::new_with_vec([3, 4, 5], initial_vec).unwrap();

    assert_eq!(buf.get(0), Some(&1));

    let value = buf.get_mut(0).unwrap();
    *value = 100;

    assert_eq!(buf.get(0), Some(&100));
    assert!(buf.get_mut(60).is_none());
}

#[test]
fn test_set() {
    let mut buf = XDBuf::<i32, 2>::new([2, 2], 0).unwrap();
    buf.set(3, 9).unwrap();
    assert_eq!(buf.get(3), Some(&9));
    assert_eq!(buf.set(4, 9).unwrap_err(), XdError::OutOfRange);
    assert_eq!(buf.get(3), Some(&9));
}

#[test]
fn test_init_smaller() {
    let mut buf = XDBuf::<i32, 3>::new([3, 4, 5], 0).unwrap();
    assert_eq!(buf.len(), 60);
    assert_eq!(buf.get(0), Some(&0));

    buf.init([1, 2, 3], 1).unwrap();
    assert_eq!(buf.len(), 6);
    assert_eq!(buf.get(0), Some(&1));
    assert_eq!(buf.get(5), Some(&1));
    assert_eq!(buf.get(6), None);
    assert_eq!(buf.stride(), &[1, 1, 2]);

    // An explicit trim afterwards leaves the contents untouched.
    buf.shrink_to_fit();
    assert_eq!(buf.len(), 6);
    assert_eq!(buf.get(0), Some(&1));
    assert_eq!(buf.get(5), Some(&1));
}

#[test]
fn test_init_failure_leaves_buffer_usable() {
    let mut buf = XDBuf::<i32, 2>::new([2, 3], 7).unwrap();
    assert_eq!(buf.init([0, 4], 1).unwrap_err(), XdError::OutOfRange);
    assert_eq!(buf.len(), 6);
    assert_eq!(buf.get(0), Some(&7));
    assert_eq!(buf.stride(), &[1, 2]);
}

#[test]
fn test_init_with_vec() {
    let mut buf = XDBuf::<i32, 3>::new([3, 4, 5], 0).unwrap();
    assert_eq!(buf.len(), 60);

    let initial_vec = vec![1; 6];
    buf.init_with_vec([1, 2, 3], initial_vec).unwrap();
    assert_eq!(buf.len(), 6);
    assert_eq!(buf.get(0), Some(&1));
}

#[test]
fn test_init_with_vec_mismatch() {
    let mut buf = XDBuf::<i32, 3>::new([3, 4, 5], 0).unwrap();
    assert_eq!(buf.len(), 60);

    let initial_vec = vec![1; 5]; // 5 != 1 * 2 * 3
    let r = buf.init_with_vec([1, 2, 3], initial_vec);
    assert_eq!(r.unwrap_err(), XdError::ShapeMismatch);
    assert_eq!(buf.len(), 60);
    assert_eq!(buf.get(0), Some(&0));
    assert_eq!(buf.stride(), &[1, 3, 12]);
}

#[test]
fn test_len_and_idx_range() {
    let buf = XDBuf::<i32, 3>::new([3, 4, 5], 0).unwrap();
    assert_eq!(buf.len(), 60);
    assert_eq!(buf.idx_range(), 0..60);
}

#[test]
fn test_rank_zero() {
    // A zero-rank buffer holds exactly one element: the empty product.
    let buf = XDBuf::<i32, 0>::new([], 5).unwrap();
    assert_eq!(buf.len(), 1);
    assert_eq!(buf.get(0), Some(&5));
    assert_eq!(buf.get(1), None);
    assert_eq!(buf.to_scalar_index(&[]).unwrap(), 0);
}

#[test]
fn test_rank_one() {
    let buf = XDBuf::<i32, 1>::new_with_vec([4], vec![10, 20, 30, 40]).unwrap();
    assert_eq!(buf.len(), 4);
    assert_eq!(buf.stride(), &[1]);
    assert_eq!(buf.to_scalar_index(&[2]).unwrap(), 2);

    let walker = buf.walker_from([1]).unwrap();
    assert_eq!(walker.next_index().unwrap(), 2);
    assert_eq!(walker.index_(&[-1]).unwrap(), 0);
    assert_eq!(walker.index_(&[3]).unwrap_err(), XdError::OutOfRange);
}

#[test]
fn test_walker_from_out_of_range() {
    let buf = XDBuf::<i32, 2>::new([3, 3], 0).unwrap();
    let r = buf.walker_from([3, 0]);
    assert_eq!(r.unwrap_err(), XdError::OutOfRange);
    assert!(buf.walker_from([2, 2]).is_ok());
}
