use ndarr::broadcast::{broadcast_shape, const_max, path_shape, rev_cast_pos};
use ndarr::elements::{insert_element, remove_element};
use ndarr::error::DimError;
use ndarr::index::{get_flat_pos, get_indexes};
use ndarr::shape::multiply_list;

#[test]
fn multiply_list_empty_is_init() {
    assert_eq!(multiply_list(&[], 7), 7);
}

#[test]
fn multiply_list_product() {
    assert_eq!(multiply_list(&[2, 3, 4], 1), 24);
    assert_eq!(multiply_list(&[2, 3, 4], 5), 120);
}

#[test]
fn flat_pos_in_bounds() {
    assert_eq!(get_flat_pos(&[1, 2], &[2, 3]), Ok(5));
    assert_eq!(get_flat_pos(&[0, 0], &[2, 3]), Ok(0));
    assert_eq!(get_flat_pos(&[1, 2, 3], &[2, 3, 4]), Ok(23));
}

#[test]
fn flat_pos_out_of_bounds() {
    assert_eq!(get_flat_pos(&[2, 0], &[2, 3]), Err(DimError::IndexOutOfBounds));
    assert_eq!(get_flat_pos(&[0, 3], &[2, 3]), Err(DimError::IndexOutOfBounds));
    assert_eq!(get_flat_pos(&[0, 0, usize::MAX], &[1, 4, 4]), Err(DimError::IndexOutOfBounds));
}

#[test]
fn flat_pos_rank_zero() {
    let empty: [usize; 0] = [];
    assert_eq!(get_flat_pos(&empty, &empty), Ok(0));
}

#[test]
fn indexes_of_flat_position() {
    assert_eq!(get_indexes(&5, &[2, 3]), [1, 2]);
    assert_eq!(get_indexes(&23, &[2, 3, 4]), [1, 2, 3]);
    assert_eq!(get_indexes(&0, &[2, 3, 4]), [0, 0, 0]);
}

#[test]
fn indexes_wrap_past_the_end() {
    assert_eq!(get_indexes(&6, &[2, 3]), [0, 0]);
}

#[test]
fn round_trip_flat_first() {
    let shape = [2, 3, 4];
    for p in 0..24 {
        let idx = get_indexes(&p, &shape);
        assert_eq!(get_flat_pos(&idx, &shape), Ok(p));
    }
}

#[test]
fn round_trip_index_first() {
    let shape = [3, 1, 5];
    for a in 0..3 {
        for c in 0..5 {
            let idx = [a, 0, c];
            let p = get_flat_pos(&idx, &shape).unwrap();
            assert_eq!(get_indexes(&p, &shape), idx);
        }
    }
}

#[test]
fn padding_identity() {
    let r: Result<[usize; 2], DimError> = path_shape(&[4, 5]);
    assert_eq!(r, Ok([4, 5]));
}

#[test]
fn padding_alignment() {
    let r: Result<[usize; 3], DimError> = path_shape(&[5]);
    assert_eq!(r, Ok([1, 1, 5]));
}

#[test]
fn padding_rejection() {
    let r: Result<[usize; 2], DimError> = path_shape(&[2, 3, 4]);
    assert_eq!(
        r,
        Err(DimError::RankMismatch { shape: vec![2, 3, 4], rank: 3, target: 2 })
    );
}

#[test]
fn broadcast_classic() {
    assert_eq!(broadcast_shape(&[8, 1, 6, 1], &[7, 1, 5]), Ok(vec![8, 7, 6, 5]));
}

#[test]
fn broadcast_lower_rank() {
    assert_eq!(broadcast_shape(&[3, 4], &[4]), Ok(vec![3, 4]));
}

#[test]
fn broadcast_incompatible() {
    assert_eq!(
        broadcast_shape(&[3, 4], &[2, 1]),
        Err(DimError::BroadcastError { shape1: vec![3, 4], shape2: vec![2, 1] })
    );
}

#[test]
fn broadcast_commutative() {
    assert_eq!(
        broadcast_shape(&[8, 1, 6, 1], &[7, 1, 5]),
        broadcast_shape(&[7, 1, 5], &[8, 1, 6, 1])
    );
    assert_eq!(broadcast_shape(&[3, 4], &[4]), broadcast_shape(&[4], &[3, 4]));
    assert_eq!(
        broadcast_shape(&[2, 1], &[3, 4]),
        Err(DimError::BroadcastError { shape1: vec![2, 1], shape2: vec![3, 4] })
    );
}

#[test]
fn broadcast_empty_shapes() {
    let empty: [usize; 0] = [];
    assert_eq!(broadcast_shape(&empty, &empty), Ok(vec![]));
    assert_eq!(broadcast_shape(&empty, &[2, 3]), Ok(vec![2, 3]));
}

#[test]
fn reverse_broadcast_clamps_unit_axis() {
    assert_eq!(rev_cast_pos(&[1, 3], &[5, 2]), Ok(2));
}

#[test]
fn reverse_broadcast_drops_leading_axes() {
    assert_eq!(rev_cast_pos(&[3], &[4, 7, 2]), Ok(2));
    assert_eq!(rev_cast_pos(&[2, 1, 3], &[9, 1, 4, 2]), Ok(5));
}

#[test]
fn reverse_broadcast_rank_mismatch() {
    assert_eq!(
        rev_cast_pos(&[2, 3], &[1]),
        Err(DimError::RankMismatch { shape: vec![2, 3], rank: 2, target: 1 })
    );
}

#[test]
fn const_max_picks_larger() {
    assert_eq!(const_max(3, 7), 7);
    assert_eq!(const_max(7, 3), 7);
    assert_eq!(const_max(4, 4), 4);
}

#[test]
fn remove_element_middle() {
    let r: [i32; 2] = remove_element([10, 20, 30], 1);
    assert_eq!(r, [10, 30]);
    let r: [i32; 2] = remove_element([10, 20, 30], 0);
    assert_eq!(r, [20, 30]);
}

#[test]
fn insert_element_positions() {
    let r: [i32; 4] = insert_element([10, 20, 30], 1, 99);
    assert_eq!(r, [10, 99, 20, 30]);
    let r: [i32; 4] = insert_element([10, 20, 30], 3, 99);
    assert_eq!(r, [10, 20, 30, 99]);
    let r: [i32; 1] = insert_element([], 0, 5);
    assert_eq!(r, [5]);
}
