use tract_core::error::Error;
use tract_core::indices::tile_offsets;
use tract_core::shapes::infer_shapes;

#[test]
fn infer_shapes_broadcasts_the_prefixes() {
    let (a, b, c, c_final) =
        infer_shapes(vec![2usize, 1, 3, 4], vec![1usize, 5, 4, 6], false, false, false).unwrap();
    assert_eq!(a, vec![2, 1, 3, 4]);
    assert_eq!(b, vec![1, 5, 4, 6]);
    assert_eq!(c, vec![2, 5, 3, 6]);
    assert_eq!(c_final, vec![2, 5, 3, 6]);
}

#[test]
fn infer_shapes_rejects_prefixes_that_do_not_broadcast() {
    let r = infer_shapes(vec![2usize, 3, 4], vec![3usize, 4, 6], false, false, false);
    assert_eq!(r.unwrap_err(), Error::Broadcast);
}

#[test]
fn tile_offsets_follow_row_major_order() {
    // An operand of shape [2, 1, 3, 4] read along the prefix [2, 5].
    let offsets = tile_offsets(&vec![2, 1, 3, 4], &vec![2, 5]).unwrap();
    assert_eq!(offsets, vec![0, 0, 0, 0, 0, 12, 12, 12, 12, 12]);
}
