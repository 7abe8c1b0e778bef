use gameoflife::grid::Grid;

#[test]
fn from_rows_refuses_ragged_columns() {
    assert!(Grid::from_rows(vec![vec![1u8, 2], vec![3]]).is_none());
    let g = Grid::from_rows(vec![vec![1u8, 2, 3], vec![4, 5, 6]]).unwrap();
    assert_eq!(g.numx(), 2);
    assert_eq!(g.numy(), 3);
    assert_eq!(g.at(1, 2), 6);
    assert_eq!(g.get(0, 1), Some(2));
    assert_eq!(g.get(2, 0), None);
    assert_eq!(g.get(0, 3), None);
}

#[test]
fn from_shape_vec_reads_row_major_storage() {
    assert!(Grid::from_shape_vec(2, 3, vec![0u8; 5]).is_none());
    assert!(Grid::from_shape_vec(usize::MAX, 2, vec![0u8; 2]).is_none());
    let g = Grid::from_shape_vec(2, 3, vec![1u8, 2, 3, 4, 5, 6]).unwrap();
    assert_eq!(g.to_rows(), vec![vec![1, 2, 3], vec![4, 5, 6]]);
    assert_eq!(g.storage(), &vec![1, 2, 3, 4, 5, 6]);
}

#[test]
fn set_changes_one_cell() {
    let mut g = Grid::from_elem(2, 2, 0u8);
    g.set(1, 0, 7);
    assert_eq!(g.to_rows(), vec![vec![0, 0], vec![7, 0]]);
    let e = Grid::from_rows(Vec::<Vec<u8>>::new()).unwrap();
    assert_eq!(e.numx(), 0);
    assert_eq!(e.numy(), 0);
}
