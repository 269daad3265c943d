use pepper::matrix::{const_multi, identity, new_point, ConstMatrix, Matrix};

#[test]
fn legacy_const_matrix_new_is_zero() {
    let m = ConstMatrix::<4, 4>::new();
    for c in 0..4 {
        for r in 0..4 {
            assert_eq!(m.get(c, r), 0);
        }
    }
}

#[test]
fn legacy_set_col_replaces_one_column() {
    let mut m = ConstMatrix::<4, 4>::new();
    m.set_col(2, &[9, 8, 7, 6]);
    assert_eq!(m.get(2, 0), 9);
    assert_eq!(m.get(2, 1), 8);
    assert_eq!(m.get(2, 2), 7);
    assert_eq!(m.get(2, 3), 6);
    assert_eq!(m.get(1, 0), 0);
    assert_eq!(m.get(3, 3), 0);
}

#[test]
fn legacy_identity_fills_diagonal() {
    let mut m = ConstMatrix::<4, 4>::new();
    m.set_col(0, &[5, 5, 5, 5]);
    identity(&mut m);
    for c in 0..4 {
        for r in 0..4 {
            let want = if c == r { 1 } else { 0 };
            assert_eq!(m.get(c, r), want);
        }
    }
}

#[test]
fn legacy_matrix_grows_by_points_and_edges() {
    let mut m = Matrix::new(0, 4);
    assert_eq!(m.width(), 0);
    assert_eq!(m.height(), 4);
    m.add_point(new_point(1, 2, 3));
    assert_eq!(m.width(), 1);
    assert_eq!(m.col_entry(0, 0), 1);
    assert_eq!(m.col_entry(0, 3), 1);
    m.add_edge(new_point(4, 5, 6), new_point(7, 8, 9));
    assert_eq!(m.width(), 3);
    assert_eq!(m.col_entry(1, 1), 5);
    assert_eq!(m.col_entry(2, 2), 9);
}

#[test]
fn legacy_set_inner_replaces_a_column() {
    let mut m = Matrix::new(2, 4);
    m.set_inner(1, new_point(3, 4, 5));
    assert_eq!(m.col_entry(1, 0), 3);
    assert_eq!(m.col_entry(1, 1), 4);
    assert_eq!(m.col_entry(1, 2), 5);
    assert_eq!(m.col_entry(1, 3), 1);
    assert_eq!(m.col_entry(0, 0), 0);
}

#[test]
fn legacy_const_multi_identity_keeps_points() {
    let mut a = ConstMatrix::<4, 4>::new();
    identity(&mut a);
    let mut b = Matrix::new(0, 4);
    b.add_edge(new_point(1, 2, 3), new_point(-4, 5, -6));
    let c = const_multi(a, &b);
    assert_eq!(c.width(), 2);
    assert_eq!(c.height(), 4);
    for col in 0..2 {
        for row in 0..4 {
            assert_eq!(c.col_entry(col, row), b.col_entry(col, row));
        }
    }
}

#[test]
fn legacy_const_multi_scales_points() {
    let mut a = ConstMatrix::<4, 4>::new();
    identity(&mut a);
    a.set_col(0, &[2, 0, 0, 0]);
    a.set_col(1, &[0, 3, 0, 0]);
    a.set_col(2, &[0, 0, 4, 0]);
    let mut b = Matrix::new(0, 4);
    b.add_point(new_point(1, 2, 3));
    let c = const_multi(a, &b);
    assert_eq!(c.col_entry(0, 0), 2);
    assert_eq!(c.col_entry(0, 1), 6);
    assert_eq!(c.col_entry(0, 2), 12);
    assert_eq!(c.col_entry(0, 3), 1);
}

#[test]
fn legacy_new_point_is_homogeneous() {
    assert_eq!(new_point(4, 5, 6), vec![4, 5, 6, 1]);
}
