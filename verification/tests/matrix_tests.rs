use pepper::math::{new_point, ConstMatrix, DynMatrix, Matrix, RotationAxis};

type Mat4 = ConstMatrix<4, 4>;

fn assert_identity(m: &Mat4) {
    for c in 0..4 {
        for r in 0..4 {
            let want = if c == r { 1 } else { 0 };
            assert_eq!(m.get(c, r), want);
        }
    }
}

#[test]
fn identity_entries() {
    let m = Mat4::identity();
    assert_identity(&m);
    assert_eq!(m.width(), 4);
    assert_eq!(m.height(), 4);
}

#[test]
fn from_and_get_set() {
    let mut m = Mat4::from([
        [1, 2, 3, 4],
        [5, 6, 7, 8],
        [9, 10, 11, 12],
        [13, 14, 15, 16],
    ]);
    assert_eq!(m.get(0, 0), 1);
    assert_eq!(m.get(0, 3), 4);
    assert_eq!(m.get(3, 0), 13);
    assert_eq!(m.get(2, 1), 10);
    m.set(2, 1, 42);
    assert_eq!(m.get(2, 1), 42);
    assert_eq!(m.get(2, 0), 9);
}

#[test]
fn identity_times_matrix_is_matrix() {
    // identity() composed onto M leaves M unchanged.
    let vals = [
        [1, 2, 3, 4],
        [5, 6, 7, 8],
        [9, 10, 11, 12],
        [13, 14, 15, 16],
    ];
    let mut m = Mat4::from(vals);
    let id = Mat4::identity();
    m.multiply(&id);
    for c in 0..4 {
        for r in 0..4 {
            assert_eq!(m.get(c, r), vals[c][r]);
        }
    }
}

#[test]
fn matrix_times_identity_is_matrix() {
    // M composed onto identity() leaves M: starting from the identity as the
    // accumulated transform, applying M gives M.
    let vals = [
        [1, 2, 3, 4],
        [5, 6, 7, 8],
        [9, 10, 11, 12],
        [13, 14, 15, 16],
    ];
    let m = Mat4::from(vals);
    let mut id = Mat4::identity();
    id.multiply(&m);
    for c in 0..4 {
        for r in 0..4 {
            assert_eq!(id.get(c, r), vals[c][r]);
        }
    }
}

#[test]
fn multiply_composition_order() {
    // multiply is self <- other * self: scaling applied after a translation
    // scales the translation column too.
    let mut acc = Mat4::make_translate(5, 6, 7);
    let scale = Mat4::make_scale(2, 3, 4);
    acc.multiply(&scale);
    assert_eq!(acc.get(0, 0), 2);
    assert_eq!(acc.get(1, 1), 3);
    assert_eq!(acc.get(2, 2), 4);
    assert_eq!(acc.get(3, 0), 10);
    assert_eq!(acc.get(3, 1), 18);
    assert_eq!(acc.get(3, 2), 28);
    assert_eq!(acc.get(3, 3), 1);
}

#[test]
fn translate_compose_inverse_is_identity() {
    let mut m = Mat4::make_translate(3, -4, 5);
    let inv = Mat4::make_translate(-3, 4, -5);
    m.multiply(&inv);
    assert_identity(&m);
}

#[test]
fn scale_compose_reciprocal_is_identity() {
    // Over exact scalars the reciprocal factors of -1 and 1 are themselves.
    let mut m = Mat4::make_scale(-1, 1, -1);
    let inv = Mat4::make_scale(-1, 1, -1);
    m.multiply(&inv);
    assert_identity(&m);
}

#[test]
fn rotate_compose_negated_angle_is_identity() {
    // A quarter turn has cosine 0 and sine 1; the negated angle has sine -1.
    for axis in [RotationAxis::X, RotationAxis::Y, RotationAxis::Z] {
        let mut m = Mat4::make_rotate(axis, 0, 1);
        let inv = Mat4::make_rotate(axis, 0, -1);
        m.multiply(&inv);
        assert_identity(&m);
    }
}

#[test]
fn make_translate_entries() {
    let m = Mat4::make_translate(7, 8, 9);
    assert_eq!(m.get(3, 0), 7);
    assert_eq!(m.get(3, 1), 8);
    assert_eq!(m.get(3, 2), 9);
    assert_eq!(m.get(3, 3), 1);
    assert_eq!(m.get(0, 0), 1);
    assert_eq!(m.get(1, 0), 0);
}

#[test]
fn make_scale_entries() {
    let m = Mat4::make_scale(7, 8, 9);
    assert_eq!(m.get(0, 0), 7);
    assert_eq!(m.get(1, 1), 8);
    assert_eq!(m.get(2, 2), 9);
    assert_eq!(m.get(3, 3), 1);
    assert_eq!(m.get(3, 0), 0);
}

#[test]
fn make_rotate_sign_placement() {
    // Right-hand convention: the negated sine sits above the diagonal for X
    // and Z (rotating Y into Z, X into Y) and below it for Y (Z into X).
    let x = Mat4::make_rotate(RotationAxis::X, 3, 2);
    assert_eq!(x.get(1, 1), 3);
    assert_eq!(x.get(2, 1), -2);
    assert_eq!(x.get(1, 2), 2);
    assert_eq!(x.get(2, 2), 3);
    assert_eq!(x.get(0, 0), 1);

    let y = Mat4::make_rotate(RotationAxis::Y, 3, 2);
    assert_eq!(y.get(0, 0), 3);
    assert_eq!(y.get(2, 0), 2);
    assert_eq!(y.get(0, 2), -2);
    assert_eq!(y.get(2, 2), 3);
    assert_eq!(y.get(1, 1), 1);

    let z = Mat4::make_rotate(RotationAxis::Z, 3, 2);
    assert_eq!(z.get(0, 0), 3);
    assert_eq!(z.get(1, 0), -2);
    assert_eq!(z.get(0, 1), 2);
    assert_eq!(z.get(1, 1), 3);
    assert_eq!(z.get(2, 2), 1);
}

#[test]
fn dyn_matrix_new_and_identity() {
    let m = DynMatrix::new(2, 4);
    assert_eq!(m.width(), 2);
    assert_eq!(m.height(), 4);
    assert_eq!(m.get(1, 3), 0);
    let id = DynMatrix::identity(3, 3);
    assert_eq!(id.get(0, 0), 1);
    assert_eq!(id.get(1, 0), 0);
    assert_eq!(id.get(2, 2), 1);
}

#[test]
fn add_col_add_edge_and_clear() {
    let mut m = DynMatrix::new(0, 4);
    m.add_col(&new_point(1, 2, 3));
    assert_eq!(m.width(), 1);
    assert_eq!(m.get(0, 0), 1);
    assert_eq!(m.get(0, 1), 2);
    assert_eq!(m.get(0, 2), 3);
    assert_eq!(m.get(0, 3), 1);
    m.add_edge(&new_point(4, 5, 6), &new_point(7, 8, 9));
    assert_eq!(m.width(), 3);
    assert_eq!(m.get(1, 0), 4);
    assert_eq!(m.get(2, 0), 7);
    m.clear();
    assert_eq!(m.width(), 0);
    assert_eq!(m.height(), 4);
}

#[test]
fn edge_list_column_count_stays_even() {
    // Pairing invariant: edges and generators append whole column pairs.
    let mut m = DynMatrix::new(0, 4);
    assert_eq!(m.width() % 2, 0);
    m.add_edge(&new_point(0, 0, 0), &new_point(1, 1, 1));
    assert_eq!(m.width() % 2, 0);
    m.add_box(&new_point(0, 0, 0), 10, 10, 10);
    assert_eq!(m.width() % 2, 0);
    m.add_edge(&new_point(2, 2, 2), &new_point(3, 3, 3));
    assert_eq!(m.width() % 2, 0);
}

#[test]
fn transform_applies_to_edge_list() {
    let mut edges = DynMatrix::new(0, 4);
    edges.add_edge(&new_point(1, 2, 3), &new_point(-4, 5, -6));
    let scale = Mat4::make_scale(2, 3, 4);
    edges.multiply(&scale);
    assert_eq!(edges.get(0, 0), 2);
    assert_eq!(edges.get(0, 1), 6);
    assert_eq!(edges.get(0, 2), 12);
    assert_eq!(edges.get(0, 3), 1);
    assert_eq!(edges.get(1, 0), -8);
    assert_eq!(edges.get(1, 1), 15);
    assert_eq!(edges.get(1, 2), -24);
    assert_eq!(edges.get(1, 3), 1);
}

#[test]
fn box_generator_emits_twelve_axis_aligned_edges() {
    // add_box((0,0,0), 10, 10, 10) yields exactly 12 edges spanning the
    // corners (0,0,0) through (10,-10,-10), every edge axis-aligned.
    let mut m = DynMatrix::new(0, 4);
    m.add_box(&new_point(0, 0, 0), 10, 10, 10);
    assert_eq!(m.width(), 24);
    for k in 0..12 {
        let a = [m.get(2 * k, 0), m.get(2 * k, 1), m.get(2 * k, 2)];
        let b = [m.get(2 * k + 1, 0), m.get(2 * k + 1, 1), m.get(2 * k + 1, 2)];
        let mut same = 0;
        for i in 0..3 {
            assert!(a[i] == 0 || a[i] == 10 || a[i] == -10);
            assert!(b[i] == 0 || b[i] == 10 || b[i] == -10);
            if a[i] == b[i] {
                same += 1;
            }
        }
        assert!(same >= 2, "edge {} is not axis-aligned", k);
        assert_eq!(m.get(2 * k, 3), 1);
        assert_eq!(m.get(2 * k + 1, 3), 1);
    }
    // The first edge runs from the origin corner along +x.
    assert_eq!(
        [m.get(0, 0), m.get(0, 1), m.get(0, 2)],
        [0, 0, 0]
    );
    assert_eq!(
        [m.get(1, 0), m.get(1, 1), m.get(1, 2)],
        [10, 0, 0]
    );
    // The far corner (10, -10, -10) appears among the endpoints.
    let mut found_far = false;
    for j in 0..24 {
        if m.get(j, 0) == 10 && m.get(j, 1) == -10 && m.get(j, 2) == -10 {
            found_far = true;
        }
    }
    assert!(found_far);
}

#[test]
fn new_point_is_homogeneous() {
    let p = new_point(9, -8, 7);
    assert_eq!(p, vec![9, -8, 7, 1]);
}

#[test]
fn matrix_text_one_line_per_row() {
    let mut m = DynMatrix::new(0, 2);
    let mut p: Vec<i64> = Vec::new();
    p.push(1);
    p.push(-2);
    m.add_col(&p);
    let mut q: Vec<i64> = Vec::new();
    q.push(30);
    q.push(4);
    m.add_col(&q);
    assert_eq!(pepper::math::matrix_text(&m), "1 30 \n-2 4 \n");
}
