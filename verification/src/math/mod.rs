mod const_matrix;
pub use const_matrix::ConstMatrix;

mod dyn_matrix;
pub use dyn_matrix::DynMatrix;

mod math;
pub use math::axis_aligned;
pub use math::box_columns;
pub use math::box_point;
pub use math::ident_entry;
pub use math::is_rotate_grid;
pub use math::is_scale_grid;
pub use math::is_translate_grid;
pub use math::lemma_box_axis_aligned;
pub use math::lemma_rotate_inverse;
pub use math::lemma_rotate_orthonormal;
pub use math::lemma_scale_inverse;
pub use math::lemma_translate_inverse;
pub use math::new_point;
pub use math::rotate_col_dot;
pub use math::rotate_entry;
pub use math::rotate_row_dot;
pub use math::same_coord;
pub use math::scale_entry;
pub use math::translate_entry;
pub use math::Curve;
pub use math::Point;
pub use math::RotationAxis;

mod matrix;
pub use matrix::grid_bounded;
pub use matrix::grid_wf;
pub use matrix::lemma_mul_cell_bound;
pub use matrix::lemma_identity_law;
pub use matrix::lemma_identity_law_right;
pub use matrix::lemma_mul_cell_identity;
pub use matrix::lemma_mul_cell_identity_right;
pub use matrix::matrix_text;
pub use matrix::mul_cell;
pub use matrix::row_text;
pub use matrix::rows_text;
pub use matrix::Matrix;
pub use matrix::ENTRY_LIMIT;
