mod flt;
mod laws;
mod matrix;

pub use flt::f64_add;
pub use flt::f64_div;
pub use flt::f64_gt;
pub use flt::f64_is_zero;
pub use flt::f64_mul;
pub use flt::f64_sub;
pub use laws::lemma_transpose_involution;
pub use matrix::Matrix;
pub use matrix::MatrixError;
