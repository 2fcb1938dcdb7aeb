//! Verified core of a neural-network inference engine: shape algebra, the
//! typed operator graph, the rewrite hooks of the axis and matrix-product
//! operators, and the geometry of batched matrix multiplication.

pub mod add_dims;
pub mod axis;
pub mod broadcast;
pub mod codegen;
pub mod concat;
pub mod datum;
pub mod dim;
pub mod error;
pub mod eval;
pub mod extract_image_patches;
pub mod fact;
pub mod geo;
pub mod indices;
pub mod laws;
pub mod matmul;
pub mod model;
pub mod name;
pub mod patch;
pub mod phy;
pub mod pulse;
pub mod rm_dims;
pub mod rules;
pub mod shapes;
pub mod split;
pub mod tensor;
