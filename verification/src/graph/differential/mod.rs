//! The way back as the transpose of the way forth, in arithmetic without rounding.
pub mod changes;
pub mod forth;
pub mod moves;
pub mod pointwise;
pub mod products;
pub mod ring;
pub mod rows;
pub mod sums;
pub mod tape;
pub mod wrapping;
