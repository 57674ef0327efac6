pub mod attention;
pub mod elementwise;
pub mod gqa;
pub mod linear;
pub mod normalization;
pub mod reduction;
pub mod transform;
