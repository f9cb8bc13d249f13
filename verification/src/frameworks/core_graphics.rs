//! Core Graphics.

pub mod cg_image;
