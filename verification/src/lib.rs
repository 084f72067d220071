//! A first-person raycasting engine over a square tile grid.
//!
//! All geometry is carried out in signed fixed-point arithmetic so that the
//! whole pipeline — player movement with collision checks, incremental
//! rotation of the facing/camera-plane pair, the per-column DDA grid walk,
//! and the conversion of hit distances into framebuffer stripes — is exact
//! integer computation with verified contracts.

pub mod fixed;
pub mod grid;
pub mod player;
pub mod ray;
pub mod render;
