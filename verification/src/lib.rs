//! Path flattening and line rasterisation on images.
pub mod point;
pub mod direction;
pub mod path;
pub mod path_flatten;
pub mod mask;
pub mod draw_path;
