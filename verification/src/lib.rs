pub mod base;
pub mod objects;
pub mod render;
