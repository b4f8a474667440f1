pub mod bvh;
pub mod hit;
pub mod hittable_builder;
pub mod hittable_list;

pub use bvh::{Bvh, Entry, LowCorner};
pub use hit::{nearer, Nearer};
pub use hittable_builder::HittableBuilder;
pub use hittable_list::nearest_in_list;
