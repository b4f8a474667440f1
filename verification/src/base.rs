pub mod axis;
pub mod lerp;
pub mod order;

pub use axis::Axis;
pub use lerp::Lerp;
pub use order::order_key;
