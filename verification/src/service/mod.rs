pub mod footing;
pub mod ratio;
pub mod sampling;
