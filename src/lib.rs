pub mod device;
pub mod filter;
pub mod point_filters;
pub mod runconfig;
pub mod text;
pub mod trace;
pub mod utils;
