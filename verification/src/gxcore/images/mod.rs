pub mod blocks;
pub mod signature;
pub mod stfs;
