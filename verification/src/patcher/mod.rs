pub mod patcher;
pub mod raw;
pub mod xebuild;
