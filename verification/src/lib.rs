//! gxBuild core library: Xbox 360 NAND image layout, spare/ECC handling,
//! patch formats, INI parsing, session command queue and the small crypto
//! helpers the builder relies on.

pub mod gxcore;
pub mod crypto;
pub mod filesystem;
pub mod patcher;
pub mod text;
