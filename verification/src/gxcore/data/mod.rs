pub mod discovery;
pub mod gxp;
pub mod nandsearch;
pub mod optini;
pub mod pool;
pub mod xeini;
pub mod filesearch;
