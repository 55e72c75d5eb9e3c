pub mod cli;
pub mod commands;
pub mod data;
pub mod handler;
pub mod images;
pub mod session;
