pub mod corona;
