//! Pick a random sample of the files under a directory tree, filtered by size
//! and by excluded directory names, and print them with readable sizes.
pub mod size_format;
pub mod walk;
pub mod config;
pub mod sample;
pub mod present;
