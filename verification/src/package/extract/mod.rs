//! Unpacking `.deb` and `.rpm` archives.
pub mod codec;
pub mod deb;
pub mod rpm;
