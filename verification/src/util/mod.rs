pub mod backend;
pub mod fs;
pub mod hash;
pub mod path;
pub mod process;
pub mod user;
