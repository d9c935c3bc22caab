pub mod error;
pub mod text;
pub mod types;
pub mod package;
pub mod sandbox;
pub mod store;
pub mod util;
pub mod sync;
