pub mod builder;
pub mod deb;
pub mod extract;
pub mod fetch;
pub mod hooks;
pub mod install;
pub mod query;
pub mod rpm;
pub mod sam;
pub mod resolver;
pub mod sandbox;
pub mod scripts;
pub mod solver;
pub mod store;
pub mod transaction;
pub mod triggers;
