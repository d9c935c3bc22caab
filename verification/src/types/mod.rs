pub mod verorder;
pub mod version;
pub mod package;
pub mod config;
pub mod db;
