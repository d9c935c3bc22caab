pub mod deduplication;
pub mod gc;
