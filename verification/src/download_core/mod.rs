pub mod segment;
pub mod task;
pub mod table;
pub mod engine;
pub mod merge;
pub mod worker;
