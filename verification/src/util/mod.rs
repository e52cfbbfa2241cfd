pub mod checksum;
pub mod paths;
pub mod progress;
pub mod speed;
pub mod text;
