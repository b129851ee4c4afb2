pub mod batch;
pub mod errors;
pub mod resolver;
pub mod scheduler;
pub mod transcript;
