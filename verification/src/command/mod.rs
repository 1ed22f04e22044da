pub mod classifier;
pub mod handler;
pub mod types;
pub mod validation;
