pub mod backend;
pub mod handler;
