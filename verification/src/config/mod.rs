pub mod defaults;
pub mod loading;
pub mod plain;
pub mod types;
pub mod validation;
