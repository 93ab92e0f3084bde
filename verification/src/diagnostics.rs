pub mod error;
pub mod reporter;
