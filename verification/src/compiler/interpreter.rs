pub mod builtins;
pub mod value;
