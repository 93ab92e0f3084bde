pub mod math;
pub mod registry;
pub mod runtime;
pub mod system;
pub mod text;
