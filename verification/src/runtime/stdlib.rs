pub use crate::stdlib::runtime::call;
